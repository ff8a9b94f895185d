use jc3vrs::back_buffer::{BackBufferState, ReleaseAction, SetupsAction};
use jc3vrs::config::{BlitGamma, FreezeMode, MirrorFraming, ProjectionConvention};
use jc3vrs::foveation::{apply_force_test, packed_stencil_test, STENCIL_INDEX_MASK};
use jc3vrs::pose_control::{PoseFreeze, SubmissionLatch};
use jc3vrs::previews::PreviewsTracker;
use jc3vrs::resolution::{
    apply_native_resolution, on_shutdown, Pending, ResizeFrame, ResolutionState,
    SERVICE_TIMEOUT_FRAMES,
};
use jc3vrs::ui::{
    sharpness_change, single_pass_toggle_label, toggle_single_pass, trace_status, trace_to_start,
    EguiTab, SharpnessChange, SinglePassLevers, TabSelection, TraceStatus, DEFAULT_TRACE_FRAMES,
};
use jc3vrs::vr_state::{
    busy_status, negotiate_format, session_label, AutoRecenter, FailureLog, FrameBeginStreak,
    SessionAction, SessionStateKind, UpdateStep, VrState, VrStatus,
};

fn frame(target: Option<(u32, u32)>, current: (u32, u32)) -> ResizeFrame {
    ResizeFrame {
        target,
        current,
        window_rect: Some((0, 0, 1920, 1080)),
        client_size: Some((1920, 1080)),
        own_back_buffer: true,
    }
}

#[test]
fn back_buffer_ownership_transitions() {
    let mut b = BackBufferState::new();
    assert!(!b.owned() && !b.installed() && !b.resize_substitute_bypassed());
    b.enable();
    assert!(b.owned());
    assert_eq!(b.substitute_render_setups(), SetupsAction::Substitute);
    b.finish_substitution(true);
    assert!(b.installed());
    b.set_backing((2048, 2000));
    assert_eq!(b.swapchain_sync_target((2048, 2000), Some((1920, 1080))), Some((1920, 1080)));
    assert_eq!(b.swapchain_sync_target((1920, 1080), Some((1920, 1080))), None);
    assert_eq!(b.needs_new_backing((2048, 2000)), Some(false));
    assert_eq!(b.needs_new_backing((4096, 2000)), Some(true));
    assert_eq!(b.needs_new_backing((0, 2000)), None);
    // Still installed: the texture is kept.
    assert!(matches!(b.release_backing_texture(), ReleaseAction::Retain));
    assert!(b.disable());
    assert!(!b.disable());
    assert_eq!(b.substitute_render_setups(), SetupsAction::ReleaseBacking);
    assert!(matches!(b.release_backing_texture(), ReleaseAction::Free((2048, 2000))));
    assert!(matches!(b.release_backing_texture(), ReleaseAction::NothingHeld));
    assert_eq!(b.substitute_render_setups(), SetupsAction::Nothing);
    // A failed substitution drops ownership.
    b.enable();
    b.substitute_render_setups();
    b.finish_substitution(false);
    assert!(!b.owned() && !b.installed());
}

#[test]
fn native_resolution_requests_and_services_a_resize() {
    let mut st = ResolutionState::new();
    let mut native = true;
    let mut back = BackBufferState::new();
    let eye = Some((2048, 2000));
    let r = apply_native_resolution(&mut st, &mut native, &mut back, frame(eye, (1920, 1080)));
    assert_eq!(r, Some((2048, 2000)));
    assert_eq!(st.original, Some((1920, 1080)));
    assert!(back.owned());
    let p = st.pending.expect("pending");
    assert!(!p.is_restore);
    assert_eq!(p.frames, 0);
    // Not serviced yet: wait.
    let r = apply_native_resolution(&mut st, &mut native, &mut back, frame(eye, (1920, 1080)));
    assert_eq!(r, None);
    assert_eq!(st.pending.expect("pending").frames, 1);
    // Serviced: nothing more to do.
    let r = apply_native_resolution(&mut st, &mut native, &mut back, frame(eye, (2048, 2000)));
    assert_eq!(r, None);
    assert!(st.pending.is_none());
    assert!(native);
    // Session over: restore to the window's size, ownership released first.
    let r = apply_native_resolution(&mut st, &mut native, &mut back, frame(None, (2048, 2000)));
    assert_eq!(r, Some((1920, 1080)));
    assert!(!back.owned());
    assert!(st.pending.expect("pending").is_restore);
}

#[test]
fn unserviced_resize_times_out_and_disables_native() {
    let mut st = ResolutionState {
        original: Some((1920, 1080)),
        pending: Some(Pending {
            target: (2048, 2000),
            is_restore: false,
            window_before: None,
            frames: SERVICE_TIMEOUT_FRAMES,
        }),
        shutting_down: false,
    };
    let mut native = true;
    let mut back = BackBufferState::new();
    back.enable();
    let r = apply_native_resolution(&mut st, &mut native, &mut back, frame(Some((2048, 2000)), (2048, 1000)));
    assert!(!native);
    assert_eq!(r, Some((1920, 1080)));
    assert!(!back.owned());
}

#[test]
fn moved_window_disables_native() {
    let mut st = ResolutionState {
        original: Some((1920, 1080)),
        pending: Some(Pending {
            target: (2048, 2000),
            is_restore: false,
            window_before: Some((0, 0, 100, 100)),
            frames: 3,
        }),
        shutting_down: false,
    };
    let mut native = true;
    let mut back = BackBufferState::new();
    let r = apply_native_resolution(&mut st, &mut native, &mut back, frame(Some((2048, 2000)), (2048, 2000)));
    assert!(!native);
    assert_eq!(r, Some((1920, 1080)));
}

#[test]
fn shutdown_restores_and_never_asks_for_native_again() {
    let mut st = ResolutionState { original: Some((1280, 720)), pending: None, shutting_down: false };
    let mut back = BackBufferState::new();
    back.enable();
    let r = on_shutdown(&mut st, &mut back, Some((1920, 1080)), Some((2048, 2000)));
    assert_eq!(r, Some((1920, 1080)));
    assert!(st.shutting_down && !back.owned());
    assert_eq!(st.original, Some((1920, 1080)));
    let mut native = true;
    let r = apply_native_resolution(&mut st, &mut native, &mut back, frame(Some((2048, 2000)), (1920, 1080)));
    assert_eq!(r, None);
    // Never taken over: nothing to restore.
    let mut fresh = ResolutionState::new();
    assert_eq!(on_shutdown(&mut fresh, &mut back, Some((1920, 1080)), Some((1920, 1080))), None);
}

#[test]
fn stencil_test_bits() {
    assert_eq!(packed_stencil_test(1), 0x0000_0011_0800_09C0);
    assert_eq!(packed_stencil_test(0x180), 0x0000_0011_0804_01C0);
    let bits = packed_stencil_test(0x80);
    assert_eq!(bits & !STENCIL_INDEX_MASK, 0);
    assert_eq!(apply_force_test(0x0000_0000_0000_0015, true, bits), Some(0x15 | bits));
    assert_eq!(apply_force_test(0x40, true, bits), None);
    assert_eq!(apply_force_test(0x15, false, bits), None);
    assert_eq!(apply_force_test(0x15, true, 0), None);
    // Bit 31 lies outside the stencil part and is kept too.
    assert_eq!(apply_force_test(0xFF_FFFF_FFBF, true, bits), Some(0x8000_003F | bits));
}

#[test]
fn previews_timeout() {
    let mut t = PreviewsTracker::new();
    assert!(!t.previews_visible(1000));
    t.mark_previews_visible(1000);
    assert!(t.previews_visible(1000));
    assert!(t.previews_visible(1249));
    assert!(!t.previews_visible(1250));
    assert!(t.previews_visible(900));
}

#[test]
fn configuration_defaults() {
    assert_eq!(ProjectionConvention::default(), ProjectionConvention::EnginePreReverseZ);
    assert_eq!(FreezeMode::default(), FreezeMode::Off);
    assert_eq!(BlitGamma::default(), BlitGamma::Linearize);
    assert_eq!(MirrorFraming::default(), MirrorFraming::Fill);
}

#[test]
fn tab_bar() {
    let tabs = EguiTab::all();
    let names: Vec<&str> = tabs.iter().map(|t| t.name()).collect();
    assert_eq!(names, vec!["Render", "Hud", "Debug", "Camera", "Game", "Environment", "Vr"]);
    let mut sel = TabSelection::new();
    assert_eq!(EguiTab::get(&sel), EguiTab::Render);
    sel.select(EguiTab::Vr);
    assert_eq!(EguiTab::get(&sel), EguiTab::Vr);
}

#[test]
fn pose_freeze_and_reset() {
    let mut f: PoseFreeze<u8, (i32, i32)> = PoseFreeze::new();
    assert_eq!(f.current(), None);
    f.set_current((1, 1));
    assert_eq!(f.current(), None);
    assert!(f.needs_full_camera_capture());
    assert_eq!(f.full_camera_transform((10, 20)), (10, 20));
    assert_eq!(f.full_camera_transform((99, 99)), (10, 20));
    f.set_current((11, 20));
    assert_eq!(f.full_camera_transform((0, 0)), (11, 20));
    f.reset();
    assert_eq!(f.current(), Some((10, 20)));
    assert_eq!(f.base(), Some((10, 20)));
    // The other mode captures afresh.
    assert!(f.needs_cockpit_capture());
    assert_eq!(f.frozen_frame(7, (500, 60)), (7, (500, 60)));
    assert_eq!(f.frozen_frame(8, (0, 0)), (7, (500, 60)));
    f.clear();
    assert_eq!(f.base(), None);
}

#[test]
fn submission_poses_latch_only_while_frozen() {
    let live = |x: f32| [(x - 0.032, 1.6f32, 0.0f32), (x + 0.032, 1.6, 0.0)];
    let mut latch = SubmissionLatch::new();
    assert_eq!(latch.submission_poses(false, live(0.0))[0].0, -0.032);
    assert_eq!(latch.submission_poses(true, live(0.0))[0].0, -0.032);
    assert_eq!(latch.submission_poses(true, live(5.0))[0].0, -0.032);
    assert_eq!(latch.submission_poses(false, live(5.0))[0].0, 4.968);
    assert_eq!(latch.submission_poses(true, live(5.0))[0].0, 4.968);
    latch.submission_poses(false, live(0.0));
}

#[test]
fn runtime_state_machine() {
    let mut s: VrState<u8> = VrState::new();
    assert_eq!(s.update(true, true), UpdateStep::Quiesce);
    assert_eq!(s.update(false, false), UpdateStep::Idle);
    assert_eq!(s.update(false, true), UpdateStep::TryBringUp);
    assert!(s.try_bring_up(100, 5));
    assert!(!s.try_bring_up(103, 5));
    assert!(s.try_bring_up(105, 5));
    s.brought_up(Some((2016, 2224)), Some("Monado".to_string()));
    assert_eq!(s.update(false, true), UpdateStep::PumpEvents);
    assert_eq!(s.update(false, false), UpdateStep::TearDown);
    assert!(!s.is_running());
    assert_eq!(s.on_session_state(SessionStateKind::Ready), SessionAction::Begin);
    assert!(!s.session_begun(true));
    assert!(s.is_running());
    let status = s.status(true, Some((2048, 2224)));
    assert!(status.running && status.instance_up && !status.busy);
    assert_eq!(status.runtime_name.as_deref(), Some("Monado"));
    assert_eq!(status.eye_resolution, Some((2048, 2224)));
    assert_eq!(s.recommended_view(), Some((2016, 2224)));
    assert!(!s.recenter());
    s.set_head_pose(9);
    assert!(s.recenter());
    assert_eq!(s.baseline(), Some(9));
    assert_eq!(s.on_session_state(SessionStateKind::Stopping), SessionAction::End);
    assert!(!s.is_running());
    assert_eq!(s.on_session_state(SessionStateKind::LossPending), SessionAction::TearDown);
    let plan = s.teardown(false);
    assert!(plan.drain_gpu && !plan.end_cleanly && !plan.persist);
    assert_eq!(s.update(false, true), UpdateStep::TryBringUp);
    assert_eq!(s.baseline(), None);
    assert_eq!(s.on_session_state(SessionStateKind::Ready), SessionAction::Nothing);
    let again = s.uninstall(true);
    assert!(!again.drain_gpu && again.persist);
    let b = busy_status(true);
    assert!(b.busy && b.enabled && !b.running);
}

#[test]
fn failed_begin_asks_for_teardown() {
    let mut s: VrState<u8> = VrState::new();
    s.brought_up(None, None);
    assert!(s.session_begun(false));
    let plan = s.teardown(false);
    assert!(plan.drain_gpu && !plan.end_cleanly);
}

#[test]
fn frame_begin_failure_streak() {
    let mut f = FrameBeginStreak::new();
    assert_eq!(f.on_success(), None);
    assert_eq!(f.on_failure(), FailureLog::First);
    for _ in 2..90 {
        assert_eq!(f.on_failure(), FailureLog::Quiet);
    }
    assert_eq!(f.on_failure(), FailureLog::Reminder(90));
    assert_eq!(f.on_success(), Some(90));
    assert_eq!(f.on_success(), None);
}

#[test]
fn swapchain_format_choice() {
    assert_eq!(negotiate_format(&vec![87, 91, 29]), Some(29));
    assert_eq!(negotiate_format(&vec![87, 91]), Some(91));
    assert_eq!(negotiate_format(&vec![87, 28]), Some(87));
    assert_eq!(negotiate_format(&vec![]), None);
}

#[test]
fn auto_recenter_fires_once_settled() {
    let mut a: AutoRecenter<u8> = AutoRecenter::new();
    // Not armed until gameplay is left once.
    assert!(!a.tick(true, true, true, Some(1), true));
    assert!(!a.tick(false, true, true, Some(1), true));
    let mut fired = 0;
    for frame in 0..30 {
        let settled = a.last_anchor().is_some();
        if a.tick(true, true, true, Some(1), settled) {
            fired += 1;
            assert_eq!(frame, 24);
        }
    }
    assert_eq!(fired, 1);
    // Moving resets the count.
    assert!(!a.tick(false, false, true, None, false));
    assert!(!a.tick(true, true, true, Some(2), false));
    assert!(!a.tick(true, true, false, Some(2), true));
}

#[test]
fn session_labels() {
    let status = |enabled, instance_up, running| VrStatus {
        enabled,
        instance_up,
        running,
        runtime_name: None,
        eye_resolution: None,
        busy: false,
    };
    assert_eq!(
        session_label(&busy_status(true)),
        "(busy -- the frame tail holds the runtime lock)"
    );
    assert_eq!(session_label(&status(false, true, true)), "disabled (flatscreen stereo)");
    assert_eq!(session_label(&status(true, true, true)), "running");
    assert_eq!(session_label(&status(true, true, false)), "instance up, session idle");
    assert_eq!(session_label(&status(true, false, false)), "no runtime (retrying)");
}

#[test]
fn ownership_ends_when_the_session_does_even_at_the_window_size() {
    let mut st = ResolutionState { original: Some((1920, 1080)), pending: None, shutting_down: false };
    let mut native = true;
    let mut back = BackBufferState::new();
    back.enable();
    // The engine already renders at the window size, yet the release still takes a resize.
    let r = apply_native_resolution(&mut st, &mut native, &mut back, frame(None, (1920, 1080)));
    assert_eq!(r, Some((1920, 1080)));
    assert!(!back.owned());
    // And once released, nothing further is asked.
    st.pending = None;
    let r = apply_native_resolution(&mut st, &mut native, &mut back, frame(None, (1920, 1080)));
    assert_eq!(r, None);
}

#[test]
fn swapchain_sync_waits_for_the_substitution() {
    let mut b = BackBufferState::new();
    b.enable();
    b.set_backing((10, 10));
    // Owned and a texture held, but nothing installed: no sync.
    assert_eq!(b.swapchain_sync_target((2048, 2000), Some((1920, 1080))), None);
    b.substitute_render_setups();
    b.finish_substitution(true);
    assert_eq!(b.swapchain_sync_target((2048, 2000), Some((1920, 1080))), Some((1920, 1080)));
    assert_eq!(b.swapchain_sync_target((2048, 2000), None), None);
    b.disable();
    assert_eq!(b.swapchain_sync_target((2048, 2000), Some((1920, 1080))), None);
}

#[test]
fn single_pass_all_in_all_out() {
    let off = SinglePassLevers {
        enabled: false,
        dual_eye: true,
        collapse: false,
        double_wide: false,
        reproject: true,
        reproject_camera_only: false,
        terrain: false,
        tree_impostors: false,
        bark: false,
        foliage: false,
        occluder: false,
        patch_dryrun: true,
    };
    assert_eq!(single_pass_toggle_label(false), "\u{26A1} Enable single-pass stereo");
    assert_eq!(single_pass_toggle_label(true), "\u{26A1} Disable single-pass stereo");
    let on = toggle_single_pass(&off, true);
    let l = on.levers;
    assert!(l.enabled && l.dual_eye && l.collapse && l.double_wide && l.reproject);
    assert!(l.reproject_camera_only && l.terrain && l.tree_impostors && l.bark && l.foliage && l.occluder);
    assert!(!l.patch_dryrun);
    assert!(on.native_resolution && on.far_field_to_collect && on.reload_shaders);
    let back = toggle_single_pass(&on.levers, true);
    let l = back.levers;
    assert!(!l.enabled && !l.dual_eye && !l.occluder && !l.patch_dryrun);
    assert!(!back.native_resolution && !back.far_field_to_collect && back.reload_shaders);
    assert!(!toggle_single_pass(&off, false).far_field_to_collect);
}

#[test]
fn sharpening_checkbox_and_trace_buttons() {
    assert_eq!(sharpness_change(true, false), SharpnessChange::SetDefault);
    assert_eq!(sharpness_change(false, true), SharpnessChange::Clear);
    assert_eq!(sharpness_change(true, true), SharpnessChange::Keep);
    assert_eq!(sharpness_change(false, false), SharpnessChange::Keep);
    assert_eq!(trace_to_start(true, false, DEFAULT_TRACE_FRAMES), Some(4));
    assert_eq!(trace_to_start(false, true, 120), Some(120));
    assert_eq!(trace_to_start(true, true, 120), Some(120));
    assert_eq!(trace_to_start(false, false, 120), None);
    assert_eq!(trace_status(3, true), TraceStatus::Tracing(3));
    assert_eq!(trace_status(0, true), TraceStatus::Dumped);
    assert_eq!(trace_status(0, false), TraceStatus::Idle);
}
