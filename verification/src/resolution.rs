//! The native-resolution driver: once per frame it decides whether to ask the engine for a
//! deferred resize to the per-eye render size, or back to the size it had before, verifies each
//! serviced request, and turns the feature off when a request faults. It sequences back-buffer
//! ownership against the resize that carries it. The engine calls live with the caller.
use crate::back_buffer::BackBufferState;
use vstd::prelude::*;

verus! {

/// How many frames a requested resize may stay unserviced before it counts as a fault.
pub const SERVICE_TIMEOUT_FRAMES: u32 = 240;

/// A window client rectangle (left, top, right, bottom).
pub type WindowRect = (i32, i32, i32, i32);

/// An in-flight deferred resize request.
#[derive(Debug, Clone, Copy)]
pub struct Pending {
    /// The requested display size; the request is serviced once the device reports it.
    pub target: (u32, u32),
    /// Whether this request restores the original size.
    pub is_restore: bool,
    /// The window rectangle when the request was made, if it could be read.
    pub window_before: Option<WindowRect>,
    /// Frames waited so far.
    pub frames: u32,
}

/// The driver's state.
#[derive(Debug, Clone, Copy)]
pub struct ResolutionState {
    /// The display size before the first takeover: what a restore returns to.
    pub original: Option<(u32, u32)>,
    /// The request awaiting service.
    pub pending: Option<Pending>,
    /// Set once the shutdown restore has been requested; nothing asks for native size after it.
    pub shutting_down: bool,
}

/// What the driver sees this frame.
#[derive(Debug, Clone, Copy)]
pub struct ResizeFrame {
    /// The render size a running session wants (the engine render resolution), read while native
    /// resolution was on at the start of the frame; `None` otherwise.
    pub target: Option<(u32, u32)>,
    /// The display size the engine's device reports now.
    pub current: (u32, u32),
    /// The window rectangle now, if it can be read.
    pub window_rect: Option<WindowRect>,
    /// The window's client size now, if it can be read.
    pub client_size: Option<(u32, u32)>,
    /// Whether the configuration asks for back-buffer ownership.
    pub own_back_buffer: bool,
}

impl ResolutionState {
    /// Nothing captured, nothing pending.
    pub fn new() -> (s: Self)
        ensures
            s == (ResolutionState { original: None, pending: None, shutting_down: false }),
    {
        ResolutionState { original: None, pending: None, shutting_down: false }
    }

    /// Whether a stored request is within its timeout.
    pub open spec fn wf(&self) -> bool {
        match self.pending {
            Some(p) => p.frames <= SERVICE_TIMEOUT_FRAMES,
            None => true,
        }
    }
}

/// Whether two sizes are the same.
pub fn same_size(a: (u32, u32), b: (u32, u32)) -> (r: bool)
    ensures
        r == (a == b),
{
    a.0 == b.0 && a.1 == b.1
}

/// Whether a window rectangle is unchanged across a resize; a rectangle missing on either side
/// cannot show a change.
pub open spec fn window_unchanged(before: Option<WindowRect>, after: Option<WindowRect>) -> bool {
    match (before, after) {
        (Some(b), Some(a)) => b == a,
        _ => true,
    }
}

/// The size to restore to: the window's live client size, falling back to the size captured at
/// takeover; `None` when there never was a takeover.
pub open spec fn restore_target_of(original: Option<(u32, u32)>, client: Option<(u32, u32)>) -> Option<
    (u32, u32),
> {
    match original {
        Some(o) => match client {
            Some(c) => Some(c),
            None => Some(o),
        },
        None => None,
    }
}

/// The size to restore to (see `restore_target_of`).
pub fn restore_target(st: &ResolutionState, client_size: Option<(u32, u32)>) -> (r: Option<
    (u32, u32),
>)
    ensures
        r == restore_target_of(st.original, client_size),
{
    match st.original {
        Some(o) => match client_size {
            Some(c) => Some(c),
            None => Some(o),
        },
        None => None,
    }
}

/// The servicing half of a frame: the request still pending afterwards, whether native
/// resolution stays on, and whether the frame stops there (the request is still in time).
/// A request is serviced when the device reports its size; it faults when the window moved across
/// a native request, or when it stays unserviced past the timeout, and a fault on a native
/// (non-restore) request turns native resolution off.
pub open spec fn service_phase(p: Option<Pending>, f: ResizeFrame, native: bool) -> (
    Option<Pending>,
    bool,
    bool,
) {
    match p {
        None => (None, native, false),
        Some(p) => {
            if f.current == p.target {
                (
                    None,
                    if !window_unchanged(p.window_before, f.window_rect) && !p.is_restore {
                        false
                    } else {
                        native
                    },
                    false,
                )
            } else if p.frames + 1 > SERVICE_TIMEOUT_FRAMES {
                (
                    None,
                    if !p.is_restore {
                        false
                    } else {
                        native
                    },
                    false,
                )
            } else {
                (Some(Pending { frames: (p.frames + 1) as u32, ..p }), native, true)
            }
        },
    }
}

/// The size the engine should be driven to after servicing: the native target while it is still
/// wanted (not shutting down, native resolution on), else the restore target.
pub open spec fn desired_size(st: ResolutionState, native: bool, f: ResizeFrame) -> Option<(u32, u32)> {
    let target = if st.shutting_down || !native {
        None
    } else {
        f.target
    };
    match target {
        Some(t) => Some(t),
        None => restore_target_of(st.original, f.client_size),
    }
}

/// Whether the mod should own the back buffer after servicing: only while driving a native size,
/// and only when the configuration asks for it.
pub open spec fn want_owned(st: ResolutionState, native: bool, f: ResizeFrame) -> bool {
    !st.shutting_down && native && f.target is Some && f.own_back_buffer
}

/// The request a frame issues, if any: the desired size, when there is one and either it differs
/// from the current size or ownership has to change (only a resize carries an ownership change).
pub open spec fn request_of(st: ResolutionState, native: bool, owned: bool, f: ResizeFrame) -> Option<
    (u32, u32),
> {
    match desired_size(st, native, f) {
        None => None,
        Some(d) => {
            if d == f.current && want_owned(st, native, f) == owned {
                None
            } else {
                Some(d)
            }
        },
    }
}

/// Whether the mod owns the back buffer after a frame that began owning it as `owned`: unchanged
/// while the frame stops at a pending request or issues none, else as the request carries it.
pub open spec fn owned_after(st: ResolutionState, native: bool, owned: bool, f: ResizeFrame) -> bool {
    let (kept, native2, stop) = service_phase(st.pending, f, native);
    let mid = ResolutionState { pending: kept, ..st };
    if stop {
        owned
    } else {
        match request_of(mid, native2, owned, f) {
            None => owned,
            Some(_) => want_owned(mid, native2, f),
        }
    }
}

/// One frame of the driver: service the pending request (see `service_phase`), then issue a
/// request for the desired size (see `request_of`), setting ownership just before it. Updates
/// the state, the native-resolution switch and the back-buffer ownership, and returns the size
/// requested, if any. The original size is captured at the first request; a request restores when
/// it asks for the original size.
pub fn apply_native_resolution(
    st: &mut ResolutionState,
    native_resolution: &mut bool,
    back: &mut BackBufferState,
    f: ResizeFrame,
) -> (request: Option<(u32, u32)>)
    requires
        old(st).wf(),
    ensures
        final(st).wf(),
        final(back).spec_owned() == owned_after(*old(st), *old(native_resolution), old(back).spec_owned(), f),
        ({
            let (kept, native, stop) = service_phase(old(st).pending, f, *old(native_resolution));
            let mid = ResolutionState { pending: kept, ..*old(st) };
            &&& *final(native_resolution) == native
            &&& if stop {
                &&& request is None
                &&& *final(st) == mid
                &&& *final(back) == *old(back)
            } else {
                &&& request == request_of(mid, native, old(back).spec_owned(), f)
                &&& match request {
                    None => *final(st) == mid && *final(back) == *old(back),
                    Some(r) => {
                        let original = match mid.original {
                            Some(o) => o,
                            None => f.current,
                        };
                        &&& *final(st) == (ResolutionState {
                            original: Some(original),
                            pending: Some(
                                Pending {
                                    target: r,
                                    is_restore: original == r,
                                    window_before: f.window_rect,
                                    frames: 0,
                                },
                            ),
                            shutting_down: mid.shutting_down,
                        })
                        &&& final(back).spec_owned() == want_owned(mid, native, f)
                        &&& final(back).spec_installed() == old(back).spec_installed()
                        &&& final(back).spec_bypassed() == old(back).spec_bypassed()
                        &&& final(back).spec_backing() == old(back).spec_backing()
                    },
                }
            }
        }),
{
    if let Some(mut p) = st.pending {
        st.pending = None;
        if same_size(f.current, p.target) {
            let window_ok = match (p.window_before, f.window_rect) {
                (Some(b), Some(a)) => b.0 == a.0 && b.1 == a.1 && b.2 == a.2 && b.3 == a.3,
                _ => true,
            };
            if !window_ok && !p.is_restore {
                *native_resolution = false;
            }
        } else {
            p.frames = p.frames + 1;
            if p.frames > SERVICE_TIMEOUT_FRAMES {
                if !p.is_restore {
                    *native_resolution = false;
                }
            } else {
                st.pending = Some(p);
                return None;
            }
        }
    }
    let target = if st.shutting_down || !*native_resolution {
        None
    } else {
        f.target
    };
    let desired = match target {
        Some(t) => Some(t),
        None => restore_target(st, f.client_size),
    };
    let desired = match desired {
        Some(d) => d,
        None => return None,
    };
    let want = target.is_some() && f.own_back_buffer;
    let ownership_change = want != back.owned();
    if same_size(desired, f.current) && !ownership_change {
        return None;
    }
    if want {
        back.enable();
    } else {
        back.disable();
    }
    let original = match st.original {
        Some(o) => o,
        None => f.current,
    };
    st.original = Some(original);
    st.pending = Some(
        Pending {
            target: desired,
            is_restore: same_size(original, desired),
            window_before: f.window_rect,
            frames: 0,
        },
    );
    Some(desired)
}

/// The synchronous shutdown restore's decision: mark shutdown, drop any pending request, settle
/// the original size on the restore target, and return the size to resize the engine to now, if
/// any. Nothing when there never was a takeover or the engine cannot be reached (`current` is
/// `None`); otherwise the restore is forced whenever a substitution is still installed, since only
/// a resize rebuilds the engine's own objects.
pub fn restore_display_size(
    st: &mut ResolutionState,
    client_size: Option<(u32, u32)>,
    current: Option<(u32, u32)>,
    installed: bool,
) -> (r: Option<(u32, u32)>)
    ensures
        final(st).shutting_down,
        old(st).original is None ==> r is None && *final(st) == (ResolutionState {
            shutting_down: true,
            ..*old(st)
        }),
        old(st).original is Some ==> {
            let o = restore_target_of(old(st).original, client_size).unwrap();
            &&& *final(st) == (ResolutionState {
                original: Some(o),
                pending: None,
                shutting_down: true,
            })
            &&& r == (match current {
                None => None,
                Some(c) => if c == o && !installed {
                    None
                } else {
                    Some(o)
                },
            })
        },
{
    st.shutting_down = true;
    let original = match st.original {
        Some(o) => o,
        None => return None,
    };
    let original = match restore_target(st, client_size) {
        Some(t) => t,
        None => original,
    };
    st.original = Some(original);
    st.pending = None;
    match current {
        None => None,
        Some(c) => {
            if same_size(c, original) && !installed {
                None
            } else {
                Some(original)
            }
        },
    }
}

/// The lifecycle cleanup's decision: release back-buffer ownership before the restore, then decide
/// the restore (see `restore_display_size`).
pub fn on_shutdown(
    st: &mut ResolutionState,
    back: &mut BackBufferState,
    client_size: Option<(u32, u32)>,
    current: Option<(u32, u32)>,
) -> (r: Option<(u32, u32)>)
    ensures
        !final(back).spec_owned(),
        final(back).spec_installed() == old(back).spec_installed(),
        final(back).spec_backing() == old(back).spec_backing(),
        final(back).spec_bypassed() == old(back).spec_bypassed(),
        final(st).shutting_down,
        old(st).original is None ==> r is None,
        old(st).original is Some ==> {
            let o = restore_target_of(old(st).original, client_size).unwrap();
            &&& final(st).original == Some(o)
            &&& final(st).pending is None
            &&& r == (match current {
                None => None,
                Some(c) => if c == o && !old(back).spec_installed() {
                    None
                } else {
                    Some(o)
                },
            })
        },
{
    back.disable();
    let installed = back.installed();
    restore_display_size(st, client_size, current, installed)
}

/// Once shutdown has begun, the driver never asks for a native size again: any request it issues
/// is the restore target.
pub proof fn law_no_native_request_after_shutdown(
    st: ResolutionState,
    native: bool,
    owned: bool,
    f: ResizeFrame,
)
    requires
        st.shutting_down,
    ensures
        request_of(st, native, owned, f) is None || request_of(st, native, owned, f)
            == restore_target_of(st.original, f.client_size),
{
}

/// A native request that the engine leaves unserviced past the timeout is dropped and turns native
/// resolution off.
pub proof fn law_timeout_disables_native(p: Pending, f: ResizeFrame, native: bool)
    requires
        f.current != p.target,
        p.frames == SERVICE_TIMEOUT_FRAMES,
        !p.is_restore,
    ensures
        service_phase(Some(p), f, native) == (None::<Pending>, false, false),
{
}

/// A request still in time stays pending, one frame older, and the frame does nothing else.
pub proof fn law_pending_waits(p: Pending, f: ResizeFrame, native: bool)
    requires
        f.current != p.target,
        p.frames < SERVICE_TIMEOUT_FRAMES,
    ensures
        service_phase(Some(p), f, native) == (
            Some(Pending { frames: (p.frames + 1) as u32, ..p }),
            native,
            true,
        ),
{
}

/// The shutdown restore and the per-frame restore agree: once the shutdown restore has settled the
/// original size on the restore target, the per-frame restore target for the same window is that
/// same size.
pub proof fn law_restore_targets_agree(original: (u32, u32), client: Option<(u32, u32)>)
    ensures
        restore_target_of(Some(restore_target_of(Some(original), client).unwrap()), client)
            == restore_target_of(Some(original), client),
{
}

/// A request is issued only when it changes something: the size, or the back-buffer ownership it
/// carries.
pub proof fn law_requests_change_something(
    st: ResolutionState,
    native: bool,
    owned: bool,
    f: ResizeFrame,
)
    ensures
        request_of(st, native, owned, f) matches Some(d) ==> (d != f.current || want_owned(
            st,
            native,
            f,
        ) != owned),
{
}

/// The back buffer is given up as soon as a frame runs without a session to drive: once the frame
/// is not waiting on a request, ownership ends (whenever it was taken, the takeover size was
/// captured).
pub proof fn law_ownership_ends_without_session(
    st: ResolutionState,
    native: bool,
    owned: bool,
    f: ResizeFrame,
)
    requires
        f.target is None,
        owned ==> st.original is Some && !service_phase(st.pending, f, native).2,
    ensures
        !owned_after(st, native, owned, f),
{
}

/// The driver never takes a back buffer the configuration does not ask for: a frame whose
/// configuration leaves ownership off leaves an unowned back buffer unowned; and a frame that
/// already renders at the native size, with nothing pending and nothing owned, asks for nothing.
pub proof fn law_no_ownership_unless_configured(
    st: ResolutionState,
    native: bool,
    owned: bool,
    f: ResizeFrame,
)
    requires
        !f.own_back_buffer,
        !owned,
    ensures
        !owned_after(st, native, owned, f),
        (st.pending is None && !st.shutting_down && native && f.target == Some(f.current))
            ==> request_of(st, native, owned, f) is None,
{
}

} // verus!
