//! The VR runtime's state machine: whether an OpenXR instance and session are up, the bring-up
//! retry cadence, session-state transitions, ordered teardown, the recenter baseline, the frame
//! begin failure streak and the swapchain format choice. The OpenXR calls live with the caller,
//! which performs each action decided here and reports back; head poses are carried as an opaque
//! type `P`.
use vstd::prelude::*;

verus! {

/// The runtime state: `instance_up` false means torn down (flatscreen).
pub struct VrState<P> {
    instance_up: bool,
    session: Option<bool>,
    last_attempt: Option<u64>,
    baseline: Option<P>,
    latest_head_pose: Option<P>,
    recommended_view: Option<(u32, u32)>,
    runtime_name: Option<String>,
}

/// The state as plain values.
pub struct VrStateView<P> {
    pub instance_up: bool,
    /// Whether a session exists, and then whether it is running.
    pub session: Option<bool>,
    /// When bring-up was last attempted, in seconds of the caller's monotonic clock.
    pub last_attempt: Option<u64>,
    /// The head pose the recenter baseline was taken from.
    pub baseline: Option<P>,
    pub latest_head_pose: Option<P>,
    pub recommended_view: Option<(u32, u32)>,
    pub runtime_name: Option<Seq<char>>,
}

impl<P> View for VrState<P> {
    type V = VrStateView<P>;

    closed spec fn view(&self) -> VrStateView<P> {
        VrStateView {
            instance_up: self.instance_up,
            session: self.session,
            last_attempt: self.last_attempt,
            baseline: self.baseline,
            latest_head_pose: self.latest_head_pose,
            recommended_view: self.recommended_view,
            runtime_name: match self.runtime_name {
                Some(s) => Some(s@),
                None => None,
            },
        }
    }
}

/// A snapshot of the runtime for the debug UI.
pub struct VrStatus {
    /// Whether the master switch is on.
    pub enabled: bool,
    /// Whether an instance is up.
    pub instance_up: bool,
    /// Whether a session is running.
    pub running: bool,
    /// The runtime's name, while up.
    pub runtime_name: Option<String>,
    /// The per-eye render resolution, while a session runs.
    pub eye_resolution: Option<(u32, u32)>,
    /// Whether the state was busy, so every field but `enabled` is a default.
    pub busy: bool,
}

/// What the once-per-frame update has to do.
#[derive(Debug, Clone, Copy, PartialEq, Eq, Structural)]
pub enum UpdateStep {
    /// Shutdown has begun: do nothing and report no session.
    Quiesce,
    /// VR is switched off while an instance is up: tear everything down, persisting nothing.
    TearDown,
    /// VR is switched off and nothing is up.
    Idle,
    /// No instance yet: attempt bring-up if the retry cadence allows.
    TryBringUp,
    /// An instance is up: pump its events.
    PumpEvents,
}

/// The session-state transitions the runtime reports.
#[derive(Debug, Clone, Copy, PartialEq, Eq, Structural)]
pub enum SessionStateKind {
    Ready,
    Stopping,
    Exiting,
    LossPending,
    Other,
}

/// What a session-state transition asks for.
#[derive(Debug, Clone, Copy, PartialEq, Eq, Structural)]
pub enum SessionAction {
    /// Nothing (no session, or a transition that needs no action).
    Nothing,
    /// Begin the session; report the outcome with `session_begun`.
    Begin,
    /// End the session; it stops running whatever the end call returns.
    End,
    /// Tear the runtime down.
    TearDown,
}

/// What a teardown has to do with the runtime objects.
#[derive(Debug, Clone, Copy, PartialEq, Eq, Structural)]
pub struct TeardownPlan {
    /// Drain the GPU first (a session existed).
    pub drain_gpu: bool,
    /// Walk a running session through the exit handshake before destroying it.
    pub end_cleanly: bool,
    /// Keep the instance and session alive for a reinject instead of destroying them.
    pub persist: bool,
}

impl<P: Copy> VrState<P> {
    /// Torn down, nothing cached.
    pub fn new() -> (s: Self)
        ensures
            s@ == (VrStateView::<P> {
                instance_up: false,
                session: None,
                last_attempt: None,
                baseline: None,
                latest_head_pose: None,
                recommended_view: None,
                runtime_name: None,
            }),
    {
        VrState {
            instance_up: false,
            session: None,
            last_attempt: None,
            baseline: None,
            latest_head_pose: None,
            recommended_view: None,
            runtime_name: None,
        }
    }

    /// Whether a session is running.
    pub fn is_running(&self) -> (r: bool)
        ensures
            r == (self@.session == Some(true)),
    {
        match self.session {
            Some(running) => running,
            None => false,
        }
    }

    /// The runtime's recommended per-eye view size, cached at bring-up.
    pub fn recommended_view(&self) -> (r: Option<(u32, u32)>)
        ensures
            r == self@.recommended_view,
    {
        self.recommended_view
    }

    /// The once-per-frame update's decision (see `UpdateStep`).
    pub fn update(&self, shutting_down: bool, enabled: bool) -> (step: UpdateStep)
        ensures
            step == (if shutting_down {
                UpdateStep::Quiesce
            } else if !enabled {
                if self@.instance_up {
                    UpdateStep::TearDown
                } else {
                    UpdateStep::Idle
                }
            } else if !self@.instance_up {
                UpdateStep::TryBringUp
            } else {
                UpdateStep::PumpEvents
            }),
    {
        if shutting_down {
            UpdateStep::Quiesce
        } else if !enabled {
            if self.instance_up {
                UpdateStep::TearDown
            } else {
                UpdateStep::Idle
            }
        } else if !self.instance_up {
            UpdateStep::TryBringUp
        } else {
            UpdateStep::PumpEvents
        }
    }

    /// Whether a bring-up attempt is due at `now` (seconds): always at first, then once the retry
    /// interval has passed since the last attempt. A due attempt is recorded.
    pub fn try_bring_up(&mut self, now: u64, retry_interval_secs: u64) -> (due: bool)
        ensures
            due == (match old(self)@.last_attempt {
                None => true,
                Some(last) => !(now >= last && now - last < retry_interval_secs),
            }),
            due ==> final(self)@ == (VrStateView { last_attempt: Some(now), ..old(self)@ }),
            !due ==> final(self)@ == old(self)@,
    {
        match self.last_attempt {
            Some(last) => {
                if now >= last && now - last < retry_interval_secs {
                    return false;
                }
            },
            None => {},
        }
        self.last_attempt = Some(now);
        true
    }

    /// Record a successful bring-up: the instance and a not yet running session are up, with the
    /// recommended view size and runtime name the runtime reported.
    pub fn brought_up(&mut self, recommended_view: Option<(u32, u32)>, runtime_name: Option<String>)
        ensures
            final(self)@ == (VrStateView {
                instance_up: true,
                session: Some(false),
                recommended_view,
                runtime_name: match runtime_name {
                    Some(s) => Some(s@),
                    None => None,
                },
                ..old(self)@
            }),
    {
        self.instance_up = true;
        self.session = Some(false);
        self.recommended_view = recommended_view;
        self.runtime_name = runtime_name;
    }

    /// What a session-state transition asks for: begin on READY, end on STOPPING, tear down on
    /// EXITING or LOSS_PENDING; nothing without a session. Ending marks the session stopped.
    pub fn on_session_state(&mut self, state: SessionStateKind) -> (a: SessionAction)
        ensures
            old(self)@.session is None ==> a == SessionAction::Nothing && final(self)@ == old(
                self,
            )@,
            old(self)@.session is Some ==> a == (match state {
                SessionStateKind::Ready => SessionAction::Begin,
                SessionStateKind::Stopping => SessionAction::End,
                SessionStateKind::Exiting => SessionAction::TearDown,
                SessionStateKind::LossPending => SessionAction::TearDown,
                SessionStateKind::Other => SessionAction::Nothing,
            }) && final(self)@ == (if state == SessionStateKind::Stopping {
                VrStateView { session: Some(false), ..old(self)@ }
            } else {
                old(self)@
            }),
    {
        if self.session.is_none() {
            return SessionAction::Nothing;
        }
        match state {
            SessionStateKind::Ready => SessionAction::Begin,
            SessionStateKind::Stopping => {
                self.session = Some(false);
                SessionAction::End
            },
            SessionStateKind::Exiting => SessionAction::TearDown,
            SessionStateKind::LossPending => SessionAction::TearDown,
            SessionStateKind::Other => SessionAction::Nothing,
        }
    }

    /// Record the outcome of beginning the session: running on success; a failed begin asks for
    /// teardown (returns `true`).
    pub fn session_begun(&mut self, ok: bool) -> (tear_down: bool)
        ensures
            tear_down == (!ok && old(self)@.session is Some),
            (ok && old(self)@.session is Some) ==> final(self)@ == (VrStateView {
                session: Some(true),
                ..old(self)@
            }),
            !(ok && old(self)@.session is Some) ==> final(self)@ == old(self)@,
    {
        if self.session.is_none() {
            return false;
        }
        if ok {
            self.session = Some(true);
            false
        } else {
            true
        }
    }

    /// Tear the runtime down: decide what happens to the runtime objects (see `TeardownPlan`) and
    /// clear all state but the retry cadence. Idempotent.
    pub fn teardown(&mut self, persist: bool) -> (plan: TeardownPlan)
        ensures
            plan == (TeardownPlan {
                drain_gpu: old(self)@.session is Some,
                end_cleanly: !persist && old(self)@.session == Some(true),
                persist,
            }),
            final(self)@ == (VrStateView::<P> {
                instance_up: false,
                session: None,
                last_attempt: old(self)@.last_attempt,
                baseline: None,
                latest_head_pose: None,
                recommended_view: None,
                runtime_name: None,
            }),
    {
        let plan = TeardownPlan {
            drain_gpu: self.session.is_some(),
            end_cleanly: !persist && self.is_running(),
            persist,
        };
        self.instance_up = false;
        self.session = None;
        self.baseline = None;
        self.latest_head_pose = None;
        self.recommended_view = None;
        self.runtime_name = None;
        plan
    }

    /// Tear down on uninject, persisting the runtime objects when configured to (see `teardown`).
    pub fn uninstall(&mut self, persist_instance: bool) -> (plan: TeardownPlan)
        ensures
            plan == (TeardownPlan {
                drain_gpu: old(self)@.session is Some,
                end_cleanly: !persist_instance && old(self)@.session == Some(true),
                persist: persist_instance,
            }),
            final(self)@ == (VrStateView::<P> {
                instance_up: false,
                session: None,
                last_attempt: old(self)@.last_attempt,
                baseline: None,
                latest_head_pose: None,
                recommended_view: None,
                runtime_name: None,
            }),
    {
        self.teardown(persist_instance)
    }

    /// Record the head pose located this frame.
    pub fn set_head_pose(&mut self, pose: P)
        ensures
            final(self)@ == (VrStateView { latest_head_pose: Some(pose), ..old(self)@ }),
    {
        self.latest_head_pose = Some(pose);
    }

    /// The head pose the recenter baseline was taken from, if any.
    pub fn baseline(&self) -> (r: Option<P>)
        ensures
            r == self@.baseline,
    {
        self.baseline
    }

    /// Recenter: the baseline becomes the latest located head pose. Nothing happens (returns
    /// `false`) before any pose has been located.
    pub fn recenter(&mut self) -> (done: bool)
        ensures
            done == (old(self)@.latest_head_pose is Some),
            done ==> final(self)@ == (VrStateView {
                baseline: old(self)@.latest_head_pose,
                ..old(self)@
            }),
            !done ==> final(self)@ == old(self)@,
    {
        match self.latest_head_pose {
            Some(p) => {
                self.baseline = Some(p);
                true
            },
            None => false,
        }
    }

    /// Snapshot the runtime for the debug UI. `eye_resolution` is what the cached view size scales
    /// to; it is reported only while a session runs.
    pub fn status(&self, enabled: bool, eye_resolution: Option<(u32, u32)>) -> (s: VrStatus)
        ensures
            s.enabled == enabled,
            s.instance_up == self@.instance_up,
            s.running == (self@.session == Some(true)),
            (match s.runtime_name {
                Some(n) => Some(n@),
                None => None,
            }) == self@.runtime_name,
            s.eye_resolution == (if self@.session == Some(true) {
                eye_resolution
            } else {
                None
            }),
            !s.busy,
    {
        let running = self.is_running();
        VrStatus {
            enabled,
            instance_up: self.instance_up,
            running,
            runtime_name: match &self.runtime_name {
                Some(n) => Some(n.clone()),
                None => None,
            },
            eye_resolution: if running {
                eye_resolution
            } else {
                None
            },
            busy: false,
        }
    }
}

/// The snapshot when the state is busy: only the master switch is known.
pub fn busy_status(enabled: bool) -> (s: VrStatus)
    ensures
        s.enabled == enabled,
        !s.instance_up && !s.running && s.runtime_name is None && s.eye_resolution is None,
        s.busy,
{
    VrStatus {
        enabled,
        instance_up: false,
        running: false,
        runtime_name: None,
        eye_resolution: None,
        busy: true,
    }
}

/// The label the debug UI shows for a snapshot of the runtime.
pub open spec fn session_label_of(s: VrStatus) -> Seq<char> {
    if s.busy {
        "(busy -- the frame tail holds the runtime lock)"@
    } else if !s.enabled {
        "disabled (flatscreen stereo)"@
    } else if s.running {
        "running"@
    } else if s.instance_up {
        "instance up, session idle"@
    } else {
        "no runtime (retrying)"@
    }
}

/// A human-readable label for the runtime's session state (see `session_label_of`).
pub fn session_label(status: &VrStatus) -> (r: &'static str)
    ensures
        r@ == session_label_of(*status),
{
    if status.busy {
        return "(busy -- the frame tail holds the runtime lock)";
    }
    if !status.enabled {
        "disabled (flatscreen stereo)"
    } else if status.running {
        "running"
    } else if status.instance_up {
        "instance up, session idle"
    } else {
        "no runtime (retrying)"
    }
}

/// A teardown leaves nothing running, whatever came before, and a second teardown plans no work
/// on the runtime objects: teardown is idempotent.
pub proof fn law_teardown_idempotent<P>(s: VrStateView<P>, persist: bool)
    ensures
        ({
            let after = VrStateView::<P> {
                instance_up: false,
                session: None,
                last_attempt: s.last_attempt,
                baseline: None,
                latest_head_pose: None,
                recommended_view: None,
                runtime_name: None,
            };
            let second = TeardownPlan {
                drain_gpu: after.session is Some,
                end_cleanly: !persist && after.session == Some(true),
                persist,
            };
            &&& after.session != Some(true)
            &&& !second.drain_gpu && !second.end_cleanly
        }),
{
}

/// Whether `frame_begin` is in a failure streak, and how many frames it has failed.
pub struct FrameBeginStreak {
    failing: bool,
    count: u32,
}

/// What a failed frame begin logs.
#[derive(Debug, Clone, Copy, PartialEq, Eq, Structural)]
pub enum FailureLog {
    /// The first failure of a streak: report it in full.
    First,
    /// A periodic reminder (every 90 failures).
    Reminder(u32),
    /// Nothing.
    Quiet,
}

impl FrameBeginStreak {
    /// No streak.
    pub fn new() -> (s: Self)
        ensures
            !s.spec_failing() && s.spec_count() == 0,
    {
        FrameBeginStreak { failing: false, count: 0 }
    }

    pub closed spec fn spec_failing(&self) -> bool {
        self.failing
    }

    pub closed spec fn spec_count(&self) -> u32 {
        self.count
    }

    /// A frame began: ends a streak, returning its length to report.
    pub fn on_success(&mut self) -> (recovered: Option<u32>)
        ensures
            recovered == (if old(self).spec_failing() {
                Some(old(self).spec_count())
            } else {
                None
            }),
            !final(self).spec_failing(),
            final(self).spec_count() == (if old(self).spec_failing() {
                0
            } else {
                old(self).spec_count()
            }),
    {
        if self.failing {
            self.failing = false;
            let frames = self.count;
            self.count = 0;
            Some(frames)
        } else {
            None
        }
    }

    /// A frame failed to begin: counts it (wrapping) and says what to log: in full at the start of
    /// a streak, then a reminder every 90th failure.
    pub fn on_failure(&mut self) -> (log: FailureLog)
        ensures
            final(self).spec_failing(),
            final(self).spec_count() == (if old(self).spec_count() == u32::MAX {
                0
            } else {
                old(self).spec_count() + 1
            }),
            log == (if !old(self).spec_failing() {
                FailureLog::First
            } else if final(self).spec_count() % 90 == 0 {
                FailureLog::Reminder(final(self).spec_count())
            } else {
                FailureLog::Quiet
            }),
    {
        let count = if self.count == u32::MAX {
            0
        } else {
            self.count + 1
        };
        self.count = count;
        let was_failing = self.failing;
        self.failing = true;
        if !was_failing {
            FailureLog::First
        } else if count % 90 == 0 {
            FailureLog::Reminder(count)
        } else {
            FailureLog::Quiet
        }
    }
}

/// The swapchain format to use: the first preferred sRGB format the runtime offers (DXGI 29,
/// 8-bit RGBA sRGB, then 91, 8-bit BGRA sRGB), else the first
/// format it offers; `None` when it offers none.
pub open spec fn negotiated_format(formats: Seq<u32>) -> Option<u32> {
    if formats.contains(29u32) {
        Some(29u32)
    } else if formats.contains(91u32) {
        Some(91u32)
    } else if formats.len() > 0 {
        Some(formats[0])
    } else {
        None
    }
}

/// Whether `formats` offers `f`.
fn offers(formats: &Vec<u32>, f: u32) -> (r: bool)
    ensures
        r == formats@.contains(f),
{
    let mut i: usize = 0;
    while i < formats.len()
        invariant
            i <= formats@.len(),
            forall|k: int| 0 <= k < i ==> formats@[k] != f,
        decreases formats@.len() - i,
    {
        if formats[i] == f {
            return true;
        }
        i = i + 1;
    }
    false
}

/// Negotiate the swapchain format (see `negotiated_format`).
pub fn negotiate_format(formats: &Vec<u32>) -> (r: Option<u32>)
    ensures
        r == negotiated_format(formats@),
{
    if offers(formats, 29) {
        Some(29)
    } else if offers(formats, 91) {
        Some(91)
    } else if formats.len() > 0 {
        Some(formats[0])
    } else {
        None
    }
}

/// The gameplay-resume auto-recenter: armed while out of settled gameplay, it fires once the head
/// anchor has held still on foot for long enough. Anchors are carried as an opaque type `A`.
pub struct AutoRecenter<A> {
    armed: bool,
    last_anchor: Option<A>,
    settled_frames: u32,
}

/// Frames the head anchor must hold still before an armed auto-recenter fires.
pub const ANCHOR_SETTLE_FRAMES: u32 = 24;

impl<A: Copy> AutoRecenter<A> {
    /// Not armed, nothing seen.
    pub fn new() -> (s: Self)
        ensures
            !s.spec_armed() && s.spec_last_anchor() is None && s.spec_settled_frames() == 0,
    {
        AutoRecenter { armed: false, last_anchor: None, settled_frames: 0 }
    }

    pub closed spec fn spec_armed(&self) -> bool {
        self.armed
    }

    pub closed spec fn spec_last_anchor(&self) -> Option<A> {
        self.last_anchor
    }

    pub closed spec fn spec_settled_frames(&self) -> u32 {
        self.settled_frames
    }

    /// The anchor seen last frame, against which the caller measures this frame's movement.
    pub fn last_anchor(&self) -> (r: Option<A>)
        ensures
            r == self.spec_last_anchor(),
    {
        self.last_anchor
    }

    /// One frame, while auto-recenter is on and a session runs. Out of gameplay or without a
    /// character it re-arms and forgets; armed and on foot with an anchor, it counts frames the
    /// anchor stayed within the settle distance of the last one (`settled`, false without a last
    /// one) and fires (returns `true`, disarming) at `ANCHOR_SETTLE_FRAMES`; otherwise it restarts
    /// the count.
    pub fn tick(
        &mut self,
        in_gameplay: bool,
        has_character: bool,
        on_foot: bool,
        anchor: Option<A>,
        settled: bool,
    ) -> (fire: bool)
        ensures
            (!in_gameplay || !has_character) ==> !fire && final(self).spec_armed()
                && final(self).spec_settled_frames() == 0 && final(self).spec_last_anchor() is None,
            (in_gameplay && has_character && !old(self).spec_armed()) ==> !fire && *final(self)
                == *old(self),
            (in_gameplay && has_character && old(self).spec_armed()) ==> {
                if on_foot && anchor is Some {
                    let frames = if settled && old(self).spec_last_anchor() is Some {
                        if old(self).spec_settled_frames() == u32::MAX {
                            u32::MAX
                        } else {
                            (old(self).spec_settled_frames() + 1) as u32
                        }
                    } else {
                        0
                    };
                    &&& final(self).spec_settled_frames() == frames
                    &&& final(self).spec_last_anchor() == anchor
                    &&& fire == (frames >= ANCHOR_SETTLE_FRAMES)
                    &&& final(self).spec_armed() == !fire
                } else {
                    &&& !fire
                    &&& final(self).spec_armed()
                    &&& final(self).spec_settled_frames() == 0
                    &&& final(self).spec_last_anchor() == anchor
                }
            },
    {
        if !in_gameplay || !has_character {
            self.armed = true;
            self.settled_frames = 0;
            self.last_anchor = None;
            return false;
        }
        if !self.armed {
            return false;
        }
        match anchor {
            Some(a) => {
                if on_foot {
                    let is_settled = settled && self.last_anchor.is_some();
                    self.settled_frames = if is_settled {
                        if self.settled_frames == u32::MAX {
                            u32::MAX
                        } else {
                            self.settled_frames + 1
                        }
                    } else {
                        0
                    };
                    self.last_anchor = Some(a);
                    if self.settled_frames >= ANCHOR_SETTLE_FRAMES {
                        self.armed = false;
                        return true;
                    }
                    return false;
                }
            },
            None => {},
        }
        self.settled_frames = 0;
        self.last_anchor = anchor;
        false
    }
}

} // verus!
