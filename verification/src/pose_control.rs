//! The frozen-pose diagnostic's bookkeeping: which pose is held (a cockpit capture, or a world
//! camera transform), the pose captured when the freeze engaged, the edited pose in force, and the
//! compositor submission poses latched while frozen. Generic over the capture and pose types,
//! which the caller computes.
use vstd::prelude::*;

verus! {

/// The held pose: a cockpit capture (`Some`, the cockpit freeze) or none (the full-camera
/// freeze), the pose as captured, and the pose as edited.
#[derive(Debug, Clone, Copy)]
pub struct FrozenState<C, P> {
    pub cockpit: Option<C>,
    pub base: P,
    pub current: P,
}

/// The held pose after an edit: the edited pose replaced, nothing when nothing is held.
pub open spec fn edited<C, P>(h: Option<FrozenState<C, P>>, values: P) -> Option<FrozenState<C, P>> {
    match h {
        Some(s) => Some(FrozenState { current: values, ..s }),
        None => None,
    }
}

/// The held pose after a reset: the edited pose back at the captured one.
pub open spec fn reset_to_base<C, P>(h: Option<FrozenState<C, P>>) -> Option<FrozenState<C, P>> {
    match h {
        Some(s) => Some(FrozenState { current: s.base, ..s }),
        None => None,
    }
}

/// One frame of the submission latch: the poses submitted and the latch afterwards.
pub open spec fn latch_step<T>(latched: Option<T>, frozen: bool, live: T) -> (T, Option<T>) {
    if !frozen {
        (live, None)
    } else {
        match latched {
            Some(l) => (l, Some(l)),
            None => (live, Some(live)),
        }
    }
}

/// The freeze: nothing held while it is off.
pub struct PoseFreeze<C, P> {
    state: Option<FrozenState<C, P>>,
}

impl<C: Copy, P: Copy> PoseFreeze<C, P> {
    /// Nothing held.
    pub fn new() -> (f: Self)
        ensures
            f.held() is None,
    {
        PoseFreeze { state: None }
    }

    /// What is held.
    pub closed spec fn held(&self) -> Option<FrozenState<C, P>> {
        self.state
    }

    /// Drop the capture, so the next freeze captures afresh.
    pub fn clear(&mut self)
        ensures
            final(self).held() is None,
    {
        self.state = None;
    }

    /// The edited pose in force, if anything is held.
    pub fn current(&self) -> (r: Option<P>)
        ensures
            r == (match self.held() {
                Some(s) => Some(s.current),
                None => None,
            }),
    {
        match &self.state {
            Some(s) => Some(s.current),
            None => None,
        }
    }

    /// The pose captured when the freeze engaged, if anything is held.
    pub fn base(&self) -> (r: Option<P>)
        ensures
            r == (match self.held() {
                Some(s) => Some(s.base),
                None => None,
            }),
    {
        match &self.state {
            Some(s) => Some(s.base),
            None => None,
        }
    }

    /// Replace the edited pose; nothing happens when nothing is held.
    pub fn set_current(&mut self, values: P)
        ensures
            final(self).held() == edited(old(self).held(), values),
    {
        match self.state {
            Some(s) => {
                self.state = Some(FrozenState { current: values, ..s });
            },
            None => {},
        }
    }

    /// Return the edited pose to the captured one; nothing happens when nothing is held.
    pub fn reset(&mut self)
        ensures
            final(self).held() == reset_to_base(old(self).held()),
    {
        match self.state {
            Some(s) => {
                self.state = Some(FrozenState { current: s.base, ..s });
            },
            None => {},
        }
    }

    /// Whether the cockpit freeze has to capture this frame: nothing is held, or a full-camera
    /// capture is.
    pub fn needs_cockpit_capture(&self) -> (r: bool)
        ensures
            r == !(self.held() matches Some(s) && s.cockpit is Some),
    {
        match &self.state {
            Some(s) => s.cockpit.is_none(),
            None => true,
        }
    }

    /// The cockpit freeze for this frame: the held capture and the edited centre pose. When a
    /// capture is needed (see `needs_cockpit_capture`) the one given is taken, with `centre` as
    /// both the captured and the edited pose; otherwise the held one stands and the arguments are
    /// ignored.
    pub fn frozen_frame(&mut self, capture: C, centre: P) -> (r: (C, P))
        ensures
            old(self).held() matches Some(s) && s.cockpit is Some ==> final(self).held() == old(
                self,
            ).held() && r == (old(self).held().unwrap().cockpit.unwrap(), old(
                self,
            ).held().unwrap().current),
            !(old(self).held() matches Some(s) && s.cockpit is Some) ==> final(self).held() == Some(
                FrozenState { cockpit: Some(capture), base: centre, current: centre },
            ) && r == (capture, centre),
    {
        match self.state {
            Some(s) => {
                match s.cockpit {
                    Some(c) => {
                        return (c, s.current);
                    },
                    None => {},
                }
            },
            None => {},
        }
        self.state = Some(FrozenState { cockpit: Some(capture), base: centre, current: centre });
        (capture, centre)
    }

    /// Whether the full-camera freeze has to capture this frame: nothing is held, or a cockpit
    /// capture is.
    pub fn needs_full_camera_capture(&self) -> (r: bool)
        ensures
            r == !(self.held() matches Some(s) && s.cockpit is None),
    {
        match &self.state {
            Some(s) => s.cockpit.is_some(),
            None => true,
        }
    }

    /// The full-camera freeze for this frame: the edited world pose. When a capture is needed (see
    /// `needs_full_camera_capture`) the given pose is taken as both the captured and the edited
    /// pose; otherwise the held one stands.
    pub fn full_camera_transform(&mut self, captured: P) -> (r: P)
        ensures
            old(self).held() matches Some(s) && s.cockpit is None ==> final(self).held() == old(
                self,
            ).held() && r == old(self).held().unwrap().current,
            !(old(self).held() matches Some(s) && s.cockpit is None) ==> final(self).held() == Some(
                FrozenState::<C, P> { cockpit: None, base: captured, current: captured },
            ) && r == captured,
    {
        match self.state {
            Some(s) => {
                if s.cockpit.is_none() {
                    return s.current;
                }
            },
            None => {},
        }
        self.state = Some(FrozenState { cockpit: None, base: captured, current: captured });
        captured
    }
}

/// The compositor submission poses latched while a freeze is engaged.
pub struct SubmissionLatch<T> {
    latched: Option<T>,
}

impl<T: Copy> SubmissionLatch<T> {
    /// Nothing latched.
    pub fn new() -> (l: Self)
        ensures
            l.latched() is None,
    {
        SubmissionLatch { latched: None }
    }

    /// What is latched.
    pub closed spec fn latched(&self) -> Option<T> {
        self.latched
    }

    /// The poses to submit this frame: the live ones when not frozen (dropping any latch), else
    /// the ones latched when the freeze engaged, latching the live ones if none are.
    pub fn submission_poses(&mut self, frozen: bool, live: T) -> (r: T)
        ensures
            (r, final(self).latched()) == latch_step(old(self).latched(), frozen, live),
    {
        if !frozen {
            self.latched = None;
            return live;
        }
        match self.latched {
            Some(l) => l,
            None => {
                self.latched = Some(live);
                live
            },
        }
    }
}

/// However the pose was edited, a reset returns it to the captured one and keeps the capture; and
/// with nothing held, edits and resets change nothing.
pub proof fn law_reset_returns_to_capture<C, P>(h: Option<FrozenState<C, P>>, values: P)
    ensures
        reset_to_base(edited(h, values)) == reset_to_base(h),
        reset_to_base(h) matches Some(s) ==> s.current == s.base,
        h is None ==> edited(h, values) is None && reset_to_base(h) is None,
{
}

/// While frozen the submission keeps the pair latched first, whatever the live poses do; once the
/// freeze is off it follows the live poses at once, and a later freeze latches afresh.
pub proof fn law_latch_holds_only_while_frozen<T>(latched: Option<T>, a: T, b: T, c: T)
    ensures
        ({
            let (r1, l1) = latch_step(latched, true, a);
            let (r2, l2) = latch_step(l1, true, b);
            let (r3, l3) = latch_step(l2, false, c);
            let (r4, _l4) = latch_step(l3, true, c);
            &&& r2 == r1
            &&& r3 == c
            &&& r4 == c
        }),
{
}

} // verus!
