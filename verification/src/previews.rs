//! Whether the debug Previews tab still counts as open: it has no closed event, so having drawn
//! recently stands in for being visible. Times are monotonic milliseconds from the caller's clock.
use vstd::prelude::*;

verus! {

/// How long, in milliseconds, after it last drew the Previews tab still counts as open.
pub const PREVIEWS_VISIBLE_TIMEOUT_MS: u64 = 250;

/// When the Previews tab last drew.
pub struct PreviewsTracker {
    last_seen: Option<u64>,
}

/// The time elapsed from `then` to `now`, never negative.
pub open spec fn elapsed(then: u64, now: u64) -> int {
    if now >= then {
        now - then
    } else {
        0
    }
}

impl PreviewsTracker {
    /// The tab has never drawn.
    pub fn new() -> (t: Self)
        ensures
            t.last_seen() is None,
    {
        PreviewsTracker { last_seen: None }
    }

    /// When the tab last drew, if ever.
    pub closed spec fn last_seen(&self) -> Option<u64> {
        self.last_seen
    }

    /// Mark the tab drawn at `now`.
    pub fn mark_previews_visible(&mut self, now: u64)
        ensures
            final(self).last_seen() == Some(now),
    {
        self.last_seen = Some(now);
    }

    /// Whether the tab drew less than the timeout before `now`.
    pub fn previews_visible(&self, now: u64) -> (r: bool)
        ensures
            r == (self.last_seen() matches Some(t) && elapsed(t, now)
                < PREVIEWS_VISIBLE_TIMEOUT_MS),
    {
        match self.last_seen {
            Some(t) => {
                let e = if now >= t {
                    now - t
                } else {
                    0
                };
                e < PREVIEWS_VISIBLE_TIMEOUT_MS
            },
            None => false,
        }
    }
}

/// A tab that has just drawn counts as open until the timeout runs out, and not after.
pub proof fn law_previews_visible_window(t: PreviewsTracker, now: u64, later: u64)
    requires
        t.last_seen() == Some(now),
        later >= now,
    ensures
        (t.last_seen() matches Some(s) && elapsed(s, later) < PREVIEWS_VISIBLE_TIMEOUT_MS) <==> later
            - now < PREVIEWS_VISIBLE_TIMEOUT_MS,
{
}

} // verus!
