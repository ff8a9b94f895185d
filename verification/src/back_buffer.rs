//! Ownership of the engine's back buffer: whether the mod owns it, whether its substitute objects
//! are installed in the engine, whether a real swapchain resize is being let through, and the size
//! of the one texture the mod holds itself. The engine calls live with the caller; this module
//! decides what each transition does and keeps the flags consistent.
use vstd::prelude::*;

verus! {

/// The back-buffer ownership flags and the mod-owned backing texture's size.
pub struct BackBufferState {
    owned: bool,
    installed: bool,
    bypass_resize: bool,
    backing: Option<(u32, u32)>,
}

/// What the `CreateRenderSetups` epilogue has to do.
#[derive(Debug, Clone, Copy, PartialEq, Eq, Structural)]
pub enum SetupsAction {
    /// Nothing: ownership is off and nothing was installed.
    Nothing,
    /// Ownership is off and the engine has just rebuilt its own objects over a former
    /// substitution: free the backing texture.
    ReleaseBacking,
    /// Ownership is on: build and install the substitutes.
    Substitute,
}

/// What releasing the backing texture does.
#[derive(Debug, Clone, Copy)]
pub enum ReleaseAction {
    /// A substitution is still installed, so the engine still renders into the texture: keep it.
    Retain,
    /// No texture is held.
    NothingHeld,
    /// Free the texture of this size.
    Free((u32, u32)),
}

impl BackBufferState {
    /// Nothing owned, nothing installed, nothing held.
    pub fn new() -> (s: Self)
        ensures
            !s.spec_owned(),
            !s.spec_installed(),
            !s.spec_bypassed(),
            s.spec_backing() is None,
    {
        BackBufferState { owned: false, installed: false, bypass_resize: false, backing: None }
    }

    pub closed spec fn spec_owned(&self) -> bool {
        self.owned
    }

    pub closed spec fn spec_installed(&self) -> bool {
        self.installed
    }

    pub closed spec fn spec_bypassed(&self) -> bool {
        self.bypass_resize
    }

    pub closed spec fn spec_backing(&self) -> Option<(u32, u32)> {
        self.backing
    }

    /// Whether the mod owns the engine's back-buffer objects right now.
    pub fn owned(&self) -> (r: bool)
        ensures
            r == self.spec_owned(),
    {
        self.owned
    }

    /// Whether the mod's substitute objects are currently installed in the engine's fields.
    pub fn installed(&self) -> (r: bool)
        ensures
            r == self.spec_installed(),
    {
        self.installed
    }

    /// Whether the resize substitute should stand aside and let a real swapchain resize through.
    pub fn resize_substitute_bypassed(&self) -> (r: bool)
        ensures
            r == self.spec_bypassed(),
    {
        self.bypass_resize
    }

    /// Take ownership from the next resize on. Nothing else changes.
    pub fn enable(&mut self)
        ensures
            final(self).spec_owned(),
            final(self).spec_installed() == old(self).spec_installed(),
            final(self).spec_bypassed() == old(self).spec_bypassed(),
            final(self).spec_backing() == old(self).spec_backing(),
    {
        self.owned = true;
    }

    /// Release ownership, so the next resize rebuilds the engine's own objects; returns whether it
    /// was held. Nothing else changes.
    pub fn disable(&mut self) -> (was_owned: bool)
        ensures
            was_owned == old(self).spec_owned(),
            !final(self).spec_owned(),
            final(self).spec_installed() == old(self).spec_installed(),
            final(self).spec_bypassed() == old(self).spec_bypassed(),
            final(self).spec_backing() == old(self).spec_backing(),
    {
        let was_owned = self.owned;
        self.owned = false;
        was_owned
    }

    /// The size to bring the swapchain to, if any: the window's client size, when ownership is
    /// live, the substitution is installed, the window size is known and differs from the
    /// swapchain's.
    pub fn swapchain_sync_target(&self, current: (u32, u32), window: Option<(u32, u32)>) -> (r:
        Option<(u32, u32)>)
        ensures
            r == (if self.spec_owned() && self.spec_installed() && window is Some
                && window.unwrap() != current {
                window
            } else {
                None
            }),
    {
        if !self.owned || !self.installed {
            return None;
        }
        match window {
            Some(w) => {
                if w.0 == current.0 && w.1 == current.1 {
                    None
                } else {
                    Some(w)
                }
            },
            None => None,
        }
    }

    /// Let the next resize through to the swapchain (`on`) or stop doing so.
    pub fn set_resize_bypass(&mut self, on: bool)
        ensures
            final(self).spec_bypassed() == on,
            final(self).spec_owned() == old(self).spec_owned(),
            final(self).spec_installed() == old(self).spec_installed(),
            final(self).spec_backing() == old(self).spec_backing(),
    {
        self.bypass_resize = on;
    }

    /// The `CreateRenderSetups` epilogue's decision. Whatever was installed is gone once the engine
    /// rebuilds its objects, so the installed flag is cleared first; then a former substitution is
    /// released when ownership is off, or a new one is built when it is on.
    pub fn substitute_render_setups(&mut self) -> (a: SetupsAction)
        ensures
            !final(self).spec_installed(),
            a == (if old(self).spec_owned() {
                SetupsAction::Substitute
            } else if old(self).spec_installed() {
                SetupsAction::ReleaseBacking
            } else {
                SetupsAction::Nothing
            }),
            final(self).spec_owned() == old(self).spec_owned(),
            final(self).spec_bypassed() == old(self).spec_bypassed(),
            final(self).spec_backing() == old(self).spec_backing(),
    {
        let was_installed = self.installed;
        self.installed = false;
        if !self.owned {
            if was_installed {
                SetupsAction::ReleaseBacking
            } else {
                SetupsAction::Nothing
            }
        } else {
            SetupsAction::Substitute
        }
    }

    /// Record how a substitution (decided by `substitute_render_setups`, which cleared the installed
    /// flag) went: installed on success; on failure ownership is dropped
    /// (and the caller turns the configuration switch off), leaving the engine's own objects.
    pub fn finish_substitution(&mut self, ok: bool)
        ensures
            final(self).spec_installed() == ok,
            final(self).spec_owned() == (old(self).spec_owned() && ok),
            final(self).spec_bypassed() == old(self).spec_bypassed(),
            final(self).spec_backing() == old(self).spec_backing(),
    {
        self.installed = ok;
        if !ok {
            self.owned = false;
        }
    }

    /// Whether a substitution at `size` needs a new backing texture (none held, or one of another
    /// size); a zero-sized display gets none at all (`None`).
    pub fn needs_new_backing(&self, size: (u32, u32)) -> (r: Option<bool>)
        ensures
            r == (if size.0 == 0 || size.1 == 0 {
                None
            } else {
                Some(self.spec_backing() != Some(size))
            }),
    {
        if size.0 == 0 || size.1 == 0 {
            return None;
        }
        match self.backing {
            Some(b) => Some(b.0 != size.0 || b.1 != size.1),
            None => Some(true),
        }
    }

    /// Record the backing texture now held (after the old one was freed and a new one created).
    pub fn set_backing(&mut self, size: (u32, u32))
        ensures
            final(self).spec_backing() == Some(size),
            final(self).spec_owned() == old(self).spec_owned(),
            final(self).spec_installed() == old(self).spec_installed(),
            final(self).spec_bypassed() == old(self).spec_bypassed(),
    {
        self.backing = Some(size);
    }

    /// Release the backing texture: kept while a substitution is installed (the engine still
    /// renders into it), otherwise handed out to be freed exactly once.
    pub fn release_backing_texture(&mut self) -> (a: ReleaseAction)
        ensures
            old(self).spec_installed() ==> a == ReleaseAction::Retain && final(self).spec_backing()
                == old(self).spec_backing(),
            !old(self).spec_installed() ==> final(self).spec_backing() is None && a == (match old(
                self,
            ).spec_backing() {
                Some(sz) => ReleaseAction::Free(sz),
                None => ReleaseAction::NothingHeld,
            }),
            final(self).spec_owned() == old(self).spec_owned(),
            final(self).spec_installed() == old(self).spec_installed(),
            final(self).spec_bypassed() == old(self).spec_bypassed(),
    {
        if self.installed {
            return ReleaseAction::Retain;
        }
        match self.backing {
            Some(sz) => {
                self.backing = None;
                ReleaseAction::Free(sz)
            },
            None => ReleaseAction::NothingHeld,
        }
    }
}

} // verus!
