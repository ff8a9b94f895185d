//! The VR configuration's choices that are plain enumerations, each with the default the mod ships.
use vstd::prelude::*;

verus! {

/// Which depth convention the per-eye off-axis projection is written in, and where it lands.
#[derive(Debug, Clone, Copy, PartialEq, Eq, Structural)]
pub enum ProjectionConvention {
    /// A standard projection written before the engine sets up the render camera, so the engine
    /// applies its own reverse-Z remap and jitter once. The default.
    EnginePreReverseZ,
    /// An already reverse-Z projection written after the engine's setup; no jitter on this path.
    ManualReverseZ,
}

impl Default for ProjectionConvention {
    fn default() -> (r: Self)
        ensures
            r == ProjectionConvention::EnginePreReverseZ,
    {
        ProjectionConvention::EnginePreReverseZ
    }
}

/// Which pose the freeze diagnostic holds still.
#[derive(Debug, Clone, Copy, PartialEq, Eq, Structural)]
pub enum FreezeMode {
    /// Nothing is frozen. The default.
    Off,
    /// The cockpit-frame head pose, with the body frame and head anchor captured alongside.
    CockpitPose,
    /// The final render camera, in world space.
    FullCamera,
}

impl Default for FreezeMode {
    fn default() -> (r: Self)
        ensures
            r == FreezeMode::Off,
    {
        FreezeMode::Off
    }
}

/// How the per-eye blit bridges the captured colour into the headset swapchain.
#[derive(Debug, Clone, Copy, PartialEq, Eq, Structural)]
pub enum BlitGamma {
    /// Linearize the display-referred colour so the sRGB target's encode reproduces it. The
    /// default.
    Linearize,
    /// Sample and write the colour unchanged.
    Passthrough,
}

impl Default for BlitGamma {
    fn default() -> (r: Self)
        ensures
            r == BlitGamma::Linearize,
    {
        BlitGamma::Linearize
    }
}

/// How the desktop mirror frames one eye's image inside the game window.
#[derive(Debug, Clone, Copy, PartialEq, Eq, Structural)]
pub enum MirrorFraming {
    /// Cover the whole window, cropping what falls outside. The default.
    Fill,
    /// Show all of the image, letterboxing the rest.
    Fit,
}

impl Default for MirrorFraming {
    fn default() -> (r: Self)
        ensures
            r == MirrorFraming::Fill,
    {
        MirrorFraming::Fill
    }
}

} // verus!
