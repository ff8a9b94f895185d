//! The engine render resolution: the per-eye size tile-aligned, and the double-wide widening.
use vstd::prelude::*;

verus! {

/// The alignment the per-eye render width is rounded up to: the clustered lighting grid's tile.
pub const EYE_WIDTH_ALIGNMENT: u32 = 64;

/// The smallest multiple of `alignment` that is at least `value`, or `u32::MAX` where that multiple
/// does not fit.
pub open spec fn spec_align_up(value: u32, alignment: u32) -> u32 {
    if value % alignment == 0 {
        value
    } else if value + (alignment - value % alignment) > u32::MAX {
        u32::MAX
    } else {
        (value + (alignment - value % alignment)) as u32
    }
}

/// Round `value` up to the next multiple of `alignment`, saturating rather than wrapping.
pub fn align_up(value: u32, alignment: u32) -> (r: u32)
    requires
        alignment > 0,
    ensures
        r == spec_align_up(value, alignment),
{
    let remainder = value % alignment;
    if remainder == 0 {
        value
    } else {
        value.saturating_add(alignment - remainder)
    }
}

/// The larger of two sizes along one axis.
pub open spec fn at_least_one(v: u32) -> u32 {
    if v == 0 {
        1
    } else {
        v
    }
}

/// The whole-pixel half of scaling an eye's view size: at least one pixel each way, the width
/// rounded up to `EYE_WIDTH_ALIGNMENT` (the tile the clustered lighting works in), so the engine
/// renders each eye at exactly the swapchain size.
pub fn aligned_eye_size(width: u32, height: u32) -> (r: (u32, u32))
    ensures
        r == (spec_align_up(at_least_one(width), EYE_WIDTH_ALIGNMENT), at_least_one(height)),
{
    let w = if width == 0 {
        1
    } else {
        width
    };
    let h = if height == 0 {
        1
    } else {
        height
    };
    (align_up(w, EYE_WIDTH_ALIGNMENT), h)
}

/// The per-eye resolution the engine should target: the eye resolution while a session runs,
/// nothing otherwise.
pub fn native_eye_resolution(running: bool, eye_resolution: Option<(u32, u32)>) -> (r: Option<
    (u32, u32),
>)
    ensures
        r == (if running {
            eye_resolution
        } else {
            None
        }),
{
    if !running {
        return None;
    }
    eye_resolution
}

/// The width a double-wide target needs for two eyes side by side, saturating.
pub open spec fn doubled(w: u32) -> u32 {
    if 2 * w > u32::MAX {
        u32::MAX
    } else {
        (2 * w) as u32
    }
}

/// The size the engine's scene targets are built at: the per-eye size, with twice the width under
/// single-pass double-wide rendering; nothing when there is no per-eye size.
pub fn engine_render_resolution(native: Option<(u32, u32)>, double_wide: bool) -> (r: Option<
    (u32, u32),
>)
    ensures
        r == (match native {
            None => None,
            Some((w, h)) => Some(
                (
                    if double_wide {
                        doubled(w)
                    } else {
                        w
                    },
                    h,
                ),
            ),
        }),
{
    match native {
        None => None,
        Some((width, height)) => {
            if double_wide {
                let w = if width > u32::MAX / 2 {
                    u32::MAX
                } else {
                    width * 2
                };
                Some((w, height))
            } else {
                Some((width, height))
            }
        },
    }
}

/// Rounding never shrinks and never wraps: the result is at least the value, less than one
/// alignment step above it, and a whole multiple of the alignment unless it saturated.
pub proof fn law_align_up_rounds_upward(value: u32, alignment: u32)
    requires
        alignment > 0,
    ensures
        spec_align_up(value, alignment) >= value,
        spec_align_up(value, alignment) < value + alignment,
        spec_align_up(value, alignment) % alignment == 0 || spec_align_up(value, alignment)
            == u32::MAX,
{
    let r = value % alignment;
    if r != 0 && value + (alignment - r) <= u32::MAX {
        assert((value + (alignment - r)) % alignment as int == 0) by (nonlinear_arith)
            requires
                r == value % alignment,
                alignment > 0,
        ;
    }
}

/// The point of the alignment: whatever size is recommended, a double-wide target of two aligned
/// eyes is a whole number of tile pairs wide, so the eye seam falls on a tile column, and an
/// aligned eye is never narrower than the recommendation.
pub proof fn law_double_wide_lands_on_tile_column(width: u32)
    ensures
        ({
            let e = spec_align_up(at_least_one(width), EYE_WIDTH_ALIGNMENT);
            &&& e >= width
            &&& (e < u32::MAX ==> (2 * e) % (2 * EYE_WIDTH_ALIGNMENT as int) == 0)
        }),
{
    law_align_up_rounds_upward(at_least_one(width), EYE_WIDTH_ALIGNMENT);
    let e = spec_align_up(at_least_one(width), EYE_WIDTH_ALIGNMENT);
    if e < u32::MAX {
        assert(e % 64 == 0);
        assert((2 * e) % 128 == 0) by (nonlinear_arith)
            requires
                e % 64 == 0,
        ;
    }
}

} // verus!
