//! The packed depth-stencil bits that foveated rendering injects: the stencil test that skips the
//! peripheral pixels tagged by the mask pass, and the rewrite of a draw's packed state index.
use vstd::prelude::*;

verus! {

/// The bits of a packed depth-stencil index that the stencil test occupies (bits 6 to 31 of the
/// low word and 32 to 39 of the high word); the depth bits 0 to 5 lie outside it.
pub const STENCIL_INDEX_MASK: u64 = 0x0000_00FF_7FFF_FFC0;

/// The `StencilEnable` bit of a packed depth-stencil index.
pub const STENCIL_ENABLE_BIT: u64 = 0x40;

/// The packed stencil-test bits for `mask_bit`: stencil enabled, compared EQUAL (3, bits 7 to 10)
/// through a read mask of the low byte of `mask_bit` (bits 11 to 18), a write mask of zero (bits
/// 19 to 26), and KEEP (1) for the fail (bits 27 to 30), depth-fail (32 to 35) and pass (36 to 39)
/// operations.
pub open spec fn stencil_test_bits(mask_bit: u32) -> u64 {
    (0x40 + 3 * 0x80 + (mask_bit % 256) as int * 0x800 + 0x800_0000 + 0x1_0000_0000
        + 0x10_0000_0000) as u64
}

/// Compute the packed stencil-test bits for `mask_bit` (see `stencil_test_bits`).
pub fn packed_stencil_test(mask_bit: u32) -> (bits: u64)
    ensures
        bits == stencil_test_bits(mask_bit),
{
    let comparison_equal: u64 = 3;
    let stencil_op_keep: u64 = 1;
    let read_mask: u64 = (mask_bit as u64) & 0xFF;
    let bits = STENCIL_ENABLE_BIT | (comparison_equal << 7u64) | (read_mask << 11u64) | (
    stencil_op_keep << 27u64) | (stencil_op_keep << 32u64) | (stencil_op_keep << 36u64);
    let m = mask_bit as u64;
    assert(bits == 0x40 + 3 * 0x80 + (m % 256) * 0x800 + 0x800_0000 + 0x1_0000_0000
        + 0x10_0000_0000) by (bit_vector)
        requires
            read_mask == m & 0xFF,
            m < 0x1_0000_0000,
            comparison_equal == 3,
            stencil_op_keep == 1,
            bits == 0x40u64 | (comparison_equal << 7u64) | (read_mask << 11u64) | (
            stencil_op_keep << 27u64) | (stencil_op_keep << 32u64) | (stencil_op_keep << 36u64),
    ;
    bits
}

/// The packed index a draw renders with while the stencil test is forced: unchanged (`None`)
/// unless forcing is on, there are bits to inject and the draw does not drive stencil itself;
/// otherwise the stencil bits of the index replaced by `bits`.
pub open spec fn forced_index(index: u64, force: bool, bits: u64) -> Option<u64> {
    if !force || bits == 0 || index & STENCIL_ENABLE_BIT != 0 {
        None
    } else {
        Some((index & !STENCIL_INDEX_MASK) | bits)
    }
}

/// Rewrite a draw's packed depth-stencil index for the forced stencil test (see
/// `forced_index`); the caller also sets the draw's stencil reference to zero when it rewrites.
pub fn apply_force_test(index: u64, force: bool, bits: u64) -> (r: Option<u64>)
    ensures
        r == forced_index(index, force, bits),
{
    if !force || bits == 0 {
        return None;
    }
    if index & STENCIL_ENABLE_BIT != 0 {
        return None;
    }
    Some((index & !STENCIL_INDEX_MASK) | bits)
}

/// The injected test fits the stencil bits: it lies inside the stencil part of the index, enables
/// stencil, and never writes stencil (a zero write mask).
pub proof fn law_stencil_test_bits_fit(mask_bit: u32)
    ensures
        stencil_test_bits(mask_bit) & !STENCIL_INDEX_MASK == 0,
        stencil_test_bits(mask_bit) & STENCIL_ENABLE_BIT != 0,
        stencil_test_bits(mask_bit) & 0x7F8_0000 == 0,
{
    let m = mask_bit as u64;
    let b = stencil_test_bits(mask_bit);
    assert(b == 0x40 + 3 * 0x80 + (m % 256) * 0x800 + 0x800_0000 + 0x1_0000_0000 + 0x10_0000_0000);
    assert(b & !0x0000_00FF_7FFF_FFC0u64 == 0 && b & 0x40u64 != 0 && b & 0x7F8_0000u64 == 0)
        by (bit_vector)
        requires
            m < 0x1_0000_0000,
            b == 0x40 + 3 * 0x80 + (m % 256) * 0x800 + 0x800_0000 + 0x1_0000_0000 + 0x10_0000_0000,
    ;
}

/// Forcing the test leaves a draw's depth state alone: the depth bits of a rewritten index are
/// the draw's own, and its stencil bits are exactly the injected test.
pub proof fn law_forcing_keeps_depth_bits(index: u64, mask_bit: u32)
    ensures
        forced_index(index, true, stencil_test_bits(mask_bit)) matches Some(r) ==> r & 0x3F == index
            & 0x3F && r & STENCIL_INDEX_MASK == stencil_test_bits(mask_bit),
{
    let b = stencil_test_bits(mask_bit);
    law_stencil_test_bits_fit(mask_bit);
    let r = (index & !0x0000_00FF_7FFF_FFC0u64) | b;
    assert(r & 0x3F == index & 0x3F && r & 0x0000_00FF_7FFF_FFC0u64 == b) by (bit_vector)
        requires
            b & !0x0000_00FF_7FFF_FFC0u64 == 0,
            r == (index & !0x0000_00FF_7FFF_FFC0u64) | b,
    ;
}

} // verus!
