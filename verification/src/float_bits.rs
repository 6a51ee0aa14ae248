//! Comparisons of floating-point numbers given by their IEEE-754 bits: two
//! numbers are equal when neither is NaN and their bits agree, or both are
//! zeros (of either sign).

use vstd::prelude::*;

verus! {

/// Whether the `f64` with bits `b` is NaN: all exponent bits set and a
/// nonzero fraction.
pub open spec fn f64_bits_is_nan(b: u64) -> bool {
    (b >> 52u64) & 0x7ffu64 == 0x7ffu64 && b & 0xf_ffff_ffff_ffffu64 != 0
}

/// Whether the `f32` with bits `b` is NaN.
pub open spec fn f32_bits_is_nan(b: u32) -> bool {
    (b >> 23u32) & 0xffu32 == 0xffu32 && b & 0x7f_ffffu32 != 0
}

/// Whether the `f64` numbers with bits `a` and `b` are equal.
pub open spec fn f64_bits_eq(a: u64, b: u64) -> bool {
    !f64_bits_is_nan(a) && !f64_bits_is_nan(b) && (a == b || (a & 0x7fff_ffff_ffff_ffffu64 == 0
        && b & 0x7fff_ffff_ffff_ffffu64 == 0))
}

/// Whether the `f32` numbers with bits `a` and `b` are equal.
pub open spec fn f32_bits_eq(a: u32, b: u32) -> bool {
    !f32_bits_is_nan(a) && !f32_bits_is_nan(b) && (a == b || (a & 0x7fff_ffffu32 == 0 && b
        & 0x7fff_ffffu32 == 0))
}

/// Whether the `f64` numbers with bits `a` and `b` are equal.
pub fn f64_eq(a: u64, b: u64) -> (r: bool)
    ensures
        r == f64_bits_eq(a, b),
{
    let a_nan = (a >> 52u64) & 0x7ffu64 == 0x7ffu64 && a & 0xf_ffff_ffff_ffffu64 != 0;
    let b_nan = (b >> 52u64) & 0x7ffu64 == 0x7ffu64 && b & 0xf_ffff_ffff_ffffu64 != 0;
    !a_nan && !b_nan && (a == b || (a & 0x7fff_ffff_ffff_ffffu64 == 0 && b
        & 0x7fff_ffff_ffff_ffffu64 == 0))
}

/// Whether the `f32` numbers with bits `a` and `b` are equal.
pub fn f32_eq(a: u32, b: u32) -> (r: bool)
    ensures
        r == f32_bits_eq(a, b),
{
    let a_nan = (a >> 23u32) & 0xffu32 == 0xffu32 && a & 0x7f_ffffu32 != 0;
    let b_nan = (b >> 23u32) & 0xffu32 == 0xffu32 && b & 0x7f_ffffu32 != 0;
    !a_nan && !b_nan && (a == b || (a & 0x7fff_ffffu32 == 0 && b & 0x7fff_ffffu32 == 0))
}

} // verus!
