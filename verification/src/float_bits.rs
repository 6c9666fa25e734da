//! Comparisons of IEEE-754 single-precision numbers given by their bit patterns,
//! with the meaning that `<`, `>` and `==` have on `f32`.
use vstd::prelude::*;

verus! {

/// The bit pattern encodes a NaN: all exponent bits set and a non-zero fraction.
pub open spec fn is_nan(b: u32) -> bool {
    b % 0x8000_0000 > 0x7f80_0000
}

/// A number whose order on non-NaN patterns is the order of the encoded values:
/// the magnitude bits, negated when the sign bit is set (so both zeros give 0).
pub open spec fn ordinal(b: u32) -> int {
    if b >= 0x8000_0000 { -((b - 0x8000_0000) as int) } else { b as int }
}

/// `a < b` on the encoded `f32` values; false when either is NaN.
pub open spec fn lt(a: u32, b: u32) -> bool {
    !is_nan(a) && !is_nan(b) && ordinal(a) < ordinal(b)
}

/// `a <= b` on the encoded `f32` values; false when either is NaN.
pub open spec fn le(a: u32, b: u32) -> bool {
    !is_nan(a) && !is_nan(b) && ordinal(a) <= ordinal(b)
}

/// `a == b` on the encoded `f32` values: equal non-NaN values (`0.0 == -0.0`).
pub open spec fn same_value(a: u32, b: u32) -> bool {
    !is_nan(a) && !is_nan(b) && ordinal(a) == ordinal(b)
}

/// The pattern encodes `0.0` or `-0.0`.
pub open spec fn is_zero(b: u32) -> bool {
    same_value(b, 0)
}

/// Whether `b` encodes a NaN.
pub fn nan(b: u32) -> (r: bool)
    ensures
        r == is_nan(b),
{
    b % 0x8000_0000 > 0x7f80_0000
}

fn ordinal_exec(b: u32) -> (r: i64)
    ensures
        r as int == ordinal(b),
{
    if b >= 0x8000_0000 { -((b - 0x8000_0000) as i64) } else { b as i64 }
}

/// `a < b` for the encoded values.
pub fn less(a: u32, b: u32) -> (r: bool)
    ensures
        r == lt(a, b),
{
    !nan(a) && !nan(b) && ordinal_exec(a) < ordinal_exec(b)
}

/// Whether `b` encodes a zero of either sign.
pub fn zero(b: u32) -> (r: bool)
    ensures
        r == is_zero(b),
{
    b == 0 || b == 0x8000_0000
}

/// `<` on encoded values is a strict order: irreflexive and transitive.
pub proof fn lemma_lt_strict_order(a: u32, b: u32, c: u32)
    ensures
        !lt(a, a),
        lt(a, b) && lt(b, c) ==> lt(a, c),
        lt(a, b) ==> !lt(b, a),
{
}

/// Non-NaN values are totally ordered: one is less, or they are the same value.
pub proof fn lemma_trichotomy(a: u32, b: u32)
    requires
        !is_nan(a),
        !is_nan(b),
    ensures
        lt(a, b) || lt(b, a) || same_value(a, b),
        le(a, b) <==> !lt(b, a),
{
}

} // verus!
