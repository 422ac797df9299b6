//! Exact reasoning about `f32` values held as their IEEE-754 bit patterns.
//!
//! A value is its `to_bits()` word: bit 31 is the sign, the other 31 bits the
//! magnitude. For every value that is not NaN, the order of the reals is the
//! order of the signed magnitudes, with both zeros at 0.
use vstd::prelude::*;

verus! {

/// The sign bit.
pub const SIGN_BIT: u32 = 0x8000_0000;

/// The bit pattern of positive infinity: the largest magnitude that is no NaN.
pub const INFINITY_BITS: u32 = 0x7F80_0000;

/// The bit pattern of negative infinity.
pub const NEG_INFINITY_BITS: u32 = 0xFF80_0000;

/// The bit pattern of `0.0`.
pub const ZERO_BITS: u32 = 0;

/// The bit pattern of `1.0`.
pub const ONE_BITS: u32 = 0x3F80_0000;

/// The magnitude bits of a value.
pub open spec fn magnitude(b: u32) -> int {
    if b >= SIGN_BIT { b - SIGN_BIT } else { b as int }
}

/// Whether the pattern is a NaN: every exponent bit set and a fraction.
pub open spec fn is_nan(b: u32) -> bool {
    magnitude(b) > INFINITY_BITS
}

/// The signed magnitude: monotone in the value on every non-NaN pattern, and
/// 0 for both zeros.
pub open spec fn rank(b: u32) -> int {
    if b >= SIGN_BIT { -magnitude(b) } else { b as int }
}

/// IEEE-754 `a < b`: false as soon as either side is NaN.
pub open spec fn less_than(a: u32, b: u32) -> bool {
    !is_nan(a) && !is_nan(b) && rank(a) < rank(b)
}

/// IEEE-754 `x > 0.0`.
pub open spec fn is_positive(b: u32) -> bool {
    less_than(ZERO_BITS, b)
}

/// A draw of the unit interval: a value `d` with `0.0 <= d < 1.0`, written
/// with a clear sign bit.
pub open spec fn is_unit_draw(d: u32) -> bool {
    d < ONE_BITS
}

/// Whether the pattern is a NaN.
pub fn nan_bits(b: u32) -> (r: bool)
    ensures
        r == is_nan(b),
{
    if b >= SIGN_BIT {
        b - SIGN_BIT > INFINITY_BITS
    } else {
        b > INFINITY_BITS
    }
}

/// An unsigned key that orders non-NaN patterns as their values are ordered:
/// `rank(b)` shifted by 2^31.
pub fn order_key(b: u32) -> (r: u32)
    ensures
        r as int == rank(b) + SIGN_BIT,
{
    if b >= SIGN_BIT {
        SIGN_BIT - (b - SIGN_BIT)
    } else {
        b + SIGN_BIT
    }
}

/// IEEE-754 `a < b` on bit patterns.
pub fn less_than_bits(a: u32, b: u32) -> (r: bool)
    ensures
        r == less_than(a, b),
{
    !nan_bits(a) && !nan_bits(b) && order_key(a) < order_key(b)
}

/// IEEE-754 `x > 0.0` on a bit pattern.
pub fn positive_bits(b: u32) -> (r: bool)
    ensures
        r == is_positive(b),
{
    less_than_bits(ZERO_BITS, b)
}

} // verus!
