//! Comparisons on the bit patterns of IEEE-754 doubles.
//!
//! Skill levels, versatilities and thresholds are carried through the library
//! as the bit patterns of the `f64` values that callers hold
//! (`f64::to_bits`). The decisions of the library only ever compare such
//! values, and a comparison of two doubles is a comparison of integers
//! computed from their bit patterns, which is what this module provides.
use vstd::prelude::*;

verus! {

/// The sign bit of a double.
pub const SIGN_BIT: u64 = 0x8000_0000_0000_0000;

/// The bit pattern of positive infinity; every magnitude above it is a NaN.
pub const INFINITY_BITS: u64 = 0x7FF0_0000_0000_0000;

/// The bits of a double other than its sign.
pub open spec fn magnitude(b: u64) -> int {
    if b >= SIGN_BIT {
        b - SIGN_BIT
    } else {
        b as int
    }
}

/// Whether a bit pattern encodes a NaN (all exponent bits set, nonzero mantissa).
pub open spec fn is_nan_bits(b: u64) -> bool {
    magnitude(b) > INFINITY_BITS
}

/// An integer that orders the non-NaN doubles as their values are ordered:
/// the magnitude for a positive sign, its negation for a negative sign.
/// Both zeros have rank 0, as `0.0 == -0.0`.
pub open spec fn order_rank(b: u64) -> int {
    if b >= SIGN_BIT {
        -magnitude(b)
    } else {
        magnitude(b)
    }
}

/// The meaning of `<` on two doubles given by their bit patterns:
/// false when either is a NaN, else the order of their ranks.
pub open spec fn float_lt_spec(a: u64, b: u64) -> bool {
    !is_nan_bits(a) && !is_nan_bits(b) && order_rank(a) < order_rank(b)
}

/// Whether the double with bit pattern `b` is a NaN.
pub fn is_nan(b: u64) -> (r: bool)
    ensures
        r == is_nan_bits(b),
{
    let m = if b >= SIGN_BIT {
        b - SIGN_BIT
    } else {
        b
    };
    m > INFINITY_BITS
}

/// Whether `order_rank(a) < order_rank(b)`.
pub fn rank_lt(a: u64, b: u64) -> (r: bool)
    ensures
        r == (order_rank(a) < order_rank(b)),
{
    let neg_a = a >= SIGN_BIT;
    let neg_b = b >= SIGN_BIT;
    if !neg_a && !neg_b {
        a < b
    } else if neg_a && neg_b {
        a - SIGN_BIT > b - SIGN_BIT
    } else if neg_a {
        // a is negative or -0.0, b is positive or +0.0: only the two zeros are equal
        !(a == SIGN_BIT && b == 0)
    } else {
        false
    }
}

/// `a < b` on the doubles whose bit patterns are `a` and `b`.
pub fn float_lt(a: u64, b: u64) -> (r: bool)
    ensures
        r == float_lt_spec(a, b),
{
    !is_nan(a) && !is_nan(b) && rank_lt(a, b)
}

/// The NaNs are exactly the patterns with all exponent bits set and a
/// nonzero mantissa, whatever the sign.
pub proof fn law_is_nan_bits(b: u64)
    ensures
        is_nan_bits(b) == ((b & 0x7FF0_0000_0000_0000u64) == 0x7FF0_0000_0000_0000u64 && (b
            & 0x000F_FFFF_FFFF_FFFFu64) != 0),
{
    let m = b & 0x7FFF_FFFF_FFFF_FFFFu64;
    assert(b < 0x8000_0000_0000_0000u64 ==> (b & 0x7FFF_FFFF_FFFF_FFFFu64) == b) by (bit_vector);
    assert(b >= 0x8000_0000_0000_0000u64 ==> (b & 0x7FFF_FFFF_FFFF_FFFFu64) + 0x8000_0000_0000_0000u64
        == b) by (bit_vector);
    assert(magnitude(b) == m);
    assert(((b & 0x7FFF_FFFF_FFFF_FFFFu64) > 0x7FF0_0000_0000_0000u64) == ((b & 0x7FF0_0000_0000_0000u64)
        == 0x7FF0_0000_0000_0000u64 && (b & 0x000F_FFFF_FFFF_FFFFu64) != 0)) by (bit_vector);
}

/// `float_lt_spec` is `<` on doubles read off their full bit patterns: false
/// with a NaN; between two non-negatives, the order of the patterns; between
/// two negatives, the reverse order; a negative is below a non-negative
/// unless both are zeros; a non-negative is never below a negative.
pub proof fn law_float_lt_on_bits(a: u64, b: u64)
    ensures
        is_nan_bits(a) || is_nan_bits(b) ==> !float_lt_spec(a, b),
        !is_nan_bits(a) && !is_nan_bits(b) && a < SIGN_BIT && b < SIGN_BIT ==> (float_lt_spec(a, b)
            <==> a < b),
        !is_nan_bits(a) && !is_nan_bits(b) && a >= SIGN_BIT && b >= SIGN_BIT ==> (float_lt_spec(a, b)
            <==> a > b),
        !is_nan_bits(a) && !is_nan_bits(b) && a >= SIGN_BIT && b < SIGN_BIT ==> (float_lt_spec(a, b)
            <==> !(a == SIGN_BIT && b == 0)),
        a < SIGN_BIT && b >= SIGN_BIT ==> !float_lt_spec(a, b),
        !(float_lt_spec(a, b) && float_lt_spec(b, a)),
{
}

} // verus!
