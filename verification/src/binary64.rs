//! IEEE 754 binary64 values, held as their 64-bit patterns.
//!
//! The solver's scalars (momentum parameter, baseline, step bound, tolerance)
//! travel as `u64` bit patterns. The comparisons that the solver bases its
//! decisions on are properties of the patterns alone and are settled here with
//! integer arithmetic.
use vstd::prelude::*;

verus! {

/// The sign bit; a pattern at or above it has the sign bit set.
pub const SIGN_BIT: u64 = 0x8000_0000_0000_0000;

/// Positive infinity. Magnitudes above it are NaN.
pub const INFINITY: u64 = 0x7ff0_0000_0000_0000;

/// Positive zero.
pub const ZERO: u64 = 0;

/// The value 1.0.
pub const ONE: u64 = 0x3ff0_0000_0000_0000;

/// The pattern with its sign bit cleared.
pub open spec fn magnitude(bits: u64) -> u64 {
    if bits >= SIGN_BIT {
        (bits - SIGN_BIT) as u64
    } else {
        bits
    }
}

/// Whether the pattern encodes a NaN.
pub open spec fn spec_is_nan(bits: u64) -> bool {
    magnitude(bits) > INFINITY
}

/// Where a pattern that is not NaN lies on the number line: an integer that
/// grows exactly as the encoded value grows. Both zeros lie at 0.
pub open spec fn position(bits: u64) -> int {
    if bits >= SIGN_BIT {
        -(magnitude(bits) as int)
    } else {
        bits as int
    }
}

/// Numeric `a < b`. False as soon as either side is NaN.
pub open spec fn spec_lt(a: u64, b: u64) -> bool {
    !spec_is_nan(a) && !spec_is_nan(b) && position(a) < position(b)
}

/// Numeric `a <= b`. False as soon as either side is NaN.
pub open spec fn spec_le(a: u64, b: u64) -> bool {
    !spec_is_nan(a) && !spec_is_nan(b) && position(a) <= position(b)
}

/// Whether the encoded value is a number at or above zero.
pub open spec fn is_non_negative(bits: u64) -> bool {
    spec_le(ZERO, bits)
}

/// Whether the pattern encodes a NaN.
#[verifier::when_used_as_spec(spec_is_nan)]
pub fn is_nan(bits: u64) -> (r: bool)
    ensures
        r == spec_is_nan(bits),
{
    if bits >= SIGN_BIT {
        bits - SIGN_BIT > INFINITY
    } else {
        bits > INFINITY
    }
}

/// Numeric `a < b`, as the hardware compares: false as soon as either side
/// is NaN, and false between the two zeros.
#[verifier::when_used_as_spec(spec_lt)]
pub fn lt(a: u64, b: u64) -> (r: bool)
    ensures
        r == spec_lt(a, b),
{
    if is_nan(a) || is_nan(b) {
        return false;
    }
    if a >= SIGN_BIT {
        if b >= SIGN_BIT {
            // both carry the sign: the larger magnitude is the smaller value
            a > b
        } else {
            // a is at or below zero, b at or above: equal only when both are zero
            a > SIGN_BIT || b > 0
        }
    } else {
        if b >= SIGN_BIT {
            false
        } else {
            a < b
        }
    }
}

/// The larger of two values, a NaN counting as missing: where one side is
/// NaN the other is the result, and of two equal values the first.
pub open spec fn spec_max(a: u64, b: u64) -> u64 {
    if spec_is_nan(a) {
        b
    } else if spec_is_nan(b) {
        a
    } else if spec_lt(a, b) {
        b
    } else {
        a
    }
}

/// The larger of two values, a NaN counting as missing.
#[verifier::when_used_as_spec(spec_max)]
pub fn max(a: u64, b: u64) -> (r: u64)
    ensures
        r == spec_max(a, b),
{
    if is_nan(a) {
        b
    } else if is_nan(b) {
        a
    } else if lt(a, b) {
        b
    } else {
        a
    }
}

/// The larger of two values is one of them, is a number as soon as one of
/// them is, and is then below neither number.
pub proof fn lemma_max_bounds(a: u64, b: u64)
    ensures
        spec_max(a, b) == a || spec_max(a, b) == b,
        !spec_is_nan(a) || !spec_is_nan(b) ==> !spec_is_nan(spec_max(a, b)),
        !spec_is_nan(a) ==> spec_le(a, spec_max(a, b)),
        !spec_is_nan(b) ==> spec_le(b, spec_max(a, b)),
{
}

/// Numeric order is transitive, and strict below a strictly larger bound.
pub proof fn lemma_order_transitive(a: u64, b: u64, c: u64)
    ensures
        spec_le(a, b) && spec_le(b, c) ==> spec_le(a, c),
        spec_lt(a, b) && spec_le(b, c) ==> spec_lt(a, c),
        spec_le(a, b) && spec_lt(b, c) ==> spec_lt(a, c),
{
}

} // verus!
