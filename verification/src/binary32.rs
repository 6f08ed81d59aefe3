//! IEEE 754 binary32 values, held as their 32-bit patterns.
//!
//! Signal samples travel through the solver as `u32` bit patterns. Everything
//! the solver decides about a sample (its sign, its order against another
//! sample, its projection onto the non-negative half line) is a property of
//! the pattern alone and is settled here with integer arithmetic.
use vstd::prelude::*;

verus! {

/// The sign bit; a pattern at or above it has the sign bit set.
pub const SIGN_BIT: u32 = 0x8000_0000;

/// Positive infinity. Magnitudes above it are NaN.
pub const INFINITY: u32 = 0x7f80_0000;

/// Positive zero.
pub const ZERO: u32 = 0;

/// The value 1.0.
pub const ONE: u32 = 0x3f80_0000;

/// The pattern with its sign bit cleared.
pub open spec fn magnitude(bits: u32) -> u32 {
    if bits >= SIGN_BIT {
        (bits - SIGN_BIT) as u32
    } else {
        bits
    }
}

/// Whether the pattern encodes a NaN.
pub open spec fn spec_is_nan(bits: u32) -> bool {
    magnitude(bits) > INFINITY
}

/// Where a pattern that is not NaN lies on the number line: an integer that
/// grows exactly as the encoded value grows. Both zeros lie at 0.
pub open spec fn position(bits: u32) -> int {
    if bits >= SIGN_BIT {
        -(magnitude(bits) as int)
    } else {
        bits as int
    }
}

/// Numeric `a < b`. False as soon as either side is NaN.
pub open spec fn spec_lt(a: u32, b: u32) -> bool {
    !spec_is_nan(a) && !spec_is_nan(b) && position(a) < position(b)
}

/// Numeric `a <= b`. False as soon as either side is NaN.
pub open spec fn spec_le(a: u32, b: u32) -> bool {
    !spec_is_nan(a) && !spec_is_nan(b) && position(a) <= position(b)
}

/// Whether the encoded value is a number at or above zero.
pub open spec fn is_non_negative(bits: u32) -> bool {
    spec_le(ZERO, bits)
}

/// The larger of the value and zero, with NaN counted as missing: a value
/// above zero is kept, anything else becomes positive zero.
pub open spec fn spec_clamp_non_negative(bits: u32) -> u32 {
    if spec_lt(ZERO, bits) {
        bits
    } else {
        ZERO
    }
}

/// The pattern with its sign bit flipped.
pub open spec fn spec_negate(bits: u32) -> u32 {
    if bits >= SIGN_BIT {
        (bits - SIGN_BIT) as u32
    } else {
        (bits + SIGN_BIT) as u32
    }
}

/// A key that orders every pattern, NaN and the two zeros included: negative
/// values first by falling magnitude, then positive values by rising
/// magnitude. On numbers that differ in value it agrees with `spec_lt`.
pub open spec fn spec_order_key(bits: u32) -> u32 {
    if bits >= SIGN_BIT {
        (u32::MAX - bits) as u32
    } else {
        (bits + SIGN_BIT) as u32
    }
}

/// The pattern that a key of `spec_order_key` stands for.
pub open spec fn spec_from_order_key(key: u32) -> u32 {
    if key >= SIGN_BIT {
        (key - SIGN_BIT) as u32
    } else {
        (u32::MAX - key) as u32
    }
}

/// Whether the pattern encodes a NaN.
#[verifier::when_used_as_spec(spec_is_nan)]
pub fn is_nan(bits: u32) -> (r: bool)
    ensures
        r == spec_is_nan(bits),
{
    if bits >= SIGN_BIT {
        bits - SIGN_BIT > INFINITY
    } else {
        bits > INFINITY
    }
}

/// Numeric `a < b`, as the hardware compares: false as soon as either side
/// is NaN, and false between the two zeros.
#[verifier::when_used_as_spec(spec_lt)]
pub fn lt(a: u32, b: u32) -> (r: bool)
    ensures
        r == spec_lt(a, b),
{
    if is_nan(a) || is_nan(b) {
        return false;
    }
    if a >= SIGN_BIT {
        if b >= SIGN_BIT {
            // both carry the sign: the larger magnitude is the smaller value
            a > b
        } else {
            // a is at or below zero, b at or above: equal only when both are zero
            a > SIGN_BIT || b > 0
        }
    } else {
        if b >= SIGN_BIT {
            false
        } else {
            a < b
        }
    }
}

/// The larger of the value and zero: a value above zero is kept, and zero,
/// any value below it and NaN become positive zero.
#[verifier::when_used_as_spec(spec_clamp_non_negative)]
pub fn clamp_non_negative(bits: u32) -> (r: u32)
    ensures
        r == spec_clamp_non_negative(bits),
{
    if bits > ZERO && bits <= INFINITY {
        bits
    } else {
        ZERO
    }
}

/// The negated value: the pattern with its sign bit flipped.
#[verifier::when_used_as_spec(spec_negate)]
pub fn negate(bits: u32) -> (r: u32)
    ensures
        r == spec_negate(bits),
{
    if bits >= SIGN_BIT {
        bits - SIGN_BIT
    } else {
        bits + SIGN_BIT
    }
}

/// The key by which patterns are put in order; see `spec_order_key`.
#[verifier::when_used_as_spec(spec_order_key)]
pub fn order_key(bits: u32) -> (r: u32)
    ensures
        r == spec_order_key(bits),
{
    if bits >= SIGN_BIT {
        u32::MAX - bits
    } else {
        bits + SIGN_BIT
    }
}

/// The pattern that an order key stands for.
#[verifier::when_used_as_spec(spec_from_order_key)]
pub fn from_order_key(key: u32) -> (r: u32)
    ensures
        r == spec_from_order_key(key),
{
    if key >= SIGN_BIT {
        key - SIGN_BIT
    } else {
        u32::MAX - key
    }
}

/// Clamping yields a number at or above zero, whatever was put in, and leaves
/// such a number's value as it was.
pub proof fn lemma_clamp_is_non_negative(bits: u32)
    ensures
        is_non_negative(spec_clamp_non_negative(bits)),
        spec_clamp_non_negative(bits) <= INFINITY,
        is_non_negative(bits) ==> position(spec_clamp_non_negative(bits)) == position(bits),
        spec_clamp_non_negative(spec_clamp_non_negative(bits)) == spec_clamp_non_negative(bits),
{
}

/// Negating twice gives the pattern back; negating keeps the magnitude and,
/// away from NaN, mirrors the position.
pub proof fn lemma_negate_involution(bits: u32)
    ensures
        spec_negate(spec_negate(bits)) == bits,
        magnitude(spec_negate(bits)) == magnitude(bits),
        position(spec_negate(bits)) == -position(bits),
{
}

/// The order key loses nothing: each pattern comes back from its key, and each
/// key from its pattern.
pub proof fn lemma_order_key_round_trip(bits: u32)
    ensures
        spec_from_order_key(spec_order_key(bits)) == bits,
        spec_order_key(spec_from_order_key(bits)) == bits,
{
}

/// On numbers the order key follows the numeric order: a smaller value has a
/// smaller key, and a key that is not larger belongs to a value that is not
/// larger.
pub proof fn lemma_order_key_follows_value(a: u32, b: u32)
    requires
        !spec_is_nan(a),
        !spec_is_nan(b),
    ensures
        spec_lt(a, b) ==> spec_order_key(a) < spec_order_key(b),
        spec_order_key(a) <= spec_order_key(b) ==> spec_le(a, b),
{
}

} // verus!
