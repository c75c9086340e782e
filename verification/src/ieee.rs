//! The IEEE-754 binary64 encoding, read as plain bits.
//!
//! A double is stored as one sign bit followed by a 63-bit magnitude field
//! (11 exponent bits, then 52 fraction bits). For every value that is not
//! NaN, the numeric order of doubles is the order of the signed magnitudes
//! below, with `+0.0` and `-0.0` equal; NaN compares false with everything.
use vstd::prelude::*;

verus! {

/// The sign bit of a binary64 value.
pub const SIGN_BIT: u64 = 0x8000_0000_0000_0000;

/// The magnitude field of positive infinity: all exponent bits set, no fraction.
pub const INFINITY_MAGNITUDE: u64 = 0x7FF0_0000_0000_0000;

/// The encoding of `0.0`.
pub const ZERO: u64 = 0;

/// The encoding of `0.5`.
pub const HALF: u64 = 0x3FE0_0000_0000_0000;

/// The encoding of `1.0`.
pub const ONE: u64 = 0x3FF0_0000_0000_0000;

/// The encoding of `-1.0`.
pub const MINUS_ONE: u64 = 0xBFF0_0000_0000_0000;

/// The sign bit is set.
pub open spec fn spec_is_negative_signed(bits: u64) -> bool {
    bits >= SIGN_BIT
}

/// Exponent and fraction, as one unsigned field.
pub open spec fn spec_magnitude(bits: u64) -> u64 {
    if spec_is_negative_signed(bits) {
        (bits - SIGN_BIT) as u64
    } else {
        bits
    }
}

/// All exponent bits set and a nonzero fraction.
pub open spec fn spec_is_nan(bits: u64) -> bool {
    spec_magnitude(bits) > INFINITY_MAGNITUDE
}

/// Neither infinite nor NaN: the exponent field is not all ones.
pub open spec fn spec_is_finite(bits: u64) -> bool {
    spec_magnitude(bits) < INFINITY_MAGNITUDE
}

/// Position of a non-NaN value on the number line: equal keys are equal
/// numbers, and a smaller key is a smaller number.
pub open spec fn spec_key(bits: u64) -> int {
    if spec_is_negative_signed(bits) {
        -(spec_magnitude(bits) as int)
    } else {
        spec_magnitude(bits) as int
    }
}

/// IEEE `a < b`: false whenever either side is NaN.
pub open spec fn spec_lt(a: u64, b: u64) -> bool {
    !spec_is_nan(a) && !spec_is_nan(b) && spec_key(a) < spec_key(b)
}

/// IEEE `a <= b`: false whenever either side is NaN.
pub open spec fn spec_le(a: u64, b: u64) -> bool {
    !spec_is_nan(a) && !spec_is_nan(b) && spec_key(a) <= spec_key(b)
}

/// Unary minus: the sign bit flips, nothing else changes.
pub open spec fn spec_neg(bits: u64) -> u64 {
    if spec_is_negative_signed(bits) {
        (bits - SIGN_BIT) as u64
    } else {
        (bits + SIGN_BIT) as u64
    }
}

/// Absolute value: the sign bit is cleared.
pub open spec fn spec_abs(bits: u64) -> u64 {
    spec_magnitude(bits)
}

/// Whether the value is finite (`f64::is_finite`).
pub fn is_finite(bits: u64) -> (r: bool)
    ensures
        r == spec_is_finite(bits),
{
    magnitude(bits) < INFINITY_MAGNITUDE
}

/// Whether the value is NaN (`f64::is_nan`).
pub fn is_nan(bits: u64) -> (r: bool)
    ensures
        r == spec_is_nan(bits),
{
    magnitude(bits) > INFINITY_MAGNITUDE
}

/// The bits after the sign bit.
pub fn magnitude(bits: u64) -> (r: u64)
    ensures
        r == spec_magnitude(bits),
        r < SIGN_BIT,
{
    if bits >= SIGN_BIT {
        bits - SIGN_BIT
    } else {
        bits
    }
}

/// The order key of a value (see `spec_key`).
pub fn order_key(bits: u64) -> (r: i64)
    ensures
        r == spec_key(bits),
{
    let m = magnitude(bits);
    if bits >= SIGN_BIT {
        -(m as i64)
    } else {
        m as i64
    }
}

/// IEEE `a < b`.
pub fn less_than(a: u64, b: u64) -> (r: bool)
    ensures
        r == spec_lt(a, b),
{
    !is_nan(a) && !is_nan(b) && order_key(a) < order_key(b)
}

/// IEEE `a <= b`.
pub fn less_or_equal(a: u64, b: u64) -> (r: bool)
    ensures
        r == spec_le(a, b),
{
    !is_nan(a) && !is_nan(b) && order_key(a) <= order_key(b)
}

/// Unary minus (`-x`).
pub fn negate(bits: u64) -> (r: u64)
    ensures
        r == spec_neg(bits),
        !spec_is_nan(bits) ==> spec_key(r) == -spec_key(bits),
        spec_is_finite(r) == spec_is_finite(bits),
        spec_is_nan(r) == spec_is_nan(bits),
{
    if bits >= SIGN_BIT {
        bits - SIGN_BIT
    } else {
        bits + SIGN_BIT
    }
}

/// Absolute value (`f64::abs`).
pub fn abs(bits: u64) -> (r: u64)
    ensures
        r == spec_abs(bits),
        !spec_is_negative_signed(r),
        spec_key(r) == spec_magnitude(bits),
        spec_is_nan(r) == spec_is_nan(bits),
{
    magnitude(bits)
}

/// Negation undoes itself, on every bit pattern.
pub proof fn lemma_negate_involutive(bits: u64)
    ensures
        spec_neg(spec_neg(bits)) == bits,
{
}

} // verus!
