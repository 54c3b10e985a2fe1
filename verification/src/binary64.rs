//! IEEE-754 binary64 numbers as bit patterns.
//!
//! A number is held as the 64 bits of its encoding: one sign bit, eleven
//! exponent bits, fifty-two fraction bits. Classification and ordering are
//! decided on the bits alone.

use vstd::prelude::*;

verus! {

/// The sign bit; an encoding at or above it carries a minus sign.
pub const SIGN_BIT: u64 = 0x8000_0000_0000_0000;

/// Encoding of positive infinity. Every positive finite number encodes below it.
pub const POSITIVE_INFINITY: u64 = 0x7FF0_0000_0000_0000;

/// Encoding of the smallest positive normal number, 2^-1022.
pub const MIN_POSITIVE: u64 = 0x0010_0000_0000_0000;

/// The encoding with its sign bit cleared.
pub open spec fn magnitude(bits: u64) -> u64 {
    if bits >= SIGN_BIT {
        (bits - SIGN_BIT) as u64
    } else {
        bits
    }
}

/// Whether the sign bit is set. Holds of `-0.0` and of negative NaNs too.
pub open spec fn is_sign_negative(bits: u64) -> bool {
    bits >= SIGN_BIT
}

/// Whether the encoding is a NaN.
pub open spec fn is_nan(bits: u64) -> bool {
    magnitude(bits) > POSITIVE_INFINITY
}

/// Whether the encoding is neither an infinity nor a NaN.
pub open spec fn is_finite(bits: u64) -> bool {
    magnitude(bits) < POSITIVE_INFINITY
}

/// Whether the encoding is a finite number strictly above zero.
pub open spec fn is_positive_finite(bits: u64) -> bool {
    0 < bits < POSITIVE_INFINITY
}

/// Position of a non-NaN encoding on the number line: encodings compare as
/// the numbers they stand for exactly when their keys compare so. Both zeros
/// have key 0.
pub open spec fn order_key(bits: u64) -> int {
    if bits >= SIGN_BIT {
        -(bits - SIGN_BIT)
    } else {
        bits as int
    }
}

/// The IEEE `<` on encodings: false whenever a NaN is involved.
pub open spec fn less_than(a: u64, b: u64) -> bool {
    !is_nan(a) && !is_nan(b) && order_key(a) < order_key(b)
}

/// The IEEE `<=` on encodings: false whenever a NaN is involved.
pub open spec fn less_or_equal(a: u64, b: u64) -> bool {
    !is_nan(a) && !is_nan(b) && order_key(a) <= order_key(b)
}

pub fn clear_sign(bits: u64) -> (r: u64)
    ensures
        r == magnitude(bits),
{
    if bits >= SIGN_BIT {
        bits - SIGN_BIT
    } else {
        bits
    }
}

pub fn sign_negative(bits: u64) -> (r: bool)
    ensures
        r == is_sign_negative(bits),
{
    bits >= SIGN_BIT
}

pub fn nan(bits: u64) -> (r: bool)
    ensures
        r == is_nan(bits),
{
    clear_sign(bits) > POSITIVE_INFINITY
}

pub fn finite(bits: u64) -> (r: bool)
    ensures
        r == is_finite(bits),
{
    clear_sign(bits) < POSITIVE_INFINITY
}

pub fn positive_finite(bits: u64) -> (r: bool)
    ensures
        r == is_positive_finite(bits),
{
    0 < bits && bits < POSITIVE_INFINITY
}

/// Decides `a < b` as IEEE-754 does.
pub fn lt(a: u64, b: u64) -> (r: bool)
    ensures
        r == less_than(a, b),
{
    if nan(a) || nan(b) {
        return false;
    }
    let a_neg = a >= SIGN_BIT;
    let b_neg = b >= SIGN_BIT;
    if a_neg && b_neg {
        // Both at or below zero: the larger magnitude is the smaller number.
        a - SIGN_BIT > b - SIGN_BIT
    } else if a_neg {
        // a <= 0 <= b; they are equal only when both are zeros.
        a - SIGN_BIT > 0 || b > 0
    } else if b_neg {
        false
    } else {
        a < b
    }
}

/// Decides `a <= b` as IEEE-754 does.
pub fn le(a: u64, b: u64) -> (r: bool)
    ensures
        r == less_or_equal(a, b),
{
    if nan(a) || nan(b) {
        return false;
    }
    !lt(b, a)
}

/// On positive finite numbers the numeric order is the order of the encodings.
pub proof fn lemma_positive_order(a: u64, b: u64)
    requires
        is_positive_finite(a),
        is_positive_finite(b),
    ensures
        less_than(a, b) <==> a < b,
        less_or_equal(a, b) <==> a <= b,
{
}

} // verus!
