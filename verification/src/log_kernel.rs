//! The sanitising steps of the rate update kernel.
//!
//! The kernel multiplies two rates, quantises the product and takes its
//! logarithm. Before that it brings its inputs in order: the clamp range, the
//! epsilon gate and the two operands. Those steps only classify and compare
//! numbers, and are decided here on their bit patterns.

use vstd::prelude::*;
use crate::binary64;

verus! {

/// The smaller of two numbers, ignoring a NaN beside a number.
pub open spec fn lesser(a: u64, b: u64) -> u64 {
    if binary64::is_nan(a) {
        b
    } else if binary64::is_nan(b) {
        a
    } else if binary64::less_than(b, a) {
        b
    } else {
        a
    }
}

/// The larger of two numbers, ignoring a NaN beside a number.
pub open spec fn greater(a: u64, b: u64) -> u64 {
    if binary64::is_nan(a) {
        b
    } else if binary64::is_nan(b) {
        a
    } else if binary64::less_than(a, b) {
        b
    } else {
        a
    }
}

/// The lower end of the sanitised range: the smaller of the two given ends
/// where that is finite and above zero, else the smallest positive normal
/// number.
pub open spec fn lower_end(min_r: u64, max_r: u64) -> u64 {
    if binary64::is_positive_finite(lesser(min_r, max_r)) {
        lesser(min_r, max_r)
    } else {
        binary64::MIN_POSITIVE
    }
}

/// The upper end of the sanitised range: the larger of the two given ends
/// where that is finite and not below the lower end, else the lower end.
pub open spec fn upper_end(min_r: u64, max_r: u64) -> u64 {
    let hi = greater(min_r, max_r);
    if binary64::is_finite(hi) && !binary64::less_than(hi, lower_end(min_r, max_r)) {
        hi
    } else {
        lower_end(min_r, max_r)
    }
}

/// Sanitise the caller-provided clamp range: both ends finite and above
/// zero, the lower one not above the upper one.
pub fn normalize_bounds(min_r: u64, max_r: u64) -> (bounds: (u64, u64))
    ensures
        bounds.0 == lower_end(min_r, max_r),
        bounds.1 == upper_end(min_r, max_r),
        binary64::is_positive_finite(bounds.0),
        binary64::is_positive_finite(bounds.1),
        bounds.0 <= bounds.1,
{
    let mut lo = if binary64::nan(min_r) {
        max_r
    } else if binary64::nan(max_r) {
        min_r
    } else if binary64::lt(max_r, min_r) {
        max_r
    } else {
        min_r
    };
    let mut hi = if binary64::nan(min_r) {
        max_r
    } else if binary64::nan(max_r) {
        min_r
    } else if binary64::lt(min_r, max_r) {
        max_r
    } else {
        min_r
    };

    // Keep bounds at or above the smallest positive normal number so
    // subsequent math avoids denormals.
    if !binary64::positive_finite(lo) {
        lo = binary64::MIN_POSITIVE;
    }
    if !binary64::finite(hi) || binary64::lt(hi, lo) {
        hi = lo;
    }
    (lo, hi)
}

/// Keep the epsilon gate positive and finite: the magnitude of a finite
/// epsilon, zero for any other.
pub fn sanitize_eps(eps: u64) -> (gate: u64)
    ensures
        gate == if binary64::is_finite(eps) {
            binary64::magnitude(eps)
        } else {
            0
        },
        binary64::is_finite(gate),
        !binary64::is_sign_negative(gate),
{
    if binary64::finite(eps) {
        binary64::clear_sign(eps)
    } else {
        0
    }
}

/// An operand held within `[lo, hi]`: a NaN and negative infinity become
/// `lo`, positive infinity becomes `hi`, a number below `lo` becomes `lo`,
/// one above `hi` becomes `hi`, any other stays.
pub open spec fn clamped_operand(value: u64, lo: u64, hi: u64) -> u64 {
    if binary64::is_nan(value) {
        lo
    } else if !binary64::is_finite(value) {
        if binary64::is_sign_negative(value) {
            lo
        } else {
            hi
        }
    } else if binary64::less_than(value, lo) {
        lo
    } else if binary64::less_than(hi, value) {
        hi
    } else {
        value
    }
}

/// Defensive clamp used for both operands; treats NaN/Inf as bound hits.
pub fn clamp_operand(value: u64, lo: u64, hi: u64) -> (held: u64)
    requires
        binary64::is_positive_finite(lo),
        binary64::is_positive_finite(hi),
        lo <= hi,
    ensures
        held == clamped_operand(value, lo, hi),
        binary64::is_positive_finite(held),
        lo <= held <= hi,
{
    let sanitized = if binary64::nan(value) {
        lo
    } else if !binary64::finite(value) {
        if binary64::sign_negative(value) {
            lo
        } else {
            hi
        }
    } else {
        value
    };
    let raised = if binary64::lt(sanitized, lo) {
        lo
    } else {
        sanitized
    };
    if binary64::lt(hi, raised) {
        hi
    } else {
        raised
    }
}

} // verus!
