//! Conversion rates and their logarithmic weights.

use vstd::prelude::*;
use crate::binary64;

verus! {

/// Weights are fixed point with fifteen decimal places: this many units make one.
pub const WEIGHT_SCALE: i64 = 1_000_000_000_000_000;

/// Bound on the magnitude of a weight, 750 in units of `WEIGHT_SCALE`. The
/// natural logarithm of every positive finite binary64 number lies well inside.
pub const MAX_ABS_WEIGHT: i64 = 750_000_000_000_000_000;

/// A conversion rate and the cost of taking it.
///
/// The library adds and compares weights but never computes a logarithm:
/// whoever makes a `Rate` supplies `neg_log` along with the number.
#[derive(Clone, Copy, Debug, PartialEq, Eq, Structural)]
pub struct Rate {
    /// The rate, as the bit pattern of a binary64 number.
    pub bits: u64,
    /// `-ln(rate)` in units of `1 / WEIGHT_SCALE`.
    pub neg_log: i64,
}

impl Rate {
    /// A rate that a graph may hold: a finite number strictly above zero,
    /// with a weight in the range such numbers have.
    pub open spec fn is_valid(self) -> bool {
        &&& binary64::is_positive_finite(self.bits)
        &&& -MAX_ABS_WEIGHT <= self.neg_log <= MAX_ABS_WEIGHT
    }

    pub fn new(bits: u64, neg_log: i64) -> (r: Rate)
        ensures
            r == (Rate { bits, neg_log }),
    {
        Rate { bits, neg_log }
    }

    /// Decides `is_valid`.
    pub fn valid(&self) -> (ok: bool)
        ensures
            ok == self.is_valid(),
    {
        binary64::positive_finite(self.bits) && -MAX_ABS_WEIGHT <= self.neg_log && self.neg_log
            <= MAX_ABS_WEIGHT
    }
}

} // verus!
