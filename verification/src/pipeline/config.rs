//! What a pipeline run is configured with, and the bounds it keeps rates in.

use vstd::prelude::*;
use crate::binary64;
use crate::rate::Rate;

verus! {

/// A span of time: whole seconds, and nanoseconds beside them.
#[derive(Clone, Copy, Debug, PartialEq, Eq, Structural)]
pub struct Span {
    pub secs: u64,
    pub nanos: u32,
}

impl Span {
    /// The span in whole milliseconds, rounded down.
    pub open spec fn millis(self) -> int {
        self.secs * 1000 + self.nanos / 1_000_000
    }

    pub fn from_millis(millis: u64) -> (span: Span)
        ensures
            span.secs == millis / 1000,
            span.nanos == (millis % 1000) * 1_000_000,
            span.millis() == millis,
    {
        let secs: u64 = millis / 1000;
        let rest: u64 = millis % 1000;
        let nanos: u32 = (rest * 1_000_000) as u32;
        Span { secs, nanos }
    }

    pub fn as_millis(&self) -> (millis: u128)
        ensures
            millis == self.millis(),
    {
        self.secs as u128 * 1000 + (self.nanos / 1_000_000) as u128
    }

    pub fn is_zero(&self) -> (zero: bool)
        ensures
            zero == (self.secs == 0 && self.nanos == 0),
    {
        self.secs == 0 && self.nanos == 0
    }
}

#[derive(Debug, Clone)]
pub struct PipelineConfig {
    /// max cycle length searched
    pub hop_cap: usize,
    /// total producer messages
    pub max_updates: usize,
    /// writer queue depth
    pub channel_capacity: usize,
    /// searcher period
    pub search_interval: Span,
    /// writer batch deadline
    pub coalesce_window: Span,
    /// writer batch cap
    pub max_coalesce: usize,
    /// producer symmetric jitter fraction, as a binary64 bit pattern
    pub rate_jitter: u64,
    /// lower end of the rate clamp range
    pub min_rate_bound: Rate,
    /// upper end of the rate clamp range
    pub max_rate_bound: Rate,
}

/// The bit pattern of 0.02.
pub const DEFAULT_RATE_JITTER: u64 = 0x3F94_7AE1_47AE_147B;

/// The bit pattern of 10^-9.
pub const DEFAULT_MIN_RATE_BITS: u64 = 0x3E11_2E0B_E826_D695;

/// The bit pattern of 10^9.
pub const DEFAULT_MAX_RATE_BITS: u64 = 0x41CD_CD65_0000_0000;

/// The weight of 10^-9; that of 10^9 is its negation.
pub const DEFAULT_BOUND_WEIGHT: i64 = 20_723_265_836_946_411;

/// The weight of the smallest positive normal number, 1022 times the
/// natural logarithm of 2.
pub const MIN_POSITIVE_WEIGHT: i64 = 708_396_418_532_264_106;

/// The configuration that a run has unless told otherwise.
pub open spec fn default_config() -> PipelineConfig {
    PipelineConfig {
        hop_cap: 6,
        max_updates: 256,
        channel_capacity: 64,
        search_interval: Span { secs: 0, nanos: 250_000_000 },
        coalesce_window: Span { secs: 0, nanos: 5_000_000 },
        max_coalesce: 16,
        rate_jitter: DEFAULT_RATE_JITTER,
        min_rate_bound: Rate { bits: DEFAULT_MIN_RATE_BITS, neg_log: DEFAULT_BOUND_WEIGHT },
        max_rate_bound: Rate {
            bits: DEFAULT_MAX_RATE_BITS,
            neg_log: (-DEFAULT_BOUND_WEIGHT) as i64,
        },
    }
}

impl Default for PipelineConfig {
    fn default() -> (config: Self)
        ensures
            config == default_config(),
    {
        Self {
            hop_cap: 6,
            max_updates: 256,
            channel_capacity: 64,
            search_interval: Span::from_millis(250),
            coalesce_window: Span::from_millis(5),
            max_coalesce: 16,
            rate_jitter: DEFAULT_RATE_JITTER,
            min_rate_bound: Rate::new(DEFAULT_MIN_RATE_BITS, DEFAULT_BOUND_WEIGHT),
            max_rate_bound: Rate::new(DEFAULT_MAX_RATE_BITS, -DEFAULT_BOUND_WEIGHT),
        }
    }
}

impl PipelineConfig {
    /// Whether the producer perturbs rates: the jitter fraction is above zero.
    pub fn jitter_enabled(&self) -> (enabled: bool)
        ensures
            enabled == binary64::less_than(0, self.rate_jitter),
    {
        binary64::lt(0, self.rate_jitter)
    }
}

/// The smallest positive normal number, which no lower rate bound goes below.
pub open spec fn smallest_normal_rate() -> Rate {
    Rate { bits: binary64::MIN_POSITIVE, neg_log: MIN_POSITIVE_WEIGHT }
}

/// The lower bound that a configuration gives: its `min_rate_bound` where
/// that is above the smallest positive normal number, else that number.
pub open spec fn lower_bound_of(config: PipelineConfig) -> Rate {
    if binary64::less_than(binary64::MIN_POSITIVE, config.min_rate_bound.bits) {
        config.min_rate_bound
    } else {
        smallest_normal_rate()
    }
}

/// The upper bound that a configuration gives: its `max_rate_bound` where
/// that is above the lower bound, else the lower bound.
pub open spec fn upper_bound_of(config: PipelineConfig) -> Rate {
    if binary64::less_than(lower_bound_of(config).bits, config.max_rate_bound.bits) {
        config.max_rate_bound
    } else {
        lower_bound_of(config)
    }
}

/// `rate` held within `[min, max]`: a rate below `min` becomes `min`, one
/// above `max` becomes `max`, any other stays, a NaN too.
pub open spec fn clamped(rate: Rate, min: Rate, max: Rate) -> Rate {
    if binary64::less_than(rate.bits, min.bits) {
        min
    } else if binary64::less_than(max.bits, rate.bits) {
        max
    } else {
        rate
    }
}

/// The range that rates are clamped to. Its ends are numbers, the lower one
/// above zero, and the lower one is not above the upper one.
#[derive(Debug, Clone, Copy)]
pub struct RateBounds {
    min: Rate,
    max: Rate,
}

impl RateBounds {
    #[verifier::type_invariant]
    spec fn ordered(self) -> bool {
        &&& 0 < self.min.bits <= binary64::POSITIVE_INFINITY
        &&& self.min.bits <= self.max.bits <= binary64::POSITIVE_INFINITY
    }

    pub closed spec fn min(self) -> Rate {
        self.min
    }

    pub closed spec fn max(self) -> Rate {
        self.max
    }

    /// Both ends are rates that a graph may hold.
    pub open spec fn usable(self) -> bool {
        self.min().is_valid() && self.max().is_valid()
    }

    pub fn from_config(config: &PipelineConfig) -> (bounds: Self)
        ensures
            bounds.min() == lower_bound_of(*config),
            bounds.max() == upper_bound_of(*config),
    {
        let min = if binary64::lt(binary64::MIN_POSITIVE, config.min_rate_bound.bits) {
            config.min_rate_bound
        } else {
            Rate::new(binary64::MIN_POSITIVE, MIN_POSITIVE_WEIGHT)
        };
        let max = if binary64::lt(min.bits, config.max_rate_bound.bits) {
            config.max_rate_bound
        } else {
            min
        };
        Self { min, max }
    }

    /// Decides `usable`.
    pub fn is_usable(self) -> (ok: bool)
        ensures
            ok == self.usable(),
    {
        self.min.valid() && self.max.valid()
    }

    #[inline]
    pub fn clamp(self, rate: Rate) -> (held: Rate)
        ensures
            held == clamped(rate, self.min(), self.max()),
            self.usable() && rate.is_valid() ==> held.is_valid(),
    {
        proof {
            use_type_invariant(&self);
        }
        if binary64::lt(rate.bits, self.min.bits) {
            self.min
        } else if binary64::lt(self.max.bits, rate.bits) {
            self.max
        } else {
            rate
        }
    }
}

} // verus!
