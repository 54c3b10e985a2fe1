//! The producer: bursts of rate updates for randomly chosen edges, with a
//! random pause between bursts.
//!
//! The producer decides what comes next: an update for an edge, a pause, or
//! the end. Whoever runs it makes the rate of each update, sends it and
//! sleeps.

use vstd::prelude::*;
use rand::rngs::StdRng;
use rand::{Rng, SeedableRng};
use crate::pipeline::config::{PipelineConfig, Span};

verus! {

#[verifier::external_type_specification]
#[verifier::external_body]
pub struct ExStdRng(rand::rngs::StdRng);

/// `rand::random` for 32 bytes: a seed from the thread's generator, which
/// the operating system seeds. Nothing is claimed of the bytes.
#[verifier::external_body]
fn random_seed() -> (seed: [u8; 32]) {
    rand::random::<[u8; 32]>()
}

/// `StdRng::from_seed`: the generator that starts from `seed`. Nothing is
/// claimed of what it will draw.
#[verifier::external_body]
fn rng_from_seed(seed: [u8; 32]) -> (rng: StdRng) {
    StdRng::from_seed(seed)
}

/// `Rng::random_range` on `low..=high` of `usize`: a value of the range. The
/// call panics on an empty range, which `requires` leaves out.
#[verifier::external_body]
fn draw_usize_inclusive(rng: &mut StdRng, low: usize, high: usize) -> (value: usize)
    requires
        low <= high,
    ensures
        low <= value <= high,
{
    rng.random_range(low..=high)
}

/// `Rng::random_range` on `0..end` of `usize`: a value of the range. The call
/// panics on an empty range, which `requires` leaves out.
#[verifier::external_body]
fn draw_usize_below(rng: &mut StdRng, end: usize) -> (value: usize)
    requires
        0 < end,
    ensures
        value < end,
{
    rng.random_range(0..end)
}

/// `Rng::random_range` on `0..=high` of `u64`: a value of the range, which is
/// never empty.
#[verifier::external_body]
fn draw_u64_inclusive(rng: &mut StdRng, high: u64) -> (value: u64)
    ensures
        value <= high,
{
    rng.random_range(0..=high)
}

/// A generator seeded from the operating system's randomness.
pub fn seeded_rng() -> StdRng {
    rng_from_seed(random_seed())
}

/// What the producer does next.
#[derive(Debug, Clone, Copy, PartialEq, Eq, Structural)]
pub enum ProducerAction {
    /// Send an update for this edge.
    Send { edge_index: usize },
    /// Sleep this many milliseconds.
    Sleep { millis: u64 },
    /// Nothing more: the producer is done.
    Stop,
}

/// The largest burst that a configured batch cap allows: at least one.
pub open spec fn burst_cap(max_coalesce: usize) -> usize {
    if max_coalesce == 0 {
        1
    } else {
        max_coalesce
    }
}

/// The longest pause between bursts, in milliseconds: twice the search
/// interval, which counts as at least one millisecond. The interval is taken
/// by its low 64 bits, and the doubling stops at the largest `u64`.
pub open spec fn longest_pause(search_interval: Span) -> u64 {
    let millis = if search_interval.millis() < 1 {
        1
    } else {
        search_interval.millis()
    };
    let low = millis % 0x1_0000_0000_0000_0000;
    if low * 2 > u64::MAX {
        u64::MAX
    } else {
        (low * 2) as u64
    }
}

/// Computes `longest_pause`.
pub fn max_delay_ms(search_interval: Span) -> (millis: u64)
    ensures
        millis == longest_pause(search_interval),
{
    let interval: u128 = search_interval.as_millis();
    let at_least_one: u128 = if interval < 1 {
        1
    } else {
        interval
    };
    let low: u64 = (at_least_one % 0x1_0000_0000_0000_0000) as u64;
    if low > u64::MAX / 2 {
        u64::MAX
    } else {
        low * 2
    }
}

/// The state of a producer between two actions.
#[derive(Debug)]
pub struct Producer {
    edge_count: usize,
    max_burst: usize,
    max_delay_ms: u64,
    remaining: usize,
    burst_left: usize,
    pause_due: bool,
}

impl Producer {
    #[verifier::type_invariant]
    spec fn coherent(self) -> bool {
        &&& self.max_burst >= 1
        &&& self.burst_left <= self.remaining
        &&& self.burst_left <= self.max_burst
        &&& self.pause_due ==> self.burst_left == 0
    }

    /// The number of edges that updates are made for.
    pub closed spec fn edge_count(self) -> usize {
        self.edge_count
    }

    /// The largest burst.
    pub closed spec fn max_burst(self) -> usize {
        self.max_burst
    }

    /// The longest pause between bursts, in milliseconds.
    pub closed spec fn max_delay(self) -> u64 {
        self.max_delay_ms
    }

    /// How many updates are still to be sent.
    pub closed spec fn remaining(self) -> usize {
        self.remaining
    }

    /// How many updates of the current burst are still to be sent.
    pub closed spec fn burst_left(self) -> usize {
        self.burst_left
    }

    /// A burst has just ended, and the pause behind it has not been decided.
    pub closed spec fn pause_due(self) -> bool {
        self.pause_due
    }

    /// A producer of `config.max_updates` updates for a graph of `edge_count` edges.
    pub fn new(config: &PipelineConfig, edge_count: usize) -> (producer: Self)
        ensures
            producer.edge_count() == edge_count,
            producer.max_burst() == burst_cap(config.max_coalesce),
            producer.max_delay() == longest_pause(config.search_interval),
            producer.remaining() == config.max_updates,
            producer.burst_left() == 0,
            !producer.pause_due(),
    {
        let max_burst = if config.max_coalesce == 0 {
            1
        } else {
            config.max_coalesce
        };
        Self {
            edge_count,
            max_burst,
            max_delay_ms: max_delay_ms(config.search_interval),
            remaining: config.max_updates,
            burst_left: 0,
            pause_due: false,
        }
    }

    /// How many updates are still to be sent.
    pub fn updates_left(&self) -> (left: usize)
        ensures
            left == self.remaining(),
    {
        self.remaining
    }

    /// The size that the next burst may have at most: the largest burst, or
    /// what is left if that is less.
    pub fn burst_limit(&self) -> (limit: usize)
        ensures
            limit == if self.max_burst() <= self.remaining() {
                self.max_burst()
            } else {
                self.remaining()
            },
    {
        if self.max_burst <= self.remaining {
            self.max_burst
        } else {
            self.remaining
        }
    }

    /// Decides the next action, drawing from `rng` what is left to chance:
    /// the size of a burst, the edge of an update, the length of a pause.
    ///
    /// Without edges, or with nothing left to send, the producer stops. Else
    /// it sends the updates of a burst one by one. Behind a burst, if
    /// updates are left, it draws a pause of up to `max_delay` milliseconds
    /// and sleeps unless it drew zero; then the next burst begins, of a size
    /// between one and `burst_limit`.
    pub fn next(&mut self, rng: &mut StdRng) -> (action: ProducerAction)
        ensures
            final(self).edge_count() == old(self).edge_count(),
            final(self).max_burst() == old(self).max_burst(),
            final(self).max_delay() == old(self).max_delay(),
            match action {
                ProducerAction::Send { edge_index } => {
                    &&& edge_index < old(self).edge_count()
                    &&& old(self).remaining() > 0
                    &&& final(self).remaining() == old(self).remaining() - 1
                    &&& final(self).pause_due() == (final(self).burst_left() == 0)
                    &&& old(self).burst_left() > 0 ==> final(self).burst_left() == old(
                        self,
                    ).burst_left() - 1
                    &&& final(self).burst_left() <= final(self).remaining()
                    &&& final(self).burst_left() < old(self).max_burst()
                },
                ProducerAction::Sleep { millis } => {
                    &&& old(self).edge_count() > 0
                    &&& old(self).pause_due()
                    &&& !final(self).pause_due()
                    &&& 0 < millis <= old(self).max_delay()
                    &&& old(self).remaining() > 0
                    &&& final(self).remaining() == old(self).remaining()
                    &&& final(self).burst_left() == 0
                },
                ProducerAction::Stop => {
                    &&& old(self).edge_count() == 0 || old(self).remaining() == 0
                    &&& final(self).remaining() == old(self).remaining()
                    &&& final(self).burst_left() == old(self).burst_left()
                },
            },
    {
        proof {
            use_type_invariant(&*self);
        }
        if self.edge_count == 0 || self.remaining == 0 {
            return ProducerAction::Stop;
        }
        if self.pause_due {
            self.pause_due = false;
            let sleep_ms = draw_u64_inclusive(rng, self.max_delay_ms);
            if sleep_ms > 0 {
                return ProducerAction::Sleep { millis: sleep_ms };
            }
        }
        if self.burst_left == 0 {
            let limit = self.burst_limit();
            self.burst_left = draw_usize_inclusive(rng, 1, limit);
        }
        let edge_index = draw_usize_below(rng, self.edge_count);
        self.burst_left = self.burst_left - 1;
        self.remaining = self.remaining - 1;
        if self.burst_left == 0 {
            self.pause_due = true;
        }
        ProducerAction::Send { edge_index }
    }
}

} // verus!
