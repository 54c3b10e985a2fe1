//! The values that the stages of the pipeline hand to one another.

use vstd::prelude::*;
use crate::cycle_finder::Cycle;
use crate::rate::Rate;

verus! {

#[derive(Debug, Clone, Copy)]
pub enum GraphUpdate {
    Rate { edge_index: usize, new_rate: Rate },
}

#[derive(Debug)]
pub struct WriterOutcome {
    pub processed_updates: usize,
    pub unique_updates_applied: usize,
    pub invalid_index_updates: usize,
    pub invalid_rate_updates: usize,
}

impl WriterOutcome {
    /// How many messages the counters account for: each message is counted
    /// once, as processed or as invalid for its index or for its rate.
    pub open spec fn seen(self) -> nat {
        (self.processed_updates + self.invalid_index_updates + self.invalid_rate_updates) as nat
    }

    /// No more updates were applied than were processed.
    pub open spec fn consistent(self) -> bool {
        self.unique_updates_applied <= self.processed_updates
    }
}

impl Default for WriterOutcome {
    fn default() -> (outcome: Self)
        ensures
            outcome.processed_updates == 0,
            outcome.unique_updates_applied == 0,
            outcome.invalid_index_updates == 0,
            outcome.invalid_rate_updates == 0,
    {
        Self {
            processed_updates: 0,
            unique_updates_applied: 0,
            invalid_index_updates: 0,
            invalid_rate_updates: 0,
        }
    }
}

#[derive(Debug)]
pub struct SearchOutcome {
    pub searches_run: usize,
    pub last_cycle: Option<Cycle>,
}

impl Default for SearchOutcome {
    fn default() -> (outcome: Self)
        ensures
            outcome.searches_run == 0,
            outcome.last_cycle is None,
    {
        Self { searches_run: 0, last_cycle: None }
    }
}

#[derive(Debug)]
pub enum UpdateValidationError {
    IndexOutOfBounds(usize),
    InvalidRate(Rate),
}

} // verus!
