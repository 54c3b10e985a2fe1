//! What a finished run reports.

use vstd::prelude::*;
use crate::cycle_finder::Cycle;
use crate::pipeline::types::{SearchOutcome, WriterOutcome};

verus! {

#[derive(Debug, Clone)]
pub struct PipelineStats {
    pub updates_processed: usize,
    pub unique_updates_applied: usize,
    pub searches_run: usize,
    pub last_cycle: Option<Cycle>,
    pub invalid_index_updates: usize,
    pub invalid_rate_updates: usize,
}

impl Default for PipelineStats {
    fn default() -> (stats: Self)
        ensures
            stats.updates_processed == 0,
            stats.unique_updates_applied == 0,
            stats.searches_run == 0,
            stats.last_cycle is None,
            stats.invalid_index_updates == 0,
            stats.invalid_rate_updates == 0,
    {
        Self {
            updates_processed: 0,
            unique_updates_applied: 0,
            searches_run: 0,
            last_cycle: None,
            invalid_index_updates: 0,
            invalid_rate_updates: 0,
        }
    }
}

impl PipelineStats {
    /// The report of a run, from what its writer and its searcher ended with.
    pub fn aggregate(writer: WriterOutcome, search: SearchOutcome) -> (stats: Self)
        ensures
            stats.updates_processed == writer.processed_updates,
            stats.unique_updates_applied == writer.unique_updates_applied,
            stats.searches_run == search.searches_run,
            stats.last_cycle == search.last_cycle,
            stats.invalid_index_updates == writer.invalid_index_updates,
            stats.invalid_rate_updates == writer.invalid_rate_updates,
    {
        Self {
            updates_processed: writer.processed_updates,
            unique_updates_applied: writer.unique_updates_applied,
            searches_run: search.searches_run,
            last_cycle: search.last_cycle,
            invalid_index_updates: writer.invalid_index_updates,
            invalid_rate_updates: writer.invalid_rate_updates,
        }
    }
}

} // verus!
