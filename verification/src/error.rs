//! Why a dataset cannot be run.

use vstd::prelude::*;
use crate::rate::Rate;

verus! {

#[derive(Debug)]
pub enum PipelineError {
    /// The dataset contains no edges.
    EmptyDataset,
    /// The `from` index of an edge is more than a graph can hold as a node.
    FromIndex { edge_id: u64 },
    /// The `to` index of an edge is more than a graph can hold as a node.
    ToIndex { edge_id: u64 },
    /// The rate of an edge is not a rate that a graph may hold.
    InvalidRate { edge_id: u64, rate: Rate },
}

} // verus!
