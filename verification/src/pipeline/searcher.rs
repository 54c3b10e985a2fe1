//! The searcher: one search of a snapshot of the graph per wake.

use vstd::prelude::*;
use crate::csr_graph::{CSRGraph, GraphView};
use crate::cycle_finder::{find_profitable_cycle_with_graph, search_result, Cycle};
use crate::pipeline::types::SearchOutcome;

verus! {

/// What wakes the searcher.
#[derive(Debug, Clone, Copy, PartialEq, Eq, Structural)]
pub enum SearchEvent {
    /// The interval has elapsed.
    Tick,
    /// The run is over: one last search, then the searcher ends.
    Shutdown,
}

/// Whether a graph is worth a snapshot: one without edges is not searched.
pub fn needs_search(graph: &CSRGraph) -> (needed: bool)
    ensures
        needed == (graph@.edges.len() > 0),
{
    graph.edge_count() != 0
}

/// How `after` follows from `before` by one search of `view`: a cycle that
/// answers the search replaces what was there, and a search without an
/// answer leaves it.
pub open spec fn follows_search(
    view: GraphView,
    hop_cap: usize,
    before: Option<Cycle>,
    after: Option<Cycle>,
) -> bool {
    ||| after is Some && after.unwrap().answers(view, hop_cap)
    ||| after == before && search_result(view, hop_cap, None)
}

/// Searches one snapshot and records what it found. A snapshot without edges
/// is passed over and not counted.
pub fn search_pass(graph: &CSRGraph, hop_cap: usize, outcome: &mut SearchOutcome)
    requires
        graph.well_formed(),
        old(outcome).searches_run < usize::MAX,
    ensures
        graph@.edges.len() == 0 ==> *final(outcome) == *old(outcome),
        graph@.edges.len() > 0 ==> {
            &&& final(outcome).searches_run == old(outcome).searches_run + 1
            &&& follows_search(
                graph@,
                hop_cap,
                old(outcome).last_cycle,
                final(outcome).last_cycle,
            )
        },
{
    if graph.edge_count() == 0 {
        return ;
    }
    if let Some(cycle) = find_profitable_cycle_with_graph(graph, hop_cap) {
        outcome.last_cycle = Some(cycle);
    }
    outcome.searches_run += 1;
}

/// One wake of the searcher: searches the snapshot, if one was taken, and
/// says whether the searcher goes on. It goes on after a tick and ends after
/// the shutdown.
pub fn searcher_step(
    event: SearchEvent,
    snapshot: Option<&CSRGraph>,
    hop_cap: usize,
    outcome: &mut SearchOutcome,
) -> (proceed: bool)
    requires
        snapshot is Some ==> snapshot.unwrap().well_formed(),
        old(outcome).searches_run < usize::MAX,
    ensures
        proceed == (event == SearchEvent::Tick),
        snapshot is None || snapshot.unwrap()@.edges.len() == 0 ==> *final(outcome) == *old(
            outcome,
        ),
        snapshot is Some && snapshot.unwrap()@.edges.len() > 0 ==> {
            &&& final(outcome).searches_run == old(outcome).searches_run + 1
            &&& follows_search(
                snapshot.unwrap()@,
                hop_cap,
                old(outcome).last_cycle,
                final(outcome).last_cycle,
            )
        },
{
    match snapshot {
        Some(graph) => {
            search_pass(graph, hop_cap, outcome);
        },
        None => {},
    }
    match event {
        SearchEvent::Tick => true,
        SearchEvent::Shutdown => false,
    }
}

} // verus!
