//! From a dataset to what a graph is built from.

use vstd::prelude::*;
use crate::csr_graph::{edge_valid, edges_valid, InputEdge};
use crate::dataset::{Dataset, Edge};
use crate::error::PipelineError;
use crate::rate::Rate;

verus! {

/// What a run builds its graph from, and the rates that its producer starts from.
#[derive(Debug)]
pub struct GraphInput {
    /// One more than the highest node index of any edge.
    pub node_count: usize,
    /// The edges, in the order of the dataset.
    pub edges: Vec<InputEdge>,
    /// The rate of each edge, in the order of the dataset.
    pub baseline_rates: Vec<Rate>,
}

/// An index can be a node of a graph: the graph has one node more than its
/// highest index, and one offset more than nodes.
pub open spec fn is_node_index(index: u64) -> bool {
    index + 2 <= usize::MAX
}

/// Why an edge of a dataset is refused, if it is: for its `from` index, else
/// for its `to` index, else for its rate.
pub open spec fn rejection(edge: Edge) -> Option<PipelineError> {
    if !is_node_index(edge.from) {
        Some(PipelineError::FromIndex { edge_id: edge.id })
    } else if !is_node_index(edge.to) {
        Some(PipelineError::ToIndex { edge_id: edge.id })
    } else if !edge.rate.is_valid() {
        Some(PipelineError::InvalidRate { edge_id: edge.id, rate: edge.rate })
    } else {
        None
    }
}

/// The edge as a graph takes it.
pub open spec fn as_input(edge: Edge) -> InputEdge {
    (edge.from as usize, edge.to as usize, edge.rate)
}

/// The highest node index among the first `upto` edges, 0 if there is none.
pub open spec fn highest_node(edges: Seq<Edge>, upto: int) -> int
    decreases upto,
{
    if upto <= 0 {
        0
    } else {
        let rest = highest_node(edges, upto - 1);
        let here = if edges[upto - 1].from >= edges[upto - 1].to {
            edges[upto - 1].from as int
        } else {
            edges[upto - 1].to as int
        };
        if here >= rest {
            here
        } else {
            rest
        }
    }
}

proof fn lemma_highest_node(edges: Seq<Edge>, upto: int)
    requires
        0 <= upto <= edges.len(),
    ensures
        0 <= highest_node(edges, upto),
        forall|i: int|
            0 <= i < upto ==> (#[trigger] edges[i]).from <= highest_node(edges, upto) && edges[i].to
                <= highest_node(edges, upto),
        upto > 0 ==> exists|i: int|
            0 <= i < upto && ((#[trigger] edges[i]).from == highest_node(edges, upto) || edges[i].to
                == highest_node(edges, upto)),
    decreases upto,
{
    if upto > 0 {
        lemma_highest_node(edges, upto - 1);
        let last = edges[upto - 1];
        if upto > 1 {
            let i = choose|i: int|
                0 <= i < upto - 1 && ((#[trigger] edges[i]).from == highest_node(edges, upto - 1)
                    || edges[i].to == highest_node(edges, upto - 1));
            assert(edges[i].from == highest_node(edges, upto - 1) || edges[i].to == highest_node(
                edges,
                upto - 1,
            ));
        }
        assert(last.from == highest_node(edges, upto) || last.to == highest_node(edges, upto)
            || highest_node(edges, upto) == highest_node(edges, upto - 1));
    }
}

/// Checks the edges of a dataset and turns them into the edges of a graph.
///
/// An empty dataset is refused. Otherwise the first edge that cannot be taken
/// decides the error. Where every edge can be taken, the graph has one node
/// more than the highest index, and the edges and their rates are handed on
/// in the order of the dataset.
pub fn prepare(dataset: &Dataset) -> (result: Result<GraphInput, PipelineError>)
    ensures
        match result {
            Ok(input) => {
                &&& dataset.edges@.len() > 0
                &&& forall|i: int|
                    0 <= i < dataset.edges@.len() ==> rejection(#[trigger] dataset.edges@[i])
                        is None
                &&& input.edges@ == dataset.edges@.map_values(|e: Edge| as_input(e))
                &&& input.baseline_rates@ == dataset.edges@.map_values(|e: Edge| e.rate)
                &&& input.node_count == highest_node(
                    dataset.edges@,
                    dataset.edges@.len() as int,
                ) + 1
                &&& input.node_count < usize::MAX
                &&& edges_valid(input.node_count as nat, input.edges@)
            },
            Err(error) => if dataset.edges@.len() == 0 {
                error == PipelineError::EmptyDataset
            } else {
                exists|i: int|
                    0 <= i < dataset.edges@.len() && rejection(#[trigger] dataset.edges@[i])
                        == Some(error) && forall|j: int|
                        0 <= j < i ==> rejection(#[trigger] dataset.edges@[j]) is None
            },
        },
{
    if dataset.edges.len() == 0 {
        return Err(PipelineError::EmptyDataset);
    }
    let ghost source = dataset.edges@;
    let mut graph_edges: Vec<InputEdge> = Vec::with_capacity(dataset.edges.len());
    let mut baseline_rates: Vec<Rate> = Vec::with_capacity(dataset.edges.len());
    let mut highest_node_index: usize = 0;

    let mut i: usize = 0;
    while i < dataset.edges.len()
        invariant
            source == dataset.edges@,
            i <= source.len(),
            forall|j: int| 0 <= j < i ==> rejection(#[trigger] source[j]) is None,
            graph_edges@ == source.subrange(0, i as int).map_values(|e: Edge| as_input(e)),
            baseline_rates@ == source.subrange(0, i as int).map_values(|e: Edge| e.rate),
            highest_node_index == highest_node(source, i as int),
            highest_node_index + 2 <= usize::MAX,
        decreases source.len() - i,
    {
        let edge = &dataset.edges[i];
        if edge.from > usize::MAX as u64 || edge.from as usize >= usize::MAX - 1 {
            assert(rejection(source[i as int]) == Some(
                PipelineError::FromIndex { edge_id: edge.id },
            ));
            return Err(PipelineError::FromIndex { edge_id: edge.id });
        }
        let from = edge.from as usize;
        if edge.to > usize::MAX as u64 || edge.to as usize >= usize::MAX - 1 {
            assert(rejection(source[i as int]) == Some(PipelineError::ToIndex { edge_id: edge.id }));
            return Err(PipelineError::ToIndex { edge_id: edge.id });
        }
        let to = edge.to as usize;
        if !edge.rate.valid() {
            assert(rejection(source[i as int]) == Some(
                PipelineError::InvalidRate { edge_id: edge.id, rate: edge.rate },
            ));
            return Err(PipelineError::InvalidRate { edge_id: edge.id, rate: edge.rate });
        }
        graph_edges.push((from, to, edge.rate));
        baseline_rates.push(edge.rate);
        let larger = if from >= to {
            from
        } else {
            to
        };
        if larger >= highest_node_index {
            highest_node_index = larger;
        }
        i += 1;
        proof {
            let longer = source.subrange(0, i as int);
            let shorter = source.subrange(0, i - 1);
            assert(graph_edges@ =~= longer.map_values(|e: Edge| as_input(e))) by {
                assert(longer.len() == shorter.len() + 1);
                assert forall|k: int| 0 <= k < longer.len() implies graph_edges@[k] == as_input(
                    longer[k],
                ) by {
                    if k < shorter.len() {
                        assert(shorter[k] == longer[k]);
                    }
                }
            }
            assert(baseline_rates@ =~= longer.map_values(|e: Edge| e.rate)) by {
                assert forall|k: int| 0 <= k < longer.len() implies baseline_rates@[k]
                    == longer[k].rate by {
                    if k < shorter.len() {
                        assert(shorter[k] == longer[k]);
                    }
                }
            }
        }
    }

    let node_count = highest_node_index + 1;
    proof {
        assert(source.subrange(0, i as int) =~= source);
        lemma_highest_node(source, source.len() as int);
        assert forall|k: int| 0 <= k < graph_edges@.len() implies edge_valid(
            node_count as nat,
            #[trigger] graph_edges@[k],
        ) by {
            assert(rejection(source[k]) is None);
            assert(graph_edges@[k] == as_input(source[k]));
        }
    }
    Ok(GraphInput { node_count, edges: graph_edges, baseline_rates })
}

} // verus!
