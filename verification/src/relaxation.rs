//! What one round of relaxation has established part-way through.
//!
//! A round takes the nodes in ascending order and, for each, the edges that
//! leave it in the order of the edge list. The lemmas here carry the state of
//! the round from one edge to the next and, at its end, to the statement
//! that each node holds its cheapest arrival and the predecessor recorded
//! for it.

use vstd::prelude::*;
use crate::csr_graph::{
    edge_valid,
    edges_valid,
    lemma_out_edges_complete,
    lemma_out_edges_sound,
    out_edges,
    InputEdge,
};
use crate::walks::{
    arrival,
    cheapest_arrival,
    is_chosen_pred,
    lemma_cheapest_arrival,
    precedes,
    source,
    target,
};

verus! {

/// Costs as the search stores them, read as mathematical integers.
pub open spec fn as_costs(best: Seq<Option<i128>>) -> Seq<Option<int>> {
    best.map_values(
        |cost: Option<i128>|
            match cost {
                Some(c) => Some(c as int),
                None => None,
            },
    )
}

/// What a round records for a node: the chosen predecessor where the node is
/// reached, nothing where it is not.
pub open spec fn recorded(
    edges: Seq<InputEdge>,
    prev: Seq<Option<int>>,
    node: int,
    pred: Option<usize>,
) -> bool {
    match pred {
        Some(id) => is_chosen_pred(edges, prev, node, id as int),
        None => cheapest_arrival(edges, prev, node, edges.len() as int) is None,
    }
}

/// Edge `id` has been relaxed when the round stands at the edge number
/// `position` of those that leave `node`.
pub open spec fn visited(edges: Seq<InputEdge>, node: int, position: int, id: int) -> bool {
    source(edges, id) < node || (source(edges, id) == node && exists|k: int|
        0 <= k < position && k < out_edges(edges, node).len() && #[trigger] out_edges(
            edges,
            node,
        )[k] == id)
}

/// `cost` and `pred` are the cheapest arrival at `into` among the edges
/// relaxed so far, and the first edge among them that arrives at that cost.
pub open spec fn settled(
    edges: Seq<InputEdge>,
    prev: Seq<Option<int>>,
    node: int,
    position: int,
    into: int,
    cost: Option<int>,
    pred: Option<usize>,
) -> bool {
    match pred {
        None => {
            &&& cost is None
            &&& forall|id: int|
                0 <= id < edges.len() && visited(edges, node, position, id) && target(edges, id)
                    == into ==> (#[trigger] arrival(edges, prev, id)) is None
        },
        Some(p) => {
            &&& p < edges.len()
            &&& visited(edges, node, position, p as int)
            &&& target(edges, p as int) == into
            &&& cost is Some
            &&& arrival(edges, prev, p as int) == cost
            &&& forall|id: int|
                0 <= id < edges.len() && visited(edges, node, position, id) && target(edges, id)
                    == into && (#[trigger] arrival(edges, prev, id)) is Some ==> {
                    &&& cost.unwrap() <= arrival(edges, prev, id).unwrap()
                    &&& arrival(edges, prev, id) == cost ==> precedes(edges, p as int, id)
                }
        },
    }
}

/// Before the round has relaxed any edge, nothing is recorded.
pub proof fn lemma_settled_at_first(edges: Seq<InputEdge>, prev: Seq<Option<int>>, into: int)
    ensures
        settled(edges, prev, 0, 0, into, None, None),
{
}

/// Relaxing one more edge extends what is visited by that edge alone.
proof fn lemma_visited_step(edges: Seq<InputEdge>, node: int, position: int, id: int)
    requires
        0 <= position < out_edges(edges, node).len(),
    ensures
        visited(edges, node, position + 1, id) <==> (visited(edges, node, position, id) || id
            == out_edges(edges, node)[position]),
{
    lemma_out_edges_sound(edges, node);
}

/// An edge visited before the one at `position` is relaxed before it.
proof fn lemma_visited_precedes(edges: Seq<InputEdge>, node: int, position: int, id: int)
    requires
        0 <= position < out_edges(edges, node).len(),
        visited(edges, node, position, id),
    ensures
        precedes(edges, id, out_edges(edges, node)[position]),
        id != out_edges(edges, node)[position],
{
    lemma_out_edges_sound(edges, node);
}

/// The state of the round after the edge at `position` has been relaxed, for
/// the node `into`: an edge that arrives there at a lower cost replaces what
/// was recorded, any other edge leaves it as it was.
pub proof fn lemma_settled_step(
    edges: Seq<InputEdge>,
    prev: Seq<Option<int>>,
    node: int,
    position: int,
    into: int,
    cost: Option<int>,
    pred: Option<usize>,
)
    requires
        edges.len() <= usize::MAX,
        0 <= position < out_edges(edges, node).len(),
        settled(edges, prev, node, position, into, cost, pred),
    ensures
        ({
            let id = out_edges(edges, node)[position];
            let arrives = arrival(edges, prev, id);
            if target(edges, id) == into && arrives is Some && (cost is None || arrives.unwrap()
                < cost.unwrap()) {
                settled(edges, prev, node, position + 1, into, arrives, Some(id as usize))
            } else {
                settled(edges, prev, node, position + 1, into, cost, pred)
            }
        }),
{
    let id = out_edges(edges, node)[position];
    lemma_out_edges_sound(edges, node);
    assert forall|other: int| 0 <= other < edges.len() implies (visited(
        edges,
        node,
        position + 1,
        other,
    ) <==> (visited(edges, node, position, other) || other == id)) by {
        lemma_visited_step(edges, node, position, other);
    }
    assert forall|other: int| visited(edges, node, position, other) implies precedes(
        edges,
        other,
        id,
    ) && other != id by {
        lemma_visited_precedes(edges, node, position, other);
    }
}

/// With every edge that leaves `node` relaxed, the round stands at the next node.
pub proof fn lemma_settled_next_node(
    edges: Seq<InputEdge>,
    prev: Seq<Option<int>>,
    node: int,
    into: int,
    cost: Option<int>,
    pred: Option<usize>,
)
    requires
        settled(edges, prev, node, out_edges(edges, node).len() as int, into, cost, pred),
    ensures
        settled(edges, prev, node + 1, 0, into, cost, pred),
{
    let position = out_edges(edges, node).len() as int;
    assert forall|id: int| 0 <= id < edges.len() && visited(edges, node + 1, 0, id) implies visited(
        edges,
        node,
        position,
        id,
    ) by {
        if source(edges, id) == node {
            let position_of_id = lemma_out_edges_complete(edges, id);
            assert(out_edges(edges, node)[position_of_id] == id);
        }
    }
}

/// A node that the layer before does not reach is passed over: none of its
/// edges arrives anywhere.
pub proof fn lemma_settled_skip(
    edges: Seq<InputEdge>,
    prev: Seq<Option<int>>,
    node: int,
    into: int,
    cost: Option<int>,
    pred: Option<usize>,
)
    requires
        prev[node] is None,
        settled(edges, prev, node, 0, into, cost, pred),
    ensures
        settled(edges, prev, node + 1, 0, into, cost, pred),
{
    assert forall|id: int| 0 <= id < edges.len() && visited(edges, node + 1, 0, id) implies visited(
        edges,
        node,
        0,
        id,
    ) || (#[trigger] arrival(edges, prev, id)) is None by {}
}

/// At the end of the round each node holds its cheapest arrival and the
/// predecessor recorded for it.
pub proof fn lemma_settled_at_last(
    node_count: nat,
    edges: Seq<InputEdge>,
    prev: Seq<Option<int>>,
    into: int,
    cost: Option<int>,
    pred: Option<usize>,
)
    requires
        edges_valid(node_count, edges),
        settled(edges, prev, node_count as int, 0, into, cost, pred),
    ensures
        cost == cheapest_arrival(edges, prev, into, edges.len() as int),
        recorded(edges, prev, into, pred),
{
    let m = edges.len() as int;
    lemma_cheapest_arrival(edges, prev, into, m);
    assert forall|id: int| 0 <= id < m implies visited(edges, node_count as int, 0, id) by {
        assert(edge_valid(node_count, edges[id]));
    }
}

} // verus!
