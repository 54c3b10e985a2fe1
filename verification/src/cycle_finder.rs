//! Hop-capped search for a profitable cycle.
//!
//! For each start node in turn the search computes, hop by hop, the cheapest
//! cost of reaching every node in exactly that many edges. The first round
//! trip that costs less than `-EPS` is reported, as the walk that the
//! recorded predecessors give.

use vstd::prelude::*;
use crate::csr_graph::{
    check_edges,
    edges_valid,
    filled,
    lemma_out_edges_sound,
    out_edges,
    CSRGraph,
    GraphView,
    InputEdge,
};
use crate::rate::MAX_ABS_WEIGHT;
use crate::relaxation::{
    as_costs,
    lemma_settled_at_first,
    lemma_settled_at_last,
    lemma_settled_next_node,
    lemma_settled_skip,
    lemma_settled_step,
    recorded,
    settled,
};
use crate::walks::{
    arrival,
    costs,
    first_profitable,
    in_search,
    is_chosen_pred,
    is_chosen_walk,
    lemma_chosen_walk_unique,
    lemma_first_profitable_unique,
    lemma_min_cost_bounded,
    lemma_walk_push,
    min_cost,
    none_profitable,
    profitable_at,
    relaxed,
    searched_before,
    source,
    target,
    walk_between,
    walk_cost,
    walk_vertices,
    weight,
    EPS,
    MAX_LOG_PROFIT,
};

verus! {

#[derive(Debug, Clone)]
pub struct Cycle {
    /// s -> ... -> s  (length = edge_indexes.len() + 1)
    pub vertices: Vec<usize>,
    /// ids of the edges of the graph, in the *cycle order*
    pub edge_indexes: Vec<usize>,
    /// sum of the weights along the cycle (negative ⇒ profitable)
    pub neg_log_sum: i128,
}

impl Cycle {
    /// The node at which the cycle starts and ends.
    pub open spec fn start(&self) -> int {
        self.vertices@[0] as int
    }

    /// The number of edges of the cycle.
    pub open spec fn hops(&self) -> nat {
        self.edge_indexes@.len()
    }

    /// The cycle is a closed walk in the graph: its edges chain from its
    /// start back to its start, its vertices are the nodes that they visit,
    /// and its sum is their cost.
    pub open spec fn is_closed_walk(&self, edges: Seq<InputEdge>) -> bool {
        &&& self.edge_indexes@.len() >= 1
        &&& walk_between(edges, self.start(), self.start(), self.edge_indexes@)
        &&& self.vertices@ == walk_vertices(edges, self.edge_indexes@)
        &&& self.neg_log_sum == walk_cost(edges, self.edge_indexes@)
    }

    /// The cycle is what a search of `view` with `hop_cap` reports: the
    /// cheapest round trip of the first start node and hop count that have a
    /// profitable one, along the recorded predecessors.
    pub open spec fn answers(&self, view: GraphView, hop_cap: usize) -> bool {
        &&& self.is_closed_walk(view.edges)
        &&& first_profitable(view, hop_cap as int, self.start(), self.hops() as int)
        &&& is_chosen_walk(view, self.start(), self.edge_indexes@)
        &&& min_cost(view, self.start(), self.hops(), self.start()) == Some(
            self.neg_log_sum as int,
        )
        &&& -MAX_LOG_PROFIT <= self.neg_log_sum < -EPS
    }
}

/// What a search of `view` with `hop_cap` returns. Nothing is returned when
/// no start node has a profitable round trip within the cap, or when the
/// first one found gains more than a binary64 number can hold.
pub open spec fn search_result(view: GraphView, hop_cap: usize, result: Option<Cycle>) -> bool {
    match result {
        Some(cycle) => cycle.answers(view, hop_cap),
        None => none_profitable(view, hop_cap as int) || exists|s: int, h: int|
            #[trigger] first_profitable(view, hop_cap as int, s, h) && min_cost(
                view,
                s,
                h as nat,
                s,
            ).unwrap() < -MAX_LOG_PROFIT,
    }
}

/// The predecessor recorded for `(hop, node)`: the rounds before the current
/// one are in `by_hop`, the current one in `current`.
pub open spec fn pred_at(
    by_hop: Seq<Vec<Option<usize>>>,
    current: Seq<Option<usize>>,
    hop: int,
    node: int,
) -> Option<usize> {
    if hop == by_hop.len() {
        current[node]
    } else {
        by_hop[hop]@[node]
    }
}

/// The edges found by following the recorded predecessors back from
/// `(hop, node)` to hop 0, in forward order; `None` where one is missing.
pub open spec fn backtrack(
    edges: Seq<InputEdge>,
    by_hop: Seq<Vec<Option<usize>>>,
    current: Seq<Option<usize>>,
    hop: nat,
    node: int,
) -> Option<Seq<usize>>
    decreases hop,
{
    if hop == 0 {
        Some(Seq::empty())
    } else {
        match pred_at(by_hop, current, hop as int, node) {
            None => None,
            Some(id) => match backtrack(
                edges,
                by_hop,
                current,
                (hop - 1) as nat,
                source(edges, id as int),
            ) {
                None => None,
                Some(path) => Some(path.push(id)),
            },
        }
    }
}

/// The rows for the hops up to `hop` have one entry per node, and every
/// predecessor recorded in them and in `current` is an edge of the graph.
pub open spec fn preds_in_range(
    view: GraphView,
    by_hop: Seq<Vec<Option<usize>>>,
    current: Seq<Option<usize>>,
    hop: int,
) -> bool {
    &&& 0 <= hop <= by_hop.len()
    &&& current.len() == view.node_count
    &&& forall|k: int| 0 <= k < by_hop.len() ==> (#[trigger] by_hop[k])@.len() == view.node_count
    &&& forall|k: int, node: int|
        1 <= k <= hop && 0 <= node < view.node_count ==> match #[trigger] pred_at(
            by_hop,
            current,
            k,
            node,
        ) {
            Some(id) => id < view.edges.len(),
            None => true,
        }
}

/// A copy of `row`.
fn copy_row(row: &Vec<Option<usize>>) -> (copy: Vec<Option<usize>>)
    ensures
        copy@ == row@,
{
    let mut copy: Vec<Option<usize>> = Vec::with_capacity(row.len());
    let mut i: usize = 0;
    while i < row.len()
        invariant
            i <= row@.len(),
            copy@ == row@.subrange(0, i as int),
        decreases row@.len() - i,
    {
        copy.push(row[i]);
        i += 1;
        assert(copy@ =~= row@.subrange(0, i as int));
    }
    assert(row@.subrange(0, i as int) =~= row@);
    copy
}

/// Sets every entry of `costs_row` to `None`.
fn clear_costs(costs_row: &mut Vec<Option<i128>>)
    ensures
        final(costs_row)@.len() == old(costs_row)@.len(),
        forall|i: int| 0 <= i < final(costs_row)@.len() ==> final(costs_row)@[i] is None,
{
    let mut i: usize = 0;
    while i < costs_row.len()
        invariant
            costs_row@.len() == old(costs_row)@.len(),
            i <= costs_row@.len(),
            forall|j: int| 0 <= j < i ==> costs_row@[j] is None,
        decreases costs_row@.len() - i,
    {
        costs_row[i] = None;
        i += 1;
    }
}

/// Sets every entry of `row` to `None`.
fn clear_preds(row: &mut Vec<Option<usize>>)
    ensures
        final(row)@.len() == old(row)@.len(),
        forall|i: int| 0 <= i < final(row)@.len() ==> final(row)@[i] is None,
{
    let mut i: usize = 0;
    while i < row.len()
        invariant
            row@.len() == old(row)@.len(),
            i <= row@.len(),
            forall|j: int| 0 <= j < i ==> row@[j] is None,
        decreases row@.len() - i,
    {
        row[i] = None;
        i += 1;
    }
}

/// Bellman–Ford with a hop cap (no super-source).
/// For each start node, we run exact-hop DP up to `hop_cap`, relaxing in place and
/// reusing buffers (swap) to minimize allocations. A cycle exists at hop `h` iff
/// the cheapest cost of returning to the start in `h` edges is below `-EPS`.
///
/// Nothing is searched, and nothing returned, where an edge has an endpoint
/// that is no node or a rate that is not usable.
pub fn find_profitable_cycle(n: usize, edges: &[InputEdge], hop_cap: usize) -> (result: Option<
    Cycle,
>)
    requires
        n < usize::MAX,
    ensures
        !edges_valid(n as nat, edges@) ==> result is None,
        edges_valid(n as nat, edges@) ==> search_result(
            GraphView { node_count: n as nat, edges: edges@ },
            hop_cap,
            result,
        ),
{
    let owned = vstd::slice::slice_to_vec(edges);
    if !check_edges(n, &owned) {
        return None;
    }
    let ghost view = GraphView { node_count: n as nat, edges: edges@ };
    if n == 0 || owned.len() == 0 || hop_cap == 0 {
        proof {
            lemma_nothing_to_search(view, hop_cap);
        }
        return None;
    }
    let graph = CSRGraph::from_edges(n, owned);
    assert(graph@ == view);
    find_profitable_cycle_with_graph(&graph, hop_cap)
}

/// A graph without nodes or without edges has no profitable round trip, nor
/// has a search without hops.
pub proof fn lemma_nothing_to_search(view: GraphView, hop_cap: usize)
    requires
        view.node_count == 0 || view.edges.len() == 0 || hop_cap == 0,
    ensures
        none_profitable(view, hop_cap as int),
{
    assert forall|s: int, h: int| in_search(view, hop_cap as int, s, h) implies !#[trigger] profitable_at(
        view,
        s,
        h as nat,
    ) by {
        assert(view.edges.len() == 0);
        assert(costs(view, s, h as nat) == relaxed(view, costs(view, s, (h - 1) as nat)));
    }
}

/// Variant accepting a pre-built CSR graph to avoid rebuilding adjacency data on every call.
pub fn find_profitable_cycle_with_graph(graph: &CSRGraph, hop_cap: usize) -> (result: Option<
    Cycle,
>)
    requires
        graph.well_formed(),
    ensures
        search_result(graph@, hop_cap, result),
{
    let n = graph.node_count();
    let ghost view = graph@;
    let ghost edges = graph@.edges;
    proof {
        graph.lemma_well_formed();
    }
    if n == 0 || graph.edge_count() == 0 || hop_cap == 0 {
        proof {
            lemma_nothing_to_search(view, hop_cap);
        }
        return None;
    }
    // Try each start node separately (no virtual super-source).
    let mut start: usize = 0;
    while start < n
        invariant
            graph.well_formed(),
            view == graph@,
            edges == view.edges,
            edges_valid(view.node_count, edges),
            n == view.node_count,
            start <= n,
            forall|s: int, h: int|
                0 <= s < start && 1 <= h <= hop_cap ==> !#[trigger] profitable_at(
                    view,
                    s,
                    h as nat,
                ),
        decreases n - start,
    {
        // hop 0: only `start` reachable with cost 0; others are unreachable
        let mut best_previous: Vec<Option<i128>> = filled(None, n);
        best_previous[start] = Some(0);
        assert(as_costs(best_previous@) =~= costs(view, start as int, 0));

        // Next-hop buffer and the predecessor-edge buffer (reused each hop).
        let mut best_current: Vec<Option<i128>> = filled(None, n);
        let mut predecessor_at_hop: Vec<Option<usize>> = filled(None, n);

        // History of per-hop predecessors for backtracking (snapshot per hop).
        // At hop 0 there is no incoming edge.
        let mut predecessors_by_hop: Vec<Vec<Option<usize>>> = Vec::new();
        predecessors_by_hop.push(filled(None, n));

        let mut done: usize = 0;
        while done < hop_cap
            invariant
                graph.well_formed(),
                view == graph@,
                edges == view.edges,
                edges_valid(view.node_count, edges),
                n == view.node_count,
                start < n,
                done <= hop_cap,
                best_previous@.len() == n,
                as_costs(best_previous@) == costs(view, start as int, done as nat),
                forall|v: int|
                    0 <= v < n ==> match #[trigger] best_previous@[v] {
                        Some(d) => -(done * MAX_ABS_WEIGHT) <= d <= done * MAX_ABS_WEIGHT,
                        None => true,
                    },
                best_current@.len() == n,
                forall|v: int| 0 <= v < n ==> (#[trigger] best_current@[v]) is None,
                predecessor_at_hop@.len() == n,
                forall|v: int| 0 <= v < n ==> (#[trigger] predecessor_at_hop@[v]) is None,
                predecessors_by_hop@.len() == done + 1,
                forall|k: int|
                    0 <= k <= done ==> (#[trigger] predecessors_by_hop@[k])@.len() == n,
                forall|k: int, v: int|
                    1 <= k <= done && 0 <= v < n ==> recorded(
                        edges,
                        costs(view, start as int, (k - 1) as nat),
                        v,
                        #[trigger] predecessors_by_hop@[k]@[v],
                    ),
                forall|h: int| 1 <= h <= done ==> !#[trigger] profitable_at(view, start as int, h as nat),
                forall|s: int, h: int|
                    0 <= s < start && 1 <= h <= hop_cap ==> !#[trigger] profitable_at(
                        view,
                        s,
                        h as nat,
                    ),
            decreases hop_cap - done,
        {
            let hop = done + 1;
            relax_hop_inplace(graph, &best_previous, &mut best_current, &mut predecessor_at_hop);
            assert(as_costs(best_current@) == costs(view, start as int, hop as nat));

            // Detect cycle: cost to return to `start` after exactly `hop` hops is negative.
            let cost_to_start = best_current[start];
            assert(as_costs(best_current@)[start as int] == min_cost(
                view,
                start as int,
                hop as nat,
                start as int,
            ));
            let found = match cost_to_start {
                Some(cost) => cost < -(EPS as i128),
                None => false,
            };
            assert(found == profitable_at(view, start as int, hop as nat));
            if found {
                proof {
                    assert forall|k: int, v: int| 1 <= k <= hop && 0 <= v < n implies recorded(
                        edges,
                        costs(view, start as int, (k - 1) as nat),
                        v,
                        #[trigger] pred_at(predecessors_by_hop@, predecessor_at_hop@, k, v),
                    ) by {
                        if k < hop {
                            assert(recorded(
                                edges,
                                costs(view, start as int, (k - 1) as nat),
                                v,
                                predecessors_by_hop@[k]@[v],
                            ));
                        }
                    }
                    lemma_backtrack_is_chosen(
                        view,
                        start as int,
                        predecessors_by_hop@,
                        predecessor_at_hop@,
                        hop as nat,
                        start as int,
                    );
                    assert(first_profitable(view, hop_cap as int, start as int, hop as int));
                }
                // Reconstruct the cycle of exactly `hop` edges ending at `start`. Every
                // node on the way back is reached, so a predecessor is recorded for it.
                let used_edges = match reconstruct_edge_path(
                    hop,
                    start,
                    predecessors_by_hop.as_slice(),
                    predecessor_at_hop.as_slice(),
                    graph,
                ) {
                    Some(used) => used,
                    None => {
                        return None;
                    },
                };
                let (vertices, neg_log_sum) = match assemble_cycle_metrics(
                    used_edges.as_slice(),
                    graph,
                ) {
                    Some(metrics) => metrics,
                    None => {
                        return None;
                    },
                };
                let cycle = Cycle { vertices, edge_indexes: used_edges, neg_log_sum };
                assert(cycle.vertices@[0] == start);
                return Some(cycle);
            }
            // Snapshot predecessors for this hop (for backtracking later).
            predecessors_by_hop.push(copy_row(&predecessor_at_hop));

            // Reuse allocations next round:
            // - swap best_current <-> best_previous (so `best_previous` holds the latest),
            // - reset current buffers in place.
            proof {
                assert forall|v: int| 0 <= v < n implies match #[trigger] best_current@[v] {
                    Some(d) => -(hop * MAX_ABS_WEIGHT) <= d <= hop * MAX_ABS_WEIGHT,
                    None => true,
                } by {
                    if best_current@[v] is Some {
                        assert(as_costs(best_current@)[v] == min_cost(
                            view,
                            start as int,
                            hop as nat,
                            v,
                        ));
                        lemma_min_cost_bounded(view, start as int, hop as nat, v);
                    }
                }
            }
            std::mem::swap(&mut best_previous, &mut best_current);
            clear_costs(&mut best_current);
            clear_preds(&mut predecessor_at_hop);
            done = hop;
        }
        start += 1;
    }

    proof {
        assert(none_profitable(view, hop_cap as int));
    }
    None
}

/// In-place relaxation from hop-1 → hop.
/// - `best_previous` is read-only (costs for exactly h-1 hops).
/// - `best_current` is overwritten with costs for exactly h hops.
/// - `predecessor_at_hop[v]` becomes the winning predecessor edge index for (hop, v), or None.
///
/// The caller hands in `best_current` and `predecessor_at_hop` cleared.
pub fn relax_hop_inplace(
    graph: &CSRGraph,
    best_previous: &Vec<Option<i128>>,
    best_current: &mut Vec<Option<i128>>,
    predecessor_at_hop: &mut Vec<Option<usize>>,
)
    requires
        graph.well_formed(),
        best_previous@.len() == graph@.node_count,
        old(best_current)@.len() == graph@.node_count,
        old(predecessor_at_hop)@.len() == graph@.node_count,
        forall|v: int| 0 <= v < graph@.node_count ==> (#[trigger] old(best_current)@[v]) is None,
        forall|v: int|
            0 <= v < graph@.node_count ==> (#[trigger] old(predecessor_at_hop)@[v]) is None,
        forall|v: int|
            0 <= v < graph@.node_count ==> match #[trigger] best_previous@[v] {
                Some(d) => i128::MIN + MAX_ABS_WEIGHT <= d <= i128::MAX - MAX_ABS_WEIGHT,
                None => true,
            },
    ensures
        final(best_current)@.len() == graph@.node_count,
        final(predecessor_at_hop)@.len() == graph@.node_count,
        as_costs(final(best_current)@) == relaxed(graph@, as_costs(best_previous@)),
        forall|v: int|
            0 <= v < graph@.node_count ==> recorded(
                graph@.edges,
                as_costs(best_previous@),
                v,
                #[trigger] final(predecessor_at_hop)@[v],
            ),
{
    let n = graph.node_count();
    let edge_count = graph.edge_count();
    let ghost edges = graph@.edges;
    let ghost prev = as_costs(best_previous@);
    proof {
        graph.lemma_well_formed();
        assert forall|v: int| 0 <= v < n implies settled(
            edges,
            prev,
            0,
            0,
            v,
            as_costs(best_current@)[v],
            #[trigger] predecessor_at_hop@[v],
        ) by {
            lemma_settled_at_first(edges, prev, v);
        }
    }
    let mut u: usize = 0;
    while u < n
        invariant
            graph.well_formed(),
            edges == graph@.edges,
            edges_valid(graph@.node_count, edges),
            edges.len() <= usize::MAX,
            n == graph@.node_count,
            prev == as_costs(best_previous@),
            best_previous@.len() == n,
            best_current@.len() == n,
            predecessor_at_hop@.len() == n,
            u <= n,
            forall|v: int|
                0 <= v < n ==> match #[trigger] best_previous@[v] {
                    Some(d) => i128::MIN + MAX_ABS_WEIGHT <= d <= i128::MAX - MAX_ABS_WEIGHT,
                    None => true,
                },
            forall|v: int|
                0 <= v < n ==> settled(
                    edges,
                    prev,
                    u as int,
                    0,
                    v,
                    as_costs(best_current@)[v],
                    #[trigger] predecessor_at_hop@[v],
                ),
        decreases n - u,
    {
        match best_previous[u] {
            None => {
                proof {
                    assert forall|v: int| 0 <= v < n implies settled(
                        edges,
                        prev,
                        u + 1,
                        0,
                        v,
                        as_costs(best_current@)[v],
                        #[trigger] predecessor_at_hop@[v],
                    ) by {
                        lemma_settled_skip(
                            edges,
                            prev,
                            u as int,
                            v,
                            as_costs(best_current@)[v],
                            predecessor_at_hop@[v],
                        );
                    }
                }
            },
            Some(du) => {
                let degree = graph.out_degree(u);
                let mut position: usize = 0;
                while position < degree
                    invariant
                        graph.well_formed(),
                        edges == graph@.edges,
                        edges_valid(graph@.node_count, edges),
                        edges.len() <= usize::MAX,
                        n == graph@.node_count,
                        prev == as_costs(best_previous@),
                        best_previous@.len() == n,
                        best_current@.len() == n,
                        predecessor_at_hop@.len() == n,
                        u < n,
                        best_previous@[u as int] == Some(du),
                        i128::MIN + MAX_ABS_WEIGHT <= du <= i128::MAX - MAX_ABS_WEIGHT,
                        degree == out_edges(edges, u as int).len(),
                        position <= degree,
                        forall|v: int|
                            0 <= v < n ==> settled(
                                edges,
                                prev,
                                u as int,
                                position as int,
                                v,
                                as_costs(best_current@)[v],
                                #[trigger] predecessor_at_hop@[v],
                            ),
                    decreases degree - position,
                {
                    let ei = graph.out_edge(u, position);
                    proof {
                        lemma_out_edges_sound(edges, u as int);
                    }
                    let v = graph.edge_dst(ei);
                    let w = graph.edge_weight(ei);
                    let d = du + w as i128;
                    let ghost before_costs = as_costs(best_current@);
                    let ghost before_preds = predecessor_at_hop@;
                    assert(arrival(edges, prev, ei as int) == Some(d as int));
                    let improves = match best_current[v] {
                        Some(current) => d < current,
                        None => true,
                    };
                    if improves {
                        best_current[v] = Some(d);
                        predecessor_at_hop[v] = Some(ei);  // predecessor (argmin) for (hop, v)
                    }
                    proof {
                        assert forall|x: int| 0 <= x < n implies settled(
                            edges,
                            prev,
                            u as int,
                            position + 1,
                            x,
                            as_costs(best_current@)[x],
                            #[trigger] predecessor_at_hop@[x],
                        ) by {
                            assert(settled(
                                edges,
                                prev,
                                u as int,
                                position as int,
                                x,
                                before_costs[x],
                                before_preds[x],
                            ));
                            lemma_settled_step(
                                edges,
                                prev,
                                u as int,
                                position as int,
                                x,
                                before_costs[x],
                                before_preds[x],
                            );
                        }
                    }
                    position += 1;
                }
                proof {
                    assert forall|v: int| 0 <= v < n implies settled(
                        edges,
                        prev,
                        u + 1,
                        0,
                        v,
                        as_costs(best_current@)[v],
                        #[trigger] predecessor_at_hop@[v],
                    ) by {
                        lemma_settled_next_node(
                            edges,
                            prev,
                            u as int,
                            v,
                            as_costs(best_current@)[v],
                            predecessor_at_hop@[v],
                        );
                    }
                }
            },
        }
        u += 1;
    }
    proof {
        assert forall|v: int| 0 <= v < n implies recorded(
            edges,
            prev,
            v,
            #[trigger] predecessor_at_hop@[v],
        ) by {
            lemma_settled_at_last(
                n as nat,
                edges,
                prev,
                v,
                as_costs(best_current@)[v],
                predecessor_at_hop@[v],
            );
        }
        assert forall|v: int| 0 <= v < n implies #[trigger] as_costs(best_current@)[v] == relaxed(
            graph@,
            prev,
        )[v] by {
            assert(settled(
                edges,
                prev,
                n as int,
                0,
                v,
                as_costs(best_current@)[v],
                predecessor_at_hop@[v],
            ));
            lemma_settled_at_last(
                n as nat,
                edges,
                prev,
                v,
                as_costs(best_current@)[v],
                predecessor_at_hop@[v],
            );
        }
        assert(as_costs(best_current@) =~= relaxed(graph@, prev));
    }
}

/// Backtrack exactly `hop` steps along predecessor edges to recover the edge sequence
/// (in forward order) that ends at `end_node` after `hop` hops.
pub fn reconstruct_edge_path(
    hop: usize,
    end_node: usize,  // here `end_node` is the start node (cycle end/start)
    predecessors_by_hop: &[Vec<Option<usize>>],
    predecessor_at_hop: &[Option<usize>],
    graph: &CSRGraph,
) -> (path: Option<Vec<usize>>)
    requires
        graph.well_formed(),
        end_node < graph@.node_count,
        preds_in_range(graph@, predecessors_by_hop@, predecessor_at_hop@, hop as int),
    ensures
        match (path, backtrack(
            graph@.edges,
            predecessors_by_hop@,
            predecessor_at_hop@,
            hop as nat,
            end_node as int,
        )) {
            (Some(found), Some(expected)) => found@ == expected,
            (None, None) => true,
            _ => false,
        },
{
    let ghost edges = graph@.edges;
    let ghost by_hop = predecessors_by_hop@;
    let ghost current = predecessor_at_hop@;
    let ghost whole = backtrack(edges, by_hop, current, hop as nat, end_node as int);
    let mut used: Vec<usize> = filled(0usize, hop);
    let mut remaining = hop;
    let mut node = end_node;
    while remaining > 0
        invariant
            graph.well_formed(),
            edges == graph@.edges,
            by_hop == predecessors_by_hop@,
            current == predecessor_at_hop@,
            preds_in_range(graph@, by_hop, current, hop as int),
            remaining <= hop,
            node < graph@.node_count,
            used@.len() == hop,
            whole == backtrack(edges, by_hop, current, hop as nat, end_node as int),
            whole == match backtrack(edges, by_hop, current, remaining as nat, node as int) {
                Some(front) => Some(front + used@.subrange(remaining as int, hop as int)),
                None => None,
            },
        decreases remaining,
    {
        let ei = match predecessor_edge_at_hop(
            predecessors_by_hop,
            predecessor_at_hop,
            remaining,
            node,
        ) {
            Some(ei) => ei,
            None => {
                return None;
            },
        };
        assert(pred_at(by_hop, current, remaining as int, node as int) == Some(ei));
        let ghost tail = used@.subrange(remaining as int, hop as int);
        used[remaining - 1] = ei;
        proof {
            let rest = backtrack(
                edges,
                by_hop,
                current,
                (remaining - 1) as nat,
                source(edges, ei as int),
            );
            if rest is Some {
                let front = rest.unwrap();
                assert(front.push(ei) + tail =~= front + used@.subrange(
                    remaining - 1,
                    hop as int,
                ));
            }
        }
        node = graph.edge_src(ei);
        remaining -= 1;
    }
    assert(used@.subrange(0, hop as int) =~= used@);
    assert(Seq::<usize>::empty() + used@ =~= used@);
    Some(used)
}

/// Access the single predecessor edge chosen for (hop, node).
pub fn predecessor_edge_at_hop(
    predecessors_by_hop: &[Vec<Option<usize>>],
    predecessor_at_hop: &[Option<usize>],
    hop: usize,
    node: usize,
) -> (pred: Option<usize>)
    requires
        hop <= predecessors_by_hop@.len(),
        hop == predecessors_by_hop@.len() ==> node < predecessor_at_hop@.len(),
        hop < predecessors_by_hop@.len() ==> node < predecessors_by_hop@[hop as int]@.len(),
    ensures
        pred == pred_at(predecessors_by_hop@, predecessor_at_hop@, hop as int, node as int),
{
    // While computing hop H, historical hops are in predecessors_by_hop[0..=H-1],
    // and the current hop’s choices are in predecessor_at_hop.
    if hop == predecessors_by_hop.len() {
        predecessor_at_hop[node]
    } else {
        predecessors_by_hop[hop][node]
    }
}

/// Convert used edge IDs into vertex ring and cost. Nothing is returned for
/// no edges, nor for a cost below `-MAX_LOG_PROFIT`.
pub fn assemble_cycle_metrics(used_edges: &[usize], graph: &CSRGraph) -> (metrics: Option<
    (Vec<usize>, i128),
>)
    requires
        graph.well_formed(),
        forall|k: int| 0 <= k < used_edges@.len() ==> #[trigger] used_edges@[k] < graph@.edges.len(),
    ensures
        match metrics {
            Some((vertices, neg_log_sum)) => {
                &&& used_edges@.len() > 0
                &&& vertices@ == walk_vertices(graph@.edges, used_edges@)
                &&& neg_log_sum == walk_cost(graph@.edges, used_edges@)
                &&& neg_log_sum >= -MAX_LOG_PROFIT
            },
            None => used_edges@.len() == 0 || walk_cost(graph@.edges, used_edges@)
                < -MAX_LOG_PROFIT,
        },
{
    if used_edges.len() == 0 {
        return None;
    }
    let ghost edges = graph@.edges;
    let ghost ends = used_edges@.map_values(|id: usize| edges[id as int].1);
    let mut vertices: Vec<usize> = Vec::with_capacity(used_edges.len());
    vertices.push(graph.edge_src(used_edges[0]));

    let mut neg_log_sum: i128 = 0;
    let mut k: usize = 0;
    while k < used_edges.len()
        invariant
            graph.well_formed(),
            edges == graph@.edges,
            ends == used_edges@.map_values(|id: usize| edges[id as int].1),
            forall|j: int| 0 <= j < used_edges@.len() ==> #[trigger] used_edges@[j] < edges.len(),
            k <= used_edges@.len(),
            used_edges@.len() > 0,
            vertices@ == seq![edges[used_edges@[0] as int].0] + ends.subrange(0, k as int),
            neg_log_sum == walk_cost(edges, used_edges@.subrange(0, k as int)),
            -(k * MAX_ABS_WEIGHT) <= neg_log_sum <= k * MAX_ABS_WEIGHT,
        decreases used_edges@.len() - k,
    {
        let ei = used_edges[k];
        let v2 = graph.edge_dst(ei);
        vertices.push(v2);
        proof {
            let longer = used_edges@.subrange(0, k + 1);
            assert(longer.drop_last() =~= used_edges@.subrange(0, k as int));
            assert(longer.last() == ei);
            assert(vertices@ =~= seq![edges[used_edges@[0] as int].0] + ends.subrange(0, k + 1));
        }
        neg_log_sum = neg_log_sum + graph.edge_weight(ei) as i128;
        k += 1;
    }
    assert(used_edges@.subrange(0, k as int) =~= used_edges@);
    assert(ends.subrange(0, k as int) =~= ends);
    if neg_log_sum < -(MAX_LOG_PROFIT as i128) {
        return None;
    }
    Some((vertices, neg_log_sum))
}

/// Following the recorded predecessors back from a node that is reached
/// gives the chosen walk to it, at the cheapest cost.
pub proof fn lemma_backtrack_is_chosen(
    view: GraphView,
    start: int,
    by_hop: Seq<Vec<Option<usize>>>,
    current: Seq<Option<usize>>,
    hop: nat,
    node: int,
)
    requires
        edges_valid(view.node_count, view.edges),
        0 <= start < view.node_count,
        0 <= node < view.node_count,
        hop <= by_hop.len(),
        forall|k: int, v: int|
            1 <= k <= hop && 0 <= v < view.node_count ==> recorded(
                view.edges,
                costs(view, start, (k - 1) as nat),
                v,
                #[trigger] pred_at(by_hop, current, k, v),
            ),
        min_cost(view, start, hop, node) is Some,
    ensures
        backtrack(view.edges, by_hop, current, hop, node) is Some,
        ({
            let path = backtrack(view.edges, by_hop, current, hop, node).unwrap();
            &&& path.len() == hop
            &&& walk_between(view.edges, start, node, path)
            &&& is_chosen_walk(view, start, path)
            &&& walk_cost(view.edges, path) == min_cost(view, start, hop, node).unwrap()
        }),
    decreases hop,
{
    let edges = view.edges;
    if hop > 0 {
        let prev = costs(view, start, (hop - 1) as nat);
        let pred = pred_at(by_hop, current, hop as int, node);
        assert(recorded(edges, prev, node, pred));
        let id = pred.unwrap();
        assert(is_chosen_pred(edges, prev, node, id as int));
        let from = source(edges, id as int);
        assert(crate::csr_graph::edge_valid(view.node_count, edges[id as int]));
        assert(min_cost(view, start, (hop - 1) as nat, from) is Some);
        lemma_backtrack_is_chosen(view, start, by_hop, current, (hop - 1) as nat, from);
        let front = backtrack(edges, by_hop, current, (hop - 1) as nat, from).unwrap();
        let path = front.push(id);
        lemma_walk_push(edges, start, from, front, id);
        assert forall|k: int| 0 <= k < path.len() implies is_chosen_pred(
            edges,
            costs(view, start, k as nat),
            target(edges, path[k] as int),
            #[trigger] path[k] as int,
        ) by {
            if k < front.len() {
                assert(path[k] == front[k]);
            }
        }
    }
}

/// The ring of a closed walk closes, and its edges join its vertices: edge
/// `k` leads from vertex `k` to vertex `k + 1`.
pub proof fn lemma_cycle_ring(cycle: Cycle, edges: Seq<InputEdge>)
    requires
        cycle.is_closed_walk(edges),
    ensures
        cycle.vertices@.len() == cycle.edge_indexes@.len() + 1,
        cycle.vertices@.first() == cycle.vertices@.last(),
        forall|k: int|
            0 <= k < cycle.edge_indexes@.len() ==> {
                &&& edges[#[trigger] cycle.edge_indexes@[k] as int].0 == cycle.vertices@[k]
                &&& edges[cycle.edge_indexes@[k] as int].1 == cycle.vertices@[k + 1]
            },
{
    let path = cycle.edge_indexes@;
    let ends = path.map_values(|id: usize| edges[id as int].1);
    assert(cycle.vertices@.last() == ends[path.len() - 1]);
    assert forall|k: int| 0 <= k < path.len() implies {
        &&& edges[#[trigger] path[k] as int].0 == cycle.vertices@[k]
        &&& edges[path[k] as int].1 == cycle.vertices@[k + 1]
    } by {
        assert(cycle.vertices@[k + 1] == ends[k]);
        if k > 0 {
            assert(cycle.vertices@[k] == ends[k - 1]);
            assert(target(edges, path[k - 1] as int) == source(edges, path[k] as int));
        }
    }
}

/// A search has one answer: two cycles that answer the same search have the
/// same vertices, the same edges and the same sum.
pub proof fn lemma_answer_unique(view: GraphView, hop_cap: usize, a: Cycle, b: Cycle)
    requires
        a.answers(view, hop_cap),
        b.answers(view, hop_cap),
    ensures
        a.vertices@ == b.vertices@,
        a.edge_indexes@ == b.edge_indexes@,
        a.neg_log_sum == b.neg_log_sum,
{
    lemma_first_profitable_unique(
        view,
        hop_cap as int,
        a.start(),
        a.hops() as int,
        b.start(),
        b.hops() as int,
    );
    lemma_chosen_walk_unique(view, a.start(), a.start(), a.edge_indexes@, b.edge_indexes@);
}

/// Whether a search reports a cycle is decided by the graph and the cap
/// alone: it does exactly when the first profitable round trip costs at least
/// `-MAX_LOG_PROFIT`.
pub proof fn lemma_search_reports(view: GraphView, hop_cap: usize, result: Option<Cycle>)
    requires
        search_result(view, hop_cap, result),
    ensures
        result is Some <==> exists|s: int, h: int|
            #[trigger] first_profitable(view, hop_cap as int, s, h) && min_cost(
                view,
                s,
                h as nat,
                s,
            ).unwrap() >= -MAX_LOG_PROFIT,
{
    match result {
        Some(cycle) => {
            assert(first_profitable(view, hop_cap as int, cycle.start(), cycle.hops() as int));
        },
        None => {
            if exists|s: int, h: int|
                #[trigger] first_profitable(view, hop_cap as int, s, h) && min_cost(
                    view,
                    s,
                    h as nat,
                    s,
                ).unwrap() >= -MAX_LOG_PROFIT {
                let (s, h) = choose|s: int, h: int|
                    #[trigger] first_profitable(view, hop_cap as int, s, h) && min_cost(
                        view,
                        s,
                        h as nat,
                        s,
                    ).unwrap() >= -MAX_LOG_PROFIT;
                assert(profitable_at(view, s, h as nat));
                if !none_profitable(view, hop_cap as int) {
                    let (s2, h2) = choose|s2: int, h2: int|
                        #[trigger] first_profitable(view, hop_cap as int, s2, h2) && min_cost(
                            view,
                            s2,
                            h2 as nat,
                            s2,
                        ).unwrap() < -MAX_LOG_PROFIT;
                    lemma_first_profitable_unique(view, hop_cap as int, s, h, s2, h2);
                }
            }
        },
    }
}

} // verus!
