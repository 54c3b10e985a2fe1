//! Compressed sparse row storage of a directed rate graph.
//!
//! The topology is fixed when the graph is built. Afterwards only the rate of
//! an edge changes, and with it the cached weight of that edge.

use vstd::prelude::*;
use crate::rate::{Rate, MAX_ABS_WEIGHT};

verus! {

/// Edge list item: (from, to, rate).
pub type InputEdge = (usize, usize, Rate);

/// What a graph is, apart from how it is stored: its number of nodes and its
/// edges in the order in which they were given. An edge's id is its index.
pub struct GraphView {
    pub node_count: nat,
    pub edges: Seq<InputEdge>,
}

/// Both endpoints are nodes of the graph and the rate is usable.
pub open spec fn edge_valid(node_count: nat, edge: InputEdge) -> bool {
    edge.0 < node_count && edge.1 < node_count && edge.2.is_valid()
}

pub open spec fn edges_valid(node_count: nat, edges: Seq<InputEdge>) -> bool {
    forall|i: int| 0 <= i < edges.len() ==> edge_valid(node_count, #[trigger] edges[i])
}

/// The source node of every edge.
pub open spec fn sources(edges: Seq<InputEdge>) -> Seq<usize> {
    edges.map_values(|e: InputEdge| e.0)
}

/// The indices below `upto` at which `s` holds `node`, ascending.
pub open spec fn positions_of(s: Seq<usize>, node: int, upto: int) -> Seq<int>
    decreases upto,
{
    if upto <= 0 {
        Seq::empty()
    } else if s[upto - 1] == node {
        positions_of(s, node, upto - 1).push(upto - 1)
    } else {
        positions_of(s, node, upto - 1)
    }
}

/// How many of the first `upto` entries of `s` are below `node`.
pub open spec fn count_below(s: Seq<usize>, node: int, upto: int) -> nat
    decreases upto,
{
    if upto <= 0 {
        0
    } else if s[upto - 1] < node {
        count_below(s, node, upto - 1) + 1
    } else {
        count_below(s, node, upto - 1)
    }
}

/// The ids of the edges that leave `node`, in the order of the edge list.
pub open spec fn out_edges(edges: Seq<InputEdge>, node: int) -> Seq<int> {
    positions_of(sources(edges), node, edges.len() as int)
}

/// Where the block of `node` starts in the adjacency array: behind the edges
/// of all lower nodes.
pub open spec fn block_start(edges: Seq<InputEdge>, node: int) -> nat {
    count_below(sources(edges), node, edges.len() as int)
}

/// What `positions_of` lists: valid indices that hold `node`, in strictly
/// ascending order.
pub proof fn lemma_positions_sound(s: Seq<usize>, node: int, upto: int)
    requires
        0 <= upto <= s.len(),
    ensures
        positions_of(s, node, upto).len() <= upto,
        forall|t: int|
            0 <= t < positions_of(s, node, upto).len() ==> {
                &&& 0 <= #[trigger] positions_of(s, node, upto)[t] < upto
                &&& s[positions_of(s, node, upto)[t]] == node
            },
        forall|t: int, u: int|
            0 <= t < u < positions_of(s, node, upto).len() ==> positions_of(s, node, upto)[t]
                < positions_of(s, node, upto)[u],
    decreases upto,
{
    if upto > 0 {
        lemma_positions_sound(s, node, upto - 1);
    }
}

/// `positions_of` grows by appending: a longer prefix keeps the earlier entries.
pub proof fn lemma_positions_prefix(s: Seq<usize>, node: int, a: int, b: int)
    requires
        0 <= a <= b <= s.len(),
    ensures
        positions_of(s, node, a).len() <= positions_of(s, node, b).len(),
        forall|t: int|
            0 <= t < positions_of(s, node, a).len() ==> positions_of(s, node, a)[t]
                == #[trigger] positions_of(s, node, b)[t],
    decreases b - a,
{
    if a < b {
        lemma_positions_prefix(s, node, a, b - 1);
    }
}

/// Every index that holds `node` is listed, at the place given by the number
/// of earlier such indices.
pub proof fn lemma_positions_complete(s: Seq<usize>, node: int, upto: int, i: int)
    requires
        0 <= i < upto <= s.len(),
        s[i] == node,
    ensures
        positions_of(s, node, i).len() < positions_of(s, node, upto).len(),
        positions_of(s, node, upto)[positions_of(s, node, i).len() as int] == i,
{
    lemma_positions_prefix(s, node, i + 1, upto);
    assert(positions_of(s, node, i + 1) == positions_of(s, node, i).push(i));
}

proof fn lemma_count_below_bound(s: Seq<usize>, node: int, upto: int)
    requires
        0 <= upto <= s.len(),
    ensures
        count_below(s, node, upto) <= upto,
    decreases upto,
{
    if upto > 0 {
        lemma_count_below_bound(s, node, upto - 1);
    }
}

proof fn lemma_count_below_step(s: Seq<usize>, node: int, upto: int)
    requires
        0 <= upto <= s.len(),
    ensures
        count_below(s, node + 1, upto) == count_below(s, node, upto) + positions_of(
            s,
            node,
            upto,
        ).len(),
    decreases upto,
{
    if upto > 0 {
        lemma_count_below_step(s, node, upto - 1);
    }
}

proof fn lemma_count_below_monotone(s: Seq<usize>, a: int, b: int, upto: int)
    requires
        0 <= upto <= s.len(),
        a <= b,
    ensures
        count_below(s, a, upto) <= count_below(s, b, upto),
    decreases upto,
{
    if upto > 0 {
        lemma_count_below_monotone(s, a, b, upto - 1);
    }
}

proof fn lemma_count_below_none(s: Seq<usize>, upto: int)
    requires
        0 <= upto <= s.len(),
    ensures
        count_below(s, 0, upto) == 0,
    decreases upto,
{
    if upto > 0 {
        lemma_count_below_none(s, upto - 1);
    }
}

proof fn lemma_count_below_all(s: Seq<usize>, node: int, upto: int)
    requires
        0 <= upto <= s.len(),
        forall|i: int| 0 <= i < s.len() ==> s[i] < node,
    ensures
        count_below(s, node, upto) == upto,
    decreases upto,
{
    if upto > 0 {
        lemma_count_below_all(s, node, upto - 1);
    }
}

/// The blocks tile the adjacency array: each ends where the next starts, and
/// none reaches past the end.
proof fn lemma_block_bounds(s: Seq<usize>, node: int)
    ensures
        count_below(s, node + 1, s.len() as int) == count_below(s, node, s.len() as int)
            + positions_of(s, node, s.len() as int).len(),
        count_below(s, node + 1, s.len() as int) <= s.len(),
{
    lemma_count_below_step(s, node, s.len() as int);
    lemma_count_below_bound(s, node + 1, s.len() as int);
}

/// Blocks of different nodes do not overlap.
proof fn lemma_blocks_ordered(s: Seq<usize>, a: int, b: int)
    requires
        a < b,
    ensures
        count_below(s, a, s.len() as int) + positions_of(s, a, s.len() as int).len()
            <= count_below(s, b, s.len() as int),
{
    lemma_block_bounds(s, a);
    lemma_count_below_monotone(s, a + 1, b, s.len() as int);
}

/// One step of the placement: with the first `i` entries placed, writing `i`
/// behind the entries already placed in the block of `s[i]` places the first
/// `i + 1`.
proof fn lemma_place(s: Seq<usize>, before: Seq<usize>, after: Seq<usize>, i: int)
    requires
        0 <= i < s.len() <= usize::MAX,
        before.len() == s.len(),
        forall|u: int, t: int|
            0 <= t < positions_of(s, u, i).len() ==> before[count_below(s, u, s.len() as int) + t]
                == #[trigger] positions_of(s, u, i)[t],
        after == before.update(
            count_below(s, s[i] as int, s.len() as int) + positions_of(s, s[i] as int, i).len() as int,
            i as usize,
        ),
    ensures
        count_below(s, s[i] as int, s.len() as int) + positions_of(s, s[i] as int, i).len()
            < s.len(),
        forall|u: int, t: int|
            0 <= t < positions_of(s, u, i + 1).len() ==> after[count_below(s, u, s.len() as int)
                + t] == #[trigger] positions_of(s, u, i + 1)[t],
{
    let m = s.len() as int;
    let f = s[i] as int;
    let placed = positions_of(s, f, i).len() as int;
    let slot = count_below(s, f, m) + placed;
    lemma_positions_complete(s, f, m, i);
    lemma_block_bounds(s, f);
    assert forall|u: int, t: int| 0 <= t < positions_of(s, u, i + 1).len() implies after[count_below(
        s,
        u,
        m,
    ) + t] == #[trigger] positions_of(s, u, i + 1)[t] by {
        let here = count_below(s, u, m) + t;
        lemma_positions_prefix(s, u, i, i + 1);
        lemma_positions_prefix(s, u, i + 1, m);
        lemma_block_bounds(s, u);
        if u == f {
            assert(positions_of(s, u, i + 1) == positions_of(s, u, i).push(i));
            if t < placed {
                assert(before[here] == positions_of(s, u, i)[t]);
                assert(here != slot);
            } else {
                assert(here == slot);
            }
        } else {
            assert(positions_of(s, u, i + 1) == positions_of(s, u, i));
            if u < f {
                lemma_blocks_ordered(s, u, f);
            } else {
                lemma_blocks_ordered(s, f, u);
            }
            assert(here != slot);
            assert(before[here] == positions_of(s, u, i)[t]);
        }
    }
}

/// The blocks tile the adjacency array: the first starts at 0, each ends where
/// the next starts, and the last ends at the number of edges.
pub proof fn lemma_blocks(node_count: nat, edges: Seq<InputEdge>, node: int)
    requires
        edges_valid(node_count, edges),
    ensures
        block_start(edges, 0) == 0,
        block_start(edges, node_count as int) == edges.len(),
        block_start(edges, node + 1) == block_start(edges, node) + out_edges(edges, node).len(),
        block_start(edges, node + 1) <= edges.len(),
{
    let s = sources(edges);
    let m = edges.len() as int;
    lemma_count_below_none(s, m);
    assert forall|i: int| 0 <= i < s.len() implies s[i] < node_count by {}
    lemma_count_below_all(s, node_count as int, m);
    lemma_block_bounds(s, node);
}

/// What `out_edges` lists: ids of edges that leave `node`, strictly ascending.
pub proof fn lemma_out_edges_sound(edges: Seq<InputEdge>, node: int)
    ensures
        out_edges(edges, node).len() <= edges.len(),
        forall|t: int|
            0 <= t < out_edges(edges, node).len() ==> {
                &&& 0 <= #[trigger] out_edges(edges, node)[t] < edges.len()
                &&& edges[out_edges(edges, node)[t]].0 == node
            },
        forall|t: int, u: int|
            0 <= t < u < out_edges(edges, node).len() ==> out_edges(edges, node)[t] < out_edges(
                edges,
                node,
            )[u],
{
    lemma_positions_sound(sources(edges), node, edges.len() as int);
}

/// Every edge is listed among the out-edges of its source.
pub proof fn lemma_out_edges_complete(edges: Seq<InputEdge>, id: int) -> (t: int)
    requires
        0 <= id < edges.len(),
    ensures
        0 <= t < out_edges(edges, edges[id].0 as int).len(),
        out_edges(edges, edges[id].0 as int)[t] == id,
{
    let s = sources(edges);
    lemma_positions_complete(s, edges[id].0 as int, edges.len() as int, id);
    positions_of(s, edges[id].0 as int, id).len() as int
}

/// Changing the rate of one edge changes no adjacency.
pub proof fn lemma_rate_change_keeps_topology(edges: Seq<InputEdge>, id: int, rate: Rate)
    requires
        0 <= id < edges.len(),
    ensures
        sources(edges.update(id, (edges[id].0, edges[id].1, rate))) == sources(edges),
{
    assert(sources(edges.update(id, (edges[id].0, edges[id].1, rate))) =~= sources(edges));
}

/// Compact sparse-row adjacency encoding used across the crate.
///
/// Owns the edge list and keeps two helper arrays:
/// - `edge_offsets` marks, for every node, the start/end positions of its outgoing edges inside
///   `edge_indices`.
/// - `edge_indices` stores the ids of the edges laid out contiguously per node.
///
/// `weights_in_neglog` caches the weight of each edge's rate, which is the working cost for
/// arbitrage detection.
#[derive(Clone, Debug)]
pub struct CSRGraph {
    edge_offsets: Vec<usize>,
    edge_indices: Vec<usize>,
    edges: Vec<InputEdge>,
    weights_in_neglog: Vec<i64>,
    node_count: usize,
}

#[derive(Debug)]
pub enum UpdateError {
    IndexOutOfBounds(usize),
    InvalidRate(Rate),
}

/// A vector of `n` copies of `value`.
pub(crate) fn filled<T: Copy>(value: T, n: usize) -> (v: Vec<T>)
    ensures
        v@.len() == n,
        forall|i: int| 0 <= i < n ==> v@[i] == value,
{
    let mut v: Vec<T> = Vec::with_capacity(n);
    for i in 0..n
        invariant
            v@.len() == i,
            forall|j: int| 0 <= j < i ==> v@[j] == value,
    {
        v.push(value);
    }
    v
}

/// Decides `edges_valid`.
pub fn check_edges(node_count: usize, edges: &Vec<InputEdge>) -> (ok: bool)
    ensures
        ok == edges_valid(node_count as nat, edges@),
{
    for i in 0..edges.len()
        invariant
            forall|j: int| 0 <= j < i ==> edge_valid(node_count as nat, #[trigger] edges@[j]),
    {
        let edge = &edges[i];
        if edge.0 >= node_count || edge.1 >= node_count || !edge.2.valid() {
            return false;
        }
    }
    true
}

impl View for CSRGraph {
    type V = GraphView;

    closed spec fn view(&self) -> GraphView {
        GraphView { node_count: self.node_count as nat, edges: self.edges@ }
    }
}

impl CSRGraph {
    /// The invariants of the store: the edges are valid, block `u` of the
    /// adjacency array lists the edges that leave `u` in the order of the edge
    /// list, and each cached weight is the weight of the stored rate.
    pub closed spec fn well_formed(&self) -> bool {
        &&& self.node_count < usize::MAX
        &&& edges_valid(self.node_count as nat, self.edges@)
        &&& self.edge_offsets@.len() == self.node_count + 1
        &&& self.edge_indices@.len() == self.edges@.len()
        &&& self.weights_in_neglog@.len() == self.edges@.len()
        &&& forall|u: int|
            0 <= u <= self.node_count ==> #[trigger] self.edge_offsets@[u] == block_start(
                self.edges@,
                u,
            )
        &&& forall|u: int, t: int|
            0 <= t < out_edges(self.edges@, u).len() ==> self.edge_indices@[block_start(
                self.edges@,
                u,
            ) + t] == #[trigger] out_edges(self.edges@, u)[t]
        &&& forall|i: int|
            0 <= i < self.edges@.len() ==> #[trigger] self.weights_in_neglog@[i]
                == self.edges@[i].2.neg_log
    }

    /// The cached weights, one per edge.
    pub closed spec fn weights(&self) -> Seq<i64> {
        self.weights_in_neglog@
    }

    /// The offsets of the blocks in the adjacency array, one per node and one past the last.
    pub closed spec fn offsets(&self) -> Seq<usize> {
        self.edge_offsets@
    }

    /// The adjacency array.
    pub closed spec fn adjacency(&self) -> Seq<usize> {
        self.edge_indices@
    }

    /// What `well_formed` means, in terms of the public specification functions.
    pub proof fn lemma_well_formed(&self)
        requires
            self.well_formed(),
        ensures
            edges_valid(self@.node_count, self@.edges),
            self@.node_count < usize::MAX,
            self.weights() == self@.edges.map_values(|e: InputEdge| e.2.neg_log),
            self.offsets() == Seq::new(
                self@.node_count + 1,
                |u: int| block_start(self@.edges, u) as usize,
            ),
            self.adjacency().len() == self@.edges.len(),
            forall|u: int, t: int|
                0 <= t < out_edges(self@.edges, u).len() ==> self.adjacency()[block_start(
                    self@.edges,
                    u,
                ) + t] == #[trigger] out_edges(self@.edges, u)[t],
    {
        assert(self.weights() =~= self@.edges.map_values(|e: InputEdge| e.2.neg_log));
        assert(self.offsets() =~= Seq::new(
            self@.node_count + 1,
            |u: int| block_start(self@.edges, u) as usize,
        ));
    }

    /// The invariants of the store, one by one: the offsets do not
    /// decrease, start at 0 and end at the number of edges; every id in the
    /// block of a node is an edge that leaves that node; every cached weight
    /// is the weight of the stored rate; every stored rate is usable.
    pub proof fn lemma_invariants(&self)
        requires
            self.well_formed(),
        ensures
            self.offsets().len() == self@.node_count + 1,
            self.offsets()[0] == 0,
            self.offsets()[self@.node_count as int] == self@.edges.len(),
            forall|u: int, v: int|
                0 <= u <= v <= self@.node_count ==> self.offsets()[u] <= self.offsets()[v],
            self.adjacency().len() == self@.edges.len(),
            forall|u: int, position: int|
                #![trigger self.offsets()[u], self.adjacency()[position]]
                0 <= u < self@.node_count && self.offsets()[u] <= position < self.offsets()[u + 1]
                    ==> {
                    &&& self.adjacency()[position] < self@.edges.len()
                    &&& self@.edges[self.adjacency()[position] as int].0 == u
                },
            forall|i: int|
                0 <= i < self@.edges.len() ==> (#[trigger] self.weights()[i])
                    == self@.edges[i].2.neg_log,
            forall|i: int| 0 <= i < self@.edges.len() ==> (#[trigger] self@.edges[i]).2.is_valid(),
    {
        let n = self@.node_count;
        let edges = self@.edges;
        let s = sources(edges);
        let m = edges.len() as int;
        self.lemma_well_formed();
        lemma_blocks(n, edges, 0);
        assert forall|u: int, v: int| 0 <= u <= v <= n implies self.offsets()[u]
            <= self.offsets()[v] by {
            lemma_count_below_monotone(s, u, v, m);
        }
        assert forall|u: int, position: int|
            #![trigger self.offsets()[u], self.adjacency()[position]]
            0 <= u < n && self.offsets()[u] <= position < self.offsets()[u + 1] implies {
            &&& self.adjacency()[position] < edges.len()
            &&& edges[self.adjacency()[position] as int].0 == u
        } by {
            lemma_blocks(n, edges, u);
            lemma_out_edges_sound(edges, u);
            let t = position - block_start(edges, u);
            assert(self.adjacency()[block_start(edges, u) + t] == out_edges(edges, u)[t]);
        }
        assert forall|i: int| 0 <= i < edges.len() implies (#[trigger] edges[i]).2.is_valid() by {}
    }

    /// Build a CSR graph from owned `edges` with `(from, to, rate)` triples.
    pub fn from_edges(node_count: usize, edges: Vec<InputEdge>) -> (graph: Self)
        requires
            node_count < usize::MAX,
            edges_valid(node_count as nat, edges@),
        ensures
            graph.well_formed(),
            graph@.node_count == node_count,
            graph@.edges == edges@,
    {
        let edge_count = edges.len();
        let ghost s = sources(edges@);
        let ghost m = edges@.len() as int;
        proof {
            assert forall|i: int| 0 <= i < s.len() implies s[i] < node_count by {}
        }

        let mut outgoing_edges_count_by_node: Vec<usize> = filled(0usize, node_count);
        for edge_index in 0..edge_count
            invariant
                edge_count == m,
                m == edges@.len(),
                s == sources(edges@),
                outgoing_edges_count_by_node@.len() == node_count,
                forall|i: int| 0 <= i < s.len() ==> s[i] < node_count,
                forall|u: int|
                    0 <= u < node_count ==> #[trigger] outgoing_edges_count_by_node@[u]
                        == positions_of(s, u, edge_index as int).len(),
        {
            let node = edges[edge_index].0;
            assert(node == s[edge_index as int]);
            proof {
                lemma_positions_sound(s, node as int, edge_index as int);
            }
            let count = outgoing_edges_count_by_node[node];
            outgoing_edges_count_by_node[node] = count + 1;
        }

        let mut edge_offsets: Vec<usize> = Vec::with_capacity(node_count + 1);
        edge_offsets.push(0);
        proof {
            lemma_count_below_none(s, m);
        }
        for i in 0..node_count
            invariant
                edge_count == m,
                m == edges@.len(),
                m == s.len(),
                outgoing_edges_count_by_node@.len() == node_count,
                forall|u: int|
                    0 <= u < node_count ==> #[trigger] outgoing_edges_count_by_node@[u]
                        == positions_of(s, u, m).len(),
                edge_offsets@.len() == i + 1,
                forall|u: int|
                    0 <= u <= i ==> #[trigger] edge_offsets@[u] == count_below(s, u, m),
        {
            let previous_offset = edge_offsets[i];
            let outgoing_edge_count = outgoing_edges_count_by_node[i];
            proof {
                lemma_block_bounds(s, i as int);
            }
            edge_offsets.push(previous_offset + outgoing_edge_count);
        }

        // Index edge indices to preserve the order from the row offsets
        let mut edge_indices: Vec<usize> = filled(0usize, edge_count);
        let mut weights_in_neglog: Vec<i64> = Vec::with_capacity(edge_count);

        let mut offsets_so_far: Vec<usize> = filled(0usize, node_count);
        let mut edge_index: usize = 0;
        while edge_index < edge_count
            invariant
                edge_index <= edge_count,
                edge_count == m,
                m == edges@.len(),
                s == sources(edges@),
                m == s.len(),
                node_count < usize::MAX,
                edges_valid(node_count as nat, edges@),
                forall|i: int| 0 <= i < s.len() ==> s[i] < node_count,
                edge_offsets@.len() == node_count + 1,
                forall|u: int|
                    0 <= u <= node_count ==> #[trigger] edge_offsets@[u] == count_below(s, u, m),
                edge_indices@.len() == m,
                offsets_so_far@.len() == node_count,
                forall|u: int|
                    0 <= u < node_count ==> #[trigger] offsets_so_far@[u] == positions_of(
                        s,
                        u,
                        edge_index as int,
                    ).len(),
                forall|u: int, t: int|
                    0 <= t < positions_of(s, u, edge_index as int).len() ==> edge_indices@[count_below(
                        s,
                        u,
                        m,
                    ) + t] == #[trigger] positions_of(s, u, edge_index as int)[t],
                weights_in_neglog@.len() == edge_index,
                forall|i: int|
                    0 <= i < edge_index ==> #[trigger] weights_in_neglog@[i]
                        == edges@[i].2.neg_log,
            decreases edge_count - edge_index,
        {
            let from_node = edges[edge_index].0;
            let rate = edges[edge_index].2;
            let ghost before = edge_indices@;
            proof {
                lemma_place(
                    s,
                    before,
                    before.update(
                        count_below(s, from_node as int, m) + positions_of(
                            s,
                            from_node as int,
                            edge_index as int,
                        ).len() as int,
                        edge_index,
                    ),
                    edge_index as int,
                );
            }
            let slot = edge_offsets[from_node] + offsets_so_far[from_node];
            edge_indices[slot] = edge_index;
            let cursor = offsets_so_far[from_node];
            offsets_so_far[from_node] = cursor + 1;
            weights_in_neglog.push(rate.neg_log);
            proof {
                assert(positions_of(s, from_node as int, edge_index + 1) == positions_of(
                    s,
                    from_node as int,
                    edge_index as int,
                ).push(edge_index as int));
            }
            edge_index += 1;
        }

        Self { edge_offsets, edge_indices, edges, weights_in_neglog, node_count }
    }

    #[inline]
    pub fn node_count(&self) -> (n: usize)
        ensures
            n == self@.node_count,
    {
        self.node_count
    }

    #[inline]
    pub fn edge_count(&self) -> (m: usize)
        ensures
            m == self@.edges.len(),
    {
        self.edges.len()
    }

    /// How many edges leave `node`.
    pub fn out_degree(&self, node: usize) -> (degree: usize)
        requires
            self.well_formed(),
            node < self@.node_count,
        ensures
            degree == out_edges(self@.edges, node as int).len(),
    {
        proof {
            lemma_blocks(self@.node_count, self@.edges, node as int);
        }
        self.edge_offsets[node + 1] - self.edge_offsets[node]
    }

    /// The id of the edge that is number `position` among those that leave `node`.
    pub fn out_edge(&self, node: usize, position: usize) -> (id: usize)
        requires
            self.well_formed(),
            node < self@.node_count,
            position < out_edges(self@.edges, node as int).len(),
        ensures
            id == out_edges(self@.edges, node as int)[position as int],
    {
        let edge_count = self.edges.len();
        proof {
            lemma_blocks(self@.node_count, self@.edges, node as int);
            assert(self.edge_offsets@[node as int] == block_start(self@.edges, node as int));
            assert(self.edge_offsets@[node as int] + position < edge_count);
        }
        self.edge_indices[self.edge_offsets[node] + position]
    }

    /// Neighbors of `from_node` as (edge_index, to, neg_log_weight), in the
    /// order in which the edges that leave `from_node` were given.
    pub fn neighbors(&self, from_node: usize) -> (out: Vec<(usize, usize, i64)>)
        requires
            self.well_formed(),
            from_node < self@.node_count,
        ensures
            out@ == out_edges(self@.edges, from_node as int).map_values(
                |id: int| (id as usize, self@.edges[id].1, self@.edges[id].2.neg_log),
            ),
    {
        let ghost ids = out_edges(self@.edges, from_node as int);
        let ghost item = |id: int| (id as usize, self@.edges[id].1, self@.edges[id].2.neg_log);
        proof {
            lemma_blocks(self@.node_count, self@.edges, from_node as int);
            lemma_out_edges_sound(self@.edges, from_node as int);
        }
        let start = self.edge_offsets[from_node];
        let end = self.edge_offsets[from_node + 1];
        let mut out: Vec<(usize, usize, i64)> = Vec::with_capacity(end - start);
        let mut position = start;
        while position < end
            invariant
                self.well_formed(),
                from_node < self@.node_count,
                ids == out_edges(self@.edges, from_node as int),
                item == |id: int| (id as usize, self@.edges[id].1, self@.edges[id].2.neg_log),
                start == block_start(self@.edges, from_node as int),
                end == start + ids.len(),
                end <= self@.edges.len(),
                start <= position <= end,
                forall|t: int| 0 <= t < ids.len() ==> 0 <= #[trigger] ids[t] < self@.edges.len(),
                out@ == ids.subrange(0, position - start).map_values(item),
            decreases end - position,
        {
            let edge_index = self.edge_indices[position];
            assert(edge_index == ids[position - start]);
            let to_node = self.edges[edge_index].1;
            out.push((edge_index, to_node, self.weights_in_neglog[edge_index]));
            position += 1;
            assert(out@ =~= ids.subrange(0, position - start).map_values(item));
        }
        assert(ids.subrange(0, position - start) =~= ids);
        out
    }

    #[inline]
    pub fn edge_src(&self, edge_index: usize) -> (src: usize)
        requires
            self.well_formed(),
            edge_index < self@.edges.len(),
        ensures
            src == self@.edges[edge_index as int].0,
            src < self@.node_count,
    {
        self.edges[edge_index].0
    }

    #[inline]
    pub fn edge_dst(&self, edge_index: usize) -> (dst: usize)
        requires
            self.well_formed(),
            edge_index < self@.edges.len(),
        ensures
            dst == self@.edges[edge_index as int].1,
            dst < self@.node_count,
    {
        self.edges[edge_index].1
    }

    #[inline]
    pub fn edge_rate(&self, edge_index: usize) -> (rate: Rate)
        requires
            self.well_formed(),
            edge_index < self@.edges.len(),
        ensures
            rate == self@.edges[edge_index as int].2,
            rate.is_valid(),
    {
        self.edges[edge_index].2
    }

    /// The cached weight of an edge: the weight of the rate that it holds.
    #[inline]
    pub fn edge_weight(&self, edge_index: usize) -> (weight: i64)
        requires
            self.well_formed(),
            edge_index < self@.edges.len(),
        ensures
            weight == self@.edges[edge_index as int].2.neg_log,
            -MAX_ABS_WEIGHT <= weight <= MAX_ABS_WEIGHT,
    {
        self.weights_in_neglog[edge_index]
    }

    /// The cached weights of all edges, by edge id.
    pub fn weights_in_neglog(&self) -> (weights: &Vec<i64>)
        requires
            self.well_formed(),
        ensures
            weights@ == self@.edges.map_values(|e: InputEdge| e.2.neg_log),
    {
        assert(self.weights_in_neglog@ =~= self@.edges.map_values(|e: InputEdge| e.2.neg_log));
        &self.weights_in_neglog
    }

    /// Replaces the rate of one edge, and with it the cached weight.
    #[inline]
    pub fn update_rate(&mut self, edge_index: usize, new_rate: Rate) -> (result: Result<
        (),
        UpdateError,
    >)
        requires
            old(self).well_formed(),
        ensures
            final(self).well_formed(),
            final(self)@.node_count == old(self)@.node_count,
            match result {
                Ok(_) => {
                    &&& edge_index < old(self)@.edges.len()
                    &&& new_rate.is_valid()
                    &&& final(self)@.edges == old(self)@.edges.update(
                        edge_index as int,
                        (
                            old(self)@.edges[edge_index as int].0,
                            old(self)@.edges[edge_index as int].1,
                            new_rate,
                        ),
                    )
                },
                Err(UpdateError::IndexOutOfBounds(index)) => {
                    &&& edge_index >= old(self)@.edges.len()
                    &&& index == edge_index
                    &&& final(self)@ == old(self)@
                },
                Err(UpdateError::InvalidRate(rate)) => {
                    &&& edge_index < old(self)@.edges.len()
                    &&& !new_rate.is_valid()
                    &&& rate == new_rate
                    &&& final(self)@ == old(self)@
                },
            },
    {
        if edge_index >= self.edges.len() {
            return Err(UpdateError::IndexOutOfBounds(edge_index));
        }
        if !new_rate.valid() {
            return Err(UpdateError::InvalidRate(new_rate));
        }
        let src = self.edges[edge_index].0;
        let dst = self.edges[edge_index].1;
        proof {
            lemma_rate_change_keeps_topology(self.edges@, edge_index as int, new_rate);
        }
        let ghost before = self.edges@;
        self.edges[edge_index] = (src, dst, new_rate);
        self.weights_in_neglog[edge_index] = new_rate.neg_log;
        proof {
            assert(sources(self.edges@) == sources(before));
            assert forall|i: int| 0 <= i < self.edges@.len() implies edge_valid(
                self.node_count as nat,
                #[trigger] self.edges@[i],
            ) by {}
            assert forall|u: int| 0 <= u <= self.node_count implies #[trigger] self.edge_offsets@[u]
                == block_start(self.edges@, u) by {
                assert(self.edge_offsets@[u] == block_start(before, u));
            }
            assert forall|u: int, t: int|
                0 <= t < out_edges(self.edges@, u).len() implies self.edge_indices@[block_start(
                self.edges@,
                u,
            ) + t] == #[trigger] out_edges(self.edges@, u)[t] by {
                assert(out_edges(self.edges@, u) == out_edges(before, u));
                assert(self.edge_indices@[block_start(before, u) + t] == out_edges(before, u)[t]);
            }
            assert forall|i: int| 0 <= i < self.edges@.len() implies #[trigger] self.weights_in_neglog@[i]
                == self.edges@[i].2.neg_log by {
                if i != edge_index {
                    assert(old(self).weights_in_neglog@[i] == before[i].2.neg_log);
                }
            }
        }
        Ok(())
    }
}

/// A rate update followed by a read reports the new rate and its weight, and
/// leaves every other edge, and both endpoints of this one, as they were.
pub proof fn lemma_update_then_read(before: GraphView, after: GraphView, id: int, rate: Rate)
    requires
        0 <= id < before.edges.len(),
        after.edges == before.edges.update(id, (before.edges[id].0, before.edges[id].1, rate)),
    ensures
        after.edges.len() == before.edges.len(),
        after.edges[id].2 == rate,
        after.edges[id].2.neg_log == rate.neg_log,
        after.edges[id].0 == before.edges[id].0,
        after.edges[id].1 == before.edges[id].1,
        forall|other: int|
            0 <= other < before.edges.len() && other != id ==> after.edges[other]
                == before.edges[other],
        forall|node: int| out_edges(after.edges, node) == out_edges(before.edges, node),
{
    lemma_rate_change_keeps_topology(before.edges, id, rate);
}

} // verus!
