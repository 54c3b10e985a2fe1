//! Walks in a rate graph and their cheapest costs.
//!
//! A walk is a sequence of edge ids in which each edge starts where the one
//! before it ends; its cost is the sum of the weights of its edges. The
//! cheapest cost of reaching a node in a given number of hops is defined
//! layer by layer, and shown here to be the least cost of any such walk.

use vstd::prelude::*;
use crate::csr_graph::{edge_valid, edges_valid, GraphView, InputEdge};
use crate::rate::MAX_ABS_WEIGHT;

verus! {

/// A cycle is reported only when its cost is below `-EPS`: 10^-12 in weight units.
pub const EPS: i64 = 1_000;

/// A cycle is reported only when its cost is at least `-MAX_LOG_PROFIT`
/// (709.78 in weight units): beyond it the gain, the exponential of the
/// negated cost, is more than a binary64 number can hold.
pub const MAX_LOG_PROFIT: i64 = 709_780_000_000_000_000;

pub open spec fn source(edges: Seq<InputEdge>, id: int) -> int {
    edges[id].0 as int
}

pub open spec fn target(edges: Seq<InputEdge>, id: int) -> int {
    edges[id].1 as int
}

pub open spec fn weight(edges: Seq<InputEdge>, id: int) -> int {
    edges[id].2.neg_log as int
}

/// Every entry is an edge id, and each edge starts where the one before it ends.
pub open spec fn is_walk(edges: Seq<InputEdge>, path: Seq<usize>) -> bool {
    &&& forall|k: int| 0 <= k < path.len() ==> #[trigger] path[k] < edges.len()
    &&& forall|k: int|
        0 < k < path.len() ==> target(edges, path[k - 1] as int) == source(
            edges,
            #[trigger] path[k] as int,
        )
}

/// `path` is a walk that leads from `from` to `to`. The empty walk leads
/// from a node to itself.
pub open spec fn walk_between(edges: Seq<InputEdge>, from: int, to: int, path: Seq<usize>) -> bool {
    &&& is_walk(edges, path)
    &&& if path.len() == 0 {
        from == to
    } else {
        source(edges, path[0] as int) == from && target(edges, path.last() as int) == to
    }
}

/// The sum of the weights of the edges of `path`.
pub open spec fn walk_cost(edges: Seq<InputEdge>, path: Seq<usize>) -> int
    decreases path.len(),
{
    if path.len() == 0 {
        0
    } else {
        walk_cost(edges, path.drop_last()) + weight(edges, path.last() as int)
    }
}

/// The nodes that `path` visits: where its first edge starts, then where
/// each edge ends. Meant for a path that is not empty.
pub open spec fn walk_vertices(edges: Seq<InputEdge>, path: Seq<usize>) -> Seq<usize> {
    seq![edges[path[0] as int].0] + path.map_values(|id: usize| edges[id as int].1)
}

/// The cost of arriving by edge `id`, when `prev` holds for each node the
/// cost of reaching it one hop earlier (`None` where it is not reached).
pub open spec fn arrival(edges: Seq<InputEdge>, prev: Seq<Option<int>>, id: int) -> Option<int> {
    match prev[source(edges, id)] {
        Some(cost) => Some(cost + weight(edges, id)),
        None => None,
    }
}

/// The smaller of a cost so far, if there is one, and another cost.
pub open spec fn lower(so_far: Option<int>, cost: int) -> Option<int> {
    match so_far {
        Some(least) => if cost < least {
            Some(cost)
        } else {
            Some(least)
        },
        None => Some(cost),
    }
}

/// The least cost of arriving at `node` by an edge with an id below `upto`.
pub open spec fn cheapest_arrival(
    edges: Seq<InputEdge>,
    prev: Seq<Option<int>>,
    node: int,
    upto: int,
) -> Option<int>
    decreases upto,
{
    if upto <= 0 {
        None
    } else {
        let rest = cheapest_arrival(edges, prev, node, upto - 1);
        if target(edges, upto - 1) == node {
            match arrival(edges, prev, upto - 1) {
                Some(cost) => lower(rest, cost),
                None => rest,
            }
        } else {
            rest
        }
    }
}

/// One round of relaxation: for each node the least cost of arriving there
/// by one more edge.
pub open spec fn relaxed(view: GraphView, prev: Seq<Option<int>>) -> Seq<Option<int>> {
    Seq::new(
        view.node_count,
        |node: int| cheapest_arrival(view.edges, prev, node, view.edges.len() as int),
    )
}

/// For each node the cheapest cost of reaching it from `start` in exactly
/// `hops` edges, `None` where no such walk exists.
pub open spec fn costs(view: GraphView, start: int, hops: nat) -> Seq<Option<int>>
    decreases hops,
{
    if hops == 0 {
        Seq::new(
            view.node_count,
            |node: int|
                if node == start {
                    Some(0int)
                } else {
                    None
                },
        )
    } else {
        relaxed(view, costs(view, start, (hops - 1) as nat))
    }
}

/// The cheapest cost of reaching `node` from `start` in exactly `hops` edges.
pub open spec fn min_cost(view: GraphView, start: int, hops: nat, node: int) -> Option<int> {
    costs(view, start, hops)[node]
}

/// Edge `a` is relaxed no later than edge `b`: edges are taken by source
/// node, and those of one source in the order of the edge list.
pub open spec fn precedes(edges: Seq<InputEdge>, a: int, b: int) -> bool {
    source(edges, a) < source(edges, b) || (source(edges, a) == source(edges, b) && a <= b)
}

/// Edge `id` is the predecessor recorded for `node`: it arrives there at the
/// least cost, and no edge that does so is relaxed before it.
pub open spec fn is_chosen_pred(
    edges: Seq<InputEdge>,
    prev: Seq<Option<int>>,
    node: int,
    id: int,
) -> bool {
    &&& 0 <= id < edges.len()
    &&& target(edges, id) == node
    &&& arrival(edges, prev, id) is Some
    &&& arrival(edges, prev, id) == cheapest_arrival(edges, prev, node, edges.len() as int)
    &&& forall|other: int|
        0 <= other < edges.len() && target(edges, other) == node && #[trigger] arrival(
            edges,
            prev,
            other,
        ) == arrival(edges, prev, id) ==> precedes(edges, id, other)
}

/// Every edge of `path` is the predecessor recorded for the node it enters,
/// at the hop at which it is taken on a walk from `start`.
pub open spec fn is_chosen_walk(view: GraphView, start: int, path: Seq<usize>) -> bool {
    forall|k: int|
        0 <= k < path.len() ==> is_chosen_pred(
            view.edges,
            costs(view, start, k as nat),
            target(view.edges, path[k] as int),
            #[trigger] path[k] as int,
        )
}

/// A round trip of `hops` edges from `start` costs less than `-EPS`.
pub open spec fn profitable_at(view: GraphView, start: int, hops: nat) -> bool {
    match min_cost(view, start, hops, start) {
        Some(cost) => cost < -EPS,
        None => false,
    }
}

/// `(a_start, a_hops)` is searched before `(b_start, b_hops)`: start nodes in
/// ascending order, and for each the hop counts in ascending order.
pub open spec fn searched_before(a_start: int, a_hops: int, b_start: int, b_hops: int) -> bool {
    a_start < b_start || (a_start == b_start && a_hops < b_hops)
}

/// `(start, hops)` is within the search: a node, and between one hop and the cap.
pub open spec fn in_search(view: GraphView, hop_cap: int, start: int, hops: int) -> bool {
    0 <= start < view.node_count && 1 <= hops <= hop_cap
}

/// `(start, hops)` is the first pair of the search with a profitable round trip.
pub open spec fn first_profitable(view: GraphView, hop_cap: int, start: int, hops: int) -> bool {
    &&& in_search(view, hop_cap, start, hops)
    &&& profitable_at(view, start, hops as nat)
    &&& forall|s: int, h: int|
        in_search(view, hop_cap, s, h) && searched_before(s, h, start, hops) ==> !#[trigger] profitable_at(
            view,
            s,
            h as nat,
        )
}

/// No pair of the search has a profitable round trip.
pub open spec fn none_profitable(view: GraphView, hop_cap: int) -> bool {
    forall|s: int, h: int|
        in_search(view, hop_cap, s, h) ==> !#[trigger] profitable_at(view, s, h as nat)
}

/// `cheapest_arrival` is a minimum: no arrival below `upto` is cheaper, and
/// where it is `Some`, an arrival below `upto` has that cost.
pub proof fn lemma_cheapest_arrival(
    edges: Seq<InputEdge>,
    prev: Seq<Option<int>>,
    node: int,
    upto: int,
)
    requires
        0 <= upto <= edges.len(),
    ensures
        forall|id: int|
            0 <= id < upto && target(edges, id) == node && (#[trigger] arrival(
                edges,
                prev,
                id,
            )) is Some ==> {
                &&& cheapest_arrival(edges, prev, node, upto) is Some
                &&& cheapest_arrival(edges, prev, node, upto).unwrap() <= arrival(
                    edges,
                    prev,
                    id,
                ).unwrap()
            },
        cheapest_arrival(edges, prev, node, upto) is Some ==> exists|id: int|
            0 <= id < upto && target(edges, id) == node && #[trigger] arrival(edges, prev, id)
                == cheapest_arrival(edges, prev, node, upto),
    decreases upto,
{
    if upto > 0 {
        lemma_cheapest_arrival(edges, prev, node, upto - 1);
        let rest = cheapest_arrival(edges, prev, node, upto - 1);
        let now = cheapest_arrival(edges, prev, node, upto);
        if now is Some && !(target(edges, upto - 1) == node && arrival(edges, prev, upto - 1)
            == now) {
            // The last edge does not lower the minimum: an earlier one attains it.
            let id = choose|id: int|
                0 <= id < upto - 1 && target(edges, id) == node && #[trigger] arrival(
                    edges,
                    prev,
                    id,
                ) == rest;
            assert(arrival(edges, prev, id) == now);
        }
    }
}

/// The first edges of a walk form a walk to where the last edge starts.
pub proof fn lemma_walk_prefix(edges: Seq<InputEdge>, from: int, to: int, path: Seq<usize>)
    requires
        walk_between(edges, from, to, path),
        path.len() > 0,
    ensures
        walk_between(edges, from, source(edges, path.last() as int), path.drop_last()),
        target(edges, path.last() as int) == to,
        path.last() < edges.len(),
{
    let prefix = path.drop_last();
    assert forall|k: int| 0 <= k < prefix.len() implies #[trigger] prefix[k] < edges.len() by {
        assert(prefix[k] == path[k]);
    }
    assert forall|k: int| 0 < k < prefix.len() implies target(edges, prefix[k - 1] as int)
        == source(edges, #[trigger] prefix[k] as int) by {
        assert(prefix[k] == path[k]);
    }
}

/// A walk with one more edge, which starts where the walk ends.
pub proof fn lemma_walk_push(
    edges: Seq<InputEdge>,
    from: int,
    to: int,
    path: Seq<usize>,
    id: usize,
)
    requires
        walk_between(edges, from, to, path),
        id < edges.len(),
        source(edges, id as int) == to,
    ensures
        walk_between(edges, from, target(edges, id as int), path.push(id)),
        walk_cost(edges, path.push(id)) == walk_cost(edges, path) + weight(edges, id as int),
        path.push(id).len() == path.len() + 1,
{
    let longer = path.push(id);
    assert(longer.drop_last() == path);
    assert forall|k: int| 0 < k < longer.len() implies target(edges, longer[k - 1] as int)
        == source(edges, #[trigger] longer[k] as int) by {
        if k < path.len() {
            assert(longer[k] == path[k]);
        } else {
            assert(longer[k - 1] == path.last());
        }
    }
}

/// No walk is cheaper than the cheapest cost: a walk of `path.len()` edges
/// from `start` to `node` shows that `node` is reached in that many hops, at
/// a cost that is at least `min_cost`.
pub proof fn lemma_min_cost_is_lower_bound(
    view: GraphView,
    start: int,
    node: int,
    path: Seq<usize>,
)
    requires
        edges_valid(view.node_count, view.edges),
        0 <= start < view.node_count,
        walk_between(view.edges, start, node, path),
    ensures
        0 <= node < view.node_count,
        min_cost(view, start, path.len(), node) is Some,
        min_cost(view, start, path.len(), node).unwrap() <= walk_cost(view.edges, path),
    decreases path.len(),
{
    let edges = view.edges;
    if path.len() > 0 {
        let id = path.last() as int;
        let hops = path.len();
        lemma_walk_prefix(edges, start, node, path);
        lemma_min_cost_is_lower_bound(view, start, source(edges, id), path.drop_last());
        let prev = costs(view, start, (hops - 1) as nat);
        assert(arrival(edges, prev, id) is Some);
        lemma_cheapest_arrival(edges, prev, node, edges.len() as int);
    }
}

/// The cheapest cost is the cost of a walk: where `node` is reached from
/// `start` in `hops` edges, some walk of that many edges has cost `min_cost`.
pub proof fn lemma_min_cost_is_attained(view: GraphView, start: int, hops: nat, node: int) -> (path:
    Seq<usize>)
    requires
        edges_valid(view.node_count, view.edges),
        view.edges.len() <= usize::MAX,
        0 <= node < view.node_count,
        min_cost(view, start, hops, node) is Some,
    ensures
        walk_between(view.edges, start, node, path),
        path.len() == hops,
        walk_cost(view.edges, path) == min_cost(view, start, hops, node).unwrap(),
    decreases hops,
{
    let edges = view.edges;
    if hops == 0 {
        Seq::empty()
    } else {
        let prev = costs(view, start, (hops - 1) as nat);
        lemma_cheapest_arrival(edges, prev, node, edges.len() as int);
        let id = choose|id: int|
            0 <= id < edges.len() && target(edges, id) == node && #[trigger] arrival(
                edges,
                prev,
                id,
            ) == cheapest_arrival(edges, prev, node, edges.len() as int);
        let from = source(edges, id);
        let prefix = lemma_min_cost_is_attained(view, start, (hops - 1) as nat, from);
        lemma_walk_push(edges, start, from, prefix, id as usize);
        prefix.push(id as usize)
    }
}

/// A round trip of `hops` edges from `start` is profitable exactly when some
/// closed walk of that many edges through `start` costs less than `-EPS`.
pub proof fn lemma_profitable_iff_walk(view: GraphView, start: int, hops: nat)
    requires
        edges_valid(view.node_count, view.edges),
        view.edges.len() <= usize::MAX,
        0 <= start < view.node_count,
    ensures
        profitable_at(view, start, hops) <==> exists|path: Seq<usize>|
            #[trigger] walk_between(view.edges, start, start, path) && path.len() == hops
                && walk_cost(view.edges, path) < -EPS,
{
    if profitable_at(view, start, hops) {
        let path = lemma_min_cost_is_attained(view, start, hops, start);
        assert(walk_between(view.edges, start, start, path));
    }
    if exists|path: Seq<usize>|
        #[trigger] walk_between(view.edges, start, start, path) && path.len() == hops && walk_cost(
            view.edges,
            path,
        ) < -EPS {
        let path = choose|path: Seq<usize>|
            #[trigger] walk_between(view.edges, start, start, path) && path.len() == hops
                && walk_cost(view.edges, path) < -EPS;
        lemma_min_cost_is_lower_bound(view, start, start, path);
    }
}

/// A cheapest cost over `hops` edges is at most `hops` times the largest weight
/// in magnitude.
pub proof fn lemma_min_cost_bounded(view: GraphView, start: int, hops: nat, node: int)
    requires
        edges_valid(view.node_count, view.edges),
        0 <= node < view.node_count,
        min_cost(view, start, hops, node) is Some,
    ensures
        -(hops * MAX_ABS_WEIGHT) <= min_cost(view, start, hops, node).unwrap() <= hops
            * MAX_ABS_WEIGHT,
    decreases hops,
{
    let edges = view.edges;
    if hops > 0 {
        let prev = costs(view, start, (hops - 1) as nat);
        lemma_cheapest_arrival(edges, prev, node, edges.len() as int);
        let id = choose|id: int|
            0 <= id < edges.len() && target(edges, id) == node && #[trigger] arrival(
                edges,
                prev,
                id,
            ) == cheapest_arrival(edges, prev, node, edges.len() as int);
        lemma_min_cost_bounded(view, start, (hops - 1) as nat, source(edges, id));
        assert(hops * MAX_ABS_WEIGHT == (hops - 1) * MAX_ABS_WEIGHT + MAX_ABS_WEIGHT)
            by (nonlinear_arith);
    }
}

/// At most one edge is the recorded predecessor of a node.
pub proof fn lemma_chosen_pred_unique(
    edges: Seq<InputEdge>,
    prev: Seq<Option<int>>,
    node: int,
    a: int,
    b: int,
)
    requires
        is_chosen_pred(edges, prev, node, a),
        is_chosen_pred(edges, prev, node, b),
    ensures
        a == b,
{
    // Each is relaxed no later than the other.
    assert(precedes(edges, a, b) && precedes(edges, b, a));
}

/// At most one pair is the first profitable pair of a search.
pub proof fn lemma_first_profitable_unique(
    view: GraphView,
    hop_cap: int,
    a_start: int,
    a_hops: int,
    b_start: int,
    b_hops: int,
)
    requires
        first_profitable(view, hop_cap, a_start, a_hops),
        first_profitable(view, hop_cap, b_start, b_hops),
    ensures
        a_start == b_start,
        a_hops == b_hops,
{
    // Were one searched before the other, the later one would not be the first.
    if searched_before(a_start, a_hops, b_start, b_hops) {
        assert(!profitable_at(view, a_start, a_hops as nat));
    }
    if searched_before(b_start, b_hops, a_start, a_hops) {
        assert(!profitable_at(view, b_start, b_hops as nat));
    }
}

/// The chosen walk to a node is unique: two chosen walks of the same length
/// from `start` to `node` are the same walk.
pub proof fn lemma_chosen_walk_unique(
    view: GraphView,
    start: int,
    node: int,
    a: Seq<usize>,
    b: Seq<usize>,
)
    requires
        walk_between(view.edges, start, node, a),
        walk_between(view.edges, start, node, b),
        is_chosen_walk(view, start, a),
        is_chosen_walk(view, start, b),
        a.len() == b.len(),
    ensures
        a == b,
    decreases a.len(),
{
    let edges = view.edges;
    if a.len() > 0 {
        let last = a.len() - 1;
        let prev = costs(view, start, last as nat);
        lemma_chosen_pred_unique(edges, prev, node, a[last] as int, b[last] as int);
        lemma_walk_prefix(edges, start, node, a);
        lemma_walk_prefix(edges, start, node, b);
        let front_a = a.drop_last();
        let front_b = b.drop_last();
        assert forall|k: int| 0 <= k < front_a.len() implies is_chosen_pred(
            edges,
            costs(view, start, k as nat),
            target(edges, front_a[k] as int),
            #[trigger] front_a[k] as int,
        ) by {
            assert(front_a[k] == a[k]);
        }
        assert forall|k: int| 0 <= k < front_b.len() implies is_chosen_pred(
            edges,
            costs(view, start, k as nat),
            target(edges, front_b[k] as int),
            #[trigger] front_b[k] as int,
        ) by {
            assert(front_b[k] == b[k]);
        }
        lemma_chosen_walk_unique(view, start, source(edges, a[last] as int), front_a, front_b);
        assert(a =~= front_a.push(a[last]));
        assert(b =~= front_b.push(b[last]));
    }
}

/// Where a search finds nothing profitable, no closed walk within the cap
/// costs less than `-EPS`, whatever node it starts from.
pub proof fn lemma_none_profitable_bounds_walks(
    view: GraphView,
    hop_cap: int,
    start: int,
    path: Seq<usize>,
)
    requires
        edges_valid(view.node_count, view.edges),
        none_profitable(view, hop_cap),
        0 <= start < view.node_count,
        1 <= path.len() <= hop_cap,
        walk_between(view.edges, start, start, path),
    ensures
        walk_cost(view.edges, path) >= -EPS,
{
    lemma_min_cost_is_lower_bound(view, start, start, path);
    let hops = path.len() as int;
    assert(!profitable_at(view, start, hops as nat));
}

} // verus!
