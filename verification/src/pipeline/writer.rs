//! The writer: validates updates, holds their rates within the bounds, and
//! applies them to the graph batch by batch.

use vstd::prelude::*;
use crate::csr_graph::{CSRGraph, InputEdge};
use crate::pipeline::config::{clamped, RateBounds, Span};
use crate::pipeline::types::{GraphUpdate, UpdateValidationError, WriterOutcome};
use crate::rate::Rate;

verus! {

/// The edge that an update names.
pub open spec fn index_of(update: GraphUpdate) -> usize {
    match update {
        GraphUpdate::Rate { edge_index, new_rate } => edge_index,
    }
}

/// The rate that an update brings.
pub open spec fn rate_of(update: GraphUpdate) -> Rate {
    match update {
        GraphUpdate::Rate { edge_index, new_rate } => new_rate,
    }
}

/// The update names an edge of a graph with `edge_count` edges and brings a
/// rate that a graph may hold.
pub open spec fn is_applicable(update: GraphUpdate, edge_count: nat) -> bool {
    index_of(update) < edge_count && rate_of(update).is_valid()
}

/// The update with its rate held within the bounds.
pub open spec fn bounded(update: GraphUpdate, bounds: RateBounds) -> GraphUpdate {
    GraphUpdate::Rate {
        edge_index: index_of(update),
        new_rate: clamped(rate_of(update), bounds.min(), bounds.max()),
    }
}

/// The edges after one update.
pub open spec fn edges_after(edges: Seq<InputEdge>, update: GraphUpdate) -> Seq<InputEdge> {
    let id = index_of(update) as int;
    edges.update(id, (edges[id].0, edges[id].1, rate_of(update)))
}

/// The edges after a sequence of updates, applied in order.
pub open spec fn edges_after_all(edges: Seq<InputEdge>, updates: Seq<GraphUpdate>) -> Seq<
    InputEdge,
>
    decreases updates.len(),
{
    if updates.len() == 0 {
        edges
    } else {
        edges_after(edges_after_all(edges, updates.drop_last()), updates.last())
    }
}

/// The applicable updates of a batch, in order, each held within the bounds.
pub open spec fn accepted(batch: Seq<GraphUpdate>, edge_count: nat, bounds: RateBounds) -> Seq<
    GraphUpdate,
>
    decreases batch.len(),
{
    if batch.len() == 0 {
        Seq::empty()
    } else if is_applicable(batch.last(), edge_count) {
        accepted(batch.drop_last(), edge_count, bounds).push(bounded(batch.last(), bounds))
    } else {
        accepted(batch.drop_last(), edge_count, bounds)
    }
}

/// How many updates of a batch name no edge.
pub open spec fn invalid_index_count(batch: Seq<GraphUpdate>, edge_count: nat) -> nat
    decreases batch.len(),
{
    if batch.len() == 0 {
        0
    } else if index_of(batch.last()) >= edge_count {
        invalid_index_count(batch.drop_last(), edge_count) + 1
    } else {
        invalid_index_count(batch.drop_last(), edge_count)
    }
}

/// How many updates of a batch name an edge but bring a rate that no graph may hold.
pub open spec fn invalid_rate_count(batch: Seq<GraphUpdate>, edge_count: nat) -> nat
    decreases batch.len(),
{
    if batch.len() == 0 {
        0
    } else if index_of(batch.last()) < edge_count && !rate_of(batch.last()).is_valid() {
        invalid_rate_count(batch.drop_last(), edge_count) + 1
    } else {
        invalid_rate_count(batch.drop_last(), edge_count)
    }
}

/// Every update of a batch is counted once: as accepted, or as invalid for
/// its index, or as invalid for its rate.
pub proof fn lemma_batch_accounted(batch: Seq<GraphUpdate>, edge_count: nat, bounds: RateBounds)
    ensures
        accepted(batch, edge_count, bounds).len() + invalid_index_count(batch, edge_count)
            + invalid_rate_count(batch, edge_count) == batch.len(),
    decreases batch.len(),
{
    if batch.len() > 0 {
        lemma_batch_accounted(batch.drop_last(), edge_count, bounds);
    }
}

/// With usable bounds every accepted update can be applied.
pub proof fn lemma_accepted_applicable(
    batch: Seq<GraphUpdate>,
    edge_count: nat,
    bounds: RateBounds,
)
    requires
        bounds.usable(),
    ensures
        forall|k: int|
            0 <= k < accepted(batch, edge_count, bounds).len() ==> is_applicable(
                #[trigger] accepted(batch, edge_count, bounds)[k],
                edge_count,
            ),
    decreases batch.len(),
{
    if batch.len() > 0 {
        let front = accepted(batch.drop_last(), edge_count, bounds);
        lemma_accepted_applicable(batch.drop_last(), edge_count, bounds);
        assert forall|k: int| 0 <= k < accepted(batch, edge_count, bounds).len() implies is_applicable(
            #[trigger] accepted(batch, edge_count, bounds)[k],
            edge_count,
        ) by {
            if k < front.len() {
                assert(accepted(batch, edge_count, bounds)[k] == front[k]);
            }
        }
    }
}

pub fn validate_update(update: GraphUpdate, edge_count: usize) -> (result: Result<
    GraphUpdate,
    UpdateValidationError,
>)
    ensures
        match result {
            Ok(valid) => is_applicable(update, edge_count as nat) && valid == update,
            Err(UpdateValidationError::IndexOutOfBounds(index)) => index_of(update) >= edge_count
                && index == index_of(update),
            Err(UpdateValidationError::InvalidRate(rate)) => index_of(update) < edge_count
                && !rate_of(update).is_valid() && rate == rate_of(update),
        },
{
    match update {
        GraphUpdate::Rate { edge_index, new_rate } => {
            if edge_index >= edge_count {
                return Err(UpdateValidationError::IndexOutOfBounds(edge_index));
            }
            if !new_rate.valid() {
                return Err(UpdateValidationError::InvalidRate(new_rate));
            }
            Ok(GraphUpdate::Rate { edge_index, new_rate })
        },
    }
}

/// Validates the updates of a batch and holds the rates of the valid ones
/// within the bounds. The invalid ones are counted and dropped; the valid
/// ones are counted as processed and returned, in order.
pub fn validate_batch(
    batch: &Vec<GraphUpdate>,
    edge_count: usize,
    bounds: RateBounds,
    outcome: &mut WriterOutcome,
) -> (bounded_updates: Vec<GraphUpdate>)
    requires
        old(outcome).seen() + batch@.len() <= usize::MAX,
    ensures
        bounded_updates@ == accepted(batch@, edge_count as nat, bounds),
        final(outcome).processed_updates == old(outcome).processed_updates
            + bounded_updates@.len(),
        final(outcome).invalid_index_updates == old(outcome).invalid_index_updates
            + invalid_index_count(batch@, edge_count as nat),
        final(outcome).invalid_rate_updates == old(outcome).invalid_rate_updates
            + invalid_rate_count(batch@, edge_count as nat),
        final(outcome).unique_updates_applied == old(outcome).unique_updates_applied,
        final(outcome).seen() == old(outcome).seen() + batch@.len(),
        bounds.usable() ==> forall|k: int|
            0 <= k < bounded_updates@.len() ==> is_applicable(
                #[trigger] bounded_updates@[k],
                edge_count as nat,
            ),
{
    let mut validated: Vec<GraphUpdate> = Vec::with_capacity(batch.len());
    let ghost n = edge_count as nat;
    let mut i: usize = 0;
    while i < batch.len()
        invariant
            i <= batch@.len(),
            n == edge_count,
            old(outcome).seen() + batch@.len() <= usize::MAX,
            validated@ == accepted(batch@.subrange(0, i as int), n, bounds),
            outcome.processed_updates == old(outcome).processed_updates,
            outcome.unique_updates_applied == old(outcome).unique_updates_applied,
            outcome.invalid_index_updates == old(outcome).invalid_index_updates
                + invalid_index_count(batch@.subrange(0, i as int), n),
            outcome.invalid_rate_updates == old(outcome).invalid_rate_updates
                + invalid_rate_count(batch@.subrange(0, i as int), n),
        decreases batch@.len() - i,
    {
        let update = batch[i];
        proof {
            let longer = batch@.subrange(0, i + 1);
            assert(longer.drop_last() =~= batch@.subrange(0, i as int));
            assert(longer.last() == update);
            lemma_batch_accounted(longer, n, bounds);
        }
        match validate_update(update, edge_count) {
            Ok(valid) => match valid {
                GraphUpdate::Rate { edge_index, new_rate } => {
                    validated.push(
                        GraphUpdate::Rate { edge_index, new_rate: bounds.clamp(new_rate) },
                    );
                },
            },
            Err(UpdateValidationError::IndexOutOfBounds(_index)) => {
                outcome.invalid_index_updates += 1;
            },
            Err(UpdateValidationError::InvalidRate(_rate)) => {
                outcome.invalid_rate_updates += 1;
            },
        }
        i += 1;
    }
    proof {
        assert(batch@.subrange(0, i as int) =~= batch@);
        lemma_batch_accounted(batch@, n, bounds);
        if bounds.usable() {
            lemma_accepted_applicable(batch@, n, bounds);
        }
    }
    outcome.processed_updates += validated.len();
    validated
}

/// Whether every update can be applied to a graph with `edge_count` edges.
pub fn all_applicable(updates: &[GraphUpdate], edge_count: usize) -> (ok: bool)
    ensures
        ok == forall|k: int|
            0 <= k < updates@.len() ==> is_applicable(#[trigger] updates@[k], edge_count as nat),
{
    let mut i: usize = 0;
    while i < updates.len()
        invariant
            i <= updates@.len(),
            forall|k: int| 0 <= k < i ==> is_applicable(#[trigger] updates@[k], edge_count as nat),
        decreases updates@.len() - i,
    {
        match validate_update(updates[i], edge_count) {
            Ok(_) => {},
            Err(_) => {
                assert(!is_applicable(updates@[i as int], edge_count as nat));
                return false;
            },
        }
        i += 1;
    }
    true
}

/// Applies validated updates in order, and says how many it applied.
pub fn apply_valid_updates(graph: &mut CSRGraph, updates: &[GraphUpdate]) -> (applied: usize)
    requires
        old(graph).well_formed(),
        forall|k: int|
            0 <= k < updates@.len() ==> is_applicable(
                #[trigger] updates@[k],
                old(graph)@.edges.len(),
            ),
    ensures
        final(graph).well_formed(),
        final(graph)@.node_count == old(graph)@.node_count,
        final(graph)@.edges == edges_after_all(old(graph)@.edges, updates@),
        final(graph)@.edges.len() == old(graph)@.edges.len(),
        applied == updates@.len(),
{
    if updates.len() == 0 {
        return 0;
    }
    let mut i: usize = 0;
    while i < updates.len()
        invariant
            i <= updates@.len(),
            graph.well_formed(),
            graph@.node_count == old(graph)@.node_count,
            graph@.edges.len() == old(graph)@.edges.len(),
            forall|k: int|
                0 <= k < updates@.len() ==> is_applicable(
                    #[trigger] updates@[k],
                    old(graph)@.edges.len(),
                ),
            graph@.edges == edges_after_all(old(graph)@.edges, updates@.subrange(0, i as int)),
        decreases updates@.len() - i,
    {
        proof {
            let longer = updates@.subrange(0, i + 1);
            assert(longer.drop_last() =~= updates@.subrange(0, i as int));
            assert(longer.last() == updates@[i as int]);
            assert(is_applicable(updates@[i as int], old(graph)@.edges.len()));
        }
        match updates[i] {
            GraphUpdate::Rate { edge_index, new_rate } => {
                let result = graph.update_rate(edge_index, new_rate);
                assert(result is Ok);
            },
        }
        i += 1;
    }
    proof {
        assert(updates@.subrange(0, i as int) =~= updates@);
    }
    updates.len()
}

/// Applies a validated batch and counts what was applied. An empty batch
/// changes nothing.
pub fn commit_batch(graph: &mut CSRGraph, updates: &[GraphUpdate], outcome: &mut WriterOutcome)
    requires
        old(graph).well_formed(),
        forall|k: int|
            0 <= k < updates@.len() ==> is_applicable(
                #[trigger] updates@[k],
                old(graph)@.edges.len(),
            ),
        old(outcome).unique_updates_applied + updates@.len() <= usize::MAX,
    ensures
        final(graph).well_formed(),
        final(graph)@.node_count == old(graph)@.node_count,
        final(graph)@.edges == edges_after_all(old(graph)@.edges, updates@),
        final(outcome).unique_updates_applied == old(outcome).unique_updates_applied
            + updates@.len(),
        final(outcome).processed_updates == old(outcome).processed_updates,
        final(outcome).invalid_index_updates == old(outcome).invalid_index_updates,
        final(outcome).invalid_rate_updates == old(outcome).invalid_rate_updates,
{
    let applied = apply_valid_updates(graph, updates);
    if applied == 0 {
        return ;
    }
    outcome.unique_updates_applied += applied;
}

/// The writer's counters stay in step: a batch that is validated and then
/// committed leaves no more updates applied than processed, and adds its
/// length to the number of messages accounted for.
pub proof fn lemma_writer_invariant(
    before: WriterOutcome,
    validated: WriterOutcome,
    committed: WriterOutcome,
    batch: Seq<GraphUpdate>,
    edge_count: nat,
    bounds: RateBounds,
)
    requires
        before.consistent(),
        validated.processed_updates == before.processed_updates + accepted(
            batch,
            edge_count,
            bounds,
        ).len(),
        validated.invalid_index_updates == before.invalid_index_updates + invalid_index_count(
            batch,
            edge_count,
        ),
        validated.invalid_rate_updates == before.invalid_rate_updates + invalid_rate_count(
            batch,
            edge_count,
        ),
        validated.unique_updates_applied == before.unique_updates_applied,
        committed.unique_updates_applied == validated.unique_updates_applied + accepted(
            batch,
            edge_count,
            bounds,
        ).len(),
        committed.processed_updates == validated.processed_updates,
        committed.invalid_index_updates == validated.invalid_index_updates,
        committed.invalid_rate_updates == validated.invalid_rate_updates,
    ensures
        validated.consistent(),
        committed.consistent(),
        committed.seen() == before.seen() + batch.len(),
        committed.unique_updates_applied <= committed.processed_updates,
        committed.invalid_index_updates + committed.invalid_rate_updates
            + committed.processed_updates == before.invalid_index_updates
            + before.invalid_rate_updates + before.processed_updates + batch.len(),
{
    lemma_batch_accounted(batch, edge_count, bounds);
}

/// What the writer waits for while it assembles a batch.
#[derive(Debug, Clone, Copy, PartialEq, Eq, Structural)]
pub enum BatchWait {
    /// The next message, without a deadline: the batch is empty.
    First,
    /// The next message, until the deadline of the batch.
    More,
    /// Nothing: the batch is complete.
    Nothing,
}

/// What the writer waits for with `batch_len` messages in the batch. It
/// waits for the first message as long as it takes. Behind it, it waits for
/// more until the deadline, as long as the batch is below `max_coalesce`; with
/// no window, or a cap of one, the batch is the first message alone.
pub open spec fn batch_wait(batch_len: nat, max_coalesce: nat, coalesce_window: Span) -> BatchWait {
    if batch_len == 0 {
        BatchWait::First
    } else if (coalesce_window.secs > 0 || coalesce_window.nanos > 0) && max_coalesce > 1
        && batch_len < max_coalesce {
        BatchWait::More
    } else {
        BatchWait::Nothing
    }
}

/// Decides what the writer waits for next while it assembles a batch.
pub fn next_wait(batch_len: usize, max_coalesce: usize, coalesce_window: Span) -> (wait: BatchWait)
    ensures
        wait == batch_wait(batch_len as nat, max_coalesce as nat, coalesce_window),
{
    if batch_len == 0 {
        BatchWait::First
    } else if !coalesce_window.is_zero() && max_coalesce > 1 && batch_len < max_coalesce {
        BatchWait::More
    } else {
        BatchWait::Nothing
    }
}

/// The batch cap that a configured cap gives: at least one.
pub fn effective_max_coalesce(max_coalesce: usize) -> (cap: usize)
    ensures
        cap == if max_coalesce == 0 {
            1usize
        } else {
            max_coalesce
        },
{
    if max_coalesce == 0 {
        1
    } else {
        max_coalesce
    }
}

} // verus!
