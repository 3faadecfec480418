//! What a delivery to a sink does from one step to the next.
use vstd::prelude::*;

use crate::durable_sink::{
    Budget, BudgetStep, DeliveryModel, DeliveryRound, DurableAppend, DurableAppendSink,
    DurableSinkApply, DurableSinkCheckpoint, DurableSinkLagPolicy, PartitionDelivery, Queued,
    Ready, RetryDelay, Settled,
};
use crate::error::EngineResult;
use crate::ids::ShardId;
use crate::time::Duration;

verus! {

/// What is charged and released leaves the budget as it was, and in between one item more
/// and its bytes are counted.
pub proof fn charges_are_counted_until_released(
    budget: &mut Budget,
    bytes: usize,
    charged: bool,
    counted: (u64, u64),
    returning: &mut Budget,
)
    requires
        old(budget).pending_items < usize::MAX,
        old(budget).pending_bytes + bytes <= usize::MAX,
        old(budget).wf(),
        call_ensures(Budget::try_reserve, (budget, bytes), charged),
        call_ensures(Budget::snapshot, (final(budget),), counted),
        *old(returning) == *final(budget),
        call_ensures(Budget::release, (returning, bytes), ()),
    ensures
        charged ==> counted.0 == old(budget).pending_items + 1 && counted.1
            == old(budget).pending_bytes + bytes,
        charged ==> *final(returning) == *old(budget),
        !charged ==> *final(budget) == *old(budget),
        charged ==> !old(budget).stopped,
{
}

/// Where there is no room, an append that must not be held up is skipped, one that may is
/// made to wait, and one that nobody will deliver any more is refused; where there is room
/// it is charged, whatever the policy.
pub proof fn full_budgets_follow_their_policy(
    budget: &mut Budget,
    bytes: usize,
    policy: DurableSinkLagPolicy,
    step: BudgetStep,
    trying: &mut Budget,
    charged: bool,
)
    requires
        *old(trying) == *old(budget),
        call_ensures(Budget::reserve, (budget, bytes, policy), step),
        call_ensures(Budget::try_reserve, (trying, bytes), charged),
    ensures
        step is Charged <==> charged,
        *final(budget) == *final(trying),
        !charged && policy == DurableSinkLagPolicy::Availability ==> step is Skipped,
        !charged && policy == DurableSinkLagPolicy::Backpressure ==> (step is Refused
            <==> old(budget).stopped) && (step is Wait <==> !old(budget).stopped),
{
}

/// A stopped budget charges nothing more, and keeps what it counts.
pub proof fn stopped_budgets_charge_nothing(
    budget: &mut Budget,
    later: &mut Budget,
    bytes: usize,
    charged: bool,
)
    requires
        call_ensures(Budget::stop, (budget,), ()),
        *old(later) == *final(budget),
        call_ensures(Budget::try_reserve, (later, bytes), charged),
    ensures
        !charged,
        final(later).pending_items == old(budget).pending_items,
        final(later).pending_bytes == old(budget).pending_bytes,
{
}

/// An append waits exactly if it lies ahead of the checkpoint and its place is free; what
/// waits already is neither replaced nor lost.
pub proof fn appends_wait_once(
    delivery: &mut PartitionDelivery,
    append: DurableAppend,
    queued: Queued,
    other: u128,
)
    requires
        call_ensures(PartitionDelivery::enqueue, (delivery, append), queued),
    ensures
        ({
            let sequence = append.reservation.placement.sequence.0 as u128;
            &&& queued == Queued::Delivered <==> sequence < old(delivery).checkpoint.next_placement_sequence.0
            &&& queued == Queued::Waiting ==> !old(delivery).pending@.contains_key(sequence)
                && final(delivery).pending@.contains_key(sequence)
                && final(delivery).pending@[sequence] == append
            &&& queued == Queued::Repeated ==> old(delivery).pending@[sequence].event_id
                == append.event_id
            &&& queued == Queued::Conflict ==> old(delivery).pending@[sequence].event_id
                != append.event_id
            &&& old(delivery).pending@.contains_key(other) ==> final(delivery).pending@.contains_key(other) && final(delivery).pending@[other]
                == old(delivery).pending@[other]
            &&& final(delivery).checkpoint == old(delivery).checkpoint
        }),
{
}

/// Only the append right behind the checkpoint is applied, to a shard that has a sink, and
/// from that checkpoint to the one behind it; until it is settled, nothing else is touched.
pub proof fn appends_are_applied_in_turn(
    delivery: &mut PartitionDelivery,
    shards: Vec<ShardId>,
    ready: Ready,
    other: u128,
)
    requires
        call_ensures(PartitionDelivery::next_ready, (delivery, &shards), ready),
        other != old(delivery).checkpoint.next_placement_sequence.0,
    ensures
        ready matches Ready::Apply { append, expected, next } ==> {
            let due = old(delivery).checkpoint.next_placement_sequence.0 as u128;
            &&& old(delivery).pending@.contains_key(due)
            &&& append == old(delivery).pending@[due]
            &&& expected == old(delivery).checkpoint
            &&& shards@.contains(append.physical_shard_id)
            &&& next.topic_partition == expected.topic_partition
            &&& next.next_offset.0 == append.reservation.last_offset.0 + 1
            &&& next.next_placement_sequence.0 == expected.next_placement_sequence.0 + 1
        },
        ready is Idle ==> !old(delivery).pending@.contains_key(
            old(delivery).checkpoint.next_placement_sequence.0 as u128,
        ),
        final(delivery).checkpoint == old(delivery).checkpoint,
        final(delivery).pending@.contains_key(other) <==> old(delivery).pending@.contains_key(other),
        old(delivery).pending@.contains_key(other) ==> final(delivery).pending@[other]
            == old(delivery).pending@[other],
{
}

/// An append that the sink applied moves the checkpoint behind it; one that the sink did
/// not apply waits again, and the checkpoint stays.
pub proof fn unapplied_appends_wait_again(
    delivery: &mut PartitionDelivery,
    append: DurableAppend,
    next: DurableSinkCheckpoint,
    outcome: Option<DurableSinkApply>,
    settled: Settled,
)
    requires
        call_ensures(PartitionDelivery::settle, (delivery, append, next, outcome), settled),
    ensures
        outcome == Some(DurableSinkApply::Applied) ==> settled == Settled::Applied
            && final(delivery).checkpoint == next,
        outcome is None ==> settled == Settled::Retry,
        settled == Settled::Retry ==> final(delivery).checkpoint == old(delivery).checkpoint
            && final(delivery).pending@.contains_key(
            append.reservation.placement.sequence.0 as u128,
        ) && final(delivery).pending@[append.reservation.placement.sequence.0 as u128] == append,
        outcome matches Some(DurableSinkApply::CheckpointConflict(actual)) ==> (settled
            == Settled::TookOver ==> final(delivery).checkpoint == actual),
        settled == Settled::TookOver ==> outcome is Some && outcome->0 is CheckpointConflict,
{
}

/// A delivery that fails waits twice as long each time, up to the longest wait, and a
/// round that succeeds ends that.
pub proof fn failing_deliveries_wait_longer(
    delay: &mut RetryDelay,
    failed: bool,
    wait: Duration,
    later: &mut RetryDelay,
    later_failed: bool,
    later_wait: Duration,
    fresh: RetryDelay,
)
    requires
        call_ensures(RetryDelay::new, (), fresh),
        old(delay).wf(),
        call_ensures(RetryDelay::after_round, (delay, failed), wait),
        *old(later) == *final(delay),
        call_ensures(RetryDelay::after_round, (later, later_failed), later_wait),
    ensures
        !failed ==> *final(delay) == fresh,
        !later_failed ==> later_wait.nanos == fresh.nanos,
        failed && later_failed ==> later_wait.nanos == 2 * wait.nanos || (later_wait.nanos
            <= 2 * wait.nanos && later_wait.nanos >= wait.nanos),
{
}

/// A sink never applies anything.
pub open spec fn never_applies<S: DurableAppendSink>(sinks: Seq<(ShardId, S)>) -> bool {
    forall|delivery: DeliveryModel, index: int, answer: EngineResult<DurableSinkApply>| #[trigger]
        delivery.offered(sinks, index, answer) ==> answer is Err
}

/// A round with sinks that fail leaves everything as it was: nothing is lost, the
/// checkpoint stays, and the round failed exactly when an append was due.
pub proof fn failing_sinks_lose_nothing<S: DurableAppendSink>(
    delivery: &mut PartitionDelivery,
    sinks: Vec<(ShardId, S)>,
    round: DeliveryRound,
)
    requires
        call_ensures(PartitionDelivery::process_ready::<S>, (delivery, &sinks), round),
        never_applies(sinks@),
    ensures
        round.applied == 0,
        round.conflicts == 0,
        final(delivery)@ == old(delivery)@,
        round.failed <==> old(delivery)@.pending.contains_key(
            old(delivery)@.checkpoint.next_placement_sequence.0 as u128,
        ),
{
    let from = old(delivery)@;
    let to = final(delivery)@;
    if round.applied + round.conflicts > 0 {
        let before = choose|before: DeliveryModel|
            #[trigger] before.moves(sinks@, to, false) || before.moves(sinks@, to, true);
        let conflict = before.moves(sinks@, to, true);
        let (index, answer) = choose|index: int, answer: DurableSinkApply| #[trigger]
            before.offered(sinks@, index, Ok(answer));
        assert(before.offered(sinks@, index, Ok(answer)));
    }
}

/// Without conflicts, each append that was applied moves the checkpoint by one.
pub proof fn applied_appends_move_the_checkpoint<S: DurableAppendSink>(
    delivery: &mut PartitionDelivery,
    sinks: Vec<(ShardId, S)>,
    round: DeliveryRound,
)
    requires
        call_ensures(PartitionDelivery::process_ready::<S>, (delivery, &sinks), round),
        round.conflicts == 0,
    ensures
        final(delivery)@.checkpoint.next_placement_sequence.0
            == old(delivery)@.checkpoint.next_placement_sequence.0 + round.applied,
        final(delivery)@.checkpoint.topic_partition == old(delivery)@.checkpoint.topic_partition,
{
    lemma_applied(old(delivery)@, sinks@, final(delivery)@, round.applied as nat);
}

proof fn lemma_applied<S: DurableAppendSink>(
    from: DeliveryModel,
    sinks: Seq<(ShardId, S)>,
    to: DeliveryModel,
    applied: nat,
)
    requires
        from.leads_to(sinks, to, applied, 0),
    ensures
        to.checkpoint.next_placement_sequence.0 == from.checkpoint.next_placement_sequence.0
            + applied,
        to.checkpoint.topic_partition == from.checkpoint.topic_partition,
    decreases applied,
{
    if applied > 0 {
        let before = choose|before: DeliveryModel|
            from.leads_to(sinks, before, (applied - 1) as nat, 0) && #[trigger] before.moves(
                sinks,
                to,
                false,
            );
        lemma_applied(from, sinks, before, (applied - 1) as nat);
    }
}

} // verus!
