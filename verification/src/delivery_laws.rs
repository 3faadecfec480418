//! What sinks, followers' lanes and those who wait for them may count on.
use std::collections::VecDeque;
use vstd::prelude::*;

use crate::durable_apply::{
    buffer_obstacle, dispatch_step, partition_worker, responses, DispatchStep,
    DurableApplyConfig, PartitionAdmission,
};
use crate::durable_sink::{
    accepted_groups, answered_so, checkpoint_age_ms, conflict_is_ahead, delivery_of,
    delivery_worker, failed_decisions, process_decisions, settle_decisions, validate_checkpoint,
    wait_step, Budget, DecisionRound, DeliveryModel, DurableAppendDelivery,
    DurableAppendSinkFactory, DurableAtomicDecision, DurableSinkAtomicVisibility,
    DurableSinkCheckpoint, DurableSinkOptions, PartitionDelivery, WaitStep,
};
use crate::engine::ReplicaAppendPlan;
use crate::error::{EngineResult, Fault};
use crate::ids::TopicPartition;
use crate::protocol::{AppendResponse, AtomicGroupIdentity, ReplicaAppend};
use crate::sequencer::Reservation;
use crate::time::Duration;

verus! {

/// A checkpoint is followed exactly by the batch of its partition that starts at its
/// offset with its sequence number, and then points right behind that batch.
pub proof fn checkpoints_follow_the_log(
    checkpoint: DurableSinkCheckpoint,
    reservation: Reservation,
    result: EngineResult<DurableSinkCheckpoint>,
)
    requires
        call_ensures(DurableSinkCheckpoint::after, (checkpoint, reservation), result),
    ensures
        result is Ok <==> {
            &&& reservation.topic_id == checkpoint.topic_partition.topic_id
            &&& reservation.partition_id == checkpoint.topic_partition.partition_id
            &&& reservation.placement.sequence == checkpoint.next_placement_sequence
            &&& reservation.first_offset == checkpoint.next_offset
            &&& reservation.placement.sequence.0 < u64::MAX
            &&& reservation.last_offset.0 < u64::MAX
        },
        result matches Ok(next) ==> {
            &&& next.topic_partition == checkpoint.topic_partition
            &&& next.next_placement_sequence.0 == reservation.placement.sequence.0 + 1
            &&& next.next_offset.0 == reservation.last_offset.0 + 1
        },
        result matches Err(error) ==> error@ is DurableSinkCheckpoint,
{
}

/// A new partition's checkpoint is at the start of the log, and only a partition's own
/// checkpoint is accepted for it.
pub proof fn checkpoints_belong_to_their_partition(
    topic_partition: TopicPartition,
    initial: DurableSinkCheckpoint,
    checkpoint: DurableSinkCheckpoint,
    result: EngineResult<()>,
)
    requires
        call_ensures(DurableSinkCheckpoint::initial, (topic_partition,), initial),
        call_ensures(validate_checkpoint, (topic_partition, &checkpoint), result),
    ensures
        initial.topic_partition == topic_partition,
        initial.next_placement_sequence.0 == 0,
        initial.next_offset.0 == 0,
        result is Ok <==> checkpoint.topic_partition == topic_partition,
        checkpoint == initial ==> result is Ok,
{
}

/// To have come as far as another checkpoint is to have come as far in offsets and in
/// sequence numbers; it goes through, and a checkpoint that was moved on has come as
/// far as before.
pub proof fn reaching_goes_through(
    one: DurableSinkCheckpoint,
    two: DurableSinkCheckpoint,
    three: DurableSinkCheckpoint,
    one_two: bool,
    two_three: bool,
    one_three: bool,
)
    requires
        call_ensures(DurableSinkCheckpoint::reaches, (&one, &two), one_two),
        call_ensures(DurableSinkCheckpoint::reaches, (&two, &three), two_three),
        call_ensures(DurableSinkCheckpoint::reaches, (&one, &three), one_three),
    ensures
        one_two && two_three ==> one_three,
        one == two ==> one_two,
        one.next_offset.0 < two.next_offset.0 ==> !one_two,
        one.next_placement_sequence.0 < two.next_placement_sequence.0 ==> !one_two,
        one.next_offset.0 >= two.next_offset.0 && one.next_placement_sequence.0
            >= two.next_placement_sequence.0 ==> one_two,
{
}

/// Options are accepted exactly when every bound is set, there are no more workers than
/// allowed, the largest batch fits, and the sink can stage groups where only committed
/// ones may show; the byte limit is the options' own, or else the engine's.
pub proof fn sink_options_are_accepted_when_they_fit(
    options: DurableSinkOptions,
    inherited: usize,
    largest: usize,
    stages: bool,
    result: EngineResult<usize>,
)
    requires
        call_ensures(DurableSinkOptions::validate, (&options, inherited, largest, stages), result),
    ensures
        ({
            let limit = match options.max_pending_bytes {
                Some(bytes) => bytes,
                None => inherited,
            };
            &&& result is Ok <==> {
                &&& options.max_pending_items >= 1
                &&& 1 <= options.worker_count <= 256
                &&& options.recovery_timeout.nanos >= 1
                &&& limit >= 1
                &&& limit >= largest
                &&& options.atomic_visibility == DurableSinkAtomicVisibility::CommittedOnly
                    ==> stages
            }
            &&& result is Ok ==> result->Ok_0 == limit
        }),
{
}

/// What waits is within its limits before and after a charge, and a charge is refused
/// exactly when the delivery stopped or the charge would break a limit.
pub proof fn budgets_keep_their_limits(budget: Budget, bytes: usize)
    requires
        budget.wf(),
    ensures
        budget.has_room(bytes) <==> !budget.stopped && budget.pending_items + 1
            <= budget.max_items && budget.pending_bytes + bytes <= budget.max_bytes,
        budget.has_room(bytes) ==> budget.charged(bytes).wf(),
        budget.has_room(bytes) ==> budget.charged(bytes).pending_items == budget.pending_items + 1,
        budget.has_room(bytes) ==> budget.charged(bytes).pending_bytes == budget.pending_bytes
            + bytes,
        budget.charged(bytes).max_items == budget.max_items,
        budget.charged(bytes).max_bytes == budget.max_bytes,
        budget.charged(bytes).stopped == budget.stopped,
{
}

/// A partition has one delivery worker, and it exists.
pub proof fn partitions_have_one_delivery_worker(
    topic_partition: TopicPartition,
    worker_count: usize,
    one: usize,
    other: usize,
)
    requires
        worker_count > 0,
        call_ensures(delivery_worker, (topic_partition, worker_count), one),
        call_ensures(delivery_worker, (topic_partition, worker_count), other),
    ensures
        one == other,
        one < worker_count,
{
}

/// A partition's batches are admitted by one worker, and it exists.
pub proof fn partitions_have_one_admission_worker(
    topic_partition: TopicPartition,
    worker_count: usize,
    one: usize,
    other: usize,
)
    requires
        worker_count > 0,
        call_ensures(partition_worker, (topic_partition, worker_count), one),
        call_ensures(partition_worker, (topic_partition, worker_count), other),
    ensures
        one == other,
        one < worker_count,
{
}

/// Where only committed groups may show, a chunk of a group is always staged; everything
/// else is delivered as it was asked for.
pub proof fn open_groups_are_staged(
    visibility: DurableSinkAtomicVisibility,
    group: Option<AtomicGroupIdentity>,
    requested: DurableAppendDelivery,
    delivery: DurableAppendDelivery,
)
    requires
        call_ensures(delivery_of, (visibility, &group, requested), delivery),
    ensures
        visibility == DurableSinkAtomicVisibility::CommittedOnly && group is Some ==> delivery
            == DurableAppendDelivery::Stage,
        visibility == DurableSinkAtomicVisibility::AllDurable || group is None ==> delivery
            == requested,
{
}

/// Deliveries open at the checkpoint that the sink holds, or at the start of the log,
/// with nothing waiting.
pub proof fn deliveries_open_at_their_checkpoint(
    topic_partition: TopicPartition,
    loaded: Option<DurableSinkCheckpoint>,
    result: EngineResult<PartitionDelivery>,
)
    requires
        call_ensures(PartitionDelivery::open, (topic_partition, loaded), result),
    ensures
        loaded is None ==> result is Ok && result->Ok_0.checkpoint.next_offset.0 == 0
            && result->Ok_0.checkpoint.next_placement_sequence.0 == 0
            && result->Ok_0.checkpoint.topic_partition == topic_partition,
        loaded is Some ==> (result is Ok <==> loaded->0.topic_partition == topic_partition),
        loaded is Some && result is Ok ==> result->Ok_0.checkpoint == loaded->0,
        result is Ok ==> forall|sequence: u128| !#[trigger]
            result->Ok_0.pending@.contains_key(sequence),
{
}

/// Applying the due append moves the checkpoint right behind it and takes exactly it out
/// of what waits; taking over another owner's checkpoint keeps exactly what that owner
/// has not delivered.
pub proof fn deliveries_lose_nothing(
    delivery: DeliveryModel,
    actual: DurableSinkCheckpoint,
    sequence: u128,
)
    requires
        delivery.pending.contains_key(delivery.due()),
        delivery.checkpoint.followed_by(delivery.pending[delivery.due()].reservation) is Ok,
    ensures
        delivery.due() == delivery.checkpoint.next_placement_sequence.0,
        delivery.applied_next().checkpoint.next_placement_sequence.0
            == delivery.checkpoint.next_placement_sequence.0 + 1,
        delivery.applied_next().checkpoint.next_offset.0
            == delivery.pending[delivery.due()].reservation.last_offset.0 + 1,
        delivery.applied_next().pending.contains_key(sequence) <==> delivery.pending.contains_key(
            sequence,
        ) && sequence != delivery.due(),
        sequence != delivery.due() ==> delivery.applied_next().pending[sequence]
            == delivery.pending[sequence],
        delivery.taken_over(actual).checkpoint == actual,
        delivery.taken_over(actual).pending.contains_key(sequence)
            <==> delivery.pending.contains_key(sequence) && sequence
            >= actual.next_placement_sequence.0,
{
}

/// A conflicting checkpoint is believed only from the same partition and only when it is
/// past the append that was being applied.
pub proof fn conflicts_are_believed_only_ahead(
    current: DurableSinkCheckpoint,
    next: DurableSinkCheckpoint,
    actual: DurableSinkCheckpoint,
)
    requires
        conflict_is_ahead(current, next, actual),
    ensures
        actual.topic_partition == current.topic_partition,
        actual.next_offset.0 >= next.next_offset.0,
        actual.next_placement_sequence.0 >= next.next_placement_sequence.0,
        actual.next_offset.0 >= current.next_offset.0,
        actual.next_placement_sequence.0 >= current.next_placement_sequence.0,
{
}

/// Every decision ends in one of two places: it stays if the sink did not take it, and
/// its group is finalized if the sink did; nothing else is in either place, and the
/// round failed exactly when something stays.
pub proof fn decisions_are_kept_until_taken(
    decisions: VecDeque<DurableAtomicDecision>,
    accepted: Vec<bool>,
    round: DecisionRound,
    index: int,
)
    requires
        accepted@.len() == decisions@.len(),
        call_ensures(settle_decisions, (&decisions, &accepted), round),
        0 <= index < decisions@.len(),
    ensures
        !accepted@[index] ==> round.remaining@.contains(decisions@[index]) && round.failed,
        accepted@[index] ==> round.finalized@.contains(decisions@[index].group),
        round.remaining@.len() + round.finalized@.len() == decisions@.len(),
        round.failed <==> round.remaining@.len() > 0,
{
    lemma_decisions(decisions@, accepted@, index);
    if !accepted@[index] {
        let at = choose|at: int|
            0 <= at < round.remaining@.len() && round.remaining@[at] == decisions@[index];
        assert(round.remaining@.len() > 0);
    }
}

/// The sink answers a decision in one way, whatever else happens.
pub open spec fn always_answers<F: DurableAppendSinkFactory>(
    factory: F,
    decisions: Seq<DurableAtomicDecision>,
    taken: bool,
) -> bool {
    forall|i: int, answer: EngineResult<()>|
        0 <= i < decisions.len() && #[trigger] call_ensures(
            F::finalize_atomic_group,
            (&factory, decisions[i]),
            answer,
        ) ==> taken == (answer is Ok)
}

/// Decisions that a sink refuses all stay, in order, and those that it takes all end.
pub proof fn refused_decisions_stay<F: DurableAppendSinkFactory>(
    factory: F,
    decisions: VecDeque<DurableAtomicDecision>,
    round: DecisionRound,
    taken: bool,
)
    requires
        call_ensures(process_decisions::<F>, (&factory, &decisions), round),
        always_answers(factory, decisions@, taken),
    ensures
        !taken ==> round.remaining@ == decisions@ && round.finalized@.len() == 0,
        taken ==> round.remaining@.len() == 0 && round.finalized@.len() == decisions@.len(),
        round.failed <==> !taken && decisions@.len() > 0,
{
    let accepted = choose|accepted: Seq<bool>|
        {
            &&& accepted.len() == decisions@.len()
            &&& forall|i: int|
                0 <= i < accepted.len() ==> answered_so(
                    &factory,
                    decisions@[i],
                    #[trigger] accepted[i],
                )
            &&& round.remaining@ == #[trigger] failed_decisions(decisions@, accepted)
            &&& round.finalized@ == accepted_groups(decisions@, accepted)
        };
    assert forall|i: int| 0 <= i < accepted.len() implies #[trigger] accepted[i] == taken by {
        assert(answered_so(&factory, decisions@[i], accepted[i]));
    }
    lemma_alike(decisions@, accepted, taken);
}

proof fn lemma_alike(decisions: Seq<DurableAtomicDecision>, accepted: Seq<bool>, taken: bool)
    requires
        accepted.len() == decisions.len(),
        forall|i: int| 0 <= i < accepted.len() ==> #[trigger] accepted[i] == taken,
    ensures
        !taken ==> failed_decisions(decisions, accepted) == decisions && accepted_groups(
            decisions,
            accepted,
        ).len() == 0,
        taken ==> failed_decisions(decisions, accepted).len() == 0 && accepted_groups(
            decisions,
            accepted,
        ).len() == decisions.len(),
    decreases decisions.len(),
{
    if decisions.len() > 0 {
        lemma_alike(decisions.drop_last(), accepted.drop_last(), taken);
        assert(decisions.drop_last().push(decisions.last()) =~= decisions);
    } else {
        assert(failed_decisions(decisions, accepted) =~= decisions);
    }
}

proof fn lemma_decisions(
    decisions: Seq<DurableAtomicDecision>,
    accepted: Seq<bool>,
    index: int,
)
    requires
        accepted.len() == decisions.len(),
        0 <= index < decisions.len(),
    ensures
        !accepted[index] ==> failed_decisions(decisions, accepted).contains(decisions[index]),
        accepted[index] ==> accepted_groups(decisions, accepted).contains(decisions[index].group),
        failed_decisions(decisions, accepted).len() + accepted_groups(decisions, accepted).len()
            == decisions.len(),
    decreases decisions.len(),
{
    let failed = failed_decisions(decisions, accepted);
    let taken = accepted_groups(decisions, accepted);
    let earlier_failed = failed_decisions(decisions.drop_last(), accepted.drop_last());
    let earlier_taken = accepted_groups(decisions.drop_last(), accepted.drop_last());
    if decisions.len() > 1 {
        let at = if index < decisions.len() - 1 {
            index
        } else {
            0
        };
        lemma_decisions(decisions.drop_last(), accepted.drop_last(), at);
    } else {
        assert(earlier_failed.len() == 0);
        assert(earlier_taken.len() == 0);
    }
    if index == decisions.len() - 1 {
        if accepted[index] {
            assert(taken[taken.len() - 1] == decisions[index].group);
        } else {
            assert(failed[failed.len() - 1] == decisions[index]);
        }
    } else if accepted[index] {
        let at = choose|at: int|
            0 <= at < earlier_taken.len() && earlier_taken[at] == decisions[index].group;
        assert(taken[at] == decisions[index].group);
    } else {
        let at = choose|at: int|
            0 <= at < earlier_failed.len() && earlier_failed[at] == decisions[index];
        assert(failed[at] == decisions[index]);
    }
}

/// Who waits stops waiting once the goal is reached, whatever else happened; otherwise a
/// stopped worker or an elapsed time ends the wait with an error, and what time is left
/// is waited for.
pub proof fn waits_end_with_their_reason(
    reached: bool,
    stopped: bool,
    remaining: Duration,
    for_decision: bool,
    step: WaitStep,
)
    requires
        call_ensures(wait_step, (reached, stopped, remaining, for_decision), step),
    ensures
        step is Reached <==> reached,
        !reached && (stopped || remaining.nanos == 0) ==> (step matches WaitStep::Failed(error)
            && error@ is DurableSinkUnavailable),
        !reached && !stopped && remaining.nanos > 0 ==> step == WaitStep::Wait(remaining),
{
}

/// The age of a checkpoint is what has passed since it, in whole milliseconds, and zero
/// where nothing is left to deliver.
pub proof fn checkpoint_ages_are_elapsed_time(
    pending_items: u64,
    dirty_partitions: u64,
    elapsed: u64,
    last: u64,
    age: u64,
)
    requires
        call_ensures(checkpoint_age_ms, (pending_items, dirty_partitions, elapsed, last), age),
    ensures
        pending_items == 0 && dirty_partitions == 0 ==> age == 0,
        elapsed <= last ==> age == 0,
        (pending_items > 0 || dirty_partitions > 0) && last < elapsed ==> age * 1_000 <= elapsed
            - last < age * 1_000 + 1_000,
{
}

/// A follower's bounds are accepted exactly when every one of them is at least one.
pub proof fn apply_bounds_are_nonzero(
    config: DurableApplyConfig,
    result: EngineResult<DurableApplyConfig>,
)
    requires
        call_ensures(DurableApplyConfig::validate, (config,), result),
    ensures
        result is Ok <==> config.worker_count >= 1 && config.queue_slots_per_worker >= 1
            && config.max_pending_per_partition >= 1 && config.max_gap_batches >= 1
            && config.max_pending_bytes_per_partition >= 1,
        result is Ok ==> result->Ok_0 == config,
{
}

/// A batch that is not due may wait exactly when it is not too far ahead and there is
/// room for it in batches and bytes, or when the very same batch waits already.
pub proof fn early_batches_wait_within_bounds(
    state: PartitionAdmission,
    config: DurableApplyConfig,
    batch: ReplicaAppend,
)
    requires
        state.wf(config),
        batch.reservation.batch_id.0 > state.next_batch_id,
    ensures
        ({
            let id = batch.reservation.batch_id.0;
            let held = state.pending@.contains_key(id);
            let obstacle = buffer_obstacle(state, config, batch);
            &&& id - state.next_batch_id > config.max_gap_batches ==> (
            obstacle matches Some(Fault::ReplicaReorderLimited { expected, received, .. })
                && expected.0 == state.next_batch_id && received.0 == id)
            &&& !held && obstacle is None ==> {
                &&& id - state.next_batch_id <= config.max_gap_batches
                &&& state.pending@.len() + 1 <= config.max_pending_per_partition
                &&& state.pending_bytes + batch.payload@.len()
                    <= config.max_pending_bytes_per_partition
            }
            &&& !held && id - state.next_batch_id <= config.max_gap_batches
                && state.pending@.len() + 1 <= config.max_pending_per_partition
                && state.pending_bytes + batch.payload@.len()
                <= config.max_pending_bytes_per_partition ==> obstacle is None
            &&& held && (state.pending@[id].batch.payload@ != batch.payload@
                || state.pending@[id].batch.reservation != batch.reservation
                || state.pending@[id].batch.producer != batch.producer
                || state.pending@[id].batch.atomic_group != batch.atomic_group
                || state.pending@[id].batch.payload_digest != batch.payload_digest) ==> obstacle
                is Some
            &&& held && state.pending@[id].batch == batch && id - state.next_batch_id
                <= config.max_gap_batches ==> obstacle is None
        }),
{
}

/// Everybody who waits is told, in order: the same success, or the failure.
pub proof fn everybody_is_told(
    waiters: Vec<u64>,
    result: EngineResult<AppendResponse>,
    told: Vec<(u64, EngineResult<AppendResponse>)>,
    index: int,
)
    requires
        call_ensures(responses, (&waiters, result), told),
        0 <= index < waiters@.len(),
    ensures
        told@.len() == waiters@.len(),
        told@[index].0 == waiters@[index],
        result is Ok ==> told@[index].1 == result,
        result is Err ==> told@[index].1 is Err,
        result is Err && index == 0 ==> told@[0].1 == result,
{
    assert(told@[index].0 == waiters@[index]);
}

/// A batch that is planned goes to its worker, if that exists; a repeated one is
/// confirmed and the next one is due; a refused one is told and stays due.
pub proof fn batches_go_to_their_worker(
    plan: EngineResult<ReplicaAppendPlan>,
    worker_index: usize,
    worker_count: usize,
    step: DispatchStep,
)
    requires
        call_ensures(dispatch_step, (plan, worker_index, worker_count), step),
    ensures
        plan is Err ==> step == (DispatchStep::Tell {
            result: Err(plan->Err_0),
            handed_on: false,
        }),
        plan matches Ok(ReplicaAppendPlan::Duplicate(response)) ==> step == (DispatchStep::Tell {
            result: Ok(response),
            handed_on: true,
        }),
        plan is Ok && plan->Ok_0 is Reserved && worker_index < worker_count ==> step
            == DispatchStep::Send(plan->Ok_0),
        plan is Ok && plan->Ok_0 is Reserved && worker_index >= worker_count ==> step is TakeBack,
{
}

} // verus!
