//! What a coordinator does for the partitions that it serves.
use vstd::prelude::*;

use crate::coordinator::{dedup_key, CompleteAppend, ReserveOutcome};
use crate::dispatch::{
    Coordinator, CoordinatorCommand, CoordinatorReply, CoordinatorStep, PendingChange,
};
use crate::error::{EngineError, EngineResult, Fault};
use crate::ids::{BatchId, LogicalOffset, LogicalPartitionId, TopicId, TopicPartition};
use crate::journal::partition_key;
use crate::log_laws::{
    completions_keep_the_receipt, completions_settle_one_batch, failures_touch_one_batch,
    new_batches_take_the_next_place, unseen_producers_start_at_zero, Ask,
};
use crate::partition::{
    BatchStatus, FetchBounds, PartitionEpochs, PartitionWatermarks, ProducerProgress,
    VisibilityMode,
};
use crate::protocol::{AppendResponse, AtomicGroupIdentity, PayloadDigest, ProducerIdentity};
use crate::sequencer::Reservation;

verus! {

/// A new batch gets the offsets after all that its partition gave out, as many as it has
/// records, and waits there with its size, digest, producer and group.
pub proof fn coordinators_give_out_the_next_place(
    coordinator: &mut Coordinator,
    topic_partition: TopicPartition,
    request_id: u128,
    producer: Option<ProducerIdentity>,
    atomic_group: Option<AtomicGroupIdentity>,
    record_count: u32,
    payload_bytes: u64,
    payload_digest: PayloadDigest,
    result: EngineResult<ReserveOutcome>,
)
    requires
        old(coordinator).wf(),
        old(coordinator)@.contains_key(partition_key(topic_partition)),
        old(coordinator)@[partition_key(topic_partition)].wf(),
        record_count > 0,
        call_ensures(
            Coordinator::reserve,
            (
                coordinator,
                topic_partition,
                request_id,
                producer,
                atomic_group,
                record_count,
                payload_bytes,
                payload_digest,
            ),
            result,
        ),
        result matches Ok(ReserveOutcome::Reserved { .. }),
    ensures
        ({
            let before = old(coordinator)@[partition_key(topic_partition)];
            let after = final(coordinator)@[partition_key(topic_partition)];
            let reservation = result->Ok_0->reservation;
            let batch = after.batches.last();
            &&& reservation.first_offset == before.watermarks().allocated_end
            &&& reservation.record_count == record_count
            &&& reservation.last_offset.0 == reservation.first_offset.0 + record_count - 1
            &&& after.watermarks().allocated_end.0 == reservation.last_offset.0 + 1
            &&& batch.reservation == reservation
            &&& batch.status == BatchStatus::Pending
            &&& batch.producer == producer
            &&& batch.atomic_group == atomic_group
            &&& batch.payload_bytes == payload_bytes
            &&& batch.payload_digest == Some(payload_digest)
        }),
{
    let ask = Ask {
        request_id,
        producer,
        atomic_group,
        record_count,
        payload_bytes,
        payload_digest,
    };
    new_batches_take_the_next_place(old(coordinator)@[partition_key(topic_partition)], ask);
}

/// A producer that a partition never saw starts at zero; any other start is refused as out
/// of order, and the partition stays as it is.
pub proof fn coordinators_start_producers_at_zero(
    coordinator: &mut Coordinator,
    topic_partition: TopicPartition,
    request_id: u128,
    claim: ProducerIdentity,
    atomic_group: Option<AtomicGroupIdentity>,
    record_count: u32,
    payload_bytes: u64,
    payload_digest: PayloadDigest,
    result: EngineResult<ReserveOutcome>,
)
    requires
        old(coordinator)@.contains_key(partition_key(topic_partition)),
        old(coordinator)@[partition_key(topic_partition)].batches.len() < usize::MAX,
        !old(coordinator)@[partition_key(topic_partition)].producers.contains_key(
            claim.producer_id,
        ),
        claim.first_sequence != 0,
        call_ensures(
            Coordinator::reserve,
            (
                coordinator,
                topic_partition,
                request_id,
                Some(claim),
                atomic_group,
                record_count,
                payload_bytes,
                payload_digest,
            ),
            result,
        ),
    ensures
        result is Err,
        result->Err_0@ == (Fault::ProducerSequenceOutOfOrder {
            producer_id: claim.producer_id,
            expected: 0,
            received: claim.first_sequence,
        }),
        final(coordinator)@[partition_key(topic_partition)] == old(coordinator)@[partition_key(
            topic_partition,
        )],
{
    let ask = Ask {
        request_id,
        producer: Some(claim),
        atomic_group,
        record_count,
        payload_bytes,
        payload_digest,
    };
    unseen_producers_start_at_zero(
        old(coordinator)@[partition_key(topic_partition)],
        ask,
        claim,
    );
}

/// A finished append settles its batch with the copies that it was told, keeps its receipt
/// for its producer, and tells how far the partition is stable.
pub proof fn coordinators_settle_finished_appends(
    coordinator: &mut Coordinator,
    topic_partition: TopicPartition,
    completion: CompleteAppend,
    result: EngineResult<AppendResponse>,
)
    requires
        call_ensures(Coordinator::complete, (coordinator, topic_partition, completion), result),
        result is Ok,
    ensures
        ({
            let after = final(coordinator)@[partition_key(topic_partition)];
            let batch = after.batch(completion.reservation.batch_id);
            &&& old(coordinator)@.contains_key(partition_key(topic_partition))
            &&& batch.status == BatchStatus::Committed || batch.status == BatchStatus::Unresolved
            &&& batch.object_durable == completion.object_durable
            &&& batch.durable_replicas >= completion.durable_replicas
            &&& result->Ok_0.batch_id == completion.response.batch_id
            &&& result->Ok_0.first_offset == completion.response.first_offset
            &&& result->Ok_0.visible_through == after.watermarks().last_stable_offset
            &&& completion.producer matches Some(claim) ==> after.dedup.contains_key(
                dedup_key(claim),
            ) && after.dedup[dedup_key(claim)].response == result->Ok_0
        }),
{
    let m = old(coordinator)@[partition_key(topic_partition)];
    completions_settle_one_batch(m, completion, completion.reservation.batch_id);
    completions_keep_the_receipt(m, completion);
}

/// A failed append is aborted only where it was surely not written.
pub proof fn coordinators_abort_only_what_was_not_written(
    coordinator: &mut Coordinator,
    topic_partition: TopicPartition,
    reservation: Reservation,
    producer: Option<ProducerIdentity>,
    definitely_not_written: bool,
    result: EngineResult<()>,
)
    requires
        call_ensures(
            Coordinator::fail,
            (coordinator, topic_partition, reservation, producer, definitely_not_written),
            result,
        ),
        result is Ok,
    ensures
        ({
            let before = old(coordinator)@[partition_key(topic_partition)];
            let after = final(coordinator)@[partition_key(topic_partition)];
            &&& definitely_not_written ==> after.batch(reservation.batch_id).status
                == BatchStatus::Aborted
            &&& !definitely_not_written ==> after.batches == before.batches
            &&& producer is Some && before.producers.contains_key(producer->0.producer_id)
                ==> after.producers[producer->0.producer_id].failed
        }),
{
    failures_touch_one_batch(
        old(coordinator)@[partition_key(topic_partition)],
        reservation,
        producer,
        definitely_not_written,
        reservation.batch_id,
    );
}

/// A fetch sees what the watermarks say: to the end of what is finished, to the stable end,
/// or to the end of what is both stable and replicated. It is refused exactly below the
/// start of the log.
pub proof fn fetches_see_what_the_watermarks_say(
    coordinator: Coordinator,
    topic_partition: TopicPartition,
    start_offset: LogicalOffset,
    bounds: EngineResult<FetchBounds>,
    watermarks: EngineResult<PartitionWatermarks>,
)
    requires
        call_ensures(
            Coordinator::fetch_snapshot,
            (&coordinator, topic_partition, start_offset),
            bounds,
        ),
        call_ensures(Coordinator::watermarks, (&coordinator, topic_partition), watermarks),
    ensures
        watermarks is Err ==> bounds is Err && bounds->Err_0@ == watermarks->Err_0@,
        watermarks matches Ok(marks) ==> {
            &&& bounds is Ok <==> marks.log_start.0 <= start_offset.0
            &&& bounds matches Ok(ends) ==> ends.physical_end == marks.contiguous_log_end
                && ends.ordered_end == marks.last_stable_offset && ends.replicated_end.0 == (
            if marks.replicated_high_watermark.0 < marks.last_stable_offset.0 {
                marks.replicated_high_watermark.0
            } else {
                marks.last_stable_offset.0
            })
            &&& bounds is Err ==> bounds->Err_0@ == (Fault::OffsetOutOfRange {
                requested: start_offset,
                log_start: marks.log_start,
            })
        },
{
}

/// A follower's next batch is the one that the leader's next place would have, and the
/// epochs that a partition tells are those of its present ring and leader.
pub proof fn partitions_tell_where_they_stand(
    coordinator: Coordinator,
    topic_partition: TopicPartition,
    producer_id: u128,
    next: EngineResult<BatchId>,
    epochs: EngineResult<PartitionEpochs>,
    progress: EngineResult<Option<ProducerProgress>>,
    policy: EngineResult<crate::config::PartitionReplicationPolicy>,
)
    requires
        coordinator@.contains_key(partition_key(topic_partition)),
        call_ensures(Coordinator::replica_next_batch, (&coordinator, topic_partition), next),
        call_ensures(Coordinator::partition_epochs, (&coordinator, topic_partition), epochs),
        call_ensures(
            Coordinator::producer_progress,
            (&coordinator, topic_partition, producer_id),
            progress,
        ),
        call_ensures(Coordinator::replication_policy, (&coordinator, topic_partition), policy),
    ensures
        ({
            let m = coordinator@[partition_key(topic_partition)];
            &&& next is Ok
            &&& next->Ok_0 == m.sequencer.reserved(1).batch_id
            &&& epochs is Ok
            &&& epochs->Ok_0.leader_epoch == m.sequencer.leader_epoch
            &&& epochs->Ok_0.ring_epoch == m.sequencer.ring_epoch
            &&& policy is Ok
            &&& policy->Ok_0 == m.policy
            &&& progress is Ok
            &&& progress->Ok_0 is Some <==> m.producers.contains_key(producer_id)
            &&& progress->Ok_0 matches Some(told) ==> told.next_sequence
                == m.producers[producer_id].next_sequence && told.epoch
                == m.producers[producer_id].epoch
        }),
{
}

/// Whoever asks about a batch that was appended gets the receipt that its append got.
pub proof fn receipts_are_found_again(
    coordinator: &mut Coordinator,
    topic_partition: TopicPartition,
    completion: CompleteAppend,
    response: AppendResponse,
    found: EngineResult<Option<AppendResponse>>,
)
    requires
        completion.producer is Some,
        call_ensures(
            Coordinator::complete,
            (coordinator, topic_partition, completion),
            Ok::<AppendResponse, EngineError>(response),
        ),
        call_ensures(
            Coordinator::idempotent_receipt,
            (final(coordinator), topic_partition, completion.producer->0),
            found,
        ),
    ensures
        found == Ok::<Option<AppendResponse>, EngineError>(Some(response)),
{
    let m = old(coordinator)@[partition_key(topic_partition)];
    completions_keep_the_receipt(m, completion);
}

/// A reader is let through at once exactly when what it waits for is visible in its mode.
pub proof fn waits_are_for_what_is_not_visible(
    coordinator: &mut Coordinator,
    topic_partition: TopicPartition,
    through: LogicalOffset,
    mode: VisibilityMode,
    waiter: u64,
    result: EngineResult<bool>,
    watermarks: EngineResult<PartitionWatermarks>,
)
    requires
        call_ensures(
            Coordinator::wait_until_visible,
            (coordinator, topic_partition, through, mode, waiter),
            result,
        ),
        call_ensures(Coordinator::watermarks, (old(coordinator), topic_partition), watermarks),
    ensures
        result is Ok <==> watermarks is Ok,
        result == Ok::<bool, EngineError>(true) ==> final(coordinator)@ == old(coordinator)@,
        watermarks matches Ok(marks) ==> {
            &&& mode == VisibilityMode::Ordered ==> result->Ok_0 == (marks.last_stable_offset.0
                >= through.0)
            &&& mode == VisibilityMode::Replicated ==> result->Ok_0 == (
            marks.replicated_high_watermark.0 >= through.0 && marks.last_stable_offset.0
                >= through.0)
        },
{
    if result == Ok::<bool, EngineError>(true) {
        assert(final(coordinator)@ =~= old(coordinator)@);
    }
}

/// Waits that ended are handed out once.
pub proof fn ended_waits_are_handed_out_once(
    coordinator: &mut Coordinator,
    topic_partition: TopicPartition,
    ready: Vec<u64>,
    again: &mut Coordinator,
    more: Vec<u64>,
)
    requires
        call_ensures(Coordinator::take_ready, (coordinator, topic_partition), ready),
        *old(again) == *final(coordinator),
        call_ensures(Coordinator::take_ready, (again, topic_partition), more),
    ensures
        old(coordinator)@.contains_key(partition_key(topic_partition)) ==> ready@
            == old(coordinator)@[partition_key(topic_partition)].ready,
        !old(coordinator)@.contains_key(partition_key(topic_partition)) ==> ready@.len() == 0,
        more@.len() == 0,
{
}

/// A change that the journal could not keep is not made, and the journal's error is the
/// answer.
pub proof fn unkept_changes_are_not_made(
    coordinator: &mut Coordinator,
    error: EngineError,
    result: EngineResult<CoordinatorReply>,
)
    requires
        call_ensures(
            Coordinator::journaled,
            (coordinator, Err::<(), EngineError>(error)),
            result,
        ),
    ensures
        final(coordinator)@ == old(coordinator)@,
        final(coordinator).pending is None,
        result == Err::<CoordinatorReply, EngineError>(error),
{
}

/// A change that the journal kept is made, and answered with what became of it: a
/// truncation with the watermarks from the new start of the log on, and an outcome with
/// the group that has it.
pub proof fn kept_changes_are_answered(
    coordinator: &mut Coordinator,
    result: EngineResult<CoordinatorReply>,
)
    requires
        old(coordinator).pending is Some,
        call_ensures(
            Coordinator::journaled,
            (coordinator, Ok::<(), EngineError>(())),
            result,
        ),
    ensures
        final(coordinator).pending is None,
        old(coordinator).pending->0 matches PendingChange::Truncate { topic_partition, log_start }
            ==> {
            let marks = final(coordinator)@[partition_key(topic_partition)].watermarks();
            &&& marks.log_start == log_start
            &&& result == Ok::<CoordinatorReply, EngineError>(CoordinatorReply::Watermarks(marks))
        },
        old(coordinator).pending->0 matches PendingChange::Finalize { outcome, .. } ==> (result
            is Ok ==> (result->Ok_0 matches CoordinatorReply::Group(group) && group.state
            == outcome)),
        old(coordinator).pending->0 matches PendingChange::Policy {
            topic_partition,
            replication_policy,
        } ==> result == Ok::<CoordinatorReply, EngineError>(CoordinatorReply::Done)
            && final(coordinator)@[partition_key(topic_partition)].policy == replication_policy,
        old(coordinator).pending->0 matches PendingChange::Create {
            topic_partition,
            replication_policy,
            ..
        } ==> result == Ok::<CoordinatorReply, EngineError>(CoordinatorReply::Done)
            && final(coordinator)@.contains_key(partition_key(topic_partition))
            && final(coordinator)@[partition_key(topic_partition)].policy == replication_policy,
        old(coordinator).pending->0 matches PendingChange::Reconfigure {
            topic_partition,
            ring_epoch,
            shards,
        } ==> final(coordinator)@[partition_key(topic_partition)].sequencer.ring_epoch
            == ring_epoch && final(coordinator)@[partition_key(
            topic_partition,
        )].sequencer.virtual_lanes == shards@,
{
}

/// A command for a new batch does what asking for its place does.
pub proof fn commands_reserve_places(
    commanded: &mut Coordinator,
    asked: &mut Coordinator,
    topic_partition: TopicPartition,
    request_id: u128,
    producer: Option<ProducerIdentity>,
    atomic_group: Option<AtomicGroupIdentity>,
    record_count: u32,
    payload_bytes: u64,
    payload_digest: PayloadDigest,
    step: CoordinatorStep,
    result: EngineResult<ReserveOutcome>,
)
    requires
        *old(commanded) == *old(asked),
        call_ensures(
            Coordinator::decide,
            (
                commanded,
                (CoordinatorCommand::Reserve {
                    topic_partition,
                    request_id,
                    producer,
                    atomic_group,
                    record_count,
                    payload_bytes,
                    payload_digest,
                }),
            ),
            step,
        ),
        call_ensures(
            Coordinator::reserve,
            (
                asked,
                topic_partition,
                request_id,
                producer,
                atomic_group,
                record_count,
                payload_bytes,
                payload_digest,
            ),
            result,
        ),
    ensures
        final(commanded)@ == final(asked)@,
        result matches Ok(outcome) ==> step == CoordinatorStep::Reply(
            Ok(CoordinatorReply::Outcome(outcome)),
        ),
        result matches Err(error) ==> (step matches CoordinatorStep::Reply(Err(told)) && told@
            == error@),
{
}

/// A command about a finished or failed append does what telling its outcome does.
pub proof fn commands_tell_outcomes(
    commanded: &mut Coordinator,
    asked: &mut Coordinator,
    topic_partition: TopicPartition,
    completion: CompleteAppend,
    step: CoordinatorStep,
    result: EngineResult<AppendResponse>,
)
    requires
        *old(commanded) == *old(asked),
        call_ensures(
            Coordinator::decide,
            (commanded, (CoordinatorCommand::Complete { topic_partition, completion })),
            step,
        ),
        call_ensures(Coordinator::complete, (asked, topic_partition, completion), result),
    ensures
        final(commanded)@ == final(asked)@,
        result matches Ok(response) ==> step == CoordinatorStep::Reply(
            Ok(CoordinatorReply::Response(response)),
        ),
        result is Err ==> (step matches CoordinatorStep::Reply(Err(told)) && told@
            == result->Err_0@),
{
}

/// A command that asks about a partition is answered with what the partition tells.
pub proof fn commands_ask_questions(
    commanded: &mut Coordinator,
    topic_partition: TopicPartition,
    start_offset: LogicalOffset,
    producer_id: u128,
    claim: ProducerIdentity,
    command: CoordinatorCommand,
    step: CoordinatorStep,
    bounds: EngineResult<FetchBounds>,
    watermarks: EngineResult<PartitionWatermarks>,
    progress: EngineResult<Option<ProducerProgress>>,
    receipt: EngineResult<Option<AppendResponse>>,
    epochs: EngineResult<PartitionEpochs>,
    next: EngineResult<BatchId>,
)
    requires
        call_ensures(Coordinator::decide, (commanded, command), step),
        call_ensures(
            Coordinator::fetch_snapshot,
            (old(commanded), topic_partition, start_offset),
            bounds,
        ),
        call_ensures(Coordinator::watermarks, (old(commanded), topic_partition), watermarks),
        call_ensures(
            Coordinator::producer_progress,
            (old(commanded), topic_partition, producer_id),
            progress,
        ),
        call_ensures(
            Coordinator::idempotent_receipt,
            (old(commanded), topic_partition, claim),
            receipt,
        ),
        call_ensures(Coordinator::partition_epochs, (old(commanded), topic_partition), epochs),
        call_ensures(Coordinator::replica_next_batch, (old(commanded), topic_partition), next),
    ensures
        command == (CoordinatorCommand::FetchSnapshot { topic_partition, start_offset }) && bounds
            is Ok ==> step == CoordinatorStep::Reply(Ok(CoordinatorReply::Bounds(bounds->Ok_0))),
        command == (CoordinatorCommand::Watermarks { topic_partition }) && watermarks is Ok
            ==> step == CoordinatorStep::Reply(
            Ok(CoordinatorReply::Watermarks(watermarks->Ok_0)),
        ),
        command == (CoordinatorCommand::ProducerProgress { topic_partition, producer_id })
            && progress is Ok ==> step == CoordinatorStep::Reply(
            Ok(CoordinatorReply::Progress(progress->Ok_0)),
        ),
        command == (CoordinatorCommand::IdempotentReceipt { topic_partition, producer: claim })
            && receipt is Ok ==> step == CoordinatorStep::Reply(
            Ok(CoordinatorReply::Receipt(receipt->Ok_0)),
        ),
        command == (CoordinatorCommand::PartitionEpochs { topic_partition }) && epochs is Ok
            ==> step == CoordinatorStep::Reply(Ok(CoordinatorReply::Epochs(epochs->Ok_0))),
        command == (CoordinatorCommand::ReplicaNextBatch { topic_partition }) && next is Ok
            ==> step == CoordinatorStep::Reply(Ok(CoordinatorReply::NextBatch(next->Ok_0))),
        command == (CoordinatorCommand::FetchSnapshot { topic_partition, start_offset }) && bounds
            is Err ==> (step matches CoordinatorStep::Reply(Err(told)) && told@
            == bounds->Err_0@),
        command == (CoordinatorCommand::Watermarks { topic_partition }) && watermarks is Err ==> (
        step matches CoordinatorStep::Reply(Err(told)) && told@ == watermarks->Err_0@),
{
}

/// Of a topic exactly its partitions are listed, each once.
pub proof fn topics_list_their_partitions(
    coordinator: Coordinator,
    topic_id: TopicId,
    of_topic: Vec<LogicalPartitionId>,
    all: Vec<TopicPartition>,
    id: LogicalPartitionId,
)
    requires
        call_ensures(Coordinator::topic_partitions, (&coordinator, topic_id), of_topic),
        call_ensures(Coordinator::all_partitions, (&coordinator,), all),
    ensures
        of_topic@.contains(id) <==> all@.contains(TopicPartition { topic_id, partition_id: id }),
        of_topic@.no_duplicates(),
        all@.no_duplicates(),
{
}

} // verus!
