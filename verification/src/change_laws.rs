//! What the operations that change a partition, a client or a queue do to it.
use vstd::prelude::*;

use crate::append::{AppendDurability, AppendFailure};
use crate::channel::{Budgeted, ByteBoundedChannel, TryRecvError, TrySendError};
use crate::client::{
    AppendPlan, ClientError, Consumer, LogicalConsumer, LogicalTopicBinding, LogicalTopicCursor,
    Producer,
};
use crate::coordinator::CompleteAppend;
use crate::dispatch::{Coordinator, CoordinatorStep};
use crate::engine::{
    cancel_replica_append, finish_replica_append, plan_replica_append, truncate_with_verdict,
    ReplicaAppendPlan,
};
use crate::error::{EngineError, EngineResult, Fault};
use crate::fencing::WriteFenceError;
use crate::ids::{LogicalOffset, RecordId, TopicPartition};
use crate::journal::partition_key;
use crate::log_laws::{completions_settle_one_batch, failures_touch_one_batch};
use crate::partition::BatchStatus;
use crate::protocol::{AppendResponse, ReplicaAppend};

verus! {

/// The partition of a leader's batch.
pub open spec fn home(batch: ReplicaAppend) -> TopicPartition {
    TopicPartition {
        topic_id: batch.reservation.topic_id,
        partition_id: batch.reservation.partition_id,
    }
}

/// A follower records what became of a leader's batch: one that was written counts the
/// copies and the object tier that storage reported, and one that failed is told with
/// storage's own error, and is aborted only if it was surely not written.
pub proof fn followers_record_what_was_written(
    coordinator: &mut Coordinator,
    batch: ReplicaAppend,
    response: AppendResponse,
    written: Result<AppendDurability, AppendFailure>,
    result: EngineResult<AppendResponse>,
)
    requires
        call_ensures(finish_replica_append, (coordinator, &batch, response, written), result),
        old(coordinator)@.contains_key(partition_key(home(batch))),
    ensures
        ({
            let before = old(coordinator)@[partition_key(home(batch))];
            let after = final(coordinator)@[partition_key(home(batch))];
            let id = batch.reservation.batch_id;
            &&& written is Ok && result is Ok ==> {
                let durability = written->Ok_0;
                &&& before.batch(id).status == BatchStatus::Pending
                &&& after.batch(id).status != BatchStatus::Pending
                &&& after.batch(id).status != BatchStatus::Aborted
                &&& after.batch(id).object_durable == durability.object_durable
                &&& after.batch(id).durable_replicas >= durability.durable_replicas
                &&& after.batch(id).record_id == response.record_id
                &&& result->Ok_0.batch_id == response.batch_id
                &&& result->Ok_0.first_offset == response.first_offset
                &&& result->Ok_0.last_offset == response.last_offset
            }
            &&& written is Err ==> result is Err
            &&& written is Err && !written->Err_0.definitely_not_written ==> result == Err::<
                AppendResponse,
                EngineError,
            >(written->Err_0.error) && after.batches == before.batches
            &&& written is Err && written->Err_0.definitely_not_written && before.failing(
                batch.reservation,
                batch.producer,
                true,
            ).1 is Ok ==> result == Err::<AppendResponse, EngineError>(written->Err_0.error)
                && after.batch(id).status == BatchStatus::Aborted
        }),
{
    let before = old(coordinator)@[partition_key(home(batch))];
    match written {
        Ok(durability) => {
            let completion = CompleteAppend {
                reservation: batch.reservation,
                producer: batch.producer,
                payload_digest: batch.payload_digest,
                durable_replicas: durability.durable_replicas,
                object_durable: durability.object_durable,
                response,
            };
            if result is Ok {
                completions_settle_one_batch(before, completion, batch.reservation.batch_id);
            }
        },
        Err(failure) => {
            if before.failing(
                batch.reservation,
                batch.producer,
                failure.definitely_not_written,
            ).1 is Ok {
                failures_touch_one_batch(
                    before,
                    batch.reservation,
                    batch.producer,
                    failure.definitely_not_written,
                    batch.reservation.batch_id,
                );
            }
        },
    }
}

/// A batch that never reached storage is taken back: it is aborted, and its producer has
/// to start a new epoch.
pub proof fn cancelled_batches_are_aborted(
    coordinator: &mut Coordinator,
    batch: ReplicaAppend,
    result: EngineResult<()>,
)
    requires
        call_ensures(cancel_replica_append, (coordinator, &batch), result),
        result is Ok,
    ensures
        ({
            let before = old(coordinator)@[partition_key(home(batch))];
            let after = final(coordinator)@[partition_key(home(batch))];
            &&& old(coordinator)@.contains_key(partition_key(home(batch)))
            &&& before.batch(batch.reservation.batch_id).status == BatchStatus::Pending
            &&& after.batch(batch.reservation.batch_id).status == BatchStatus::Aborted
            &&& batch.producer is Some && before.producers.contains_key(
                batch.producer->0.producer_id,
            ) ==> after.producers[batch.producer->0.producer_id].failed
        }),
{
    failures_touch_one_batch(
        old(coordinator)@[partition_key(home(batch))],
        batch.reservation,
        batch.producer,
        true,
        batch.reservation.batch_id,
    );
}

/// A follower takes nothing that the fence refuses, and says what the fence said.
pub proof fn fenced_batches_are_refused(
    coordinator: &mut Coordinator,
    error: WriteFenceError,
    batch: ReplicaAppend,
    record_id: RecordId,
    result: EngineResult<ReplicaAppendPlan>,
)
    requires
        call_ensures(
            plan_replica_append,
            (coordinator, Some(Err::<(), WriteFenceError>(error)), &batch, record_id),
            result,
        ),
    ensures
        final(coordinator)@ == old(coordinator)@,
        result is Err,
        result->Err_0@ == Fault::Fenced(error@),
{
}

/// A follower that takes a leader's batch holds it in its place until it is written, and
/// answers with that place.
pub proof fn followers_hold_what_they_take(
    coordinator: &mut Coordinator,
    batch: ReplicaAppend,
    record_id: RecordId,
    result: EngineResult<ReplicaAppendPlan>,
)
    requires
        call_ensures(
            plan_replica_append,
            (coordinator, None::<Result<(), WriteFenceError>>, &batch, record_id),
            result,
        ),
        result is Ok,
    ensures
        old(coordinator)@.contains_key(partition_key(home(batch))),
        result->Ok_0 matches ReplicaAppendPlan::Reserved { response, .. } ==> response.batch_id
            == batch.reservation.batch_id && response.first_offset
            == batch.reservation.first_offset && response.last_offset
            == batch.reservation.last_offset && response.record_id == record_id,
        final(coordinator)@[partition_key(home(batch))].sequencer.leader_epoch.0
            >= old(coordinator)@[partition_key(home(batch))].sequencer.leader_epoch.0,
{
}

/// What a retention guard refuses is not truncated, and the guard's error is the answer.
pub proof fn guarded_offsets_are_not_truncated(
    coordinator: &mut Coordinator,
    error: EngineError,
    topic_partition: TopicPartition,
    log_start: LogicalOffset,
    step: CoordinatorStep,
)
    requires
        call_ensures(
            truncate_with_verdict,
            (coordinator, Some(Err::<(), EngineError>(error)), topic_partition, log_start),
            step,
        ),
    ensures
        *final(coordinator) == *old(coordinator),
        step == CoordinatorStep::Reply(Err(error)),
{
}

/// An accepted append moves its producer past the records that it numbered: the next
/// append begins where this one ended, and nothing else about the producer changes.
pub proof fn accepted_appends_move_the_producer(
    producer: &mut Producer,
    payload_len: usize,
    record_count: u32,
    plan: AppendPlan,
    binding: LogicalTopicBinding,
    next_len: usize,
    next_count: u32,
    next: Result<AppendPlan, ClientError>,
)
    requires
        call_ensures(
            Producer::plan_append,
            (old(producer), payload_len, record_count),
            Ok::<AppendPlan, ClientError>(plan),
        ),
        call_ensures(Producer::accept, (producer, plan, binding), ()),
        call_ensures(Producer::plan_append, (final(producer), next_len, next_count), next),
    ensures
        next matches Ok(following) ==> following.first_sequence == plan.first_sequence
            + record_count,
        final(producer).next_sequence == old(producer).next_sequence + record_count,
        final(producer).binding == Some(binding),
        final(producer).producer_id == old(producer).producer_id,
        final(producer).epoch == old(producer).epoch,
        final(producer).topic_id == old(producer).topic_id,
        final(producer).partition_id == old(producer).partition_id,
        final(producer).leader_epoch == old(producer).leader_epoch,
{
}

/// A producer's epoch only grows, and a new epoch numbers its records from zero.
pub proof fn new_epochs_start_over(
    producer: &mut Producer,
    epoch: u32,
    result: Result<(), ClientError>,
)
    requires
        call_ensures(Producer::set_epoch, (producer, epoch), result),
    ensures
        result is Ok <==> epoch > old(producer).epoch,
        result is Ok ==> final(producer).epoch == epoch && final(producer).next_sequence == 0,
        result is Err ==> *final(producer) == *old(producer),
        final(producer).producer_id == old(producer).producer_id,
        final(producer).topic_id == old(producer).topic_id,
        final(producer).partition_id == old(producer).partition_id,
{
}

/// A producer that tries again numbers its records as it did before.
pub proof fn retries_are_numbered_alike(
    producer: &mut Producer,
    first_sequence: u64,
    payload_len: usize,
    record_count: u32,
    plan: Result<AppendPlan, ClientError>,
)
    requires
        call_ensures(Producer::retry_at, (producer, first_sequence), ()),
        call_ensures(Producer::plan_append, (final(producer), payload_len, record_count), plan),
    ensures
        plan matches Ok(numbered) ==> numbered.first_sequence == first_sequence,
        final(producer).producer_id == old(producer).producer_id,
        final(producer).epoch == old(producer).epoch,
{
}

/// A consumer keeps the binding of the fetch that was answered, and reads on from the
/// same partition.
pub proof fn consumers_keep_their_binding(consumer: &mut Consumer, binding: LogicalTopicBinding)
    requires
        call_ensures(Consumer::accept, (consumer, binding), ()),
    ensures
        final(consumer).binding == Some(binding),
        final(consumer).topic_id == old(consumer).topic_id,
        final(consumer).partition_id == old(consumer).partition_id,
{
}

/// A logical consumer moves to the cursor that it got, within the partition that it read;
/// where there is none, or one of another partition, it stays where it is.
pub proof fn cursors_stay_in_their_partition(
    consumer: &mut LogicalConsumer,
    sent: LogicalTopicCursor,
    next: Option<Result<LogicalTopicCursor, String>>,
    binding: LogicalTopicBinding,
    result: Result<(), ClientError>,
)
    requires
        call_ensures(LogicalConsumer::accept, (consumer, &sent, next, binding), result),
    ensures
        result is Ok ==> next == Some(
            Ok::<LogicalTopicCursor, String>(final(consumer).cursor->0),
        ) && final(consumer).cursor is Some && final(consumer).cursor->0.topic_partition
            == sent.topic_partition && final(consumer).binding == Some(binding),
        result is Err ==> *final(consumer) == *old(consumer),
        next is None ==> result is Err,
        next matches Some(Ok(cursor)) && cursor.topic_partition == sent.topic_partition
            ==> result is Ok,
        final(consumer).topic_id == old(consumer).topic_id,
        final(consumer).partition_id == old(consumer).partition_id,
{
}

/// A logical consumer is moved only to a cursor of its own partition that was found good.
pub proof fn consumers_take_their_own_cursors(
    consumer: &mut LogicalConsumer,
    cursor: LogicalTopicCursor,
    checked: Result<(), String>,
    result: Result<(), ClientError>,
)
    requires
        call_ensures(LogicalConsumer::set_cursor, (consumer, cursor, checked), result),
    ensures
        result is Ok <==> checked is Ok && cursor.topic_partition.topic_id
            == old(consumer).topic_id && cursor.topic_partition.partition_id
            == old(consumer).partition_id,
        result is Ok ==> final(consumer).cursor == Some(cursor),
        result is Err ==> *final(consumer) == *old(consumer),
        final(consumer).topic_id == old(consumer).topic_id,
        final(consumer).partition_id == old(consumer).partition_id,
{
}

/// What is sent into an empty queue is what is received from it, under the charge that
/// was paid for it; a queue that has nothing says so.
pub proof fn queues_hand_on_what_was_sent<T>(
    sending: &mut ByteBoundedChannel<T>,
    item: T,
    bytes: usize,
    sent: Result<(), TrySendError<T>>,
    receiving: &mut ByteBoundedChannel<T>,
    received: Result<Budgeted<T>, TryRecvError>,
)
    requires
        call_ensures(ByteBoundedChannel::<T>::try_send, (sending, item, bytes), sent),
        *old(receiving) == *final(sending),
        call_ensures(ByteBoundedChannel::<T>::try_recv, (receiving,), received),
    ensures
        sent is Ok ==> received is Ok,
        sent is Ok && old(sending)@.queue.len() == 0 ==> received->Ok_0.spec_item() == item
            && received->Ok_0.spec_charge() == bytes && final(receiving)@.queue.len() == 0,
        sent is Ok && old(sending)@.queue.len() > 0 ==> received->Ok_0
            == old(sending)@.queue[0] && final(receiving)@.queue.last().spec_item() == item,
        sent is Ok ==> final(receiving)@.used == old(sending)@.used + bytes
            && final(receiving)@.used <= final(receiving)@.max,
        sent is Err ==> final(sending)@.queue == old(sending)@.queue,
        old(sending)@.queue.len() == 0 && sent is Err ==> received is Err,
{
}

/// A queue takes an item exactly when its receiver is there, a slot is free and the bytes
/// are within its budget; otherwise the item comes back.
pub proof fn full_queues_give_items_back<T>(
    channel: &mut ByteBoundedChannel<T>,
    item: T,
    bytes: usize,
    sent: Result<(), TrySendError<T>>,
)
    requires
        call_ensures(ByteBoundedChannel::<T>::try_send, (channel, item, bytes), sent),
    ensures
        ({
            let m = old(channel)@;
            &&& sent is Ok <==> m.receiving && m.queue.len() < m.slots && m.used + bytes <= m.max
            &&& sent is Err ==> final(channel)@ == m
            &&& sent is Err ==> match sent->Err_0 {
                TrySendError::TooLarge { item: returned, .. } => returned == item && bytes > m.max,
                TrySendError::ByteBudget { item: returned, .. } => returned == item && m.used
                    + bytes > m.max,
                TrySendError::Disconnected(returned) => returned == item && !m.receiving,
                TrySendError::Full(returned) => returned == item && m.queue.len() >= m.slots,
            }
        }),
{
}

/// When the receiver leaves, what is queued is dropped with its charge, and what was
/// received stays charged.
pub proof fn closed_queues_keep_what_is_out<T>(channel: &mut ByteBoundedChannel<T>)
    requires
        call_ensures(ByteBoundedChannel::<T>::disconnect_receiver, (channel,), ()),
    ensures
        final(channel)@.queue.len() == 0,
        !final(channel)@.receiving,
        final(channel)@.outstanding() == old(channel)@.outstanding()
            || old(channel)@.outstanding() < 0,
        final(channel)@.max == old(channel)@.max,
        final(channel)@.slots == old(channel)@.slots,
{
}

} // verus!
