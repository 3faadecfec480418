//! What a refused request is told, and that it leaves everything as it was.
use vstd::prelude::*;

use crate::config::PartitionReplicationPolicy;
use crate::coordinator::{dedup_key, ReserveOutcome};
use crate::dispatch::{Coordinator, CoordinatorReply, CoordinatorStep};
use crate::error::{EngineError, EngineResult, Fault};
use crate::ids::{BatchId, RingEpoch, ShardId, TopicPartition};
use crate::journal::partition_key;
use crate::log_laws::Ask;
use crate::partition::{AtomicGroupInspection, AtomicGroupState, BatchRuntime, PartitionModel};
use crate::protocol::ProducerIdentity;
use crate::sequencer::SequencerError;
use crate::text::decimal;

verus! {

/// A batch that its producer offers again is told apart by its payload, its event and its
/// count of records: the same batch gets the receipt of its first append, under the number
/// of the new request, and another one is refused. Neither changes the log.
pub proof fn repeated_batches_are_told_apart(m: PartitionModel, ask: Ask, claim: ProducerIdentity)
    requires
        ask.producer == Some(claim),
        m.producers.contains_key(claim.producer_id),
        m.producers[claim.producer_id].epoch == claim.epoch,
        m.dedup.contains_key(dedup_key(claim)),
    ensures
        ({
            let kept = m.dedup[dedup_key(claim)];
            let same = kept.digest_algorithm == 1 && kept.payload_digest == ask.payload_digest
                && kept.event_id == claim.event_id && kept.record_count == ask.record_count;
            &&& ask.asked(m).0 == m
            &&& !same ==> ask.asked(m).1 == Err::<ReserveOutcome, Fault>(
                Fault::DuplicateSequenceMismatch(claim.producer_id),
            )
            &&& same ==> (ask.asked(m).1 matches Ok(
                ReserveOutcome::Duplicate {
                    response,
                    durable_replicas,
                    object_durable,
                    replication_policy,
                },
            ) && response.request_id == ask.request_id && response.batch_id
                == kept.response.batch_id && response.record_id == kept.response.record_id
                && response.first_offset == kept.response.first_offset && response.last_offset
                == kept.response.last_offset && response.placement == kept.response.placement
                && response.visible_through == kept.response.visible_through && durable_replicas
                == kept.durable_replicas && object_durable == kept.object_durable
                && replication_policy == m.policy)
        }),
{
}

/// A ring that is not newer than the present one is refused with both epochs; a newer and
/// valid one waits for the journal.
pub proof fn stale_rings_are_refused(
    coordinator: &mut Coordinator,
    topic_partition: TopicPartition,
    ring_epoch: RingEpoch,
    shards: Vec<ShardId>,
    step: CoordinatorStep,
)
    requires
        call_ensures(
            Coordinator::reconfigure,
            (coordinator, topic_partition, ring_epoch, shards),
            step,
        ),
        old(coordinator)@.contains_key(partition_key(topic_partition)),
    ensures
        ({
            let present = old(coordinator)@[partition_key(topic_partition)].sequencer.ring_epoch;
            &&& ring_epoch.0 <= present.0 ==> (step matches CoordinatorStep::Reply(Err(error))
                && error@ == Fault::Sequencer(
                SequencerError::StaleRingEpoch { current: present, proposed: ring_epoch },
            ))
            &&& step is Journal ==> ring_epoch.0 > present.0 && shards@.len() > 0
            &&& step is Journal <==> final(coordinator).pending is Some
        }),
        final(coordinator)@ == old(coordinator)@,
{
}

proof fn lemma_shortage_is_short(batches: Seq<BatchRuntime>, replicas: u32)
    ensures
        PartitionModel::first_shortage(batches, replicas) < replicas
            || PartitionModel::first_shortage(batches, replicas) == 0,
    decreases batches.len(),
{
    if batches.len() > 0 {
        lemma_shortage_is_short(batches.skip(1), replicas);
    }
}

/// A policy for which there are not enough copies is refused with the copies that it asks
/// for and fewer that there are; one whose generation is not the expected one is fenced.
pub proof fn refused_policies_say_what_is_short(
    coordinator: &mut Coordinator,
    topic_partition: TopicPartition,
    expected: u64,
    policy: PartitionReplicationPolicy,
    step: CoordinatorStep,
)
    requires
        call_ensures(
            Coordinator::update_replication_policy,
            (coordinator, topic_partition, expected, policy),
            step,
        ),
        old(coordinator)@.contains_key(partition_key(topic_partition)),
    ensures
        ({
            let present = old(coordinator)@[partition_key(topic_partition)].policy;
            &&& policy == present ==> step == CoordinatorStep::Reply(Ok(CoordinatorReply::Done))
            &&& policy != present && expected != present.policy_generation ==> (
            step matches CoordinatorStep::Reply(Err(error)) && error@ is Fenced)
            &&& step is Journal ==> policy != present && expected == present.policy_generation
                && policy.policy_generation > expected
            &&& step matches CoordinatorStep::Reply(Err(error)) ==> (
            error@ matches Fault::DurabilityUnavailable { required_replicas, durable_replicas }
                ==> required_replicas == policy.min_in_sync_replicas && (durable_replicas
                < required_replicas || durable_replicas == 0))
        }),
        final(coordinator)@ == old(coordinator)@,
{
    let m = old(coordinator)@[partition_key(topic_partition)];
    assert forall|batches: Seq<BatchRuntime>| #[trigger]
        PartitionModel::first_shortage(batches, policy.min_in_sync_replicas)
            < policy.min_in_sync_replicas || PartitionModel::first_shortage(
            batches,
            policy.min_in_sync_replicas,
        ) == 0 by {
        lemma_shortage_is_short(batches, policy.min_in_sync_replicas);
    }
}

proof fn lemma_short_chunk(
    m: PartitionModel,
    transaction_id: u128,
    ids: Seq<u128>,
    outcome: AtomicGroupState,
)
    ensures
        m.group_obstacle(transaction_id, ids, outcome) matches Some(
            Fault::DurabilityUnavailable { required_replicas, durable_replicas },
        ) ==> outcome == AtomicGroupState::Committed && required_replicas
            == m.policy.min_in_sync_replicas && durable_replicas < required_replicas && exists|
            i: int,
        |
            0 <= i < ids.len() && m.batch(BatchId(#[trigger] ids[i])).durable_replicas
                == durable_replicas,
    decreases ids.len(),
{
    if ids.len() > 0 {
        lemma_short_chunk(m, transaction_id, ids.skip(1), outcome);
        match m.chunk_obstacle(transaction_id, ids[0], outcome) {
            Some(_) => {
                assert(m.batch(BatchId(ids[0])).durable_replicas == m.batch(
                    BatchId(ids[0]),
                ).durable_replicas);
            },
            None => {
                if let Some(Fault::DurabilityUnavailable { durable_replicas, .. }) =
                    m.group_obstacle(transaction_id, ids.skip(1), outcome) {
                    let i = choose|i: int|
                        0 <= i < ids.skip(1).len() && m.batch(
                            BatchId(#[trigger] ids.skip(1)[i]),
                        ).durable_replicas == durable_replicas;
                    assert(ids[i + 1] == ids.skip(1)[i]);
                }
            },
        }
    }
}

/// A group gets one outcome: who asks for the same again is shown the group, who asks for
/// the other one is refused. A group that cannot be committed for want of copies is refused
/// with the copies that are asked for and those that a chunk of it has; an abort needs no
/// copies.
pub proof fn groups_get_one_outcome(
    coordinator: &mut Coordinator,
    topic_partition: TopicPartition,
    transaction_id: u128,
    outcome: AtomicGroupState,
    step: CoordinatorStep,
    inspection: EngineResult<AtomicGroupInspection>,
)
    requires
        call_ensures(
            Coordinator::finalize_atomic_group,
            (coordinator, topic_partition, transaction_id, outcome),
            step,
        ),
        call_ensures(
            Coordinator::inspect_atomic_group,
            (old(coordinator), topic_partition, transaction_id),
            inspection,
        ),
        old(coordinator)@.contains_key(partition_key(topic_partition)),
        outcome != AtomicGroupState::Unresolved,
    ensures
        ({
            let m = old(coordinator)@[partition_key(topic_partition)];
            let known = m.groups.contains_key(transaction_id);
            let state = m.groups[transaction_id].state;
            &&& !known ==> (step matches CoordinatorStep::Reply(Err(error)) && error@
                == Fault::UnknownAtomicGroup(transaction_id))
            &&& known && state == outcome && inspection is Ok ==> step == CoordinatorStep::Reply(
                Ok(CoordinatorReply::Group(inspection->Ok_0)),
            )
            &&& known && state != outcome && state != AtomicGroupState::Unresolved ==> (
            step matches CoordinatorStep::Reply(Err(error)) && error@
                == Fault::AtomicGroupFinalized(transaction_id))
            &&& step is Journal ==> known && state == AtomicGroupState::Unresolved
            &&& known && state == AtomicGroupState::Unresolved && (
            step matches CoordinatorStep::Reply(Err(error)) && (
            error@ matches Fault::DurabilityUnavailable { required_replicas, durable_replicas }
                && true)) ==> outcome == AtomicGroupState::Committed
        }),
        final(coordinator)@ == old(coordinator)@,
{
    let m = old(coordinator)@[partition_key(topic_partition)];
    lemma_short_chunk(m, transaction_id, m.groups[transaction_id].batch_ids, outcome);
}

/// A commit that is refused for want of copies names the partition's requirement and what
/// one of the group's chunks has.
pub proof fn short_groups_are_told(m: PartitionModel, transaction_id: u128, outcome: AtomicGroupState)
    requires
        m.groups.contains_key(transaction_id),
        m.groups[transaction_id].state == AtomicGroupState::Unresolved,
    ensures
        m.finalizing(transaction_id, outcome) matches Err(
            Fault::DurabilityUnavailable { required_replicas, durable_replicas },
        ) ==> outcome == AtomicGroupState::Committed && required_replicas
            == m.policy.min_in_sync_replicas && durable_replicas < required_replicas && exists|
            i: int,
        |
            0 <= i < m.groups[transaction_id].batch_ids.len() && m.batch(
                BatchId(#[trigger] m.groups[transaction_id].batch_ids[i]),
            ).durable_replicas == durable_replicas,
{
    lemma_short_chunk(m, transaction_id, m.groups[transaction_id].batch_ids, outcome);
}

/// The copies of a finished batch are the leader's and those that were acknowledged before
/// it finished; an aborted batch has none.
pub proof fn leaders_count_as_copies(
    m: PartitionModel,
    completion: crate::coordinator::CompleteAppend,
    producer: Option<ProducerIdentity>,
)
    ensures
        m.completing(completion).1 is Ok ==> {
            let before = m.batch(completion.reservation.batch_id);
            let after = m.completing(completion).0.batch(completion.reservation.batch_id);
            after.replica_acks == before.replica_acks | 1
        },
        m.failing(completion.reservation, producer, true).1 is Ok ==> {
            let after = m.failing(completion.reservation, producer, true).0.batch(
                completion.reservation.batch_id,
            );
            after.replica_acks == 0 && after.durable_replicas == 0
        },
{
}

/// A text ends with another.
pub open spec fn ends_with(text: Seq<char>, end: Seq<char>) -> bool {
    end.len() <= text.len() && text.skip(text.len() - end.len()) == end
}

/// A failure's message ends with what the caller needs to go on: where the log starts, what
/// was received in place of what was expected, which epoch is current, how many copies
/// there are, which partition is not known, or the reason in words.
pub proof fn messages_end_with_what_matters(error: EngineError, text: String)
    requires
        call_ensures(EngineError::message, (&error,), text),
    ensures
        error matches EngineError::OffsetOutOfRange { log_start, .. } ==> ends_with(
            text@,
            decimal(log_start.0 as nat),
        ),
        error matches EngineError::ProducerSequenceOutOfOrder { received, .. } ==> ends_with(
            text@,
            decimal(received as nat),
        ),
        error matches EngineError::AtomicGroupSequenceOutOfOrder { received, .. } ==> ends_with(
            text@,
            decimal(received as nat),
        ),
        error matches EngineError::StaleProducerEpoch { current, .. } ==> ends_with(
            text@,
            decimal(current as nat),
        ),
        error matches EngineError::DurabilityUnavailable { durable_replicas, .. } ==> ends_with(
            text@,
            decimal(durable_replicas as nat),
        ),
        error matches EngineError::UnknownPartition { partition_id, .. } ==> ends_with(
            text@,
            decimal(partition_id.0 as nat),
        ),
        error matches EngineError::UnknownAtomicGroup(id) ==> ends_with(text@, decimal(id as nat)),
        error matches EngineError::RetentionPinned { pinned, .. } ==> ends_with(
            text@,
            decimal(pinned.0 as nat),
        ),
        error matches EngineError::InvalidConfig(reason) ==> ends_with(text@, reason@),
        error matches EngineError::Fenced(reason) ==> ends_with(text@, reason@),
        error matches EngineError::CorruptState(reason) ==> ends_with(text@, reason@),
        error matches EngineError::DurableSinkUnavailable(reason) ==> ends_with(text@, reason@),
        error matches EngineError::Storage(reason) ==> ends_with(text@, reason@),
{
    let t = text@;
    match error {
        EngineError::OffsetOutOfRange { log_start, .. } => {
            let end = decimal(log_start.0 as nat);
            assert(t.skip(t.len() - end.len()) =~= end);
        },
        EngineError::ProducerSequenceOutOfOrder { received, .. } => {
            let end = decimal(received as nat);
            assert(t.skip(t.len() - end.len()) =~= end);
        },
        EngineError::AtomicGroupSequenceOutOfOrder { received, .. } => {
            let end = decimal(received as nat);
            assert(t.skip(t.len() - end.len()) =~= end);
        },
        EngineError::StaleProducerEpoch { current, .. } => {
            let end = decimal(current as nat);
            assert(t.skip(t.len() - end.len()) =~= end);
        },
        EngineError::DurabilityUnavailable { durable_replicas, .. } => {
            let end = decimal(durable_replicas as nat);
            assert(t.skip(t.len() - end.len()) =~= end);
        },
        EngineError::UnknownPartition { partition_id, .. } => {
            let end = decimal(partition_id.0 as nat);
            assert(t.skip(t.len() - end.len()) =~= end);
        },
        EngineError::UnknownAtomicGroup(id) => {
            let end = decimal(id as nat);
            assert(t.skip(t.len() - end.len()) =~= end);
        },
        EngineError::RetentionPinned { pinned, .. } => {
            let end = decimal(pinned.0 as nat);
            assert(t.skip(t.len() - end.len()) =~= end);
        },
        EngineError::InvalidConfig(reason) => {
            assert(t.skip(t.len() - reason@.len()) =~= reason@);
        },
        EngineError::Fenced(reason) => {
            assert(t.skip(t.len() - reason@.len()) =~= reason@);
        },
        EngineError::CorruptState(reason) => {
            assert(t.skip(t.len() - reason@.len()) =~= reason@);
        },
        EngineError::DurableSinkUnavailable(reason) => {
            assert(t.skip(t.len() - reason@.len()) =~= reason@);
        },
        EngineError::Storage(reason) => {
            assert(t.skip(t.len() - reason@.len()) =~= reason@);
        },
        _ => {},
    }
}

} // verus!
