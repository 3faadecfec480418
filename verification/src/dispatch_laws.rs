//! What requests about many partitions, and restarts after them, may count on.
use vstd::prelude::*;

use crate::config::EngineConfig;
use crate::coordinator::dedup_key;
use crate::dispatch::{
    applicable, awaited, changed, create_step, decision, epochs_of, finalize_step,
    observed_epoch, policy_step, progress_of, receipt_of, reconfigure_step, routed,
    truncate_step, CoordinatorCommand, CoordinatorReply, CoordinatorStep, Partitions,
    PendingChange,
};
use crate::error::{EngineResult, Fault};
use crate::ids::{LeaderEpoch, LogicalOffset, RingEpoch, TopicPartition};
use crate::journal::{partition_key, JournalModel};
use crate::partition::{AtomicGroupState, PartitionModel, VisibilityMode, Waiter};
use crate::protocol::ProducerIdentity;

verus! {

/// The partition that a change is about.
pub open spec fn subject(change: PendingChange) -> TopicPartition {
    match change {
        PendingChange::Create { topic_partition, .. } => topic_partition,
        PendingChange::Finalize { topic_partition, .. } => topic_partition,
        PendingChange::Reconfigure { topic_partition, .. } => topic_partition,
        PendingChange::Policy { topic_partition, .. } => topic_partition,
        PendingChange::Truncate { topic_partition, .. } => topic_partition,
    }
}

/// A request about a partition touches no other, and one about a partition that does not
/// exist changes nothing and says so.
pub proof fn requests_touch_their_partition<T>(
    before: Partitions,
    after: Partitions,
    topic_partition: TopicPartition,
    step: (PartitionModel, Result<T, Fault>),
    result: EngineResult<T>,
    other: TopicPartition,
)
    requires
        routed(before, after, topic_partition, step, result),
    ensures
        other != topic_partition ==> after.contains_key(partition_key(other))
            == before.contains_key(partition_key(other)) && after[partition_key(other)]
            == before[partition_key(other)],
        !before.contains_key(partition_key(topic_partition)) ==> after == before && result is Err
            && result->Err_0@ == (Fault::UnknownPartition {
            topic_id: topic_partition.topic_id,
            partition_id: topic_partition.partition_id,
        }),
        before.contains_key(partition_key(topic_partition)) ==> after.contains_key(
            partition_key(topic_partition),
        ) && (result is Ok <==> step.1 is Ok),
{
}

/// Partitions are kept apart: two of them have the same key only if they are the same.
pub proof fn partitions_have_their_own_key(one: TopicPartition, other: TopicPartition)
    requires
        partition_key(one) == partition_key(other),
    ensures
        one == other,
{
}

/// A change that waited for the journal touches its own partition only.
pub proof fn changes_touch_their_partition(
    states: Partitions,
    change: PendingChange,
    other: TopicPartition,
)
    requires
        other != subject(change),
    ensures
        changed(states, change).contains_key(partition_key(other)) == states.contains_key(
            partition_key(other),
        ),
        changed(states, change)[partition_key(other)] == states[partition_key(other)],
        changed(states, change).contains_key(partition_key(subject(change))),
{
    partitions_have_their_own_key(other, other);
    assert(partition_key(other) != partition_key(subject(change)));
}

/// A partition that was created is empty: it has the ring and policy that were asked
/// for, starts at offset zero and holds no batch, producer or group.
pub proof fn new_partitions_are_empty(
    states: Partitions,
    topic_partition: TopicPartition,
    shards: Vec<crate::ids::ShardId>,
    policy: crate::config::PartitionReplicationPolicy,
)
    ensures
        ({
            let after = changed(
                states,
                PendingChange::Create { topic_partition, shards, replication_policy: policy },
            );
            let m = after[partition_key(topic_partition)];
            &&& m.policy == policy
            &&& m.sequencer.virtual_lanes == shards@
            &&& m.sequencer.topic_id == topic_partition.topic_id
            &&& m.sequencer.partition_id == topic_partition.partition_id
            &&& m.sequencer.next_offset == 0
            &&& m.sequencer.next_batch_id == 0
            &&& m.sequencer.next_placement_sequence == 0
            &&& m.sequencer.leader_epoch.0 == 0
            &&& m.log_start.0 == 0
            &&& m.batches.len() == 0
            &&& forall|id: u128| !#[trigger] m.producers.contains_key(id)
            &&& forall|id: u128| !#[trigger] m.groups.contains_key(id)
            &&& m.watermarks().last_stable_offset.0 == 0
            &&& m.watermarks().allocated_end.0 == 0
        }),
{
}

/// What the journal keeps of a change is what the change does: a journal that agreed
/// with a partition before, and takes the event, agrees with it after.
pub proof fn journals_agree_with_truncations(
    config: EngineConfig,
    journal: JournalModel,
    states: Partitions,
    topic_partition: TopicPartition,
    log_start: LogicalOffset,
    step: CoordinatorStep,
    pending: Option<PendingChange>,
)
    requires
        truncate_step(states, topic_partition, log_start, step, pending),
        step is Journal,
        journal.after(config, step->Journal_0) is Ok,
    ensures
        pending is Some,
        subject(pending->0) == topic_partition,
        applicable(states, pending->0),
        ({
            let kept = journal.after(config, step->Journal_0)->Ok_0.part(topic_partition);
            let m = changed(states, pending->0)[partition_key(topic_partition)];
            &&& m.log_start == log_start
            &&& kept.log_start == m.log_start
        }),
{
}

/// What the journal keeps of a policy change is the policy that the partition then has.
pub proof fn journals_agree_with_policies(
    config: EngineConfig,
    journal: JournalModel,
    states: Partitions,
    topic_partition: TopicPartition,
    expected: u64,
    policy: crate::config::PartitionReplicationPolicy,
    step: CoordinatorStep,
    pending: Option<PendingChange>,
)
    requires
        policy_step(states, topic_partition, expected, policy, step, pending),
        step is Journal,
        journal.after(config, step->Journal_0) is Ok,
    ensures
        pending is Some,
        subject(pending->0) == topic_partition,
        ({
            let kept = journal.after(config, step->Journal_0)->Ok_0.part(topic_partition);
            let m = changed(states, pending->0)[partition_key(topic_partition)];
            &&& m.policy == policy
            &&& kept.policy == m.policy
        }),
{
}

/// What the journal keeps of a group's outcome is the outcome that the group then has.
pub proof fn journals_agree_with_outcomes(
    config: EngineConfig,
    journal: JournalModel,
    states: Partitions,
    topic_partition: TopicPartition,
    transaction_id: u128,
    outcome: AtomicGroupState,
    step: CoordinatorStep,
    pending: Option<PendingChange>,
)
    requires
        finalize_step(states, topic_partition, transaction_id, outcome, step, pending),
        step is Journal,
        journal.after(config, step->Journal_0) is Ok,
    ensures
        pending is Some,
        subject(pending->0) == topic_partition,
        ({
            let kept = journal.after(config, step->Journal_0)->Ok_0.part(topic_partition);
            let m = changed(states, pending->0)[partition_key(topic_partition)];
            &&& m.finalized[transaction_id] == outcome
            &&& m.groups[transaction_id].state == outcome
            &&& kept.outcomes[transaction_id] == outcome
        }),
{
}

/// What the journal keeps of a new ring is the ring that the partition then has.
pub proof fn journals_agree_with_rings(
    config: EngineConfig,
    journal: JournalModel,
    states: Partitions,
    topic_partition: TopicPartition,
    ring_epoch: RingEpoch,
    shards: Seq<crate::ids::ShardId>,
    step: CoordinatorStep,
    pending: Option<PendingChange>,
)
    requires
        reconfigure_step(states, topic_partition, ring_epoch, shards, step, pending),
        step is Journal,
        journal.after(config, step->Journal_0) is Ok,
    ensures
        pending is Some,
        subject(pending->0) == topic_partition,
        ({
            let kept = journal.after(config, step->Journal_0)->Ok_0.part(topic_partition);
            let before = states[partition_key(topic_partition)];
            let m = changed(states, pending->0)[partition_key(topic_partition)];
            &&& ring_epoch.0 > before.sequencer.ring_epoch.0
            &&& m.sequencer.ring_epoch == ring_epoch
            &&& m.sequencer.virtual_lanes == shards
            &&& kept.rings.last().epoch == m.sequencer.ring_epoch
            &&& kept.rings.last().lanes == m.sequencer.virtual_lanes
            &&& m.sequencer.next_offset == before.sequencer.next_offset
            &&& m.sequencer.next_batch_id == before.sequencer.next_batch_id
            &&& m.sequencer.next_placement_sequence == before.sequencer.next_placement_sequence
            &&& m.sequencer.leader_epoch == before.sequencer.leader_epoch
            &&& m.batches == before.batches
            &&& m.producers == before.producers
        }),
{
}

/// What the journal keeps of a new partition is the partition that then exists; one that
/// exists already is confirmed only if it is the very same, and otherwise refused.
pub proof fn journals_agree_with_creations(
    config: EngineConfig,
    journal: JournalModel,
    states: Partitions,
    topic_partition: TopicPartition,
    shards: Seq<crate::ids::ShardId>,
    policy: crate::config::PartitionReplicationPolicy,
    step: CoordinatorStep,
    pending: Option<PendingChange>,
)
    requires
        create_step(states, topic_partition, shards, policy, step, pending),
    ensures
        states.contains_key(partition_key(topic_partition)) ==> pending is None,
        states.contains_key(partition_key(topic_partition)) && step
            == CoordinatorStep::Reply(Ok(CoordinatorReply::Done)) ==> {
            let held = states[partition_key(topic_partition)];
            held.policy == policy && held.sequencer.virtual_lanes == shards
        },
        step is Journal ==> !states.contains_key(partition_key(topic_partition)) && pending
            is Some && subject(pending->0) == topic_partition,
        step is Journal && journal.after(config, step->Journal_0) is Ok ==> {
            let kept = journal.after(config, step->Journal_0)->Ok_0.part(topic_partition);
            let m = changed(states, pending->0)[partition_key(topic_partition)];
            &&& kept.policy == m.policy
            &&& kept.log_start == m.log_start
            &&& kept.rings.last().epoch == m.sequencer.ring_epoch
            &&& kept.rings.last().lanes == m.sequencer.virtual_lanes
        },
{
}

/// A leader's epoch never goes back, and taking one up changes nothing else.
pub proof fn leader_epochs_never_go_back(m: PartitionModel, leader_epoch: LeaderEpoch)
    ensures
        ({
            let (after, result) = observed_epoch(m, leader_epoch);
            &&& result is Ok <==> m.sequencer.leader_epoch.0 <= leader_epoch.0
            &&& result is Ok ==> after.sequencer.leader_epoch == leader_epoch
            &&& result is Err ==> after == m
            &&& after.batches == m.batches
            &&& after.producers == m.producers
            &&& after.sequencer.next_offset == m.sequencer.next_offset
            &&& after.sequencer.next_batch_id == m.sequencer.next_batch_id
            &&& after.sequencer.ring_epoch == m.sequencer.ring_epoch
            &&& after.sequencer.virtual_lanes == m.sequencer.virtual_lanes
        }),
{
}

/// A producer is told its epoch, what it may send next and whether it has to start a new
/// epoch; one that was never seen is told nothing.
pub proof fn producers_are_told_where_they_stand(m: PartitionModel, producer_id: u128)
    ensures
        progress_of(m, producer_id) is Some <==> m.producers.contains_key(producer_id),
        progress_of(m, producer_id) matches Some(progress) ==> {
            &&& progress.epoch == m.producers[producer_id].epoch
            &&& progress.next_sequence == m.producers[producer_id].next_sequence
            &&& progress.requires_new_epoch == m.producers[producer_id].failed
        },
{
}

/// A producer gets the receipt of its own batch and of no other event.
pub proof fn producers_get_their_own_receipt(m: PartitionModel, claim: ProducerIdentity)
    ensures
        receipt_of(m, claim) matches Ok(Some(response)) ==> m.dedup.contains_key(dedup_key(claim))
            && m.dedup[dedup_key(claim)].response == response && m.dedup[dedup_key(claim)].event_id
            == claim.event_id,
        receipt_of(m, claim) matches Ok(None) ==> !m.dedup.contains_key(dedup_key(claim)),
        receipt_of(m, claim) is Err <==> m.dedup.contains_key(dedup_key(claim)) && m.dedup[
        dedup_key(claim)].event_id != claim.event_id,
{
}

/// The epochs that a partition tells are those under which it gives out places.
pub proof fn epochs_are_those_of_new_places(m: PartitionModel, record_count: u32)
    ensures
        epochs_of(m).ring_epoch == m.sequencer.reserved(record_count).placement.ring_epoch,
        epochs_of(m).leader_epoch == m.sequencer.reserved(record_count).placement.leader_epoch,
{
}

/// A reader waits exactly when what it asks for is not visible yet; asking changes
/// nothing but who waits.
pub proof fn readers_wait_for_what_is_not_visible(
    m: PartitionModel,
    through: LogicalOffset,
    mode: VisibilityMode,
    waiter: u64,
)
    requires
        m.chained(),
    ensures
        ({
            let (after, result) = awaited(m, through, mode, waiter);
            let visible = if mode == VisibilityMode::Ordered {
                m.watermarks().last_stable_offset.0 >= through.0
            } else {
                m.watermarks().last_stable_offset.0 >= through.0
                    && m.watermarks().replicated_high_watermark.0 >= through.0
            };
            let named = Waiter { through: through.0, id: waiter };
            &&& result == Ok::<bool, Fault>(visible)
            &&& visible ==> after == m
            &&& !visible && mode == VisibilityMode::Ordered ==> after.ordered_waiters.contains(
                named,
            ) && after.replicated_waiters == m.replicated_waiters
            &&& !visible && mode == VisibilityMode::Replicated
                ==> after.replicated_waiters.contains(named) && after.ordered_waiters
                == m.ordered_waiters
            &&& after.batches == m.batches
            &&& after.watermarks() == m.watermarks()
            &&& after.ready == m.ready
        }),
{
    let named = Waiter { through: through.0, id: waiter };
    if m.ordered_waiters.len() > 0 {
        crate::retention_laws::waiters_join_the_queue(m.ordered_waiters, named, 0);
    } else {
        assert(crate::partition::queued(m.ordered_waiters, named)[0] == named);
    }
    if m.replicated_waiters.len() > 0 {
        crate::retention_laws::waiters_join_the_queue(m.replicated_waiters, named, 0);
    } else {
        assert(crate::partition::queued(m.replicated_waiters, named)[0] == named);
    }
}

/// A question changes nothing, waits for nothing and is answered at once.
pub proof fn questions_change_nothing(
    before: Partitions,
    command: CoordinatorCommand,
    after: Partitions,
    pending: Option<PendingChange>,
    step: CoordinatorStep,
)
    requires
        decision(before, command, after, pending, step),
        command is FetchSnapshot || command is Watermarks || command is ReplicationPolicy
            || command is ProducerProgress || command is IdempotentReceipt || command
            is PartitionEpochs || command is InspectAtomicGroup || command is ReplicaNextBatch
            || command is CommittedCandidates || command is TopicPartitions || command
            is AllPartitions,
    ensures
        after == before,
        pending is None,
        step is Reply,
{
}

/// A change of control waits for the journal and leaves the partitions as they are until
/// then; every other request leaves nothing pending.
pub proof fn changes_wait_for_the_journal(
    before: Partitions,
    command: CoordinatorCommand,
    after: Partitions,
    pending: Option<PendingChange>,
    step: CoordinatorStep,
)
    requires
        decision(before, command, after, pending, step),
    ensures
        pending is Some <==> step is Journal,
        step is Journal ==> after == before,
        step is Journal ==> command is Create || command is FinalizeAtomicGroup || command
            is Reconfigure || command is UpdateReplicationPolicy || command is Truncate,
        step is Wait ==> command is WaitUntilVisible,
{
}

} // verus!
