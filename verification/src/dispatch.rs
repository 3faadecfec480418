//! Coordination of many partitions: commands, their routing and the changes
//! that wait for the journal.
use vstd::prelude::*;

use crate::admin::{
    apply_finalize, apply_policy, apply_truncate, inspect_atomic_group, plan_finalize, plan_policy,
    plan_truncate, Planned,
};
use crate::batch_set::CommittedBatchSet;
use crate::completion::{complete, fail, set_durable_replica_count};
use crate::config::PartitionReplicationPolicy;
use crate::coordinator::{
    dedup_key, idempotent_receipt, reserve, CompleteAppend, ReserveOutcome,
};
use crate::error::{agrees, numbered, EngineError, EngineResult, Fault};
use crate::ids::{
    BatchId, LeaderEpoch, LogicalOffset, LogicalPartitionId, RingEpoch, ShardId, TopicId,
    TopicPartition,
};
use crate::journal::partition_key;
use crate::maps::PairMap;
use crate::partition::{
    empty_partition, fetchable, queued, spread_exceeds, AtomicGroupInspection, AtomicGroupState,
    FetchBounds, PartitionEpochs, PartitionModel, PartitionState, PartitionWatermarks,
    ProducerProgress, VisibilityMode, Waiter,
};
use crate::protocol::{
    AppendResponse, AtomicGroupIdentity, JournalEvent, PayloadDigest, ProducerIdentity,
};
use crate::replica::reserve_replica;
use crate::sequencer::{
    copy_lanes, ring_fault, ring_valid, validate_virtual_lanes, Reservation, SequencerError,
    SequencerModel, TopicSequencer,
};
use crate::text::decimal;

verus! {

broadcast use vstd::std_specs::hash::group_hash_axioms;

/// Finalizer of the splitmix generator.
pub open spec fn mixed(value: u64) -> u64 {
    let a = value.wrapping_add(0x9e37_79b9_7f4a_7c15);
    let b = (a ^ (a >> 30)).wrapping_mul(0xbf58_476d_1ce4_e5b9);
    let c = (b ^ (b >> 27)).wrapping_mul(0x94d0_49bb_1331_11eb);
    c ^ (c >> 31)
}

fn splitmix64(value: u64) -> (result: u64)
    ensures
        result == mixed(value),
{
    let a: u64 = value.wrapping_add(0x9e37_79b9_7f4a_7c15);
    let b: u64 = (a ^ (a >> 30)).wrapping_mul(0xbf58_476d_1ce4_e5b9);
    let c: u64 = (b ^ (b >> 27)).wrapping_mul(0x94d0_49bb_1331_11eb);
    c ^ (c >> 31)
}

/// The halves of a topic and the partition, folded into one word.
pub open spec fn folded(topic_partition: TopicPartition) -> u64 {
    let topic = topic_partition.topic_id.0;
    (topic as u64) ^ ((topic >> 64) as u64) ^ (topic_partition.partition_id.0 as u64)
}

/// The worker that coordinates a partition.
pub fn coordinator_index(topic_partition: TopicPartition, worker_count: usize) -> (index: usize)
    requires
        worker_count > 0,
    ensures
        index == mixed(folded(topic_partition)) as usize % worker_count,
        index < worker_count,
{
    let topic: u128 = topic_partition.topic_id.0;
    let low: u64 = topic as u64;
    let high: u64 = (topic >> 64) as u64;
    splitmix64(low ^ high ^ topic_partition.partition_id.0 as u64) as usize % worker_count
}

/// A request to the coordinator of a partition.
pub enum CoordinatorCommand {
    Create {
        topic_partition: TopicPartition,
        shards: Vec<ShardId>,
        replication_policy: PartitionReplicationPolicy,
    },
    Reserve {
        topic_partition: TopicPartition,
        request_id: u128,
        producer: Option<ProducerIdentity>,
        atomic_group: Option<AtomicGroupIdentity>,
        record_count: u32,
        payload_bytes: u64,
        payload_digest: PayloadDigest,
    },
    ReserveReplica {
        topic_partition: TopicPartition,
        reservation: Reservation,
        producer: Option<ProducerIdentity>,
        atomic_group: Option<AtomicGroupIdentity>,
        payload_bytes: u64,
        payload_digest: PayloadDigest,
    },
    ObserveLeaderEpoch {
        topic_partition: TopicPartition,
        leader_epoch: LeaderEpoch,
    },
    Complete {
        topic_partition: TopicPartition,
        completion: CompleteAppend,
    },
    ReplicaCountDurable {
        topic_partition: TopicPartition,
        reservation: Reservation,
        durable_replicas: u32,
    },
    Fail {
        topic_partition: TopicPartition,
        reservation: Reservation,
        producer: Option<ProducerIdentity>,
        definitely_not_written: bool,
    },
    FetchSnapshot {
        topic_partition: TopicPartition,
        start_offset: LogicalOffset,
    },
    Watermarks {
        topic_partition: TopicPartition,
    },
    ReplicationPolicy {
        topic_partition: TopicPartition,
    },
    ProducerProgress {
        topic_partition: TopicPartition,
        producer_id: u128,
    },
    IdempotentReceipt {
        topic_partition: TopicPartition,
        producer: ProducerIdentity,
    },
    PartitionEpochs {
        topic_partition: TopicPartition,
    },
    InspectAtomicGroup {
        topic_partition: TopicPartition,
        transaction_id: u128,
    },
    ReplicaNextBatch {
        topic_partition: TopicPartition,
    },
    CommittedCandidates {
        topic_partition: TopicPartition,
        candidates: Vec<BatchId>,
        include_unresolved: bool,
    },
    FinalizeAtomicGroup {
        topic_partition: TopicPartition,
        transaction_id: u128,
        outcome: AtomicGroupState,
    },
    WaitUntilVisible {
        topic_partition: TopicPartition,
        through: LogicalOffset,
        mode: VisibilityMode,
        waiter: u64,
    },
    Reconfigure { topic_partition: TopicPartition, ring_epoch: RingEpoch, shards: Vec<ShardId> },
    UpdateReplicationPolicy {
        topic_partition: TopicPartition,
        expected_policy_generation: u64,
        replication_policy: PartitionReplicationPolicy,
    },
    Truncate { topic_partition: TopicPartition, log_start: LogicalOffset },
    TopicPartitions { topic_id: TopicId },
    AllPartitions,
}

/// What a coordinator answers.
pub enum CoordinatorReply {
    Done,
    Outcome(ReserveOutcome),
    Response(AppendResponse),
    Bounds(FetchBounds),
    Committed(CommittedBatchSet),
    Watermarks(PartitionWatermarks),
    Policy(PartitionReplicationPolicy),
    Progress(Option<ProducerProgress>),
    Receipt(Option<AppendResponse>),
    Epochs(PartitionEpochs),
    Group(AtomicGroupInspection),
    NextBatch(BatchId),
    TopicPartitions(Vec<LogicalPartitionId>),
    AllPartitions(Vec<TopicPartition>),
}

/// What a coordinator does next.
pub enum CoordinatorStep {
    /// Answers the request.
    Reply(EngineResult<CoordinatorReply>),
    /// Keeps the requester waiting under the name it gave.
    Wait,
    /// Has the journal keep an event before it goes on.
    Journal(JournalEvent),
}

/// A change that waits for the journal.
pub enum PendingChange {
    Create {
        topic_partition: TopicPartition,
        shards: Vec<ShardId>,
        replication_policy: PartitionReplicationPolicy,
    },
    Finalize {
        topic_partition: TopicPartition,
        transaction_id: u128,
        outcome: AtomicGroupState,
    },
    Reconfigure { topic_partition: TopicPartition, ring_epoch: RingEpoch, shards: Vec<ShardId> },
    Policy {
        topic_partition: TopicPartition,
        replication_policy: PartitionReplicationPolicy,
    },
    Truncate { topic_partition: TopicPartition, log_start: LogicalOffset },
}

pub type Partitions = Map<(u128, u128), PartitionModel>;

/// The refusal of a request about a partition that does not exist.
pub open spec fn unknown_partition(topic_partition: TopicPartition) -> Fault {
    Fault::UnknownPartition {
        topic_id: topic_partition.topic_id,
        partition_id: topic_partition.partition_id,
    }
}

fn unknown(topic_partition: TopicPartition) -> (error: EngineError)
    ensures
        error@ == unknown_partition(topic_partition),
{
    EngineError::UnknownPartition {
        topic_id: topic_partition.topic_id,
        partition_id: topic_partition.partition_id,
    }
}

/// A request changed its partition, and only that, as `step` says.
pub open spec fn routed<T>(
    before: Partitions,
    after: Partitions,
    topic_partition: TopicPartition,
    step: (PartitionModel, Result<T, Fault>),
    result: EngineResult<T>,
) -> bool {
    let key = partition_key(topic_partition);
    if before.contains_key(key) {
        after == before.insert(key, step.0) && agrees(result, step.1)
    } else {
        after == before && agrees(result, Err(unknown_partition(topic_partition)))
    }
}

/// A request read its partition and changed nothing.
pub open spec fn answered<T>(
    before: Partitions,
    topic_partition: TopicPartition,
    expected: Result<T, Fault>,
    result: EngineResult<T>,
) -> bool {
    if before.contains_key(partition_key(topic_partition)) {
        agrees(result, expected)
    } else {
        agrees(result, Err(unknown_partition(topic_partition)))
    }
}

/// The refusal to hold more batches than can be counted.
pub open spec fn index_full(model: PartitionModel) -> Fault {
    Fault::CorruptState(
        "batch "@ + decimal(model.sequencer.next_batch_id as nat)
            + " violates dense index ordering: dense index capacity exhausted"@,
    )
}

pub open spec fn reserve_step(
    m: PartitionModel,
    request_id: u128,
    producer: Option<ProducerIdentity>,
    atomic_group: Option<AtomicGroupIdentity>,
    record_count: u32,
    payload_bytes: u64,
    payload_digest: PayloadDigest,
) -> (PartitionModel, Result<ReserveOutcome, Fault>) {
    if m.batches.len() >= usize::MAX {
        (m, Err(index_full(m)))
    } else {
        m.reserving(
            request_id,
            producer,
            atomic_group,
            record_count,
            payload_bytes,
            payload_digest,
        )
    }
}

pub open spec fn replica_step(
    m: PartitionModel,
    reservation: Reservation,
    producer: Option<ProducerIdentity>,
    atomic_group: Option<AtomicGroupIdentity>,
    payload_bytes: u64,
    payload_digest: PayloadDigest,
) -> (PartitionModel, Result<ReserveOutcome, Fault>) {
    if m.batches.len() >= usize::MAX {
        (m, Err(index_full(m)))
    } else {
        m.replicating(reservation, producer, atomic_group, payload_bytes, payload_digest)
    }
}

pub open spec fn observed_epoch(m: PartitionModel, leader_epoch: LeaderEpoch) -> (
    PartitionModel,
    Result<(), Fault>,
) {
    if leader_epoch.0 < m.sequencer.leader_epoch.0 {
        (
            m,
            Err(
                Fault::Sequencer(
                    SequencerError::StaleLeaderEpoch {
                        current: m.sequencer.leader_epoch,
                        proposed: leader_epoch,
                    },
                ),
            ),
        )
    } else {
        (
            PartitionModel { sequencer: SequencerModel { leader_epoch, ..m.sequencer }, ..m },
            Ok(()),
        )
    }
}

fn observe_epoch(state: &mut PartitionState, leader_epoch: LeaderEpoch) -> (result: EngineResult<()>)
    requires
        old(state).consistent(),
    ensures
        final(state).consistent(),
        final(state)@ == observed_epoch(old(state)@, leader_epoch).0,
        agrees(result, observed_epoch(old(state)@, leader_epoch).1),
{
    let result = state.sequencer.observe_leader_epoch(leader_epoch);
    proof {
        assert(state@ =~= observed_epoch(old(state)@, leader_epoch).0);
    }
    match result {
        Ok(()) => Ok(()),
        Err(error) => Err(EngineError::Sequencer(error)),
    }
}

pub open spec fn bounds_from(m: PartitionModel, start_offset: LogicalOffset) -> Result<
    FetchBounds,
    Fault,
> {
    if start_offset.0 < m.log_start.0 {
        Err(Fault::OffsetOutOfRange { requested: start_offset, log_start: m.log_start })
    } else {
        Ok(
            FetchBounds {
                physical_end: m.contiguous.offset,
                ordered_end: m.stable.offset,
                replicated_end: m.replicated_end(),
            },
        )
    }
}

pub open spec fn progress_of(m: PartitionModel, producer_id: u128) -> Option<ProducerProgress> {
    if m.producers.contains_key(producer_id) {
        Some(
            ProducerProgress {
                epoch: m.producers[producer_id].epoch,
                next_sequence: m.producers[producer_id].next_sequence,
                requires_new_epoch: m.producers[producer_id].failed,
            },
        )
    } else {
        None
    }
}

fn find_progress(state: &PartitionState, producer_id: u128) -> (progress: Option<ProducerProgress>)
    ensures
        progress == progress_of(state@, producer_id),
{
    match state.producers.get(&producer_id) {
        Some(cursor) => Some(
            ProducerProgress {
                epoch: cursor.epoch,
                next_sequence: cursor.next_sequence,
                requires_new_epoch: cursor.failed,
            },
        ),
        None => None,
    }
}

pub open spec fn receipt_of(m: PartitionModel, producer: ProducerIdentity) -> Result<
    Option<AppendResponse>,
    Fault,
> {
    if !m.dedup.contains_key(dedup_key(producer)) {
        Ok(None)
    } else if m.dedup[dedup_key(producer)].event_id != producer.event_id {
        Err(Fault::DuplicateSequenceMismatch(producer.producer_id))
    } else {
        Ok(Some(m.dedup[dedup_key(producer)].response))
    }
}

pub open spec fn epochs_of(m: PartitionModel) -> PartitionEpochs {
    PartitionEpochs {
        ring_epoch: m.sequencer.ring_epoch,
        leader_epoch: m.sequencer.leader_epoch,
    }
}

/// A sequencer under another ring.
pub open spec fn reringed(m: PartitionModel, ring_epoch: RingEpoch, lanes: Seq<ShardId>) -> PartitionModel {
    PartitionModel {
        sequencer: SequencerModel { ring_epoch, virtual_lanes: lanes, ..m.sequencer },
        ..m
    }
}

/// The sequencer of a partition that was just created.
pub open spec fn first_sequencer(topic_partition: TopicPartition, lanes: Seq<ShardId>) -> SequencerModel {
    SequencerModel {
        topic_id: topic_partition.topic_id,
        partition_id: topic_partition.partition_id,
        ring_epoch: RingEpoch(1),
        leader_epoch: LeaderEpoch(0),
        virtual_lanes: lanes,
        next_batch_id: 0,
        next_offset: 0,
        next_placement_sequence: 0,
    }
}

/// Coordinates the partitions that one worker owns.
pub struct Coordinator {
    pub states: PairMap<PartitionState>,
    pub pending: Option<PendingChange>,
}

impl View for Coordinator {
    type V = Partitions;

    open spec fn view(&self) -> Partitions {
        self.states@.map_values(|state: PartitionState| state@)
    }
}

/// A change that waits for the journal can still be made.
pub open spec fn applicable(states: Partitions, change: PendingChange) -> bool {
    match change {
        PendingChange::Create { topic_partition, shards, .. } => !states.contains_key(
            partition_key(topic_partition),
        ) && ring_valid(shards@),
        PendingChange::Finalize { topic_partition, transaction_id, outcome } => {
            &&& states.contains_key(partition_key(topic_partition))
            &&& states[partition_key(topic_partition)].finalizing(transaction_id, outcome) == Ok::<
                Option<AtomicGroupInspection>,
                Fault,
            >(None)
        },
        PendingChange::Reconfigure { topic_partition, ring_epoch, shards } => {
            &&& states.contains_key(partition_key(topic_partition))
            &&& ring_epoch.0 > states[partition_key(topic_partition)].sequencer.ring_epoch.0
            &&& ring_valid(shards@)
        },
        PendingChange::Policy { topic_partition, .. } => states.contains_key(
            partition_key(topic_partition),
        ),
        PendingChange::Truncate { topic_partition, log_start } => {
            &&& states.contains_key(partition_key(topic_partition))
            &&& states[partition_key(topic_partition)].truncation(log_start) matches Ok(Some(_))
        },
    }
}

/// The partitions after a change that waited for the journal.
pub open spec fn changed(states: Partitions, change: PendingChange) -> Partitions {
    match change {
        PendingChange::Create { topic_partition, shards, replication_policy } => states.insert(
            partition_key(topic_partition),
            empty_partition(first_sequencer(topic_partition, shards@), replication_policy),
        ),
        PendingChange::Finalize { topic_partition, transaction_id, outcome } => {
            let key = partition_key(topic_partition);
            states.insert(key, states[key].finalized_as(transaction_id, outcome))
        },
        PendingChange::Reconfigure { topic_partition, ring_epoch, shards } => {
            let key = partition_key(topic_partition);
            states.insert(key, reringed(states[key], ring_epoch, shards@))
        },
        PendingChange::Policy { topic_partition, replication_policy } => {
            let key = partition_key(topic_partition);
            states.insert(key, states[key].under_policy(replication_policy))
        },
        PendingChange::Truncate { topic_partition, log_start } => {
            let key = partition_key(topic_partition);
            states.insert(
                key,
                states[key].truncated(log_start, states[key].truncation(log_start)->Ok_0->0),
            )
        },
    }
}

impl Coordinator {
    /// Every partition is consistent and a change that waits for the journal can be made.
    pub open spec fn wf(self) -> bool {
        &&& forall|key: (u128, u128)| #[trigger]
            self.states@.contains_key(key) ==> self.states@[key].consistent() && key.1 <= u32::MAX
        &&& self.pending matches Some(change) ==> applicable(self@, change)
    }

    /// No change waits for the journal.
    pub open spec fn idle(self) -> bool {
        self.pending is None
    }

    /// A coordinator of recovered partitions.
    pub fn new(states: PairMap<PartitionState>) -> (coordinator: Self)
        requires
            forall|key: (u128, u128)| #[trigger]
                states@.contains_key(key) ==> states@[key].consistent() && key.1 <= u32::MAX,
        ensures
            coordinator.wf(),
            coordinator.idle(),
            coordinator.states == states,
    {
        Coordinator { states, pending: None }
    }

    /// Whether no change waits for the journal.
    pub fn is_idle(&self) -> (idle: bool)
        ensures
            idle == self.idle(),
    {
        self.pending.is_none()
    }

    fn state(&self, topic_partition: TopicPartition) -> (state: Option<&PartitionState>)
        ensures
            match state {
                Some(s) => self.states@.contains_key(partition_key(topic_partition)) && *s
                    == self.states@[partition_key(topic_partition)],
                None => !self.states@.contains_key(partition_key(topic_partition)),
            },
    {
        self.states.get(topic_partition.topic_id.0, topic_partition.partition_id.0 as u128)
    }

    fn take(&mut self, topic_partition: TopicPartition) -> (state: Option<PartitionState>)
        ensures
            final(self).pending == old(self).pending,
            final(self).states@ == old(self).states@.remove(partition_key(topic_partition)),
            match state {
                Some(s) => old(self).states@.contains_key(partition_key(topic_partition)) && s
                    == old(self).states@[partition_key(topic_partition)],
                None => !old(self).states@.contains_key(partition_key(topic_partition)),
            },
    {
        self.states.remove(topic_partition.topic_id.0, topic_partition.partition_id.0 as u128)
    }

    /// Puts a partition back after `take` gave it out, or in for the first time.
    fn put(
        &mut self,
        topic_partition: TopicPartition,
        state: PartitionState,
        Ghost(before): Ghost<Coordinator>,
    )
        requires
            before.wf(),
            old(self).pending is None,
            state.consistent(),
            old(self).states@ == before.states@.remove(partition_key(topic_partition)),
        ensures
            final(self).wf(),
            final(self).idle(),
            final(self)@ == before@.insert(partition_key(topic_partition), state@),
    {
        self.states.insert(
            topic_partition.topic_id.0,
            topic_partition.partition_id.0 as u128,
            state,
        );
        proof {
            let key = partition_key(topic_partition);
            assert(self.states@ =~= before.states@.insert(key, state));
            assert(self@ =~= before@.insert(key, state@));
        }
    }

    /// Gives the next place in a partition's log to a leader's batch.
    pub fn reserve(
        &mut self,
        topic_partition: TopicPartition,
        request_id: u128,
        producer: Option<ProducerIdentity>,
        atomic_group: Option<AtomicGroupIdentity>,
        record_count: u32,
        payload_bytes: u64,
        payload_digest: PayloadDigest,
    ) -> (result: EngineResult<ReserveOutcome>)
        requires
            old(self).wf(),
            old(self).idle(),
            record_count > 0,
        ensures
            final(self).wf(),
            final(self).idle(),
            routed(
                old(self)@,
                final(self)@,
                topic_partition,
                reserve_step(old(self)@[partition_key(topic_partition)], request_id, producer, atomic_group, record_count, payload_bytes, payload_digest),
                result,
            ),
    {
        let ghost before = *self;
        match self.take(topic_partition) {
            None => {
                proof {
                    assert(self.states@ =~= before.states@);
                    assert(self@ =~= before@);
                }
                Err(unknown(topic_partition))
            },
            Some(taken) => {
                let mut state = taken;
                let result = if state.batches.len() == usize::MAX {
                    Err(
                        EngineError::CorruptState(
                            numbered(
                                "batch ",
                                state.sequencer.next_batch_id().0,
                                " violates dense index ordering: dense index capacity exhausted",
                            ),
                        ),
                    )
                } else {
                    reserve(&mut state, request_id, producer, atomic_group, record_count, payload_bytes, payload_digest)
                };
                self.put(topic_partition, state, Ghost(before));
                result
            },
        }
    }

    /// Takes over a leader's reservation on a follower.
    pub fn reserve_replica(
        &mut self,
        topic_partition: TopicPartition,
        reservation: Reservation,
        producer: Option<ProducerIdentity>,
        atomic_group: Option<AtomicGroupIdentity>,
        payload_bytes: u64,
        payload_digest: PayloadDigest,
    ) -> (result: EngineResult<ReserveOutcome>)
        requires
            old(self).wf(),
            old(self).idle(),
            reservation.record_count > 0,
        ensures
            final(self).wf(),
            final(self).idle(),
            routed(
                old(self)@,
                final(self)@,
                topic_partition,
                replica_step(old(self)@[partition_key(topic_partition)], reservation, producer, atomic_group, payload_bytes, payload_digest),
                result,
            ),
    {
        let ghost before = *self;
        match self.take(topic_partition) {
            None => {
                proof {
                    assert(self.states@ =~= before.states@);
                    assert(self@ =~= before@);
                }
                Err(unknown(topic_partition))
            },
            Some(taken) => {
                let mut state = taken;
                let result = if state.batches.len() == usize::MAX {
                    Err(
                        EngineError::CorruptState(
                            numbered(
                                "batch ",
                                state.sequencer.next_batch_id().0,
                                " violates dense index ordering: dense index capacity exhausted",
                            ),
                        ),
                    )
                } else {
                    reserve_replica(&mut state, reservation, producer, atomic_group, payload_bytes, payload_digest)
                };
                self.put(topic_partition, state, Ghost(before));
                result
            },
        }
    }

    /// Takes over a leader epoch.
    pub fn observe_leader_epoch(
        &mut self,
        topic_partition: TopicPartition,
        leader_epoch: LeaderEpoch,
    ) -> (result: EngineResult<()>)
        requires
            old(self).wf(),
            old(self).idle(),
        ensures
            final(self).wf(),
            final(self).idle(),
            routed(
                old(self)@,
                final(self)@,
                topic_partition,
                observed_epoch(old(self)@[partition_key(topic_partition)], leader_epoch),
                result,
            ),
    {
        let ghost before = *self;
        match self.take(topic_partition) {
            None => {
                proof {
                    assert(self.states@ =~= before.states@);
                    assert(self@ =~= before@);
                }
                Err(unknown(topic_partition))
            },
            Some(taken) => {
                let mut state = taken;
                let result = observe_epoch(&mut state, leader_epoch);
                self.put(topic_partition, state, Ghost(before));
                result
            },
        }
    }

    /// Records a finished append.
    pub fn complete(
        &mut self,
        topic_partition: TopicPartition,
        completion: CompleteAppend,
    ) -> (result: EngineResult<AppendResponse>)
        requires
            old(self).wf(),
            old(self).idle(),
        ensures
            final(self).wf(),
            final(self).idle(),
            routed(
                old(self)@,
                final(self)@,
                topic_partition,
                old(self)@[partition_key(topic_partition)].completing(completion),
                result,
            ),
    {
        let ghost before = *self;
        match self.take(topic_partition) {
            None => {
                proof {
                    assert(self.states@ =~= before.states@);
                    assert(self@ =~= before@);
                }
                Err(unknown(topic_partition))
            },
            Some(taken) => {
                let mut state = taken;
                let result = complete(&mut state, completion);
                self.put(topic_partition, state, Ghost(before));
                result
            },
        }
    }

    /// Raises the number of replicas that hold a batch.
    pub fn record_durable_replicas(
        &mut self,
        topic_partition: TopicPartition,
        reservation: Reservation,
        durable_replicas: u32,
    ) -> (result: EngineResult<()>)
        requires
            old(self).wf(),
            old(self).idle(),
        ensures
            final(self).wf(),
            final(self).idle(),
            routed(
                old(self)@,
                final(self)@,
                topic_partition,
                old(self)@[partition_key(topic_partition)].credited(reservation, durable_replicas),
                result,
            ),
    {
        let ghost before = *self;
        match self.take(topic_partition) {
            None => {
                proof {
                    assert(self.states@ =~= before.states@);
                    assert(self@ =~= before@);
                }
                Err(unknown(topic_partition))
            },
            Some(taken) => {
                let mut state = taken;
                let result = set_durable_replica_count(&mut state, reservation, durable_replicas);
                self.put(topic_partition, state, Ghost(before));
                result
            },
        }
    }

    /// Records a failed append.
    pub fn fail(
        &mut self,
        topic_partition: TopicPartition,
        reservation: Reservation,
        producer: Option<ProducerIdentity>,
        definitely_not_written: bool,
    ) -> (result: EngineResult<()>)
        requires
            old(self).wf(),
            old(self).idle(),
        ensures
            final(self).wf(),
            final(self).idle(),
            routed(
                old(self)@,
                final(self)@,
                topic_partition,
                old(self)@[partition_key(topic_partition)].failing(reservation, producer, definitely_not_written),
                result,
            ),
    {
        let ghost before = *self;
        match self.take(topic_partition) {
            None => {
                proof {
                    assert(self.states@ =~= before.states@);
                    assert(self@ =~= before@);
                }
                Err(unknown(topic_partition))
            },
            Some(taken) => {
                let mut state = taken;
                let result = fail(&mut state, reservation, producer, definitely_not_written);
                self.put(topic_partition, state, Ghost(before));
                result
            },
        }
    }

    /// How far a fetch may read.
    pub fn fetch_snapshot(
        &self,
        topic_partition: TopicPartition,
        start_offset: LogicalOffset,
    ) -> (result: EngineResult<FetchBounds>)
        requires
            self.wf(),
        ensures
            answered(self@, topic_partition, bounds_from(self@[partition_key(topic_partition)], start_offset), result),
    {
        match self.state(topic_partition) {
            None => Err(unknown(topic_partition)),
            Some(state) => state.fetch_bounds(start_offset),
        }
    }

    /// The watermarks of a partition.
    pub fn watermarks(
        &self,
        topic_partition: TopicPartition,
    ) -> (result: EngineResult<PartitionWatermarks>)
        requires
            self.wf(),
        ensures
            answered(self@, topic_partition, Ok(self@[partition_key(topic_partition)].watermarks()), result),
    {
        match self.state(topic_partition) {
            None => Err(unknown(topic_partition)),
            Some(state) => Ok(state.watermarks()),
        }
    }

    /// The policy of a partition.
    pub fn replication_policy(
        &self,
        topic_partition: TopicPartition,
    ) -> (result: EngineResult<PartitionReplicationPolicy>)
        requires
            self.wf(),
        ensures
            answered(self@, topic_partition, Ok(self@[partition_key(topic_partition)].policy), result),
    {
        match self.state(topic_partition) {
            None => Err(unknown(topic_partition)),
            Some(state) => Ok(state.replication_policy),
        }
    }

    /// What a producer may append next.
    pub fn producer_progress(
        &self,
        topic_partition: TopicPartition,
        producer_id: u128,
    ) -> (result: EngineResult<Option<ProducerProgress>>)
        requires
            self.wf(),
        ensures
            answered(self@, topic_partition, Ok(progress_of(self@[partition_key(topic_partition)], producer_id)), result),
    {
        match self.state(topic_partition) {
            None => Err(unknown(topic_partition)),
            Some(state) => Ok(find_progress(state, producer_id)),
        }
    }

    /// The receipt kept for a producer's batch.
    pub fn idempotent_receipt(
        &self,
        topic_partition: TopicPartition,
        producer: ProducerIdentity,
    ) -> (result: EngineResult<Option<AppendResponse>>)
        requires
            self.wf(),
        ensures
            answered(self@, topic_partition, receipt_of(self@[partition_key(topic_partition)], producer), result),
    {
        match self.state(topic_partition) {
            None => Err(unknown(topic_partition)),
            Some(state) => idempotent_receipt(state, producer),
        }
    }

    /// The epochs of a partition.
    pub fn partition_epochs(
        &self,
        topic_partition: TopicPartition,
    ) -> (result: EngineResult<PartitionEpochs>)
        requires
            self.wf(),
        ensures
            answered(self@, topic_partition, Ok(epochs_of(self@[partition_key(topic_partition)])), result),
    {
        match self.state(topic_partition) {
            None => Err(unknown(topic_partition)),
            Some(state) => Ok(PartitionEpochs { ring_epoch: state.sequencer.ring_epoch(), leader_epoch: state.sequencer.leader_epoch() }),
        }
    }

    /// What is known of an atomic group.
    pub fn inspect_atomic_group(
        &self,
        topic_partition: TopicPartition,
        transaction_id: u128,
    ) -> (result: EngineResult<AtomicGroupInspection>)
        requires
            self.wf(),
        ensures
            answered(self@, topic_partition, self@[partition_key(topic_partition)].inspected(transaction_id), result),
    {
        match self.state(topic_partition) {
            None => Err(unknown(topic_partition)),
            Some(state) => inspect_atomic_group(state, transaction_id),
        }
    }

    /// The batch that a replica expects next.
    pub fn replica_next_batch(
        &self,
        topic_partition: TopicPartition,
    ) -> (result: EngineResult<BatchId>)
        requires
            self.wf(),
        ensures
            answered(self@, topic_partition, Ok(BatchId(self@[partition_key(topic_partition)].sequencer.next_batch_id)), result),
    {
        match self.state(topic_partition) {
            None => Err(unknown(topic_partition)),
            Some(state) => Ok(state.sequencer.next_batch_id()),
        }
    }

    /// Which of the candidate batches a fetch may return.
    pub fn committed_candidates(
        &self,
        topic_partition: TopicPartition,
        candidates: &Vec<BatchId>,
        include_unresolved: bool,
    ) -> (result: EngineResult<CommittedBatchSet>)
        requires
            self.wf(),
        ensures
            committed_answer(self@, topic_partition, candidates@, include_unresolved, result),
    {
        match self.state(topic_partition) {
            None => Err(unknown(topic_partition)),
            Some(state) => state.committed_candidates(candidates, include_unresolved),
        }
    }

    /// Tells at once whether everything below `through` is visible, or queues the caller.
    pub fn wait_until_visible(
        &mut self,
        topic_partition: TopicPartition,
        through: LogicalOffset,
        mode: VisibilityMode,
        waiter: u64,
    ) -> (result: EngineResult<bool>)
        requires
            old(self).wf(),
            old(self).idle(),
        ensures
            final(self).wf(),
            final(self).idle(),
            routed(
                old(self)@,
                final(self)@,
                topic_partition,
                awaited(old(self)@[partition_key(topic_partition)], through, mode, waiter),
                result,
            ),
    {
        let ghost before = *self;
        match self.take(topic_partition) {
            None => {
                proof {
                    assert(self.states@ =~= before.states@);
                    assert(self@ =~= before@);
                }
                Err(unknown(topic_partition))
            },
            Some(taken) => {
                let mut state = taken;
                let visible = state.wait_until_visible(through, mode, waiter);
                self.put(topic_partition, state, Ghost(before));
                Ok(visible)
            },
        }
    }

    /// Hands out the waiters of a partition whose wait is over.
    pub fn take_ready(&mut self, topic_partition: TopicPartition) -> (ready: Vec<u64>)
        requires
            old(self).wf(),
            old(self).idle(),
        ensures
            final(self).wf(),
            final(self).idle(),
            ({
                let key = partition_key(topic_partition);
                if old(self)@.contains_key(key) {
                    &&& ready@ == old(self)@[key].ready
                    &&& final(self)@ == old(self)@.insert(
                        key,
                        PartitionModel { ready: Seq::empty(), ..old(self)@[key] },
                    )
                } else {
                    ready@.len() == 0 && final(self)@ == old(self)@
                }
            }),
    {
        let ghost before = *self;
        match self.take(topic_partition) {
            None => {
                proof {
                    assert(self.states@ =~= before.states@);
                    assert(self@ =~= before@);
                }
                Vec::new()
            },
            Some(taken) => {
                let mut state = taken;
                let ready = state.take_ready();
                self.put(topic_partition, state, Ghost(before));
                ready
            },
        }
    }

    /// The partitions of a topic.
    pub fn topic_partitions(&self, topic_id: TopicId) -> (partitions: Vec<LogicalPartitionId>)
        requires
            self.wf(),
        ensures
            partitions@.no_duplicates(),
            forall|id: LogicalPartitionId| #[trigger]
                partitions@.contains(id) <==> self@.contains_key(
                    partition_key(TopicPartition { topic_id, partition_id: id }),
                ),
    {
        let keys = self.states.keys();
        let mut partitions: Vec<LogicalPartitionId> = Vec::new();
        let ghost mut sources: Seq<int> = Seq::empty();
        let mut index: usize = 0;
        while index < keys.len()
            invariant
                self.wf(),
                index <= keys@.len(),
                keys@.no_duplicates(),
                forall|key: (u128, u128)| #[trigger]
                    keys@.contains(key) <==> self.states@.contains_key(key),
                sources.len() == partitions@.len(),
                forall|i: int|
                    0 <= i < partitions@.len() ==> 0 <= #[trigger] sources[i] < index
                        && keys@[sources[i]] == (topic_id.0, partitions@[i].0 as u128),
                partitions@.no_duplicates(),
                forall|i: int|
                    0 <= i < index && (#[trigger] keys@[i]).0 == topic_id.0 ==> partitions@.contains(
                        LogicalPartitionId(keys@[i].1 as u32),
                    ),
            decreases keys@.len() - index,
        {
            let (row, column) = keys[index];
            assert(keys@.contains(keys@[index as int]));
            let ghost before = partitions@;
            if row == topic_id.0 {
                let id = LogicalPartitionId(column as u32);
                proof {
                    assert(!before.contains(id)) by {
                        if before.contains(id) {
                            let i = choose|i: int| 0 <= i < before.len() && before[i] == id;
                            assert(keys@[sources[i]] == keys@[index as int]);
                        }
                    }
                    sources = sources.push(index as int);
                }
                partitions.push(id);
                assert(partitions@[before.len() as int] == id);
            }
            proof {
                assert forall|i: int|
                    0 <= i < index + 1 && (#[trigger] keys@[i]).0
                        == topic_id.0 implies partitions@.contains(
                    LogicalPartitionId(keys@[i].1 as u32),
                ) by {
                    if i < index {
                        let id = LogicalPartitionId(keys@[i].1 as u32);
                        assert(before.contains(id));
                        let k = choose|k: int| 0 <= k < before.len() && before[k] == id;
                        assert(partitions@[k] == id);
                    }
                }
            }
            index += 1;
        }
        proof {
            assert forall|id: LogicalPartitionId| #[trigger]
                partitions@.contains(id) <==> self@.contains_key(
                partition_key(TopicPartition { topic_id, partition_id: id }),
            ) by {
                let key = (topic_id.0, id.0 as u128);
                if partitions@.contains(id) {
                    let i = choose|i: int| 0 <= i < partitions@.len() && partitions@[i] == id;
                    assert(keys@[sources[i]] == key);
                    assert(keys@.contains(key));
                }
                if self.states@.contains_key(key) {
                    assert(keys@.contains(key));
                    let i = choose|i: int| 0 <= i < keys@.len() && keys@[i] == key;
                    assert(keys@[i].0 == topic_id.0);
                }
            }
        }
        partitions
    }

    /// Every partition.
    pub fn all_partitions(&self) -> (partitions: Vec<TopicPartition>)
        requires
            self.wf(),
        ensures
            partitions@.no_duplicates(),
            forall|topic_partition: TopicPartition| #[trigger]
                partitions@.contains(topic_partition) <==> self@.contains_key(
                    partition_key(topic_partition),
                ),
    {
        let keys = self.states.keys();
        let mut partitions: Vec<TopicPartition> = Vec::new();
        let mut index: usize = 0;
        while index < keys.len()
            invariant
                self.wf(),
                index <= keys@.len(),
                forall|key: (u128, u128)| #[trigger]
                    keys@.contains(key) <==> self.states@.contains_key(key),
                partitions@.len() == index,
                forall|i: int|
                    0 <= i < index ==> partition_key(#[trigger] partitions@[i]) == keys@[i],
            decreases keys@.len() - index,
        {
            let (row, column) = keys[index];
            assert(keys@.contains(keys@[index as int]));
            partitions.push(
                TopicPartition {
                    topic_id: TopicId(row),
                    partition_id: LogicalPartitionId(column as u32),
                },
            );
            index += 1;
        }
        proof {
            assert forall|i: int, j: int|
                0 <= i < partitions@.len() && 0 <= j < partitions@.len() && i
                    != j implies partitions@[i] != partitions@[j] by {
                assert(keys@[i] != keys@[j]);
                assert(partition_key(partitions@[i]) == keys@[i]);
                assert(partition_key(partitions@[j]) == keys@[j]);
            }
            assert forall|topic_partition: TopicPartition| #[trigger]
                partitions@.contains(topic_partition) <==> self@.contains_key(
                partition_key(topic_partition),
            ) by {
                let key = partition_key(topic_partition);
                if partitions@.contains(topic_partition) {
                    let i = choose|i: int|
                        0 <= i < partitions@.len() && partitions@[i] == topic_partition;
                    assert(keys@[i] == key);
                    assert(keys@.contains(key));
                }
                if self.states@.contains_key(key) {
                    assert(keys@.contains(key));
                    let i = choose|i: int| 0 <= i < keys@.len() && keys@[i] == key;
                    assert(partition_key(partitions@[i]) == key);
                    assert(partitions@[i] == topic_partition);
                }
            }
        }
        partitions
    }

    /// Checks the creation of a partition.
    ///
    /// One that exists with exactly this ring and policy is left as it is.
    pub fn create(
        &mut self,
        topic_partition: TopicPartition,
        shards: Vec<ShardId>,
        replication_policy: PartitionReplicationPolicy,
    ) -> (step: CoordinatorStep)
        requires
            old(self).wf(),
            old(self).idle(),
        ensures
            final(self).wf(),
            final(self).states == old(self).states,
            create_step(
                old(self)@,
                topic_partition,
                shards@,
                replication_policy,
                step,
                final(self).pending,
            ),
    {
        if let Some(existing) = self.state(topic_partition) {
            let same = existing.sequencer.ring_epoch() == RingEpoch(1)
                && existing.sequencer.has_lanes(&shards) && existing.replication_policy
                == replication_policy;
            if same {
                return CoordinatorStep::Reply(Ok(CoordinatorReply::Done));
            }
            return CoordinatorStep::Reply(
                Err(EngineError::TopicAlreadyExists(topic_partition.topic_id)),
            );
        }
        match validate_virtual_lanes(&shards) {
            Err(error) => CoordinatorStep::Reply(Err(EngineError::Sequencer(error))),
            Ok(()) => {
                let event = JournalEvent::CreatePartition {
                    topic_partition,
                    ring_epoch: RingEpoch(1),
                    shards: copy_lanes(&shards),
                    policy_generation: replication_policy.policy_generation,
                    replication_factor: replication_policy.replication_factor,
                    min_in_sync_replicas: replication_policy.min_in_sync_replicas,
                };
                self.pending = Some(
                    PendingChange::Create { topic_partition, shards, replication_policy },
                );
                CoordinatorStep::Journal(event)
            },
        }
    }

    /// Checks a change of a partition's ring.
    pub fn reconfigure(
        &mut self,
        topic_partition: TopicPartition,
        ring_epoch: RingEpoch,
        shards: Vec<ShardId>,
    ) -> (step: CoordinatorStep)
        requires
            old(self).wf(),
            old(self).idle(),
        ensures
            final(self).wf(),
            final(self).states == old(self).states,
            reconfigure_step(
                old(self)@,
                topic_partition,
                ring_epoch,
                shards@,
                step,
                final(self).pending,
            ),
    {
        match self.state(topic_partition) {
            None => CoordinatorStep::Reply(Err(unknown(topic_partition))),
            Some(state) => {
                let current = state.sequencer.ring_epoch();
                if ring_epoch.0 <= current.0 {
                    return CoordinatorStep::Reply(
                        Err(
                            EngineError::Sequencer(
                                SequencerError::StaleRingEpoch { current, proposed: ring_epoch },
                            ),
                        ),
                    );
                }
                match validate_virtual_lanes(&shards) {
                    Err(error) => CoordinatorStep::Reply(Err(EngineError::Sequencer(error))),
                    Ok(()) => {
                        let event = JournalEvent::Configure {
                            topic_partition,
                            ring_epoch,
                            shards: copy_lanes(&shards),
                        };
                        self.pending = Some(
                            PendingChange::Reconfigure { topic_partition, ring_epoch, shards },
                        );
                        CoordinatorStep::Journal(event)
                    },
                }
            },
        }
    }

    /// Checks the commit or abort of an atomic group.
    pub fn finalize_atomic_group(
        &mut self,
        topic_partition: TopicPartition,
        transaction_id: u128,
        outcome: AtomicGroupState,
    ) -> (step: CoordinatorStep)
        requires
            old(self).wf(),
            old(self).idle(),
        ensures
            final(self).wf(),
            final(self).states == old(self).states,
            finalize_step(
                old(self)@,
                topic_partition,
                transaction_id,
                outcome,
                step,
                final(self).pending,
            ),
    {
        match self.state(topic_partition) {
            None => CoordinatorStep::Reply(Err(unknown(topic_partition))),
            Some(state) => match plan_finalize(state, topic_partition, transaction_id, outcome) {
                Err(error) => CoordinatorStep::Reply(Err(error)),
                Ok(Planned::Done(inspection)) => CoordinatorStep::Reply(
                    Ok(CoordinatorReply::Group(inspection)),
                ),
                Ok(Planned::Journal(event)) => {
                    self.pending = Some(
                        PendingChange::Finalize { topic_partition, transaction_id, outcome },
                    );
                    CoordinatorStep::Journal(event)
                },
            },
        }
    }

    /// Checks a change of a partition's replication policy.
    pub fn update_replication_policy(
        &mut self,
        topic_partition: TopicPartition,
        expected_policy_generation: u64,
        replication_policy: PartitionReplicationPolicy,
    ) -> (step: CoordinatorStep)
        requires
            old(self).wf(),
            old(self).idle(),
        ensures
            final(self).wf(),
            final(self).states == old(self).states,
            policy_step(
                old(self)@,
                topic_partition,
                expected_policy_generation,
                replication_policy,
                step,
                final(self).pending,
            ),
    {
        match self.state(topic_partition) {
            None => CoordinatorStep::Reply(Err(unknown(topic_partition))),
            Some(state) => match plan_policy(
                state,
                topic_partition,
                expected_policy_generation,
                replication_policy,
            ) {
                Err(error) => CoordinatorStep::Reply(Err(error)),
                Ok(Planned::Done(())) => CoordinatorStep::Reply(Ok(CoordinatorReply::Done)),
                Ok(Planned::Journal(event)) => {
                    self.pending = Some(
                        PendingChange::Policy { topic_partition, replication_policy },
                    );
                    CoordinatorStep::Journal(event)
                },
            },
        }
    }

    /// Checks the removal of everything below `log_start`.
    pub fn truncate(&mut self, topic_partition: TopicPartition, log_start: LogicalOffset) -> (step:
        CoordinatorStep)
        requires
            old(self).wf(),
            old(self).idle(),
        ensures
            final(self).wf(),
            final(self).states == old(self).states,
            truncate_step(old(self)@, topic_partition, log_start, step, final(self).pending),
    {
        match self.state(topic_partition) {
            None => CoordinatorStep::Reply(Err(unknown(topic_partition))),
            Some(state) => match plan_truncate(state, topic_partition, log_start) {
                Err(error) => CoordinatorStep::Reply(Err(error)),
                Ok(Planned::Done(watermarks)) => CoordinatorStep::Reply(
                    Ok(CoordinatorReply::Watermarks(watermarks)),
                ),
                Ok(Planned::Journal(event)) => {
                    self.pending = Some(PendingChange::Truncate { topic_partition, log_start });
                    CoordinatorStep::Journal(event)
                },
            },
        }
    }

    /// Makes the change that waited for the journal, or drops it when the
    /// journal could not keep it.
    pub fn journaled(&mut self, kept: EngineResult<()>) -> (result: EngineResult<CoordinatorReply>)
        requires
            old(self).wf(),
            !old(self).idle(),
        ensures
            final(self).wf(),
            final(self).idle(),
            match kept {
                Err(error) => final(self)@ == old(self)@ && result == Err::<CoordinatorReply, _>(
                    error,
                ),
                Ok(()) => final(self)@ == changed(old(self)@, old(self).pending->0) && change_reply(
                    final(self)@,
                    old(self).pending->0,
                    result,
                ),
            },
    {
        let pending = self.pending.take();
        let ghost before = *self;
        match kept {
            Err(error) => {
                return Err(error);
            },
            Ok(()) => {},
        }
        match pending {
            None => Ok(CoordinatorReply::Done),
            Some(PendingChange::Create { topic_partition, shards, replication_policy }) => {
                match TopicSequencer::new(
                    topic_partition.topic_id,
                    topic_partition.partition_id,
                    RingEpoch(1),
                    shards,
                ) {
                    Err(error) => Err(EngineError::Sequencer(error)),
                    Ok(sequencer) => {
                        let state = PartitionState::empty(sequencer, replication_policy);
                        proof {
                            assert(self.states@ =~= before.states@.remove(
                                partition_key(topic_partition),
                            ));
                        }
                        self.put(topic_partition, state, Ghost(before));
                        Ok(CoordinatorReply::Done)
                    },
                }
            },
            Some(PendingChange::Finalize { topic_partition, transaction_id, outcome }) => {
                match self.take(topic_partition) {
                    None => Err(unknown(topic_partition)),
                    Some(taken) => {
                        let mut state = taken;
                        let result = apply_finalize(&mut state, transaction_id, outcome);
                        self.put(topic_partition, state, Ghost(before));
                        match result {
                            Ok(inspection) => Ok(CoordinatorReply::Group(inspection)),
                            Err(error) => Err(error),
                        }
                    },
                }
            },
            Some(PendingChange::Reconfigure { topic_partition, ring_epoch, shards }) => {
                match self.take(topic_partition) {
                    None => Err(unknown(topic_partition)),
                    Some(taken) => {
                        let mut state = taken;
                        let ghost held = state@;
                        let ghost lanes = shards@;
                        let result = state.sequencer.reconfigure(ring_epoch, shards);
                        proof {
                            assert(state@ =~= reringed(held, ring_epoch, lanes));
                        }
                        self.put(topic_partition, state, Ghost(before));
                        match result {
                            Ok(()) => Ok(CoordinatorReply::Done),
                            Err(error) => Err(EngineError::Sequencer(error)),
                        }
                    },
                }
            },
            Some(PendingChange::Policy { topic_partition, replication_policy }) => {
                match self.take(topic_partition) {
                    None => Err(unknown(topic_partition)),
                    Some(taken) => {
                        let mut state = taken;
                        apply_policy(&mut state, replication_policy);
                        self.put(topic_partition, state, Ghost(before));
                        Ok(CoordinatorReply::Done)
                    },
                }
            },
            Some(PendingChange::Truncate { topic_partition, log_start }) => {
                match self.take(topic_partition) {
                    None => Err(unknown(topic_partition)),
                    Some(taken) => {
                        let mut state = taken;
                        let watermarks = apply_truncate(&mut state, log_start);
                        self.put(topic_partition, state, Ghost(before));
                        Ok(CoordinatorReply::Watermarks(watermarks))
                    },
                }
            },
        }
    }

    /// Carries out one command, or gives the event that the journal has to keep first.
    pub fn decide(&mut self, command: CoordinatorCommand) -> (step: CoordinatorStep)
        requires
            old(self).wf(),
            old(self).idle(),
            command.valid(),
        ensures
            final(self).wf(),
            decision(old(self)@, command, final(self)@, final(self).pending, step),
    {
        match command {
            CoordinatorCommand::Create { topic_partition, shards, replication_policy } => self.create(
                topic_partition,
                shards,
                replication_policy,
            ),
            CoordinatorCommand::Reserve { topic_partition, request_id, producer, atomic_group, record_count, payload_bytes, payload_digest } => match self.reserve(topic_partition, request_id, producer, atomic_group, record_count, payload_bytes, payload_digest) {
                Ok(value) => CoordinatorStep::Reply(Ok(CoordinatorReply::Outcome(value))),
                Err(error) => CoordinatorStep::Reply(Err(error)),
            },
            CoordinatorCommand::ReserveReplica { topic_partition, reservation, producer, atomic_group, payload_bytes, payload_digest } => match self.reserve_replica(topic_partition, reservation, producer, atomic_group, payload_bytes, payload_digest) {
                Ok(value) => CoordinatorStep::Reply(Ok(CoordinatorReply::Outcome(value))),
                Err(error) => CoordinatorStep::Reply(Err(error)),
            },
            CoordinatorCommand::ObserveLeaderEpoch { topic_partition, leader_epoch } => match self.observe_leader_epoch(topic_partition, leader_epoch) {
                Ok(()) => CoordinatorStep::Reply(Ok(CoordinatorReply::Done)),
                Err(error) => CoordinatorStep::Reply(Err(error)),
            },
            CoordinatorCommand::Complete { topic_partition, completion } => match self.complete(topic_partition, completion) {
                Ok(value) => CoordinatorStep::Reply(Ok(CoordinatorReply::Response(value))),
                Err(error) => CoordinatorStep::Reply(Err(error)),
            },
            CoordinatorCommand::ReplicaCountDurable { topic_partition, reservation, durable_replicas } => match self.record_durable_replicas(topic_partition, reservation, durable_replicas) {
                Ok(()) => CoordinatorStep::Reply(Ok(CoordinatorReply::Done)),
                Err(error) => CoordinatorStep::Reply(Err(error)),
            },
            CoordinatorCommand::Fail { topic_partition, reservation, producer, definitely_not_written } => match self.fail(topic_partition, reservation, producer, definitely_not_written) {
                Ok(()) => CoordinatorStep::Reply(Ok(CoordinatorReply::Done)),
                Err(error) => CoordinatorStep::Reply(Err(error)),
            },
            CoordinatorCommand::FetchSnapshot { topic_partition, start_offset } => match self.fetch_snapshot(topic_partition, start_offset) {
                Ok(value) => CoordinatorStep::Reply(Ok(CoordinatorReply::Bounds(value))),
                Err(error) => CoordinatorStep::Reply(Err(error)),
            },
            CoordinatorCommand::Watermarks { topic_partition } => match self.watermarks(topic_partition) {
                Ok(value) => CoordinatorStep::Reply(Ok(CoordinatorReply::Watermarks(value))),
                Err(error) => CoordinatorStep::Reply(Err(error)),
            },
            CoordinatorCommand::ReplicationPolicy { topic_partition } => match self.replication_policy(topic_partition) {
                Ok(value) => CoordinatorStep::Reply(Ok(CoordinatorReply::Policy(value))),
                Err(error) => CoordinatorStep::Reply(Err(error)),
            },
            CoordinatorCommand::ProducerProgress { topic_partition, producer_id } => match self.producer_progress(topic_partition, producer_id) {
                Ok(value) => CoordinatorStep::Reply(Ok(CoordinatorReply::Progress(value))),
                Err(error) => CoordinatorStep::Reply(Err(error)),
            },
            CoordinatorCommand::IdempotentReceipt { topic_partition, producer } => match self.idempotent_receipt(topic_partition, producer) {
                Ok(value) => CoordinatorStep::Reply(Ok(CoordinatorReply::Receipt(value))),
                Err(error) => CoordinatorStep::Reply(Err(error)),
            },
            CoordinatorCommand::PartitionEpochs { topic_partition } => match self.partition_epochs(topic_partition) {
                Ok(value) => CoordinatorStep::Reply(Ok(CoordinatorReply::Epochs(value))),
                Err(error) => CoordinatorStep::Reply(Err(error)),
            },
            CoordinatorCommand::InspectAtomicGroup { topic_partition, transaction_id } => match self.inspect_atomic_group(topic_partition, transaction_id) {
                Ok(value) => CoordinatorStep::Reply(Ok(CoordinatorReply::Group(value))),
                Err(error) => CoordinatorStep::Reply(Err(error)),
            },
            CoordinatorCommand::ReplicaNextBatch { topic_partition } => match self.replica_next_batch(topic_partition) {
                Ok(value) => CoordinatorStep::Reply(Ok(CoordinatorReply::NextBatch(value))),
                Err(error) => CoordinatorStep::Reply(Err(error)),
            },
            CoordinatorCommand::CommittedCandidates {
                topic_partition,
                candidates,
                include_unresolved,
            } => match self.committed_candidates(topic_partition, &candidates, include_unresolved) {
                Ok(set) => CoordinatorStep::Reply(Ok(CoordinatorReply::Committed(set))),
                Err(error) => CoordinatorStep::Reply(Err(error)),
            },
            CoordinatorCommand::FinalizeAtomicGroup {
                topic_partition,
                transaction_id,
                outcome,
            } => self.finalize_atomic_group(topic_partition, transaction_id, outcome),
            CoordinatorCommand::WaitUntilVisible { topic_partition, through, mode, waiter } => {
                match self.wait_until_visible(topic_partition, through, mode, waiter) {
                    Ok(true) => CoordinatorStep::Reply(Ok(CoordinatorReply::Done)),
                    Ok(false) => CoordinatorStep::Wait,
                    Err(error) => CoordinatorStep::Reply(Err(error)),
                }
            },
            CoordinatorCommand::Reconfigure { topic_partition, ring_epoch, shards } => {
                self.reconfigure(topic_partition, ring_epoch, shards)
            },
            CoordinatorCommand::UpdateReplicationPolicy {
                topic_partition,
                expected_policy_generation,
                replication_policy,
            } => self.update_replication_policy(
                topic_partition,
                expected_policy_generation,
                replication_policy,
            ),
            CoordinatorCommand::Truncate { topic_partition, log_start } => self.truncate(
                topic_partition,
                log_start,
            ),
            CoordinatorCommand::TopicPartitions { topic_id } => CoordinatorStep::Reply(
                Ok(CoordinatorReply::TopicPartitions(self.topic_partitions(topic_id))),
            ),
            CoordinatorCommand::AllPartitions => CoordinatorStep::Reply(
                Ok(CoordinatorReply::AllPartitions(self.all_partitions())),
            ),
        }
    }
}

impl CoordinatorCommand {
    /// Batches have at least one record.
    pub open spec fn valid(self) -> bool {
        match self {
            CoordinatorCommand::Reserve { record_count, .. } => record_count > 0,
            CoordinatorCommand::ReserveReplica { reservation, .. } => reservation.record_count > 0,
            _ => true,
        }
    }
}

/// Which of the candidate batches a fetch may return.
pub open spec fn committed_answer(
    before: Partitions,
    topic_partition: TopicPartition,
    candidates: Seq<BatchId>,
    include_unresolved: bool,
    result: EngineResult<CommittedBatchSet>,
) -> bool {
    let key = partition_key(topic_partition);
    if !before.contains_key(key) {
        result is Err && result->Err_0@ == unknown_partition(topic_partition)
    } else if spread_exceeds(candidates, usize::MAX as int) {
        result is Err && result->Err_0@ == Fault::InvalidConfig(
            "fetch candidate window exceeds usize"@,
        )
    } else {
        &&& result is Ok
        &&& result->Ok_0.wf()
        &&& forall|id: u128| #[trigger]
            result->Ok_0@.contains(id) <==> candidates.contains(BatchId(id))
                && before[key].retains(BatchId(id)) && fetchable(
                before[key].batch(BatchId(id)),
                include_unresolved,
            )
    }
}

/// The state after a caller asked to wait, and whether it need not.
pub open spec fn awaited(
    m: PartitionModel,
    through: LogicalOffset,
    mode: VisibilityMode,
    waiter: u64,
) -> (PartitionModel, Result<bool, Fault>) {
    let name = Waiter { through: through.0, id: waiter };
    match mode {
        VisibilityMode::Ordered => if m.stable.offset.0 >= through.0 {
            (m, Ok(true))
        } else {
            (
                PartitionModel { ordered_waiters: queued(m.ordered_waiters, name), ..m },
                Ok(false),
            )
        },
        VisibilityMode::Replicated => if m.replicated_end().0 >= through.0 {
            (m, Ok(true))
        } else {
            (
                PartitionModel { replicated_waiters: queued(m.replicated_waiters, name), ..m },
                Ok(false),
            )
        },
    }
}

/// A step is a refusal.
pub open spec fn refuses(step: CoordinatorStep, fault: Fault) -> bool {
    step matches CoordinatorStep::Reply(Err(error)) && error@ == fault
}

pub open spec fn create_step(
    before: Partitions,
    topic_partition: TopicPartition,
    shards: Seq<ShardId>,
    policy: PartitionReplicationPolicy,
    step: CoordinatorStep,
    pending: Option<PendingChange>,
) -> bool {
    let key = partition_key(topic_partition);
    let held = before[key];
    if before.contains_key(key) {
        &&& pending is None
        &&& if held.sequencer.ring_epoch == RingEpoch(1) && held.sequencer.virtual_lanes == shards
            && held.policy == policy {
            step == CoordinatorStep::Reply(Ok(CoordinatorReply::Done))
        } else {
            refuses(step, Fault::TopicAlreadyExists(topic_partition.topic_id))
        }
    } else if !ring_valid(shards) {
        &&& pending is None
        &&& step matches CoordinatorStep::Reply(Err(EngineError::Sequencer(error))) && ring_fault(
            shards,
            error,
        )
    } else {
        &&& pending matches Some(PendingChange::Create { topic_partition: tp, shards: s, replication_policy })
            && tp == topic_partition && s@ == shards && replication_policy == policy
        &&& step matches CoordinatorStep::Journal(
            JournalEvent::CreatePartition {
                topic_partition: tp,
                ring_epoch,
                shards: s,
                policy_generation,
                replication_factor,
                min_in_sync_replicas,
            },
        ) && tp == topic_partition && ring_epoch == RingEpoch(1) && s@ == shards
            && policy_generation == policy.policy_generation && replication_factor
            == policy.replication_factor && min_in_sync_replicas == policy.min_in_sync_replicas
    }
}

pub open spec fn reconfigure_step(
    before: Partitions,
    topic_partition: TopicPartition,
    ring_epoch: RingEpoch,
    shards: Seq<ShardId>,
    step: CoordinatorStep,
    pending: Option<PendingChange>,
) -> bool {
    let key = partition_key(topic_partition);
    if !before.contains_key(key) {
        pending is None && refuses(step, unknown_partition(topic_partition))
    } else if ring_epoch.0 <= before[key].sequencer.ring_epoch.0 {
        pending is None && refuses(
            step,
            Fault::Sequencer(
                SequencerError::StaleRingEpoch {
                    current: before[key].sequencer.ring_epoch,
                    proposed: ring_epoch,
                },
            ),
        )
    } else if !ring_valid(shards) {
        &&& pending is None
        &&& step matches CoordinatorStep::Reply(Err(EngineError::Sequencer(error))) && ring_fault(
            shards,
            error,
        )
    } else {
        &&& pending matches Some(PendingChange::Reconfigure { topic_partition: tp, ring_epoch: e, shards: s })
            && tp == topic_partition && e == ring_epoch && s@ == shards
        &&& step matches CoordinatorStep::Journal(
            JournalEvent::Configure { topic_partition: tp, ring_epoch: e, shards: s },
        ) && tp == topic_partition && e == ring_epoch && s@ == shards
    }
}

pub open spec fn finalize_step(
    before: Partitions,
    topic_partition: TopicPartition,
    transaction_id: u128,
    outcome: AtomicGroupState,
    step: CoordinatorStep,
    pending: Option<PendingChange>,
) -> bool {
    let key = partition_key(topic_partition);
    if !before.contains_key(key) {
        pending is None && refuses(step, unknown_partition(topic_partition))
    } else {
        match before[key].finalizing(transaction_id, outcome) {
            Err(fault) => pending is None && refuses(step, fault),
            Ok(Some(inspection)) => pending is None && step == CoordinatorStep::Reply(
                Ok(CoordinatorReply::Group(inspection)),
            ),
            Ok(None) => {
                &&& pending == Some(
                    PendingChange::Finalize { topic_partition, transaction_id, outcome },
                )
                &&& step == CoordinatorStep::Journal(
                    if outcome == AtomicGroupState::Committed {
                        JournalEvent::GroupCommit { topic_partition, transaction_id }
                    } else {
                        JournalEvent::GroupAbort { topic_partition, transaction_id }
                    },
                )
            },
        }
    }
}

pub open spec fn policy_step(
    before: Partitions,
    topic_partition: TopicPartition,
    expected_policy_generation: u64,
    replication_policy: PartitionReplicationPolicy,
    step: CoordinatorStep,
    pending: Option<PendingChange>,
) -> bool {
    let key = partition_key(topic_partition);
    if !before.contains_key(key) {
        pending is None && refuses(step, unknown_partition(topic_partition))
    } else {
        match before[key].policy_change(expected_policy_generation, replication_policy) {
            Err(fault) => pending is None && refuses(step, fault),
            Ok(false) => pending is None && step == CoordinatorStep::Reply(
                Ok(CoordinatorReply::Done),
            ),
            Ok(true) => {
                &&& pending == Some(PendingChange::Policy { topic_partition, replication_policy })
                &&& step == CoordinatorStep::Journal(
                    JournalEvent::UpdateReplicationPolicy {
                        topic_partition,
                        expected_policy_generation,
                        policy_generation: replication_policy.policy_generation,
                        replication_factor: replication_policy.replication_factor,
                        min_in_sync_replicas: replication_policy.min_in_sync_replicas,
                    },
                )
            },
        }
    }
}

pub open spec fn truncate_step(
    before: Partitions,
    topic_partition: TopicPartition,
    log_start: LogicalOffset,
    step: CoordinatorStep,
    pending: Option<PendingChange>,
) -> bool {
    let key = partition_key(topic_partition);
    if !before.contains_key(key) {
        pending is None && refuses(step, unknown_partition(topic_partition))
    } else {
        match before[key].truncation(log_start) {
            Err(fault) => pending is None && refuses(step, fault),
            Ok(None) => pending is None && step == CoordinatorStep::Reply(
                Ok(CoordinatorReply::Watermarks(before[key].watermarks())),
            ),
            Ok(Some(_)) => {
                &&& pending == Some(PendingChange::Truncate { topic_partition, log_start })
                &&& step == CoordinatorStep::Journal(
                    JournalEvent::Truncate { topic_partition, log_start },
                )
            },
        }
    }
}

/// The answer to a request whose change the journal kept.
pub open spec fn change_reply(
    after: Partitions,
    change: PendingChange,
    result: EngineResult<CoordinatorReply>,
) -> bool {
    match change {
        PendingChange::Finalize { topic_partition, transaction_id, .. } => {
            match after[partition_key(topic_partition)].inspected(transaction_id) {
                Ok(inspection) => result == Ok::<_, EngineError>(
                    CoordinatorReply::Group(inspection),
                ),
                Err(fault) => result is Err && result->Err_0@ == fault,
            }
        },
        PendingChange::Truncate { topic_partition, .. } => result == Ok::<_, EngineError>(
            CoordinatorReply::Watermarks(after[partition_key(topic_partition)].watermarks()),
        ),
        _ => result == Ok::<_, EngineError>(CoordinatorReply::Done),
    }
}

/// What one command does to the partitions and what comes of it.
pub open spec fn decision(
    before: Partitions,
    command: CoordinatorCommand,
    after: Partitions,
    pending: Option<PendingChange>,
    step: CoordinatorStep,
) -> bool {
    match command {
        CoordinatorCommand::Create { topic_partition, shards, replication_policy } => {
            &&& after == before
            &&& create_step(
                before,
                topic_partition,
                shards@,
                replication_policy,
                step,
                pending,
            )
        },
        CoordinatorCommand::Reserve { topic_partition, request_id, producer, atomic_group, record_count, payload_bytes, payload_digest } => {
            let expected = reserve_step(before[partition_key(topic_partition)], request_id, producer, atomic_group, record_count, payload_bytes, payload_digest);
            &&& pending is None
            &&& match step {
                CoordinatorStep::Reply(Ok(CoordinatorReply::Outcome(value))) => routed(before, after, topic_partition, expected, Ok(value)),
                CoordinatorStep::Reply(Err(error)) => routed(before, after, topic_partition, expected, Err(error)),
                _ => false,
            }
        },
        CoordinatorCommand::ReserveReplica { topic_partition, reservation, producer, atomic_group, payload_bytes, payload_digest } => {
            let expected = replica_step(before[partition_key(topic_partition)], reservation, producer, atomic_group, payload_bytes, payload_digest);
            &&& pending is None
            &&& match step {
                CoordinatorStep::Reply(Ok(CoordinatorReply::Outcome(value))) => routed(before, after, topic_partition, expected, Ok(value)),
                CoordinatorStep::Reply(Err(error)) => routed(before, after, topic_partition, expected, Err(error)),
                _ => false,
            }
        },
        CoordinatorCommand::ObserveLeaderEpoch { topic_partition, leader_epoch } => {
            let expected = observed_epoch(before[partition_key(topic_partition)], leader_epoch);
            &&& pending is None
            &&& match step {
                CoordinatorStep::Reply(Ok(CoordinatorReply::Done)) => routed(before, after, topic_partition, expected, Ok(())),
                CoordinatorStep::Reply(Err(error)) => routed(before, after, topic_partition, expected, Err(error)),
                _ => false,
            }
        },
        CoordinatorCommand::Complete { topic_partition, completion } => {
            let expected = before[partition_key(topic_partition)].completing(completion);
            &&& pending is None
            &&& match step {
                CoordinatorStep::Reply(Ok(CoordinatorReply::Response(value))) => routed(before, after, topic_partition, expected, Ok(value)),
                CoordinatorStep::Reply(Err(error)) => routed(before, after, topic_partition, expected, Err(error)),
                _ => false,
            }
        },
        CoordinatorCommand::ReplicaCountDurable { topic_partition, reservation, durable_replicas } => {
            let expected = before[partition_key(topic_partition)].credited(reservation, durable_replicas);
            &&& pending is None
            &&& match step {
                CoordinatorStep::Reply(Ok(CoordinatorReply::Done)) => routed(before, after, topic_partition, expected, Ok(())),
                CoordinatorStep::Reply(Err(error)) => routed(before, after, topic_partition, expected, Err(error)),
                _ => false,
            }
        },
        CoordinatorCommand::Fail { topic_partition, reservation, producer, definitely_not_written } => {
            let expected = before[partition_key(topic_partition)].failing(reservation, producer, definitely_not_written);
            &&& pending is None
            &&& match step {
                CoordinatorStep::Reply(Ok(CoordinatorReply::Done)) => routed(before, after, topic_partition, expected, Ok(())),
                CoordinatorStep::Reply(Err(error)) => routed(before, after, topic_partition, expected, Err(error)),
                _ => false,
            }
        },
        CoordinatorCommand::FetchSnapshot { topic_partition, start_offset } => {
            let expected = bounds_from(before[partition_key(topic_partition)], start_offset);
            &&& pending is None
            &&& after == before
            &&& match step {
                CoordinatorStep::Reply(Ok(CoordinatorReply::Bounds(value))) => answered(before, topic_partition, expected, Ok(value)),
                CoordinatorStep::Reply(Err(error)) => answered(before, topic_partition, expected, Err(error)),
                _ => false,
            }
        },
        CoordinatorCommand::Watermarks { topic_partition } => {
            let expected = Ok(before[partition_key(topic_partition)].watermarks());
            &&& pending is None
            &&& after == before
            &&& match step {
                CoordinatorStep::Reply(Ok(CoordinatorReply::Watermarks(value))) => answered(before, topic_partition, expected, Ok(value)),
                CoordinatorStep::Reply(Err(error)) => answered(before, topic_partition, expected, Err(error)),
                _ => false,
            }
        },
        CoordinatorCommand::ReplicationPolicy { topic_partition } => {
            let expected = Ok(before[partition_key(topic_partition)].policy);
            &&& pending is None
            &&& after == before
            &&& match step {
                CoordinatorStep::Reply(Ok(CoordinatorReply::Policy(value))) => answered(before, topic_partition, expected, Ok(value)),
                CoordinatorStep::Reply(Err(error)) => answered(before, topic_partition, expected, Err(error)),
                _ => false,
            }
        },
        CoordinatorCommand::ProducerProgress { topic_partition, producer_id } => {
            let expected = Ok(progress_of(before[partition_key(topic_partition)], producer_id));
            &&& pending is None
            &&& after == before
            &&& match step {
                CoordinatorStep::Reply(Ok(CoordinatorReply::Progress(value))) => answered(before, topic_partition, expected, Ok(value)),
                CoordinatorStep::Reply(Err(error)) => answered(before, topic_partition, expected, Err(error)),
                _ => false,
            }
        },
        CoordinatorCommand::IdempotentReceipt { topic_partition, producer } => {
            let expected = receipt_of(before[partition_key(topic_partition)], producer);
            &&& pending is None
            &&& after == before
            &&& match step {
                CoordinatorStep::Reply(Ok(CoordinatorReply::Receipt(value))) => answered(before, topic_partition, expected, Ok(value)),
                CoordinatorStep::Reply(Err(error)) => answered(before, topic_partition, expected, Err(error)),
                _ => false,
            }
        },
        CoordinatorCommand::PartitionEpochs { topic_partition } => {
            let expected = Ok(epochs_of(before[partition_key(topic_partition)]));
            &&& pending is None
            &&& after == before
            &&& match step {
                CoordinatorStep::Reply(Ok(CoordinatorReply::Epochs(value))) => answered(before, topic_partition, expected, Ok(value)),
                CoordinatorStep::Reply(Err(error)) => answered(before, topic_partition, expected, Err(error)),
                _ => false,
            }
        },
        CoordinatorCommand::InspectAtomicGroup { topic_partition, transaction_id } => {
            let expected = before[partition_key(topic_partition)].inspected(transaction_id);
            &&& pending is None
            &&& after == before
            &&& match step {
                CoordinatorStep::Reply(Ok(CoordinatorReply::Group(value))) => answered(before, topic_partition, expected, Ok(value)),
                CoordinatorStep::Reply(Err(error)) => answered(before, topic_partition, expected, Err(error)),
                _ => false,
            }
        },
        CoordinatorCommand::ReplicaNextBatch { topic_partition } => {
            let expected = Ok(BatchId(before[partition_key(topic_partition)].sequencer.next_batch_id));
            &&& pending is None
            &&& after == before
            &&& match step {
                CoordinatorStep::Reply(Ok(CoordinatorReply::NextBatch(value))) => answered(before, topic_partition, expected, Ok(value)),
                CoordinatorStep::Reply(Err(error)) => answered(before, topic_partition, expected, Err(error)),
                _ => false,
            }
        },
        CoordinatorCommand::CommittedCandidates {
            topic_partition,
            candidates,
            include_unresolved,
        } => {
            &&& pending is None
            &&& after == before
            &&& match step {
                CoordinatorStep::Reply(Ok(CoordinatorReply::Committed(set))) => committed_answer(
                    before,
                    topic_partition,
                    candidates@,
                    include_unresolved,
                    Ok(set),
                ),
                CoordinatorStep::Reply(Err(error)) => committed_answer(
                    before,
                    topic_partition,
                    candidates@,
                    include_unresolved,
                    Err(error),
                ),
                _ => false,
            }
        },
        CoordinatorCommand::FinalizeAtomicGroup { topic_partition, transaction_id, outcome } => {
            &&& after == before
            &&& finalize_step(before, topic_partition, transaction_id, outcome, step, pending)
        },
        CoordinatorCommand::WaitUntilVisible { topic_partition, through, mode, waiter } => {
            let expected = awaited(before[partition_key(topic_partition)], through, mode, waiter);
            &&& pending is None
            &&& match step {
                CoordinatorStep::Reply(Ok(CoordinatorReply::Done)) => routed(
                    before,
                    after,
                    topic_partition,
                    expected,
                    Ok(true),
                ),
                CoordinatorStep::Wait => routed(
                    before,
                    after,
                    topic_partition,
                    expected,
                    Ok(false),
                ),
                CoordinatorStep::Reply(Err(error)) => routed(
                    before,
                    after,
                    topic_partition,
                    expected,
                    Err(error),
                ),
                _ => false,
            }
        },
        CoordinatorCommand::Reconfigure { topic_partition, ring_epoch, shards } => {
            &&& after == before
            &&& reconfigure_step(before, topic_partition, ring_epoch, shards@, step, pending)
        },
        CoordinatorCommand::UpdateReplicationPolicy {
            topic_partition,
            expected_policy_generation,
            replication_policy,
        } => {
            &&& after == before
            &&& policy_step(
                before,
                topic_partition,
                expected_policy_generation,
                replication_policy,
                step,
                pending,
            )
        },
        CoordinatorCommand::Truncate { topic_partition, log_start } => {
            &&& after == before
            &&& truncate_step(before, topic_partition, log_start, step, pending)
        },
        CoordinatorCommand::TopicPartitions { topic_id } => {
            &&& pending is None
            &&& after == before
            &&& step matches CoordinatorStep::Reply(Ok(CoordinatorReply::TopicPartitions(ids)))
                && ids@.no_duplicates() && (forall|id: LogicalPartitionId| #[trigger]
                ids@.contains(id) <==> before.contains_key(
                    partition_key(TopicPartition { topic_id, partition_id: id }),
                ))
        },
        CoordinatorCommand::AllPartitions => {
            &&& pending is None
            &&& after == before
            &&& step matches CoordinatorStep::Reply(Ok(CoordinatorReply::AllPartitions(all)))
                && all@.no_duplicates() && (forall|topic_partition: TopicPartition| #[trigger]
                all@.contains(topic_partition) <==> before.contains_key(
                    partition_key(topic_partition),
                ))
        },
    }
}

} // verus!
