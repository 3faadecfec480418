use std::cell::{Cell, RefCell};
use std::collections::VecDeque;
use std::rc::Rc;

use shard_stream::append::{
    admit_append, after_reserve, replica_append, AdmittedAppend, AfterReserve, AfterWrite,
    AppendDurability, LocalWrite,
};
use shard_stream::config::{EngineConfig, PartitionReplicationPolicy, TopicConfig};
use shard_stream::dispatch::{
    Coordinator, CoordinatorCommand, CoordinatorReply, CoordinatorStep,
};
use shard_stream::durable_apply::{
    dispatch_step, responses, worker_stopped, Admission, DispatchStep, DurableApplyConfig,
    PartitionAdmission,
};
use shard_stream::engine::{
    atomic_group_sequence, cancel_replica_append, check_catalog, check_open, check_retained_start,
    check_topic_policy, count_retained, counts_on, plan_replica_append, recovered_stretch, replay_budget, retained_budget, shard_for_lane, topic_ring,
    truncate_partition, ReplicaAppendPlan, RetentionGuard,
};
use shard_stream::error::{EngineError, EngineResult};
use shard_stream::fencing::{WriteFence, WriteFenceError};
use shard_stream::fetch::{materialize_stored_batches, select_fetch_plan, FetchedBatch};
use shard_stream::fetch_session::{
    fetch_budget, fetch_end, present_all, visibility_mode, FetchCompletion, FetchSession,
};
use shard_stream::ids::{
    BatchId, LeaderEpoch, LogicalOffset, LogicalPartitionId, PlacementSequence, RecordId,
    RingEpoch, ShardId, TopicId, TopicPartition, VirtualLaneId,
};
use shard_stream::partition::{AtomicGroupInspection, AtomicGroupState, PartitionWatermarks};
use shard_stream::pool::recovered_partitions;
use shard_stream::protocol::{
    AppendRequest, AppendResponse, AtomicGroupIdentity, Durability, ExtentCatalogEntry, FetchMode,
    FetchRequest, JournalEvent, PayloadDigest, ProducerIdentity, ReplicaAppend, StoredBatch,
    StoredBatchMetadata,
};
use shard_stream::recover_all::recover_partition_states;
use shard_stream::replica_group::{Placed, ReplicaGroup};
use shard_stream::sequencer::{Placement, Reservation};
use shard_stream::time::Duration;

/// The stable identity of a batch.
fn identity(reservation: &Reservation) -> RecordId {
    RecordId::new(
        reservation.topic_id.get() << 96
            | u128::from(reservation.partition_id.get()) << 64
            | reservation.batch_id.get(),
    )
}

fn checked_append(request: &AppendRequest, max_batch_bytes: usize) -> Result<u32, String> {
    if request.record_count == 0 {
        return Err("record count must be nonzero".into());
    }
    if request.payload.len() > max_batch_bytes {
        return Err("payload is too large".into());
    }
    Ok(request.record_count)
}

fn checked_fetch(request: &FetchRequest) -> Result<(), String> {
    if request.max_bytes == 0 {
        return Err("max_bytes must be nonzero".into());
    }
    Ok(())
}

/// What outlives an engine: its journal and the batches of its shards.
#[derive(Default)]
struct Disk {
    journal: Vec<JournalEvent>,
    shards: Vec<Vec<(StoredBatch, bool)>>,
}

trait Transport {
    fn replicate(
        &self,
        batch: ReplicaAppend,
        required_followers: u32,
        progress: &mut Vec<(Reservation, u32)>,
    ) -> EngineResult<u32>;
}

struct ExactEpochFence;

impl WriteFence for ExactEpochFence {
    fn check_write(
        &self,
        _topic_partition: TopicPartition,
        leader_epoch: u64,
    ) -> Result<(), WriteFenceError> {
        if leader_epoch == 7 {
            Ok(())
        } else {
            Err(WriteFenceError::new(format!(
                "expected epoch 7, received epoch {leader_epoch}"
            )))
        }
    }
}

struct PinnedAt(u64);

impl RetentionGuard for PinnedAt {
    fn validate_advance(
        &self,
        _topic_partition: TopicPartition,
        proposed_log_start: LogicalOffset,
    ) -> EngineResult<()> {
        if proposed_log_start.get() > self.0 {
            return Err(EngineError::RetentionPinned {
                requested: proposed_log_start,
                pinned: LogicalOffset::new(self.0),
            });
        }
        Ok(())
    }
}

/// An engine whose storage is memory.
struct Engine {
    config: EngineConfig,
    coordinator: Coordinator,
    disk: Disk,
    transport: Option<Rc<dyn Transport>>,
    fence: Option<ExactEpochFence>,
    guard: Option<PinnedAt>,
    recovered: Vec<TopicPartition>,
}

struct InFlight {
    append: AdmittedAppend,
    write: LocalWrite,
    request: AppendRequest,
}

impl Engine {
    fn open(config: EngineConfig) -> EngineResult<Self> {
        Self::reopen(config, Disk::default(), None)
    }

    fn reopen(
        config: EngineConfig,
        mut disk: Disk,
        transport: Option<Rc<dyn Transport>>,
    ) -> EngineResult<Self> {
        check_open(&config, transport.is_some())?;
        while disk.shards.len() < config.shard_count as usize {
            disk.shards.push(Vec::new());
        }
        let catalog = disk
            .shards
            .iter()
            .flatten()
            .map(|(batch, object_durable)| ExtentCatalogEntry {
                reservation: batch.reservation,
                producer: batch.producer,
                atomic_group: batch.atomic_group,
                payload_bytes: batch.payload.len() as u64,
                object_durable: *object_durable,
                record_id: identity(&batch.reservation),
            })
            .collect::<Vec<_>>();
        check_catalog(&catalog)?;
        let recovered = recovered_partitions(&catalog);
        let states = recover_partition_states(&config, &disk.journal, &catalog, 1)?;
        Ok(Self {
            config,
            coordinator: Coordinator::new(states),
            disk,
            transport,
            fence: None,
            guard: None,
            recovered,
        })
    }

    fn settle(&mut self, step: CoordinatorStep) -> EngineResult<CoordinatorReply> {
        match step {
            CoordinatorStep::Reply(result) => result,
            CoordinatorStep::Journal(event) => {
                self.disk.journal.push(event);
                self.coordinator.journaled(Ok(()))
            }
            CoordinatorStep::Wait => panic!("nothing to wait for"),
        }
    }

    fn create_topic(&mut self, topic: TopicConfig) -> EngineResult<()> {
        let policy = self.config.default_replication_policy();
        self.create_topic_with_policy(topic, policy)
    }

    fn create_topic_with_policy(
        &mut self,
        topic: TopicConfig,
        policy: PartitionReplicationPolicy,
    ) -> EngineResult<()> {
        let shards = topic_ring(&self.config, &topic, &policy)?;
        for partition_id in 0..topic.partitions {
            let step = self.coordinator.decide(CoordinatorCommand::Create {
                topic_partition: TopicPartition::new(
                    topic.topic_id,
                    LogicalPartitionId::new(partition_id),
                ),
                shards: shards.clone(),
                replication_policy: policy,
            });
            self.settle(step)?;
        }
        Ok(())
    }

    fn update_topic_replication_policy(
        &mut self,
        topic_id: TopicId,
        expected: u64,
        policy: PartitionReplicationPolicy,
    ) -> EngineResult<()> {
        let mut partitions = self.coordinator.topic_partitions(topic_id);
        partitions.sort_unstable();
        let mut policies = Vec::new();
        for id in &partitions {
            policies.push((
                *id,
                self.coordinator
                    .replication_policy(TopicPartition::new(topic_id, *id))?,
            ));
        }
        check_topic_policy(&self.config, topic_id, &policies, expected, policy)?;
        for id in partitions {
            let step = self.coordinator.update_replication_policy(
                TopicPartition::new(topic_id, id),
                expected,
                policy,
            );
            self.settle(step)?;
        }
        Ok(())
    }

    fn record(&mut self, progress: Vec<(Reservation, u32)>) {
        for (reservation, durable_replicas) in progress {
            let partition = TopicPartition::new(reservation.topic_id, reservation.partition_id);
            let _ =
                self.coordinator
                    .record_durable_replicas(partition, reservation, durable_replicas);
        }
    }

    fn replicate(&mut self, batch: ReplicaAppend, followers: u32) -> EngineResult<u32> {
        let transport = self.transport.clone().expect("transport");
        let mut progress = Vec::new();
        let result = transport.replicate(batch, followers, &mut progress);
        self.record(progress);
        result
    }

    fn store(&mut self, batch: StoredBatch, object_durable: bool) -> EngineResult<AppendDurability> {
        let shards = self.config.shard_ids();
        let lane = batch.reservation.placement.virtual_lane_id;
        let index = shard_for_lane(&self.config, &shards, lane)?;
        self.disk.shards[index].push((batch, object_durable));
        Ok(AppendDurability {
            durable_replicas: 1,
            object_durable,
        })
    }

    fn begin(&mut self, request: &AppendRequest) -> EngineResult<Result<InFlight, AppendResponse>> {
        let append = admit_append(
            &self.config,
            self.fence.as_ref(),
            request,
            checked_append(request, self.config.max_batch_bytes),
        )?;
        let outcome = self.coordinator.reserve(
            append.topic_partition,
            append.request_id,
            append.producer,
            append.atomic_group,
            append.record_count,
            append.payload_bytes,
            append.payload_digest,
        )?;
        match after_reserve(&append, self.transport.is_some(), outcome) {
            AfterReserve::Finished(result) => result.map(Err),
            AfterReserve::Resend(resend) => {
                let remote = self.replicate(
                    replica_append(request, &append, resend.reservation),
                    resend.followers,
                )?;
                let reached = resend.reached(remote);
                let recorded = self.coordinator.record_durable_replicas(
                    append.topic_partition,
                    resend.reservation,
                    reached,
                );
                resend.recorded(reached, recorded).map(Err)
            }
            AfterReserve::Write(write) => Ok(Ok(InFlight {
                append,
                write,
                request: request.clone(),
            })),
        }
    }

    fn finish(&mut self, flight: InFlight) -> EngineResult<AppendResponse> {
        let InFlight {
            append,
            write,
            request,
        } = flight;
        let replica = replica_append(&request, &append, write.reservation);
        let early = match (write.replicate_first, self.transport.is_some()) {
            (Some(followers), true) => Some(self.replicate(replica.clone(), followers)),
            _ => None,
        };
        let writing = write.begin(
            self.transport.is_some(),
            early.as_ref().map(|_| Ok(())),
        );
        let stored = self.store(
            StoredBatch {
                reservation: write.reservation,
                producer: write.producer,
                atomic_group: atomic_group_sequence(append.atomic_group, append.payload_digest),
                payload: request.payload,
            },
            append.durability == Durability::Object,
        )?;
        let completing = match writing.written(Ok(stored)) {
            AfterWrite::Replicate(replicating) => {
                let remote = match early {
                    Some(result) => result,
                    None => self.replicate(replica, 0),
                };
                replicating.replicated(remote)
            }
            AfterWrite::Complete(completing) => completing,
            AfterWrite::Fail(failure) => {
                let recorded = self.coordinator.fail(
                    append.topic_partition,
                    write.reservation,
                    append.producer,
                    failure.definitely_not_written,
                );
                return failure.failed(recorded);
            }
        };
        let completion = completing.completion(&append, identity(&write.reservation));
        let completed = self.coordinator.complete(append.topic_partition, completion);
        completing.completed(append.durability, completed)
    }

    fn append(&mut self, request: AppendRequest) -> EngineResult<AppendResponse> {
        match self.begin(&request)? {
            Ok(flight) => self.finish(flight),
            Err(response) => Ok(response),
        }
    }

    fn plan_replica(&mut self, batch: &ReplicaAppend) -> EngineResult<ReplicaAppendPlan> {
        plan_replica_append(
            &mut self.coordinator,
            None,
            batch,
            identity(&batch.reservation),
        )
    }

    fn execute_replica(
        &mut self,
        batch: ReplicaAppend,
        plan: ReplicaAppendPlan,
    ) -> EngineResult<AppendResponse> {
        let mut group = ReplicaGroup::new();
        let lane = batch.reservation.placement.virtual_lane_id;
        let shards = self.config.shard_ids();
        let found = shard_for_lane(&self.config, &shards, lane).map(|_| lane);
        if let Placed::Write(response) = group.place(plan, found) {
            group.begun(&mut self.coordinator, batch.clone(), response, Ok(()));
            let (producer, atomic_group) = match plan {
                ReplicaAppendPlan::Reserved {
                    producer,
                    atomic_group,
                    ..
                } => (producer, atomic_group),
                ReplicaAppendPlan::Duplicate(_) => (None, None),
            };
            assert_eq!(group.next_pending(), Some(lane));
            let stored = self.store(
                StoredBatch {
                    reservation: batch.reservation,
                    producer,
                    atomic_group,
                    payload: batch.payload,
                },
                false,
            );
            group.written(&mut self.coordinator, Some(stored));
        }
        assert_eq!(group.next_pending(), None);
        group.finish().pop().expect("one result")
    }

    fn append_replica(&mut self, batch: ReplicaAppend) -> EngineResult<AppendResponse> {
        let plan = self.plan_replica(&batch)?;
        self.execute_replica(batch, plan)
    }

    fn fetch(&mut self, request: FetchRequest) -> EngineResult<Vec<FetchedBatch>> {
        self.fetch_stored(request, false).map(present_all)
    }

    fn fetch_stored(
        &mut self,
        request: FetchRequest,
        include_unresolved: bool,
    ) -> EngineResult<Vec<StoredBatch>> {
        let max_bytes = fetch_budget(&self.config, &request, checked_fetch(&request))?;
        let partition = TopicPartition::new(request.topic_id, request.partition_id);
        let bounds = self
            .coordinator
            .fetch_snapshot(partition, request.start_offset)?;
        let end = fetch_end(&bounds, request.mode, include_unresolved);
        let lanes = self.disk.shards.len();
        let mut session = FetchSession::new(lanes);
        for lane in 0..lanes {
            let mut plan = self.disk.shards[lane]
                .iter()
                .filter(|(batch, _)| {
                    batch.reservation.topic_id == request.topic_id
                        && batch.reservation.partition_id == request.partition_id
                        && batch.reservation.last_offset >= request.start_offset
                })
                .map(|(batch, _)| StoredBatchMetadata {
                    reservation: batch.reservation,
                    payload_len: batch.payload.len(),
                })
                .collect::<Vec<_>>();
            plan.sort_by_key(|planned| planned.reservation.first_offset);
            session.collect_plan(FetchCompletion::Plan {
                lane,
                result: Ok(plan),
            })?;
        }
        let committed = self.coordinator.committed_candidates(
            partition,
            &session.candidates(),
            include_unresolved,
        )?;
        let selection =
            select_fetch_plan(&session.plans, request.mode, end, &committed, max_bytes)?;
        for (lane, planned) in selection.by_shard.iter().enumerate() {
            if planned.is_empty() {
                continue;
            }
            let read = planned
                .iter()
                .map(|planned| {
                    self.disk.shards[lane]
                        .iter()
                        .find(|(batch, _)| batch.reservation == planned.reservation)
                        .expect("planned batch")
                        .0
                        .clone()
                })
                .collect::<VecDeque<_>>();
            session.collect_read(FetchCompletion::Read {
                lane,
                result: Ok(read),
            })?;
        }
        materialize_stored_batches(session.batches, &selection.merge_order)
    }

    fn resume_recovered_replication(&mut self) -> EngineResult<()> {
        for partition in self.recovered.clone() {
            let watermarks = self.coordinator.watermarks(partition)?;
            let mut offset = watermarks.log_start;
            while offset < watermarks.contiguous_log_end {
                let request = FetchRequest {
                    request_id: 0,
                    topic_id: partition.topic_id,
                    partition_id: partition.partition_id,
                    start_offset: offset,
                    max_bytes: 1024 * 1024,
                    mode: FetchMode::Ordered,
                };
                let stored = self.fetch_stored(request, true)?;
                let stretch = recovered_stretch(partition, offset, stored)?;
                for batch in stretch.batches {
                    self.replicate(batch, 0)?;
                }
                offset = stretch.next;
            }
        }
        Ok(())
    }

    fn watermarks(&self, partition: TopicPartition) -> PartitionWatermarks {
        self.coordinator.watermarks(partition).expect("watermarks")
    }

    fn finalize(
        &mut self,
        partition: TopicPartition,
        transaction_id: u128,
        outcome: AtomicGroupState,
    ) -> EngineResult<AtomicGroupInspection> {
        let step = self
            .coordinator
            .finalize_atomic_group(partition, transaction_id, outcome);
        match self.settle(step)? {
            CoordinatorReply::Group(inspection) => Ok(inspection),
            _ => panic!("unexpected reply"),
        }
    }

    fn truncate(
        &mut self,
        partition: TopicPartition,
        log_start: LogicalOffset,
    ) -> EngineResult<PartitionWatermarks> {
        let step = truncate_partition(
            &mut self.coordinator,
            self.guard.as_ref(),
            partition,
            log_start,
        );
        match self.settle(step)? {
            CoordinatorReply::Watermarks(watermarks) => Ok(watermarks),
            _ => panic!("unexpected reply"),
        }
    }
}

struct DirectReplication {
    follower: Rc<RefCell<Engine>>,
    fail_first: Cell<bool>,
}

impl Transport for DirectReplication {
    fn replicate(
        &self,
        batch: ReplicaAppend,
        required_followers: u32,
        progress: &mut Vec<(Reservation, u32)>,
    ) -> EngineResult<u32> {
        if self.fail_first.replace(false) {
            return Err(EngineError::DurabilityUnavailable {
                required_replicas: required_followers.saturating_add(1),
                durable_replicas: 1,
            });
        }
        let reservation = batch.reservation;
        self.follower.borrow_mut().append_replica(batch)?;
        if required_followers == 0 {
            progress.push((reservation, 2));
            return Ok(0);
        }
        Ok(1)
    }
}

struct Answers(u32);

impl Transport for Answers {
    fn replicate(
        &self,
        _batch: ReplicaAppend,
        _required_followers: u32,
        _progress: &mut Vec<(Reservation, u32)>,
    ) -> EngineResult<u32> {
        Ok(self.0)
    }
}

fn config() -> EngineConfig {
    EngineConfig {
        data_dir: "data".into(),
        object_store_dir: None,
        shard_count: 3,
        virtual_lane_count: 3,
        replication_factor: 1,
        min_in_sync_replicas: 1,
        queue_slots_per_shard: 64,
        queue_bytes_per_shard: 2 * 1024 * 1024,
        target_pack_bytes: 1024,
        max_pack_age: Duration::from_secs(1),
        max_batch_bytes: 64 * 1024,
        max_fetch_bytes: 1024 * 1024,
        append_linger: Duration::from_millis(1),
    }
}

fn replicated_config(replication_factor: u32, min_in_sync_replicas: u32) -> EngineConfig {
    EngineConfig {
        replication_factor,
        min_in_sync_replicas,
        ..config()
    }
}

fn topic(partitions: u32) -> TopicConfig {
    TopicConfig {
        topic_id: TopicId::new(1),
        partitions,
        shards: None,
    }
}

fn partition() -> TopicPartition {
    TopicPartition::new(TopicId::new(1), LogicalPartitionId::new(0))
}

fn append_request(
    request_id: u128,
    payload: &[u8],
    producer: Option<ProducerIdentity>,
) -> AppendRequest {
    AppendRequest {
        request_id,
        topic_id: TopicId::new(1),
        partition_id: LogicalPartitionId::new(0),
        record_count: 1,
        payload: payload.to_vec(),
        durability: Durability::Leader,
        producer,
        atomic_group: None,
        leader_epoch: None,
        extension_context: None,
    }
}

fn fetch_request(start_offset: u64) -> FetchRequest {
    FetchRequest {
        request_id: 1,
        topic_id: TopicId::new(1),
        partition_id: LogicalPartitionId::new(0),
        start_offset: LogicalOffset::new(start_offset),
        max_bytes: 1024,
        mode: FetchMode::Ordered,
    }
}

fn atomic_request(
    request_id: u128,
    transaction_id: u128,
    chunk_sequence: u64,
    payload: &[u8],
) -> AppendRequest {
    let mut request = append_request(request_id, payload, None);
    request.atomic_group = Some(AtomicGroupIdentity {
        transaction_id,
        chunk_sequence,
    });
    request
}

fn payloads(batches: &[FetchedBatch]) -> Vec<Vec<u8>> {
    batches.iter().map(|batch| batch.payload.clone()).collect()
}

fn open_with_topic() -> Engine {
    let mut engine = Engine::open(config()).expect("open");
    engine.create_topic(topic(1)).expect("create topic");
    engine
}

fn producer(producer_id: u128) -> ProducerIdentity {
    ProducerIdentity {
        producer_id,
        epoch: 0,
        first_sequence: 0,
        event_id: None,
    }
}

#[test]
fn appends_round_robin_and_fetches_in_logical_order() {
    let mut engine = open_with_topic();

    let responses = ["zero", "one", "two", "three"].map(|payload| {
        engine
            .append(append_request(1, payload.as_bytes(), None))
            .expect("append")
    });
    assert_eq!(
        responses.map(|response| response.placement.virtual_lane_id.get()),
        [0, 1, 2, 0]
    );
    let fetched = engine.fetch(fetch_request(0)).expect("fetch");
    assert_eq!(
        payloads(&fetched),
        vec![
            b"zero".to_vec(),
            b"one".to_vec(),
            b"two".to_vec(),
            b"three".to_vec()
        ]
    );
    assert_eq!(
        engine.watermarks(partition()).contiguous_log_end,
        LogicalOffset::new(4)
    );
}

#[test]
fn rf_above_one_requires_an_extension_transport() {
    assert!(matches!(
        Engine::open(replicated_config(2, 2)),
        Err(EngineError::InvalidConfig(message))
            if message.contains("requires an injected replication transport")
    ));
}

#[test]
fn atomic_group_holds_last_stable_offset_until_commit() {
    let mut engine = open_with_topic();

    engine
        .append(append_request(1, b"before", None))
        .expect("ordinary append");
    let first = engine
        .append(atomic_request(2, 77, 0, b"group-0"))
        .expect("first chunk");
    let retry = engine
        .append(atomic_request(3, 77, 0, b"group-0"))
        .expect("idempotent chunk retry");
    assert_eq!(retry.batch_id, first.batch_id);
    assert!(matches!(
        engine.append(atomic_request(4, 77, 0, b"changed")),
        Err(EngineError::AtomicGroupChunkMismatch(77))
    ));
    engine
        .append(atomic_request(5, 77, 1, b"group-1"))
        .expect("second chunk");
    engine
        .append(append_request(6, b"after", None))
        .expect("later ordinary append");

    let watermarks = engine.watermarks(partition());
    assert_eq!(watermarks.contiguous_log_end, LogicalOffset::new(4));
    assert_eq!(watermarks.last_stable_offset, LogicalOffset::new(1));
    assert_eq!(
        payloads(&engine.fetch(fetch_request(0)).expect("stable fetch")),
        vec![b"before".to_vec()]
    );

    let committed = engine
        .finalize(partition(), 77, AtomicGroupState::Committed)
        .expect("commit");
    assert_eq!(committed.state, AtomicGroupState::Committed);
    assert_eq!(committed.chunk_count, 2);
    assert_eq!(
        payloads(&engine.fetch(fetch_request(0)).expect("committed fetch")),
        vec![
            b"before".to_vec(),
            b"group-0".to_vec(),
            b"group-1".to_vec(),
            b"after".to_vec()
        ]
    );
    assert_eq!(
        engine
            .finalize(partition(), 77, AtomicGroupState::Committed)
            .expect("idempotent commit"),
        committed
    );
    assert!(matches!(
        engine.finalize(partition(), 77, AtomicGroupState::Aborted),
        Err(EngineError::AtomicGroupFinalized(77))
    ));
    assert!(matches!(
        engine.finalize(partition(), 78, AtomicGroupState::Committed),
        Err(EngineError::UnknownAtomicGroup(78))
    ));
}

#[test]
fn atomic_group_commit_waits_for_minimum_isr_durability() {
    let mut engine = Engine::reopen(
        replicated_config(3, 2),
        Disk::default(),
        Some(Rc::new(Answers(0))),
    )
    .expect("open");
    engine.create_topic(topic(1)).expect("create topic");

    let chunk = engine
        .append(atomic_request(1, 78, 0, b"group"))
        .expect("leader-durable chunk");
    assert!(matches!(
        engine.finalize(partition(), 78, AtomicGroupState::Committed),
        Err(EngineError::DurabilityUnavailable {
            required_replicas: 2,
            durable_replicas: 1,
        })
    ));

    let reservation = Reservation {
        topic_id: TopicId::new(1),
        partition_id: LogicalPartitionId::new(0),
        batch_id: chunk.batch_id,
        first_offset: chunk.first_offset,
        last_offset: chunk.last_offset,
        record_count: 1,
        placement: chunk.placement,
    };
    engine.record(vec![(reservation, 3)]);
    assert_eq!(
        engine.watermarks(partition()).replicated_high_watermark,
        LogicalOffset::new(1)
    );
    assert_eq!(
        engine
            .finalize(partition(), 78, AtomicGroupState::Committed)
            .expect("quorum-safe commit")
            .state,
        AtomicGroupState::Committed
    );
}

#[test]
fn unresolved_group_survives_restart_and_abort_unblocks_visibility() {
    let mut engine = open_with_topic();
    engine
        .append(atomic_request(1, 88, 0, b"ambiguous"))
        .expect("group chunk");
    engine
        .append(append_request(2, b"visible-after-abort", None))
        .expect("later append");
    assert!(engine
        .fetch(fetch_request(0))
        .expect("blocked fetch")
        .is_empty());
    assert!(matches!(
        engine.truncate(partition(), LogicalOffset::new(1)),
        Err(EngineError::InvalidConfig(_))
    ));

    let mut engine = Engine::reopen(config(), engine.disk, None).expect("reopen");
    let recovered = engine
        .coordinator
        .inspect_atomic_group(partition(), 88)
        .expect("inspect");
    assert_eq!(recovered.state, AtomicGroupState::Unresolved);
    assert_eq!(
        engine.watermarks(partition()).last_stable_offset,
        LogicalOffset::new(0)
    );
    engine
        .finalize(partition(), 88, AtomicGroupState::Aborted)
        .expect("abort");
    let fetched = engine.fetch(fetch_request(0)).expect("fetch after abort");
    assert_eq!(fetched.len(), 1);
    assert_eq!(fetched[0].payload, b"visible-after-abort".to_vec());

    let mut recovered = Engine::reopen(config(), engine.disk, None).expect("reopen aborted");
    assert_eq!(
        recovered
            .coordinator
            .inspect_atomic_group(partition(), 88)
            .expect("inspect aborted")
            .state,
        AtomicGroupState::Aborted
    );
    assert_eq!(
        recovered.fetch(fetch_request(0)).expect("recovered fetch")[0].payload,
        b"visible-after-abort".to_vec()
    );
}

#[test]
fn fetch_materializes_only_the_globally_selected_batches() {
    let mut engine = Engine::open(EngineConfig {
        shard_count: 8,
        target_pack_bytes: 8 * 1024 * 1024,
        ..config()
    })
    .expect("open");
    engine.create_topic(topic(1)).expect("create topic");

    let payload = vec![7u8; 32 * 1024];
    for request_id in 0..64u128 {
        engine
            .append(append_request(request_id, &payload, None))
            .expect("append");
    }

    let fetched = engine
        .fetch(FetchRequest {
            max_bytes: 1024 * 1024,
            ..fetch_request(0)
        })
        .expect("first fetch");
    assert_eq!(fetched.len(), 32);
    assert_eq!(
        fetched
            .iter()
            .map(|batch| batch.batch_id.get())
            .collect::<Vec<_>>(),
        (0..32u128).collect::<Vec<_>>()
    );

    let fetched = engine
        .fetch(FetchRequest {
            request_id: 2,
            max_bytes: 1024 * 1024,
            ..fetch_request(32)
        })
        .expect("second fetch");
    assert_eq!(fetched.len(), 32);
    assert_eq!(fetched[0].batch_id, BatchId::new(32));
    assert_eq!(fetched[31].batch_id, BatchId::new(63));
}

#[test]
fn zero_length_batch_does_not_make_a_later_oversized_batch_free() {
    let mut engine = Engine::open(EngineConfig {
        shard_count: 1,
        ..config()
    })
    .expect("open");
    engine.create_topic(topic(1)).expect("create topic");
    engine
        .append(append_request(0, b"", None))
        .expect("append empty batch");
    engine
        .append(append_request(1, &vec![1; 2 * 1024], None))
        .expect("append oversized-for-fetch batch");

    let fetched = engine.fetch(fetch_request(0)).expect("fetch");
    assert_eq!(fetched.len(), 1);
    assert_eq!(fetched[0].batch_id, BatchId::new(0));
}

#[test]
fn installed_write_fence_requires_and_validates_leader_epoch() {
    let mut engine = open_with_topic();
    engine.fence = Some(ExactEpochFence);

    let mut request = append_request(1, b"fenced", None);
    assert!(matches!(
        engine.append(request.clone()),
        Err(EngineError::Fenced(_))
    ));
    request.leader_epoch = Some(LeaderEpoch::new(6));
    assert!(matches!(
        engine.append(request.clone()),
        Err(EngineError::Fenced(_))
    ));
    request.leader_epoch = Some(LeaderEpoch::new(7));
    engine.append(request).expect("current epoch");
}

#[test]
fn restart_recovers_extents_sequencer_and_deduplication() {
    let producer = ProducerIdentity {
        event_id: Some(RecordId::new(0x5eed)),
        ..producer(55)
    };
    let mut engine = open_with_topic();
    let first = engine
        .append(append_request(100, b"durable", Some(producer)))
        .expect("append");

    let mut engine = Engine::reopen(config(), engine.disk, None).expect("reopen");
    let duplicate = engine
        .append(append_request(200, b"durable", Some(producer)))
        .expect("deduplicated append");
    assert_eq!(duplicate.batch_id, first.batch_id);
    assert_eq!(duplicate.first_offset, first.first_offset);
    assert_eq!(
        engine
            .coordinator
            .idempotent_receipt(partition(), producer)
            .expect("receipt lookup")
            .expect("original receipt")
            .batch_id,
        first.batch_id
    );

    let next = engine
        .append(append_request(
            201,
            b"next",
            Some(ProducerIdentity {
                first_sequence: 1,
                ..producer
            }),
        ))
        .expect("next append");
    assert_eq!(next.first_offset, LogicalOffset::new(1));
    assert_eq!(engine.fetch(fetch_request(0)).expect("fetch").len(), 2);
    let progress = engine
        .coordinator
        .producer_progress(partition(), 55)
        .expect("progress")
        .expect("known producer");
    assert_eq!((progress.epoch, progress.next_sequence), (0, 2));
}

#[test]
fn missing_interior_extent_recovers_as_abort_range() {
    let reservation = Reservation {
        topic_id: TopicId::new(1),
        partition_id: LogicalPartitionId::new(0),
        batch_id: BatchId::new(1),
        first_offset: LogicalOffset::new(2),
        last_offset: LogicalOffset::new(2),
        record_count: 1,
        placement: Placement {
            virtual_lane_id: ShardId::new(1),
            ring_epoch: RingEpoch::new(1),
            leader_epoch: LeaderEpoch::new(0),
            sequence: PlacementSequence::new(1),
        },
    };
    let disk = Disk {
        journal: vec![JournalEvent::Configure {
            topic_partition: partition(),
            ring_epoch: RingEpoch::new(1),
            shards: config().shard_ids(),
        }],
        shards: vec![
            Vec::new(),
            vec![(
                StoredBatch {
                    reservation,
                    producer: None,
                    atomic_group: None,
                    payload: b"after-gap".to_vec(),
                },
                false,
            )],
        ],
    };

    let mut engine = Engine::reopen(config(), disk, None).expect("recover");
    assert_eq!(
        engine.watermarks(partition()).contiguous_log_end,
        LogicalOffset::new(3)
    );
    let appended = engine
        .append(append_request(1, b"next", None))
        .expect("append");
    assert_eq!(appended.first_offset, LogicalOffset::new(3));
    assert_eq!(
        engine.watermarks(partition()).contiguous_log_end,
        LogicalOffset::new(4)
    );
}

#[test]
fn duplicate_sequence_with_different_payload_is_rejected() {
    let mut engine = open_with_topic();
    engine
        .append(append_request(1, b"first", Some(producer(9))))
        .expect("first");
    assert!(matches!(
        engine.append(append_request(2, b"different", Some(producer(9)))),
        Err(EngineError::DuplicateSequenceMismatch(9))
    ));
    let later = ProducerIdentity {
        first_sequence: 5,
        ..producer(9)
    };
    assert!(matches!(
        engine.append(append_request(3, b"gap", Some(later))),
        Err(EngineError::ProducerSequenceOutOfOrder {
            producer_id: 9,
            expected: 1,
            received: 5,
        })
    ));
}

#[test]
fn rf1_quorum_alias_advances_local_durable_watermark() {
    let mut engine = open_with_topic();
    let mut request = append_request(1, b"replicated", None);
    request.durability = Durability::Quorum;
    let response = engine.append(request).expect("quorum append");
    assert_eq!(response.first_offset, LogicalOffset::new(0));

    let watermarks = engine.watermarks(partition());
    assert_eq!(watermarks.contiguous_log_end, LogicalOffset::new(1));
    assert_eq!(watermarks.replicated_high_watermark, LogicalOffset::new(1));
}

#[test]
fn replicated_watermark_waits_for_contiguous_out_of_order_completions() {
    let mut engine = Engine::reopen(
        replicated_config(2, 2),
        Disk::default(),
        Some(Rc::new(Answers(1))),
    )
    .expect("open");
    engine.create_topic(topic(1)).expect("create");
    let mut first = append_request(1, b"first", None);
    first.durability = Durability::AllReplicas;
    let first = match engine.begin(&first).expect("first reservation") {
        Ok(flight) => flight,
        Err(_) => panic!("first batch is new"),
    };
    let mut second = append_request(2, b"second", None);
    second.durability = Durability::AllReplicas;
    let second = engine.append(second).expect("second append");

    let stalled = engine.watermarks(partition());
    assert_eq!(stalled.replicated_high_watermark, LogicalOffset::new(0));
    let visible = engine
        .coordinator
        .wait_until_visible(
            partition(),
            LogicalOffset::new(second.last_offset.get() + 1),
            visibility_mode(FetchMode::Replicated).expect("contiguous mode"),
            17,
        )
        .expect("visibility wait");
    assert!(!visible);
    assert!(engine.coordinator.take_ready(partition()).is_empty());
    engine.finish(first).expect("first append");
    assert_eq!(engine.coordinator.take_ready(partition()), vec![17]);
    let advanced = engine.watermarks(partition());
    assert_eq!(advanced.replicated_high_watermark, LogicalOffset::new(2));
    assert_eq!(advanced.contiguous_log_end, LogicalOffset::new(2));
    assert!(visibility_mode(FetchMode::AsAvailable).is_err());
}

#[test]
fn follower_reservation_is_retryable_only_after_the_inflight_attempt_aborts() {
    let mut engine = open_with_topic();
    let batch = ReplicaAppend {
        reservation: Reservation {
            topic_id: TopicId::new(1),
            partition_id: LogicalPartitionId::new(0),
            batch_id: BatchId::new(0),
            first_offset: LogicalOffset::new(0),
            last_offset: LogicalOffset::new(0),
            record_count: 1,
            placement: Placement {
                virtual_lane_id: VirtualLaneId::new(0),
                ring_epoch: RingEpoch::new(1),
                leader_epoch: LeaderEpoch::new(0),
                sequence: PlacementSequence::new(0),
            },
        },
        producer: None,
        atomic_group: None,
        extension_context: None,
        payload_digest: PayloadDigest(u128::from_le_bytes([7; 16])),
        payload: b"retryable".to_vec(),
    };

    assert!(matches!(
        engine.plan_replica(&batch),
        Ok(ReplicaAppendPlan::Reserved { .. })
    ));
    assert!(matches!(
        engine.plan_replica(&batch),
        Err(EngineError::ReplicaInFlight(batch_id)) if batch_id == BatchId::new(0)
    ));

    cancel_replica_append(&mut engine.coordinator, &batch).expect("abort reservation");
    let retry = engine.plan_replica(&batch).expect("retry plan");
    assert_eq!(
        engine.watermarks(partition()).contiguous_log_end,
        LogicalOffset::new(0)
    );
    let response = engine
        .execute_replica(batch.clone(), retry)
        .expect("retry append");
    assert_eq!(response.batch_id, BatchId::new(0));
    assert!(matches!(
        engine.plan_replica(&batch),
        Ok(ReplicaAppendPlan::Duplicate(response))
            if response.batch_id == BatchId::new(0)
    ));
}

#[test]
fn leader_ack_replication_progress_advances_after_replica_drain() {
    let mut engine = open_with_topic();
    engine
        .append(append_request(1, b"replicate-in-background", None))
        .expect("leader append");

    let watermarks = engine.watermarks(partition());
    assert_eq!(watermarks.contiguous_log_end, LogicalOffset::new(1));
    assert_eq!(watermarks.replicated_high_watermark, LogicalOffset::new(1));
}

#[test]
fn leader_ack_returns_before_distributed_replication_and_tracks_later_completion() {
    let mut engine = Engine::reopen(
        replicated_config(3, 2),
        Disk::default(),
        Some(Rc::new(Answers(0))),
    )
    .expect("open");
    engine.create_topic(topic(1)).expect("create");

    let receipt = engine
        .append(append_request(1, b"ack-before-followers", None))
        .expect("leader acknowledgement");
    assert_eq!(
        engine.watermarks(partition()).replicated_high_watermark,
        LogicalOffset::new(0)
    );

    let reservation = Reservation {
        topic_id: TopicId::new(1),
        partition_id: LogicalPartitionId::new(0),
        batch_id: receipt.batch_id,
        first_offset: receipt.first_offset,
        last_offset: receipt.last_offset,
        record_count: 1,
        placement: receipt.placement,
    };
    engine.record(vec![(reservation, 3)]);
    assert_eq!(
        engine.watermarks(partition()).replicated_high_watermark,
        LogicalOffset::new(1)
    );
}

#[test]
fn object_acknowledgement_needs_an_object_store_and_survives_restart() {
    let mut request = append_request(1, b"object-durable", Some(producer(77)));
    request.durability = Durability::Object;
    assert!(matches!(
        open_with_topic().append(request.clone()),
        Err(EngineError::UnsupportedDurability(_))
    ));
    let config = EngineConfig {
        object_store_dir: Some("objects".into()),
        ..config()
    };
    let mut engine = Engine::open(config.clone()).expect("open");
    engine.create_topic(topic(1)).expect("create");
    let response = engine.append(request.clone()).expect("object append");

    let mut engine = Engine::reopen(config, engine.disk, None).expect("reopen");
    let duplicate = engine.append(request).expect("deduplicated object append");
    assert_eq!(duplicate.batch_id, response.batch_id);
    assert_eq!(engine.fetch(fetch_request(0)).expect("fetch").len(), 1);
}

#[test]
fn retention_log_start_is_monotonic_batch_aligned_and_restart_durable() {
    let mut engine = open_with_topic();
    for request_id in 1..=3 {
        engine
            .append(append_request(request_id, &[request_id as u8], None))
            .expect("append");
    }
    let watermarks = engine
        .truncate(partition(), LogicalOffset::new(2))
        .expect("truncate");
    assert_eq!(watermarks.log_start, LogicalOffset::new(2));
    assert!(matches!(
        engine.fetch(fetch_request(0)),
        Err(EngineError::OffsetOutOfRange { .. })
    ));
    assert_eq!(
        engine.fetch(fetch_request(2)).expect("retained fetch")[0].payload,
        vec![3]
    );
    assert!(engine.truncate(partition(), LogicalOffset::new(1)).is_err());

    let mut engine = Engine::reopen(config(), engine.disk, None).expect("reopen");
    assert_eq!(
        engine.watermarks(partition()).log_start,
        LogicalOffset::new(2)
    );
    assert!(matches!(
        engine.fetch(fetch_request(1)),
        Err(EngineError::OffsetOutOfRange { .. })
    ));
}

#[test]
fn dense_batch_index_crosses_segments_and_restarts_after_prefix_retention() {
    let config = EngineConfig {
        shard_count: 1,
        target_pack_bytes: 8 * 1024 * 1024,
        ..config()
    };
    let mut engine = Engine::open(config.clone()).expect("open");
    engine.create_topic(topic(1)).expect("create");
    for request_id in 0..1_030u128 {
        engine
            .append(append_request(request_id, &[request_id as u8], None))
            .expect("append across dense segments");
    }

    let fetched = engine.fetch(fetch_request(1_024)).expect("tail fetch");
    assert_eq!(fetched.len(), 6);
    assert_eq!(fetched[0].batch_id, BatchId::new(1_024));
    assert_eq!(fetched[5].batch_id, BatchId::new(1_029));

    let watermarks = engine
        .truncate(partition(), LogicalOffset::new(1_024))
        .expect("truncate at segment boundary");
    assert_eq!(watermarks.log_start, LogicalOffset::new(1_024));
    assert_eq!(watermarks.contiguous_log_end, LogicalOffset::new(1_030));

    let mut engine = Engine::reopen(config, engine.disk, None).expect("reopen");
    assert!(matches!(
        engine.fetch(fetch_request(1_023)),
        Err(EngineError::OffsetOutOfRange { .. })
    ));
    let fetched = engine.fetch(fetch_request(1_024)).expect("retained fetch");
    assert_eq!(fetched.len(), 6);
    assert_eq!(fetched[0].batch_id, BatchId::new(1_024));
}

fn leader_and_follower(fail_first: bool) -> (Engine, Rc<RefCell<Engine>>) {
    let follower = Rc::new(RefCell::new(open_with_topic()));
    let transport = Rc::new(DirectReplication {
        follower: Rc::clone(&follower),
        fail_first: Cell::new(fail_first),
    });
    let mut leader =
        Engine::reopen(replicated_config(2, 2), Disk::default(), Some(transport)).expect("leader");
    leader.create_topic(topic(1)).expect("leader topic");
    (leader, follower)
}

#[test]
fn remote_all_replicas_retry_preserves_the_reservation_and_populates_the_follower() {
    let (mut leader, follower) = leader_and_follower(true);
    let mut request = append_request(1, b"replicated", Some(producer(99)));
    request.durability = Durability::AllReplicas;
    assert!(matches!(
        leader.append(request.clone()),
        Err(EngineError::DurabilityUnavailable { .. })
    ));
    let before_retry = leader.watermarks(partition());
    assert_eq!(before_retry.contiguous_log_end, LogicalOffset::new(1));
    assert_eq!(
        before_retry.replicated_high_watermark,
        LogicalOffset::new(0)
    );
    let mut replicated_fetch = fetch_request(0);
    replicated_fetch.mode = FetchMode::Replicated;
    assert!(leader
        .fetch(replicated_fetch)
        .expect("replicated fetch")
        .is_empty());
    let receipt = leader.append(request).expect("retry reaches follower");
    assert_eq!(receipt.first_offset, LogicalOffset::new(0));
    assert_eq!(receipt.visible_through, LogicalOffset::new(1));
    assert_eq!(
        leader.watermarks(partition()).replicated_high_watermark,
        LogicalOffset::new(1)
    );
    let fetched = follower
        .borrow_mut()
        .fetch(fetch_request(0))
        .expect("follower fetch");
    assert_eq!(fetched.len(), 1);
    assert_eq!(fetched[0].payload, b"replicated".to_vec());
}

#[test]
fn async_idempotent_retry_reenqueues_missing_follower_replication() {
    let (mut leader, follower) = leader_and_follower(true);
    let request = append_request(1, b"async-retry", Some(producer(100)));
    assert!(matches!(
        leader.append(request.clone()),
        Err(EngineError::DurabilityUnavailable { .. })
    ));
    let receipt = leader.append(request).expect("retry enqueues replication");
    assert_eq!(receipt.first_offset, LogicalOffset::new(0));
    assert_eq!(
        follower
            .borrow_mut()
            .fetch(fetch_request(0))
            .expect("follower fetch")[0]
            .payload,
        b"async-retry".to_vec()
    );
}

fn restarted_leader(request: AppendRequest) -> (Engine, Rc<RefCell<Engine>>) {
    let follower = Rc::new(RefCell::new(open_with_topic()));
    let mut leader = Engine::reopen(
        replicated_config(2, 2),
        Disk::default(),
        Some(Rc::new(Answers(0))),
    )
    .expect("initial leader");
    leader.create_topic(topic(1)).expect("leader topic");
    leader.append(request).expect("local leader append");
    let transport = Rc::new(DirectReplication {
        follower: Rc::clone(&follower),
        fail_first: Cell::new(false),
    });
    let leader = Engine::reopen(replicated_config(2, 2), leader.disk, Some(transport))
        .expect("reopen leader with replication");
    (leader, follower)
}

#[test]
fn restart_replays_recovered_wal_tail_before_advancing_replica_watermark() {
    let (mut leader, follower) = restarted_leader(append_request(1, b"recovered-tail", None));
    assert_eq!(leader.recovered, vec![partition()]);
    let before_replay = leader.watermarks(partition());
    assert_eq!(before_replay.contiguous_log_end, LogicalOffset::new(1));
    assert_eq!(
        before_replay.replicated_high_watermark,
        LogicalOffset::new(0)
    );

    leader
        .resume_recovered_replication()
        .expect("replay recovered WAL");
    assert_eq!(
        leader.watermarks(partition()).replicated_high_watermark,
        LogicalOffset::new(1)
    );
    assert_eq!(
        follower
            .borrow_mut()
            .fetch(fetch_request(0))
            .expect("follower recovery fetch")[0]
            .payload,
        b"recovered-tail".to_vec()
    );
}

#[test]
fn restart_replication_replays_unresolved_atomic_tail_before_commit() {
    let (mut leader, follower) = restarted_leader(atomic_request(1, 999, 0, b"unresolved-tail"));
    leader
        .resume_recovered_replication()
        .expect("replay unresolved tail");
    let mut follower = follower.borrow_mut();
    assert_eq!(
        follower
            .coordinator
            .inspect_atomic_group(partition(), 999)
            .expect("follower group")
            .state,
        AtomicGroupState::Unresolved
    );
    assert!(follower.fetch(fetch_request(0)).expect("hidden").is_empty());

    leader
        .finalize(partition(), 999, AtomicGroupState::Committed)
        .expect("quorum-safe leader commit");
    follower
        .finalize(partition(), 999, AtomicGroupState::Committed)
        .expect("apply replicated metadata decision");
    assert_eq!(
        follower.fetch(fetch_request(0)).expect("visible")[0].payload,
        b"unresolved-tail".to_vec()
    );
}

#[test]
fn concurrent_appends_recover_without_per_append_journal_events() {
    let mut engine = open_with_topic();
    let mut flights = Vec::new();
    for sequence in 0..32u128 {
        for producer in 0..8u128 {
            let request_id = producer * 32 + sequence;
            match engine
                .begin(&append_request(request_id, &[request_id as u8], None))
                .expect("concurrent append")
            {
                Ok(flight) => flights.push(flight),
                Err(_) => panic!("every batch is new"),
            }
        }
        while let Some(flight) = flights.pop() {
            engine.finish(flight).expect("concurrent append");
        }
    }
    let watermarks = engine.watermarks(partition());
    assert_eq!(watermarks.allocated_end, LogicalOffset::new(256));
    assert_eq!(watermarks.contiguous_log_end, LogicalOffset::new(256));
    let fetched = engine.fetch(fetch_request(0)).expect("live fetch");
    assert_eq!(fetched.len(), 256);
    assert!(fetched
        .iter()
        .enumerate()
        .all(|(offset, batch)| batch.first_offset == LogicalOffset::new(offset as u64)));

    assert_eq!(engine.disk.journal.len(), 1);
    assert!(matches!(
        engine.disk.journal[0],
        JournalEvent::CreatePartition { .. }
    ));

    let engine = Engine::reopen(config(), engine.disk, None).expect("reopen");
    let recovered = engine.watermarks(partition());
    assert_eq!(recovered.allocated_end, LogicalOffset::new(256));
    assert_eq!(recovered.contiguous_log_end, LogicalOffset::new(256));
}

#[test]
fn partition_replication_policy_survives_restart() {
    let topic_partition = TopicPartition::new(TopicId::new(41), LogicalPartitionId::new(0));
    let policy = PartitionReplicationPolicy {
        policy_generation: 7,
        replication_factor: 1,
        min_in_sync_replicas: 1,
    };
    let mut engine = Engine::open(config()).expect("open");
    engine
        .create_topic_with_policy(
            TopicConfig {
                topic_id: topic_partition.topic_id,
                partitions: 1,
                shards: None,
            },
            policy,
        )
        .expect("create with policy");
    assert_eq!(
        engine
            .coordinator
            .replication_policy(topic_partition)
            .expect("policy"),
        policy
    );
    let mut request = append_request(1, b"policy", None);
    request.topic_id = topic_partition.topic_id;
    request.durability = Durability::AllReplicas;
    engine.append(request).expect("RF1 all-replicas append");

    let reopened = Engine::reopen(config(), engine.disk, None).expect("reopen");
    assert_eq!(
        reopened
            .coordinator
            .replication_policy(topic_partition)
            .expect("recovered policy"),
        policy
    );
    assert_eq!(
        reopened.watermarks(topic_partition).replicated_high_watermark,
        LogicalOffset::new(1)
    );
}

#[test]
fn topic_policy_update_is_generation_checked_idempotent_and_restart_durable() {
    let topic_id = TopicId::new(42);
    let target = PartitionReplicationPolicy {
        policy_generation: 2,
        replication_factor: 2,
        min_in_sync_replicas: 2,
    };
    let mut engine = Engine::reopen(
        replicated_config(3, 1),
        Disk::default(),
        Some(Rc::new(Answers(0))),
    )
    .expect("open");
    engine
        .create_topic(TopicConfig {
            topic_id,
            partitions: 2,
            shards: None,
        })
        .expect("create");
    engine
        .update_topic_replication_policy(topic_id, 1, target)
        .expect("update");
    engine
        .update_topic_replication_policy(topic_id, 1, target)
        .expect("idempotent update");
    let conflict = PartitionReplicationPolicy {
        policy_generation: 3,
        replication_factor: 3,
        min_in_sync_replicas: 2,
    };
    assert!(matches!(
        engine.update_topic_replication_policy(topic_id, 1, conflict),
        Err(EngineError::Fenced(_))
    ));

    let reopened = Engine::reopen(
        replicated_config(3, 1),
        engine.disk,
        Some(Rc::new(Answers(0))),
    )
    .expect("reopen");
    for partition_id in 0..2 {
        assert_eq!(
            reopened
                .coordinator
                .replication_policy(TopicPartition::new(
                    topic_id,
                    LogicalPartitionId::new(partition_id),
                ))
                .expect("policy"),
            target
        );
    }
}

#[test]
fn a_retention_guard_pins_the_log() {
    let mut engine = open_with_topic();
    for request_id in 1..=3 {
        engine
            .append(append_request(request_id, &[request_id as u8], None))
            .expect("append");
    }
    engine.guard = Some(PinnedAt(1));
    assert_eq!(
        engine.truncate(partition(), LogicalOffset::new(2)),
        Err(EngineError::RetentionPinned {
            requested: LogicalOffset::new(2),
            pinned: LogicalOffset::new(1),
        })
    );
    let watermarks = engine
        .truncate(partition(), LogicalOffset::new(1))
        .expect("allowed");
    assert_eq!(watermarks.log_start, LogicalOffset::new(1));
}

#[test]
fn a_ring_change_keeps_offsets_and_survives_restart() {
    let mut engine = open_with_topic();
    engine.append(append_request(1, b"a", None)).expect("append");
    let step = engine.coordinator.reconfigure(
        partition(),
        RingEpoch::new(2),
        vec![ShardId::new(2), ShardId::new(1)],
    );
    engine.settle(step).expect("reconfigured");
    let next = engine.append(append_request(2, b"b", None)).expect("append");
    assert_eq!(next.first_offset, LogicalOffset::new(1));
    assert_eq!(next.placement.virtual_lane_id, ShardId::new(1));
    assert_eq!(next.placement.ring_epoch, RingEpoch::new(2));
    let mut engine = Engine::reopen(config(), engine.disk, None).expect("reopen");
    assert_eq!(
        engine
            .coordinator
            .partition_epochs(partition())
            .expect("epochs")
            .ring_epoch,
        RingEpoch::new(2)
    );
    assert_eq!(engine.fetch(fetch_request(0)).expect("fetch").len(), 2);
    assert_eq!(
        engine.coordinator.replica_next_batch(partition()).expect("next"),
        BatchId::new(2)
    );
    assert_eq!(engine.coordinator.all_partitions(), vec![partition()]);
}

#[test]
fn retained_bytes_count_from_an_offset() {
    let batches = vec![
        (LogicalOffset::new(0), 10),
        (LogicalOffset::new(4), 20),
    ];
    assert_eq!(
        count_retained(5, LogicalOffset::new(0), &batches),
        Ok((35, LogicalOffset::new(5)))
    );
    assert!(count_retained(u64::MAX, LogicalOffset::new(0), &batches).is_err());
    assert!(count_retained(0, LogicalOffset::new(0), &vec![(LogicalOffset::new(u64::MAX), 1)]).is_err());
}

#[test]
fn unknown_partitions_and_empty_budgets_are_refused() {
    let mut engine = open_with_topic();
    let other = FetchRequest {
        topic_id: TopicId::new(2),
        ..fetch_request(0)
    };
    assert!(matches!(
        engine.fetch(other),
        Err(EngineError::UnknownPartition { .. })
    ));
    let empty = FetchRequest {
        max_bytes: 0,
        ..fetch_request(0)
    };
    assert_eq!(
        engine.fetch(empty),
        Err(EngineError::InvalidConfig(
            "invalid fetch request: max_bytes must be nonzero".into()
        ))
    );
    let greedy = FetchRequest {
        max_bytes: u32::MAX,
        ..fetch_request(0)
    };
    assert!(matches!(
        engine.fetch(greedy),
        Err(EngineError::InvalidConfig(_))
    ));
    assert_eq!(
        engine.append(AppendRequest {
            record_count: 0,
            ..append_request(1, b"none", None)
        }),
        Err(EngineError::InvalidConfig(
            "invalid append request: record count must be nonzero".into()
        ))
    );
    assert_eq!(
        engine.append(append_request(1, &vec![0; 64 * 1024 + 1], None)),
        Err(EngineError::InvalidConfig(
            "invalid append request: payload is too large".into()
        ))
    );
    assert!(matches!(
        engine.create_topic(topic(0)),
        Err(EngineError::InvalidConfig(_))
    ));
    assert!(matches!(
        engine.create_topic(TopicConfig {
            shards: Some(vec![ShardId::new(3)]),
            ..topic(1)
        }),
        Err(EngineError::UnknownShard(_))
    ));
}

/// A follower that takes its leader's batches in any order.
struct Follower {
    engine: Engine,
    config: DurableApplyConfig,
    state: PartitionAdmission,
    told: Vec<(u64, EngineResult<AppendResponse>)>,
}

fn seventh() -> TopicPartition {
    TopicPartition::new(TopicId::new(7), LogicalPartitionId::new(0))
}

impl Follower {
    fn new(config: DurableApplyConfig) -> Self {
        let mut engine = Engine::open(EngineConfig {
            shard_count: 2,
            virtual_lane_count: 2,
            target_pack_bytes: 1024 * 1024,
            max_batch_bytes: 1024 * 1024,
            ..crate::config()
        })
        .expect("engine");
        engine
            .create_topic(TopicConfig {
                topic_id: TopicId::new(7),
                partitions: 1,
                shards: None,
            })
            .expect("topic");
        let next = engine
            .coordinator
            .replica_next_batch(seventh())
            .expect("next batch");
        Self {
            engine,
            config: config.validate().expect("admission"),
            state: PartitionAdmission::new(next.get()),
            told: Vec::new(),
        }
    }

    fn hand_on(&mut self, batch: ReplicaAppend, waiters: Vec<u64>) -> bool {
        let lane = batch.reservation.placement.virtual_lane_id;
        let worker = self.engine.config.physical_shard_for_lane(lane).get() as usize;
        let plan = self.engine.plan_replica(&batch);
        match dispatch_step(plan, worker, self.engine.disk.shards.len()) {
            DispatchStep::Tell { result, handed_on } => {
                self.told.extend(responses(&waiters, result));
                handed_on
            }
            DispatchStep::Send(plan) => {
                let result = self.engine.execute_replica(batch, plan);
                self.told.extend(responses(&waiters, result));
                true
            }
            DispatchStep::TakeBack(error) => {
                let _ = cancel_replica_append(&mut self.engine.coordinator, &batch);
                self.told.extend(responses(&waiters, Err(error)));
                false
            }
        }
    }

    fn append(&mut self, batch: ReplicaAppend, waiter: u64) {
        match self.state.admit_batch(&self.config, batch, waiter) {
            Admission::Refused { waiter, error } => self.told.push((waiter, Err(error))),
            Admission::Buffered => {}
            Admission::Dispatch {
                batch,
                waiters,
                in_turn,
            } => {
                let mut on = self.hand_on(batch, waiters) && in_turn;
                while on {
                    self.state.advance(&self.config);
                    on = match self.state.take_due(&self.config) {
                        Some(due) => self.hand_on(due.batch, due.waiters),
                        None => false,
                    };
                }
            }
        }
    }

    fn answer(&mut self, waiter: u64) -> Option<EngineResult<AppendResponse>> {
        let at = self.told.iter().position(|(told, _)| *told == waiter)?;
        Some(self.told.remove(at).1)
    }
}

fn replica_batch(batch_id: u128) -> ReplicaAppend {
    let offset = u64::try_from(batch_id).expect("test offset");
    ReplicaAppend {
        reservation: Reservation {
            topic_id: TopicId::new(7),
            partition_id: LogicalPartitionId::new(0),
            batch_id: BatchId::new(batch_id),
            first_offset: LogicalOffset::new(offset),
            last_offset: LogicalOffset::new(offset),
            record_count: 1,
            placement: Placement {
                virtual_lane_id: VirtualLaneId::new(offset as u32 % 2),
                ring_epoch: RingEpoch::new(1),
                leader_epoch: LeaderEpoch::new(0),
                sequence: PlacementSequence::new(offset),
            },
        },
        producer: None,
        atomic_group: None,
        extension_context: None,
        payload_digest: PayloadDigest(0),
        payload: vec![batch_id as u8],
    }
}

#[test]
fn buffers_out_of_order_batches_until_the_gap_is_durable() {
    let mut follower = Follower::new(DurableApplyConfig {
        worker_count: 1,
        ..DurableApplyConfig::default()
    });
    follower.append(replica_batch(1), 1);
    assert!(follower.answer(1).is_none());
    follower.append(replica_batch(0), 0);
    follower.answer(0).expect("answered").expect("first batch");
    follower.answer(1).expect("answered").expect("second batch");

    let watermarks = follower.engine.watermarks(seventh());
    assert_eq!(watermarks.contiguous_log_end, LogicalOffset::new(2));
    assert_eq!(
        follower
            .engine
            .coordinator
            .replica_next_batch(seventh())
            .expect("next"),
        BatchId::new(2)
    );
}

#[test]
fn rejects_batches_beyond_the_bounded_reorder_window() {
    let mut follower = Follower::new(DurableApplyConfig {
        worker_count: 1,
        max_gap_batches: 2,
        ..DurableApplyConfig::default()
    });
    follower.append(replica_batch(3), 3);
    assert!(matches!(
        follower.answer(3).expect("answered"),
        Err(EngineError::ReplicaReorderLimited {
            expected,
            received,
            max_gap_batches: 2,
        }) if expected == BatchId::new(0) && received == BatchId::new(3)
    ));
}

#[test]
fn bounds_out_of_order_payload_bytes_per_partition() {
    let mut follower = Follower::new(DurableApplyConfig {
        worker_count: 1,
        max_pending_bytes_per_partition: 1,
        ..DurableApplyConfig::default()
    });
    follower.append(replica_batch(3), 3);
    follower.append(replica_batch(2), 2);
    assert!(matches!(
        follower.answer(2).expect("answered"),
        Err(EngineError::ReplicaBufferLimited {
            pending_bytes: 1,
            received_bytes: 1,
            max_pending_bytes: 1,
        })
    ));
    follower.append(replica_batch(0), 0);
    follower.append(replica_batch(1), 1);
    follower.append(replica_batch(2), 22);
    for waiter in [0, 1, 22, 3] {
        follower.answer(waiter).expect("answered").expect("applied");
    }
}

#[test]
fn repeated_and_conflicting_batches_are_told_apart() {
    let mut follower = Follower::new(DurableApplyConfig::default());
    follower.append(replica_batch(2), 1);
    follower.append(replica_batch(2), 2);
    let conflicting = ReplicaAppend {
        payload: vec![9],
        ..replica_batch(2)
    };
    follower.append(conflicting, 3);
    let in_another_context = ReplicaAppend {
        extension_context: Some(vec![1]),
        ..replica_batch(2)
    };
    follower.append(in_another_context, 6);
    for waiter in [3, 6] {
        assert_eq!(
            follower.answer(waiter),
            Some(Err(EngineError::CorruptState(
                "conflicting buffered replica batch 2".into()
            )))
        );
    }
    follower.append(replica_batch(0), 0);
    follower.append(replica_batch(1), 4);
    let first = follower.answer(1).expect("answered").expect("applied");
    let second = follower.answer(2).expect("answered").expect("applied");
    assert_eq!(first, second);
    follower.append(replica_batch(0), 5);
    assert_eq!(
        follower.answer(5).expect("answered").expect("known").batch_id,
        BatchId::new(0)
    );
    assert_eq!(
        responses(&vec![1, 2], Err(worker_stopped(3))),
        vec![
            (
                1,
                Err(EngineError::CorruptState(
                    "durable apply worker 3 stopped".into()
                ))
            ),
            (
                2,
                Err(EngineError::CorruptState(worker_stopped(3).message()))
            ),
        ]
    );
    assert!(DurableApplyConfig {
        worker_count: 0,
        ..DurableApplyConfig::default()
    }
    .validate()
    .is_err());
}

#[test]
fn only_batches_that_may_be_retried_carry_a_digest() {
    let plain = append_request(1, b"payload", None);
    let admitted = admit_append::<ExactEpochFence>(&config(), None, &plain, Ok(1)).expect("admitted");
    assert_eq!(admitted.payload_digest, PayloadDigest(0));
    let claimed = append_request(1, b"payload", Some(producer(4)));
    let admitted = admit_append::<ExactEpochFence>(&config(), None, &claimed, Ok(1)).expect("admitted");
    assert_eq!(
        admitted.payload_digest,
        PayloadDigest(xxhash_rust::xxh3::xxh3_128(b"payload"))
    );
    assert_eq!((admitted.record_count, admitted.payload_bytes), (1, 7));
}

#[test]
fn receipts_name_the_batch_before_and_after_a_restart() {
    let mut engine = open_with_topic();
    let request = append_request(1, b"payload", Some(producer(4)));
    let first = engine.append(request.clone()).expect("append");
    assert_eq!(first.record_id, RecordId::new(1u128 << 96));
    assert_eq!(engine.append(request.clone()), Ok(first));
    let mut restarted = Engine::reopen(config(), engine.disk, None).expect("reopen");
    let before = restarted.watermarks(partition());
    let retried = restarted.append(AppendRequest {
        request_id: 9,
        ..request.clone()
    });
    assert_eq!(
        retried,
        Ok(AppendResponse {
            request_id: 9,
            visible_through: first.first_offset,
            ..first
        })
    );
    assert_eq!(restarted.watermarks(partition()), before);
    assert_eq!(
        restarted.append(AppendRequest {
            payload: b"another".to_vec(),
            ..request
        }),
        Err(EngineError::DuplicateSequenceMismatch(4))
    );
    let second = restarted
        .append(append_request(2, b"next", None))
        .expect("append");
    assert_eq!(second.record_id, RecordId::new(1u128 << 96 | 1));
}

#[test]
fn retried_chunks_name_their_batch() {
    let mut engine = open_with_topic();
    let first = engine
        .append(atomic_request(1, 9, 0, b"chunk"))
        .expect("chunk");
    let again = engine
        .append(atomic_request(2, 9, 0, b"chunk"))
        .expect("repeated chunk");
    assert_eq!(again.record_id, first.record_id);
    assert_eq!(again.batch_id, first.batch_id);
    assert_eq!(again.request_id, 2);
}

#[test]
fn one_replica_is_every_replica() {
    let mut outcomes = Vec::new();
    for durability in [
        Durability::Leader,
        Durability::Quorum,
        Durability::AllReplicas,
    ] {
        let mut engine = open_with_topic();
        let response = engine.append(AppendRequest {
            durability,
            ..append_request(1, b"payload", None)
        });
        outcomes.push((response, engine.watermarks(partition())));
    }
    assert!(outcomes[0].0.is_ok());
    assert_eq!(outcomes[0], outcomes[1]);
    assert_eq!(outcomes[0], outcomes[2]);
}

/// Keeps what it was handed.
struct Recording(RefCell<Vec<ReplicaAppend>>);

impl Transport for Recording {
    fn replicate(
        &self,
        batch: ReplicaAppend,
        _required_followers: u32,
        _progress: &mut Vec<(Reservation, u32)>,
    ) -> EngineResult<u32> {
        self.0.borrow_mut().push(batch);
        Ok(1)
    }
}

#[test]
fn extension_contexts_travel_to_followers() {
    let transport = Rc::new(Recording(RefCell::new(Vec::new())));
    let mut engine = Engine::reopen(
        replicated_config(2, 2),
        Disk::default(),
        Some(transport.clone()),
    )
    .expect("open");
    engine.create_topic(topic(1)).expect("create topic");
    engine
        .append(AppendRequest {
            durability: Durability::AllReplicas,
            extension_context: Some(vec![4, 2]),
            ..append_request(1, b"payload", None)
        })
        .expect("append");
    let handed = transport.0.borrow();
    assert_eq!(handed.len(), 1);
    assert_eq!(handed[0].extension_context, Some(vec![4, 2]));
    assert_eq!(handed[0].payload, b"payload".to_vec());
}

#[test]
fn retained_bytes_start_inside_the_log() {
    let watermarks = PartitionWatermarks {
        log_start: LogicalOffset::new(4),
        allocated_end: LogicalOffset::new(9),
        contiguous_log_end: LogicalOffset::new(9),
        replicated_high_watermark: LogicalOffset::new(8),
        last_stable_offset: LogicalOffset::new(7),
    };
    assert_eq!(
        check_retained_start(&watermarks, LogicalOffset::new(3)),
        Err(EngineError::OffsetOutOfRange {
            requested: LogicalOffset::new(3),
            log_start: LogicalOffset::new(4),
        })
    );
    assert_eq!(
        check_retained_start(&watermarks, LogicalOffset::new(4)),
        Ok(())
    );
    assert!(counts_on(&watermarks, LogicalOffset::new(6), None));
    assert!(counts_on(&watermarks, LogicalOffset::new(6), Some(2)));
    assert!(!counts_on(&watermarks, LogicalOffset::new(6), Some(0)));
    assert!(!counts_on(&watermarks, LogicalOffset::new(7), None));
}

#[test]
fn recovered_partitions_are_named_in_order_and_once() {
    let mut catalog = Vec::new();
    for (topic_id, partition_id, batch_id) in [(2, 0, 0), (1, 3, 0), (2, 0, 1), (1, 0, 0)] {
        let mut reservation = replica_batch(batch_id).reservation;
        reservation.topic_id = TopicId::new(topic_id);
        reservation.partition_id = LogicalPartitionId::new(partition_id);
        catalog.push(ExtentCatalogEntry {
            reservation,
            producer: None,
            atomic_group: None,
            payload_bytes: 1,
            object_durable: false,
            record_id: identity(&reservation),
        });
    }
    let named = |topic_id, partition_id| {
        TopicPartition::new(TopicId::new(topic_id), LogicalPartitionId::new(partition_id))
    };
    assert_eq!(
        recovered_partitions(&catalog),
        vec![named(1, 0), named(1, 3), named(2, 0)]
    );
    assert!(recovered_partitions(&Vec::new()).is_empty());
}

#[test]
fn internal_fetches_use_the_whole_budget() {
    assert_eq!(replay_budget(&config()), Ok(1024 * 1024));
    assert_eq!(retained_budget(&config()), Ok(1024 * 1024));
    let boundless = EngineConfig {
        max_fetch_bytes: usize::MAX,
        ..config()
    };
    assert_eq!(
        replay_budget(&boundless),
        Err(EngineError::InvalidConfig(
            "max_fetch_bytes exceeds the recovery fetch limit".into()
        ))
    );
    assert_eq!(
        retained_budget(&boundless),
        Err(EngineError::InvalidConfig("max_fetch_bytes exceeds u32".into()))
    );
}
