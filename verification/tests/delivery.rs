use std::cell::RefCell;
use std::collections::VecDeque;

use shard_stream::config::{EngineConfig, PartitionReplicationPolicy};
use shard_stream::dispatch::coordinator_index;
use shard_stream::durable_apply::partition_worker;
use shard_stream::durable_sink::{
    checkpoint_age_ms, delivery_of, delivery_worker, open_delivery, process_decisions,
    settle_decisions, validate_checkpoint, wait_step, Budget, BudgetStep, DeliveryRound,
    DurableAppend, DurableAppendDelivery, DurableAppendSink, DurableAppendSinkFactory,
    DurableAtomicDecision, DurableAtomicGroup, DurableSinkApply, DurableSinkAtomicVisibility, DurableSinkCheckpoint,
    DurableSinkLagPolicy, DurableSinkOptions, PartitionDelivery, Queued, Ready, RetryDelay, Settled,
    WaitStep,
};
use shard_stream::engine::first_error;
use shard_stream::error::{EngineError, EngineResult};
use shard_stream::ids::{
    BatchId, LeaderEpoch, LogicalOffset, LogicalPartitionId, PlacementSequence, RecordId,
    RingEpoch, ShardId, TopicId, TopicPartition,
};
use shard_stream::maps::PairMap;
use shard_stream::partition::AtomicGroupState;
use shard_stream::pool::{distribute, merge_partitions};
use shard_stream::protocol::AtomicGroupIdentity;
use shard_stream::sequencer::{Placement, Reservation};
use shard_stream::text::{decimal_string, parse_decimal};
use shard_stream::time::Duration;

fn partition() -> TopicPartition {
    TopicPartition::new(TopicId::new(3), LogicalPartitionId::new(1))
}

fn append(sequence: u64) -> DurableAppend {
    DurableAppend {
        event_id: RecordId::new(u128::from(sequence)),
        physical_shard_id: ShardId::new((sequence % 2) as u32),
        reservation: Reservation {
            topic_id: TopicId::new(3),
            partition_id: LogicalPartitionId::new(1),
            batch_id: BatchId::new(u128::from(sequence)),
            first_offset: LogicalOffset::new(2 * sequence),
            last_offset: LogicalOffset::new(2 * sequence + 1),
            record_count: 2,
            placement: Placement {
                virtual_lane_id: ShardId::new((sequence % 2) as u32),
                ring_epoch: RingEpoch::new(1),
                leader_epoch: LeaderEpoch::new(0),
                sequence: PlacementSequence::new(sequence),
            },
        },
        producer_event_id: None,
        atomic_group: None,
        delivery: DurableAppendDelivery::Publish,
        payload: vec![sequence as u8],
    }
}

fn shards() -> Vec<ShardId> {
    vec![ShardId::new(0), ShardId::new(1)]
}

fn apply_next(delivery: &mut PartitionDelivery, outcome: Option<DurableSinkApply>) -> Settled {
    match delivery.next_ready(&shards()) {
        Ready::Apply { append, next, .. } => delivery.settle(append, next, outcome),
        _ => panic!("a batch is ready"),
    }
}

#[test]
fn batches_are_delivered_in_placement_order() {
    let mut delivery = PartitionDelivery::open(partition(), None).expect("open");
    assert!(matches!(delivery.enqueue(append(1)), Queued::Waiting));
    assert!(matches!(delivery.next_ready(&shards()), Ready::Idle));
    assert!(matches!(delivery.enqueue(append(0)), Queued::Waiting));
    assert!(matches!(delivery.enqueue(append(0)), Queued::Repeated));
    assert!(matches!(
        apply_next(&mut delivery, Some(DurableSinkApply::Applied)),
        Settled::Applied
    ));
    assert!(matches!(
        apply_next(&mut delivery, Some(DurableSinkApply::Applied)),
        Settled::Applied
    ));
    assert_eq!(delivery.checkpoint.next_offset, LogicalOffset::new(4));
    assert!(matches!(delivery.enqueue(append(0)), Queued::Delivered));
}

#[test]
fn a_failed_delivery_is_offered_again() {
    let mut delivery = PartitionDelivery::open(partition(), None).expect("open");
    delivery.enqueue(append(0));
    assert!(matches!(apply_next(&mut delivery, None), Settled::Retry));
    assert_eq!(delivery.checkpoint, DurableSinkCheckpoint::initial(partition()));
    assert!(matches!(
        apply_next(&mut delivery, Some(DurableSinkApply::Applied)),
        Settled::Applied
    ));
}

#[test]
fn a_checkpoint_of_another_owner_is_taken_over() {
    let mut delivery = PartitionDelivery::open(partition(), None).expect("open");
    delivery.enqueue(append(0));
    delivery.enqueue(append(1));
    let ahead = DurableSinkCheckpoint::initial(partition())
        .after(append(0).reservation)
        .expect("next")
        .after(append(1).reservation)
        .expect("next");
    assert!(matches!(
        apply_next(&mut delivery, Some(DurableSinkApply::CheckpointConflict(ahead))),
        Settled::TookOver
    ));
    assert_eq!(delivery.checkpoint, ahead);
    assert!(matches!(delivery.next_ready(&shards()), Ready::Idle));
}

#[test]
fn checkpoints_chain_and_refuse_gaps() {
    let first = DurableSinkCheckpoint::initial(partition());
    let next = first.after(append(0).reservation).expect("next");
    assert_eq!(next.next_placement_sequence, PlacementSequence::new(1));
    assert_eq!(next.next_offset, LogicalOffset::new(2));
    assert!(first.after(append(1).reservation).is_err());
    assert!(next.reaches(&first));
    assert!(!first.reaches(&next));
    validate_checkpoint(partition(), &next).expect("own partition");
    let other = TopicPartition::new(TopicId::new(4), LogicalPartitionId::new(1));
    assert!(validate_checkpoint(other, &next).is_err());
    assert!(PartitionDelivery::open(other, Some(next)).is_err());
    assert_eq!(append(0).topic_partition(), partition());
}

#[test]
fn budgets_hold_appends_back_or_skip_them() {
    let mut budget = Budget::new(2, 10);
    assert!(matches!(
        budget.reserve(6, DurableSinkLagPolicy::Backpressure),
        BudgetStep::Charged
    ));
    assert!(matches!(
        budget.reserve(6, DurableSinkLagPolicy::Backpressure),
        BudgetStep::Wait
    ));
    assert!(matches!(
        budget.reserve(6, DurableSinkLagPolicy::Availability),
        BudgetStep::Skipped
    ));
    assert_eq!(budget.snapshot(), (1, 6));
    budget.release(6);
    assert!(budget.try_reserve(10));
    budget.release(10);
    budget.stop();
    assert!(matches!(
        budget.reserve(1, DurableSinkLagPolicy::Backpressure),
        BudgetStep::Refused(_)
    ));
}

#[test]
fn options_are_checked_against_the_engine() {
    let options = DurableSinkOptions::default();
    assert_eq!(options.validate(1000, 100, false), Ok(1000));
    assert!(options.validate(10, 100, false).is_err());
    assert!(DurableSinkOptions { worker_count: 0, ..options }.validate(1000, 100, false).is_err());
    assert!(DurableSinkOptions {
        atomic_visibility: DurableSinkAtomicVisibility::CommittedOnly,
        ..options
    }
    .validate(1000, 100, false)
    .is_err());
    let grouped = Some(AtomicGroupIdentity { transaction_id: 1, chunk_sequence: 0 });
    assert_eq!(
        delivery_of(
            DurableSinkAtomicVisibility::CommittedOnly,
            &grouped,
            DurableAppendDelivery::Publish
        ),
        DurableAppendDelivery::Stage
    );
    assert_eq!(
        delivery_of(
            DurableSinkAtomicVisibility::AllDurable,
            &grouped,
            DurableAppendDelivery::Publish
        ),
        DurableAppendDelivery::Publish
    );
}

#[test]
fn decisions_are_kept_until_they_are_accepted() {
    let decision = |transaction_id: u128| DurableAtomicDecision {
        group: DurableAtomicGroup { topic_partition: partition(), transaction_id },
        outcome: AtomicGroupState::Committed,
    };
    let queue: VecDeque<DurableAtomicDecision> = [decision(1), decision(2)].into_iter().collect();
    let round = settle_decisions(&queue, &vec![true, false]);
    assert_eq!(round.remaining.len(), 1);
    assert_eq!(round.finalized.len(), 1);
    assert_eq!(round.finalized[0].transaction_id, 1);
    assert!(round.failed);
}

#[test]
fn retries_wait_longer_and_longer() {
    let mut delay = RetryDelay::new();
    let first = delay.after_round(true);
    let second = delay.after_round(true);
    assert!(second.nanos > first.nanos);
    delay.after_round(false);
    assert_eq!(delay.after_round(true), first);
    assert_eq!(checkpoint_age_ms(0, 0, 5_000, 0), 0);
    assert_eq!(checkpoint_age_ms(1, 0, 5_000, 2_000), 3);
    assert!(matches!(
        wait_step(true, false, Duration::from_nanos(0), false),
        WaitStep::Reached
    ));
    assert!(matches!(
        wait_step(false, false, Duration::from_nanos(0), false),
        WaitStep::Failed(_)
    ));
    assert!(matches!(
        wait_step(false, false, Duration::from_secs(1), true),
        WaitStep::Wait(_)
    ));
}

#[test]
fn partitions_are_spread_over_workers_and_found_again() {
    let mut recovered = PairMap::new();
    for topic in 0..20u128 {
        recovered.insert(topic, 1, topic * 10);
    }
    let states = distribute(3, recovered);
    assert_eq!(states.len(), 3);
    for topic in 0..20u128 {
        let home = coordinator_index(
            TopicPartition::new(TopicId::new(topic), LogicalPartitionId::new(1)),
            3,
        );
        assert_eq!(states[home].get(topic, 1), Some(&(topic * 10)));
        for (index, state) in states.iter().enumerate() {
            assert_eq!(state.contains_key(topic, 1), index == home);
        }
    }
    assert_eq!(distribute::<u8>(0, PairMap::new()).len(), 1);
    let at = |topic: u128, partition: u32| {
        TopicPartition::new(TopicId::new(topic), LogicalPartitionId::new(partition))
    };
    assert_eq!(
        merge_partitions(vec![vec![at(2, 0), at(1, 5)], vec![], vec![at(1, 2)]]),
        vec![at(1, 2), at(1, 5), at(2, 0)]
    );
}

#[test]
fn workers_are_picked_by_a_fixed_hash() {
    let mut key = Vec::new();
    key.extend_from_slice(&3u128.to_le_bytes());
    key.extend_from_slice(&1u32.to_le_bytes());
    let expected = xxhash_rust::xxh3::xxh3_64(&key) as usize;
    assert_eq!(partition_worker(partition(), 7), expected % 7);
    assert!(delivery_worker(partition(), 7) < 7);
}

#[test]
fn the_first_failure_is_reported() {
    let failure = |text: &str| Err(EngineError::Storage(text.into()));
    assert_eq!(first_error(vec![Ok(()), Ok(())], Ok(())), Ok(()));
    assert_eq!(
        first_error(vec![Ok(()), failure("a"), failure("b")], failure("c")),
        failure("a")
    );
    assert_eq!(first_error(vec![Ok(())], failure("c")), failure("c"));
}

#[test]
fn settings_are_checked_in_order() {
    let config = EngineConfig {
        data_dir: "data".into(),
        object_store_dir: None,
        shard_count: 2,
        virtual_lane_count: 4,
        replication_factor: 1,
        min_in_sync_replicas: 1,
        queue_slots_per_shard: 8,
        queue_bytes_per_shard: 4096,
        target_pack_bytes: 1024,
        max_pack_age: Duration::from_secs(1),
        max_batch_bytes: 1024,
        max_fetch_bytes: 1024,
        append_linger: Duration::from_millis(1),
    };
    config.validate().expect("valid");
    assert_eq!(config.shard_ids(), vec![ShardId::new(0), ShardId::new(1)]);
    assert_eq!(config.virtual_lane_ids().len(), 4);
    assert_eq!(config.physical_shard_for_lane(ShardId::new(3)), ShardId::new(1));
    assert!(EngineConfig { shard_count: 0, ..config.clone() }.validate().is_err());
    assert!(EngineConfig { max_batch_bytes: 4096, ..config.clone() }.validate().is_err());
    let policy = config.default_replication_policy();
    policy.validate(config.replication_factor).expect("valid policy");
    assert!(PartitionReplicationPolicy { min_in_sync_replicas: 2, ..policy }.validate(1).is_err());
}

#[test]
fn numbers_are_written_and_read_in_decimal() {
    assert_eq!(decimal_string(u128::MAX), u128::MAX.to_string());
    assert_eq!(decimal_string(0), "0".to_string());
    assert_eq!(parse_decimal(&u128::MAX.to_string(), u128::MAX), Some(u128::MAX));
    assert_eq!(parse_decimal("256", 255), None);
    assert_eq!(parse_decimal("+1", 255), Some(1));
    assert_eq!(parse_decimal("", 255), None);
    assert_eq!(parse_decimal("+", 255), None);
    assert_eq!(parse_decimal("-1", 255), None);
    assert_eq!(parse_decimal("1 ", 255), None);
}

/// Answers each apply with the next of its outcomes, and counts what it was given.
struct ScriptedSink {
    outcomes: RefCell<VecDeque<EngineResult<DurableSinkApply>>>,
    seen: RefCell<Vec<(u128, u64)>>,
}

impl ScriptedSink {
    fn new(outcomes: Vec<EngineResult<DurableSinkApply>>) -> Self {
        Self {
            outcomes: RefCell::new(outcomes.into_iter().collect()),
            seen: RefCell::new(Vec::new()),
        }
    }
}

impl DurableAppendSink for ScriptedSink {
    fn apply(
        &self,
        expected: DurableSinkCheckpoint,
        appends: &[DurableAppend],
        next: DurableSinkCheckpoint,
    ) -> EngineResult<DurableSinkApply> {
        assert_eq!(appends.len(), 1);
        assert_eq!(
            next.next_placement_sequence.get(),
            expected.next_placement_sequence.get() + 1
        );
        self.seen
            .borrow_mut()
            .push((appends[0].event_id.get(), next.next_offset.get()));
        self.outcomes
            .borrow_mut()
            .pop_front()
            .unwrap_or(Ok(DurableSinkApply::Applied))
    }
}

#[test]
fn ready_appends_are_applied_until_one_fails() {
    let failure = EngineError::DurableSinkUnavailable("down".into());
    let sinks = vec![
        (
            ShardId::new(0),
            ScriptedSink::new(vec![Ok(DurableSinkApply::Applied), Err(failure)]),
        ),
        (ShardId::new(1), ScriptedSink::new(Vec::new())),
    ];
    let mut delivery = PartitionDelivery::open(partition(), None).expect("open");
    for sequence in [3, 1, 0, 2] {
        delivery.enqueue(append(sequence));
    }
    assert_eq!(
        delivery.process_ready(&sinks),
        DeliveryRound { applied: 2, conflicts: 0, failed: true }
    );
    assert_eq!(delivery.checkpoint.next_offset, LogicalOffset::new(4));
    assert_eq!(delivery.pending.len(), 2);
    assert_eq!(
        delivery.process_ready(&sinks),
        DeliveryRound { applied: 2, conflicts: 0, failed: false }
    );
    assert!(delivery.pending.is_empty());
    assert_eq!(*sinks[0].1.seen.borrow(), vec![(0, 2), (2, 6), (2, 6)]);
    assert_eq!(*sinks[1].1.seen.borrow(), vec![(1, 4), (3, 8)]);
}

#[test]
fn an_append_without_a_sink_waits() {
    let sinks = vec![(ShardId::new(1), ScriptedSink::new(Vec::new()))];
    let mut delivery = PartitionDelivery::open(partition(), None).expect("open");
    delivery.enqueue(append(0));
    assert_eq!(
        delivery.process_ready(&sinks),
        DeliveryRound { applied: 0, conflicts: 0, failed: true }
    );
    assert_eq!(delivery.pending.len(), 1);
}

struct Factory;

impl DurableAppendSinkFactory for Factory {
    type Sink = ScriptedSink;

    fn validate_append(&self, _payload: &[u8], _record_count: u32) -> EngineResult<()> {
        Ok(())
    }

    fn load_checkpoint(
        &self,
        topic_partition: TopicPartition,
    ) -> EngineResult<Option<DurableSinkCheckpoint>> {
        Ok(Some(DurableSinkCheckpoint {
            next_placement_sequence: PlacementSequence::new(5),
            ..DurableSinkCheckpoint::initial(topic_partition)
        }))
    }

    fn open_shard(&self, _shard_id: ShardId) -> EngineResult<ScriptedSink> {
        Ok(ScriptedSink::new(Vec::new()))
    }

    fn finalize_atomic_group(&self, decision: DurableAtomicDecision) -> EngineResult<()> {
        if decision.group.transaction_id == 2 {
            return Err(EngineError::DurableSinkUnavailable("busy".into()));
        }
        Ok(())
    }
}

#[test]
fn a_factory_gives_checkpoints_and_takes_decisions() {
    let delivery = open_delivery(&Factory, partition()).expect("open");
    assert_eq!(
        delivery.checkpoint.next_placement_sequence,
        PlacementSequence::new(5)
    );
    assert!(!Factory.supports_committed_only());
    assert!(Factory.pending_atomic_groups().expect("groups").is_empty());
    Factory.validate_append(&[], 1).expect("valid");
    let decisions = (1..=3u128)
        .map(|transaction_id| DurableAtomicDecision {
            group: DurableAtomicGroup { topic_partition: partition(), transaction_id },
            outcome: AtomicGroupState::Aborted,
        })
        .collect::<VecDeque<_>>();
    let round = process_decisions(&Factory, &decisions);
    assert!(round.failed);
    assert_eq!(round.remaining[0].group.transaction_id, 2);
    assert_eq!(
        round
            .finalized
            .iter()
            .map(|group| group.transaction_id)
            .collect::<Vec<_>>(),
        vec![1, 3]
    );
}
