//! The benchmark's settings, workload, sink and totals.
use vstd::prelude::*;

use crate::config::EngineConfig;
use crate::durable_sink::{
    DurableSinkApply, DurableSinkCheckpoint, DurableSinkLagPolicy, DurableSinkOptions,
};
use crate::error::{agrees, EngineError, EngineResult, Fault};
use crate::ids::{LogicalOffset, LogicalPartitionId, PlacementSequence, TopicId, TopicPartition};
use crate::maps::PairMap;
use crate::protocol::{AppendRequest, Durability, ProducerIdentity};
use crate::text::{append_decimal, decimal};
use crate::time::Duration;

verus! {

/// The durability that a benchmark asks for.
#[derive(Debug, Clone, Copy, PartialEq, Eq, Structural)]
pub enum DurabilityArg {
    Leader,
    Quorum,
    AllReplicas,
    Object,
}

impl DurabilityArg {
    pub fn engine(self) -> (durability: Durability)
        ensures
            durability == (match self {
                DurabilityArg::Leader => Durability::Leader,
                DurabilityArg::Quorum => Durability::Quorum,
                DurabilityArg::AllReplicas => Durability::AllReplicas,
                DurabilityArg::Object => Durability::Object,
            }),
    {
        match self {
            DurabilityArg::Leader => Durability::Leader,
            DurabilityArg::Quorum => Durability::Quorum,
            DurabilityArg::AllReplicas => Durability::AllReplicas,
            DurabilityArg::Object => Durability::Object,
        }
    }

    pub fn name(self) -> (name: &'static str)
        ensures
            name@ == (match self {
                DurabilityArg::Leader => "leader-fsync"@,
                DurabilityArg::Quorum => "quorum-fsync"@,
                DurabilityArg::AllReplicas => "all-replicas-fsync"@,
                DurabilityArg::Object => "object-manifest"@,
            }),
    {
        match self {
            DurabilityArg::Leader => "leader-fsync",
            DurabilityArg::Quorum => "quorum-fsync",
            DurabilityArg::AllReplicas => "all-replicas-fsync",
            DurabilityArg::Object => "object-manifest",
        }
    }
}

/// How the benchmark's sink behaves.
#[derive(Debug, Clone, Copy, PartialEq, Eq, Structural)]
pub enum SinkMode {
    Disabled,
    Noop,
    Slow,
    Failed,
}

impl SinkMode {
    pub fn name(self) -> (name: &'static str)
        ensures
            name@ == (match self {
                SinkMode::Disabled => "none"@,
                SinkMode::Noop => "noop"@,
                SinkMode::Slow => "slow"@,
                SinkMode::Failed => "failed"@,
            }),
    {
        match self {
            SinkMode::Disabled => "none",
            SinkMode::Noop => "noop",
            SinkMode::Slow => "slow",
            SinkMode::Failed => "failed",
        }
    }
}

/// What a benchmark runs.
#[derive(Debug, Clone, Copy, PartialEq, Eq, Structural)]
pub struct Workload {
    pub batches: u64,
    pub records_per_batch: u32,
    pub payload_bytes: usize,
    pub shards: u32,
    pub partitions: u32,
    pub concurrency: usize,
    pub durability: DurabilityArg,
    pub sink_mode: SinkMode,
    pub sink_delay_us: u64,
    pub idempotent_producers: bool,
}

impl Workload {
    /// The workload can be run.
    pub open spec fn valid(self) -> bool {
        &&& self.batches != 0
        &&& self.records_per_batch != 0
        &&& self.payload_bytes != 0
        &&& self.shards != 0
        &&& self.partitions != 0
        &&& self.concurrency != 0
        &&& !(self.sink_mode == SinkMode::Slow && self.sink_delay_us == 0)
    }

    /// Checks the workload.
    pub fn validate_args(&self) -> (result: Result<(), String>)
        ensures
            result is Ok == self.valid(),
            result is Err ==> result->Err_0@
                == "benchmark counts, sizes, shards, partitions, and concurrency must be nonzero"@,
    {
        if self.batches == 0 || self.records_per_batch == 0 || self.payload_bytes == 0
            || self.shards == 0 || self.partitions == 0 || self.concurrency == 0 || (self.sink_mode
            == SinkMode::Slow && self.sink_delay_us == 0) {
            return Err(
                "benchmark counts, sizes, shards, partitions, and concurrency must be nonzero".to_string(),
            );
        }
        Ok(())
    }

    /// The bytes that each shard's queue may hold.
    pub open spec fn queue_bytes(self) -> nat {
        self.payload_bytes as nat * (if self.concurrency < 64 {
            64nat
        } else {
            self.concurrency as nat
        }) + 67108864
    }

    /// Sets the engine up for the workload.
    pub fn engine_config(&self, data_dir: String, object_store_dir: Option<String>) -> (result:
        Result<EngineConfig, String>)
        ensures
            match result {
                Ok(config) => {
                    &&& self.queue_bytes() <= usize::MAX
                    &&& config.data_dir == data_dir
                    &&& config.object_store_dir == object_store_dir
                    &&& config.shard_count == self.shards
                    &&& config.virtual_lane_count == self.shards
                    &&& config.replication_factor == 1
                    &&& config.min_in_sync_replicas == 1
                    &&& config.queue_slots_per_shard == (if self.concurrency * 4 > usize::MAX {
                        usize::MAX as int
                    } else if self.concurrency * 4 < 4096 {
                        4096
                    } else {
                        self.concurrency * 4
                    })
                    &&& config.queue_bytes_per_shard == self.queue_bytes()
                    &&& config.target_pack_bytes == 268435456
                    &&& config.max_pack_age == (Duration { nanos: 1000000000 })
                    &&& config.max_batch_bytes == self.payload_bytes
                    &&& config.max_fetch_bytes == (if self.payload_bytes < 1048576 {
                        1048576
                    } else {
                        self.payload_bytes
                    })
                    &&& config.append_linger == (Duration { nanos: 1000000 })
                },
                Err(text) => {
                    &&& self.queue_bytes() > usize::MAX
                    &&& text@ == "queue byte configuration overflow"@
                },
            },
    {
        let writers: usize = if self.concurrency < 64 {
            64
        } else {
            self.concurrency
        };
        let payload: usize = match self.payload_bytes.checked_mul(writers) {
            None => {
                return Err("queue byte configuration overflow".to_string());
            },
            Some(bytes) => bytes,
        };
        let queue_bytes: usize = match payload.checked_add(67108864) {
            None => {
                return Err("queue byte configuration overflow".to_string());
            },
            Some(bytes) => bytes,
        };
        let slots: usize = match self.concurrency.checked_mul(4) {
            Some(slots) => slots,
            None => usize::MAX,
        };
        Ok(
            EngineConfig {
                data_dir,
                object_store_dir,
                shard_count: self.shards,
                virtual_lane_count: self.shards,
                replication_factor: 1,
                min_in_sync_replicas: 1,
                queue_slots_per_shard: if slots < 4096 {
                    4096
                } else {
                    slots
                },
                queue_bytes_per_shard: queue_bytes,
                target_pack_bytes: 268435456,
                max_pack_age: Duration { nanos: 1000000000 },
                max_batch_bytes: self.payload_bytes,
                max_fetch_bytes: if self.payload_bytes < 1048576 {
                    1048576
                } else {
                    self.payload_bytes
                },
                append_linger: Duration { nanos: 1000000 },
            },
        )
    }

    /// The partition that takes a batch: they take turns.
    pub fn partition_of(&self, batch: u64) -> (partition_id: LogicalPartitionId)
        requires
            self.valid(),
        ensures
            partition_id.0 == batch % (self.partitions as u64),
            partition_id.0 < self.partitions,
    {
        LogicalPartitionId((batch % (self.partitions as u64)) as u32)
    }

    /// The append of one batch by one worker.
    pub fn append_request(
        &self,
        batch: u64,
        worker_index: usize,
        first_sequence: u64,
        payload: Vec<u8>,
    ) -> (request: AppendRequest)
        requires
            self.valid(),
        ensures
            request.request_id == batch,
            request.topic_id == TopicId(1),
            request.partition_id.0 == batch % (self.partitions as u64),
            request.record_count == self.records_per_batch,
            request.payload == payload,
            request.durability == (match self.durability {
                DurabilityArg::Leader => Durability::Leader,
                DurabilityArg::Quorum => Durability::Quorum,
                DurabilityArg::AllReplicas => Durability::AllReplicas,
                DurabilityArg::Object => Durability::Object,
            }),
            request.producer == (if self.idempotent_producers {
                Some(
                    ProducerIdentity {
                        producer_id: (worker_index + 1) as u128,
                        epoch: 0,
                        first_sequence,
                        event_id: None,
                    },
                )
            } else {
                None
            }),
            request.atomic_group is None,
            request.leader_epoch is None,
            request.extension_context is None,
    {
        AppendRequest {
            request_id: batch as u128,
            topic_id: TopicId(1),
            partition_id: self.partition_of(batch),
            record_count: self.records_per_batch,
            payload,
            durability: self.durability.engine(),
            producer: if self.idempotent_producers {
                Some(
                    ProducerIdentity {
                        producer_id: worker_index as u128 + 1,
                        epoch: 0,
                        first_sequence,
                        event_id: None,
                    },
                )
            } else {
                None
            },
            atomic_group: None,
            leader_epoch: None,
            extension_context: None,
        }
    }

    /// The sequence of a worker's next batch in a partition.
    pub fn next_sequence(&self, sequence: u64) -> (result: Result<u64, String>)
        ensures
            match result {
                Ok(next) => next == sequence + (if self.idempotent_producers {
                    self.records_per_batch as int
                } else {
                    0
                }),
                Err(text) => self.idempotent_producers && sequence + self.records_per_batch
                    > u64::MAX && text@ == "producer sequence overflow"@,
            },
    {
        if !self.idempotent_producers {
            return Ok(sequence);
        }
        match sequence.checked_add(self.records_per_batch as u64) {
            Some(next) => Ok(next),
            None => Err("producer sequence overflow".to_string()),
        }
    }

    /// The records and the payload bytes of the whole run.
    pub fn totals(&self) -> (result: Result<(u64, u64), String>)
        ensures
            match result {
                Ok((records, bytes)) => {
                    &&& records == self.batches * self.records_per_batch
                    &&& bytes == self.batches * self.payload_bytes
                },
                Err(text) => if self.batches * self.records_per_batch > u64::MAX {
                    text@ == "record count overflow"@
                } else {
                    self.batches * self.payload_bytes > u64::MAX && text@
                        == "payload byte count overflow"@
                },
            },
    {
        let records: u64 = match self.batches.checked_mul(self.records_per_batch as u64) {
            None => {
                return Err("record count overflow".to_string());
            },
            Some(records) => records,
        };
        match self.batches.checked_mul(self.payload_bytes as u64) {
            None => Err("payload byte count overflow".to_string()),
            Some(bytes) => Ok((records, bytes)),
        }
    }

    /// Checks that every batch was timed.
    pub fn check_completed(&self, completed: usize) -> (result: Result<(), String>)
        ensures
            result is Ok == (completed == self.batches),
            result is Err ==> result->Err_0@ == "benchmark completed "@ + decimal(completed as nat)
                + " of "@ + decimal(self.batches as nat) + " batches"@,
    {
        if completed as u64 != self.batches {
            let mut text = "benchmark completed ".to_string();
            append_decimal(&mut text, completed as u128);
            text.append(" of ");
            append_decimal(&mut text, self.batches as u128);
            text.append(" batches");
            return Err(text);
        }
        Ok(())
    }
}

/// The sum of the partitions' allocated ends.
pub open spec fn sum_of(ends: Seq<LogicalOffset>) -> nat
    decreases ends.len(),
{
    if ends.len() == 0 {
        0
    } else {
        sum_of(ends.drop_last()) + ends.last().0 as nat
    }
}

proof fn lemma_sum_bound(ends: Seq<LogicalOffset>)
    ensures
        sum_of(ends) <= ends.len() * u64::MAX,
    decreases ends.len(),
{
    if ends.len() > 0 {
        lemma_sum_bound(ends.drop_last());
        assert((ends.len() - 1) * u64::MAX + u64::MAX == ends.len() * u64::MAX) by (nonlinear_arith)
            requires
                ends.len() > 0,
        ;
    }
}

/// Checks that the partitions have allocated one offset per record, and finds
/// the largest end.
pub fn check_allocated(ends: &Vec<LogicalOffset>, records: u64) -> (result: Result<
    LogicalOffset,
    String,
>)
    ensures
        match result {
            Ok(largest) => {
                &&& sum_of(ends@) == records
                &&& forall|i: int| 0 <= i < ends@.len() ==> (#[trigger] ends@[i]).0 <= largest.0
                &&& largest.0 == 0 || exists|i: int|
                    0 <= i < ends@.len() && #[trigger] ends@[i] == largest
            },
            Err(text) => {
                &&& sum_of(ends@) != records
                &&& text@ == "benchmark allocated "@ + decimal(sum_of(ends@))
                    + " logical offsets, expected "@ + decimal(records as nat)
            },
        },
{
    let mut largest: LogicalOffset = LogicalOffset(0);
    let mut sum: u128 = 0;
    let mut index: usize = 0;
    while index < ends.len()
        invariant
            index <= ends@.len(),
            sum == sum_of(ends@.take(index as int)),
            forall|i: int| 0 <= i < index ==> (#[trigger] ends@[i]).0 <= largest.0,
            largest.0 == 0 || exists|i: int| 0 <= i < index && #[trigger] ends@[i] == largest,
        decreases ends@.len() - index,
    {
        let end = ends[index];
        proof {
            assert(ends@.take(index + 1).drop_last() =~= ends@.take(index as int));
            lemma_sum_bound(ends@.take(index + 1));
            assert((index + 1) * u64::MAX <= u128::MAX) by (nonlinear_arith)
                requires
                    index < usize::MAX,
                    usize::MAX <= u64::MAX,
            ;
        }
        sum += end.0 as u128;
        if end.0 > largest.0 {
            largest = end;
        }
        index += 1;
    }
    proof {
        assert(ends@.take(index as int) =~= ends@);
    }
    if sum != records as u128 {
        let mut text = "benchmark allocated ".to_string();
        append_decimal(&mut text, sum);
        text.append(" logical offsets, expected ");
        append_decimal(&mut text, records as u128);
        return Err(text);
    }
    Ok(largest)
}

/// The smaller of two first offsets, where there are two.
pub fn earliest(current: Option<LogicalOffset>, other: Option<LogicalOffset>) -> (first: Option<
    LogicalOffset,
>)
    ensures
        first == (match (current, other) {
            (Some(a), Some(b)) => Some(
                if a.0 <= b.0 {
                    a
                } else {
                    b
                },
            ),
            (Some(a), None) => Some(a),
            (None, b) => b,
        }),
{
    match (current, other) {
        (Some(a), Some(b)) => Some(
            if a.0 <= b.0 {
                a
            } else {
                b
            },
        ),
        (Some(a), None) => Some(a),
        (None, b) => b,
    }
}

/// The benchmark sink's checkpoints, by topic and partition.
pub struct BenchmarkSink {
    pub mode: SinkMode,
    pub checkpoints: PairMap<DurableSinkCheckpoint>,
}

impl BenchmarkSink {
    pub fn new(mode: SinkMode) -> (sink: Self)
        ensures
            sink.mode == mode,
            sink.checkpoints@ == Map::<(u128, u128), DurableSinkCheckpoint>::empty(),
    {
        BenchmarkSink { mode, checkpoints: PairMap::new() }
    }

    /// The checkpoint of a partition; the initial one where none is stored.
    pub open spec fn current(self, topic_partition: TopicPartition) -> DurableSinkCheckpoint {
        let key = (topic_partition.topic_id.0, topic_partition.partition_id.0 as u128);
        if self.checkpoints@.contains_key(key) {
            self.checkpoints@[key]
        } else {
            DurableSinkCheckpoint {
                topic_partition,
                next_placement_sequence: PlacementSequence(0),
                next_offset: LogicalOffset(0),
            }
        }
    }

    /// Finds a partition's checkpoint.
    pub fn load_checkpoint(&self, topic_partition: TopicPartition) -> (checkpoint: Option<
        DurableSinkCheckpoint,
    >)
        ensures
            match checkpoint {
                Some(stored) => self.checkpoints@.contains_key(
                    (topic_partition.topic_id.0, topic_partition.partition_id.0 as u128),
                ) && stored == self.current(topic_partition),
                None => !self.checkpoints@.contains_key(
                    (topic_partition.topic_id.0, topic_partition.partition_id.0 as u128),
                ),
            },
    {
        match self.checkpoints.get(
            topic_partition.topic_id.0,
            topic_partition.partition_id.0 as u128,
        ) {
            Some(checkpoint) => Some(*checkpoint),
            None => None,
        }
    }

    /// Moves a partition's checkpoint on from the expected one to the next.
    pub fn apply(&mut self, expected: DurableSinkCheckpoint, next: DurableSinkCheckpoint) -> (result:
        EngineResult<DurableSinkApply>)
        ensures
            final(self).mode == old(self).mode,
            if old(self).mode == SinkMode::Failed {
                &&& agrees(
                    result,
                    Err(Fault::DurableSinkUnavailable("benchmark sink injected failure"@)),
                )
                &&& final(self).checkpoints@ == old(self).checkpoints@
            } else if old(self).current(expected.topic_partition) != expected {
                &&& agrees(
                    result,
                    Ok(
                        DurableSinkApply::CheckpointConflict(
                            old(self).current(expected.topic_partition),
                        ),
                    ),
                )
                &&& final(self).checkpoints@ == old(self).checkpoints@
            } else {
                &&& agrees(result, Ok(DurableSinkApply::Applied))
                &&& final(self).checkpoints@ == old(self).checkpoints@.insert(
                    (next.topic_partition.topic_id.0, next.topic_partition.partition_id.0 as u128),
                    next,
                )
            },
    {
        if self.mode == SinkMode::Failed {
            return Err(
                EngineError::DurableSinkUnavailable("benchmark sink injected failure".to_string()),
            );
        }
        let actual = match self.load_checkpoint(expected.topic_partition) {
            Some(stored) => stored,
            None => DurableSinkCheckpoint::initial(expected.topic_partition),
        };
        if actual != expected {
            return Ok(DurableSinkApply::CheckpointConflict(actual));
        }
        self.checkpoints.insert(
            next.topic_partition.topic_id.0,
            next.topic_partition.partition_id.0 as u128,
            next,
        );
        Ok(DurableSinkApply::Applied)
    }
}

/// The benchmark's sink options: a sink that fails must not hold appends up.
pub fn benchmark_sink_options(mode: SinkMode) -> (options: DurableSinkOptions)
    ensures
        options.lag_policy == (if mode == SinkMode::Failed {
            DurableSinkLagPolicy::Availability
        } else {
            DurableSinkLagPolicy::Backpressure
        }),
        options == (DurableSinkOptions {
            lag_policy: options.lag_policy,
            ..DurableSinkOptions::spec_default()
        }),
{
    let mut options = DurableSinkOptions::default();
    options.lag_policy =
    if mode == SinkMode::Failed {
        DurableSinkLagPolicy::Availability
    } else {
        DurableSinkLagPolicy::Backpressure
    };
    options
}

/// A batch that moved the checkpoint on is not applied a second time: the
/// checkpoint that it expects is gone.
pub proof fn applied_batches_are_not_applied_again(
    before: BenchmarkSink,
    after: BenchmarkSink,
    expected: DurableSinkCheckpoint,
    next: DurableSinkCheckpoint,
)
    requires
        before.current(expected.topic_partition) == expected,
        next.topic_partition == expected.topic_partition,
        next != expected,
        after.checkpoints@ == before.checkpoints@.insert(
            (next.topic_partition.topic_id.0, next.topic_partition.partition_id.0 as u128),
            next,
        ),
    ensures
        after.current(expected.topic_partition) == next,
        after.current(expected.topic_partition) != expected,
{
}

} // verus!
