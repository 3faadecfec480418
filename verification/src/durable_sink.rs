//! Delivery of durable appends to a sink: checkpoints, budgets, ordering and retries.
use std::collections::{HashMap, VecDeque};

use vstd::prelude::*;

use crate::error::{
    agrees, invalid_config, numbered2, EngineError, EngineResult, Fault,
};
use crate::ids::{LogicalOffset, PlacementSequence, RecordId, ShardId, TopicPartition};
use crate::maps::map_keys;
use crate::partition::AtomicGroupState;
use crate::protocol::AtomicGroupIdentity;
use crate::sequencer::Reservation;
use crate::text::{append_decimal, decimal};
use crate::time::Duration;

verus! {

broadcast use vstd::std_specs::hash::group_hash_axioms;

/// The shortest wait before a failed delivery is tried again.
pub const RETRY_MIN_NANOS: u64 = 10_000_000;

/// The longest wait before a failed delivery is tried again.
pub const RETRY_MAX_NANOS: u64 = 1_000_000_000;

/// Cluster-shared progress for one logical partition.
///
/// `next_placement_sequence` and `next_offset` identify the same next batch.
/// Sinks must persist both values with the data transaction so recovery can
/// detect a stale, skipped, or mismatched checkpoint.
#[derive(Debug, Clone, Copy, PartialEq, Eq, Hash, Structural)]
pub struct DurableSinkCheckpoint {
    pub topic_partition: TopicPartition,
    pub next_placement_sequence: PlacementSequence,
    pub next_offset: LogicalOffset,
}

impl DurableSinkCheckpoint {
    /// The checkpoint of a partition of which nothing was delivered.
    #[must_use]
    pub fn initial(topic_partition: TopicPartition) -> (checkpoint: Self)
        ensures
            checkpoint == (DurableSinkCheckpoint {
                topic_partition,
                next_placement_sequence: PlacementSequence(0),
                next_offset: LogicalOffset(0),
            }),
    {
        DurableSinkCheckpoint {
            topic_partition,
            next_placement_sequence: PlacementSequence(0),
            next_offset: LogicalOffset(0),
        }
    }

    /// A batch is the one that the checkpoint waits for.
    pub open spec fn expects(self, reservation: Reservation) -> bool {
        &&& self.topic_partition.topic_id == reservation.topic_id
        &&& self.topic_partition.partition_id == reservation.partition_id
        &&& self.next_placement_sequence == reservation.placement.sequence
        &&& self.next_offset == reservation.first_offset
    }

    /// The checkpoint after a batch, or why the batch does not follow.
    pub open spec fn followed_by(self, reservation: Reservation) -> Result<
        DurableSinkCheckpoint,
        Fault,
    > {
        if !self.expects(reservation) {
            Err(
                Fault::DurableSinkCheckpoint(
                    "append "@ + decimal(reservation.batch_id.0 as nat) + " at sequence "@
                        + decimal(reservation.placement.sequence.0 as nat) + " and offset "@
                        + decimal(reservation.first_offset.0 as nat)
                        + " does not follow checkpoint sequence "@ + decimal(
                        self.next_placement_sequence.0 as nat,
                    ) + " and offset "@ + decimal(self.next_offset.0 as nat),
                ),
            )
        } else if self.next_placement_sequence.0 == u64::MAX {
            Err(Fault::DurableSinkCheckpoint("durable sink placement sequence exhausted"@))
        } else if reservation.last_offset.0 == u64::MAX {
            Err(Fault::DurableSinkCheckpoint("durable sink logical offset exhausted"@))
        } else {
            Ok(
                DurableSinkCheckpoint {
                    topic_partition: self.topic_partition,
                    next_placement_sequence: PlacementSequence(
                        (self.next_placement_sequence.0 + 1) as u64,
                    ),
                    next_offset: LogicalOffset((reservation.last_offset.0 + 1) as u64),
                },
            )
        }
    }

    /// The checkpoint after a batch that must be the one it waits for.
    pub fn after(self, reservation: Reservation) -> (result: EngineResult<Self>)
        ensures
            agrees(result, self.followed_by(reservation)),
    {
        if self.topic_partition.topic_id != reservation.topic_id
            || self.topic_partition.partition_id != reservation.partition_id
            || self.next_placement_sequence != reservation.placement.sequence || self.next_offset
            != reservation.first_offset {
            let mut text = numbered2(
                "append ",
                reservation.batch_id.0,
                " at sequence ",
                reservation.placement.sequence.0 as u128,
                " and offset ",
            );
            append_decimal(&mut text, reservation.first_offset.0 as u128);
            text.append(" does not follow checkpoint sequence ");
            append_decimal(&mut text, self.next_placement_sequence.0 as u128);
            text.append(" and offset ");
            append_decimal(&mut text, self.next_offset.0 as u128);
            return Err(EngineError::DurableSinkCheckpoint(text));
        }
        let sequence: u64 = match self.next_placement_sequence.0.checked_add(1) {
            Some(sequence) => sequence,
            None => {
                return Err(
                    EngineError::DurableSinkCheckpoint(
                        "durable sink placement sequence exhausted".to_string(),
                    ),
                );
            },
        };
        let offset: u64 = match reservation.last_offset.0.checked_add(1) {
            Some(offset) => offset,
            None => {
                return Err(
                    EngineError::DurableSinkCheckpoint(
                        "durable sink logical offset exhausted".to_string(),
                    ),
                );
            },
        };
        Ok(
            DurableSinkCheckpoint {
                topic_partition: self.topic_partition,
                next_placement_sequence: PlacementSequence(sequence),
                next_offset: LogicalOffset(offset),
            },
        )
    }

    /// The checkpoint has come at least as far as another one.
    pub open spec fn spec_reaches(self, target: DurableSinkCheckpoint) -> bool {
        self.next_placement_sequence.0 >= target.next_placement_sequence.0 && self.next_offset.0
            >= target.next_offset.0
    }

    /// Whether the checkpoint has come at least as far as another one.
    pub fn reaches(&self, target: &DurableSinkCheckpoint) -> (reaches: bool)
        ensures
            reaches == self.spec_reaches(*target),
    {
        self.next_placement_sequence.0 >= target.next_placement_sequence.0 && self.next_offset.0
            >= target.next_offset.0
    }

    /// Delivering two batches in their order advances the checkpoint past both,
    /// and the second is accepted only where it starts where the first ended.
    pub proof fn checkpoints_chain(self, first: Reservation, second: Reservation)
        requires
            self.followed_by(first) is Ok,
            self.followed_by(first)->Ok_0.followed_by(second) is Ok,
        ensures
            second.first_offset.0 == first.last_offset.0 + 1,
            second.placement.sequence.0 == first.placement.sequence.0 + 1,
            self.followed_by(first)->Ok_0.followed_by(second)->Ok_0.next_placement_sequence.0
                == self.next_placement_sequence.0 + 2,
    {
    }
}

/// The refusal of another partition's checkpoint.
pub open spec fn misplaced(topic_partition: TopicPartition, checkpoint: DurableSinkCheckpoint) -> Fault {
    Fault::DurableSinkCheckpoint(
        "checkpoint belongs to "@ + decimal(checkpoint.topic_partition.topic_id.0 as nat) + "/"@
            + decimal(checkpoint.topic_partition.partition_id.0 as nat) + ", expected "@ + decimal(
            topic_partition.topic_id.0 as nat,
        ) + "/"@ + decimal(topic_partition.partition_id.0 as nat),
    )
}

/// Checks that a checkpoint belongs to a partition.
pub fn validate_checkpoint(topic_partition: TopicPartition, checkpoint: &DurableSinkCheckpoint) -> (
result: EngineResult<()>)
    ensures
        agrees(
            result,
            if checkpoint.topic_partition == topic_partition {
                Ok(())
            } else {
                Err(misplaced(topic_partition, *checkpoint))
            },
        ),
{
    if checkpoint.topic_partition != topic_partition {
        let mut text = numbered2(
            "checkpoint belongs to ",
            checkpoint.topic_partition.topic_id.0,
            "/",
            checkpoint.topic_partition.partition_id.0 as u128,
            ", expected ",
        );
        append_decimal(&mut text, topic_partition.topic_id.0);
        text.append("/");
        append_decimal(&mut text, topic_partition.partition_id.0 as u128);
        return Err(EngineError::DurableSinkCheckpoint(text));
    }
    Ok(())
}

/// How an append should become visible in a configured sink.
#[derive(Debug, Clone, Copy, PartialEq, Eq, Structural)]
pub enum DurableAppendDelivery {
    /// Publish the append as soon as the sink transaction commits.
    Publish,
    /// Durably stage the append until an atomic-group decision arrives.
    Stage,
}

/// One leader-owned append that is already durable in the local WAL.
#[derive(Debug, Clone, PartialEq, Eq)]
pub struct DurableAppend {
    pub event_id: RecordId,
    pub physical_shard_id: ShardId,
    pub reservation: Reservation,
    pub producer_event_id: Option<RecordId>,
    pub atomic_group: Option<AtomicGroupIdentity>,
    pub delivery: DurableAppendDelivery,
    pub payload: Vec<u8>,
}

impl DurableAppend {
    pub open spec fn spec_partition(self) -> TopicPartition {
        TopicPartition {
            topic_id: self.reservation.topic_id,
            partition_id: self.reservation.partition_id,
        }
    }

    #[must_use]
    pub fn topic_partition(&self) -> (topic_partition: TopicPartition)
        ensures
            topic_partition == self.spec_partition(),
    {
        TopicPartition {
            topic_id: self.reservation.topic_id,
            partition_id: self.reservation.partition_id,
        }
    }
}

/// Stable identity for one partition-scoped atomic group.
#[derive(Debug, Clone, Copy, PartialEq, Eq, Hash, Structural)]
pub struct DurableAtomicGroup {
    pub topic_partition: TopicPartition,
    pub transaction_id: u128,
}

/// A durable coordinator decision for a staged atomic group.
#[derive(Debug, Clone, Copy, PartialEq, Eq, Structural)]
pub struct DurableAtomicDecision {
    pub group: DurableAtomicGroup,
    pub outcome: AtomicGroupState,
}

/// Result of an atomic sink/checkpoint transaction.
#[derive(Debug, Clone, Copy, PartialEq, Eq, Structural)]
pub enum DurableSinkApply {
    /// The append data and `next` checkpoint committed atomically.
    Applied,
    /// Another owner advanced the cluster checkpoint first.
    CheckpointConflict(DurableSinkCheckpoint),
}

#[derive(Debug, Clone, Copy, PartialEq, Eq, Structural)]
pub enum DurableSinkRecoveryMode {
    Blocking,
    Background,
}

#[derive(Debug, Clone, Copy, PartialEq, Eq, Structural)]
pub enum DurableSinkLagPolicy {
    Backpressure,
    Availability,
}

#[derive(Debug, Clone, Copy, PartialEq, Eq, Structural)]
pub enum DurableSinkAtomicVisibility {
    AllDurable,
    CommittedOnly,
}

/// Delivery limits and recovery policy for a durable sink.
#[derive(Debug, Clone, Copy, PartialEq, Eq, Structural)]
pub struct DurableSinkOptions {
    pub recovery_mode: DurableSinkRecoveryMode,
    pub lag_policy: DurableSinkLagPolicy,
    pub atomic_visibility: DurableSinkAtomicVisibility,
    /// Partition-striped callback workers. Increase this for slow independent sinks.
    pub worker_count: usize,
    pub max_pending_items: usize,
    /// `None` inherits `EngineConfig::queue_bytes_per_shard`.
    pub max_pending_bytes: Option<usize>,
    /// Bounds blocking checkpoint loads and startup catch-up.
    pub recovery_timeout: Duration,
}

impl Default for DurableSinkOptions {
    fn default() -> (options: Self)
        ensures
            options == Self::spec_default(),
    {
        DurableSinkOptions {
            recovery_mode: DurableSinkRecoveryMode::Blocking,
            lag_policy: DurableSinkLagPolicy::Backpressure,
            atomic_visibility: DurableSinkAtomicVisibility::AllDurable,
            worker_count: 1,
            max_pending_items: 4_096,
            max_pending_bytes: None,
            recovery_timeout: Duration { nanos: 30_000_000_000 },
        }
    }
}

impl DurableSinkOptions {
    pub open spec fn spec_default() -> DurableSinkOptions {
        DurableSinkOptions {
            recovery_mode: DurableSinkRecoveryMode::Blocking,
            lag_policy: DurableSinkLagPolicy::Backpressure,
            atomic_visibility: DurableSinkAtomicVisibility::AllDurable,
            worker_count: 1,
            max_pending_items: 4_096,
            max_pending_bytes: None,
            recovery_timeout: Duration { nanos: 30_000_000_000 },
        }
    }

    /// The most bytes that may be pending.
    pub open spec fn byte_limit(self, inherited_max_bytes: usize) -> usize {
        match self.max_pending_bytes {
            Some(bytes) => bytes,
            None => inherited_max_bytes,
        }
    }

    /// The first thing that is wrong with the options of an engine with these limits.
    pub open spec fn fault(
        self,
        inherited_max_bytes: usize,
        maximum_event_bytes: usize,
        supports_committed_only: bool,
    ) -> Option<Seq<char>> {
        let max_bytes = self.byte_limit(inherited_max_bytes);
        if self.max_pending_items == 0 {
            Some("durable sink max_pending_items must be nonzero"@)
        } else if self.worker_count == 0 {
            Some("durable sink worker_count must be nonzero"@)
        } else if self.worker_count > 256 {
            Some("durable sink worker_count cannot exceed 256"@)
        } else if self.recovery_timeout.nanos == 0 {
            Some("durable sink recovery_timeout must be nonzero"@)
        } else if max_bytes == 0 {
            Some("durable sink max_pending_bytes must be nonzero"@)
        } else if max_bytes < maximum_event_bytes {
            Some(
                "durable sink max_pending_bytes "@ + decimal(max_bytes as nat)
                    + " is below max_batch_bytes "@ + decimal(maximum_event_bytes as nat) + ""@,
            )
        } else if self.atomic_visibility == DurableSinkAtomicVisibility::CommittedOnly
            && !supports_committed_only {
            Some(
                "committed-only durable sinks must support durable atomic staging and decisions"@,
            )
        } else {
            None
        }
    }

    /// Checks the options and gives the most bytes that may be pending.
    pub fn validate(
        &self,
        inherited_max_bytes: usize,
        maximum_event_bytes: usize,
        supports_committed_only: bool,
    ) -> (result: EngineResult<usize>)
        ensures
            agrees(
                result,
                match self.fault(
                    inherited_max_bytes,
                    maximum_event_bytes,
                    supports_committed_only,
                ) {
                    Some(text) => Err(Fault::InvalidConfig(text)),
                    None => Ok(self.byte_limit(inherited_max_bytes)),
                },
            ),
    {
        if self.max_pending_items == 0 {
            return Err(invalid_config("durable sink max_pending_items must be nonzero"));
        }
        if self.worker_count == 0 {
            return Err(invalid_config("durable sink worker_count must be nonzero"));
        }
        if self.worker_count > 256 {
            return Err(invalid_config("durable sink worker_count cannot exceed 256"));
        }
        if self.recovery_timeout.is_zero() {
            return Err(invalid_config("durable sink recovery_timeout must be nonzero"));
        }
        let max_bytes: usize = match self.max_pending_bytes {
            Some(bytes) => bytes,
            None => inherited_max_bytes,
        };
        if max_bytes == 0 {
            return Err(invalid_config("durable sink max_pending_bytes must be nonzero"));
        }
        if max_bytes < maximum_event_bytes {
            return Err(
                EngineError::InvalidConfig(
                    numbered2(
                        "durable sink max_pending_bytes ",
                        max_bytes as u128,
                        " is below max_batch_bytes ",
                        maximum_event_bytes as u128,
                        "",
                    ),
                ),
            );
        }
        if self.atomic_visibility == DurableSinkAtomicVisibility::CommittedOnly
            && !supports_committed_only {
            return Err(
                invalid_config(
                    "committed-only durable sinks must support durable atomic staging and decisions",
                ),
            );
        }
        Ok(max_bytes)
    }
}

#[derive(Debug, Clone, Copy, PartialEq, Eq, Structural)]
pub struct DurableSinkStats {
    pub pending_items: u64,
    pub pending_bytes: u64,
    /// Milliseconds since the most recent checkpoint while work is pending.
    pub checkpoint_age_ms: u64,
    pub applied_appends: u64,
    pub checkpoint_conflicts: u64,
    pub retry_attempts: u64,
    pub failed_attempts: u64,
    pub dropped_notifications: u64,
    pub dirty_partitions: u64,
}

impl Default for DurableSinkStats {
    fn default() -> (stats: Self)
        ensures
            stats == (DurableSinkStats {
                pending_items: 0,
                pending_bytes: 0,
                checkpoint_age_ms: 0,
                applied_appends: 0,
                checkpoint_conflicts: 0,
                retry_attempts: 0,
                failed_attempts: 0,
                dropped_notifications: 0,
                dirty_partitions: 0,
            }),
    {
        DurableSinkStats {
            pending_items: 0,
            pending_bytes: 0,
            checkpoint_age_ms: 0,
            applied_appends: 0,
            checkpoint_conflicts: 0,
            retry_attempts: 0,
            failed_attempts: 0,
            dropped_notifications: 0,
            dirty_partitions: 0,
        }
    }
}

/// How old the last checkpoint is, in milliseconds, while there is work left.
pub fn checkpoint_age_ms(
    pending_items: u64,
    dirty_partitions: u64,
    elapsed_micros: u64,
    last_checkpoint_micros: u64,
) -> (age: u64)
    ensures
        age == (if (pending_items > 0 || dirty_partitions > 0) && elapsed_micros
            > last_checkpoint_micros {
            (elapsed_micros - last_checkpoint_micros) / 1_000
        } else {
            0
        }),
{
    if pending_items > 0 || dirty_partitions > 0 {
        elapsed_micros.saturating_sub(last_checkpoint_micros) / 1_000
    } else {
        0
    }
}

/// Items and bytes that wait for delivery, within their limits.
#[derive(Debug, Clone, Copy, PartialEq, Eq, Structural)]
pub struct Budget {
    pub pending_items: usize,
    pub pending_bytes: usize,
    pub stopped: bool,
    pub max_items: usize,
    pub max_bytes: usize,
}

/// What a request for room meets.
#[derive(Debug, PartialEq, Eq)]
pub enum BudgetStep {
    /// The bytes are charged.
    Charged,
    /// There is no room, and the policy is not to wait for any.
    Skipped,
    /// There is no room yet.
    Wait,
    Refused(EngineError),
}

impl Budget {
    pub open spec fn wf(self) -> bool {
        self.pending_items <= self.max_items && self.pending_bytes <= self.max_bytes
    }

    pub fn new(max_items: usize, max_bytes: usize) -> (budget: Self)
        ensures
            budget.wf(),
            budget == (Budget {
                pending_items: 0,
                pending_bytes: 0,
                stopped: false,
                max_items,
                max_bytes,
            }),
    {
        Budget { pending_items: 0, pending_bytes: 0, stopped: false, max_items, max_bytes }
    }

    /// There is room for one more item of that size.
    pub open spec fn has_room(self, bytes: usize) -> bool {
        &&& !self.stopped
        &&& self.pending_items < self.max_items
        &&& self.pending_bytes + bytes <= self.max_bytes
    }

    /// The budget with one more item charged.
    pub open spec fn charged(self, bytes: usize) -> Budget {
        Budget {
            pending_items: (self.pending_items + 1) as usize,
            pending_bytes: (self.pending_bytes + bytes) as usize,
            ..self
        }
    }

    /// Charges an item if there is room.
    pub fn try_reserve(&mut self, bytes: usize) -> (charged: bool)
        requires
            old(self).wf(),
        ensures
            final(self).wf(),
            charged == old(self).has_room(bytes),
            *final(self) == (if charged {
                old(self).charged(bytes)
            } else {
                *old(self)
            }),
    {
        if self.stopped || self.pending_items >= self.max_items {
            return false;
        }
        match self.pending_bytes.checked_add(bytes) {
            Some(next) => if next <= self.max_bytes {
                self.pending_items = self.pending_items + 1;
                self.pending_bytes = next;
                true
            } else {
                false
            },
            None => false,
        }
    }

    /// Asks for room under a policy: charges it, waits for it, does without it,
    /// or learns that no more will come.
    pub fn reserve(&mut self, bytes: usize, policy: DurableSinkLagPolicy) -> (step: BudgetStep)
        requires
            old(self).wf(),
        ensures
            final(self).wf(),
            *final(self) == (if old(self).has_room(bytes) {
                old(self).charged(bytes)
            } else {
                *old(self)
            }),
            if old(self).has_room(bytes) {
                step is Charged
            } else if policy == DurableSinkLagPolicy::Availability {
                step is Skipped
            } else if old(self).stopped {
                step matches BudgetStep::Refused(error) && error@ == Fault::DurableSinkUnavailable(
                    "delivery worker stopped"@,
                )
            } else {
                step is Wait
            },
    {
        if self.try_reserve(bytes) {
            return BudgetStep::Charged;
        }
        if policy == DurableSinkLagPolicy::Availability {
            return BudgetStep::Skipped;
        }
        if self.stopped {
            return BudgetStep::Refused(
                EngineError::DurableSinkUnavailable("delivery worker stopped".to_string()),
            );
        }
        BudgetStep::Wait
    }

    /// Takes the charge of an item back.
    pub fn release(&mut self, bytes: usize)
        requires
            old(self).wf(),
            old(self).pending_items > 0,
            bytes <= old(self).pending_bytes,
        ensures
            final(self).wf(),
            *final(self) == (Budget {
                pending_items: (old(self).pending_items - 1) as usize,
                pending_bytes: (old(self).pending_bytes - bytes) as usize,
                ..*old(self)
            }),
    {
        self.pending_items = self.pending_items - 1;
        self.pending_bytes = self.pending_bytes - bytes;
    }

    /// Nothing more is charged from now on.
    pub fn stop(&mut self)
        requires
            old(self).wf(),
        ensures
            final(self).wf(),
            *final(self) == (Budget { stopped: true, ..*old(self) }),
    {
        self.stopped = true;
    }

    pub fn snapshot(&self) -> (pending: (u64, u64))
        ensures
            pending == (self.pending_items as u64, self.pending_bytes as u64),
    {
        (self.pending_items as u64, self.pending_bytes as u64)
    }

    /// Releasing what was charged restores the budget.
    pub proof fn charge_then_release_restores(self, bytes: usize)
        requires
            self.wf(),
            self.has_room(bytes),
        ensures
            ({
                let charged = self.charged(bytes);
                charged.wf() && (Budget {
                    pending_items: (charged.pending_items - 1) as usize,
                    pending_bytes: (charged.pending_bytes - bytes) as usize,
                    ..charged
                }) == self
            }),
    {
    }
}

/// The partition's number folded for choosing a worker.
pub open spec fn delivery_hash(topic_partition: TopicPartition) -> u64 {
    let topic = topic_partition.topic_id.0;
    let partition = topic_partition.partition_id.0 as u64;
    (topic as u64) ^ ((topic >> 64) as u64) ^ partition.wrapping_mul(0x9e37_79b9_7f4a_7c15)
}

/// The worker that delivers a partition.
pub fn delivery_worker(topic_partition: TopicPartition, worker_count: usize) -> (index: usize)
    requires
        worker_count > 0,
    ensures
        index == delivery_hash(topic_partition) as usize % worker_count,
        index < worker_count,
{
    let topic: u128 = topic_partition.topic_id.0;
    let low: u64 = topic as u64;
    let high: u64 = (topic >> 64) as u64;
    let partition: u64 = topic_partition.partition_id.0 as u64;
    let hash: u64 = low ^ high ^ partition.wrapping_mul(0x9e37_79b9_7f4a_7c15);
    hash as usize % worker_count
}

/// How an append is delivered: chunks of a group are staged where only
/// committed groups may become visible.
pub fn delivery_of(
    visibility: DurableSinkAtomicVisibility,
    atomic_group: &Option<AtomicGroupIdentity>,
    requested: DurableAppendDelivery,
) -> (delivery: DurableAppendDelivery)
    ensures
        delivery == (if visibility == DurableSinkAtomicVisibility::CommittedOnly && atomic_group
            is Some {
            DurableAppendDelivery::Stage
        } else {
            requested
        }),
{
    if visibility == DurableSinkAtomicVisibility::CommittedOnly && atomic_group.is_some() {
        DurableAppendDelivery::Stage
    } else {
        requested
    }
}

/// Appends of one partition on their way to the sink.
#[derive(Debug)]
pub struct PartitionDelivery {
    pub checkpoint: DurableSinkCheckpoint,
    /// Appends by placement sequence.
    pub pending: HashMap<u128, DurableAppend>,
}

/// What becomes of an append that is to be delivered.
#[derive(Debug, Clone, Copy, PartialEq, Eq, Structural)]
pub enum Queued {
    /// It waits for its turn.
    Waiting,
    /// It was delivered before.
    Delivered,
    /// It waits already.
    Repeated,
    /// Another event waits in its place.
    Conflict,
}

/// What a partition can deliver next.
#[derive(Debug)]
pub enum Ready {
    /// Nothing is due.
    Idle,
    /// The append that is due cannot be delivered now.
    Blocked,
    /// This append is to be applied, taking the checkpoint from `expected` to `next`.
    Apply { append: DurableAppend, expected: DurableSinkCheckpoint, next: DurableSinkCheckpoint },
}

/// What came of applying an append.
#[derive(Debug, Clone, Copy, PartialEq, Eq, Structural)]
pub enum Settled {
    Applied,
    /// Another owner was ahead, and its checkpoint was taken over.
    TookOver,
    /// It has to be tried again.
    Retry,
}

/// Another owner's checkpoint is ahead of an append that was being applied.
pub open spec fn conflict_is_ahead(
    current: DurableSinkCheckpoint,
    next: DurableSinkCheckpoint,
    actual: DurableSinkCheckpoint,
) -> bool {
    &&& actual.topic_partition == current.topic_partition
    &&& actual.spec_reaches(current)
    &&& actual.spec_reaches(next)
}

fn has_shard(shards: &Vec<ShardId>, shard: ShardId) -> (has: bool)
    ensures
        has == shards@.contains(shard),
{
    let mut index: usize = 0;
    while index < shards.len()
        invariant
            index <= shards@.len(),
            forall|i: int| 0 <= i < index ==> shards@[i] != shard,
        decreases shards@.len() - index,
    {
        if shards[index] == shard {
            return true;
        }
        index += 1;
    }
    false
}

/// A partition's delivery was opened at the checkpoint that was loaded, or at
/// the initial one where none was, with nothing waiting; one of another
/// partition was refused.
pub open spec fn opened(
    topic_partition: TopicPartition,
    loaded: Option<DurableSinkCheckpoint>,
    result: EngineResult<PartitionDelivery>,
) -> bool {
    let checkpoint = match loaded {
        Some(checkpoint) => checkpoint,
        None => DurableSinkCheckpoint {
            topic_partition,
            next_placement_sequence: PlacementSequence(0),
            next_offset: LogicalOffset(0),
        },
    };
    match result {
        Ok(delivery) => {
            &&& checkpoint.topic_partition == topic_partition
            &&& delivery.wf()
            &&& delivery.checkpoint == checkpoint
            &&& delivery.pending@ == Map::<u128, DurableAppend>::empty()
        },
        Err(error) => {
            &&& checkpoint.topic_partition != topic_partition
            &&& error@ == misplaced(topic_partition, checkpoint)
        },
    }
}

/// A partition's delivery: how far it has come, and what waits.
#[verifier::ext_equal]
pub ghost struct DeliveryModel {
    pub checkpoint: DurableSinkCheckpoint,
    pub pending: Map<u128, DurableAppend>,
}

impl View for PartitionDelivery {
    type V = DeliveryModel;

    open spec fn view(&self) -> DeliveryModel {
        DeliveryModel { checkpoint: self.checkpoint, pending: self.pending@ }
    }
}

impl PartitionDelivery {
    /// Appends wait under their own sequence numbers, none of them behind the checkpoint.
    pub open spec fn wf(self) -> bool {
        forall|sequence: u128| #[trigger]
            self.pending@.contains_key(sequence) ==> {
                &&& self.pending@[sequence].reservation.placement.sequence.0 == sequence
                &&& sequence >= self.checkpoint.next_placement_sequence.0
            }
    }

    /// A partition that goes on from a checkpoint: the one that was loaded, or
    /// the initial one, which must belong to the partition.
    pub fn open(topic_partition: TopicPartition, loaded: Option<DurableSinkCheckpoint>) -> (result:
        EngineResult<Self>)
        ensures
            opened(topic_partition, loaded, result),
    {
        let checkpoint = match loaded {
            Some(checkpoint) => checkpoint,
            None => DurableSinkCheckpoint::initial(topic_partition),
        };
        match validate_checkpoint(topic_partition, &checkpoint) {
            Err(error) => Err(error),
            Ok(()) => Ok(PartitionDelivery { checkpoint, pending: HashMap::new() }),
        }
    }

    /// Queues an append for delivery.
    pub fn enqueue(&mut self, append: DurableAppend) -> (queued: Queued)
        requires
            old(self).wf(),
        ensures
            final(self).wf(),
            final(self).checkpoint == old(self).checkpoint,
            ({
                let sequence = append.reservation.placement.sequence.0 as u128;
                let held = old(self).pending@.contains_key(sequence);
                &&& queued == (if sequence < old(self).checkpoint.next_placement_sequence.0 {
                    Queued::Delivered
                } else if !held {
                    Queued::Waiting
                } else if old(self).pending@[sequence].event_id == append.event_id {
                    Queued::Repeated
                } else {
                    Queued::Conflict
                })
                &&& final(self).pending@ == (if queued == Queued::Waiting {
                    old(self).pending@.insert(sequence, append)
                } else {
                    old(self).pending@
                })
            }),
    {
        let sequence: u128 = append.reservation.placement.sequence.0 as u128;
        if sequence < self.checkpoint.next_placement_sequence.0 as u128 {
            return Queued::Delivered;
        }
        let same: Option<bool> = match self.pending.get(&sequence) {
            None => None,
            Some(held) => Some(held.event_id == append.event_id),
        };
        match same {
            None => {
                self.pending.insert(sequence, append);
                Queued::Waiting
            },
            Some(true) => Queued::Repeated,
            Some(false) => Queued::Conflict,
        }
    }

    /// Takes out the append that is due, if it can be applied by one of the
    /// shards that have a sink.
    pub fn next_ready(&mut self, shards: &Vec<ShardId>) -> (ready: Ready)
        requires
            old(self).wf(),
        ensures
            final(self).wf(),
            final(self).checkpoint == old(self).checkpoint,
            ({
                let due = old(self).checkpoint.next_placement_sequence.0 as u128;
                let held = old(self).pending@.contains_key(due);
                let append = old(self).pending@[due];
                let next = old(self).checkpoint.followed_by(append.reservation);
                match ready {
                    Ready::Idle => !held && final(self).pending@ == old(self).pending@,
                    Ready::Blocked => {
                        &&& held
                        &&& next is Err || !shards@.contains(append.physical_shard_id)
                        &&& final(self).pending@ == old(self).pending@
                    },
                    Ready::Apply { append: a, expected, next: n } => {
                        &&& held
                        &&& a == append
                        &&& expected == old(self).checkpoint
                        &&& next == Ok::<DurableSinkCheckpoint, Fault>(n)
                        &&& shards@.contains(append.physical_shard_id)
                        &&& final(self).pending@ == old(self).pending@.remove(due)
                    },
                }
            }),
    {
        let due: u128 = self.checkpoint.next_placement_sequence.0 as u128;
        match self.pending.remove(&due) {
            None => {
                proof {
                    assert(self.pending@ =~= old(self).pending@);
                }
                Ready::Idle
            },
            Some(append) => {
                let next = match self.checkpoint.after(append.reservation) {
                    Err(_) => {
                        self.pending.insert(due, append);
                        proof {
                            assert(self.pending@ =~= old(self).pending@);
                        }
                        return Ready::Blocked;
                    },
                    Ok(next) => next,
                };
                if !has_shard(shards, append.physical_shard_id) {
                    self.pending.insert(due, append);
                    proof {
                        assert(self.pending@ =~= old(self).pending@);
                    }
                    return Ready::Blocked;
                }
                Ready::Apply { append, expected: self.checkpoint, next }
            },
        }
    }

    /// Takes the sink's answer on an append that `next_ready` gave out.
    ///
    /// `outcome` is `None` when the sink failed. A conflict is accepted only
    /// from an owner that is past the append; otherwise the append waits again.
    pub fn settle(
        &mut self,
        append: DurableAppend,
        next: DurableSinkCheckpoint,
        outcome: Option<DurableSinkApply>,
    ) -> (settled: Settled)
        requires
            old(self).wf(),
            append.reservation.placement.sequence == old(self).checkpoint.next_placement_sequence,
            !old(self).pending@.contains_key(append.reservation.placement.sequence.0 as u128),
            old(self).checkpoint.followed_by(append.reservation) == Ok::<
                DurableSinkCheckpoint,
                Fault,
            >(next),
        ensures
            final(self).wf(),
            match outcome {
                Some(DurableSinkApply::Applied) => {
                    &&& settled == Settled::Applied
                    &&& final(self).checkpoint == next
                    &&& final(self).pending@ == old(self).pending@
                },
                Some(DurableSinkApply::CheckpointConflict(actual)) if conflict_is_ahead(
                    old(self).checkpoint,
                    next,
                    actual,
                ) => {
                    &&& settled == Settled::TookOver
                    &&& final(self).checkpoint == actual
                    &&& forall|sequence: u128| #[trigger]
                        final(self).pending@.contains_key(sequence) <==> old(
                            self,
                        ).pending@.contains_key(sequence) && sequence
                            >= actual.next_placement_sequence.0
                    &&& forall|sequence: u128| #[trigger]
                        final(self).pending@.contains_key(sequence) ==> final(self).pending@[sequence] == old(self).pending@[sequence]
                },
                _ => {
                    &&& settled == Settled::Retry
                    &&& final(self).checkpoint == old(self).checkpoint
                    &&& final(self).pending@ == old(self).pending@.insert(
                        append.reservation.placement.sequence.0 as u128,
                        append,
                    )
                },
            },
    {
        match outcome {
            Some(DurableSinkApply::Applied) => {
                self.checkpoint = next;
                proof {
                    assert forall|sequence: u128| #[trigger]
                        self.pending@.contains_key(sequence) implies sequence
                        >= self.checkpoint.next_placement_sequence.0 by {}
                }
                Settled::Applied
            },
            Some(DurableSinkApply::CheckpointConflict(actual)) => {
                if actual.topic_partition != self.checkpoint.topic_partition || !actual.reaches(
                    &self.checkpoint,
                ) || !actual.reaches(&next) {
                    self.pending.insert(append.reservation.placement.sequence.0 as u128, append);
                    return Settled::Retry;
                }
                drop_delivered(&mut self.pending, actual.next_placement_sequence.0 as u128);
                self.checkpoint = actual;
                Settled::TookOver
            },
            None => {
                self.pending.insert(append.reservation.placement.sequence.0 as u128, append);
                Settled::Retry
            },
        }
    }
}

/// Sink instance associated with one physical shard.
///
/// Every instance produced by one factory must share the same transactional
/// checkpoint namespace. `apply` must compare `expected`, atomically persist
/// all append effects and `next`, and be idempotent by `DurableAppend::event_id`.
/// It must not unwind: a callback that panics is to be caught and answered with an
/// error, which counts as a failed attempt.
pub trait DurableAppendSink {
    fn apply(
        &self,
        expected: DurableSinkCheckpoint,
        appends: &[DurableAppend],
        next: DurableSinkCheckpoint,
    ) -> EngineResult<DurableSinkApply>;
}

/// Constructs shard-local sink handles backed by one cluster-shared sink.
///
/// No method may unwind: a callback that panics is to be caught and answered with
/// an error.
pub trait DurableAppendSinkFactory {
    type Sink: DurableAppendSink;

    /// Runs before leader reservation so malformed data cannot consume offsets.
    fn validate_append(&self, payload: &[u8], record_count: u32) -> EngineResult<()>;

    /// Loads the last atomically committed checkpoint for a partition.
    fn load_checkpoint(&self, topic_partition: TopicPartition) -> EngineResult<
        Option<DurableSinkCheckpoint>,
    >;

    /// Opens a handle used to apply events physically owned by `shard_id`.
    fn open_shard(&self, shard_id: ShardId) -> EngineResult<Self::Sink>;

    /// Declares support for durable staging and idempotent commit/abort decisions.
    fn supports_committed_only(&self) -> bool {
        false
    }

    /// Returns unresolved groups durably staged by committed-only mode.
    fn pending_atomic_groups(&self) -> EngineResult<Vec<DurableAtomicGroup>> {
        Ok(Vec::new())
    }

    /// Atomically publishes or discards a previously staged group.
    fn finalize_atomic_group(&self, decision: DurableAtomicDecision) -> EngineResult<()> {
        Ok(())
    }
}

/// Opens the delivery of a partition at the checkpoint that its sink holds: asks
/// the factory for it, gives its failure back, and refuses another partition's.
pub fn open_delivery<F: DurableAppendSinkFactory>(factory: &F, topic_partition: TopicPartition) -> (
result: EngineResult<PartitionDelivery>)
    ensures
        exists|loaded: EngineResult<Option<DurableSinkCheckpoint>>| #[trigger]
            call_ensures(F::load_checkpoint, (factory, topic_partition), loaded) && match loaded {
                Ok(stored) => opened(topic_partition, stored, result),
                Err(error) => result == Err::<PartitionDelivery, EngineError>(error),
            },
{
    match factory.load_checkpoint(topic_partition) {
        Err(error) => Err(error),
        Ok(loaded) => PartitionDelivery::open(topic_partition, loaded),
    }
}

/// What came of delivering everything that was due.
#[derive(Debug, Clone, Copy, PartialEq, Eq, Structural)]
pub struct DeliveryRound {
    pub applied: usize,
    pub conflicts: usize,
    /// An append could not be delivered and waits again.
    pub failed: bool,
}

fn sink_shards<S>(sinks: &Vec<(ShardId, S)>) -> (shards: Vec<ShardId>)
    ensures
        shards@.len() == sinks@.len(),
        forall|i: int| 0 <= i < shards@.len() ==> #[trigger] shards@[i] == sinks@[i].0,
{
    let mut shards: Vec<ShardId> = Vec::new();
    let mut index: usize = 0;
    while index < sinks.len()
        invariant
            index <= sinks@.len(),
            shards@.len() == index,
            forall|i: int| 0 <= i < index ==> #[trigger] shards@[i] == sinks@[i].0,
        decreases sinks@.len() - index,
    {
        shards.push(sinks[index].0);
        index += 1;
    }
    shards
}

fn find_sink<S>(sinks: &Vec<(ShardId, S)>, shard: ShardId) -> (index: Option<usize>)
    ensures
        match index {
            Some(i) => i < sinks@.len() && sinks@[i as int].0 == shard,
            None => forall|i: int| 0 <= i < sinks@.len() ==> (#[trigger] sinks@[i]).0 != shard,
        },
{
    let mut index: usize = 0;
    while index < sinks.len()
        invariant
            index <= sinks@.len(),
            forall|i: int| 0 <= i < index ==> (#[trigger] sinks@[i]).0 != shard,
        decreases sinks@.len() - index,
    {
        if sinks[index].0 == shard {
            return Some(index);
        }
        index += 1;
    }
    None
}

impl DeliveryModel {
    /// The sequence of the append that is due.
    pub open spec fn due(self) -> u128 {
        self.checkpoint.next_placement_sequence.0 as u128
    }

    /// Sink `index`, which is the one of the due append's shard, was offered just
    /// that append, on the way from the checkpoint to the next one, and answered.
    pub open spec fn offered<S: DurableAppendSink>(
        self,
        sinks: Seq<(ShardId, S)>,
        index: int,
        answer: EngineResult<DurableSinkApply>,
    ) -> bool {
        &&& self.pending.contains_key(self.due())
        &&& 0 <= index < sinks.len()
        &&& sinks[index].0 == self.pending[self.due()].physical_shard_id
        &&& self.checkpoint.followed_by(self.pending[self.due()].reservation) is Ok
        &&& exists|appends: &[DurableAppend]| #[trigger]
            call_ensures(
                S::apply,
                (
                    &sinks[index].1,
                    self.checkpoint,
                    appends,
                    self.checkpoint.followed_by(self.pending[self.due()].reservation)->Ok_0,
                ),
                answer,
            ) && appends@ == seq![self.pending[self.due()]]
    }

    /// The delivery after the sink applied the due append.
    pub open spec fn applied_next(self) -> DeliveryModel {
        DeliveryModel {
            checkpoint: self.checkpoint.followed_by(self.pending[self.due()].reservation)->Ok_0,
            pending: self.pending.remove(self.due()),
        }
    }

    /// The delivery after the checkpoint of an owner that is ahead was taken over.
    pub open spec fn taken_over(self, actual: DurableSinkCheckpoint) -> DeliveryModel {
        DeliveryModel {
            checkpoint: actual,
            pending: self.pending.restrict(
                Set::new(|sequence: u128| sequence >= actual.next_placement_sequence.0),
            ),
        }
    }

    /// A sink's answer moved the checkpoint on: past the append that it applied,
    /// or to its own checkpoint, which is ahead.
    pub open spec fn moves<S: DurableAppendSink>(
        self,
        sinks: Seq<(ShardId, S)>,
        to: DeliveryModel,
        conflict: bool,
    ) -> bool {
        exists|index: int, answer: DurableSinkApply| #[trigger]
            self.offered(sinks, index, Ok(answer)) && match answer {
                DurableSinkApply::Applied => !conflict && to == self.applied_next(),
                DurableSinkApply::CheckpointConflict(actual) => conflict && conflict_is_ahead(
                    self.checkpoint,
                    self.applied_next().checkpoint,
                    actual,
                ) && to == self.taken_over(actual),
            }
    }

    /// So many appends that sinks applied, and so many checkpoints that were taken
    /// over, lead from one delivery to another.
    pub open spec fn leads_to<S: DurableAppendSink>(
        self,
        sinks: Seq<(ShardId, S)>,
        to: DeliveryModel,
        applied: nat,
        conflicts: nat,
    ) -> bool
        decreases applied + conflicts,
    {
        if applied + conflicts == 0 {
            self == to
        } else {
            ||| applied > 0 && exists|before: DeliveryModel|
                self.leads_to(sinks, before, (applied - 1) as nat, conflicts)
                    && #[trigger] before.moves(sinks, to, false)
            ||| conflicts > 0 && exists|before: DeliveryModel|
                self.leads_to(sinks, before, applied, (conflicts - 1) as nat)
                    && #[trigger] before.moves(sinks, to, true)
        }
    }

    /// The due append cannot go on: it does not follow the checkpoint, its shard
    /// has no sink, or the sink failed or answered with a checkpoint that is not
    /// ahead.
    pub open spec fn stuck<S: DurableAppendSink>(self, sinks: Seq<(ShardId, S)>) -> bool {
        let append = self.pending[self.due()];
        &&& self.pending.contains_key(self.due())
        &&& {
            ||| self.checkpoint.followed_by(append.reservation) is Err
            ||| forall|i: int|
                0 <= i < sinks.len() ==> (#[trigger] sinks[i]).0 != append.physical_shard_id
            ||| exists|index: int, answer: EngineResult<DurableSinkApply>| #[trigger]
                self.offered(sinks, index, answer) && match answer {
                    Err(_) => true,
                    Ok(DurableSinkApply::Applied) => false,
                    Ok(DurableSinkApply::CheckpointConflict(actual)) => !conflict_is_ahead(
                        self.checkpoint,
                        self.applied_next().checkpoint,
                        actual,
                    ),
                }
        }
    }
}

impl PartitionDelivery {
    /// Nothing was lost, added or changed, but for what lies behind the new
    /// checkpoint, and the checkpoint did not go back.
    pub open spec fn delivers_on(self, before: PartitionDelivery) -> bool {
        &&& self.checkpoint.topic_partition == before.checkpoint.topic_partition
        &&& self.checkpoint.next_placement_sequence.0
            >= before.checkpoint.next_placement_sequence.0
        &&& forall|sequence: u128| #[trigger]
            self.pending@.contains_key(sequence) <==> before.pending@.contains_key(sequence)
                && sequence >= self.checkpoint.next_placement_sequence.0
        &&& forall|sequence: u128| #[trigger]
            self.pending@.contains_key(sequence) ==> self.pending@[sequence]
                == before.pending@[sequence]
    }

    /// Delivers what is due, in order, until nothing is or a delivery fails.
    ///
    /// Whatever the sinks answer, no append is lost: each waits until the
    /// checkpoint is past it.
    pub fn process_ready<S: DurableAppendSink>(&mut self, sinks: &Vec<(ShardId, S)>) -> (round:
        DeliveryRound)
        requires
            old(self).wf(),
        ensures
            final(self).wf(),
            final(self).delivers_on(*old(self)),
            old(self)@.leads_to(
                sinks@,
                final(self)@,
                round.applied as nat,
                round.conflicts as nat,
            ),
            round.failed == final(self)@.pending.contains_key(final(self)@.due()),
            round.failed ==> final(self)@.stuck(sinks@),
            round.applied + round.conflicts <= old(self).pending@.len(),
            round.applied + round.conflicts == 0 ==> final(self).pending@ == old(self).pending@,
    {
        let shards = sink_shards(sinks);
        let ghost before = *self;
        let total: usize = self.pending.len();
        let mut round = DeliveryRound { applied: 0, conflicts: 0, failed: false };
        loop
            invariant
                self.wf(),
                self.delivers_on(before),
                before == *old(self),
                before@.leads_to(
                    sinks@,
                    self@,
                    round.applied as nat,
                    round.conflicts as nat,
                ),
                total == before.pending@.len(),
                self.pending@.len() + round.applied + round.conflicts <= total,
                !round.failed,
                round.applied + round.conflicts == 0 ==> self.pending@ == before.pending@,
                shards@.len() == sinks@.len(),
                forall|i: int| 0 <= i < shards@.len() ==> #[trigger] shards@[i] == sinks@[i].0,
            decreases self.pending@.len(),
        {
            let ghost held = *self;
            match self.next_ready(&shards) {
                Ready::Idle => {
                    proof {
                        assert(self.pending@ == held.pending@);
                    }
                    return round;
                },
                Ready::Blocked => {
                    round.failed = true;
                    proof {
                        let append = held@.pending[held@.due()];
                        if !shards@.contains(append.physical_shard_id) {
                            assert forall|i: int| 0 <= i < sinks@.len() implies (
                            #[trigger] sinks@[i]).0 != append.physical_shard_id by {
                                assert(shards@[i] == sinks@[i].0);
                            }
                        }
                        assert(self@ == held@);
                    }
                    return round;
                },
                Ready::Apply { append, expected, next } => {
                    let ghost due = held.checkpoint.next_placement_sequence.0 as u128;
                    let found = find_sink(sinks, append.physical_shard_id);
                    let mut appends: Vec<DurableAppend> = Vec::new();
                    appends.push(append);
                    let ghost mut answered: Option<EngineResult<DurableSinkApply>> = None;
                    let outcome: Option<DurableSinkApply> = match found {
                        None => None,
                        Some(index) => {
                            let offered = appends.as_slice();
                            let answer = sinks[index].1.apply(expected, offered, next);
                            proof {
                                answered = Some(answer);
                                assert(offered@ =~= seq![held@.pending[held@.due()]]);
                                assert(held@.offered(sinks@, index as int, answer));
                            }
                            match answer {
                                Ok(applied) => Some(applied),
                                Err(_) => None,
                            }
                        },
                    };
                    let append = appends.remove(0);
                    let ghost taken = *self;
                    match self.settle(append, next, outcome) {
                        Settled::Applied => {
                            round.applied += 1;
                            proof {
                                assert(next.next_placement_sequence.0
                                    == held.checkpoint.next_placement_sequence.0 + 1);
                                assert(self.pending@ == held.pending@.remove(due));
                                assert(self@ =~= held@.applied_next());
                                assert(held@.offered(
                                    sinks@,
                                    found->0 as int,
                                    Ok(DurableSinkApply::Applied),
                                ));
                                assert(held@.moves(sinks@, self@, false));
                            }
                        },
                        Settled::TookOver => {
                            round.conflicts += 1;
                            proof {
                                assert(self.pending@.dom().subset_of(taken.pending@.dom()));
                                vstd::set_lib::lemma_len_subset(
                                    self.pending@.dom(),
                                    taken.pending@.dom(),
                                );
                                let actual = self.checkpoint;
                                let answer = DurableSinkApply::CheckpointConflict(actual);
                                assert(outcome == Some(answer));
                                assert(self@ =~= held@.taken_over(actual));
                                assert(held@.offered(sinks@, found->0 as int, Ok(answer)));
                                assert(held@.moves(sinks@, self@, true));
                            }
                        },
                        Settled::Retry => {
                            round.failed = true;
                            proof {
                                assert(self.pending@ =~= held.pending@);
                                assert(self@ =~= held@);
                                if found is Some {
                                    assert(held@.offered(
                                        sinks@,
                                        found->0 as int,
                                        answered->0,
                                    ));
                                }
                            }
                            return round;
                        },
                    }
                },
            }
        }
    }
}

/// The factory took a decision, or did not.
pub open spec fn answered_so<F: DurableAppendSinkFactory>(
    factory: &F,
    decision: DurableAtomicDecision,
    taken: bool,
) -> bool {
    exists|answer: EngineResult<()>| #[trigger]
        call_ensures(F::finalize_atomic_group, (factory, decision), answer) && taken == (answer
            is Ok)
}

/// Hands every decision to the sink once and keeps those that it did not take.
pub fn process_decisions<F: DurableAppendSinkFactory>(
    factory: &F,
    decisions: &VecDeque<DurableAtomicDecision>,
) -> (round: DecisionRound)
    ensures
        exists|accepted: Seq<bool>|
            {
                &&& accepted.len() == decisions@.len()
                &&& forall|i: int|
                    0 <= i < accepted.len() ==> answered_so(
                        factory,
                        decisions@[i],
                        #[trigger] accepted[i],
                    )
                &&& round.remaining@ == #[trigger] failed_decisions(decisions@, accepted)
                &&& round.finalized@ == accepted_groups(decisions@, accepted)
            },
        round.failed == (round.remaining@.len() > 0),
{
    let mut accepted: Vec<bool> = Vec::new();
    let mut index: usize = 0;
    while index < decisions.len()
        invariant
            index <= decisions@.len(),
            accepted@.len() == index,
            forall|i: int|
                0 <= i < index ==> answered_so(factory, decisions@[i], #[trigger] accepted@[i]),
        decreases decisions@.len() - index,
    {
        let taken = factory.finalize_atomic_group(decisions[index]).is_ok();
        accepted.push(taken);
        index += 1;
    }
    settle_decisions(decisions, &accepted)
}

/// Drops the appends before a sequence number.
fn drop_delivered(pending: &mut HashMap<u128, DurableAppend>, first_kept: u128)
    ensures
        forall|sequence: u128| #[trigger]
            final(pending)@.contains_key(sequence) <==> old(pending)@.contains_key(sequence)
                && sequence >= first_kept,
        forall|sequence: u128| #[trigger]
            final(pending)@.contains_key(sequence) ==> final(pending)@[sequence] == old(
                pending,
            )@[sequence],
{
    let keys = map_keys(pending);
    let ghost before = pending@;
    let mut index: usize = 0;
    while index < keys.len()
        invariant
            index <= keys@.len(),
            keys@.no_duplicates(),
            forall|key: u128| #[trigger] keys@.contains(key) <==> before.contains_key(key),
            forall|sequence: u128| #[trigger]
                pending@.contains_key(sequence) <==> before.contains_key(sequence) && !(sequence
                    < first_kept && keys@.take(index as int).contains(sequence)),
            forall|sequence: u128| #[trigger]
                pending@.contains_key(sequence) ==> pending@[sequence] == before[sequence],
        decreases keys@.len() - index,
    {
        let key: u128 = keys[index];
        let ghost earlier = keys@.take(index as int);
        let ghost held = pending@;
        proof {
            assert(keys@.take(index + 1) =~= earlier.push(key));
            assert forall|x: u128| #[trigger] keys@.take(index + 1).contains(x)
                <==> earlier.contains(x) || x == key by {
                if earlier.contains(x) {
                    let i = choose|i: int| 0 <= i < earlier.len() && earlier[i] == x;
                    assert(keys@.take(index + 1)[i] == x);
                }
                assert(keys@.take(index + 1)[index as int] == key);
            }
        }
        if key < first_kept {
            pending.remove(&key);
        }
        proof {
            assert forall|sequence: u128| #[trigger] pending@.contains_key(sequence)
                <==> before.contains_key(sequence) && !(sequence < first_kept && keys@.take(
                index + 1,
            ).contains(sequence)) by {
                assert(held.contains_key(sequence) <==> before.contains_key(sequence) && !(sequence
                    < first_kept && earlier.contains(sequence)));
            }
        }
        index += 1;
    }
    proof {
        assert(keys@.take(index as int) =~= keys@);
    }
}

/// Decisions on groups after each was tried once: those that failed stay, in
/// their order, and the groups of the others are finalized.
#[derive(Debug)]
pub struct DecisionRound {
    pub remaining: VecDeque<DurableAtomicDecision>,
    pub finalized: Vec<DurableAtomicGroup>,
    pub failed: bool,
}

/// The decisions that failed, in order.
pub open spec fn failed_decisions(
    decisions: Seq<DurableAtomicDecision>,
    accepted: Seq<bool>,
) -> Seq<DurableAtomicDecision>
    decreases decisions.len(),
{
    if decisions.len() == 0 || accepted.len() != decisions.len() {
        Seq::empty()
    } else {
        let earlier = failed_decisions(decisions.drop_last(), accepted.drop_last());
        if accepted.last() {
            earlier
        } else {
            earlier.push(decisions.last())
        }
    }
}

/// The groups whose decisions were taken, in order.
pub open spec fn accepted_groups(decisions: Seq<DurableAtomicDecision>, accepted: Seq<bool>) -> Seq<
    DurableAtomicGroup,
>
    decreases decisions.len(),
{
    if decisions.len() == 0 || accepted.len() != decisions.len() {
        Seq::empty()
    } else {
        let earlier = accepted_groups(decisions.drop_last(), accepted.drop_last());
        if accepted.last() {
            earlier.push(decisions.last().group)
        } else {
            earlier
        }
    }
}

/// Sorts out decisions by whether the sink took them.
pub fn settle_decisions(decisions: &VecDeque<DurableAtomicDecision>, accepted: &Vec<bool>) -> (round:
    DecisionRound)
    requires
        accepted@.len() == decisions@.len(),
    ensures
        round.remaining@ == failed_decisions(decisions@, accepted@),
        round.finalized@ == accepted_groups(decisions@, accepted@),
        round.failed == (round.remaining@.len() > 0),
{
    let mut remaining: VecDeque<DurableAtomicDecision> = VecDeque::new();
    let mut finalized: Vec<DurableAtomicGroup> = Vec::new();
    let mut index: usize = 0;
    while index < decisions.len()
        invariant
            index <= decisions@.len(),
            accepted@.len() == decisions@.len(),
            remaining@ == failed_decisions(
                decisions@.take(index as int),
                accepted@.take(index as int),
            ),
            finalized@ == accepted_groups(
                decisions@.take(index as int),
                accepted@.take(index as int),
            ),
        decreases decisions@.len() - index,
    {
        proof {
            assert(decisions@.take(index + 1).drop_last() =~= decisions@.take(index as int));
            assert(accepted@.take(index + 1).drop_last() =~= accepted@.take(index as int));
        }
        let decision = decisions[index];
        if accepted[index] {
            finalized.push(decision.group);
        } else {
            remaining.push_back(decision);
        }
        index += 1;
    }
    proof {
        assert(decisions@.take(index as int) =~= decisions@);
        assert(accepted@.take(index as int) =~= accepted@);
    }
    let failed = remaining.len() > 0;
    DecisionRound { remaining, finalized, failed }
}

/// How long failed deliveries wait.
#[derive(Debug, Clone, Copy, PartialEq, Eq, Structural)]
pub struct RetryDelay {
    pub nanos: u64,
}

impl RetryDelay {
    pub open spec fn wf(self) -> bool {
        RETRY_MIN_NANOS <= self.nanos <= RETRY_MAX_NANOS
    }

    pub fn new() -> (delay: Self)
        ensures
            delay.wf(),
            delay.nanos == RETRY_MIN_NANOS,
    {
        RetryDelay { nanos: RETRY_MIN_NANOS }
    }

    /// The wait after a round of deliveries: after a failure it doubles for the
    /// next time, up to a bound; after a success it starts over.
    pub fn after_round(&mut self, failed: bool) -> (wait: Duration)
        requires
            old(self).wf(),
        ensures
            final(self).wf(),
            wait.nanos == (if failed {
                old(self).nanos
            } else {
                RETRY_MIN_NANOS
            }),
            final(self).nanos == (if !failed {
                RETRY_MIN_NANOS as int
            } else if 2 * old(self).nanos <= RETRY_MAX_NANOS {
                2 * old(self).nanos
            } else {
                RETRY_MAX_NANOS as int
            }),
    {
        if failed {
            let wait = Duration { nanos: self.nanos as u128 };
            let doubled: u64 = self.nanos * 2;
            self.nanos = if doubled <= RETRY_MAX_NANOS {
                doubled
            } else {
                RETRY_MAX_NANOS
            };
            wait
        } else {
            self.nanos = RETRY_MIN_NANOS;
            Duration { nanos: RETRY_MIN_NANOS as u128 }
        }
    }
}

/// What someone who waits for a checkpoint or a decision does next.
#[derive(Debug, PartialEq, Eq)]
pub enum WaitStep {
    Reached,
    Wait(Duration),
    Failed(EngineError),
}

/// Decides whether to go on waiting: not once the goal is reached, the worker
/// stopped or the time is up, in this order.
pub fn wait_step(reached: bool, stopped: bool, remaining: Duration, for_decision: bool) -> (step:
    WaitStep)
    ensures
        if reached {
            step is Reached
        } else if stopped {
            step matches WaitStep::Failed(error) && error@ == Fault::DurableSinkUnavailable(
                if for_decision {
                    "delivery worker stopped before applying atomic decision"@
                } else {
                    "delivery worker stopped before reaching checkpoint"@
                },
            )
        } else if remaining.nanos == 0 {
            step matches WaitStep::Failed(error) && error@ == Fault::DurableSinkUnavailable(
                if for_decision {
                    "atomic decision exceeded the configured recovery timeout"@
                } else {
                    "sink catch-up exceeded the configured recovery timeout"@
                },
            )
        } else {
            step == WaitStep::Wait(remaining)
        },
{
    if reached {
        return WaitStep::Reached;
    }
    if stopped {
        return WaitStep::Failed(
            EngineError::DurableSinkUnavailable(
                if for_decision {
                    "delivery worker stopped before applying atomic decision".to_string()
                } else {
                    "delivery worker stopped before reaching checkpoint".to_string()
                },
            ),
        );
    }
    if remaining.is_zero() {
        return WaitStep::Failed(
            EngineError::DurableSinkUnavailable(
                if for_decision {
                    "atomic decision exceeded the configured recovery timeout".to_string()
                } else {
                    "sink catch-up exceeded the configured recovery timeout".to_string()
                },
            ),
        );
    }
    WaitStep::Wait(remaining)
}

} // verus!
