//! Values that clients, leaders and replicas exchange.
use vstd::prelude::*;

use crate::ids::{
    BatchId, LeaderEpoch, LogicalOffset, LogicalPartitionId, RecordId, ShardId, TopicId,
    TopicPartition,
};
use crate::sequencer::{Placement, Reservation};

verus! {

/// How many copies an append waits for.
#[derive(Debug, Clone, Copy, PartialEq, Eq, Hash, Structural)]
pub enum Durability {
    Leader,
    Quorum,
    AllReplicas,
    Object,
}

/// Which batches a fetch may return.
#[derive(Debug, Clone, Copy, PartialEq, Eq, Hash, Structural)]
pub enum FetchMode {
    Ordered,
    Replicated,
    AsAvailable,
}

/// The digest of a batch's payload, as an integer in little-endian byte order.
#[derive(Debug, Clone, Copy, PartialEq, Eq, Hash, Structural)]
pub struct PayloadDigest(pub u128);

/// Tag of the digest algorithm that every payload digest uses.
pub const DIGEST_XXH3_128: u8 = 1;

/// An idempotent producer's claim on one batch.
#[derive(Debug, Clone, Copy, PartialEq, Eq, Hash, Structural)]
pub struct ProducerIdentity {
    pub producer_id: u128,
    pub epoch: u32,
    pub first_sequence: u64,
    pub event_id: Option<RecordId>,
}

/// A batch's place in an atomic group.
#[derive(Debug, Clone, Copy, PartialEq, Eq, Hash, Structural)]
pub struct AtomicGroupIdentity {
    pub transaction_id: u128,
    pub chunk_sequence: u64,
}

/// A producer's claim as it is stored with the batch.
#[derive(Debug, Clone, Copy, PartialEq, Eq, Hash, Structural)]
pub struct ProducerSequence {
    pub producer_id: u128,
    pub epoch: u32,
    pub first_sequence: u64,
    pub event_id: Option<RecordId>,
    pub digest_algorithm: u8,
    pub payload_digest: PayloadDigest,
}

/// A place in an atomic group as it is stored with the batch.
#[derive(Debug, Clone, Copy, PartialEq, Eq, Hash, Structural)]
pub struct AtomicGroupSequence {
    pub transaction_id: u128,
    pub chunk_sequence: u64,
    pub payload_digest: PayloadDigest,
}

/// The receipt of an append.
///
/// `record_id` is the batch's stable identity, which its owner derives from the
/// topic, the partition and the batch number.
#[derive(Debug, Clone, Copy, PartialEq, Eq, Hash, Structural)]
pub struct AppendResponse {
    pub request_id: u128,
    pub batch_id: BatchId,
    pub record_id: RecordId,
    pub first_offset: LogicalOffset,
    pub last_offset: LogicalOffset,
    pub visible_through: LogicalOffset,
    pub placement: Placement,
}

/// What a fetch asks for.
#[derive(Debug, Clone, Copy, PartialEq, Eq, Hash, Structural)]
pub struct FetchRequest {
    pub request_id: u128,
    pub topic_id: TopicId,
    pub partition_id: LogicalPartitionId,
    pub start_offset: LogicalOffset,
    pub max_bytes: u32,
    pub mode: FetchMode,
}

/// What an append asks for.
#[derive(Debug, Clone, PartialEq, Eq)]
pub struct AppendRequest {
    pub request_id: u128,
    pub topic_id: TopicId,
    pub partition_id: LogicalPartitionId,
    pub record_count: u32,
    pub payload: Vec<u8>,
    pub durability: Durability,
    pub producer: Option<ProducerIdentity>,
    pub atomic_group: Option<AtomicGroupIdentity>,
    pub leader_epoch: Option<LeaderEpoch>,
    /// Context of an extension, which travels with the batch to its followers.
    pub extension_context: Option<Vec<u8>>,
}

/// A leader's batch on its way to a follower.
#[derive(Debug, Clone, PartialEq, Eq)]
pub struct ReplicaAppend {
    pub reservation: Reservation,
    pub producer: Option<ProducerIdentity>,
    pub atomic_group: Option<AtomicGroupIdentity>,
    /// Context of an extension, as the leader got it.
    pub extension_context: Option<Vec<u8>>,
    pub payload_digest: PayloadDigest,
    pub payload: Vec<u8>,
}

/// What a shard knows of a stored batch without reading its payload.
#[derive(Debug, Clone, Copy, PartialEq, Eq, Structural)]
pub struct StoredBatchMetadata {
    pub reservation: Reservation,
    pub payload_len: usize,
}

/// A stored batch.
#[derive(Debug, Clone, PartialEq, Eq)]
pub struct StoredBatch {
    pub reservation: Reservation,
    pub producer: Option<ProducerSequence>,
    pub atomic_group: Option<AtomicGroupSequence>,
    pub payload: Vec<u8>,
}

/// A control event, as the journal keeps it.
#[derive(Debug, Clone, PartialEq, Eq)]
pub enum JournalEvent {
    Configure {
        topic_partition: TopicPartition,
        ring_epoch: crate::ids::RingEpoch,
        shards: Vec<ShardId>,
    },
    CreatePartition {
        topic_partition: TopicPartition,
        ring_epoch: crate::ids::RingEpoch,
        shards: Vec<ShardId>,
        policy_generation: u64,
        replication_factor: u32,
        min_in_sync_replicas: u32,
    },
    UpdateReplicationPolicy {
        topic_partition: TopicPartition,
        expected_policy_generation: u64,
        policy_generation: u64,
        replication_factor: u32,
        min_in_sync_replicas: u32,
    },
    Truncate { topic_partition: TopicPartition, log_start: LogicalOffset },
    GroupCommit { topic_partition: TopicPartition, transaction_id: u128 },
    GroupAbort { topic_partition: TopicPartition, transaction_id: u128 },
}

/// What the store's catalog knows of one batch.
#[derive(Debug, Clone, Copy, PartialEq, Eq, Structural)]
pub struct ExtentCatalogEntry {
    pub reservation: Reservation,
    pub producer: Option<ProducerSequence>,
    pub atomic_group: Option<AtomicGroupSequence>,
    pub payload_bytes: u64,
    pub object_durable: bool,
    /// The batch's stable identity.
    pub record_id: RecordId,
}

} // verus!
