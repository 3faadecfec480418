//! Failures of the engine.
use vstd::prelude::*;

use crate::ids::{BatchId, LogicalOffset, LogicalPartitionId, ShardId, TopicId};
use crate::sequencer::SequencerError;
use crate::text::{append_decimal, decimal};

verus! {

pub type EngineResult<T> = Result<T, EngineError>;

/// Why the engine refused or could not finish a request.
#[derive(Debug, PartialEq, Eq)]
pub enum EngineError {
    InvalidConfig(String),
    TopicAlreadyExists(TopicId),
    UnknownPartition { topic_id: TopicId, partition_id: LogicalPartitionId },
    UnknownShard(ShardId),
    AdmissionLimited { shard_id: ShardId, reason: &'static str },
    WorkerStopped(ShardId),
    UnsupportedDurability(&'static str),
    DurabilityUnavailable { required_replicas: u32, durable_replicas: u32 },
    ObjectDurabilityUnavailable,
    StaleProducerEpoch { producer_id: u128, current: u32, received: u32 },
    ProducerSequenceOutOfOrder { producer_id: u128, expected: u64, received: u64 },
    ProducerRequiresNewEpoch(u128),
    DuplicateSequenceMismatch(u128),
    UnknownAtomicGroup(u128),
    AtomicGroupFinalized(u128),
    AtomicGroupSequenceOutOfOrder { transaction_id: u128, expected: u64, received: u64 },
    AtomicGroupChunkMismatch(u128),
    ReplicaInFlight(BatchId),
    ReplicaReorderLimited { expected: BatchId, received: BatchId, max_gap_batches: u128 },
    ReplicaBufferLimited { pending_bytes: usize, received_bytes: usize, max_pending_bytes: usize },
    OffsetOutOfRange { requested: LogicalOffset, log_start: LogicalOffset },
    RetentionPinned { requested: LogicalOffset, pinned: LogicalOffset },
    Fenced(String),
    DurableSinkCheckpoint(String),
    DurableSinkUnavailable(String),
    CorruptState(String),
    Sequencer(SequencerError),
    Storage(String),
}

/// A failure with its texts taken by their views.
pub ghost enum Fault {
    InvalidConfig(Seq<char>),
    TopicAlreadyExists(TopicId),
    UnknownPartition { topic_id: TopicId, partition_id: LogicalPartitionId },
    UnknownShard(ShardId),
    AdmissionLimited { shard_id: ShardId, reason: Seq<char> },
    WorkerStopped(ShardId),
    UnsupportedDurability(Seq<char>),
    DurabilityUnavailable { required_replicas: u32, durable_replicas: u32 },
    ObjectDurabilityUnavailable,
    StaleProducerEpoch { producer_id: u128, current: u32, received: u32 },
    ProducerSequenceOutOfOrder { producer_id: u128, expected: u64, received: u64 },
    ProducerRequiresNewEpoch(u128),
    DuplicateSequenceMismatch(u128),
    UnknownAtomicGroup(u128),
    AtomicGroupFinalized(u128),
    AtomicGroupSequenceOutOfOrder { transaction_id: u128, expected: u64, received: u64 },
    AtomicGroupChunkMismatch(u128),
    ReplicaInFlight(BatchId),
    ReplicaReorderLimited { expected: BatchId, received: BatchId, max_gap_batches: u128 },
    ReplicaBufferLimited { pending_bytes: usize, received_bytes: usize, max_pending_bytes: usize },
    OffsetOutOfRange { requested: LogicalOffset, log_start: LogicalOffset },
    RetentionPinned { requested: LogicalOffset, pinned: LogicalOffset },
    Fenced(Seq<char>),
    DurableSinkCheckpoint(Seq<char>),
    DurableSinkUnavailable(Seq<char>),
    CorruptState(Seq<char>),
    Sequencer(SequencerError),
    Storage(Seq<char>),
}

impl View for EngineError {
    type V = Fault;

    open spec fn view(&self) -> Fault {
        match *self {
            EngineError::InvalidConfig(text) => Fault::InvalidConfig(text@),
            EngineError::TopicAlreadyExists(value) => Fault::TopicAlreadyExists(value),
            EngineError::UnknownPartition { topic_id, partition_id } => Fault::UnknownPartition { topic_id, partition_id },
            EngineError::UnknownShard(value) => Fault::UnknownShard(value),
            EngineError::AdmissionLimited { shard_id, reason } => Fault::AdmissionLimited { shard_id, reason: reason@ },
            EngineError::WorkerStopped(value) => Fault::WorkerStopped(value),
            EngineError::UnsupportedDurability(text) => Fault::UnsupportedDurability(text@),
            EngineError::DurabilityUnavailable { required_replicas, durable_replicas } => Fault::DurabilityUnavailable { required_replicas, durable_replicas },
            EngineError::ObjectDurabilityUnavailable => Fault::ObjectDurabilityUnavailable,
            EngineError::StaleProducerEpoch { producer_id, current, received } => Fault::StaleProducerEpoch { producer_id, current, received },
            EngineError::ProducerSequenceOutOfOrder { producer_id, expected, received } => Fault::ProducerSequenceOutOfOrder { producer_id, expected, received },
            EngineError::ProducerRequiresNewEpoch(value) => Fault::ProducerRequiresNewEpoch(value),
            EngineError::DuplicateSequenceMismatch(value) => Fault::DuplicateSequenceMismatch(value),
            EngineError::UnknownAtomicGroup(value) => Fault::UnknownAtomicGroup(value),
            EngineError::AtomicGroupFinalized(value) => Fault::AtomicGroupFinalized(value),
            EngineError::AtomicGroupSequenceOutOfOrder { transaction_id, expected, received } => Fault::AtomicGroupSequenceOutOfOrder { transaction_id, expected, received },
            EngineError::AtomicGroupChunkMismatch(value) => Fault::AtomicGroupChunkMismatch(value),
            EngineError::ReplicaInFlight(value) => Fault::ReplicaInFlight(value),
            EngineError::ReplicaReorderLimited { expected, received, max_gap_batches } => Fault::ReplicaReorderLimited { expected, received, max_gap_batches },
            EngineError::ReplicaBufferLimited { pending_bytes, received_bytes, max_pending_bytes } => Fault::ReplicaBufferLimited { pending_bytes, received_bytes, max_pending_bytes },
            EngineError::OffsetOutOfRange { requested, log_start } => Fault::OffsetOutOfRange { requested, log_start },
            EngineError::RetentionPinned { requested, pinned } => Fault::RetentionPinned { requested, pinned },
            EngineError::Fenced(text) => Fault::Fenced(text@),
            EngineError::DurableSinkCheckpoint(text) => Fault::DurableSinkCheckpoint(text@),
            EngineError::DurableSinkUnavailable(text) => Fault::DurableSinkUnavailable(text@),
            EngineError::CorruptState(text) => Fault::CorruptState(text@),
            EngineError::Sequencer(value) => Fault::Sequencer(value),
            EngineError::Storage(text) => Fault::Storage(text@),
        }
    }
}

impl EngineError {
    /// The text that describes the failure.
    pub open spec fn describes(self) -> Seq<char> {
        match self {
            EngineError::InvalidConfig(m) => "invalid engine config: "@ + m@,
            EngineError::TopicAlreadyExists(id) => "topic "@ + decimal(id.0 as nat) + " already exists"@,
            EngineError::UnknownPartition { topic_id, partition_id } => "unknown topic/partition "@ + decimal(topic_id.0 as nat) + "/"@ + decimal(partition_id.0 as nat),
            EngineError::UnknownShard(id) => "unknown shard "@ + decimal(id.0 as nat),
            EngineError::AdmissionLimited { shard_id, reason } => "shard "@ + decimal(shard_id.0 as nat) + " admission limited: "@ + reason@,
            EngineError::WorkerStopped(id) => "shard "@ + decimal(id.0 as nat) + " worker stopped"@,
            EngineError::UnsupportedDurability(reason) => "unsupported durability: "@ + reason@,
            EngineError::DurabilityUnavailable { required_replicas, durable_replicas } => "durability unavailable: required "@ + decimal(required_replicas as nat) + " replicas, reached "@ + decimal(durable_replicas as nat),
            EngineError::ObjectDurabilityUnavailable => "object durability unavailable"@,
            EngineError::StaleProducerEpoch { producer_id, current, received } => "producer "@ + decimal(producer_id as nat) + " epoch "@ + decimal(received as nat) + " is stale; current epoch is "@ + decimal(current as nat),
            EngineError::ProducerSequenceOutOfOrder { producer_id, expected, received } => "producer "@ + decimal(producer_id as nat) + " sequence out of order: expected "@ + decimal(expected as nat) + ", received "@ + decimal(received as nat),
            EngineError::ProducerRequiresNewEpoch(id) => "producer "@ + decimal(id as nat) + " must acquire a new epoch after a failed append"@,
            EngineError::DuplicateSequenceMismatch(id) => "producer "@ + decimal(id as nat) + " retried a sequence with different content"@,
            EngineError::UnknownAtomicGroup(id) => "unknown atomic group "@ + decimal(id as nat),
            EngineError::AtomicGroupFinalized(id) => "atomic group "@ + decimal(id as nat) + " is already finalized"@,
            EngineError::AtomicGroupSequenceOutOfOrder { transaction_id, expected, received } => "atomic group "@ + decimal(transaction_id as nat) + " chunk out of order: expected "@ + decimal(expected as nat) + ", received "@ + decimal(received as nat),
            EngineError::AtomicGroupChunkMismatch(id) => "atomic group "@ + decimal(id as nat) + " retried a chunk with different content"@,
            EngineError::ReplicaInFlight(id) => "batch "@ + decimal(id.0 as nat) + " is still in flight"@,
            EngineError::ReplicaReorderLimited { expected, received, max_gap_batches } => "replica batch "@ + decimal(received.0 as nat) + " is too far ahead of "@ + decimal(expected.0 as nat) + ": the limit is "@ + decimal(max_gap_batches as nat) + " batches"@,
            EngineError::ReplicaBufferLimited { pending_bytes, received_bytes, max_pending_bytes } => "replica buffer holds "@ + decimal(pending_bytes as nat) + " bytes and cannot take "@ + decimal(received_bytes as nat) + ": the limit is "@ + decimal(max_pending_bytes as nat) + " bytes"@,
            EngineError::OffsetOutOfRange { requested, log_start } => "offset "@ + decimal(requested.0 as nat) + " is below log start "@ + decimal(log_start.0 as nat),
            EngineError::RetentionPinned { requested, pinned } => "retention cannot advance to "@ + decimal(requested.0 as nat) + ": pinned at "@ + decimal(pinned.0 as nat),
            EngineError::Fenced(m) => "fenced: "@ + m@,
            EngineError::DurableSinkCheckpoint(m) => "durable sink checkpoint: "@ + m@,
            EngineError::DurableSinkUnavailable(m) => "durable sink unavailable: "@ + m@,
            EngineError::CorruptState(m) => "corrupt engine state: "@ + m@,
            EngineError::Sequencer(error) => error.describes(),
            EngineError::Storage(m) => m@,
        }
    }

    /// Describes the failure.
    pub fn message(&self) -> (text: String)
        ensures
            text@ == self.describes(),
    {
        match self {
            EngineError::InvalidConfig(m) => {
                let mut text = "invalid engine config: ".to_string();
                text.append(m.as_str());
                text
            },
            EngineError::TopicAlreadyExists(id) => {
                let mut text = "topic ".to_string();
                append_decimal(&mut text, id.0);
                text.append(" already exists");
                text
            },
            EngineError::UnknownPartition { topic_id, partition_id } => {
                let mut text = "unknown topic/partition ".to_string();
                append_decimal(&mut text, topic_id.0);
                text.append("/");
                append_decimal(&mut text, partition_id.0 as u128);
                text
            },
            EngineError::UnknownShard(id) => {
                let mut text = "unknown shard ".to_string();
                append_decimal(&mut text, id.0 as u128);
                text
            },
            EngineError::AdmissionLimited { shard_id, reason } => {
                let mut text = "shard ".to_string();
                append_decimal(&mut text, shard_id.0 as u128);
                text.append(" admission limited: ");
                text.append(reason);
                text
            },
            EngineError::WorkerStopped(id) => {
                let mut text = "shard ".to_string();
                append_decimal(&mut text, id.0 as u128);
                text.append(" worker stopped");
                text
            },
            EngineError::UnsupportedDurability(reason) => {
                let mut text = "unsupported durability: ".to_string();
                text.append(reason);
                text
            },
            EngineError::DurabilityUnavailable { required_replicas, durable_replicas } => {
                let mut text = "durability unavailable: required ".to_string();
                append_decimal(&mut text, *required_replicas as u128);
                text.append(" replicas, reached ");
                append_decimal(&mut text, *durable_replicas as u128);
                text
            },
            EngineError::ObjectDurabilityUnavailable => "object durability unavailable".to_string(),
            EngineError::StaleProducerEpoch { producer_id, current, received } => {
                let mut text = "producer ".to_string();
                append_decimal(&mut text, *producer_id);
                text.append(" epoch ");
                append_decimal(&mut text, *received as u128);
                text.append(" is stale; current epoch is ");
                append_decimal(&mut text, *current as u128);
                text
            },
            EngineError::ProducerSequenceOutOfOrder { producer_id, expected, received } => {
                let mut text = "producer ".to_string();
                append_decimal(&mut text, *producer_id);
                text.append(" sequence out of order: expected ");
                append_decimal(&mut text, *expected as u128);
                text.append(", received ");
                append_decimal(&mut text, *received as u128);
                text
            },
            EngineError::ProducerRequiresNewEpoch(id) => {
                let mut text = "producer ".to_string();
                append_decimal(&mut text, *id);
                text.append(" must acquire a new epoch after a failed append");
                text
            },
            EngineError::DuplicateSequenceMismatch(id) => {
                let mut text = "producer ".to_string();
                append_decimal(&mut text, *id);
                text.append(" retried a sequence with different content");
                text
            },
            EngineError::UnknownAtomicGroup(id) => {
                let mut text = "unknown atomic group ".to_string();
                append_decimal(&mut text, *id);
                text
            },
            EngineError::AtomicGroupFinalized(id) => {
                let mut text = "atomic group ".to_string();
                append_decimal(&mut text, *id);
                text.append(" is already finalized");
                text
            },
            EngineError::AtomicGroupSequenceOutOfOrder { transaction_id, expected, received } => {
                let mut text = "atomic group ".to_string();
                append_decimal(&mut text, *transaction_id);
                text.append(" chunk out of order: expected ");
                append_decimal(&mut text, *expected as u128);
                text.append(", received ");
                append_decimal(&mut text, *received as u128);
                text
            },
            EngineError::AtomicGroupChunkMismatch(id) => {
                let mut text = "atomic group ".to_string();
                append_decimal(&mut text, *id);
                text.append(" retried a chunk with different content");
                text
            },
            EngineError::ReplicaInFlight(id) => {
                let mut text = "batch ".to_string();
                append_decimal(&mut text, id.0);
                text.append(" is still in flight");
                text
            },
            EngineError::ReplicaReorderLimited { expected, received, max_gap_batches } => {
                let mut text = "replica batch ".to_string();
                append_decimal(&mut text, received.0);
                text.append(" is too far ahead of ");
                append_decimal(&mut text, expected.0);
                text.append(": the limit is ");
                append_decimal(&mut text, *max_gap_batches);
                text.append(" batches");
                text
            },
            EngineError::ReplicaBufferLimited { pending_bytes, received_bytes, max_pending_bytes } => {
                let mut text = "replica buffer holds ".to_string();
                append_decimal(&mut text, *pending_bytes as u128);
                text.append(" bytes and cannot take ");
                append_decimal(&mut text, *received_bytes as u128);
                text.append(": the limit is ");
                append_decimal(&mut text, *max_pending_bytes as u128);
                text.append(" bytes");
                text
            },
            EngineError::OffsetOutOfRange { requested, log_start } => {
                let mut text = "offset ".to_string();
                append_decimal(&mut text, requested.0 as u128);
                text.append(" is below log start ");
                append_decimal(&mut text, log_start.0 as u128);
                text
            },
            EngineError::RetentionPinned { requested, pinned } => {
                let mut text = "retention cannot advance to ".to_string();
                append_decimal(&mut text, requested.0 as u128);
                text.append(": pinned at ");
                append_decimal(&mut text, pinned.0 as u128);
                text
            },
            EngineError::Fenced(m) => {
                let mut text = "fenced: ".to_string();
                text.append(m.as_str());
                text
            },
            EngineError::DurableSinkCheckpoint(m) => {
                let mut text = "durable sink checkpoint: ".to_string();
                text.append(m.as_str());
                text
            },
            EngineError::DurableSinkUnavailable(m) => {
                let mut text = "durable sink unavailable: ".to_string();
                text.append(m.as_str());
                text
            },
            EngineError::CorruptState(m) => {
                let mut text = "corrupt engine state: ".to_string();
                text.append(m.as_str());
                text
            },
            EngineError::Sequencer(error) => error.message(),
            EngineError::Storage(m) => m.clone(),
        }
    }
}

impl From<SequencerError> for EngineError {
    fn from(error: SequencerError) -> (result: Self) {
        EngineError::Sequencer(error)
    }
}

impl vstd::std_specs::convert::FromSpecImpl<SequencerError> for EngineError {
    open spec fn obeys_from_spec() -> bool {
        true
    }

    open spec fn from_spec(error: SequencerError) -> Self {
        EngineError::Sequencer(error)
    }
}

/// A result is the one that a model predicts.
pub open spec fn agrees<T>(result: EngineResult<T>, expected: Result<T, Fault>) -> bool {
    match result {
        Ok(value) => expected == Ok::<T, Fault>(value),
        Err(error) => expected == Err::<T, Fault>(error@),
    }
}

/// The refusal of a configuration.
pub fn invalid_config(text: &str) -> (error: EngineError)
    ensures
        error@ == Fault::InvalidConfig(text@),
{
    EngineError::InvalidConfig(text.to_string())
}

/// The report of inconsistent state.
pub fn corrupt_state(text: &str) -> (error: EngineError)
    ensures
        error@ == Fault::CorruptState(text@),
{
    EngineError::CorruptState(text.to_string())
}

/// Builds a message from text around one number.
pub fn numbered(before: &str, number: u128, after: &str) -> (text: String)
    ensures
        text@ == before@ + decimal(number as nat) + after@,
{
    let mut text = before.to_string();
    append_decimal(&mut text, number);
    text.append(after);
    text
}

/// Builds a message from text around two numbers.
pub fn numbered2(before: &str, first: u128, between: &str, second: u128, after: &str) -> (text:
    String)
    ensures
        text@ == before@ + decimal(first as nat) + between@ + decimal(second as nat) + after@,
{
    let mut text = numbered(before, first, between);
    append_decimal(&mut text, second);
    text.append(after);
    text
}

} // verus!
