//! Messages of the streaming RPC surface and their conversions.
use vstd::prelude::*;

use crate::error::EngineError;
use crate::fetch::FetchedBatch;
use crate::ids::{LogicalOffset, LogicalPartitionId, RecordId, TopicId, TopicPartition};
use crate::ids::LeaderEpoch;
use crate::protocol::{
    AppendRequest, AppendResponse, AtomicGroupIdentity, Durability, FetchMode, FetchRequest,
    ProducerIdentity,
};
use crate::sequencer::Placement;
use crate::topology::{broker_numbered, AssignmentProvider, PartitionAssignment};

verus! {

/// A 128-bit number as two halves.
#[derive(Debug, Clone, Copy, PartialEq, Eq, Structural)]
pub struct UInt128 {
    pub high: u64,
    pub low: u64,
}

/// Where the lower half of a 128-bit number ends.
pub const HALF: u128 = 0x1_0000_0000_0000_0000;

impl UInt128 {
    /// The number that two halves stand for.
    pub open spec fn value(self) -> nat {
        (self.high * HALF + self.low) as nat
    }
}

/// Splits a number into its halves.
pub fn encode_u128(value: u128) -> (halves: UInt128)
    ensures
        halves.value() == value,
{
    proof {
        assert(value >> 64 <= 0xffff_ffff_ffff_ffff) by (bit_vector);
        assert(value & 0xffff_ffff_ffff_ffff <= 0xffff_ffff_ffff_ffff) by (bit_vector);
        assert((value >> 64) * 0x1_0000_0000_0000_0000 + (value & 0xffff_ffff_ffff_ffff) == value)
            by (bit_vector);
    }
    UInt128 { high: (value >> 64) as u64, low: (value & 0xffff_ffff_ffff_ffff) as u64 }
}

/// Joins two halves.
pub fn join_u128(halves: UInt128) -> (value: u128)
    ensures
        value == halves.value(),
{
    let high: u128 = halves.high as u128;
    let low: u128 = halves.low as u128;
    proof {
        assert((high << 64) | low == high * 0x1_0000_0000_0000_0000 + low) by (bit_vector)
            requires
                high <= 0xffff_ffff_ffff_ffff,
                low <= 0xffff_ffff_ffff_ffff,
        ;
    }
    (high << 64) | low
}

/// A number is split in one way only, so both halves come back as they were sent.
pub proof fn halves_are_unique(one: UInt128, other: UInt128)
    requires
        one.value() == other.value(),
    ensures
        one == other,
{
    let a = one.high as int;
    let b = other.high as int;
    let h = HALF as int;
    assert(a == b) by (nonlinear_arith)
        requires
            a * h + one.low == b * h + other.low,
            0 <= one.low < h,
            0 <= other.low < h,
            h > 0,
    ;
}

/// The answer's class.
#[derive(Debug, Clone, Copy, PartialEq, Eq, Structural)]
pub enum StatusCode {
    InvalidArgument,
    NotFound,
    FailedPrecondition,
    OutOfRange,
    Unimplemented,
    Internal,
    Unavailable,
}

/// A refused or failed call, as it is answered.
#[derive(Debug, Clone, PartialEq, Eq)]
pub struct Status {
    pub code: StatusCode,
    pub message: String,
}

/// A status with its text taken by its view.
pub ghost struct StatusView {
    pub code: StatusCode,
    pub message: Seq<char>,
}

impl View for Status {
    type V = StatusView;

    open spec fn view(&self) -> StatusView {
        StatusView { code: self.code, message: self.message@ }
    }
}

/// A missing number is answered by its name.
pub open spec fn required(field: Seq<char>) -> StatusView {
    StatusView { code: StatusCode::InvalidArgument, message: field + " is required"@ }
}

/// A number that a message must hold.
pub open spec fn decoded(value: Option<UInt128>, field: Seq<char>) -> Result<u128, StatusView> {
    match value {
        Some(halves) => Ok(halves.value() as u128),
        None => Err(required(field)),
    }
}

/// Reads a number that a message must hold.
pub fn decode_u128(value: Option<UInt128>, field: &str) -> (result: Result<u128, Status>)
    ensures
        match (value, result) {
            (Some(halves), Ok(number)) => number == halves.value(),
            (None, Err(status)) => status@ == required(field@),
            _ => false,
        },
        status_agrees(result, decoded(value, field@)),
{
    match value {
        Some(halves) => Ok(join_u128(halves)),
        None => {
            let mut message = field.to_string();
            message.append(" is required");
            Err(Status { code: StatusCode::InvalidArgument, message })
        },
    }
}

/// A result is the one that a model predicts.
pub open spec fn status_agrees<T>(result: Result<T, Status>, expected: Result<T, StatusView>) -> bool {
    match (result, expected) {
        (Ok(one), Ok(other)) => one == other,
        (Err(status), Err(view)) => status@ == view,
        _ => false,
    }
}

/// An idempotent producer's claim in a message.
#[derive(Debug, Clone, Copy, PartialEq, Eq)]
pub struct ProducerMessage {
    pub producer_id: Option<UInt128>,
    pub epoch: u32,
    pub first_sequence: u64,
    pub event_id: Option<UInt128>,
}

/// A place in an atomic group in a message.
#[derive(Debug, Clone, Copy, PartialEq, Eq)]
pub struct AtomicGroupMessage {
    pub transaction_id: Option<UInt128>,
    pub chunk_sequence: u64,
}

/// An append as it arrives. `durability` is absent where the message names none
/// or one that is not known.
#[derive(Debug, Clone, PartialEq, Eq)]
pub struct AppendMessage {
    pub request_id: Option<UInt128>,
    pub topic_id: Option<UInt128>,
    pub partition_id: u32,
    pub record_count: u32,
    pub payload: Vec<u8>,
    pub durability: Option<Durability>,
    pub producer: Option<ProducerMessage>,
    pub atomic_group: Option<AtomicGroupMessage>,
    pub leader_epoch: Option<u64>,
}

/// The producer's claim that a message holds.
pub open spec fn decoded_producer(message: Option<ProducerMessage>) -> Result<
    Option<ProducerIdentity>,
    StatusView,
> {
    match message {
        None => Ok(None),
        Some(producer) => match decoded(producer.producer_id, "producer_id"@) {
            Err(status) => Err(status),
            Ok(producer_id) => Ok(
                Some(
                    ProducerIdentity {
                        producer_id,
                        epoch: producer.epoch,
                        first_sequence: producer.first_sequence,
                        event_id: match producer.event_id {
                            Some(halves) => Some(RecordId(halves.value() as u128)),
                            None => None,
                        },
                    },
                ),
            ),
        },
    }
}

fn decode_producer(message: Option<ProducerMessage>) -> (result: Result<
    Option<ProducerIdentity>,
    Status,
>)
    ensures
        status_agrees(result, decoded_producer(message)),
{
    match message {
        None => Ok(None),
        Some(producer) => match decode_u128(producer.producer_id, "producer_id") {
            Err(status) => Err(status),
            Ok(producer_id) => Ok(
                Some(
                    ProducerIdentity {
                        producer_id,
                        epoch: producer.epoch,
                        first_sequence: producer.first_sequence,
                        event_id: match producer.event_id {
                            Some(halves) => Some(RecordId(join_u128(halves))),
                            None => None,
                        },
                    },
                ),
            ),
        },
    }
}

/// The place in an atomic group that a message holds.
pub open spec fn decoded_group(message: Option<AtomicGroupMessage>) -> Result<
    Option<AtomicGroupIdentity>,
    StatusView,
> {
    match message {
        None => Ok(None),
        Some(group) => match decoded(group.transaction_id, "transaction_id"@) {
            Err(status) => Err(status),
            Ok(transaction_id) => Ok(
                Some(AtomicGroupIdentity { transaction_id, chunk_sequence: group.chunk_sequence }),
            ),
        },
    }
}

fn decode_group(message: Option<AtomicGroupMessage>) -> (result: Result<
    Option<AtomicGroupIdentity>,
    Status,
>)
    ensures
        status_agrees(result, decoded_group(message)),
{
    match message {
        None => Ok(None),
        Some(group) => match decode_u128(group.transaction_id, "transaction_id") {
            Err(status) => Err(status),
            Ok(transaction_id) => Ok(
                Some(AtomicGroupIdentity { transaction_id, chunk_sequence: group.chunk_sequence }),
            ),
        },
    }
}

/// The first thing that an append lacks, in the order in which it is read.
pub open spec fn append_status(message: AppendMessage) -> Option<StatusView> {
    if decoded_producer(message.producer) is Err {
        Some(decoded_producer(message.producer)->Err_0)
    } else if message.request_id is None {
        Some(required("request_id"@))
    } else if message.topic_id is None {
        Some(required("topic_id"@))
    } else if message.durability is None {
        Some(
            StatusView {
                code: StatusCode::InvalidArgument,
                message: "durability is required"@,
            },
        )
    } else if decoded_group(message.atomic_group) is Err {
        Some(decoded_group(message.atomic_group)->Err_0)
    } else {
        None
    }
}

/// The append that a complete message asks for.
pub open spec fn decoded_append(message: AppendMessage) -> AppendRequest {
    AppendRequest {
        request_id: message.request_id->0.value() as u128,
        topic_id: TopicId(message.topic_id->0.value() as u128),
        partition_id: LogicalPartitionId(message.partition_id),
        record_count: message.record_count,
        payload: message.payload,
        durability: message.durability->0,
        producer: decoded_producer(message.producer)->Ok_0,
        atomic_group: decoded_group(message.atomic_group)->Ok_0,
        leader_epoch: match message.leader_epoch {
            Some(epoch) => Some(LeaderEpoch(epoch)),
            None => None,
        },
        extension_context: None,
    }
}

/// Reads an append.
pub fn decode_append(message: AppendMessage) -> (result: Result<AppendRequest, Status>)
    ensures
        status_agrees(
            result,
            match append_status(message) {
                Some(status) => Err(status),
                None => Ok(decoded_append(message)),
            },
        ),
{
    let producer = match decode_producer(message.producer) {
        Err(status) => {
            return Err(status);
        },
        Ok(producer) => producer,
    };
    let request_id: u128 = match decode_u128(message.request_id, "request_id") {
        Err(status) => {
            return Err(status);
        },
        Ok(value) => value,
    };
    let topic_id: u128 = match decode_u128(message.topic_id, "topic_id") {
        Err(status) => {
            return Err(status);
        },
        Ok(value) => value,
    };
    let durability = match message.durability {
        None => {
            return Err(
                Status {
                    code: StatusCode::InvalidArgument,
                    message: "durability is required".to_string(),
                },
            );
        },
        Some(durability) => durability,
    };
    let atomic_group = match decode_group(message.atomic_group) {
        Err(status) => {
            return Err(status);
        },
        Ok(group) => group,
    };
    Ok(
        AppendRequest {
            request_id,
            topic_id: TopicId(topic_id),
            partition_id: LogicalPartitionId(message.partition_id),
            record_count: message.record_count,
            payload: message.payload,
            durability,
            producer,
            atomic_group,
            leader_epoch: match message.leader_epoch {
                Some(epoch) => Some(LeaderEpoch(epoch)),
                None => None,
            },
            extension_context: None,
        },
    )
}

/// A fetch as it arrives. `mode` is absent where the message names none or one
/// that is not known.
#[derive(Debug, Clone, Copy, PartialEq, Eq)]
pub struct FetchMessage {
    pub request_id: Option<UInt128>,
    pub topic_id: Option<UInt128>,
    pub partition_id: u32,
    pub start_offset: u64,
    pub max_bytes: u32,
    pub mode: Option<FetchMode>,
}

/// The fetch that a message asks for.
pub open spec fn decoded_fetch(message: FetchMessage) -> Result<FetchRequest, StatusView> {
    match decoded(message.request_id, "request_id"@) {
        Err(status) => Err(status),
        Ok(request_id) => match decoded(message.topic_id, "topic_id"@) {
            Err(status) => Err(status),
            Ok(topic_id) => match message.mode {
                None => Err(
                    StatusView {
                        code: StatusCode::InvalidArgument,
                        message: "fetch mode is required"@,
                    },
                ),
                Some(mode) => Ok(
                    FetchRequest {
                        request_id,
                        topic_id: TopicId(topic_id),
                        partition_id: LogicalPartitionId(message.partition_id),
                        start_offset: LogicalOffset(message.start_offset),
                        max_bytes: message.max_bytes,
                        mode,
                    },
                ),
            },
        },
    }
}

/// Reads a fetch.
pub fn decode_fetch(message: FetchMessage) -> (result: Result<FetchRequest, Status>)
    ensures
        status_agrees(result, decoded_fetch(message)),
{
    let request_id: u128 = match decode_u128(message.request_id, "request_id") {
        Err(status) => {
            return Err(status);
        },
        Ok(value) => value,
    };
    let topic_id: u128 = match decode_u128(message.topic_id, "topic_id") {
        Err(status) => {
            return Err(status);
        },
        Ok(value) => value,
    };
    match message.mode {
        None => Err(
            Status {
                code: StatusCode::InvalidArgument,
                message: "fetch mode is required".to_string(),
            },
        ),
        Some(mode) => Ok(
            FetchRequest {
                request_id,
                topic_id: TopicId(topic_id),
                partition_id: LogicalPartitionId(message.partition_id),
                start_offset: LogicalOffset(message.start_offset),
                max_bytes: message.max_bytes,
                mode,
            },
        ),
    }
}

/// Where a batch was placed, in a message.
#[derive(Debug, Clone, Copy, PartialEq, Eq, Structural)]
pub struct PlacementMessage {
    pub virtual_lane_id: u32,
    pub ring_epoch: u64,
    pub sequence: u64,
    pub leader_epoch: u64,
}

/// The message of a placement.
pub open spec fn placed(placement: Placement) -> PlacementMessage {
    PlacementMessage {
        virtual_lane_id: placement.virtual_lane_id.0,
        ring_epoch: placement.ring_epoch.0,
        sequence: placement.sequence.0,
        leader_epoch: placement.leader_epoch.0,
    }
}

fn encode_placement(placement: Placement) -> (message: PlacementMessage)
    ensures
        message == placed(placement),
{
    PlacementMessage {
        virtual_lane_id: placement.virtual_lane_id.0,
        ring_epoch: placement.ring_epoch.0,
        sequence: placement.sequence.0,
        leader_epoch: placement.leader_epoch.0,
    }
}

/// A receipt as it is sent.
#[derive(Debug, Clone, Copy, PartialEq, Eq)]
pub struct AppendReceiptMessage {
    pub request_id: UInt128,
    pub batch_id: UInt128,
    pub first_offset: u64,
    pub last_offset: u64,
    pub placement: PlacementMessage,
    pub record_id: UInt128,
    pub visible_through: u64,
}

/// Halves stand for a number, where there is one.
pub open spec fn stands_for(halves: Option<UInt128>, record_id: Option<RecordId>) -> bool {
    match (halves, record_id) {
        (Some(pair), Some(id)) => pair.value() == id.0,
        (None, None) => true,
        _ => false,
    }
}

fn encode_record_id(record_id: Option<RecordId>) -> (halves: Option<UInt128>)
    ensures
        stands_for(halves, record_id),
{
    match record_id {
        Some(id) => Some(encode_u128(id.0)),
        None => None,
    }
}

/// Writes a receipt.
pub fn encode_append(response: AppendResponse) -> (message: AppendReceiptMessage)
    ensures
        message.request_id.value() == response.request_id,
        message.batch_id.value() == response.batch_id.0,
        message.first_offset == response.first_offset.0,
        message.last_offset == response.last_offset.0,
        message.placement == placed(response.placement),
        message.record_id.value() == response.record_id.0,
        message.visible_through == response.visible_through.0,
{
    AppendReceiptMessage {
        request_id: encode_u128(response.request_id),
        batch_id: encode_u128(response.batch_id.0),
        first_offset: response.first_offset.0,
        last_offset: response.last_offset.0,
        placement: encode_placement(response.placement),
        record_id: encode_u128(response.record_id.0),
        visible_through: response.visible_through.0,
    }
}

/// A fetched batch as it is sent.
#[derive(Debug, Clone, PartialEq, Eq)]
pub struct FetchBatchMessage {
    pub request_id: UInt128,
    pub batch_id: UInt128,
    pub first_offset: u64,
    pub last_offset: u64,
    pub payload: Vec<u8>,
    pub placement: PlacementMessage,
    pub record_count: u32,
    pub event_id: Option<UInt128>,
    pub atomic_group: Option<AtomicGroupMessage>,
}

/// Writes a fetched batch.
pub fn encode_fetch_batch(request_id: u128, batch: FetchedBatch) -> (message: FetchBatchMessage)
    ensures
        message.request_id.value() == request_id,
        message.batch_id.value() == batch.batch_id.0,
        message.first_offset == batch.first_offset.0,
        message.last_offset == batch.last_offset.0,
        message.payload == batch.payload,
        message.placement == placed(batch.placement),
        message.record_count == batch.record_count,
        stands_for(message.event_id, batch.event_id),
        message.atomic_group is Some == batch.atomic_group is Some,
        decoded_group(message.atomic_group) == Ok::<_, StatusView>(batch.atomic_group),
{
    let atomic_group = match batch.atomic_group {
        Some(group) => Some(
            AtomicGroupMessage {
                transaction_id: Some(encode_u128(group.transaction_id)),
                chunk_sequence: group.chunk_sequence,
            },
        ),
        None => None,
    };
    FetchBatchMessage {
        request_id: encode_u128(request_id),
        batch_id: encode_u128(batch.batch_id.0),
        first_offset: batch.first_offset.0,
        last_offset: batch.last_offset.0,
        payload: batch.payload,
        placement: encode_placement(batch.placement),
        record_count: batch.record_count,
        event_id: encode_record_id(batch.event_id),
        atomic_group,
    }
}

/// The class of the answer to an engine's failure.
pub open spec fn status_code(error: EngineError) -> StatusCode {
    match error {
        EngineError::InvalidConfig(_) => StatusCode::InvalidArgument,
        EngineError::UnknownPartition { .. } => StatusCode::NotFound,
        EngineError::UnknownShard(_) => StatusCode::NotFound,
        EngineError::UnknownAtomicGroup(_) => StatusCode::NotFound,
        EngineError::AdmissionLimited { .. } => StatusCode::Unavailable,
        EngineError::ReplicaReorderLimited { .. } => StatusCode::Unavailable,
        EngineError::ReplicaBufferLimited { .. } => StatusCode::Unavailable,
        EngineError::ReplicaInFlight(_) => StatusCode::Unavailable,
        EngineError::WorkerStopped(_) => StatusCode::Unavailable,
        EngineError::DurabilityUnavailable { .. } => StatusCode::Unavailable,
        EngineError::ObjectDurabilityUnavailable => StatusCode::Unavailable,
        EngineError::DurableSinkCheckpoint(_) => StatusCode::Unavailable,
        EngineError::DurableSinkUnavailable(_) => StatusCode::Unavailable,
        EngineError::OffsetOutOfRange { .. } => StatusCode::OutOfRange,
        EngineError::UnsupportedDurability(_) => StatusCode::Unimplemented,
        EngineError::CorruptState(_) => StatusCode::Internal,
        EngineError::Storage(_) => StatusCode::Internal,
        _ => StatusCode::FailedPrecondition,
    }
}

/// Answers a call that the engine refused or could not finish.
pub fn engine_status(error: &EngineError) -> (status: Status)
    ensures
        status.code == status_code(*error),
        status.message@ == error.describes(),
{
    let code = match error {
        EngineError::InvalidConfig(_) => StatusCode::InvalidArgument,
        EngineError::UnknownPartition { .. }
        | EngineError::UnknownShard(_)
        | EngineError::UnknownAtomicGroup(_) => StatusCode::NotFound,
        EngineError::AdmissionLimited { .. }
        | EngineError::ReplicaReorderLimited { .. }
        | EngineError::ReplicaBufferLimited { .. }
        | EngineError::ReplicaInFlight(_)
        | EngineError::WorkerStopped(_)
        | EngineError::DurabilityUnavailable { .. }
        | EngineError::ObjectDurabilityUnavailable
        | EngineError::DurableSinkCheckpoint(_)
        | EngineError::DurableSinkUnavailable(_) => StatusCode::Unavailable,
        EngineError::OffsetOutOfRange { .. } => StatusCode::OutOfRange,
        EngineError::UnsupportedDurability(_) => StatusCode::Unimplemented,
        EngineError::CorruptState(_) | EngineError::Storage(_) => StatusCode::Internal,
        _ => StatusCode::FailedPrecondition,
    };
    Status { code, message: error.message() }
}

/// Why a topic's name could not be resolved.
#[derive(Debug, Clone, Copy, PartialEq, Eq, Structural)]
pub enum TopicRouteErrorCode {
    InvalidInput,
    NotFound,
    WritePaused,
    Unavailable,
    SdkUpgradeRequired,
    StaleGeneration,
    Corrupt,
}

/// A topic's name that could not be resolved.
#[derive(Debug, Clone, PartialEq, Eq)]
pub struct TopicRouteError {
    pub code: TopicRouteErrorCode,
    pub message: String,
}

/// The class of the answer to a name that could not be resolved.
pub open spec fn route_status_code(code: TopicRouteErrorCode) -> StatusCode {
    match code {
        TopicRouteErrorCode::InvalidInput => StatusCode::InvalidArgument,
        TopicRouteErrorCode::NotFound => StatusCode::NotFound,
        TopicRouteErrorCode::WritePaused => StatusCode::Unavailable,
        TopicRouteErrorCode::Unavailable => StatusCode::Unavailable,
        TopicRouteErrorCode::SdkUpgradeRequired => StatusCode::FailedPrecondition,
        TopicRouteErrorCode::StaleGeneration => StatusCode::FailedPrecondition,
        TopicRouteErrorCode::Corrupt => StatusCode::FailedPrecondition,
    }
}

/// Answers a call on a name that could not be resolved.
pub fn generation_status(error: TopicRouteError) -> (status: Status)
    ensures
        status.code == route_status_code(error.code),
        status.message == error.message,
{
    let code = match error.code {
        TopicRouteErrorCode::InvalidInput => StatusCode::InvalidArgument,
        TopicRouteErrorCode::NotFound => StatusCode::NotFound,
        TopicRouteErrorCode::WritePaused | TopicRouteErrorCode::Unavailable => {
            StatusCode::Unavailable
        },
        TopicRouteErrorCode::SdkUpgradeRequired
        | TopicRouteErrorCode::StaleGeneration
        | TopicRouteErrorCode::Corrupt => StatusCode::FailedPrecondition,
    };
    Status { code, message: error.message }
}

/// Takes up the answer of a topic resolver: the physical topic, where there is one.
pub fn resolve_legacy_topic(
    resolved: Result<Option<TopicPartition>, TopicRouteError>,
    topic_id: &mut TopicId,
) -> (result: Result<(), Status>)
    ensures
        match (resolved, result) {
            (Ok(Some(physical)), Ok(())) => *final(topic_id) == physical.topic_id,
            (Ok(None), Ok(())) => *final(topic_id) == *old(topic_id),
            (Err(error), Err(status)) => {
                &&& *final(topic_id) == *old(topic_id)
                &&& status.code == route_status_code(error.code)
                &&& status.message == error.message
            },
            _ => false,
        },
{
    match resolved {
        Ok(Some(physical)) => {
            *topic_id = physical.topic_id;
            Ok(())
        },
        Ok(None) => Ok(()),
        Err(error) => Err(generation_status(error)),
    }
}

/// What a broker answers that does not lead a partition.
pub open spec fn locality<A: AssignmentProvider>(
    assignments: A,
    topic_partition: TopicPartition,
) -> Result<(), StatusView> {
    match assignments.spec_leader(topic_partition) {
        None => Err(
            StatusView {
                code: StatusCode::NotFound,
                message: "unknown topic partition assignment"@,
            },
        ),
        Some(leader) => if leader == assignments.spec_local() {
            Ok(())
        } else {
            match broker_numbered(assignments.published(), leader) {
                None => Err(
                    StatusView {
                        code: StatusCode::NotFound,
                        message: "unknown topic partition assignment"@,
                    },
                ),
                Some(owner) => Err(
                    StatusView {
                        code: StatusCode::FailedPrecondition,
                        message: "not partition coordinator; retry "@ + owner.advertised_grpc@,
                    },
                ),
            }
        },
    }
}

/// Checks that the local broker leads a partition, and names the broker that does.
pub fn ensure_local<A: AssignmentProvider>(assignments: &A, topic_partition: TopicPartition) -> (result:
    Result<(), Status>)
    ensures
        status_agrees(result, locality(*assignments, topic_partition)),
{
    if assignments.is_local_leader(topic_partition) {
        return Ok(());
    }
    match assignments.leader(topic_partition) {
        None => Err(
            Status {
                code: StatusCode::NotFound,
                message: "unknown topic partition assignment".to_string(),
            },
        ),
        Some(owner) => {
            let mut message = "not partition coordinator; retry ".to_string();
            message.append(owner.advertised_grpc.as_str());
            Err(Status { code: StatusCode::FailedPrecondition, message })
        },
    }
}

/// Gives an append that names no leader epoch the one of its assignment.
pub fn adopt_leader_epoch(
    leader_epoch: Option<LeaderEpoch>,
    assignment: Option<PartitionAssignment>,
) -> (epoch: Option<LeaderEpoch>)
    ensures
        epoch == (match (leader_epoch, assignment) {
            (Some(named), _) => Some(named),
            (None, Some(placed)) => Some(placed.leader_epoch),
            (None, None) => None,
        }),
{
    match (leader_epoch, assignment) {
        (Some(named), _) => Some(named),
        (None, Some(placed)) => Some(placed.leader_epoch),
        (None, None) => None,
    }
}

/// Prepares an append for the engine: it goes on only at the leader, under a
/// leader epoch.
pub fn route_append<A: AssignmentProvider>(assignments: &A, request: AppendRequest) -> (result:
    Result<AppendRequest, Status>)
    ensures
        match (
            result,
            locality(
                *assignments,
                TopicPartition {
                    topic_id: request.topic_id,
                    partition_id: request.partition_id,
                },
            ),
        ) {
            (Ok(routed), Ok(())) => {
                &&& routed == (AppendRequest { leader_epoch: routed.leader_epoch, ..request })
                &&& routed.leader_epoch is Some
                &&& request.leader_epoch is Some ==> routed.leader_epoch == request.leader_epoch
                &&& request.leader_epoch is None ==> exists|answer: Option<PartitionAssignment>|
                    #[trigger]
                    call_ensures(
                        A::assignment,
                        (
                            assignments,
                            TopicPartition {
                                topic_id: request.topic_id,
                                partition_id: request.partition_id,
                            },
                        ),
                        answer,
                    ) && answer is Some && routed.leader_epoch == Some(answer->0.leader_epoch)
            },
            (Err(status), Err(view)) => status@ == view,
            _ => false,
        },
{
    let topic_partition = TopicPartition {
        topic_id: request.topic_id,
        partition_id: request.partition_id,
    };
    match ensure_local(assignments, topic_partition) {
        Err(status) => Err(status),
        Ok(()) => {
            let mut routed = request;
            if routed.leader_epoch.is_none() {
                routed.leader_epoch =
                adopt_leader_epoch(routed.leader_epoch, assignments.assignment(topic_partition));
            }
            Ok(routed)
        },
    }
}

} // verus!
