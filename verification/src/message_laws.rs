//! What the surfaces promise: a request is read back from the message, path or
//! query that carries it, and an answer tells what it answers.
use vstd::prelude::*;

use crate::fetch::FetchedBatch;
use crate::ids::RecordId;
use crate::protocol::{
    AppendRequest, AppendResponse, AtomicGroupIdentity, FetchRequest, ProducerIdentity,
};
use crate::wire::{
    decode_append, decode_fetch, encode_append, encode_fetch_batch, AppendMessage,
    AppendReceiptMessage, AtomicGroupMessage, FetchBatchMessage, FetchMessage, ProducerMessage,
    Status, StatusCode, UInt128,
};

verus! {

/// Halves that are there and stand for a number.
pub open spec fn holds(halves: Option<UInt128>, number: u128) -> bool {
    halves is Some && halves->0.value() == number
}

/// Halves that stand for an identity, or are absent with it.
pub open spec fn holds_id(halves: Option<UInt128>, id: Option<RecordId>) -> bool {
    match id {
        Some(id) => holds(halves, id.0),
        None => halves is None,
    }
}

/// A message that carries a producer's claim.
pub open spec fn carries_claim(message: ProducerMessage, claim: ProducerIdentity) -> bool {
    &&& holds(message.producer_id, claim.producer_id)
    &&& message.epoch == claim.epoch
    &&& message.first_sequence == claim.first_sequence
    &&& holds_id(message.event_id, claim.event_id)
}

/// A message that carries a place in an atomic group.
pub open spec fn carries_group(message: AtomicGroupMessage, group: AtomicGroupIdentity) -> bool {
    &&& holds(message.transaction_id, group.transaction_id)
    &&& message.chunk_sequence == group.chunk_sequence
}

/// A message that carries a fetch, field by field.
pub open spec fn carries_fetch(message: FetchMessage, request: FetchRequest) -> bool {
    &&& holds(message.request_id, request.request_id)
    &&& holds(message.topic_id, request.topic_id.0)
    &&& message.partition_id == request.partition_id.0
    &&& message.start_offset == request.start_offset.0
    &&& message.max_bytes == request.max_bytes
    &&& message.mode == Some(request.mode)
}

/// A message that carries an append, field by field.
pub open spec fn carries_append(message: AppendMessage, request: AppendRequest) -> bool {
    &&& holds(message.request_id, request.request_id)
    &&& holds(message.topic_id, request.topic_id.0)
    &&& message.partition_id == request.partition_id.0
    &&& message.record_count == request.record_count
    &&& message.payload == request.payload
    &&& message.durability == Some(request.durability)
    &&& match request.producer {
        Some(claim) => message.producer is Some && carries_claim(message.producer->0, claim),
        None => message.producer is None,
    }
    &&& match request.atomic_group {
        Some(group) => message.atomic_group is Some && carries_group(
            message.atomic_group->0,
            group,
        ),
        None => message.atomic_group is None,
    }
    &&& match request.leader_epoch {
        Some(epoch) => message.leader_epoch == Some(epoch.0),
        None => message.leader_epoch is None,
    }
}

/// Every fetch is read back from the message that carries it.
pub proof fn fetches_are_decoded_as_sent(
    message: FetchMessage,
    request: FetchRequest,
    result: Result<FetchRequest, Status>,
)
    requires
        carries_fetch(message, request),
        call_ensures(decode_fetch, (message,), result),
    ensures
        result == Ok::<FetchRequest, Status>(request),
{
}

/// A fetch is refused exactly where its message lacks a number or the mode, as a
/// request that is not well formed.
pub proof fn incomplete_fetches_are_refused(
    message: FetchMessage,
    result: Result<FetchRequest, Status>,
)
    requires
        call_ensures(decode_fetch, (message,), result),
    ensures
        result is Err <==> message.request_id is None || message.topic_id is None || message.mode is None,
        result is Err ==> result->Err_0.code == StatusCode::InvalidArgument,
{
}

/// Every append without an extension's context is read back from the message that
/// carries it.
pub proof fn appends_are_decoded_as_sent(
    message: AppendMessage,
    request: AppendRequest,
    result: Result<AppendRequest, Status>,
)
    requires
        request.extension_context is None,
        carries_append(message, request),
        call_ensures(decode_append, (message,), result),
    ensures
        result == Ok::<AppendRequest, Status>(request),
{
}

/// An append is refused exactly where its message lacks a number or the durability,
/// as a request that is not well formed.
pub proof fn incomplete_appends_are_refused(
    message: AppendMessage,
    result: Result<AppendRequest, Status>,
)
    requires
        call_ensures(decode_append, (message,), result),
    ensures
        result is Err <==> {
            ||| message.request_id is None
            ||| message.topic_id is None
            ||| message.durability is None
            ||| message.producer is Some && message.producer->0.producer_id is None
            ||| message.atomic_group is Some && message.atomic_group->0.transaction_id is None
        },
        result is Err ==> result->Err_0.code == StatusCode::InvalidArgument,
{
}

/// Two receipts that are sent as the same message are the same receipt, so every
/// part of a receipt is told.
pub proof fn receipts_are_told_whole(
    one: AppendResponse,
    other: AppendResponse,
    message: AppendReceiptMessage,
)
    requires
        call_ensures(encode_append, (one,), message),
        call_ensures(encode_append, (other,), message),
    ensures
        one == other,
        message.request_id.value() == one.request_id,
        message.batch_id.value() == one.batch_id.0,
        message.record_id.value() == one.record_id.0,
        message.first_offset == one.first_offset.0,
        message.last_offset == one.last_offset.0,
        message.visible_through == one.visible_through.0,
        message.placement.virtual_lane_id == one.placement.virtual_lane_id.0,
        message.placement.ring_epoch == one.placement.ring_epoch.0,
        message.placement.leader_epoch == one.placement.leader_epoch.0,
        message.placement.sequence == one.placement.sequence.0,
{
}

/// A fetched batch is told whole: its place, its records and whom it belongs to.
pub proof fn batches_are_told_whole(
    request_id: u128,
    batch: FetchedBatch,
    message: FetchBatchMessage,
)
    requires
        call_ensures(encode_fetch_batch, (request_id, batch), message),
    ensures
        message.request_id.value() == request_id,
        message.batch_id.value() == batch.batch_id.0,
        message.first_offset == batch.first_offset.0,
        message.last_offset == batch.last_offset.0,
        message.record_count == batch.record_count,
        message.payload == batch.payload,
        holds_id(message.event_id, batch.event_id),
        match batch.atomic_group {
            Some(group) => message.atomic_group is Some && carries_group(
                message.atomic_group->0,
                group,
            ),
            None => message.atomic_group is None,
        },
        message.placement.virtual_lane_id == batch.placement.virtual_lane_id.0,
        message.placement.ring_epoch == batch.placement.ring_epoch.0,
        message.placement.leader_epoch == batch.placement.leader_epoch.0,
        message.placement.sequence == batch.placement.sequence.0,
{
    if let Some(sent) = message.atomic_group {
        if let Some(halves) = sent.transaction_id {
            assert(halves.value() <= u128::MAX) by {
                assert(halves.high * crate::wire::HALF + halves.low <= u128::MAX) by (nonlinear_arith)
                    requires
                        halves.high <= u64::MAX,
                        halves.low <= u64::MAX,
                        crate::wire::HALF == 0x1_0000_0000_0000_0000,
                ;
            }
        }
    }
}

} // verus!
