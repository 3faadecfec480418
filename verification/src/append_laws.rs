//! What an append's acknowledgement stands for.
use vstd::prelude::*;

use crate::append::{
    admit_with_verdict, after_reserve, replica_append, required_replicas, AdmittedAppend,
    AfterReserve, AfterWrite, AppendDurability, AppendFailure, Completing, LocalWrite,
    Replicating, Resend, Writing,
};
use crate::config::{EngineConfig, PartitionReplicationPolicy};
use crate::coordinator::{CompleteAppend, ReserveOutcome};
use crate::error::{EngineResult, Fault};
use crate::fencing::WriteFenceError;
use crate::hashing::xxh3_128_of;
use crate::ids::RecordId;
use crate::protocol::{AppendRequest, AppendResponse, Durability, ReplicaAppend};
use crate::sequencer::Reservation;

verus! {

/// A request is admitted exactly when its own check and the fence agree, an object
/// copy can be had where one is asked for, and it names its leader's epoch where there
/// is a fence.
pub proof fn requests_are_admitted_when_nothing_objects(
    config: EngineConfig,
    request: AppendRequest,
    checked: Result<u32, String>,
    verdict: Option<Result<(), WriteFenceError>>,
    result: EngineResult<AdmittedAppend>,
)
    requires
        call_ensures(admit_with_verdict, (&config, &request, checked, verdict), result),
    ensures
        result is Ok <==> {
            &&& checked is Ok
            &&& request.durability == Durability::Object ==> config.object_store_dir is Some
            &&& verdict is Some ==> request.leader_epoch is Some && verdict->0 is Ok
        },
        request.durability == Durability::Object && config.object_store_dir is None ==> (
        result matches Err(error) && error@ is UnsupportedDurability),
        checked is Ok && request.durability != Durability::Object && verdict is Some && (
        request.leader_epoch is None || verdict->0 is Err) ==> (result matches Err(error)
            && error@ is Fenced),
        checked is Err && request.durability != Durability::Object ==> (result matches Err(error)
            && error@ is InvalidConfig),
{
}

/// What is admitted is what was asked for: the partition, request number, durability,
/// producer and group of the request, the records that its check counted and the bytes
/// of its payload. Batches that may be offered again carry the digest of their payload.
pub proof fn admitted_appends_are_the_requests(
    config: EngineConfig,
    request: AppendRequest,
    checked: Result<u32, String>,
    verdict: Option<Result<(), WriteFenceError>>,
    result: EngineResult<AdmittedAppend>,
)
    requires
        call_ensures(admit_with_verdict, (&config, &request, checked, verdict), result),
        result is Ok,
        request.payload@.len() <= u64::MAX,
    ensures
        ({
            let append = result->Ok_0;
            &&& append.topic_partition.topic_id == request.topic_id
            &&& append.topic_partition.partition_id == request.partition_id
            &&& append.request_id == request.request_id
            &&& append.durability == request.durability
            &&& append.producer == request.producer
            &&& append.atomic_group == request.atomic_group
            &&& append.record_count == checked->Ok_0
            &&& append.payload_bytes == request.payload@.len()
            &&& request.producer is Some || request.atomic_group is Some
                ==> append.payload_digest.0 == xxh3_128_of(request.payload@)
            &&& request.producer is None && request.atomic_group is None
                ==> append.payload_digest.0 == 0
        }),
{
}

/// A leader's or an object acknowledgement stands for one copy, a quorum's for what
/// the partition keeps in sync, and that of all replicas for every copy; where the
/// partition keeps at least one in sync and no more than it has, a stronger
/// acknowledgement never stands for fewer copies.
pub proof fn stronger_acknowledgements_need_no_fewer_copies(
    policy: PartitionReplicationPolicy,
    leader: u32,
    object: u32,
    quorum: u32,
    all: u32,
)
    requires
        call_ensures(required_replicas, (Durability::Leader, &policy), leader),
        call_ensures(required_replicas, (Durability::Object, &policy), object),
        call_ensures(required_replicas, (Durability::Quorum, &policy), quorum),
        call_ensures(required_replicas, (Durability::AllReplicas, &policy), all),
    ensures
        leader == 1,
        object == 1,
        quorum == policy.min_in_sync_replicas,
        all == policy.replication_factor,
        1 <= policy.min_in_sync_replicas <= policy.replication_factor ==> leader <= quorum <= all,
{
}

/// An append is acknowledged only when the coordinator took it, replication had no
/// error, the required copies are durable, and the object copy is there if one was
/// asked for; then it is always acknowledged, with the coordinator's receipt.
pub proof fn acknowledgements_are_earned(
    completing: Completing,
    durability: Durability,
    completed: EngineResult<AppendResponse>,
    result: EngineResult<AppendResponse>,
)
    requires
        call_ensures(Completing::completed, (completing, durability, completed), result),
    ensures
        result is Ok <==> {
            &&& completed is Ok
            &&& completing.replication_error is None
            &&& completing.durability.durable_replicas >= completing.write.required_replicas
            &&& durability == Durability::Object ==> completing.durability.object_durable
        },
        result is Ok ==> result->Ok_0 == completed->Ok_0,
        completed is Ok && completing.replication_error is None
            && completing.durability.durable_replicas < completing.write.required_replicas ==> (
        result matches Err(error) && error@ == (Fault::DurabilityUnavailable {
            required_replicas: completing.write.required_replicas,
            durable_replicas: completing.durability.durable_replicas,
        })),
{
}

/// A fresh place is written, for as many copies as its acknowledgement stands for;
/// followers are asked before the write exactly when more than one copy is needed and
/// there is a transport, and then for all copies but the leader's own.
pub proof fn places_are_written(
    append: AdmittedAppend,
    has_replication: bool,
    outcome: ReserveOutcome,
    next: AfterReserve,
    required: u32,
)
    requires
        outcome is Reserved,
        call_ensures(after_reserve, (&append, has_replication, outcome), next),
        call_ensures(
            required_replicas,
            (append.durability, &outcome->Reserved_replication_policy),
            required,
        ),
    ensures
        next is Write,
        next->Write_0.reservation == outcome->reservation,
        next->Write_0.producer == outcome->Reserved_producer,
        next->Write_0.required_replicas == required,
        next->Write_0.replicate_first is Some <==> has_replication && required > 1,
        next->Write_0.replicate_first matches Some(followers) ==> followers + 1 == required,
{
}

/// A batch that is offered again is never written again. It is answered with its
/// receipt at once only if it has the copies that its acknowledgement stands for, and
/// the object copy if one was asked for; without a transport it is refused otherwise.
pub proof fn retries_are_not_written_again(
    append: AdmittedAppend,
    has_replication: bool,
    outcome: ReserveOutcome,
    next: AfterReserve,
    required: u32,
)
    requires
        outcome is Duplicate,
        call_ensures(after_reserve, (&append, has_replication, outcome), next),
        call_ensures(
            required_replicas,
            (append.durability, &outcome->Duplicate_replication_policy),
            required,
        ),
    ensures
        next !is Write,
        next matches AfterReserve::Finished(Ok(response)) ==> {
            &&& response == outcome->response
            &&& outcome->durable_replicas >= required
            &&& append.durability == Durability::Object ==> outcome->object_durable
        },
        append.durability == Durability::Object && !outcome->object_durable ==> (
        next matches AfterReserve::Finished(Err(error)) && error@
            == Fault::ObjectDurabilityUnavailable),
        !has_replication ==> next is Finished,
        !has_replication && outcome->durable_replicas >= required && (append.durability
            == Durability::Object ==> outcome->object_durable) ==> next == AfterReserve::Finished(
            Ok(outcome->response),
        ),
        next matches AfterReserve::Resend(resend) ==> {
            &&& has_replication
            &&& resend.response == outcome->response
            &&& resend.required_replicas == required
            &&& resend.reservation.batch_id == outcome->response.batch_id
            &&& resend.reservation.first_offset == outcome->response.first_offset
            &&& resend.reservation.last_offset == outcome->response.last_offset
            &&& resend.reservation.placement == outcome->response.placement
            &&& resend.reservation.record_count == append.record_count
            &&& resend.reservation.topic_id == append.topic_partition.topic_id
            &&& resend.reservation.partition_id == append.topic_partition.partition_id
            &&& outcome->durable_replicas < required ==> resend.followers + 1 == required
                || required <= 1
        },
        has_replication && outcome->durable_replicas < required && !(append.durability
            == Durability::Object && !outcome->object_durable) ==> next is Resend,
{
}

/// A batch that was sent again counts its leader and the followers that answered, and
/// is acknowledged exactly when that is enough.
pub proof fn resent_batches_count_their_copies(
    resend: Resend,
    followers: u32,
    reached: u32,
    recorded: EngineResult<()>,
    result: EngineResult<AppendResponse>,
)
    requires
        call_ensures(Resend::reached, (&resend, followers), reached),
        call_ensures(Resend::recorded, (resend, reached, recorded), result),
        followers < u32::MAX,
    ensures
        reached == followers + 1,
        result is Ok <==> recorded is Ok && followers + 1 >= resend.required_replicas,
        result is Ok ==> result->Ok_0 == resend.response,
        recorded is Err ==> result == Err::<AppendResponse, _>(recorded->Err_0),
{
}

/// Replication that could not be started keeps the append from being acknowledged; so
/// does a write that failed. Where there is no transport, the local copies count.
pub proof fn failed_starts_are_told(
    write: LocalWrite,
    has_replication: bool,
    begun: Option<EngineResult<()>>,
    writing: Writing,
    stored: Result<AppendDurability, AppendFailure>,
    next: AfterWrite,
)
    requires
        begun is Some <==> write.replicate_first is Some,
        call_ensures(LocalWrite::begin, (write, has_replication, begun), writing),
        call_ensures(Writing::written, (writing, stored), next),
    ensures
        writing.write == write,
        stored is Err ==> next == AfterWrite::Fail(stored->Err_0),
        stored is Ok && begun is Some && begun->0 is Err ==> (next matches AfterWrite::Complete(
            completing,
        ) && completing.replication_error == Some(begun->0->Err_0) && completing.write == write),
        stored is Ok && begun is Some && begun->0 is Ok ==> (next matches AfterWrite::Replicate(
            replicating,
        ) && replicating.started && replicating.write == write && replicating.durability
            == stored->Ok_0),
        stored is Ok && begun is None && has_replication ==> (next matches AfterWrite::Replicate(
            replicating,
        ) && !replicating.started && replicating.write == write && replicating.durability
            == stored->Ok_0),
        stored is Ok && begun is None && !has_replication ==> (next matches AfterWrite::Complete(
            completing,
        ) && completing.replication_error is None && completing.write == write
            && completing.durability == stored->Ok_0),
{
}

/// Followers that answered are counted with the local copies, and only they.
pub proof fn followers_are_counted(
    replicating: Replicating,
    remote: EngineResult<u32>,
    completing: Completing,
)
    requires
        call_ensures(Replicating::replicated, (replicating, remote), completing),
    ensures
        completing.write == replicating.write,
        completing.durability.object_durable == replicating.durability.object_durable,
        completing.durability.durable_replicas >= replicating.durability.durable_replicas,
        remote is Ok && replicating.durability.durable_replicas + remote->Ok_0 <= u32::MAX
            ==> completing.durability.durable_replicas == replicating.durability.durable_replicas
            + remote->Ok_0 && completing.replication_error is None,
        remote is Err ==> completing.replication_error == Some(remote->Err_0)
            && completing.durability == replicating.durability,
{
}

/// The coordinator is told of the batch that was written, for the producer and payload
/// of the append, with the copies that storage and followers reported; the receipt
/// names the batch's place.
pub proof fn completions_tell_what_was_written(
    completing: Completing,
    append: AdmittedAppend,
    record_id: RecordId,
    completion: CompleteAppend,
)
    requires
        call_ensures(Completing::completion, (&completing, &append, record_id), completion),
    ensures
        ({
            let reservation = completing.write.reservation;
            &&& completion.reservation == reservation
            &&& completion.producer == append.producer
            &&& completion.payload_digest == append.payload_digest
            &&& completion.durable_replicas == completing.durability.durable_replicas
            &&& completion.object_durable == completing.durability.object_durable
            &&& completion.response.request_id == append.request_id
            &&& completion.response.record_id == record_id
            &&& completion.response.batch_id == reservation.batch_id
            &&& completion.response.first_offset == reservation.first_offset
            &&& completion.response.last_offset == reservation.last_offset
            &&& completion.response.placement == reservation.placement
        }),
{
}

/// Followers get the batch as it was asked for: the bytes and context of the request,
/// its producer and group, its digest, and the place that was reserved.
pub proof fn followers_get_the_request(
    request: AppendRequest,
    append: AdmittedAppend,
    reservation: Reservation,
    replica: ReplicaAppend,
)
    requires
        call_ensures(replica_append, (&request, &append, reservation), replica),
    ensures
        replica.payload@ == request.payload@,
        replica.reservation == reservation,
        replica.producer == append.producer,
        replica.atomic_group == append.atomic_group,
        replica.payload_digest == append.payload_digest,
        replica.extension_context is Some <==> request.extension_context is Some,
        request.extension_context is Some ==> replica.extension_context->0@
            == request.extension_context->0@,
{
}

/// A failed append is never answered with success.
pub proof fn failures_are_answered(
    failure: AppendFailure,
    recorded: EngineResult<()>,
    result: EngineResult<AppendResponse>,
)
    requires
        call_ensures(AppendFailure::failed, (failure, recorded), result),
    ensures
        result is Err,
        recorded is Ok ==> result->Err_0 == failure.error,
        recorded is Err ==> result->Err_0 == recorded->Err_0,
{
}

} // verus!
