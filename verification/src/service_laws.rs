//! What the parts around the log hand on to one another.
use std::collections::VecDeque;
use vstd::prelude::*;

use crate::batch_set::CommittedBatchSet;
use crate::client::{Client, ClientConfig, ClientError, LogicalConsumer, ProducerTuning};
use crate::config::{EngineConfig, PartitionReplicationPolicy, TopicConfig};
use crate::control::{LeaseCoordinator, LeaseProposal, PendingLease};
use crate::coordinator::check_producer;
use crate::dispatch::Coordinator;
use crate::engine::{first_error, topic_ring};
use crate::error::{EngineError, EngineResult, Fault};
use crate::fetch_session::{FetchCompletion, FetchSession};
use crate::ids::{BatchId, LogicalPartitionId, ShardId, TopicId, TopicPartition};
use crate::journal::partition_key;
use crate::lease::{BlossomLeaseCertificate, ControlFault, ControlResult, FinalizedLease};
use crate::log_laws::copies_are_only_added;
use crate::partition::{BatchStatus, PartitionState};
use crate::protocol::{
    AppendRequest, AppendResponse, PayloadDigest, ProducerIdentity, StoredBatch,
    StoredBatchMetadata,
};
use crate::sequencer::Reservation;
use crate::time::Duration;
use crate::topology::AssignmentProvider;
use crate::wire::{ensure_local, resolve_legacy_topic, route_append, Status, TopicRouteError};
use crate::worker::AppendGroupTuner;

verus! {

/// A producer that a partition never saw may start only at zero, and one that it saw only
/// where it stopped, in an epoch that is not older.
pub proof fn producers_are_checked(
    state: PartitionState,
    request_id: u128,
    claim: ProducerIdentity,
    record_count: u32,
    payload_digest: PayloadDigest,
    result: EngineResult<Option<(AppendResponse, u32, bool)>>,
)
    requires
        call_ensures(
            check_producer,
            (&state, request_id, Some(claim), record_count, payload_digest),
            result,
        ),
    ensures
        !state@.producers.contains_key(claim.producer_id) ==> {
            &&& claim.first_sequence == 0 ==> result == Ok::<
                Option<(AppendResponse, u32, bool)>,
                EngineError,
            >(None)
            &&& claim.first_sequence != 0 ==> result is Err && result->Err_0@ == (
            Fault::ProducerSequenceOutOfOrder {
                producer_id: claim.producer_id,
                expected: 0,
                received: claim.first_sequence,
            })
        },
        state@.producers.contains_key(claim.producer_id) && result is Ok ==> claim.epoch
            >= state@.producers[claim.producer_id].epoch,
        state@.producers.contains_key(claim.producer_id) && result == Ok::<
            Option<(AppendResponse, u32, bool)>,
            EngineError,
        >(None) ==> claim.first_sequence == state@.producers[claim.producer_id].next_sequence,
        result matches Ok(Some(told)) ==> told.0.request_id == request_id,
{
}

/// A topic's partitions get the ring that it names, or a lane for each of the engine's; a
/// topic without partitions is refused.
pub proof fn topics_get_their_ring(
    config: EngineConfig,
    topic: TopicConfig,
    policy: PartitionReplicationPolicy,
    result: EngineResult<Vec<ShardId>>,
)
    requires
        call_ensures(topic_ring, (&config, &topic, &policy), result),
    ensures
        topic.partitions == 0 ==> result is Err,
        result matches Ok(ring) ==> {
            &&& topic.shards matches Some(shards) ==> ring@ == shards@
            &&& topic.shards is None ==> ring@.len() == config.virtual_lane_count && forall|i: int|
                0 <= i < ring@.len() ==> (#[trigger] ring@[i]).0 == i
        },
{
}

/// A barrier succeeds exactly when every shard and the journal did; otherwise it tells an
/// error of one of them.
pub proof fn barriers_need_everybody(
    results: Vec<EngineResult<()>>,
    journal: EngineResult<()>,
    result: EngineResult<()>,
    index: int,
)
    requires
        call_ensures(first_error, (results, journal), result),
    ensures
        result is Ok && 0 <= index < results@.len() ==> results@[index] is Ok,
        result is Ok ==> journal is Ok,
        journal is Err ==> result is Err,
        0 <= index < results@.len() && results@[index] is Err ==> result is Err,
        result is Err ==> result == journal || results@.contains(result),
{
    if result is Ok && 0 <= index < results@.len() {
        assert(results@[index] is Ok);
    }
}

/// A fetch takes each shard's plan once, and keeps it as the shard gave it.
pub proof fn plans_are_collected_once(
    session: &mut FetchSession,
    lane: usize,
    plan: Vec<StoredBatchMetadata>,
    result: EngineResult<()>,
    again: &mut FetchSession,
    more: Vec<StoredBatchMetadata>,
    second: EngineResult<()>,
    other: int,
)
    requires
        old(session).wf(),
        call_ensures(
            FetchSession::collect_plan,
            (session, (FetchCompletion::Plan { lane, result: Ok(plan) })),
            result,
        ),
        *old(again) == *final(session),
        call_ensures(
            FetchSession::collect_plan,
            (again, (FetchCompletion::Plan { lane, result: Ok(more) })),
            second,
        ),
        0 <= other < old(session).plans@.len(),
        other != lane,
    ensures
        result is Ok ==> lane < old(session).plans@.len() && final(session).plans@[lane as int]
            == plan,
        result is Ok ==> final(session).plans@[other] == old(session).plans@[other],
        result is Ok ==> second is Err && *final(again) == *final(session),
        result is Ok <==> lane < old(session).plans@.len() && !old(session).planned@[lane as int],
{
}

/// A fetch takes what each shard read once, and keeps it as the shard gave it.
pub proof fn reads_are_collected_once(
    session: &mut FetchSession,
    lane: usize,
    batches: VecDeque<StoredBatch>,
    result: EngineResult<()>,
    other: int,
)
    requires
        old(session).wf(),
        call_ensures(
            FetchSession::collect_read,
            (session, (FetchCompletion::Read { lane, result: Ok(batches) })),
            result,
        ),
        0 <= other < old(session).batches@.len(),
        other != lane,
    ensures
        result is Ok ==> final(session).batches@[lane as int] == batches,
        result is Ok ==> final(session).batches@[other] == old(session).batches@[other],
        result is Ok <==> lane < old(session).batches@.len() && !old(session).read@[lane as int],
        result is Err ==> *final(session) == *old(session),
{
}

/// Word of more copies raises the count of its batch and no other.
pub proof fn coordinators_count_copies(
    coordinator: &mut Coordinator,
    topic_partition: TopicPartition,
    reservation: Reservation,
    durable_replicas: u32,
    result: EngineResult<()>,
    other: BatchId,
)
    requires
        call_ensures(
            Coordinator::record_durable_replicas,
            (coordinator, topic_partition, reservation, durable_replicas),
            result,
        ),
        result is Ok,
        other != reservation.batch_id,
    ensures
        ({
            let before = old(coordinator)@[partition_key(topic_partition)];
            let after = final(coordinator)@[partition_key(topic_partition)];
            let id = reservation.batch_id;
            &&& after.batch(id).durable_replicas >= durable_replicas
            &&& after.batch(id).durable_replicas >= before.batch(id).durable_replicas
            &&& before.retains(other) ==> after.batch(other) == before.batch(other)
        }),
{
    copies_are_only_added(
        old(coordinator)@[partition_key(topic_partition)],
        reservation,
        durable_replicas,
        other,
        (0, 0),
    );
}

/// Of the batches that a fetch asks about, exactly the committed ones are visible, and the
/// open ones too where those are asked for; aborted and pending ones never are.
pub proof fn committed_batches_are_visible(
    coordinator: Coordinator,
    topic_partition: TopicPartition,
    candidates: Vec<BatchId>,
    include_unresolved: bool,
    set: CommittedBatchSet,
    index: int,
)
    requires
        coordinator@.contains_key(partition_key(topic_partition)),
        call_ensures(
            Coordinator::committed_candidates,
            (&coordinator, topic_partition, &candidates, include_unresolved),
            Ok::<CommittedBatchSet, EngineError>(set),
        ),
        0 <= index < candidates@.len(),
        coordinator@[partition_key(topic_partition)].retains(candidates@[index]),
    ensures
        ({
            let status = coordinator@[partition_key(topic_partition)].batch(
                candidates@[index],
            ).status;
            let visible = set@.contains(candidates@[index].0);
            &&& status == BatchStatus::Committed ==> visible
            &&& status == BatchStatus::Unresolved ==> visible == include_unresolved
            &&& status == BatchStatus::Aborted ==> !visible
            &&& status == BatchStatus::Pending ==> !visible
        }),
{
    let id = candidates@[index].0;
    assert(candidates@.contains(BatchId(id)));
    assert(BatchId(id) == candidates@[index]);
}

/// A lease that was put in force is the partition's lease, and admits writes of its epoch
/// on its own node until it expires.
pub proof fn leases_in_force_admit_writes(
    coordinator: &mut LeaseCoordinator,
    pending: PendingLease,
    lease: FinalizedLease,
    found: Option<FinalizedLease>,
    now: u64,
    admitted: ControlResult<()>,
)
    requires
        final(coordinator).wf(),
        call_ensures(LeaseCoordinator::activate, (coordinator, pending), lease),
        call_ensures(
            LeaseCoordinator::lease,
            (final(coordinator), lease.claim.topic_partition),
            found,
        ),
        call_ensures(
            LeaseCoordinator::check_write,
            (
                final(coordinator),
                lease.claim.topic_partition,
                lease.claim.leader_epoch,
                now,
            ),
            admitted,
        ),
    ensures
        lease == pending.lease,
        found is Some,
        found->0@ == lease@,
        admitted is Ok <==> lease.claim.leader_id == old(coordinator).spec_config().node_id && now
            < lease.claim.expires_at_unix_ms,
{
}

/// A certificate that was accepted makes a lease of the claim that was proposed; one for a
/// partition whose lease has changed since the proposal is not accepted.
pub proof fn certified_claims_become_leases(
    coordinator: LeaseCoordinator,
    proposal: LeaseProposal,
    certificate: BlossomLeaseCertificate,
    result: ControlResult<PendingLease>,
    present: Option<FinalizedLease>,
)
    requires
        call_ensures(
            LeaseCoordinator::lease,
            (&coordinator, proposal.claim.topic_partition),
            present,
        ),
        call_ensures(
            LeaseCoordinator::certify,
            (&coordinator, &proposal, certificate),
            result,
        ),
    ensures
        result matches Ok(pending) ==> {
            &&& pending.lease.claim@ == proposal.claim@
            &&& pending.lease.certificate@ == certificate@
            &&& present is Some <==> proposal.previous is Some
            &&& present is Some ==> present->0@ == proposal.previous->0@
        },
        (present is Some) != (proposal.previous is Some) ==> result is Err && (
        result->Err_0@ == ControlFault::ConcurrentLeaseChange || result->Err_0@
            is InvalidCertificate),
{
}

/// An append goes on only at its partition's leader; it keeps the leader epoch that it
/// has, gets one where it has none, and is otherwise unchanged.
pub proof fn appends_go_on_at_their_leader<A: AssignmentProvider>(
    assignments: A,
    request: AppendRequest,
    result: Result<AppendRequest, Status>,
    local: Result<(), Status>,
)
    requires
        call_ensures(route_append::<A>, (&assignments, request), result),
        call_ensures(
            ensure_local::<A>,
            (
                &assignments,
                TopicPartition {
                    topic_id: request.topic_id,
                    partition_id: request.partition_id,
                },
            ),
            local,
        ),
    ensures
        local is Err ==> result is Err && result->Err_0@ == local->Err_0@,
        result matches Ok(routed) ==> {
            &&& local is Ok
            &&& routed.leader_epoch is Some
            &&& request.leader_epoch is Some ==> routed.leader_epoch == request.leader_epoch
            &&& routed.request_id == request.request_id
            &&& routed.topic_id == request.topic_id
            &&& routed.partition_id == request.partition_id
            &&& routed.record_count == request.record_count
            &&& routed.payload == request.payload
            &&& routed.durability == request.durability
            &&& routed.producer == request.producer
            &&& routed.atomic_group == request.atomic_group
        },
{
}

/// A topic that has moved is replaced by the one that it is at; one that has not is kept,
/// and one that cannot be resolved is left alone and answered with the reason.
pub proof fn moved_topics_are_followed(
    topic_id: &mut TopicId,
    resolved: Result<Option<TopicPartition>, TopicRouteError>,
    result: Result<(), Status>,
)
    requires
        call_ensures(resolve_legacy_topic, (resolved, topic_id), result),
    ensures
        result is Ok <==> resolved is Ok,
        resolved matches Ok(Some(physical)) ==> *final(topic_id) == physical.topic_id,
        resolved matches Ok(None) ==> *final(topic_id) == *old(topic_id),
        resolved is Err ==> *final(topic_id) == *old(topic_id) && result->Err_0.message
            == resolved->Err_0.message,
{
}

/// A consumer by cursor starts without one, in the partition that it was made for.
pub proof fn logical_consumers_start_without_a_cursor(
    client: Client,
    topic_id: TopicId,
    partition_id: LogicalPartitionId,
    consumer: LogicalConsumer,
)
    requires
        call_ensures(Client::logical_consumer, (&client, topic_id, partition_id), consumer),
    ensures
        consumer.topic_id == topic_id,
        consumer.partition_id == partition_id,
        consumer.cursor is None,
        consumer.binding is None,
{
}

/// A client takes the tuning and the credential of its surroundings, and fails with the
/// tuning's own error.
pub proof fn clients_take_their_surroundings(
    tuning: Result<ProducerTuning, ClientError>,
    token: Option<String>,
    result: Result<ClientConfig, ClientError>,
)
    requires
        call_ensures(ClientConfig::from_parts, (tuning, token), result),
    ensures
        result is Ok <==> tuning is Ok,
        result matches Ok(config) ==> config.producer == tuning->Ok_0 && config.admin_token
            == token,
        result is Err ==> result->Err_0 == tuning->Err_0,
{
}

/// A group starts with the wait that was learned, or with the shortest one after a rest;
/// what was learned from a group is kept for the next.
pub proof fn waits_are_learned(
    tuner: &mut AppendGroupTuner,
    now: u64,
    linger: Duration,
    finished: &mut AppendGroupTuner,
    group_len: usize,
)
    requires
        call_ensures(AppendGroupTuner::begin_group, (tuner, now), linger),
        call_ensures(AppendGroupTuner::complete_group, (finished, now, group_len), ()),
    ensures
        linger == final(tuner).linger,
        old(tuner).rested(now) ==> linger == old(tuner).min_linger,
        !old(tuner).rested(now) ==> linger == old(tuner).linger,
        final(tuner).min_linger == old(tuner).min_linger,
        final(tuner).max_linger == old(tuner).max_linger,
        final(finished).last_group_completed == Some(now),
        final(finished).min_linger == old(finished).min_linger,
        final(finished).max_linger == old(finished).max_linger,
{
}

} // verus!
