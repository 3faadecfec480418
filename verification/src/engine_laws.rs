//! What callers of the engine, its readers and its settings may count on.
use vstd::prelude::*;

use crate::config::{EngineConfig, PartitionReplicationPolicy, COMMAND_OVERHEAD_BYTES};
use crate::engine::{
    atomic_group_sequence, check_catalog, check_open, check_retained_start, check_topic_policy,
    count_retained, counts_on, payload_total, policy_conflict, recovered_stretch, replay_budget,
    replica_planned, resend_stored, retained_budget, same_place, shard_for_lane,
    RecoveredStretch, ReplicaAppendPlan,
};
use crate::error::{EngineResult, Fault};
use crate::fetch::FetchedBatch;
use crate::fetch_session::{
    fetch_budget, fetch_end, present, present_all, visibility_mode, FetchSession,
};
use crate::ids::{
    BatchId, LogicalOffset, LogicalPartitionId, RecordId, ShardId, TopicId, TopicPartition,
};
use crate::partition::{FetchBounds, PartitionModel, PartitionWatermarks, VisibilityMode};
use crate::protocol::{
    AtomicGroupIdentity, AtomicGroupSequence, ExtentCatalogEntry, FetchMode, FetchRequest,
    PayloadDigest, ReplicaAppend, StoredBatch, StoredBatchMetadata,
};

verus! {

/// Settings are accepted exactly when every limit is set and none contradicts another:
/// the replicas fit, and the queues hold the largest batch and the largest fetch with
/// the overhead of a command.
pub proof fn settings_are_accepted_when_they_fit(config: EngineConfig, result: EngineResult<()>)
    requires
        call_ensures(EngineConfig::validate, (&config,), result),
    ensures
        result is Ok <==> {
            &&& config.shard_count >= 1
            &&& config.virtual_lane_count >= 1
            &&& 1 <= config.min_in_sync_replicas <= config.replication_factor <= 64
            &&& config.queue_slots_per_shard >= 1
            &&& config.queue_bytes_per_shard >= 1
            &&& config.target_pack_bytes >= 1
            &&& config.max_pack_age.nanos >= 1
            &&& config.max_batch_bytes >= 1
            &&& config.max_fetch_bytes >= 1
            &&& config.append_linger.nanos <= 60_000_000_000
            &&& config.max_batch_bytes + COMMAND_OVERHEAD_BYTES <= config.queue_bytes_per_shard
            &&& config.max_fetch_bytes + COMMAND_OVERHEAD_BYTES <= config.queue_bytes_per_shard
        },
        result is Err ==> result->Err_0@ is InvalidConfig,
{
}

/// An engine opens exactly when its settings are accepted and it can replicate as often
/// as they say.
pub proof fn engines_open_when_they_can_replicate(
    config: EngineConfig,
    has_replication: bool,
    accepted: EngineResult<()>,
    result: EngineResult<()>,
)
    requires
        call_ensures(EngineConfig::validate, (&config,), accepted),
        call_ensures(check_open, (&config, has_replication), result),
    ensures
        result is Ok <==> accepted is Ok && (config.replication_factor <= 1 || has_replication),
{
}

/// A policy is accepted exactly when it has a generation, keeps at least one copy in
/// sync and asks for no more copies than there are.
pub proof fn policies_are_accepted_when_they_fit(
    policy: PartitionReplicationPolicy,
    maximum: u32,
    result: EngineResult<()>,
)
    requires
        call_ensures(PartitionReplicationPolicy::validate, (policy, maximum), result),
    ensures
        result is Ok <==> {
            &&& policy.policy_generation >= 1
            &&& 1 <= policy.min_in_sync_replicas <= policy.replication_factor <= 64
            &&& policy.replication_factor <= maximum
        },
        result is Err ==> result->Err_0@ is InvalidConfig,
{
}

/// Shards and lanes are numbered from zero, each once; a lane is served by a shard that
/// exists, and lanes that lie a whole round apart by the same one.
pub proof fn lanes_have_shards(
    config: EngineConfig,
    shards: Vec<ShardId>,
    lanes: Vec<ShardId>,
    lane: ShardId,
    shard: ShardId,
    next: ShardId,
    shard_of_next: ShardId,
    index: int,
)
    requires
        config.shard_count > 0,
        call_ensures(EngineConfig::shard_ids, (&config,), shards),
        call_ensures(EngineConfig::virtual_lane_ids, (&config,), lanes),
        call_ensures(EngineConfig::physical_shard_for_lane, (&config, lane), shard),
        call_ensures(EngineConfig::physical_shard_for_lane, (&config, next), shard_of_next),
        next.0 == lane.0 + config.shard_count,
    ensures
        shards@.len() == config.shard_count,
        lanes@.len() == config.virtual_lane_count,
        0 <= index < config.shard_count ==> shards@[index].0 == index,
        0 <= index < config.virtual_lane_count ==> lanes@[index].0 == index,
        shard.0 < config.shard_count,
        lane.0 < config.shard_count ==> shard == lane,
        shard_of_next == shard,
{
    assert((lane.0 as int + config.shard_count as int) % config.shard_count as int == lane.0 as int
        % config.shard_count as int) by (nonlinear_arith)
        requires
            config.shard_count > 0,
    ;
    if lane.0 < config.shard_count {
        vstd::arithmetic::div_mod::lemma_small_mod(lane.0 as nat, config.shard_count as nat);
    }
}

/// A lane is handed to the shard that serves it, which is where a list of all shards
/// has it.
pub proof fn lanes_are_handed_to_their_shard(
    config: EngineConfig,
    shards: Vec<ShardId>,
    lane: ShardId,
    shard: ShardId,
    result: EngineResult<usize>,
)
    requires
        config.shard_count > 0,
        call_ensures(EngineConfig::shard_ids, (&config,), shards),
        call_ensures(EngineConfig::physical_shard_for_lane, (&config, lane), shard),
        call_ensures(shard_for_lane, (&config, &shards, lane), result),
    ensures
        result is Ok,
        result->Ok_0 == shard.0,
{
}

/// A partition that was given no policy gets the engine's own copies.
pub proof fn default_policies_use_the_engines_copies(
    config: EngineConfig,
    policy: PartitionReplicationPolicy,
)
    requires
        call_ensures(EngineConfig::default_replication_policy, (&config,), policy),
    ensures
        policy.replication_factor == config.replication_factor,
        policy.min_in_sync_replicas == config.min_in_sync_replicas,
        policy.policy_generation >= 1,
{
}

/// A catalog is accepted exactly when no two entries stand for the same batch of the
/// same partition.
pub proof fn catalogs_hold_each_batch_once(
    catalog: Vec<ExtentCatalogEntry>,
    result: EngineResult<()>,
    one: int,
    other: int,
)
    requires
        call_ensures(check_catalog, (&catalog,), result),
        0 <= one < other < catalog@.len(),
        catalog@[one].reservation.topic_id == catalog@[other].reservation.topic_id,
        catalog@[one].reservation.partition_id == catalog@[other].reservation.partition_id,
        catalog@[one].reservation.batch_id == catalog@[other].reservation.batch_id,
    ensures
        result is Err,
        result->Err_0@ is CorruptState,
{
    assert(same_place(catalog@[one], catalog@[other]));
}

/// A catalog that is refused does hold a batch twice.
pub proof fn catalogs_are_refused_for_a_reason(
    catalog: Vec<ExtentCatalogEntry>,
    result: EngineResult<()>,
)
    requires
        call_ensures(check_catalog, (&catalog,), result),
        result is Err,
    ensures
        exists|one: int, other: int|
            0 <= one < other < catalog@.len() && (#[trigger] catalog@[one]).reservation.topic_id
                == (#[trigger] catalog@[other]).reservation.topic_id
                && catalog@[one].reservation.partition_id
                == catalog@[other].reservation.partition_id && catalog@[one].reservation.batch_id
                == catalog@[other].reservation.batch_id,
{
    let index = choose|index: int| #[trigger]
        crate::engine::first_repeat(catalog@, index) && result->Err_0@ == Fault::CorruptState(
            "batch "@ + crate::text::decimal(catalog@[index].reservation.batch_id.0 as nat)
                + " appears in more than one extent"@,
        );
    let i = choose|i: int| 0 <= i < index && same_place(#[trigger] catalog@[i], catalog@[index]);
    assert(same_place(catalog@[i], catalog@[index]));
}

/// A topic's policy is changed only where every partition has the policy already or is
/// at the expected generation, and only to a newer one that fits the engine.
pub proof fn topic_policies_change_together(
    config: EngineConfig,
    topic_id: TopicId,
    partitions: Vec<(LogicalPartitionId, PartitionReplicationPolicy)>,
    expected: u64,
    policy: PartitionReplicationPolicy,
    accepted: EngineResult<()>,
    result: EngineResult<()>,
)
    requires
        call_ensures(
            PartitionReplicationPolicy::validate,
            (policy, config.replication_factor),
            accepted,
        ),
        call_ensures(
            check_topic_policy,
            (&config, topic_id, &partitions, expected, policy),
            result,
        ),
    ensures
        result is Ok <==> {
            &&& accepted is Ok
            &&& policy.policy_generation > expected
            &&& partitions@.len() > 0
            &&& forall|i: int|
                0 <= i < partitions@.len() ==> (#[trigger] partitions@[i]).1 == policy
                    || partitions@[i].1.policy_generation == expected
        },
{
    lemma_policy_conflict(partitions@, expected, policy);
}

proof fn lemma_policy_conflict(
    partitions: Seq<(LogicalPartitionId, PartitionReplicationPolicy)>,
    expected: u64,
    policy: PartitionReplicationPolicy,
)
    ensures
        policy_conflict(partitions, expected, policy) is None <==> forall|i: int|
            0 <= i < partitions.len() ==> (#[trigger] partitions[i]).1 == policy
                || partitions[i].1.policy_generation == expected,
    decreases partitions.len(),
{
    if partitions.len() > 0 {
        let rest = partitions.skip(1);
        lemma_policy_conflict(rest, expected, policy);
        if forall|i: int|
            0 <= i < partitions.len() ==> (#[trigger] partitions[i]).1 == policy
                || partitions[i].1.policy_generation == expected {
            assert(partitions[0].1 == policy || partitions[0].1.policy_generation == expected);
            assert forall|i: int| 0 <= i < rest.len() implies (#[trigger] rest[i]).1 == policy
                || rest[i].1.policy_generation == expected by {
                assert(rest[i] == partitions[i + 1]);
            }
        }
        if policy_conflict(partitions, expected, policy) is None {
            assert forall|i: int| 0 <= i < partitions.len() implies (#[trigger] partitions[i]).1
                == policy || partitions[i].1.policy_generation == expected by {
                if i > 0 {
                    assert(rest[i - 1] == partitions[i]);
                }
            }
        }
    }
}

/// The group place of a batch is stored with its group, its number in it and its digest.
pub proof fn group_places_are_stored(
    group: Option<AtomicGroupIdentity>,
    payload_digest: PayloadDigest,
    stored: Option<AtomicGroupSequence>,
)
    requires
        call_ensures(atomic_group_sequence, (group, payload_digest), stored),
    ensures
        stored is Some <==> group is Some,
        group is Some ==> stored->0.transaction_id == group->0.transaction_id
            && stored->0.chunk_sequence == group->0.chunk_sequence && stored->0.payload_digest
            == payload_digest,
{
}

/// A follower that takes a leader's batch answers with the batch's own place and stores
/// the claim and group of the batch.
pub proof fn followers_answer_with_the_place(
    m: PartitionModel,
    batch: ReplicaAppend,
    record_id: RecordId,
)
    requires
        replica_planned(m, batch, record_id).1 matches Ok(ReplicaAppendPlan::Reserved { .. }),
    ensures
        ({
            let plan = replica_planned(m, batch, record_id).1->Ok_0;
            let response = plan->response;
            &&& response.batch_id == batch.reservation.batch_id
            &&& response.first_offset == batch.reservation.first_offset
            &&& response.last_offset == batch.reservation.last_offset
            &&& response.placement == batch.reservation.placement
            &&& response.record_id == record_id
            &&& plan->producer is Some <==> batch.producer is Some
            &&& batch.producer matches Some(claim) ==> {
                &&& plan->producer->0.producer_id == claim.producer_id
                &&& plan->producer->0.epoch == claim.epoch
                &&& plan->producer->0.first_sequence == claim.first_sequence
                &&& plan->producer->0.event_id == claim.event_id
                &&& plan->producer->0.payload_digest == batch.payload_digest
            }
            &&& plan->atomic_group is Some <==> batch.atomic_group is Some
            &&& batch.atomic_group matches Some(group) ==> {
                &&& plan->atomic_group->0.transaction_id == group.transaction_id
                &&& plan->atomic_group->0.chunk_sequence == group.chunk_sequence
            }
        }),
{
}

/// A stored batch that is sent to followers is the batch that was stored: its bytes, its
/// place, its producer's claim with the digest, and its group.
pub proof fn stored_batches_are_resent_whole(stored: StoredBatch, replica: ReplicaAppend)
    requires
        call_ensures(resend_stored, (stored,), replica),
    ensures
        replica.payload@ == stored.payload@,
        replica.reservation == stored.reservation,
        replica.producer is Some <==> stored.producer is Some,
        stored.producer matches Some(claim) ==> {
            &&& replica.producer->0.producer_id == claim.producer_id
            &&& replica.producer->0.epoch == claim.epoch
            &&& replica.producer->0.first_sequence == claim.first_sequence
            &&& replica.producer->0.event_id == claim.event_id
            &&& replica.payload_digest == claim.payload_digest
        },
        replica.atomic_group is Some <==> stored.atomic_group is Some,
        stored.atomic_group matches Some(group) ==> {
            &&& replica.atomic_group->0.transaction_id == group.transaction_id
            &&& replica.atomic_group->0.chunk_sequence == group.chunk_sequence
        },
{
}

/// Recovered batches are handed on in order, each as it was stored, and the next
/// stretch starts right behind the last of them.
pub proof fn stretches_go_on_where_they_ended(
    topic_partition: TopicPartition,
    offset: LogicalOffset,
    stored: Vec<StoredBatch>,
    result: EngineResult<RecoveredStretch>,
    index: int,
)
    requires
        call_ensures(recovered_stretch, (topic_partition, offset, stored), result),
        result is Ok,
        0 <= index < stored@.len(),
    ensures
        result->Ok_0.batches@.len() == stored@.len(),
        result->Ok_0.batches@[index].reservation == stored@[index].reservation,
        result->Ok_0.batches@[index].payload@ == stored@[index].payload@,
        result->Ok_0.next.0 == stored@[stored@.len() - 1].reservation.last_offset.0 + 1,
{
    assert(crate::engine::resent(stored@[index], result->Ok_0.batches@[index]));
}

/// Counting nothing changes nothing. Each batch more adds its bytes and moves the next
/// offset right behind it.
pub proof fn retained_bytes_add_up(
    bytes: u64,
    offset: LogicalOffset,
    batches: Vec<(LogicalOffset, u64)>,
    result: EngineResult<(u64, LogicalOffset)>,
    more: Vec<(LogicalOffset, u64)>,
    batch: (LogicalOffset, u64),
    result_of_more: EngineResult<(u64, LogicalOffset)>,
)
    requires
        call_ensures(count_retained, (bytes, offset, &batches), result),
        call_ensures(count_retained, (bytes, offset, &more), result_of_more),
        more@ == batches@.push(batch),
    ensures
        batches@.len() == 0 ==> result is Ok && result->Ok_0.0 == bytes && result->Ok_0.1
            == offset,
        result is Ok && result_of_more is Ok ==> result_of_more->Ok_0.0 == result->Ok_0.0
            + batch.1,
        result_of_more is Ok ==> result_of_more->Ok_0.1.0 == batch.0.0 + 1,
        result is Ok && result->Ok_0.0 + batch.1 <= u64::MAX && batch.0.0 < u64::MAX
            ==> result_of_more is Ok,
{
    assert(more@.drop_last() =~= batches@);
    assert(payload_total(more@) == payload_total(batches@) + batch.1);
    if result is Ok && result_of_more is Err && batch.0.0 < u64::MAX {
        if exists|i: int| 0 <= i < more@.len() && (#[trigger] more@[i]).0.0 == u64::MAX {
            let i = choose|i: int| 0 <= i < more@.len() && (#[trigger] more@[i]).0.0 == u64::MAX;
            if i < batches@.len() {
                assert(batches@[i] == more@[i]);
            }
        }
    }
}

/// Bytes are counted from the log start on, up to the stable end, until a fetch finds
/// nothing.
pub proof fn retained_bytes_are_counted_to_the_end(
    watermarks: PartitionWatermarks,
    offset: LogicalOffset,
    result: EngineResult<()>,
    last_found: Option<usize>,
    on: bool,
)
    requires
        call_ensures(check_retained_start, (&watermarks, offset), result),
        call_ensures(counts_on, (&watermarks, offset, last_found), on),
    ensures
        result is Ok <==> watermarks.log_start.0 <= offset.0,
        result is Err ==> result->Err_0@ == (Fault::OffsetOutOfRange {
            requested: offset,
            log_start: watermarks.log_start,
        }),
        offset.0 >= watermarks.last_stable_offset.0 ==> !on,
        last_found == Some(0usize) ==> !on,
        offset.0 < watermarks.last_stable_offset.0 && last_found is None ==> on,
        offset.0 < watermarks.last_stable_offset.0 && last_found is Some && last_found->0 > 0
            ==> on,
{
}

/// The engine's own reads use its whole budget, if a request can carry it.
pub proof fn own_reads_use_the_whole_budget(
    config: EngineConfig,
    replay: EngineResult<u32>,
    retained: EngineResult<u32>,
)
    requires
        call_ensures(replay_budget, (&config,), replay),
        call_ensures(retained_budget, (&config,), retained),
    ensures
        replay is Ok <==> config.max_fetch_bytes <= u32::MAX,
        retained is Ok <==> config.max_fetch_bytes <= u32::MAX,
        replay is Ok ==> replay->Ok_0 == config.max_fetch_bytes,
        retained is Ok ==> retained->Ok_0 == config.max_fetch_bytes,
{
}

/// A fetch is granted exactly what it asks for, or nothing when that is too much.
pub proof fn fetches_get_their_budget(
    config: EngineConfig,
    request: FetchRequest,
    checked: Result<(), String>,
    result: EngineResult<usize>,
)
    requires
        call_ensures(fetch_budget, (&config, &request, checked), result),
    ensures
        result is Ok <==> checked is Ok && request.max_bytes <= config.max_fetch_bytes,
        result is Ok ==> result->Ok_0 == request.max_bytes,
        result is Err ==> result->Err_0@ is InvalidConfig,
{
}

/// Ordinary reads end where ordered data ends, replicated ones where replicated data
/// ends, and only reads that may see open batches go to the end of the log. A wait
/// looks at the same mark as the read that follows it.
pub proof fn reads_end_where_their_mode_ends(
    bounds: FetchBounds,
    mode: FetchMode,
    end: LogicalOffset,
    end_of_all: LogicalOffset,
    waits: EngineResult<VisibilityMode>,
)
    requires
        call_ensures(fetch_end, (&bounds, mode, false), end),
        call_ensures(fetch_end, (&bounds, mode, true), end_of_all),
        call_ensures(visibility_mode, (mode,), waits),
    ensures
        end_of_all == bounds.physical_end,
        mode == FetchMode::Replicated ==> end == bounds.replicated_end && waits == Ok::<
            VisibilityMode,
            crate::error::EngineError,
        >(VisibilityMode::Replicated),
        mode == FetchMode::Ordered ==> end == bounds.ordered_end && waits == Ok::<
            VisibilityMode,
            crate::error::EngineError,
        >(VisibilityMode::Ordered),
        mode == FetchMode::AsAvailable ==> end == bounds.ordered_end && waits is Err,
{
}

/// A reader gets the batch that was stored: its bytes, number, offsets, records, place,
/// group and the producer's identity of the event.
pub proof fn readers_get_what_was_stored(stored: StoredBatch, fetched: FetchedBatch)
    requires
        call_ensures(present, (stored,), fetched),
    ensures
        fetched.payload@ == stored.payload@,
        fetched.batch_id == stored.reservation.batch_id,
        fetched.first_offset == stored.reservation.first_offset,
        fetched.last_offset == stored.reservation.last_offset,
        fetched.record_count == stored.reservation.record_count,
        fetched.placement == stored.reservation.placement,
        stored.producer is None ==> fetched.event_id is None,
        stored.producer matches Some(claim) ==> fetched.event_id == claim.event_id,
        fetched.atomic_group is Some <==> stored.atomic_group is Some,
        stored.atomic_group matches Some(group) ==> {
            &&& fetched.atomic_group->0.transaction_id == group.transaction_id
            &&& fetched.atomic_group->0.chunk_sequence == group.chunk_sequence
        },
{
}

/// Readers get every batch, in the order in which they were read.
pub proof fn readers_get_every_batch(
    stored: Vec<StoredBatch>,
    fetched: Vec<FetchedBatch>,
    index: int,
)
    requires
        call_ensures(present_all, (stored,), fetched),
        0 <= index < stored@.len(),
    ensures
        fetched@.len() == stored@.len(),
        fetched@[index].batch_id == stored@[index].reservation.batch_id,
        fetched@[index].first_offset == stored@[index].reservation.first_offset,
        fetched@[index].last_offset == stored@[index].reservation.last_offset,
        fetched@[index].payload@ == stored@[index].payload@,
{
    assert(crate::fetch_session::presents(stored@[index], fetched@[index]));
}

/// Every batch that a shard planned is a candidate.
pub proof fn candidates_are_what_was_planned(
    session: FetchSession,
    ids: Vec<BatchId>,
    lane: int,
    index: int,
)
    requires
        call_ensures(FetchSession::candidates, (&session,), ids),
        0 <= lane < session.plans@.len(),
        0 <= index < session.plans@[lane]@.len(),
    ensures
        ids@.contains(session.plans@[lane]@[index].reservation.batch_id),
{
    lemma_all_ids(session.plans@, lane, index);
}

proof fn lemma_all_ids(plans: Seq<Vec<StoredBatchMetadata>>, lane: int, index: int)
    requires
        0 <= lane < plans.len(),
        0 <= index < plans[lane]@.len(),
    ensures
        crate::fetch_session::all_ids(plans).contains(plans[lane]@[index].reservation.batch_id),
    decreases plans.len(),
{
    let earlier = crate::fetch_session::all_ids(plans.drop_last());
    let own = crate::fetch_session::plan_ids(plans.last()@);
    let all = crate::fetch_session::all_ids(plans);
    let id = plans[lane]@[index].reservation.batch_id;
    if lane == plans.len() - 1 {
        assert(own[index] == id);
        assert(all[earlier.len() + index] == id);
    } else {
        lemma_all_ids(plans.drop_last(), lane, index);
        let at = choose|at: int| 0 <= at < earlier.len() && earlier[at] == id;
        assert(all[at] == id);
    }
}

} // verus!
