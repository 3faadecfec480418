//! Decisions of the engine around its coordinators, shards and transports.
use vstd::prelude::*;

use crate::append::{AppendDurability, AppendFailure};
use crate::config::{EngineConfig, PartitionReplicationPolicy, TopicConfig};
use crate::coordinator::{
    append_response, producer_sequence, receipt, stored_claim, CompleteAppend, ReserveOutcome,
};
use crate::dispatch::{
    observed_epoch, replica_step, routed, truncate_step, unknown_partition, Coordinator,
    CoordinatorStep, Partitions,
};
use crate::error::{
    agrees, corrupt_state, invalid_config, numbered, numbered2, EngineError, EngineResult, Fault,
};
use crate::fencing::WriteFenceError;
use crate::ids::{LogicalOffset, LogicalPartitionId, RecordId, ShardId, TopicId, TopicPartition};
use crate::journal::{partition_key, ring_obstacle, validate_ring};
use crate::maps::PairMap;
use crate::partition::PartitionWatermarks;
use crate::protocol::{
    AppendResponse, AtomicGroupIdentity, AtomicGroupSequence, ExtentCatalogEntry, PayloadDigest,
    ProducerIdentity, ProducerSequence, ReplicaAppend, StoredBatch,
};
use crate::recover_all::entry_partition;
use crate::recovery::{claim_identity, group_identity};
use crate::sequencer::copy_lanes;
use crate::text::{append_decimal, decimal};

verus! {

broadcast use vstd::std_specs::hash::group_hash_axioms;

/// Counters of a replication transport.
#[derive(Debug, Clone, Copy, PartialEq, Eq, Structural)]
pub struct ReplicationStats {
    pub pending_jobs: u64,
    pub pending_bytes: u64,
    pub max_pending_bytes: u64,
    pub admission_waits: u64,
    pub admission_wait_nanos: u64,
    pub completed_async_jobs: u64,
    pub completed_sync_jobs: u64,
    pub retry_attempts: u64,
    pub failed_jobs: u64,
}

impl Default for ReplicationStats {
    /// Nothing counted yet.
    fn default() -> (stats: Self)
        ensures
            stats == (ReplicationStats {
                pending_jobs: 0,
                pending_bytes: 0,
                max_pending_bytes: 0,
                admission_waits: 0,
                admission_wait_nanos: 0,
                completed_async_jobs: 0,
                completed_sync_jobs: 0,
                retry_attempts: 0,
                failed_jobs: 0,
            }),
    {
        ReplicationStats {
            pending_jobs: 0,
            pending_bytes: 0,
            max_pending_bytes: 0,
            admission_waits: 0,
            admission_wait_nanos: 0,
            completed_async_jobs: 0,
            completed_sync_jobs: 0,
            retry_attempts: 0,
            failed_jobs: 0,
        }
    }
}

/// What keeps an engine with these settings from opening.
pub open spec fn open_obstacle(config: EngineConfig, has_replication: bool) -> Option<Seq<char>> {
    match config.fault() {
        Some(text) => Some(text),
        None => if config.replication_factor > 1 && !has_replication {
            Some(
                "RF>1 requires an injected replication transport; the public engine only provides RF1 storage"@,
            )
        } else {
            None
        },
    }
}

/// Checks the settings of an engine that is about to open.
pub fn check_open(config: &EngineConfig, has_replication: bool) -> (result: EngineResult<()>)
    ensures
        agrees(
            result,
            match open_obstacle(*config, has_replication) {
                Some(text) => Err(Fault::InvalidConfig(text)),
                None => Ok(()),
            },
        ),
{
    match config.validate() {
        Err(error) => {
            return Err(error);
        },
        Ok(()) => {},
    }
    if config.replication_factor > 1 && !has_replication {
        return Err(
            invalid_config(
                "RF>1 requires an injected replication transport; the public engine only provides RF1 storage",
            ),
        );
    }
    Ok(())
}

/// Two catalog entries are about the same batch.
pub open spec fn same_place(one: ExtentCatalogEntry, other: ExtentCatalogEntry) -> bool {
    entry_partition(one) == entry_partition(other) && one.reservation.batch_id
        == other.reservation.batch_id
}

/// The first entry that repeats the batch of an earlier one stands at `index`.
pub open spec fn first_repeat(catalog: Seq<ExtentCatalogEntry>, index: int) -> bool {
    &&& 0 <= index < catalog.len()
    &&& exists|i: int| 0 <= i < index && same_place(#[trigger] catalog[i], catalog[index])
    &&& forall|i: int, j: int|
        0 <= i < j < index ==> !same_place(#[trigger] catalog[i], #[trigger] catalog[j])
}

/// Checks that no batch appears in two extents.
///
/// The batches of a partition are remembered under their numbers.
pub fn check_catalog(catalog: &Vec<ExtentCatalogEntry>) -> (result: EngineResult<()>)
    ensures
        match result {
            Ok(()) => forall|i: int, j: int|
                0 <= i < j < catalog@.len() ==> !same_place(
                    #[trigger] catalog@[i],
                    #[trigger] catalog@[j],
                ),
            Err(error) => exists|index: int| #[trigger]
                first_repeat(catalog@, index) && error@ == Fault::CorruptState(
                    "batch "@ + decimal(catalog@[index].reservation.batch_id.0 as nat)
                        + " appears in more than one extent"@,
                ),
        },
{
    let mut seen: PairMap<PairMap<()>> = PairMap::new();
    let mut index: usize = 0;
    while index < catalog.len()
        invariant
            index <= catalog@.len(),
            forall|i: int, j: int|
                0 <= i < j < index ==> !same_place(#[trigger] catalog@[i], #[trigger] catalog@[j]),
            forall|key: (u128, u128), id: u128| #[trigger]
                remembered(seen@, key, id) <==> exists|i: int|
                    0 <= i < index && stands_at(#[trigger] catalog@[i], key, id),
        decreases catalog@.len() - index,
    {
        let entry = catalog[index];
        let ghost key = partition_key(entry_partition(entry));
        let ghost before = seen@;
        let row: u128 = entry.reservation.topic_id.0;
        let column: u128 = entry.reservation.partition_id.0 as u128;
        let id: u128 = entry.reservation.batch_id.0;
        let mut batches = match seen.remove(row, column) {
            Some(batches) => batches,
            None => PairMap::new(),
        };
        let ghost held = batches@;
        assert(held.contains_key((id, 0)) <==> remembered(before, key, id));
        let repeated = batches.insert(id, 0, ()).is_some();
        seen.insert(row, column, batches);
        proof {
            assert forall|other: (u128, u128), number: u128| #[trigger]
                remembered(seen@, other, number) <==> exists|i: int|
                0 <= i < index + 1 && stands_at(#[trigger] catalog@[i], other, number) by {
                if remembered(seen@, other, number) {
                    if other == key && number == id {
                        assert(stands_at(catalog@[index as int], other, number));
                    } else {
                        assert(remembered(before, other, number));
                    }
                }
                if exists|i: int|
                    0 <= i < index + 1 && stands_at(#[trigger] catalog@[i], other, number) {
                    let i = choose|i: int|
                        0 <= i < index + 1 && stands_at(#[trigger] catalog@[i], other, number);
                    if i < index {
                        assert(remembered(before, other, number));
                    }
                }
            }
            assert forall|i: int| 0 <= i < index implies (same_place(
                #[trigger] catalog@[i],
                entry,
            ) <==> stands_at(catalog@[i], key, id)) by {}
        }
        if repeated {
            proof {
                assert(remembered(before, key, id));
                let i = choose|i: int| 0 <= i < index && stands_at(#[trigger] catalog@[i], key, id);
                assert(same_place(catalog@[i], catalog@[index as int]));
                assert(first_repeat(catalog@, index as int));
            }
            return Err(
                EngineError::CorruptState(
                    numbered("batch ", id, " appears in more than one extent"),
                ),
            );
        }
        proof {
            assert forall|i: int| 0 <= i < index implies !same_place(
                #[trigger] catalog@[i],
                entry,
            ) by {
                if stands_at(catalog@[i], key, id) {
                    assert(remembered(before, key, id));
                }
            }
        }
        index += 1;
    }
    Ok(())
}

/// A batch is among those remembered.
spec fn remembered(seen: Map<(u128, u128), PairMap<()>>, key: (u128, u128), id: u128) -> bool {
    seen.contains_key(key) && seen[key]@.contains_key((id, 0))
}

/// A catalog entry is about a batch.
spec fn stands_at(entry: ExtentCatalogEntry, key: (u128, u128), id: u128) -> bool {
    partition_key(entry_partition(entry)) == key && entry.reservation.batch_id.0 == id
}

/// Checks the creation of a topic and gives the ring of its partitions.
pub fn topic_ring(
    config: &EngineConfig,
    topic: &TopicConfig,
    replication_policy: &PartitionReplicationPolicy,
) -> (result: EngineResult<Vec<ShardId>>)
    ensures
        ({
            let ring = match topic.shards {
                Some(shards) => shards@,
                None => Seq::new(config.virtual_lane_count as nat, |i: int| ShardId(i as u32)),
            };
            let fault = if topic.partitions == 0 {
                Some(Fault::InvalidConfig("topic partitions must be nonzero"@))
            } else if replication_policy.fault(config.replication_factor) is Some {
                Some(
                    Fault::InvalidConfig(replication_policy.fault(config.replication_factor)->0),
                )
            } else {
                ring_obstacle(ring, config.virtual_lane_count)
            };
            match result {
                Ok(shards) => fault is None && shards@ == ring,
                Err(error) => fault == Some(error@),
            }
        }),
{
    if topic.partitions == 0 {
        return Err(invalid_config("topic partitions must be nonzero"));
    }
    match replication_policy.validate(config.replication_factor) {
        Err(error) => {
            return Err(error);
        },
        Ok(()) => {},
    }
    let shards = match &topic.shards {
        Some(shards) => copy_lanes(shards),
        None => config.virtual_lane_ids(),
    };
    match validate_ring(config, &shards) {
        Err(error) => Err(error),
        Ok(()) => Ok(shards),
    }
}

/// A partition that is neither at the new policy nor at the expected generation.
pub open spec fn policy_conflict(
    partitions: Seq<(LogicalPartitionId, PartitionReplicationPolicy)>,
    expected_policy_generation: u64,
    policy: PartitionReplicationPolicy,
) -> Option<Fault>
    decreases partitions.len(),
{
    if partitions.len() == 0 {
        None
    } else {
        let (id, current) = partitions[0];
        if current != policy && current.policy_generation != expected_policy_generation {
            Some(
                Fault::Fenced(
                    "partition "@ + decimal(id.0 as nat) + " policy generation is "@ + decimal(
                        current.policy_generation as nat,
                    ) + ", expected "@ + decimal(expected_policy_generation as nat),
                ),
            )
        } else {
            policy_conflict(partitions.skip(1), expected_policy_generation, policy)
        }
    }
}

/// Checks a policy change of a whole topic before any partition is changed.
pub fn check_topic_policy(
    config: &EngineConfig,
    topic_id: TopicId,
    partitions: &Vec<(LogicalPartitionId, PartitionReplicationPolicy)>,
    expected_policy_generation: u64,
    policy: PartitionReplicationPolicy,
) -> (result: EngineResult<()>)
    ensures
        agrees(
            result,
            if policy.fault(config.replication_factor) is Some {
                Err(Fault::InvalidConfig(policy.fault(config.replication_factor)->0))
            } else if policy.policy_generation <= expected_policy_generation {
                Err(Fault::InvalidConfig("replication policy generation must advance"@))
            } else if partitions@.len() == 0 {
                Err(
                    unknown_partition(
                        TopicPartition { topic_id, partition_id: LogicalPartitionId(0) },
                    ),
                )
            } else {
                match policy_conflict(partitions@, expected_policy_generation, policy) {
                    Some(fault) => Err(fault),
                    None => Ok(()),
                }
            },
        ),
{
    match policy.validate(config.replication_factor) {
        Err(error) => {
            return Err(error);
        },
        Ok(()) => {},
    }
    if policy.policy_generation <= expected_policy_generation {
        return Err(invalid_config("replication policy generation must advance"));
    }
    if partitions.len() == 0 {
        return Err(
            EngineError::UnknownPartition { topic_id, partition_id: LogicalPartitionId(0) },
        );
    }
    let mut index: usize = 0;
    proof {
        assert(partitions@.skip(0) =~= partitions@);
    }
    while index < partitions.len()
        invariant
            index <= partitions@.len(),
            policy.fault(config.replication_factor) is None,
            policy.policy_generation > expected_policy_generation,
            partitions@.len() > 0,
            policy_conflict(partitions@, expected_policy_generation, policy) == policy_conflict(
                partitions@.skip(index as int),
                expected_policy_generation,
                policy,
            ),
        decreases partitions@.len() - index,
    {
        let (id, current) = partitions[index];
        proof {
            assert(partitions@.skip(index as int).skip(1) =~= partitions@.skip(index + 1));
        }
        if current != policy && current.policy_generation != expected_policy_generation {
            let mut text = numbered2(
                "partition ",
                id.0 as u128,
                " policy generation is ",
                current.policy_generation as u128,
                ", expected ",
            );
            append_decimal(&mut text, expected_policy_generation as u128);
            return Err(EngineError::Fenced(text));
        }
        index += 1;
    }
    Ok(())
}

/// What a follower does with a leader's batch.
#[derive(Debug, Clone, Copy, PartialEq, Eq, Structural)]
pub enum ReplicaAppendPlan {
    Duplicate(AppendResponse),
    Reserved {
        response: AppendResponse,
        producer: Option<ProducerSequence>,
        atomic_group: Option<AtomicGroupSequence>,
    },
}

/// The group place of a batch as it is stored.
pub open spec fn stored_group(group: Option<AtomicGroupIdentity>, payload_digest: PayloadDigest) -> Option<
    AtomicGroupSequence,
> {
    match group {
        None => None,
        Some(g) => Some(
            AtomicGroupSequence {
                transaction_id: g.transaction_id,
                chunk_sequence: g.chunk_sequence,
                payload_digest,
            },
        ),
    }
}

pub fn atomic_group_sequence(group: Option<AtomicGroupIdentity>, payload_digest: PayloadDigest) -> (
stored: Option<AtomicGroupSequence>)
    ensures
        stored == stored_group(group, payload_digest),
{
    match group {
        None => None,
        Some(g) => Some(
            AtomicGroupSequence {
                transaction_id: g.transaction_id,
                chunk_sequence: g.chunk_sequence,
                payload_digest,
            },
        ),
    }
}

/// What a follower's partition becomes when it takes a leader's batch, and the plan for it.
pub open spec fn replica_planned(
    m: crate::partition::PartitionModel,
    batch: ReplicaAppend,
    record_id: RecordId,
) -> (
    crate::partition::PartitionModel,
    Result<ReplicaAppendPlan, Fault>,
) {
    let (observed, result) = observed_epoch(m, batch.reservation.placement.leader_epoch);
    match result {
        Err(fault) => (observed, Err(fault)),
        Ok(()) => {
            let (after, outcome) = replica_step(
                observed,
                batch.reservation,
                batch.producer,
                batch.atomic_group,
                batch.payload@.len() as u64,
                batch.payload_digest,
            );
            (
                after,
                match outcome {
                    Err(fault) => Err(fault),
                    Ok(ReserveOutcome::Duplicate { response, .. }) => Ok(
                        ReplicaAppendPlan::Duplicate(response),
                    ),
                    Ok(ReserveOutcome::Reserved { .. }) => Ok(
                        ReplicaAppendPlan::Reserved {
                            response: receipt(0, batch.reservation, record_id),
                            producer: stored_claim(batch.producer, batch.payload_digest),
                            atomic_group: stored_group(batch.atomic_group, batch.payload_digest),
                        },
                    ),
                },
            )
        },
    }
}

/// The partition of a leader's batch.
pub open spec fn batch_partition(batch: ReplicaAppend) -> TopicPartition {
    TopicPartition {
        topic_id: batch.reservation.topic_id,
        partition_id: batch.reservation.partition_id,
    }
}

fn partition_of(batch: &ReplicaAppend) -> (topic_partition: TopicPartition)
    ensures
        topic_partition == batch_partition(*batch),
{
    TopicPartition {
        topic_id: batch.reservation.topic_id,
        partition_id: batch.reservation.partition_id,
    }
}

/// Takes a leader's batch with the identity `record_id` over on a follower, under
/// the verdict that a fence gave on the leader epoch, if there is a fence.
pub fn plan_replica_append(
    coordinator: &mut Coordinator,
    verdict: Option<Result<(), WriteFenceError>>,
    batch: &ReplicaAppend,
    record_id: RecordId,
) -> (result: EngineResult<ReplicaAppendPlan>)
    requires
        old(coordinator).wf(),
        old(coordinator).idle(),
        batch.reservation.record_count > 0,
    ensures
        final(coordinator).wf(),
        final(coordinator).idle(),
        match verdict {
            Some(Err(error)) => final(coordinator)@ == old(coordinator)@ && agrees(
                result,
                Err(Fault::Fenced(error@)),
            ),
            _ => routed(
                old(coordinator)@,
                final(coordinator)@,
                batch_partition(*batch),
                replica_planned(
                    old(coordinator)@[partition_key(batch_partition(*batch))],
                    *batch,
                    record_id,
                ),
                result,
            ),
        },
{
    if let Some(Err(error)) = verdict {
        return Err(EngineError::Fenced(error.message()));
    }
    let topic_partition = partition_of(batch);
    let ghost key = partition_key(topic_partition);
    let ghost before = coordinator@;
    match coordinator.observe_leader_epoch(
        topic_partition,
        batch.reservation.placement.leader_epoch,
    ) {
        Err(error) => {
            return Err(error);
        },
        Ok(()) => {},
    }
    let outcome = coordinator.reserve_replica(
        topic_partition,
        batch.reservation,
        batch.producer,
        batch.atomic_group,
        batch.payload.len() as u64,
        batch.payload_digest,
    );
    proof {
        assert(coordinator@ =~= before.insert(key, replica_planned(before[key], *batch, record_id).0));
    }
    match outcome {
        Err(error) => Err(error),
        Ok(ReserveOutcome::Duplicate { response, .. }) => Ok(
            ReplicaAppendPlan::Duplicate(response),
        ),
        Ok(ReserveOutcome::Reserved { .. }) => Ok(
            ReplicaAppendPlan::Reserved {
                response: append_response(0, batch.reservation, record_id),
                producer: producer_sequence(batch.producer, batch.payload_digest),
                atomic_group: atomic_group_sequence(batch.atomic_group, batch.payload_digest),
            },
        ),
    }
}

/// The write of a leader's batch on a follower was recorded: a finished one is
/// completed, a failed one is taken back or left open.
pub open spec fn finishes(
    before: Partitions,
    after: Partitions,
    batch: ReplicaAppend,
    response: AppendResponse,
    append_result: Result<AppendDurability, AppendFailure>,
    result: EngineResult<AppendResponse>,
) -> bool {
    let topic_partition = batch_partition(batch);
    let held = before[partition_key(topic_partition)];
    match append_result {
        Ok(durability) => routed(
            before,
            after,
            topic_partition,
            held.completing(
                CompleteAppend {
                    reservation: batch.reservation,
                    producer: batch.producer,
                    payload_digest: batch.payload_digest,
                    durable_replicas: durability.durable_replicas,
                    object_durable: durability.object_durable,
                    response,
                },
            ),
            result,
        ),
        Err(failure) => exists|recorded: EngineResult<()>| #[trigger]
            routed(
                before,
                after,
                topic_partition,
                held.failing(batch.reservation, batch.producer, failure.definitely_not_written),
                recorded,
            ) && result == (match recorded {
                Ok(()) => Err::<AppendResponse, EngineError>(failure.error),
                Err(error) => Err(error),
            }),
    }
}

/// Records how the write of a leader's batch on a follower ended.
pub fn finish_replica_append(
    coordinator: &mut Coordinator,
    batch: &ReplicaAppend,
    response: AppendResponse,
    append_result: Result<AppendDurability, AppendFailure>,
) -> (result: EngineResult<AppendResponse>)
    requires
        old(coordinator).wf(),
        old(coordinator).idle(),
    ensures
        final(coordinator).wf(),
        final(coordinator).idle(),
        finishes(
            old(coordinator)@,
            final(coordinator)@,
            *batch,
            response,
            append_result,
            result,
        ),
{
    let topic_partition = partition_of(batch);
    match append_result {
        Ok(durability) => coordinator.complete(
            topic_partition,
            CompleteAppend {
                reservation: batch.reservation,
                producer: batch.producer,
                payload_digest: batch.payload_digest,
                durable_replicas: durability.durable_replicas,
                object_durable: durability.object_durable,
                response,
            },
        ),
        Err(failure) => {
            let recorded = coordinator.fail(
                topic_partition,
                batch.reservation,
                batch.producer,
                failure.definitely_not_written,
            );
            failure.failed(recorded)
        },
    }
}

/// Takes back a leader's batch that was never handed to storage.
pub fn cancel_replica_append(coordinator: &mut Coordinator, batch: &ReplicaAppend) -> (result:
    EngineResult<()>)
    requires
        old(coordinator).wf(),
        old(coordinator).idle(),
    ensures
        final(coordinator).wf(),
        final(coordinator).idle(),
        routed(
            old(coordinator)@,
            final(coordinator)@,
            batch_partition(*batch),
            old(coordinator)@[partition_key(batch_partition(*batch))].failing(
                batch.reservation,
                batch.producer,
                true,
            ),
            result,
        ),
{
    coordinator.fail(partition_of(batch), batch.reservation, batch.producer, true)
}

/// `replica` is a stored batch on its way to followers.
pub open spec fn resent(stored: StoredBatch, replica: ReplicaAppend) -> bool {
    &&& replica.reservation == stored.reservation
    &&& replica.producer == (match stored.producer {
        Some(claim) => Some(claim_identity(claim)),
        None => None,
    })
    &&& replica.atomic_group == group_identity(stored.atomic_group)
    &&& replica.payload_digest == (match stored.producer {
        Some(claim) => claim.payload_digest,
        None => PayloadDigest(0),
    })
    &&& replica.extension_context is None
    &&& replica.payload == stored.payload
}

/// Turns a recovered batch into one for followers.
pub fn resend_stored(stored: StoredBatch) -> (replica: ReplicaAppend)
    ensures
        resent(stored, replica),
{
    ReplicaAppend {
        reservation: stored.reservation,
        producer: match stored.producer {
            Some(claim) => Some(
                ProducerIdentity {
                    producer_id: claim.producer_id,
                    epoch: claim.epoch,
                    first_sequence: claim.first_sequence,
                    event_id: claim.event_id,
                },
            ),
            None => None,
        },
        atomic_group: match stored.atomic_group {
            Some(group) => Some(
                AtomicGroupIdentity {
                    transaction_id: group.transaction_id,
                    chunk_sequence: group.chunk_sequence,
                },
            ),
            None => None,
        },
        extension_context: None,
        payload_digest: match stored.producer {
            Some(claim) => claim.payload_digest,
            None => PayloadDigest(0),
        },
        payload: stored.payload,
    }
}

/// One stretch of recovered batches for followers, and where the next one starts.
#[derive(Debug)]
pub struct RecoveredStretch {
    pub batches: Vec<ReplicaAppend>,
    pub next: LogicalOffset,
}

/// Prepares the batches that a fetch found at `offset` for followers.
///
/// Batches that come before one whose end cannot be represented are prepared;
/// the fault shows when that one is reached.
pub fn recovered_stretch(
    topic_partition: TopicPartition,
    offset: LogicalOffset,
    stored: Vec<StoredBatch>,
) -> (result: EngineResult<RecoveredStretch>)
    ensures
        match result {
            Ok(stretch) => {
                &&& stored@.len() > 0
                &&& stretch.batches@.len() == stored@.len()
                &&& forall|i: int|
                    0 <= i < stored@.len() ==> resent(stored@[i], #[trigger] stretch.batches@[i])
                &&& forall|i: int|
                    0 <= i < stored@.len() ==> (#[trigger] stored@[i]).reservation.last_offset.0
                        < u64::MAX
                &&& stretch.next.0 == stored@.last().reservation.end()
            },
            Err(error) => if stored@.len() == 0 {
                error@ == Fault::CorruptState(
                    "recovery replication found no batch at offset "@ + decimal(offset.0 as nat)
                        + " for "@ + decimal(topic_partition.topic_id.0 as nat) + "/"@ + decimal(
                        topic_partition.partition_id.0 as nat,
                    ),
                )
            } else {
                &&& error@ == Fault::CorruptState("recovery replication offset space exhausted"@)
                &&& exists|i: int|
                    0 <= i < stored@.len() && (#[trigger] stored@[i]).reservation.last_offset.0
                        == u64::MAX
            },
        },
{
    if stored.len() == 0 {
        let mut text = numbered2(
            "recovery replication found no batch at offset ",
            offset.0 as u128,
            " for ",
            topic_partition.topic_id.0,
            "/",
        );
        append_decimal(&mut text, topic_partition.partition_id.0 as u128);
        return Err(EngineError::CorruptState(text));
    }
    let ghost all = stored@;
    let mut batches: Vec<ReplicaAppend> = Vec::new();
    let mut next: LogicalOffset = offset;
    for batch in iter: stored
        invariant
            iter.seq() == all,
            all == stored@,
            all.len() > 0,
            batches@.len() == iter.index(),
            forall|i: int| 0 <= i < batches@.len() ==> resent(all[i], #[trigger] batches@[i]),
            forall|i: int|
                0 <= i < batches@.len() ==> (#[trigger] all[i]).reservation.last_offset.0
                    < u64::MAX,
            batches@.len() > 0 ==> next.0 == all[batches@.len() - 1].reservation.end(),
    {
        assert(all[iter.index() as int] == batch);
        match batch.reservation.last_offset.0.checked_add(1) {
            None => {
                return Err(corrupt_state("recovery replication offset space exhausted"));
            },
            Some(end) => {
                next = LogicalOffset(end);
            },
        }
        batches.push(resend_stored(batch));
    }
    Ok(RecoveredStretch { batches, next })
}

/// Payload bytes of fetched batches.
pub open spec fn payload_total(batches: Seq<(LogicalOffset, u64)>) -> nat
    decreases batches.len(),
{
    if batches.len() == 0 {
        0
    } else {
        payload_total(batches.drop_last()) + batches.last().1 as nat
    }
}

/// Adds the payload bytes of fetched batches, each given by its last offset and
/// its size, and tells where the next fetch starts.
pub fn count_retained(bytes: u64, offset: LogicalOffset, batches: &Vec<(LogicalOffset, u64)>) -> (
result: EngineResult<(u64, LogicalOffset)>)
    ensures
        match result {
            Ok((total, next)) => {
                &&& total == bytes + payload_total(batches@)
                &&& next.0 == (if batches@.len() == 0 {
                    offset.0 as int
                } else {
                    batches@.last().0.0 + 1
                })
                &&& forall|i: int|
                    0 <= i < batches@.len() ==> (#[trigger] batches@[i]).0.0 < u64::MAX
            },
            Err(error) => {
                ||| error@ == Fault::InvalidConfig("retained payload byte count overflow"@) && bytes
                    + payload_total(batches@) > u64::MAX
                ||| error@ == Fault::InvalidConfig("retained offset exhausted"@) && exists|i: int|
                    0 <= i < batches@.len() && (#[trigger] batches@[i]).0.0 == u64::MAX
            },
        },
{
    let mut total: u64 = bytes;
    let mut next: LogicalOffset = offset;
    let mut index: usize = 0;
    while index < batches.len()
        invariant
            index <= batches@.len(),
            total == bytes + payload_total(batches@.take(index as int)),
            next.0 == (if index == 0 {
                offset.0 as int
            } else {
                batches@[index - 1].0.0 + 1
            }),
            forall|i: int| 0 <= i < index ==> (#[trigger] batches@[i]).0.0 < u64::MAX,
        decreases batches@.len() - index,
    {
        let (last_offset, size) = batches[index];
        proof {
            assert(batches@.take(index + 1).drop_last() =~= batches@.take(index as int));
            lemma_payload_total(batches@, index + 1);
        }
        match total.checked_add(size) {
            None => {
                return Err(invalid_config("retained payload byte count overflow"));
            },
            Some(sum) => {
                total = sum;
            },
        }
        match last_offset.0.checked_add(1) {
            None => {
                assert(batches@[index as int].0.0 == u64::MAX);
                return Err(invalid_config("retained offset exhausted"));
            },
            Some(end) => {
                next = LogicalOffset(end);
            },
        }
        index += 1;
    }
    proof {
        assert(batches@.take(index as int) =~= batches@);
    }
    Ok((total, next))
}

proof fn lemma_payload_total(batches: Seq<(LogicalOffset, u64)>, count: int)
    requires
        0 <= count <= batches.len(),
    ensures
        payload_total(batches.take(count)) <= payload_total(batches),
    decreases batches.len() - count,
{
    if count == batches.len() {
        assert(batches.take(count) =~= batches);
    } else {
        assert(batches.take(count + 1).drop_last() =~= batches.take(count));
        lemma_payload_total(batches, count + 1);
    }
}

/// The shard that stores a lane: the physical shard of that number, if there is one.
pub fn shard_for_lane(config: &EngineConfig, shards: &Vec<ShardId>, lane: ShardId) -> (result:
    EngineResult<usize>)
    requires
        config.shard_count > 0,
    ensures
        ({
            let shard = ShardId((lane.0 % config.shard_count) as u32);
            agrees(
                result,
                if shard.0 < shards@.len() && shards@[shard.0 as int] == shard {
                    Ok(shard.0 as usize)
                } else {
                    Err(Fault::UnknownShard(shard))
                },
            )
        }),
{
    let shard = config.physical_shard_for_lane(lane);
    let index: usize = shard.0 as usize;
    if index < shards.len() && shards[index] == shard {
        Ok(index)
    } else {
        Err(EngineError::UnknownShard(shard))
    }
}

/// The result of a barrier over all shards and the journal: the first error, if any.
pub fn first_error(results: Vec<EngineResult<()>>, journal: EngineResult<()>) -> (result:
    EngineResult<()>)
    ensures
        match result {
            Ok(()) => journal is Ok && forall|i: int|
                0 <= i < results@.len() ==> (#[trigger] results@[i]) is Ok,
            Err(error) => (exists|i: int|
                0 <= i < results@.len() && #[trigger] results@[i] == Err::<(), EngineError>(error)
                    && forall|j: int| 0 <= j < i ==> (#[trigger] results@[j]) is Ok) || (forall|
                i: int,
            |
                0 <= i < results@.len() ==> (#[trigger] results@[i]) is Ok) && journal == Err::<
                (),
                EngineError,
            >(error),
        },
{
    let ghost all = results@;
    for result in iter: results
        invariant
            iter.seq() == all,
            all == results@,
            forall|i: int| 0 <= i < iter.index() ==> (#[trigger] all[i]) is Ok,
    {
        assert(all[iter.index() as int] == result);
        match result {
            Ok(()) => {},
            Err(error) => {
                return Err(error);
            },
        }
    }
    journal
}

/// Application-owned retention policy, which may hold a partition's records back.
pub trait RetentionGuard {
    fn validate_advance(
        &self,
        topic_partition: TopicPartition,
        proposed_log_start: LogicalOffset,
    ) -> EngineResult<()>;
}

/// Asks for the removal of everything below `log_start`, under the verdict of a
/// retention guard, if there is one.
pub fn truncate_with_verdict(
    coordinator: &mut Coordinator,
    verdict: Option<EngineResult<()>>,
    topic_partition: TopicPartition,
    log_start: LogicalOffset,
) -> (step: CoordinatorStep)
    requires
        old(coordinator).wf(),
        old(coordinator).idle(),
    ensures
        final(coordinator).wf(),
        final(coordinator).states == old(coordinator).states,
        match verdict {
            Some(Err(error)) => *final(coordinator) == *old(coordinator) && step
                == CoordinatorStep::Reply(Err(error)),
            _ => truncate_step(
                old(coordinator)@,
                topic_partition,
                log_start,
                step,
                final(coordinator).pending,
            ),
        },
{
    match verdict {
        Some(Err(error)) => CoordinatorStep::Reply(Err(error)),
        _ => coordinator.truncate(topic_partition, log_start),
    }
}

/// Asks a retention guard, if there is one, and then for the removal of
/// everything below `log_start`.
pub fn truncate_partition<G: RetentionGuard>(
    coordinator: &mut Coordinator,
    guard: Option<&G>,
    topic_partition: TopicPartition,
    log_start: LogicalOffset,
) -> (step: CoordinatorStep)
    requires
        old(coordinator).wf(),
        old(coordinator).idle(),
    ensures
        final(coordinator).wf(),
        final(coordinator).states == old(coordinator).states,
        guard is Some ==> exists|verdict: EngineResult<()>| #[trigger]
            call_ensures(G::validate_advance, (guard->0, topic_partition, log_start), verdict)
                && match verdict {
                Err(error) => *final(coordinator) == *old(coordinator) && step
                    == CoordinatorStep::Reply(Err(error)),
                Ok(()) => truncate_step(
                    old(coordinator)@,
                    topic_partition,
                    log_start,
                    step,
                    final(coordinator).pending,
                ),
            },
        guard is None ==> truncate_step(
            old(coordinator)@,
            topic_partition,
            log_start,
            step,
            final(coordinator).pending,
        ),
{
    let verdict = match guard {
        Some(guard) => Some(guard.validate_advance(topic_partition, log_start)),
        None => None,
    };
    truncate_with_verdict(coordinator, verdict, topic_partition, log_start)
}

/// Checks where an account of retained bytes may start.
pub fn check_retained_start(watermarks: &PartitionWatermarks, start_offset: LogicalOffset) -> (result:
    EngineResult<()>)
    ensures
        agrees(
            result,
            if start_offset.0 < watermarks.log_start.0 {
                Err(
                    Fault::OffsetOutOfRange {
                        requested: start_offset,
                        log_start: watermarks.log_start,
                    },
                )
            } else {
                Ok(())
            },
        ),
{
    if start_offset.0 < watermarks.log_start.0 {
        return Err(
            EngineError::OffsetOutOfRange {
                requested: start_offset,
                log_start: watermarks.log_start,
            },
        );
    }
    Ok(())
}

/// Whether an account of retained bytes goes on: there are stable records left,
/// and the last fetch found some, if there was one.
pub fn counts_on(watermarks: &PartitionWatermarks, offset: LogicalOffset, last_found: Option<usize>) -> (
on: bool)
    ensures
        on == (offset.0 < watermarks.last_stable_offset.0 && last_found != Some(0usize)),
{
    offset.0 < watermarks.last_stable_offset.0 && match last_found {
        Some(found) => found != 0,
        None => true,
    }
}

/// The engine's own fetch budget, which must fit a request.
pub open spec fn whole_budget(config: EngineConfig, too_large: Seq<char>) -> Result<u32, Fault> {
    if config.max_fetch_bytes > u32::MAX {
        Err(Fault::InvalidConfig(too_large))
    } else {
        Ok(config.max_fetch_bytes as u32)
    }
}

fn find_whole_budget(config: &EngineConfig, too_large: &str) -> (result: EngineResult<u32>)
    ensures
        agrees(result, whole_budget(*config, too_large@)),
{
    if config.max_fetch_bytes as u128 > u32::MAX as u128 {
        return Err(invalid_config(too_large));
    }
    Ok(config.max_fetch_bytes as u32)
}

/// The budget of the fetches by which recovered batches are read for their replay.
pub fn replay_budget(config: &EngineConfig) -> (result: EngineResult<u32>)
    ensures
        agrees(
            result,
            whole_budget(*config, "max_fetch_bytes exceeds the recovery fetch limit"@),
        ),
{
    find_whole_budget(config, "max_fetch_bytes exceeds the recovery fetch limit")
}

/// The budget of the fetches by which retained bytes are counted.
pub fn retained_budget(config: &EngineConfig) -> (result: EngineResult<u32>)
    ensures
        agrees(result, whole_budget(*config, "max_fetch_bytes exceeds u32"@)),
{
    find_whole_budget(config, "max_fetch_bytes exceeds u32")
}

} // verus!
