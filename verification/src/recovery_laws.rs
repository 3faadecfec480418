//! What comes back after a restart.
use vstd::prelude::*;

use crate::config::EngineConfig;
use crate::coordinator::dedup_key;
use crate::error::EngineResult;
use crate::ids::{LogicalOffset, ShardId, TopicPartition};
use crate::journal::{
    hinted, lane_obstacle, partition_key, replayed, retention_hints, validate_ring,
    JournalModel, PartitionJournal, PartitionJournalModel, RecoveredJournal,
};
use crate::maps::PairMap;
use crate::partition::{
    empty_partition, lemma_chain_is_increasing, AtomicGroupState, BatchStatus, PartitionModel,
    PartitionState,
};
use crate::protocol::{ExtentCatalogEntry, JournalEvent, ProducerSequence};
use crate::recover_all::{
    arrange, arranges, catalog_obstacle, entries_of, entry_partition, recover_partition_states,
    recovers_to,
};
use crate::recovery::{
    claim_identity, lemma_gap_tiles, recover_partition, recovered_partition, replica_mask,
    ring_lanes, validate_recovered_extent, Gap, Progress,
};
use crate::sequencer::{Reservation, SequencerModel};

verus! {

/// A ring is accepted exactly when it has lanes, all of them exist and none comes twice.
pub proof fn rings_name_lanes_once(
    config: EngineConfig,
    lanes: Vec<ShardId>,
    result: EngineResult<()>,
)
    requires
        call_ensures(validate_ring, (&config, &lanes), result),
    ensures
        result is Ok <==> {
            &&& lanes@.len() > 0
            &&& forall|i: int| 0 <= i < lanes@.len() ==> (#[trigger] lanes@[i]).0
                < config.virtual_lane_count
            &&& forall|i: int, j: int|
                0 <= i < j < lanes@.len() ==> #[trigger] lanes@[i] != #[trigger] lanes@[j]
        },
{
    lemma_lane_obstacle(lanes@, 0, config.virtual_lane_count);
    if result is Ok {
        assert forall|i: int, j: int| 0 <= i < j < lanes@.len() implies #[trigger] lanes@[i]
            != #[trigger] lanes@[j] by {}
    }
    if lanes@.len() > 0 && lane_obstacle(lanes@, 0, config.virtual_lane_count) is Some {
        let at = choose|at: int|
            0 <= at < lanes@.len() && #[trigger] unfit(lanes@, at, config.virtual_lane_count);
        let earlier = lanes@.take(at);
        if earlier.contains(lanes@[at]) {
            let i = choose|i: int| 0 <= i < earlier.len() && earlier[i] == lanes@[at];
            assert(lanes@[i] == lanes@[at]);
        }
    }
}

/// A lane of the ring does not exist or came before.
spec fn unfit(lanes: Seq<ShardId>, at: int, lane_count: u32) -> bool {
    lanes[at].0 >= lane_count || lanes.take(at).contains(lanes[at])
}

proof fn lemma_lane_obstacle(lanes: Seq<ShardId>, from: int, lane_count: u32)
    requires
        0 <= from <= lanes.len(),
    ensures
        lane_obstacle(lanes, from, lane_count) is None ==> forall|i: int|
            from <= i < lanes.len() ==> (#[trigger] lanes[i]).0 < lane_count,
        lane_obstacle(lanes, from, lane_count) is Some ==> exists|at: int|
            0 <= at < lanes.len() && #[trigger] unfit(lanes, at, lane_count),
    decreases lanes.len() - from,
{
    if from < lanes.len() {
        if !unfit(lanes, from, lane_count) {
            lemma_lane_obstacle(lanes, from + 1, lane_count);
        }
    }
}

/// The journal remembers the last event of each kind: a partition has the policy, log
/// start and group outcomes that it was given last, and other partitions keep theirs.
pub proof fn journals_remember_the_last_event(
    config: EngineConfig,
    events: Vec<JournalEvent>,
    event: JournalEvent,
    more: Vec<JournalEvent>,
    earlier: EngineResult<RecoveredJournal>,
    later: EngineResult<RecoveredJournal>,
    other: TopicPartition,
)
    requires
        call_ensures(RecoveredJournal::replay, (&config, &events), earlier),
        call_ensures(RecoveredJournal::replay, (&config, &more), later),
        more@ == events@.push(event),
        later is Ok,
    ensures
        earlier is Ok,
        ({
            let before = earlier->Ok_0@;
            let after = later->Ok_0@;
            match event {
                JournalEvent::Truncate { topic_partition, log_start } => {
                    &&& after.part(topic_partition).log_start == log_start
                    &&& before.knows(topic_partition)
                    &&& before.part(topic_partition).log_start.0 <= log_start.0
                    &&& after.part(topic_partition).policy == before.part(topic_partition).policy
                    &&& after.part(topic_partition).rings == before.part(topic_partition).rings
                    &&& after.part(topic_partition).outcomes
                        == before.part(topic_partition).outcomes
                    &&& other != topic_partition ==> after.knows(other) == before.knows(other)
                        && after.part(other) == before.part(other)
                },
                JournalEvent::GroupCommit { topic_partition, transaction_id } => {
                    &&& after.part(topic_partition).outcomes.contains_key(transaction_id)
                    &&& after.part(topic_partition).outcomes[transaction_id]
                        == AtomicGroupState::Committed
                    &&& before.part(topic_partition).outcomes.contains_key(transaction_id)
                        ==> before.part(topic_partition).outcomes[transaction_id]
                        == AtomicGroupState::Committed
                    &&& after.part(topic_partition).log_start == before.part(
                        topic_partition,
                    ).log_start
                    &&& after.part(topic_partition).policy == before.part(topic_partition).policy
                    &&& other != topic_partition ==> after.knows(other) == before.knows(other)
                        && after.part(other) == before.part(other)
                },
                JournalEvent::GroupAbort { topic_partition, transaction_id } => {
                    &&& after.part(topic_partition).outcomes.contains_key(transaction_id)
                    &&& after.part(topic_partition).outcomes[transaction_id]
                        == AtomicGroupState::Aborted
                    &&& before.part(topic_partition).outcomes.contains_key(transaction_id)
                        ==> before.part(topic_partition).outcomes[transaction_id]
                        == AtomicGroupState::Aborted
                    &&& after.part(topic_partition).log_start == before.part(
                        topic_partition,
                    ).log_start
                    &&& after.part(topic_partition).policy == before.part(topic_partition).policy
                    &&& other != topic_partition ==> after.knows(other) == before.knows(other)
                        && after.part(other) == before.part(other)
                },
                JournalEvent::UpdateReplicationPolicy {
                    topic_partition,
                    expected_policy_generation,
                    policy_generation,
                    replication_factor,
                    min_in_sync_replicas,
                } => {
                    let policy = after.part(topic_partition).policy;
                    &&& before.knows(topic_partition)
                    &&& policy.policy_generation == policy_generation
                    &&& policy.replication_factor == replication_factor
                    &&& policy.min_in_sync_replicas == min_in_sync_replicas
                    &&& before.part(topic_partition).policy == policy || before.part(
                        topic_partition,
                    ).policy.policy_generation == expected_policy_generation
                    &&& after.part(topic_partition).log_start == before.part(
                        topic_partition,
                    ).log_start
                    &&& after.part(topic_partition).outcomes
                        == before.part(topic_partition).outcomes
                    &&& other != topic_partition ==> after.knows(other) == before.knows(other)
                        && after.part(other) == before.part(other)
                },
                JournalEvent::CreatePartition {
                    topic_partition,
                    ring_epoch,
                    shards,
                    policy_generation,
                    replication_factor,
                    min_in_sync_replicas,
                } => {
                    let part = after.part(topic_partition);
                    &&& !before.knows(topic_partition)
                    &&& after.knows(topic_partition)
                    &&& part.rings.len() == 1
                    &&& part.rings[0].epoch == ring_epoch
                    &&& part.rings[0].lanes == shards@
                    &&& part.policy.policy_generation == policy_generation
                    &&& part.policy.replication_factor == replication_factor
                    &&& part.policy.min_in_sync_replicas == min_in_sync_replicas
                    &&& part.log_start.0 == 0
                    &&& forall|id: u128| !#[trigger] part.outcomes.contains_key(id)
                    &&& after.order.last() == topic_partition
                    &&& other != topic_partition ==> after.knows(other) == before.knows(other)
                        && after.part(other) == before.part(other)
                },
                JournalEvent::Configure { topic_partition, ring_epoch, shards } => {
                    let part = after.part(topic_partition);
                    &&& after.knows(topic_partition)
                    &&& part.rings.len() > 0
                    &&& part.rings.last().epoch == ring_epoch
                    &&& part.rings.last().lanes == shards@
                    &&& before.knows(topic_partition) ==> {
                        &&& part.rings.drop_last() == before.part(topic_partition).rings
                        &&& part.rings.drop_last().last().epoch.0 < ring_epoch.0
                        &&& part.policy == before.part(topic_partition).policy
                        &&& part.log_start == before.part(topic_partition).log_start
                        &&& part.outcomes == before.part(topic_partition).outcomes
                    }
                    &&& !before.knows(topic_partition) ==> {
                        &&& part.log_start.0 == 0
                        &&& part.policy.replication_factor == config.replication_factor
                        &&& part.policy.min_in_sync_replicas == config.min_in_sync_replicas
                        &&& part.policy.policy_generation == 1
                    }
                    &&& other != topic_partition ==> after.knows(other) == before.knows(other)
                        && after.part(other) == before.part(other)
                },
            }
        }),
{
    assert(more@.drop_last() =~= events@);
    assert(more@.last() == event);
    if let JournalEvent::Configure { topic_partition, .. } = event {
        let before = earlier->Ok_0@;
        let after = later->Ok_0@;
        if before.knows(topic_partition) {
            assert(after.part(topic_partition).rings.drop_last() =~= before.part(
                topic_partition,
            ).rings);
        }
    }
}

/// The hint for a partition is the highest log start that any event asks for.
pub proof fn hints_are_the_highest_log_start(
    events: Vec<JournalEvent>,
    hints: PairMap<LogicalOffset>,
    index: int,
)
    requires
        call_ensures(retention_hints, (&events,), hints),
        0 <= index < events@.len(),
        events@[index] is Truncate,
    ensures
        ({
            let key = partition_key(events@[index]->Truncate_topic_partition);
            &&& hints@.contains_key(key)
            &&& events@[index]->log_start.0 <= hints@[key].0
            &&& exists|i: int|
                0 <= i < events@.len() && (#[trigger] events@[i]) is Truncate && partition_key(
                    events@[i]->Truncate_topic_partition,
                ) == key && events@[i]->log_start == hints@[key]
        }),
{
    lemma_hinted(events@, index);
}

proof fn lemma_hint_is_asked_for(events: Seq<JournalEvent>, key: (u128, u128))
    requires
        hinted(events).contains_key(key),
    ensures
        exists|i: int|
            0 <= i < events.len() && (#[trigger] events[i]) is Truncate && partition_key(
                events[i]->Truncate_topic_partition,
            ) == key && events[i]->log_start == hinted(events)[key],
    decreases events.len(),
{
    let earlier = events.drop_last();
    if hinted(earlier).contains_key(key) && hinted(earlier)[key] == hinted(events)[key] {
        lemma_hint_is_asked_for(earlier, key);
        let i = choose|i: int|
            0 <= i < earlier.len() && (#[trigger] earlier[i]) is Truncate && partition_key(
                earlier[i]->Truncate_topic_partition,
            ) == key && earlier[i]->log_start == hinted(earlier)[key];
        assert(events[i] == earlier[i]);
    } else {
        assert(events[events.len() - 1] is Truncate);
    }
}

proof fn lemma_hinted(events: Seq<JournalEvent>, index: int)
    requires
        0 <= index < events.len(),
        events[index] is Truncate,
    ensures
        ({
            let key = partition_key(events[index]->Truncate_topic_partition);
            &&& hinted(events).contains_key(key)
            &&& events[index]->log_start.0 <= hinted(events)[key].0
            &&& exists|i: int|
                0 <= i < events.len() && (#[trigger] events[i]) is Truncate && partition_key(
                    events[i]->Truncate_topic_partition,
                ) == key && events[i]->log_start == hinted(events)[key]
        }),
    decreases events.len(),
{
    let key = partition_key(events[index]->Truncate_topic_partition);
    if index < events.len() - 1 {
        assert(events.drop_last()[index] == events[index]);
        lemma_hinted(events.drop_last(), index);
    }
    lemma_hint_is_asked_for(events, key);
}

/// A stored batch is in its place exactly when it belongs to the partition, its number
/// is that of its placement, its ring is known, and its lane is the one whose turn it
/// was in that ring.
pub proof fn stored_batches_are_in_their_place(
    journal: PartitionJournal,
    topic_partition: TopicPartition,
    reservation: Reservation,
    ring: int,
    result: EngineResult<()>,
)
    requires
        journal@.wf(),
        call_ensures(validate_recovered_extent, (&journal, topic_partition, reservation), result),
        0 <= ring < journal@.rings.len(),
        journal@.rings[ring].epoch == reservation.placement.ring_epoch,
    ensures
        ({
            let lanes = journal@.rings[ring].lanes;
            result is Ok <==> {
                &&& reservation.topic_id == topic_partition.topic_id
                &&& reservation.partition_id == topic_partition.partition_id
                &&& reservation.batch_id.0 == reservation.placement.sequence.0
                &&& reservation.placement.virtual_lane_id
                    == lanes[reservation.placement.sequence.0 as int % lanes.len() as int]
            }
        }),
{
    let rings = journal@.rings;
    let epoch = reservation.placement.ring_epoch;
    let at = choose|i: int| 0 <= i < rings.len() && (#[trigger] rings[i]).epoch == epoch;
    assert(rings[ring].epoch == epoch);
    if at < ring {
        assert(rings[at].epoch.0 < rings[ring].epoch.0);
    }
    if ring < at {
        assert(rings[ring].epoch.0 < rings[at].epoch.0);
    }
}

/// A stored batch whose ring is not known is refused.
pub proof fn stored_batches_need_their_ring(
    journal: PartitionJournal,
    topic_partition: TopicPartition,
    reservation: Reservation,
    result: EngineResult<()>,
)
    requires
        journal@.wf(),
        call_ensures(validate_recovered_extent, (&journal, topic_partition, reservation), result),
        forall|i: int|
            0 <= i < journal@.rings.len() ==> (#[trigger] journal@.rings[i]).epoch
                != reservation.placement.ring_epoch,
    ensures
        result is Err,
{
}

/// Missing batches are filled in without a hole: the first starts at the first missing
/// offset, each starts where the one before it ends, the last ends with the gap, and
/// all are aborted, so that no reader gets them. Their sizes differ by one at most.
pub proof fn gaps_are_tiled(gap: Gap, index: int)
    requires
        0 < gap.batches <= gap.records,
        0 <= index < gap.batches,
        gap.first_offset + gap.records <= u64::MAX,
        gap.records <= gap.batches * u32::MAX,
        gap.first_batch + gap.batches <= u128::MAX,
        gap.first_sequence + gap.batches <= u64::MAX,
    ensures
        gap.all().len() == gap.batches,
        gap.all()[index].status == BatchStatus::Aborted,
        gap.all()[index].durable_replicas == 0,
        gap.all()[index].producer is None,
        gap.all()[index].reservation.topic_id == gap.topic_partition.topic_id,
        gap.all()[index].reservation.partition_id == gap.topic_partition.partition_id,
        gap.all()[index].reservation.batch_id.0 == gap.first_batch + index,
        gap.all()[index].reservation.placement.sequence.0 == gap.first_sequence + index,
        gap.all()[0].reservation.first_offset.0 == gap.first_offset,
        gap.all()[gap.batches - 1].reservation.last_offset.0 + 1 == gap.first_offset + gap.records,
        index + 1 < gap.batches ==> gap.all()[index + 1].reservation.first_offset.0
            == gap.all()[index].reservation.last_offset.0 + 1,
        gap.all()[index].reservation.last_offset.0 + 1
            == gap.all()[index].reservation.first_offset.0 + gap.count(index),
        gap.count(0) - gap.count(index) <= 1,
        gap.count(index) - gap.count(0) <= 1,
{
    lemma_gap_tiles(gap, index);
    lemma_gap_tiles(gap, 0);
    lemma_gap_tiles(gap, gap.batches - 1);
    if index + 1 < gap.batches {
        lemma_gap_tiles(gap, index + 1);
    }
}

/// A claim that is restored is known again: its receipt names the place and identity of
/// its batch, and its producer goes on no earlier than behind it. A later epoch wins, an
/// earlier one changes nothing, and no other producer is touched.
pub proof fn restored_claims_go_on(
    m: PartitionModel,
    reservation: Reservation,
    claim: ProducerSequence,
    durable_replicas: u32,
    object_durable: bool,
    record_id: crate::ids::RecordId,
    other: u128,
)
    requires
        m.producer_restored(
            reservation,
            Some(claim),
            durable_replicas,
            object_durable,
            record_id,
        ).1 is Ok,
        other != claim.producer_id,
    ensures
        ({
            let after = m.producer_restored(
                reservation,
                Some(claim),
                durable_replicas,
                object_durable,
                record_id,
            ).0;
            let id = claim.producer_id;
            let key = dedup_key(claim_identity(claim));
            let kept = after.dedup[key];
            let next = claim.first_sequence + reservation.record_count;
            &&& after.dedup.contains_key(key)
            &&& kept.response.batch_id == reservation.batch_id
            &&& kept.response.first_offset == reservation.first_offset
            &&& kept.response.last_offset == reservation.last_offset
            &&& kept.response.placement == reservation.placement
            &&& kept.response.record_id == record_id
            &&& kept.payload_digest == claim.payload_digest
            &&& kept.event_id == claim.event_id
            &&& kept.record_count == reservation.record_count
            &&& kept.durable_replicas == durable_replicas
            &&& kept.object_durable == object_durable
            &&& after.producers.contains_key(id)
            &&& after.producers[id].epoch >= claim.epoch
            &&& after.producers[id].epoch == claim.epoch ==> after.producers[id].next_sequence
                >= next
            &&& !m.producers.contains_key(id) ==> after.producers[id].epoch == claim.epoch
                && after.producers[id].next_sequence == next && !after.producers[id].failed
            &&& m.producers.contains_key(id) && m.producers[id].epoch > claim.epoch
                ==> after.producers[id] == m.producers[id]
            &&& m.producers.contains_key(id) && m.producers[id].epoch < claim.epoch
                ==> after.producers[id].epoch == claim.epoch && after.producers[id].next_sequence
                == next
            &&& m.producers.contains_key(id) && m.producers[id].epoch == claim.epoch
                ==> after.producers[id].next_sequence == next || after.producers[id].next_sequence
                == m.producers[id].next_sequence
            &&& after.producers.contains_key(other) == m.producers.contains_key(other)
            &&& after.producers[other] == m.producers[other]
            &&& after.batches == m.batches
        }),
{
}

/// The mask of replicas has one bit more for each replica more.
pub proof fn replica_masks_grow_by_one_bit(count: u32, mask: u64, mask_of_more: u64, none: u64)
    requires
        count < 63,
        call_ensures(replica_mask, (count,), mask),
        call_ensures(replica_mask, ((count + 1) as u32,), mask_of_more),
        call_ensures(replica_mask, (0u32,), none),
    ensures
        none == 0,
        mask_of_more == mask + mask + 1,
{
    vstd::arithmetic::power2::lemma2_to64();
    vstd::arithmetic::power2::lemma_pow2_unfold((count + 1) as nat);
    vstd::arithmetic::power2::lemma_pow2_pos(count as nat);
    vstd::arithmetic::power2::lemma_pow2_strictly_increases((count + 1) as nat, 64);
}

proof fn lemma_ends_behind_the_last(
    start: Progress,
    topic_partition: TopicPartition,
    journal: PartitionJournalModel,
    replicas: u32,
    entries: Seq<ExtentCatalogEntry>,
)
    requires
        start.after_all(topic_partition, journal, replicas, entries) is Ok,
        entries.len() > 0,
        entries.last().reservation.batch_id.0 < u128::MAX,
    ensures
        ({
            let end = start.after_all(topic_partition, journal, replicas, entries)->Ok_0;
            let last = entries.last().reservation;
            &&& end.next_batch_id == last.batch_id.0 + 1
            &&& last.end() <= u64::MAX ==> end.next_offset == last.end()
            &&& end.next_sequence == last.placement.sequence.0 + 1
        }),
{
}

/// A recovered partition has the policy, log start and group outcomes of its journal,
/// goes on right behind its last stored batch, and starts at zero when nothing was
/// stored.
pub proof fn partitions_go_on_after_a_restart(
    config: EngineConfig,
    topic_partition: TopicPartition,
    journal: PartitionJournal,
    replicas: u32,
    entries: Vec<ExtentCatalogEntry>,
    result: EngineResult<PartitionState>,
)
    requires
        journal@.wf(),
        call_ensures(
            recover_partition,
            (&config, topic_partition, &journal, replicas, &entries),
            result,
        ),
        result is Ok,
        entries@.len() > 0 ==> entries@.last().reservation.spans() && entries@.last().reservation.batch_id.0 < u128::MAX,
    ensures
        ({
            let m = result->Ok_0@;
            let sequencer = m.sequencer;
            &&& m.log_start == journal@.log_start
            &&& m.policy == journal@.policy
            &&& m.finalized == journal@.outcomes
            &&& sequencer.topic_id == topic_partition.topic_id
            &&& sequencer.partition_id == topic_partition.partition_id
            &&& sequencer.ring_epoch == journal@.rings.last().epoch
            &&& sequencer.virtual_lanes == journal@.rings.last().lanes
            &&& entries@.len() == 0 ==> sequencer.next_offset == 0 && sequencer.next_batch_id == 0
                && sequencer.next_placement_sequence == 0
            &&& entries@.len() > 0 ==> {
                let last = entries@.last().reservation;
                &&& sequencer.next_offset == last.last_offset.0 + 1
                &&& sequencer.next_batch_id == last.batch_id.0 + 1
                &&& sequencer.next_placement_sequence == last.placement.sequence.0 + 1
            }
        }),
{
    let limit = if replicas <= journal@.policy.replication_factor {
        replicas
    } else {
        journal@.policy.replication_factor
    };
    let start = fresh_start(topic_partition, journal@);
    let end = start.after_all(topic_partition, journal@, limit, entries@)->Ok_0;
    lemma_policy_stays(start, topic_partition, journal@, limit, entries@);
    if entries@.len() > 0 {
        lemma_ends_behind_the_last(start, topic_partition, journal@, limit, entries@);
    }
}

spec fn fresh_start(topic_partition: TopicPartition, journal: PartitionJournalModel) -> Progress {
    let ring = journal.rings.last();
    Progress {
        model: empty_partition(
            SequencerModel {
                topic_id: topic_partition.topic_id,
                partition_id: topic_partition.partition_id,
                ring_epoch: ring.epoch,
                leader_epoch: crate::ids::LeaderEpoch(0),
                virtual_lanes: ring.lanes,
                next_batch_id: 0,
                next_offset: 0,
                next_placement_sequence: 0,
            },
            journal.policy,
        ),
        next_batch_id: 0,
        next_offset: 0,
        next_sequence: 0,
    }
}

proof fn lemma_appended_all_keeps(m: PartitionModel, batches: Seq<crate::partition::BatchRuntime>)
    ensures
        m.appended_all(batches).0.policy == m.policy,
        m.appended_all(batches).0.first_batch == m.first_batch,
    decreases batches.len(),
{
    if batches.len() > 0 {
        lemma_appended_all_keeps(m, batches.drop_last());
    }
}

proof fn lemma_policy_stays(
    start: Progress,
    topic_partition: TopicPartition,
    journal: PartitionJournalModel,
    replicas: u32,
    entries: Seq<ExtentCatalogEntry>,
)
    requires
        start.after_all(topic_partition, journal, replicas, entries) is Ok,
    ensures
        ({
            let end = start.after_all(topic_partition, journal, replicas, entries)->Ok_0;
            &&& end.model.policy == start.model.policy
            &&& end.model.first_batch == start.model.first_batch
        }),
    decreases entries.len(),
{
    if entries.len() > 0 {
        lemma_policy_stays(start, topic_partition, journal, replicas, entries.drop_last());
        let earlier = start.after_all(
            topic_partition,
            journal,
            replicas,
            entries.drop_last(),
        )->Ok_0;
        let reservation = entries.last().reservation;
        let gap = Gap {
            topic_partition,
            lanes: ring_lanes(journal.rings, reservation.placement.ring_epoch),
            ring_epoch: reservation.placement.ring_epoch,
            leader_epoch: earlier.model.sequencer.leader_epoch,
            first_batch: earlier.next_batch_id,
            first_offset: earlier.next_offset,
            first_sequence: earlier.next_sequence,
            batches: reservation.batch_id.0 - earlier.next_batch_id,
            records: reservation.first_offset.0 - earlier.next_offset,
        };
        lemma_appended_all_keeps(earlier.model, gap.all());
    }
}

/// A stored batch comes back as it was stored, if it starts at or above the log start:
/// with its place, producer, group, size and identity, and with the copies that are
/// known of it, never more than the partition keeps. Batches outside groups are
/// committed; those of a group have the group's outcome, and none while it is open.
pub proof fn stored_batches_come_back(
    config: EngineConfig,
    topic_partition: TopicPartition,
    journal: PartitionJournal,
    replicas: u32,
    entries: Vec<ExtentCatalogEntry>,
    result: EngineResult<PartitionState>,
    index: int,
)
    requires
        journal@.wf(),
        call_ensures(
            recover_partition,
            (&config, topic_partition, &journal, replicas, &entries),
            result,
        ),
        result is Ok,
        0 <= index < entries@.len(),
        result->Ok_0@.retains(entries@[index].reservation.batch_id),
    ensures
        ({
            let m = result->Ok_0@;
            let entry = entries@[index];
            let batch = m.batch(entry.reservation.batch_id);
            &&& batch.reservation == entry.reservation
            &&& batch.payload_bytes == entry.payload_bytes
            &&& batch.object_durable == entry.object_durable
            &&& batch.record_id == entry.record_id
            &&& batch.producer is Some <==> entry.producer is Some
            &&& entry.producer matches Some(claim) ==> {
                &&& batch.producer->0.producer_id == claim.producer_id
                &&& batch.producer->0.epoch == claim.epoch
                &&& batch.producer->0.first_sequence == claim.first_sequence
                &&& batch.producer->0.event_id == claim.event_id
                &&& batch.payload_digest == Some(claim.payload_digest)
            }
            &&& entry.atomic_group is None ==> batch.status == BatchStatus::Committed
                && batch.atomic_group is None
            &&& entry.atomic_group matches Some(group) ==> {
                let outcomes = journal@.outcomes;
                let id = group.transaction_id;
                &&& batch.atomic_group is Some
                &&& batch.atomic_group->0.transaction_id == id
                &&& batch.atomic_group->0.chunk_sequence == group.chunk_sequence
                &&& !outcomes.contains_key(id) ==> batch.status == BatchStatus::Unresolved
                &&& outcomes.contains_key(id) && outcomes[id] == AtomicGroupState::Committed
                    ==> batch.status == BatchStatus::Committed
                &&& outcomes.contains_key(id) && outcomes[id] == AtomicGroupState::Aborted
                    ==> batch.status == BatchStatus::Aborted
            }
            &&& batch.status == BatchStatus::Aborted ==> batch.durable_replicas == 0
            &&& batch.status != BatchStatus::Aborted ==> batch.durable_replicas <= replicas
                && batch.durable_replicas <= m.policy.replication_factor && (batch.durable_replicas
                == replicas || batch.durable_replicas == m.policy.replication_factor)
        }),
{
    let limit = if replicas <= journal@.policy.replication_factor {
        replicas
    } else {
        journal@.policy.replication_factor
    };
    let start = fresh_start(topic_partition, journal@);
    let end = start.after_all(topic_partition, journal@, limit, entries@)->Ok_0;
    lemma_policy_stays(start, topic_partition, journal@, limit, entries@);
    start.every_stored_batch_is_recovered(topic_partition, journal@, limit, entries@, index);
    let m = result->Ok_0@;
    let id = entries@[index].reservation.batch_id;
    assert(m.batch(id) == end.model.batches[id.0 as int]);
}

/// Every stored batch at or above the log start comes back.
pub proof fn retained_batches_come_back(
    config: EngineConfig,
    topic_partition: TopicPartition,
    journal: PartitionJournal,
    replicas: u32,
    entries: Vec<ExtentCatalogEntry>,
    result: EngineResult<PartitionState>,
    index: int,
)
    requires
        call_ensures(
            recover_partition,
            (&config, topic_partition, &journal, replicas, &entries),
            result,
        ),
        result is Ok,
        0 <= index < entries@.len(),
        entries@[index].reservation.first_offset.0 >= journal@.log_start.0,
    ensures
        result->Ok_0@.retains(entries@[index].reservation.batch_id),
{
}

/// Batches below the log start do not come back.
pub proof fn retention_survives_a_restart(
    config: EngineConfig,
    topic_partition: TopicPartition,
    journal: PartitionJournal,
    replicas: u32,
    entries: Vec<ExtentCatalogEntry>,
    result: EngineResult<PartitionState>,
    index: int,
)
    requires
        journal@.wf(),
        call_ensures(
            recover_partition,
            (&config, topic_partition, &journal, replicas, &entries),
            result,
        ),
        result is Ok,
        0 <= index < result->Ok_0@.batches.len(),
    ensures
        journal@.log_start.0 <= result->Ok_0@.batches[index].reservation.first_offset.0,
{
    let m = result->Ok_0@;
    lemma_chain_is_increasing(m);
    if index > 0 {
        assert(m.batches[0].reservation.end() <= m.batches[index].reservation.first_offset.0);
    }
}

/// Arranging stored batches loses none, adds none and puts them in the order of their
/// offsets.
pub proof fn arranged_batches_are_the_same(
    entries: Vec<ExtentCatalogEntry>,
    arranged: Vec<ExtentCatalogEntry>,
    one: int,
    other: int,
)
    requires
        call_ensures(arrange, (entries,), arranged),
    ensures
        arranged@.to_multiset() == entries@.to_multiset(),
        0 <= one <= other < arranged@.len() ==> arranged@[one].reservation.first_offset.0
            <= arranged@[other].reservation.first_offset.0,
{
}

/// A partition is recovered from its own stored batches: from all of them, and from no
/// other partition's.
pub proof fn partitions_are_recovered_from_their_own_batches(
    catalog: Seq<ExtentCatalogEntry>,
    topic_partition: TopicPartition,
    entry: ExtentCatalogEntry,
)
    ensures
        entries_of(catalog, partition_key(topic_partition)).contains(entry) <==> catalog.contains(
            entry,
        ) && entry.reservation.topic_id == topic_partition.topic_id
            && entry.reservation.partition_id == topic_partition.partition_id,
    decreases catalog.len(),
{
    let key = partition_key(topic_partition);
    let own = entries_of(catalog, key);
    if catalog.len() > 0 {
        let shorter = catalog.drop_last();
        let earlier = entries_of(shorter, key);
        let last = catalog.last();
        partitions_are_recovered_from_their_own_batches(shorter, topic_partition, entry);
        assert(catalog.contains(entry) <==> shorter.contains(entry) || entry == last) by {
            if catalog.contains(entry) {
                let i = choose|i: int| 0 <= i < catalog.len() && catalog[i] == entry;
                if i < shorter.len() {
                    assert(shorter[i] == entry);
                }
            }
            if shorter.contains(entry) {
                let i = choose|i: int| 0 <= i < shorter.len() && shorter[i] == entry;
                assert(catalog[i] == entry);
            }
            assert(catalog[catalog.len() - 1] == last);
        }
        if partition_key(entry_partition(last)) == key {
            assert(own == earlier.push(last));
            assert(own.contains(entry) <==> earlier.contains(entry) || entry == last) by {
                if own.contains(entry) {
                    let i = choose|i: int| 0 <= i < own.len() && own[i] == entry;
                    if i < earlier.len() {
                        assert(earlier[i] == entry);
                    }
                }
                if earlier.contains(entry) {
                    let i = choose|i: int| 0 <= i < earlier.len() && earlier[i] == entry;
                    assert(own[i] == entry);
                }
                assert(own[earlier.len() as int] == last);
            }
        }
    }
}

/// A partition that was recovered holds what was stored for it: every batch that its state
/// has under a stored number has the place that was stored.
pub proof fn recovered_partitions_hold_their_batches(
    config: EngineConfig,
    events: Vec<JournalEvent>,
    catalog: Vec<ExtentCatalogEntry>,
    replicas: u32,
    states: PairMap<PartitionState>,
    journal_index: int,
    index: int,
)
    requires
        call_ensures(
            recover_partition_states,
            (&config, &events, &catalog, replicas),
            Ok::<PairMap<PartitionState>, crate::error::EngineError>(states),
        ),
        0 <= journal_index < replayed(config, events@)->Ok_0.order.len(),
        0 <= index < catalog@.len(),
        entry_partition(catalog@[index]) == replayed(config, events@)->Ok_0.order[journal_index],
    ensures
        ({
            let entry = catalog@[index];
            let m = states@[partition_key(entry_partition(entry))]@;
            m.retains(entry.reservation.batch_id) ==> m.batch(
                entry.reservation.batch_id,
            ).reservation == entry.reservation
        }),
{
    let journal = replayed(config, events@)->Ok_0;
    let entry = catalog@[index];
    let topic_partition = journal.order[journal_index];
    let key = partition_key(topic_partition);
    let state = states@[key];
    assert(recovers_to(config, journal, replicas, catalog@, topic_partition, Ok(state@)));
    let own = entries_of(catalog@, key);
    assert(catalog@.contains(entry));
    partitions_are_recovered_from_their_own_batches(catalog@, topic_partition, entry);
    let arranged = choose|arranged: Seq<ExtentCatalogEntry>| #[trigger]
        arranges(own, arranged) && recovered_partition(
            config,
            topic_partition,
            journal.part(topic_partition),
            replicas,
            arranged,
        ) == Ok::<PartitionModel, crate::error::Fault>(state@);
    assert(arranged.contains(entry)) by {
        own.to_multiset_ensures();
        arranged.to_multiset_ensures();
        assert(own.to_multiset().count(entry) > 0);
    }
    let at = choose|at: int| 0 <= at < arranged.len() && arranged[at] == entry;
    let part = journal.part(topic_partition);
    let limit = if replicas <= part.policy.replication_factor {
        replicas
    } else {
        part.policy.replication_factor
    };
    let start = fresh_start(topic_partition, part);
    start.every_stored_batch_is_recovered(topic_partition, part, limit, arranged, at);
    let end = start.after_all(topic_partition, part, limit, arranged)->Ok_0;
    let id = entry.reservation.batch_id;
    if state@.retains(id) {
        lemma_policy_stays(start, topic_partition, part, limit, arranged);
        assert(state@.batch(id) == end.model.batches[id.0 as int]);
    }
}

/// An engine recovers only if the journal knows the partition of every stored batch, and
/// then every one of them is there.
pub proof fn stored_partitions_come_back(
    config: EngineConfig,
    events: Vec<JournalEvent>,
    catalog: Vec<ExtentCatalogEntry>,
    replicas: u32,
    result: EngineResult<PairMap<PartitionState>>,
    index: int,
)
    requires
        call_ensures(recover_partition_states, (&config, &events, &catalog, replicas), result),
        result is Ok,
        0 <= index < catalog@.len(),
    ensures
        1 <= replicas <= config.replication_factor,
        result->Ok_0@.contains_key(
            (
                catalog@[index].reservation.topic_id.0,
                catalog@[index].reservation.partition_id.0 as u128,
            ),
        ),
{
    let journal = replayed(config, events@)->Ok_0;
    lemma_catalog_is_known(journal, catalog@, index);
}

proof fn lemma_catalog_is_known(
    journal: JournalModel,
    catalog: Seq<ExtentCatalogEntry>,
    index: int,
)
    requires
        catalog_obstacle(journal, catalog) is None,
        0 <= index < catalog.len(),
    ensures
        journal.knows(entry_partition(catalog[index])),
    decreases catalog.len(),
{
    if index < catalog.len() - 1 {
        assert(catalog.drop_last()[index] == catalog[index]);
        lemma_catalog_is_known(journal, catalog.drop_last(), index);
    }
}

} // verus!
