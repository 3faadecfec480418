//! Recovery of partition states from the journal and the store's catalog.
use vstd::arithmetic::div_mod::lemma_fundamental_div_mod;
use vstd::arithmetic::power2::pow2;
use vstd::prelude::*;

use crate::config::EngineConfig;
use crate::coordinator::{
    append_batch_runtime, append_response, continues, dedup_key, receipt, register_if_grouped,
    slot,
};
use crate::error::{agrees, corrupt_state, numbered, numbered2, EngineError, EngineResult, Fault};
use crate::ids::{
    BatchId, LeaderEpoch, LogicalOffset, PlacementSequence, RecordId, RingEpoch, ShardId,
    TopicPartition,
};
use crate::journal::{about_partition, PartitionJournal, PartitionJournalModel, RingModel};
use crate::maps::map_keys;
use crate::partition::{
    empty_partition, lemma_chain_is_increasing, lemma_settled_within, AtomicGroupState,
    BatchRuntime, BatchStatus, DedupRecord, GroupModel, PartitionModel, PartitionState,
    ProducerCursor,
};
use crate::protocol::{
    AtomicGroupIdentity, AtomicGroupSequence, ExtentCatalogEntry, ProducerIdentity,
    ProducerSequence,
};
use crate::sequencer::{
    copy_lanes, lane_of, ring_valid, Placement, Reservation, SequencerModel, SequencerState,
    TopicSequencer,
};
use crate::text::{append_decimal, decimal};

verus! {

broadcast use vstd::std_specs::hash::group_hash_axioms;

/// The longest run of missing batches that recovery fills in.
pub const MAX_RECOVERED_GAP_BATCHES: u128 = 1_000_000;

/// The mask that has one bit for each of `replication_factor` replicas.
pub open spec fn spec_replica_mask(replication_factor: u32) -> u64 {
    if replication_factor >= 64 {
        u64::MAX
    } else {
        (pow2(replication_factor as nat) - 1) as u64
    }
}

pub fn replica_mask(replication_factor: u32) -> (mask: u64)
    ensures
        mask == spec_replica_mask(replication_factor),
{
    if replication_factor >= 64 {
        u64::MAX
    } else {
        proof {
            vstd::bits::lemma_u64_pow2_no_overflow(replication_factor as nat);
            vstd::arithmetic::power2::lemma_pow2_pos(replication_factor as nat);
            vstd::bits::lemma_u64_shl_is_mul(1, replication_factor as u64);
        }
        (1u64 << replication_factor) - 1
    }
}

/// What is wrong with the place of a stored batch.
pub open spec fn extent_obstacle(
    rings: Seq<RingModel>,
    topic_partition: TopicPartition,
    reservation: Reservation,
) -> Option<Fault> {
    let id = reservation.batch_id.0;
    let placement = reservation.placement;
    if reservation.topic_id != topic_partition.topic_id || reservation.partition_id
        != topic_partition.partition_id || id != placement.sequence.0 {
        Some(
            Fault::CorruptState(
                "extent identity is inconsistent at batch "@ + decimal(id as nat) + ""@,
            ),
        )
    } else if !exists|i: int|
        0 <= i < rings.len() && (#[trigger] rings[i]).epoch == placement.ring_epoch {
        Some(
            Fault::CorruptState(
                "batch "@ + decimal(id as nat) + " references unknown ring epoch "@ + decimal(
                    placement.ring_epoch.0 as nat,
                ) + ""@,
            ),
        )
    } else if lane_of(ring_lanes(rings, placement.ring_epoch), placement.sequence.0)
        != placement.virtual_lane_id {
        Some(
            Fault::CorruptState(
                "batch "@ + decimal(id as nat) + " violates round-robin placement"@,
            ),
        )
    } else {
        None
    }
}

/// The lanes of a ring epoch that exists.
pub open spec fn ring_lanes(rings: Seq<RingModel>, epoch: RingEpoch) -> Seq<ShardId> {
    rings[choose|i: int| 0 <= i < rings.len() && (#[trigger] rings[i]).epoch == epoch].lanes
}

/// Finds the lanes of a ring epoch.
fn find_ring(journal: &PartitionJournal, epoch: RingEpoch) -> (lanes: Option<&Vec<ShardId>>)
    requires
        journal@.wf(),
    ensures
        match lanes {
            Some(found) => {
                &&& exists|i: int|
                    0 <= i < journal@.rings.len() && (#[trigger] journal@.rings[i]).epoch == epoch
                &&& found@ == ring_lanes(journal@.rings, epoch)
                &&& ring_valid(found@)
            },
            None => !exists|i: int|
                0 <= i < journal@.rings.len() && (#[trigger] journal@.rings[i]).epoch == epoch,
        },
{
    let mut index: usize = 0;
    while index < journal.rings.len()
        invariant
            journal@.wf(),
            index <= journal.rings@.len(),
            forall|i: int| 0 <= i < index ==> (#[trigger] journal@.rings[i]).epoch != epoch,
        decreases journal.rings@.len() - index,
    {
        assert(journal@.rings[index as int] == journal.rings@[index as int]@);
        if journal.rings[index].epoch == epoch {
            return Some(&journal.rings[index].lanes);
        }
        index += 1;
    }
    None
}

/// Checks the place of a stored batch.
pub fn validate_recovered_extent(
    journal: &PartitionJournal,
    topic_partition: TopicPartition,
    reservation: Reservation,
) -> (result: EngineResult<()>)
    requires
        journal@.wf(),
    ensures
        agrees(
            result,
            match extent_obstacle(journal@.rings, topic_partition, reservation) {
                Some(fault) => Err(fault),
                None => Ok(()),
            },
        ),
{
    let id: u128 = reservation.batch_id.0;
    let placement = reservation.placement;
    if reservation.topic_id != topic_partition.topic_id || reservation.partition_id
        != topic_partition.partition_id || id != placement.sequence.0 as u128 {
        return Err(
            EngineError::CorruptState(
                numbered("extent identity is inconsistent at batch ", id, ""),
            ),
        );
    }
    match find_ring(journal, placement.ring_epoch) {
        None => Err(
            EngineError::CorruptState(
                numbered2(
                    "batch ",
                    id,
                    " references unknown ring epoch ",
                    placement.ring_epoch.0 as u128,
                    "",
                ),
            ),
        ),
        Some(lanes) => {
            let index: usize = (placement.sequence.0 % lanes.len() as u64) as usize;
            if lanes[index] != placement.virtual_lane_id {
                return Err(
                    EngineError::CorruptState(
                        numbered("batch ", id, " violates round-robin placement"),
                    ),
                );
            }
            Ok(())
        },
    }
}

/// A run of batches that were given out but never written.
pub ghost struct Gap {
    pub topic_partition: TopicPartition,
    pub lanes: Seq<ShardId>,
    pub ring_epoch: RingEpoch,
    pub leader_epoch: LeaderEpoch,
    pub first_batch: u128,
    pub first_offset: u64,
    pub first_sequence: u64,
    pub batches: int,
    pub records: int,
}

impl Gap {
    /// Records of the `index`th batch: an even share, and one more while any is left over.
    pub open spec fn count(self, index: int) -> int {
        self.records / self.batches + if index < self.records % self.batches {
            1int
        } else {
            0int
        }
    }

    /// Where the `index`th batch starts.
    pub open spec fn offset(self, index: int) -> int {
        self.first_offset + index * (self.records / self.batches) + if index < self.records
            % self.batches {
            index
        } else {
            self.records % self.batches
        }
    }

    /// The `index`th batch, aborted.
    pub open spec fn batch(self, index: int) -> BatchRuntime {
        let sequence = (self.first_sequence + index) as u64;
        BatchRuntime {
            reservation: Reservation {
                topic_id: self.topic_partition.topic_id,
                partition_id: self.topic_partition.partition_id,
                batch_id: BatchId((self.first_batch + index) as u128),
                first_offset: LogicalOffset(self.offset(index) as u64),
                last_offset: LogicalOffset((self.offset(index) + self.count(index) - 1) as u64),
                record_count: self.count(index) as u32,
                placement: Placement {
                    virtual_lane_id: lane_of(self.lanes, sequence),
                    ring_epoch: self.ring_epoch,
                    leader_epoch: self.leader_epoch,
                    sequence: PlacementSequence(sequence),
                },
            },
            status: BatchStatus::Aborted,
            durable_replicas: 0,
            replica_acks: 0,
            producer: None,
            atomic_group: None,
            payload_digest: None,
            payload_bytes: 0,
            object_durable: false,
            record_id: RecordId(0),
        }
    }

    /// All batches of the gap.
    pub open spec fn all(self) -> Seq<BatchRuntime> {
        Seq::new(self.batches as nat, |i: int| self.batch(i))
    }
}

/// The batches of a gap tile it.
pub proof fn lemma_gap_tiles(gap: Gap, index: int)
    requires
        0 < gap.batches <= gap.records,
        0 <= index < gap.batches,
    ensures
        gap.count(index) >= 1,
        gap.offset(0) == gap.first_offset,
        gap.offset(index + 1) == gap.offset(index) + gap.count(index),
        gap.offset(gap.batches) == gap.first_offset + gap.records,
        gap.first_offset <= gap.offset(index),
        gap.offset(index + 1) <= gap.first_offset + gap.records,
{
    let n = gap.batches;
    let base = gap.records / n;
    let rem = gap.records % n;
    lemma_fundamental_div_mod(gap.records, n);
    assert(base >= 1) by (nonlinear_arith)
        requires
            gap.records == n * base + rem,
            0 <= rem < n,
            0 < n <= gap.records,
    ;
    assert((index + 1) * base == index * base + base) by (nonlinear_arith);
    assert((index + 1) * base <= n * base) by (nonlinear_arith)
        requires
            index + 1 <= n,
            base >= 1,
    ;
    assert(0 <= index * base) by (nonlinear_arith)
        requires
            0 <= index,
            base >= 1,
    ;
    assert(0 * base == 0);
}

impl PartitionModel {
    /// The state after several batches were added at the end of the log.
    pub open spec fn appended_all(self, batches: Seq<BatchRuntime>) -> (
        PartitionModel,
        Result<(), Fault>,
    )
        decreases batches.len(),
    {
        if batches.len() == 0 {
            (self, Ok(()))
        } else {
            let (earlier, result) = self.appended_all(batches.drop_last());
            match result {
                Err(fault) => (earlier, Err(fault)),
                Ok(()) => earlier.appended(batches.last()),
            }
        }
    }
}

proof fn lemma_append_fault_stays(model: PartitionModel, batches: Seq<BatchRuntime>, count: int)
    requires
        0 <= count <= batches.len(),
        model.appended_all(batches.take(count)).1 is Err,
    ensures
        model.appended_all(batches).1 == model.appended_all(batches.take(count)).1,
    decreases batches.len() - count,
{
    if count == batches.len() {
        assert(batches.take(count) =~= batches);
    } else {
        assert(batches.take(count + 1).drop_last() =~= batches.take(count));
        lemma_append_fault_stays(model, batches, count + 1);
    }
}

/// Recovery of one partition under way: the state so far and the next numbers.
#[verifier::ext_equal]
pub ghost struct Progress {
    pub model: PartitionModel,
    pub next_batch_id: u128,
    pub next_offset: u64,
    pub next_sequence: u64,
}

impl Progress {
    /// The batches so far are numbered from zero and end at the next numbers.
    pub open spec fn wf(self) -> bool {
        let m = self.model;
        &&& m.chained()
        &&& m.settled()
        &&& m.first_batch == 0
        &&& m.log_start.0 == 0
        &&& m.finalized == Map::<u128, AtomicGroupState>::empty()
        &&& m.batches.len() == self.next_batch_id
        &&& self.next_batch_id == self.next_sequence
        &&& if m.batches.len() == 0 {
            self.next_offset == 0
        } else {
            self.next_offset == m.batches.last().reservation.end()
        }
    }

    /// The state after a run of missing batches was filled in.
    pub open spec fn gap_filled(
        self,
        rings: Seq<RingModel>,
        topic_partition: TopicPartition,
        missing_batches: int,
        missing_records: int,
        ring_epoch: RingEpoch,
    ) -> Result<PartitionModel, Fault> {
        if missing_batches == 0 {
            if missing_records == 0 {
                Ok(self.model)
            } else {
                Err(Fault::CorruptState("logical offset gap has no missing reservations"@))
            }
        } else if missing_batches > MAX_RECOVERED_GAP_BATCHES || missing_records < missing_batches
            || missing_records > missing_batches * u32::MAX {
            Err(Fault::CorruptState("recovered reservation gap exceeds safety bounds"@))
        } else {
            let gap = Gap {
                topic_partition,
                lanes: ring_lanes(rings, ring_epoch),
                ring_epoch,
                leader_epoch: self.model.sequencer.leader_epoch,
                first_batch: self.next_batch_id,
                first_offset: self.next_offset,
                first_sequence: self.next_sequence,
                batches: missing_batches,
                records: missing_records,
            };
            let (model, result) = self.model.appended_all(gap.all());
            match result {
                Ok(()) => Ok(model),
                Err(fault) => Err(fault),
            }
        }
    }
}

/// The identity of a stored atomic group place.
pub open spec fn group_identity(group: Option<AtomicGroupSequence>) -> Option<AtomicGroupIdentity> {
    match group {
        None => None,
        Some(g) => Some(
            AtomicGroupIdentity {
                transaction_id: g.transaction_id,
                chunk_sequence: g.chunk_sequence,
            },
        ),
    }
}

/// The identity of a stored producer claim.
pub open spec fn claim_identity(claim: ProducerSequence) -> ProducerIdentity {
    ProducerIdentity {
        producer_id: claim.producer_id,
        epoch: claim.epoch,
        first_sequence: claim.first_sequence,
        event_id: claim.event_id,
    }
}

/// A stored batch as recovery restores it.
pub open spec fn recovered_batch(
    entry: ExtentCatalogEntry,
    outcomes: Map<u128, AtomicGroupState>,
    replicas: u32,
) -> BatchRuntime {
    let status = match entry.atomic_group {
        None => BatchStatus::Committed,
        Some(group) => if !outcomes.contains_key(group.transaction_id) {
            BatchStatus::Unresolved
        } else {
            match outcomes[group.transaction_id] {
                AtomicGroupState::Committed => BatchStatus::Committed,
                AtomicGroupState::Aborted => BatchStatus::Aborted,
                AtomicGroupState::Unresolved => BatchStatus::Unresolved,
            }
        },
    };
    let aborted = status == BatchStatus::Aborted;
    BatchRuntime {
        reservation: entry.reservation,
        status,
        durable_replicas: if aborted {
            0
        } else {
            replicas
        },
        replica_acks: if aborted {
            0
        } else {
            spec_replica_mask(replicas)
        },
        producer: match entry.producer {
            None => None,
            Some(claim) => Some(claim_identity(claim)),
        },
        atomic_group: group_identity(entry.atomic_group),
        payload_digest: match (entry.producer, entry.atomic_group) {
            (Some(claim), _) => Some(claim.payload_digest),
            (None, Some(group)) => Some(group.payload_digest),
            (None, None) => None,
        },
        payload_bytes: entry.payload_bytes,
        object_durable: entry.object_durable,
        record_id: entry.record_id,
    }
}

impl PartitionModel {
    /// The state after a stored producer claim was restored.
    pub open spec fn producer_restored(
        self,
        reservation: Reservation,
        producer: Option<ProducerSequence>,
        durable_replicas: u32,
        object_durable: bool,
        record_id: RecordId,
    ) -> (PartitionModel, Result<(), Fault>) {
        match producer {
            None => (self, Ok(())),
            Some(claim) => {
                let kept = PartitionModel {
                    dedup: self.dedup.insert(
                        dedup_key(claim_identity(claim)),
                        DedupRecord {
                            digest_algorithm: claim.digest_algorithm,
                            payload_digest: claim.payload_digest,
                            event_id: claim.event_id,
                            record_count: reservation.record_count,
                            durable_replicas,
                            object_durable,
                            response: receipt(0, reservation, record_id),
                        },
                    ),
                    ..self
                };
                let id = claim.producer_id;
                let next = claim.first_sequence + reservation.record_count;
                let cursor = self.producers[id];
                if next > u64::MAX {
                    (kept, Err(Fault::CorruptState("producer sequence overflow"@)))
                } else if !self.producers.contains_key(id) || claim.epoch > cursor.epoch {
                    (
                        PartitionModel {
                            producers: self.producers.insert(
                                id,
                                ProducerCursor {
                                    epoch: claim.epoch,
                                    next_sequence: next as u64,
                                    failed: false,
                                },
                            ),
                            ..kept
                        },
                        Ok(()),
                    )
                } else if claim.epoch == cursor.epoch && next > cursor.next_sequence {
                    (
                        PartitionModel {
                            producers: self.producers.insert(
                                id,
                                ProducerCursor { next_sequence: next as u64, ..cursor },
                            ),
                            ..kept
                        },
                        Ok(()),
                    )
                } else {
                    (kept, Ok(()))
                }
            },
        }
    }
}

impl Progress {
    /// The state after a stored batch took its place behind the gap before it.
    pub open spec fn entry_placed(
        self,
        model: PartitionModel,
        outcomes: Map<u128, AtomicGroupState>,
        replicas: u32,
        entry: ExtentCatalogEntry,
    ) -> Result<Progress, Fault> {
        let reservation = entry.reservation;
        let (appended, result) = model.appended(recovered_batch(entry, outcomes, replicas));
        match result {
            Err(fault) => Err(fault),
            Ok(()) => {
                let (registered, result) = appended.registered_if_grouped(
                    group_identity(entry.atomic_group),
                    reservation,
                    entry.payload_bytes,
                );
                match result {
                    Err(fault) => Err(fault),
                    Ok(()) => {
                        let (restored, result) = registered.producer_restored(
                            reservation,
                            entry.producer,
                            replicas,
                            entry.object_durable,
                            entry.record_id,
                        );
                        match result {
                            Err(fault) => Err(fault),
                            Ok(()) => if reservation.placement.sequence.0 == u64::MAX {
                                Err(Fault::CorruptState("placement sequence exhausted"@))
                            } else {
                                Ok(
                                    Progress {
                                        model: restored,
                                        next_batch_id: (reservation.batch_id.0 + 1) as u128,
                                        next_offset: reservation.end() as u64,
                                        next_sequence: (reservation.placement.sequence.0
                                            + 1) as u64,
                                    },
                                )
                            },
                        }
                    },
                }
            },
        }
    }

    /// Recovery after one more stored batch.
    pub open spec fn after(
        self,
        topic_partition: TopicPartition,
        journal: PartitionJournalModel,
        replicas: u32,
        entry: ExtentCatalogEntry,
    ) -> Result<Progress, Fault> {
        let reservation = entry.reservation;
        let sequence = reservation.placement.sequence.0;
        match extent_obstacle(journal.rings, topic_partition, reservation) {
            Some(fault) => Err(fault),
            None => if reservation.first_offset.0 < self.next_offset || reservation.batch_id.0
                < self.next_batch_id || sequence < self.next_sequence {
                Err(
                    Fault::CorruptState(
                        "extent overlap or sequence regression at batch "@ + decimal(
                            reservation.batch_id.0 as nat,
                        ) + ""@,
                    ),
                )
            } else if reservation.batch_id.0 - self.next_batch_id != sequence
                - self.next_sequence {
                Err(
                    Fault::CorruptState(
                        "batch and placement gaps disagree before batch "@ + decimal(
                            reservation.batch_id.0 as nat,
                        ) + ""@,
                    ),
                )
            } else {
                match self.gap_filled(
                    journal.rings,
                    topic_partition,
                    reservation.batch_id.0 - self.next_batch_id,
                    reservation.first_offset.0 - self.next_offset,
                    reservation.placement.ring_epoch,
                ) {
                    Err(fault) => Err(fault),
                    Ok(filled) => self.entry_placed(filled, journal.outcomes, replicas, entry),
                }
            },
        }
    }

    /// Recovery after all stored batches, in order, or the first fault in them.
    pub open spec fn after_all(
        self,
        topic_partition: TopicPartition,
        journal: PartitionJournalModel,
        replicas: u32,
        entries: Seq<ExtentCatalogEntry>,
    ) -> Result<Progress, Fault>
        decreases entries.len(),
    {
        if entries.len() == 0 {
            Ok(self)
        } else {
            match self.after_all(topic_partition, journal, replicas, entries.drop_last()) {
                Err(fault) => Err(fault),
                Ok(progress) => progress.after(topic_partition, journal, replicas, entries.last()),
            }
        }
    }
}

proof fn lemma_entry_fault_stays(
    start: Progress,
    topic_partition: TopicPartition,
    journal: PartitionJournalModel,
    replicas: u32,
    entries: Seq<ExtentCatalogEntry>,
    count: int,
)
    requires
        0 <= count <= entries.len(),
        start.after_all(topic_partition, journal, replicas, entries.take(count)) is Err,
    ensures
        start.after_all(topic_partition, journal, replicas, entries) == start.after_all(
            topic_partition,
            journal,
            replicas,
            entries.take(count),
        ),
    decreases entries.len() - count,
{
    if count == entries.len() {
        assert(entries.take(count) =~= entries);
    } else {
        assert(entries.take(count + 1).drop_last() =~= entries.take(count));
        lemma_entry_fault_stays(start, topic_partition, journal, replicas, entries, count + 1);
    }
}

/// Fills a run of missing batches with aborted ones.
fn append_recovered_aborts(
    state: &mut PartitionState,
    journal: &PartitionJournal,
    topic_partition: TopicPartition,
    Ghost(progress): Ghost<Progress>,
    first_batch_id: u128,
    first_offset: u64,
    first_sequence: u64,
    missing_batches: u128,
    missing_records: u64,
    ring_epoch: RingEpoch,
) -> (result: EngineResult<()>)
    requires
        old(state).sound(),
        journal@.wf(),
        progress.wf(),
        progress.model == old(state)@,
        progress.next_batch_id == first_batch_id,
        progress.next_offset == first_offset,
        progress.next_sequence == first_sequence,
        exists|i: int|
            0 <= i < journal@.rings.len() && (#[trigger] journal@.rings[i]).epoch == ring_epoch,
        first_offset + missing_records < u64::MAX,
        first_sequence + missing_batches <= u64::MAX,
    ensures
        final(state).sound(),
        match (
            result,
            progress.gap_filled(
                journal@.rings,
                topic_partition,
                missing_batches as int,
                missing_records as int,
                ring_epoch,
            ),
        ) {
            (Ok(()), Ok(model)) => {
                &&& final(state)@ == model
                &&& model.settled()
                &&& model.first_batch == 0
                &&& model.log_start.0 == 0
                &&& model.batches.len() == first_batch_id + missing_batches
                &&& model.sequencer == progress.model.sequencer
                &&& model.finalized == progress.model.finalized
                &&& if model.batches.len() == 0 {
                    first_offset + missing_records == 0
                } else {
                    model.batches.last().reservation.end() == first_offset + missing_records
                }
            },
            (Err(error), Err(fault)) => error@ == fault,
            _ => false,
        },
{
    if missing_batches == 0 {
        if missing_records == 0 {
            return Ok(());
        }
        return Err(corrupt_state("logical offset gap has no missing reservations"));
    }
    if missing_batches > MAX_RECOVERED_GAP_BATCHES {
        return Err(corrupt_state("recovered reservation gap exceeds safety bounds"));
    }
    let batches: u64 = missing_batches as u64;
    if missing_records < batches || missing_records > batches * u32::MAX as u64 {
        return Err(corrupt_state("recovered reservation gap exceeds safety bounds"));
    }
    let lanes = match find_ring(journal, ring_epoch) {
        None => {
            return Err(corrupt_state("recovered gap references an unknown ring"));
        },
        Some(lanes) => lanes,
    };
    let base: u64 = missing_records / batches;
    let remainder: u64 = missing_records % batches;
    let leader_epoch = state.sequencer.leader_epoch();
    let ghost gap = Gap {
        topic_partition,
        lanes: lanes@,
        ring_epoch,
        leader_epoch,
        first_batch: first_batch_id,
        first_offset,
        first_sequence,
        batches: missing_batches as int,
        records: missing_records as int,
    };
    let ghost start = state@;
    proof {
        lemma_gap_tiles(gap, 0);
        lemma_fundamental_div_mod(missing_records as int, batches as int);
        assert(base <= u32::MAX && (base == u32::MAX ==> remainder == 0)) by (nonlinear_arith)
            requires
                missing_records == batches * base + remainder,
                missing_records <= batches * u32::MAX,
                0 <= remainder < batches,
        ;
        assert(gap.all().take(0) =~= Seq::<BatchRuntime>::empty());
    }
    let mut offset: u64 = first_offset;
    let mut index: u64 = 0;
    while index < batches
        invariant
            state.sound(),
            state@.settled(),
            ring_valid(lanes@),
            index <= batches == missing_batches,
            0 < gap.batches <= gap.records,
            gap.batches == batches,
            gap.records == missing_records,
            gap == (Gap {
                topic_partition,
                lanes: lanes@,
                ring_epoch,
                leader_epoch,
                first_batch: first_batch_id,
                first_offset,
                first_sequence,
                batches: missing_batches as int,
                records: missing_records as int,
            }),
            base == gap.records / gap.batches,
            remainder == gap.records % gap.batches,
            base <= u32::MAX,
            base == u32::MAX ==> remainder == 0,
            offset == gap.offset(index as int),
            first_offset + missing_records < u64::MAX,
            first_sequence + missing_batches <= u64::MAX,
            first_batch_id == first_sequence,
            start.appended_all(gap.all().take(index as int)) == (state@, Ok::<(), Fault>(())),
            state@.first_batch == 0,
            state@.log_start.0 == 0,
            state@.sequencer == start.sequencer,
            state@.finalized == start.finalized,
            state@.batches.len() == first_batch_id + index,
            state@.batches.len() > 0 ==> state@.batches.last().reservation.end() == offset,
            leader_epoch == start.sequencer.leader_epoch,
            progress.model == start,
            progress.next_batch_id == first_batch_id,
            progress.next_offset == first_offset,
            progress.next_sequence == first_sequence,
            lanes@ == ring_lanes(journal@.rings, ring_epoch),
            missing_batches <= MAX_RECOVERED_GAP_BATCHES,
            missing_records <= missing_batches * u32::MAX,
        decreases batches - index,
    {
        proof {
            lemma_gap_tiles(gap, index as int);
        }
        let count: u64 = if index < remainder {
            base + 1
        } else {
            base
        };
        let sequence: u64 = first_sequence + index;
        let lane_index: usize = (sequence % lanes.len() as u64) as usize;
        let batch = BatchRuntime {
            reservation: Reservation {
                topic_id: topic_partition.topic_id,
                partition_id: topic_partition.partition_id,
                batch_id: BatchId(first_batch_id + index as u128),
                first_offset: LogicalOffset(offset),
                last_offset: LogicalOffset(offset + (count - 1)),
                record_count: count as u32,
                placement: Placement {
                    virtual_lane_id: lanes[lane_index],
                    ring_epoch,
                    leader_epoch,
                    sequence: PlacementSequence(sequence),
                },
            },
            status: BatchStatus::Aborted,
            durable_replicas: 0,
            replica_acks: 0,
            producer: None,
            atomic_group: None,
            payload_digest: None,
            payload_bytes: 0,
            object_durable: false,
            record_id: RecordId(0),
        };
        proof {
            assert(batch == gap.batch(index as int));
            assert(gap.all().take(index + 1).drop_last() =~= gap.all().take(index as int));
            assert(gap.all().take(index + 1).last() == batch);
            assert(continues(state@, batch));
        }
        match append_batch_runtime(state, batch) {
            Err(error) => {
                proof {
                    lemma_append_fault_stays(start, gap.all(), index + 1);
                }
                return Err(error);
            },
            Ok(()) => {},
        }
        offset = offset + count;
        index += 1;
    }
    proof {
        assert(gap.all().take(index as int) =~= gap.all());
    }
    Ok(())
}

/// Restores a stored producer claim.
pub fn restore_producer(
    state: &mut PartitionState,
    reservation: Reservation,
    producer: Option<ProducerSequence>,
    durable_replicas: u32,
    object_durable: bool,
    record_id: RecordId,
) -> (result: EngineResult<()>)
    ensures
        agrees(
            result,
            old(state)@.producer_restored(
                reservation,
                producer,
                durable_replicas,
                object_durable,
                record_id,
            ).1,
        ),
        final(state)@ == old(state)@.producer_restored(
            reservation,
            producer,
            durable_replicas,
            object_durable,
            record_id,
        ).0,
        final(state).sequencer == old(state).sequencer,
        final(state).batches == old(state).batches,
{
    let claim = match producer {
        None => {
            return Ok(());
        },
        Some(claim) => claim,
    };
    let record = DedupRecord {
        digest_algorithm: claim.digest_algorithm,
        payload_digest: claim.payload_digest,
        event_id: claim.event_id,
        record_count: reservation.record_count,
        durable_replicas,
        object_durable,
        response: append_response(0, reservation, record_id),
    };
    state.dedup.insert(claim.producer_id, slot(claim.epoch, claim.first_sequence), record);
    let next_sequence: u64 = match claim.first_sequence.checked_add(
        reservation.record_count as u64,
    ) {
        Some(next_sequence) => next_sequence,
        None => {
            return Err(corrupt_state("producer sequence overflow"));
        },
    };
    let updated: Option<ProducerCursor> = match state.producers.get(&claim.producer_id) {
        None => Some(ProducerCursor { epoch: claim.epoch, next_sequence, failed: false }),
        Some(cursor) => if claim.epoch > cursor.epoch {
            Some(ProducerCursor { epoch: claim.epoch, next_sequence, failed: false })
        } else if claim.epoch == cursor.epoch && next_sequence > cursor.next_sequence {
            Some(ProducerCursor { epoch: cursor.epoch, next_sequence, failed: cursor.failed })
        } else {
            None
        },
    };
    if let Some(cursor) = updated {
        state.producers.insert(claim.producer_id, cursor);
    }
    Ok(())
}

fn restore_batch(entry: &ExtentCatalogEntry, journal: &PartitionJournal, replicas: u32) -> (batch:
    BatchRuntime)
    ensures
        batch == recovered_batch(*entry, journal@.outcomes, replicas),
{
    let status = match entry.atomic_group {
        None => BatchStatus::Committed,
        Some(group) => match journal.outcomes.get(&group.transaction_id) {
            None => BatchStatus::Unresolved,
            Some(AtomicGroupState::Committed) => BatchStatus::Committed,
            Some(AtomicGroupState::Aborted) => BatchStatus::Aborted,
            Some(AtomicGroupState::Unresolved) => BatchStatus::Unresolved,
        },
    };
    let aborted = status == BatchStatus::Aborted;
    BatchRuntime {
        reservation: entry.reservation,
        status,
        durable_replicas: if aborted {
            0
        } else {
            replicas
        },
        replica_acks: if aborted {
            0
        } else {
            replica_mask(replicas)
        },
        producer: match entry.producer {
            None => None,
            Some(claim) => Some(
                ProducerIdentity {
                    producer_id: claim.producer_id,
                    epoch: claim.epoch,
                    first_sequence: claim.first_sequence,
                    event_id: claim.event_id,
                },
            ),
        },
        atomic_group: to_group_identity(entry.atomic_group),
        payload_digest: match entry.producer {
            Some(claim) => Some(claim.payload_digest),
            None => match entry.atomic_group {
                Some(group) => Some(group.payload_digest),
                None => None,
            },
        },
        payload_bytes: entry.payload_bytes,
        object_durable: entry.object_durable,
        record_id: entry.record_id,
    }
}

fn to_group_identity(group: Option<AtomicGroupSequence>) -> (identity: Option<AtomicGroupIdentity>)
    ensures
        identity == group_identity(group),
{
    match group {
        None => None,
        Some(g) => Some(
            AtomicGroupIdentity {
                transaction_id: g.transaction_id,
                chunk_sequence: g.chunk_sequence,
            },
        ),
    }
}

/// Recovery of one partition as it goes on.
struct Recovering {
    state: PartitionState,
    next_batch_id: u128,
    next_offset: u64,
    next_sequence: u64,
}

impl View for Recovering {
    type V = Progress;

    closed spec fn view(&self) -> Progress {
        Progress {
            model: self.state@,
            next_batch_id: self.next_batch_id,
            next_offset: self.next_offset,
            next_sequence: self.next_sequence,
        }
    }
}

impl Recovering {
    spec fn wf(self) -> bool {
        self.state.sound() && self@.wf()
    }

    /// Takes one more stored batch into account.
    fn observe(
        &mut self,
        topic_partition: TopicPartition,
        journal: &PartitionJournal,
        replicas: u32,
        entry: &ExtentCatalogEntry,
    ) -> (result: EngineResult<()>)
        requires
            old(self).wf(),
            journal@.wf(),
            entry.reservation.spans(),
        ensures
            match (result, old(self)@.after(topic_partition, journal@, replicas, *entry)) {
                (Ok(()), Ok(progress)) => {
                    &&& final(self)@ == progress
                    &&& final(self).wf()
                    &&& final(self)@.model.sequencer == old(self)@.model.sequencer
                },
                (Err(error), Err(fault)) => error@ == fault,
                _ => false,
            },
    {
        let reservation = entry.reservation;
        let ghost before = self@;
        match validate_recovered_extent(journal, topic_partition, reservation) {
            Err(error) => {
                return Err(error);
            },
            Ok(()) => {},
        }
        let sequence: u64 = reservation.placement.sequence.0;
        if reservation.first_offset.0 < self.next_offset || reservation.batch_id.0
            < self.next_batch_id || sequence < self.next_sequence {
            return Err(
                EngineError::CorruptState(
                    numbered(
                        "extent overlap or sequence regression at batch ",
                        reservation.batch_id.0,
                        "",
                    ),
                ),
            );
        }
        let missing_batches: u128 = reservation.batch_id.0 - self.next_batch_id;
        let missing_sequences: u64 = sequence - self.next_sequence;
        let missing_records: u64 = reservation.first_offset.0 - self.next_offset;
        if missing_batches != missing_sequences as u128 {
            return Err(
                EngineError::CorruptState(
                    numbered(
                        "batch and placement gaps disagree before batch ",
                        reservation.batch_id.0,
                        "",
                    ),
                ),
            );
        }
        match append_recovered_aborts(
            &mut self.state,
            journal,
            topic_partition,
            Ghost(before),
            self.next_batch_id,
            self.next_offset,
            self.next_sequence,
            missing_batches,
            missing_records,
            reservation.placement.ring_epoch,
        ) {
            Err(error) => {
                return Err(error);
            },
            Ok(()) => {},
        }
        let batch = restore_batch(entry, journal, replicas);
        let ghost filled = self.state@;
        proof {
            assert(continues(filled, batch));
        }
        match append_batch_runtime(&mut self.state, batch) {
            Err(error) => {
                return Err(error);
            },
            Ok(()) => {},
        }
        match register_if_grouped(
            &mut self.state,
            to_group_identity(entry.atomic_group),
            reservation,
            entry.payload_bytes,
        ) {
            Err(error) => {
                return Err(error);
            },
            Ok(()) => {},
        }
        match restore_producer(
            &mut self.state,
            reservation,
            entry.producer,
            replicas,
            entry.object_durable,
            entry.record_id,
        ) {
            Err(error) => {
                return Err(error);
            },
            Ok(()) => {},
        }
        self.next_offset = reservation.last_offset.0 + 1;
        self.next_batch_id = reservation.batch_id.0 + 1;
        self.next_sequence = match sequence.checked_add(1) {
            Some(next_sequence) => next_sequence,
            None => {
                return Err(corrupt_state("placement sequence exhausted"));
            },
        };
        Ok(())
    }
}

/// The leader epoch of the last batch.
pub open spec fn last_leader_epoch(model: PartitionModel) -> LeaderEpoch {
    if model.batches.len() == 0 {
        LeaderEpoch(0)
    } else {
        model.batches.last().reservation.placement.leader_epoch
    }
}

fn entries_leader_epoch(state: &PartitionState) -> (epoch: LeaderEpoch)
    requires
        state.sound(),
    ensures
        epoch == last_leader_epoch(state@),
{
    proof {
        state.batches.lemma_wf();
    }
    let next: u128 = state.batches.next_key();
    if state.batches.len() == 0 {
        return LeaderEpoch(0);
    }
    match state.batch_of(BatchId(next - 1)) {
        Some(batch) => batch.reservation.placement.leader_epoch,
        None => LeaderEpoch(0),
    }
}

/// Groups with the outcomes that the journal gives them.
pub open spec fn decided_groups(
    groups: Map<u128, GroupModel>,
    outcomes: Map<u128, AtomicGroupState>,
) -> Map<u128, GroupModel> {
    Map::new(
        |id: u128| groups.contains_key(id),
        |id: u128|
            GroupModel {
                state: if outcomes.contains_key(id) {
                    outcomes[id]
                } else {
                    AtomicGroupState::Unresolved
                },
                ..groups[id]
            },
    )
}

fn decide_groups(state: &mut PartitionState, journal: &PartitionJournal)
    ensures
        final(state)@ == (PartitionModel {
            groups: decided_groups(old(state)@.groups, journal@.outcomes),
            ..old(state)@
        }),
        final(state).sequencer == old(state).sequencer,
        final(state).batches == old(state).batches,
{
    let keys = map_keys(&state.atomic_groups);
    let ghost before = state@;
    let ghost decided = decided_groups(before.groups, journal@.outcomes);
    let mut index: usize = 0;
    while index < keys.len()
        invariant
            index <= keys@.len(),
            keys@.no_duplicates(),
            forall|id: u128| #[trigger] keys@.contains(id) <==> before.groups.contains_key(id),
            decided == decided_groups(before.groups, journal@.outcomes),
            state@ == (PartitionModel { groups: state@.groups, ..before }),
            state.sequencer == old(state).sequencer,
            state.batches == old(state).batches,
            forall|id: u128| #[trigger]
                state@.groups.contains_key(id) <==> before.groups.contains_key(id),
            forall|i: int|
                0 <= i < keys@.len() ==> state@.groups[#[trigger] keys@[i]] == (if i < index {
                    decided[keys@[i]]
                } else {
                    before.groups[keys@[i]]
                }),
        decreases keys@.len() - index,
    {
        let id: u128 = keys[index];
        assert(keys@.contains(keys@[index as int]));
        let outcome = match journal.outcomes.get(&id) {
            Some(outcome) => *outcome,
            None => AtomicGroupState::Unresolved,
        };
        let ghost held = state@.groups;
        assert(held.contains_key(id));
        if let Some(mut group) = state.atomic_groups.remove(&id) {
            assert(held[id] == group@);
            group.state = outcome;
            let ghost model = group@;
            state.atomic_groups.insert(id, group);
            proof {
                assert(state@.groups =~= held.insert(id, model));
            }
        }
        proof {
            assert(held[keys@[index as int]] == before.groups[id]);
            assert(state@.groups[id] == decided[id]);
            assert forall|i: int| 0 <= i < keys@.len() implies state@.groups[#[trigger] keys@[i]]
                == (if i < index + 1 {
                decided[keys@[i]]
            } else {
                before.groups[keys@[i]]
            }) by {
                if i != index {
                    assert(keys@[i] != keys@[index as int]);
                }
            }
            assert(state@ =~= (PartitionModel { groups: state@.groups, ..before }));
        }
        index += 1;
    }
    proof {
        assert forall|id: u128| before.groups.contains_key(id) implies state@.groups[id]
            == #[trigger] decided[id] by {
            assert(keys@.contains(id));
            let i = choose|i: int| 0 <= i < keys@.len() && keys@[i] == id;
            assert(state@.groups[keys@[i]] == decided[keys@[i]]);
        }
        assert(state@.groups =~= decided);
        assert(state@ =~= (PartitionModel { groups: decided, ..before }));
    }
}

/// The state that the stored batches of a partition, in the order of their
/// offsets, leave behind before retention.
pub open spec fn assembled(
    topic_partition: TopicPartition,
    journal: PartitionJournalModel,
    replicas: u32,
    entries: Seq<ExtentCatalogEntry>,
) -> Result<PartitionModel, Fault> {
    let ring = journal.rings.last();
    let fresh = SequencerModel {
        topic_id: topic_partition.topic_id,
        partition_id: topic_partition.partition_id,
        ring_epoch: ring.epoch,
        leader_epoch: LeaderEpoch(0),
        virtual_lanes: ring.lanes,
        next_batch_id: 0,
        next_offset: 0,
        next_placement_sequence: 0,
    };
    let start = Progress {
        model: empty_partition(fresh, journal.policy),
        next_batch_id: 0,
        next_offset: 0,
        next_sequence: 0,
    };
    let limit = if replicas <= journal.policy.replication_factor {
        replicas
    } else {
        journal.policy.replication_factor
    };
    match start.after_all(topic_partition, journal, limit, entries) {
        Err(fault) => Err(fault),
        Ok(end) => Ok(
            PartitionModel {
                groups: decided_groups(end.model.groups, journal.outcomes),
                finalized: journal.outcomes,
                sequencer: SequencerModel {
                    leader_epoch: last_leader_epoch(end.model),
                    next_batch_id: end.next_batch_id,
                    next_offset: end.next_offset,
                    next_placement_sequence: end.next_sequence,
                    ..fresh
                },
                ..end.model
            },
        ),
    }
}

impl PartitionModel {
    /// Recovery keeps the batches from `key` on when the log starts at `log_start`.
    pub open spec fn recovers_from(self, log_start: LogicalOffset, key: u128) -> bool {
        if log_start == self.contiguous.offset {
            key == self.first_batch + self.batches.len()
        } else {
            log_start.0 < self.contiguous.offset.0 && self.starts_at(log_start, key)
        }
    }
}

/// The recovered state of a partition, or why it cannot be recovered.
pub open spec fn recovered_partition(
    config: EngineConfig,
    topic_partition: TopicPartition,
    journal: PartitionJournalModel,
    replicas: u32,
    entries: Seq<ExtentCatalogEntry>,
) -> Result<PartitionModel, Fault> {
    match journal.policy.fault(config.replication_factor) {
        Some(text) => Err(Fault::InvalidConfig(text)),
        None => match assembled(topic_partition, journal, replicas, entries) {
            Err(fault) => Err(fault),
            Ok(model) => if !exists|key: u128| model.recovers_from(journal.log_start, key) {
                Err(
                    Fault::CorruptState(
                        about_partition(
                            "invalid recovered log start "@ + decimal(journal.log_start.0 as nat)
                                + " for "@,
                            topic_partition,
                        ),
                    ),
                )
            } else {
                let key = choose|key: u128| model.recovers_from(journal.log_start, key);
                Ok(
                    PartitionModel {
                        log_start: journal.log_start,
                        first_batch: key,
                        batches: model.batches.skip(key - model.first_batch),
                        ..model
                    }.remeasured(),
                )
            },
        },
    }
}

/// Restores one partition from its journal and its stored batches in the order
/// of their offsets.
pub fn recover_partition(
    config: &EngineConfig,
    topic_partition: TopicPartition,
    journal: &PartitionJournal,
    replicas: u32,
    entries: &Vec<ExtentCatalogEntry>,
) -> (result: EngineResult<PartitionState>)
    requires
        journal@.wf(),
        forall|i: int| 0 <= i < entries@.len() ==> (#[trigger] entries@[i]).reservation.spans(),
    ensures
        match (
            result,
            recovered_partition(*config, topic_partition, journal@, replicas, entries@),
        ) {
            (Ok(state), Ok(model)) => state@ == model && state.wf(),
            (Err(error), Err(fault)) => error@ == fault,
            _ => false,
        },
        result is Ok ==> forall|i: int|
            0 <= i < entries@.len() && (#[trigger] entries@[i]).reservation.first_offset.0
                >= journal@.log_start.0 ==> result->Ok_0@.retains(entries@[i].reservation.batch_id),
{
    match journal.policy.validate(config.replication_factor) {
        Err(error) => {
            return Err(error);
        },
        Ok(()) => {},
    }
    let limit: u32 = if replicas <= journal.policy.replication_factor {
        replicas
    } else {
        journal.policy.replication_factor
    };
    let last: usize = journal.rings.len() - 1;
    assert(journal@.rings[last as int] == journal.rings@[last as int]@);
    let ring_epoch = journal.rings[last].epoch;
    let sequencer = match TopicSequencer::new(
        topic_partition.topic_id,
        topic_partition.partition_id,
        ring_epoch,
        copy_lanes(&journal.rings[last].lanes),
    ) {
        Err(error) => {
            return Err(EngineError::Sequencer(error));
        },
        Ok(sequencer) => sequencer,
    };
    let ghost fresh = sequencer@;
    let mut recovering = Recovering {
        state: PartitionState::empty(sequencer, journal.policy),
        next_batch_id: 0,
        next_offset: 0,
        next_sequence: 0,
    };
    let ghost start = recovering@;
    let mut index: usize = 0;
    while index < entries.len()
        invariant
            journal@.wf(),
            forall|i: int| 0 <= i < entries@.len() ==> (#[trigger] entries@[i]).reservation.spans(),
            index <= entries@.len(),
            recovering.wf(),
            recovering@.model.sequencer == fresh,
            start.after_all(topic_partition, journal@, limit, entries@.take(index as int)) == Ok::<
                Progress,
                Fault,
            >(recovering@),
            journal@.policy.fault(config.replication_factor) is None,
            limit == (if replicas <= journal@.policy.replication_factor {
                replicas
            } else {
                journal@.policy.replication_factor
            }),
            fresh == (SequencerModel {
                topic_id: topic_partition.topic_id,
                partition_id: topic_partition.partition_id,
                ring_epoch: journal@.rings.last().epoch,
                leader_epoch: LeaderEpoch(0),
                virtual_lanes: journal@.rings.last().lanes,
                next_batch_id: 0,
                next_offset: 0,
                next_placement_sequence: 0,
            }),
            start == (Progress {
                model: empty_partition(fresh, journal@.policy),
                next_batch_id: 0,
                next_offset: 0,
                next_sequence: 0,
            }),
        decreases entries@.len() - index,
    {
        proof {
            assert(entries@.take(index + 1).drop_last() =~= entries@.take(index as int));
            assert(entries@[index as int].reservation.spans());
        }
        match recovering.observe(topic_partition, journal, limit, &entries[index]) {
            Err(error) => {
                proof {
                    lemma_entry_fault_stays(
                        start,
                        topic_partition,
                        journal@,
                        limit,
                        entries@,
                        index + 1,
                    );
                }
                return Err(error);
            },
            Ok(()) => {},
        }
        index += 1;
    }
    proof {
        assert(entries@.take(index as int) =~= entries@);
    }
    let Recovering { state, next_batch_id, next_offset, next_sequence } = recovering;
    let mut state = state;
    let ghost end = state@;
    decide_groups(&mut state, journal);
    copy_outcomes(&mut state, journal);
    let restored = TopicSequencer::restore(
        SequencerState {
            topic_id: topic_partition.topic_id,
            partition_id: topic_partition.partition_id,
            ring_epoch,
            leader_epoch: entries_leader_epoch(&state),
            virtual_lanes: copy_lanes(&journal.rings[last].lanes),
            next_batch_id,
            next_offset,
            next_placement_sequence: next_sequence,
        },
    );
    match restored {
        Err(error) => {
            return Err(EngineError::Sequencer(error));
        },
        Ok(sequencer) => {
            state.sequencer = sequencer;
        },
    }
    proof {
        lemma_settled_within(state@, next_offset);
        assert(assembled(topic_partition, journal@, replicas, entries@) == Ok::<
            PartitionModel,
            Fault,
        >(state@));
        start.lemma_finished(topic_partition, journal@, limit, entries@);
    }
    let ghost whole = state@;
    let retained = retain_recovered(state, topic_partition, journal.log_start);
    proof {
        if retained is Ok {
            assert forall|i: int|
                0 <= i < entries@.len() && (#[trigger] entries@[i]).reservation.first_offset.0
                    >= journal@.log_start.0 implies retained->Ok_0@.retains(
                entries@[i].reservation.batch_id,
            ) by {
                start.every_stored_batch_is_recovered(
                    topic_partition,
                    journal@,
                    limit,
                    entries@,
                    i,
                );
                let id = entries@[i].reservation.batch_id.0 as int;
                assert(whole.batches[id].reservation == entries@[i].reservation);
            }
        }
    }
    retained
}

/// Takes over the outcomes that the journal knows.
fn copy_outcomes(state: &mut PartitionState, journal: &PartitionJournal)
    requires
        old(state)@.finalized == Map::<u128, AtomicGroupState>::empty(),
    ensures
        final(state)@ == (PartitionModel { finalized: journal@.outcomes, ..old(state)@ }),
        final(state).sequencer == old(state).sequencer,
        final(state).batches == old(state).batches,
{
    let keys = map_keys(&journal.outcomes);
    let ghost before = state@;
    let mut index: usize = 0;
    while index < keys.len()
        invariant
            index <= keys@.len(),
            forall|id: u128| #[trigger] keys@.contains(id) <==> journal@.outcomes.contains_key(id),
            state@ == (PartitionModel { finalized: state@.finalized, ..before }),
            state.sequencer == old(state).sequencer,
            state.batches == old(state).batches,
            forall|id: u128| #[trigger]
                state@.finalized.contains_key(id) <==> keys@.take(index as int).contains(id),
            forall|id: u128| #[trigger]
                state@.finalized.contains_key(id) ==> state@.finalized[id]
                    == journal@.outcomes[id],
        decreases keys@.len() - index,
    {
        let id: u128 = keys[index];
        let ghost earlier = keys@.take(index as int);
        proof {
            assert(keys@.contains(keys@[index as int]));
            assert(keys@.take(index + 1) =~= earlier.push(id));
            assert forall|x: u128| #[trigger] keys@.take(index + 1).contains(x)
                <==> earlier.contains(x) || x == id by {
                if earlier.contains(x) {
                    let i = choose|i: int| 0 <= i < earlier.len() && earlier[i] == x;
                    assert(keys@.take(index + 1)[i] == x);
                }
                assert(keys@.take(index + 1)[index as int] == id);
            }
        }
        if let Some(outcome) = journal.outcomes.get(&id) {
            state.finalized_groups.insert(id, *outcome);
        }
        proof {
            assert(state@ =~= (PartitionModel { finalized: state@.finalized, ..before }));
        }
        index += 1;
    }
    proof {
        assert(keys@.take(index as int) =~= keys@);
        assert(state@.finalized =~= journal@.outcomes);
    }
}

/// Starts a recovered log where retention left it.
fn retain_recovered(
    recovered: PartitionState,
    topic_partition: TopicPartition,
    log_start: LogicalOffset,
) -> (result: EngineResult<PartitionState>)
    requires
        recovered.sound(),
        recovered@.aligned(),
        recovered@.settled(),
        recovered@.batches.len() > 0 ==> recovered@.batches[0].reservation.first_offset
            == recovered@.log_start,
        forall|i: int|
            0 <= i < recovered@.batches.len() ==> (#[trigger] recovered@.batches[i]).status
                != BatchStatus::Pending,
    ensures
        match result {
            Ok(state) => {
                &&& state.wf()
                &&& forall|i: int|
                    0 <= i < recovered@.batches.len() && (
                    #[trigger] recovered@.batches[i]).reservation.first_offset.0 >= log_start.0
                        ==> state@.retains(BatchId((recovered@.first_batch + i) as u128))
                &&& exists|key: u128| #[trigger] recovered@.recovers_from(log_start, key)
                &&& state@ == (PartitionModel {
                    log_start,
                    first_batch: choose|key: u128| recovered@.recovers_from(log_start, key),
                    batches: recovered@.batches.skip(
                        (choose|key: u128| recovered@.recovers_from(log_start, key))
                            - recovered@.first_batch,
                    ),
                    ..recovered@
                }).remeasured()
            },
            Err(error) => {
                &&& !exists|key: u128| recovered@.recovers_from(log_start, key)
                &&& error@ == Fault::CorruptState(
                    about_partition(
                        "invalid recovered log start "@ + decimal(log_start.0 as nat) + " for "@,
                        topic_partition,
                    ),
                )
            },
        },
{
    let mut state = recovered;
    let ghost before = state@;
    let contiguous_end = state.contiguous.offset;
    proof {
        state.batches.lemma_wf();
        lemma_chain_is_increasing(before);
    }
    let first_retained: Option<u128> = if log_start == contiguous_end {
        Some(state.batches.next_key())
    } else if log_start.0 > contiguous_end.0 {
        None
    } else {
        state.batch_key_at_first_offset(log_start)
    };
    match first_retained {
        None => {
            let mut text = numbered("invalid recovered log start ", log_start.0 as u128, " for ");
            append_decimal(&mut text, topic_partition.topic_id.0);
            text.append("/");
            append_decimal(&mut text, topic_partition.partition_id.0 as u128);
            text.append("");
            Err(EngineError::CorruptState(text))
        },
        Some(key) => {
            proof {
                assert(before.recovers_from(log_start, key));
                assert forall|other: u128| before.recovers_from(log_start, other) implies other
                    == key by {}
                assert forall|i: int|
                    0 <= i < before.batches.len() && (
                    #[trigger] before.batches[i]).reservation.first_offset.0
                        >= log_start.0 implies key <= before.first_batch + i by {
                    if log_start == contiguous_end {
                        crate::log_laws::watermarks_reach(before, i);
                    } else if before.first_batch + i < key {
                        assert(before.batches[i].reservation.end() <= before.batches[key
                            - before.first_batch].reservation.first_offset.0);
                    }
                }
            }
            state.log_start = log_start;
            state.batches.truncate_before(key);
            proof {
                let after = PartitionModel {
                    log_start,
                    first_batch: key,
                    batches: before.batches.skip(key - before.first_batch),
                    ..before
                };
                assert(state@ =~= after);
                let d = key - before.first_batch;
                assert forall|i: int| 0 <= i < after.batches.len() implies
                    #[trigger] after.batches[i] == before.batches[i + d] by {}
                assert forall|i: int, j: int|
                    0 <= i && j == i + 1 && j < after.batches.len() implies (
                #[trigger] after.batches[i]).reservation.end() == (
                #[trigger] after.batches[j]).reservation.first_offset.0 by {
                    assert(before.batches[i + d].reservation.end() == before.batches[j
                        + d].reservation.first_offset.0);
                }
                assert(after.chained());
                assert(after.aligned()) by {
                    if after.batches.len() > 0 {
                        assert(after.batches.last() == before.batches.last());
                    }
                }
            }
            state.reset_cached_watermarks_after_truncate();
            Ok(state)
        },
    }
}

proof fn lemma_appended_all(model: PartitionModel, batches: Seq<BatchRuntime>)
    requires
        model.appended_all(batches).1 is Ok,
    ensures
        model.appended_all(batches).0.batches == model.batches + batches,
    decreases batches.len(),
{
    if batches.len() > 0 {
        lemma_appended_all(model, batches.drop_last());
        assert(model.appended_all(batches).0.batches =~= model.batches + batches);
    } else {
        assert(model.batches + batches =~= model.batches);
    }
}

impl Progress {
    /// A stored batch that recovery accepted stands under its own number, and
    /// every batch before it stays where it was.
    proof fn lemma_after_places(
        self,
        topic_partition: TopicPartition,
        journal: PartitionJournalModel,
        replicas: u32,
        entry: ExtentCatalogEntry,
    )
        requires
            self.model.batches.len() == self.next_batch_id,
            self.after(topic_partition, journal, replicas, entry) is Ok,
        ensures
            ({
                let next = self.after(topic_partition, journal, replicas, entry)->Ok_0;
                let id = entry.reservation.batch_id.0 as int;
                &&& next.model.batches.len() == next.next_batch_id == id + 1
                &&& self.next_batch_id <= id
                &&& next.model.batches[id] == recovered_batch(entry, journal.outcomes, replicas)
                &&& next.model.batches.take(self.next_batch_id as int) == self.model.batches
                &&& forall|i: int|
                    self.next_batch_id <= i < id ==> (#[trigger] next.model.batches[i]).status
                        == BatchStatus::Aborted
                &&& self.next_batch_id == 0 && self.next_offset == 0
                    ==> next.model.batches[0].reservation.first_offset.0 == 0
            }),
    {
        let next = self.after(topic_partition, journal, replicas, entry)->Ok_0;
        let reservation = entry.reservation;
        let missing = reservation.batch_id.0 - self.next_batch_id;
        let filled = self.gap_filled(
            journal.rings,
            topic_partition,
            missing,
            reservation.first_offset.0 - self.next_offset,
            reservation.placement.ring_epoch,
        )->Ok_0;
        if missing > 0 {
            let gap = Gap {
                topic_partition,
                lanes: ring_lanes(journal.rings, reservation.placement.ring_epoch),
                ring_epoch: reservation.placement.ring_epoch,
                leader_epoch: self.model.sequencer.leader_epoch,
                first_batch: self.next_batch_id,
                first_offset: self.next_offset,
                first_sequence: self.next_sequence,
                batches: missing,
                records: reservation.first_offset.0 - self.next_offset,
            };
            lemma_appended_all(self.model, gap.all());
            assert(filled.batches == self.model.batches + gap.all());
            lemma_gap_tiles(gap, 0);
            assert forall|i: int|
                self.next_batch_id <= i < reservation.batch_id.0 implies (
            #[trigger] filled.batches[i]).status == BatchStatus::Aborted by {
                assert(filled.batches[i] == gap.all()[i - self.next_batch_id]);
            }
            if self.next_batch_id == 0 {
                assert(filled.batches[0] == gap.all()[0]);
            }
        }
        assert(next.model.batches == filled.batches.push(
            recovered_batch(entry, journal.outcomes, replicas),
        ));
        assert(next.model.batches.take(self.next_batch_id as int) =~= self.model.batches);
    }

    /// Every stored batch that recovery accepts is found under its own number,
    /// as it was stored: with the same place, producer, group and size.
    pub proof fn every_stored_batch_is_recovered(
        self,
        topic_partition: TopicPartition,
        journal: PartitionJournalModel,
        replicas: u32,
        entries: Seq<ExtentCatalogEntry>,
        index: int,
    )
        requires
            self.model.batches.len() == self.next_batch_id,
            self.after_all(topic_partition, journal, replicas, entries) is Ok,
            0 <= index < entries.len(),
        ensures
            ({
                let end = self.after_all(topic_partition, journal, replicas, entries)->Ok_0;
                let id = entries[index].reservation.batch_id.0 as int;
                &&& 0 <= id < end.model.batches.len()
                &&& end.model.batches.len() == end.next_batch_id
                &&& end.model.batches[id] == recovered_batch(
                    entries[index],
                    journal.outcomes,
                    replicas,
                )
            }),
        decreases entries.len(),
    {
        let earlier = self.after_all(topic_partition, journal, replicas, entries.drop_last())->Ok_0;
        self.lemma_counts(topic_partition, journal, replicas, entries.drop_last());
        earlier.lemma_after_places(topic_partition, journal, replicas, entries.last());
        if index < entries.len() - 1 {
            self.every_stored_batch_is_recovered(
                topic_partition,
                journal,
                replicas,
                entries.drop_last(),
                index,
            );
            let end = self.after_all(topic_partition, journal, replicas, entries)->Ok_0;
            let id = entries[index].reservation.batch_id.0 as int;
            assert(entries.drop_last()[index] == entries[index]);
            assert(end.model.batches.take(earlier.next_batch_id as int)[id]
                == end.model.batches[id]);
        }
    }

    /// A log that is recovered from its start begins at offset zero, and none of its
    /// batches is under way.
    proof fn lemma_finished(
        self,
        topic_partition: TopicPartition,
        journal: PartitionJournalModel,
        replicas: u32,
        entries: Seq<ExtentCatalogEntry>,
    )
        requires
            self.model.batches.len() == 0,
            self.next_batch_id == 0,
            self.next_offset == 0,
            self.after_all(topic_partition, journal, replicas, entries) is Ok,
        ensures
            ({
                let end = self.after_all(topic_partition, journal, replicas, entries)->Ok_0;
                &&& end.model.batches.len() == end.next_batch_id
                &&& entries.len() > 0 ==> end.next_batch_id > 0
                &&& entries.len() == 0 ==> end == self
                &&& end.model.batches.len() > 0
                    ==> end.model.batches[0].reservation.first_offset.0 == 0
                &&& forall|i: int|
                    0 <= i < end.model.batches.len() ==> (#[trigger] end.model.batches[i]).status
                        != BatchStatus::Pending
            }),
        decreases entries.len(),
    {
        if entries.len() > 0 {
            let shorter = entries.drop_last();
            self.lemma_finished(topic_partition, journal, replicas, shorter);
            let earlier = self.after_all(topic_partition, journal, replicas, shorter)->Ok_0;
            let end = self.after_all(topic_partition, journal, replicas, entries)->Ok_0;
            earlier.lemma_after_places(topic_partition, journal, replicas, entries.last());
            let kept = end.model.batches.take(earlier.next_batch_id as int);
            let id = entries.last().reservation.batch_id.0 as int;
            assert forall|i: int| 0 <= i < end.model.batches.len() implies (
            #[trigger] end.model.batches[i]).status != BatchStatus::Pending by {
                if i < earlier.next_batch_id {
                    assert(kept[i] == end.model.batches[i]);
                } else if i == id {
                    assert(end.model.batches[id] == recovered_batch(
                        entries.last(),
                        journal.outcomes,
                        replicas,
                    ));
                }
            }
            if earlier.next_batch_id > 0 {
                assert(kept[0] == end.model.batches[0]);
            }
        }
    }

    proof fn lemma_counts(
        self,
        topic_partition: TopicPartition,
        journal: PartitionJournalModel,
        replicas: u32,
        entries: Seq<ExtentCatalogEntry>,
    )
        requires
            self.model.batches.len() == self.next_batch_id,
            self.after_all(topic_partition, journal, replicas, entries) is Ok,
        ensures
            ({
                let end = self.after_all(topic_partition, journal, replicas, entries)->Ok_0;
                end.model.batches.len() == end.next_batch_id
            }),
        decreases entries.len(),
    {
        if entries.len() > 0 {
            self.lemma_counts(topic_partition, journal, replicas, entries.drop_last());
            self.after_all(
                topic_partition,
                journal,
                replicas,
                entries.drop_last(),
            )->Ok_0.lemma_after_places(topic_partition, journal, replicas, entries.last());
        }
    }
}

} // verus!
