//! What a partition's log promises: where batches go, what an outcome changes, and how
//! far the watermarks reach.
use vstd::prelude::*;

use crate::coordinator::{dedup_key, CompleteAppend, ReserveOutcome};
use crate::error::Fault;
use crate::ids::{BatchId, LogicalOffset};
use crate::partition::{
    lemma_chain_is_increasing, lemma_scan_held, scan, BatchRuntime, BatchStatus, Cursor, Mark,
    PartitionModel,
};
use crate::protocol::{AtomicGroupIdentity, PayloadDigest, ProducerIdentity};
use crate::sequencer::Reservation;

verus! {

/// A batch, as a leader asks for a place for it.
pub ghost struct Ask {
    pub request_id: u128,
    pub producer: Option<ProducerIdentity>,
    pub atomic_group: Option<AtomicGroupIdentity>,
    pub record_count: u32,
    pub payload_bytes: u64,
    pub payload_digest: PayloadDigest,
}

impl Ask {
    /// What a partition makes of it.
    pub open spec fn asked(self, m: PartitionModel) -> (
        PartitionModel,
        Result<ReserveOutcome, Fault>,
    ) {
        m.reserving(
            self.request_id,
            self.producer,
            self.atomic_group,
            self.record_count,
            self.payload_bytes,
            self.payload_digest,
        )
    }
}

/// A producer that a partition has never seen starts at sequence zero: anything
/// else is refused as out of order, and changes nothing.
pub proof fn unseen_producers_start_at_zero(m: PartitionModel, ask: Ask, claim: ProducerIdentity)
    requires
        ask.producer == Some(claim),
        !m.producers.contains_key(claim.producer_id),
    ensures
        ask.asked(m).1 is Ok ==> claim.first_sequence == 0,
        claim.first_sequence != 0 ==> ask.asked(m) == (
            m,
            Err::<ReserveOutcome, Fault>(
                Fault::ProducerSequenceOutOfOrder {
                    producer_id: claim.producer_id,
                    expected: 0,
                    received: claim.first_sequence,
                },
            ),
        ),
{
}

/// A producer that was seen before goes on exactly where it stopped, in its epoch or
/// a later one, and not in an epoch in which a batch of it failed.
pub proof fn seen_producers_go_on_where_they_stopped(
    m: PartitionModel,
    ask: Ask,
    claim: ProducerIdentity,
)
    requires
        ask.producer == Some(claim),
        m.producers.contains_key(claim.producer_id),
    ensures
        ({
            let cursor = m.producers[claim.producer_id];
            let repeats = claim.epoch == cursor.epoch && m.dedup.contains_key(dedup_key(claim));
            &&& ask.asked(m).1 matches Ok(ReserveOutcome::Reserved { .. }) ==> {
                &&& claim.first_sequence == cursor.next_sequence
                &&& claim.epoch >= cursor.epoch
                &&& claim.epoch == cursor.epoch ==> !cursor.failed
                &&& !repeats
            }
            &&& claim.epoch < cursor.epoch ==> ask.asked(m) == (
                m,
                Err::<ReserveOutcome, Fault>(
                    Fault::StaleProducerEpoch {
                        producer_id: claim.producer_id,
                        current: cursor.epoch,
                        received: claim.epoch,
                    },
                ),
            )
            &&& claim.epoch == cursor.epoch && !repeats && cursor.failed ==> ask.asked(m) == (
                m,
                Err::<ReserveOutcome, Fault>(Fault::ProducerRequiresNewEpoch(claim.producer_id)),
            )
            &&& claim.epoch >= cursor.epoch && !repeats && !(claim.epoch == cursor.epoch
                && cursor.failed) && claim.first_sequence != cursor.next_sequence ==> ask.asked(m)
                == (
                m,
                Err::<ReserveOutcome, Fault>(
                    Fault::ProducerSequenceOutOfOrder {
                        producer_id: claim.producer_id,
                        expected: cursor.next_sequence,
                        received: claim.first_sequence,
                    },
                ),
            )
        }),
{
}

/// A new batch gets the next place: the offsets after all that were given out
/// before, as many as it has records, and the next number. It waits there with what
/// was asked for it, nobody else's batch, producer or receipt changes, and its
/// producer's next batch is the one after it.
pub proof fn new_batches_take_the_next_place(m: PartitionModel, ask: Ask)
    requires
        m.wf(),
        ask.record_count > 0,
        ask.asked(m).1 matches Ok(ReserveOutcome::Reserved { .. }),
    ensures
        ({
            let after = ask.asked(m).0;
            let reservation = ask.asked(m).1->Ok_0->reservation;
            let stored = ask.asked(m).1->Ok_0->Reserved_producer;
            let batch = after.batches.last();
            &&& ask.asked(m).1->Ok_0->Reserved_replication_policy == m.policy
            &&& reservation.first_offset == m.watermarks().allocated_end
            &&& reservation.last_offset.0 == reservation.first_offset.0 + ask.record_count - 1
            &&& reservation.record_count == ask.record_count
            &&& reservation.batch_id.0 == m.first_batch + m.batches.len()
            &&& reservation.topic_id == m.sequencer.topic_id
            &&& reservation.partition_id == m.sequencer.partition_id
            &&& reservation.placement.ring_epoch == m.sequencer.ring_epoch
            &&& reservation.placement.leader_epoch == m.sequencer.leader_epoch
            &&& after.watermarks().allocated_end.0 == reservation.last_offset.0 + 1
            &&& after.batches.drop_last() == m.batches
            &&& after.first_batch == m.first_batch
            &&& batch.reservation == reservation
            &&& batch.status == BatchStatus::Pending
            &&& batch.durable_replicas == 0
            &&& !batch.object_durable
            &&& batch.producer == ask.producer
            &&& batch.atomic_group == ask.atomic_group
            &&& batch.payload_bytes == ask.payload_bytes
            &&& batch.payload_digest == Some(ask.payload_digest)
            &&& after.log_start == m.log_start
            &&& after.policy == m.policy
            &&& after.dedup == m.dedup
            &&& after.finalized == m.finalized
            &&& match ask.producer {
                None => stored is None && after.producers == m.producers,
                Some(claim) => {
                    &&& stored is Some
                    &&& stored->0.producer_id == claim.producer_id
                    &&& stored->0.epoch == claim.epoch
                    &&& stored->0.first_sequence == claim.first_sequence
                    &&& stored->0.event_id == claim.event_id
                    &&& stored->0.payload_digest == ask.payload_digest
                    &&& stored->0.digest_algorithm == 1
                    &&& after.producers.contains_key(claim.producer_id)
                    &&& after.producers[claim.producer_id].epoch == claim.epoch
                    &&& after.producers[claim.producer_id].next_sequence == claim.first_sequence
                        + ask.record_count
                    &&& !after.producers[claim.producer_id].failed
                    &&& forall|other: u128|
                        other != claim.producer_id ==> (
                        #[trigger] after.producers.contains_key(other)
                            == m.producers.contains_key(other)) && after.producers[other]
                            == m.producers[other]
                },
            }
        }),
{
    let after = ask.asked(m).0;
    assert(after.batches.drop_last() =~= m.batches);
}

/// A plain batch, or the first one of a producer, is never turned away while there
/// is room.
pub proof fn room_is_enough_for_new_batches(m: PartitionModel, ask: Ask)
    requires
        m.wf(),
        ask.record_count > 0,
        ask.atomic_group is None,
        match ask.producer {
            None => true,
            Some(claim) => claim.first_sequence == 0 && !m.producers.contains_key(
                claim.producer_id,
            ),
        },
        m.watermarks().allocated_end.0 + ask.record_count <= u64::MAX,
        m.first_batch + m.batches.len() < u128::MAX,
        m.sequencer.next_placement_sequence < u64::MAX,
        m.batches.len() < usize::MAX,
    ensures
        ask.asked(m).1 matches Ok(ReserveOutcome::Reserved { .. }),
{
}

/// A finished append changes its own batch and nothing else in the log: the batch
/// keeps its place and is committed, or waits for its group; it counts the copies and
/// the object tier that it was told; and the receipt names that batch.
pub proof fn completions_settle_one_batch(m: PartitionModel, completion: CompleteAppend, other: BatchId)
    requires
        m.completing(completion).1 is Ok,
    ensures
        ({
            let (after, result) = m.completing(completion);
            let id = completion.reservation.batch_id;
            let before = m.batch(id);
            let batch = after.batch(id);
            &&& m.retains(id)
            &&& before.status == BatchStatus::Pending
            &&& before.reservation == completion.reservation
            &&& batch.reservation == completion.reservation
            &&& batch.status == (if before.atomic_group is Some {
                BatchStatus::Unresolved
            } else {
                BatchStatus::Committed
            })
            &&& batch.durable_replicas >= completion.durable_replicas
            &&& batch.durable_replicas >= before.durable_replicas
            &&& batch.object_durable == completion.object_durable
            &&& batch.record_id == completion.response.record_id
            &&& batch.producer == before.producer
            &&& batch.atomic_group == before.atomic_group
            &&& batch.payload_bytes == before.payload_bytes
            &&& batch.payload_digest == before.payload_digest
            &&& before.durable_replicas == 0 && before.replica_acks == 0
                && completion.durable_replicas >= 1 ==> batch.durable_replicas
                == completion.durable_replicas
            &&& after.first_batch == m.first_batch
            &&& after.batches.len() == m.batches.len()
            &&& m.retains(other) && other != id ==> after.batch(other) == m.batch(other)
            &&& after.sequencer == m.sequencer
            &&& after.log_start == m.log_start
            &&& after.policy == m.policy
            &&& after.producers == m.producers
            &&& after.groups == m.groups
            &&& after.finalized == m.finalized
            &&& result->Ok_0.request_id == completion.response.request_id
            &&& result->Ok_0.batch_id == completion.response.batch_id
            &&& result->Ok_0.record_id == completion.response.record_id
            &&& result->Ok_0.first_offset == completion.response.first_offset
            &&& result->Ok_0.last_offset == completion.response.last_offset
            &&& result->Ok_0.placement == completion.response.placement
            &&& result->Ok_0.visible_through == after.watermarks().last_stable_offset
        }),
{
    assert(0u64 | 1 == 1) by (bit_vector);
    reveal_with_fuel(crate::coordinator::ones, 2);
}

/// The receipt of a finished append is kept for its producer, and no other
/// producer's receipt is touched.
pub proof fn completions_keep_the_receipt(m: PartitionModel, completion: CompleteAppend)
    requires
        m.completing(completion).1 is Ok,
    ensures
        ({
            let (after, result) = m.completing(completion);
            match completion.producer {
                None => after.dedup == m.dedup,
                Some(claim) => {
                    let kept = after.dedup[dedup_key(claim)];
                    &&& after.dedup.contains_key(dedup_key(claim))
                    &&& kept.response == result->Ok_0
                    &&& kept.payload_digest == completion.payload_digest
                    &&& kept.digest_algorithm == 1
                    &&& kept.event_id == claim.event_id
                    &&& kept.record_count == completion.reservation.record_count
                    &&& kept.object_durable == completion.object_durable
                    &&& kept.durable_replicas == after.batch(
                        completion.reservation.batch_id,
                    ).durable_replicas
                    &&& forall|key: (u128, u128)|
                        key != dedup_key(claim) ==> (#[trigger] after.dedup.contains_key(key)
                            == m.dedup.contains_key(key)) && after.dedup[key] == m.dedup[key]
                },
            }
        }),
{
}

/// A batch is finished once: after that, neither a second completion nor a failure
/// is accepted for it, and both leave the log as it is.
pub proof fn batches_are_finished_once(
    m: PartitionModel,
    completion: CompleteAppend,
    again: CompleteAppend,
    producer: Option<ProducerIdentity>,
)
    requires
        m.completing(completion).1 is Ok,
        again.reservation.batch_id == completion.reservation.batch_id,
    ensures
        ({
            let after = m.completing(completion).0;
            &&& after.completing(again).1 is Err
            &&& after.completing(again).0 == after
            &&& after.failing(again.reservation, producer, true).1 is Err
            &&& after.failing(again.reservation, producer, true).0.batches == after.batches
        }),
{
}

/// A failed append flags its producer. Where it was surely not written, its batch is
/// aborted and counts no copies; where that is not known, the batch stays pending. No
/// other batch, receipt or producer is touched, and no offset is given back.
pub proof fn failures_touch_one_batch(
    m: PartitionModel,
    reservation: Reservation,
    producer: Option<ProducerIdentity>,
    definitely_not_written: bool,
    other: BatchId,
)
    requires
        m.failing(reservation, producer, definitely_not_written).1 is Ok,
    ensures
        ({
            let after = m.failing(reservation, producer, definitely_not_written).0;
            &&& m.retains(other) && other != reservation.batch_id ==> after.batch(other)
                == m.batch(other)
            &&& after.batches.len() == m.batches.len()
            &&& after.first_batch == m.first_batch
            &&& after.sequencer == m.sequencer
            &&& after.log_start == m.log_start
            &&& after.policy == m.policy
            &&& after.dedup == m.dedup
            &&& after.finalized == m.finalized
            &&& !definitely_not_written ==> after.batches == m.batches && after.groups == m.groups
            &&& definitely_not_written ==> {
                let batch = after.batch(reservation.batch_id);
                &&& m.retains(reservation.batch_id)
                &&& m.batch(reservation.batch_id).reservation == reservation
                &&& m.batch(reservation.batch_id).status == BatchStatus::Pending
                &&& batch.status == BatchStatus::Aborted
                &&& batch.durable_replicas == 0
                &&& batch.reservation == reservation
            }
            &&& producer is None ==> after.producers == m.producers
            &&& producer is Some ==> {
                let id = producer->0.producer_id;
                &&& m.producers.contains_key(id) ==> after.producers[id].failed
                    && after.producers[id].epoch == m.producers[id].epoch
                    && after.producers[id].next_sequence == m.producers[id].next_sequence
                &&& forall|one: u128|
                    (#[trigger] after.producers.contains_key(one)) == m.producers.contains_key(one)
                        && (one != id ==> after.producers[one] == m.producers[one])
            }
        }),
{
}

/// Word of more copies raises the count of that batch, never lowers it, and changes
/// nothing else but the receipt of the batch, which counts them too.
pub proof fn copies_are_only_added(
    m: PartitionModel,
    reservation: Reservation,
    durable_replicas: u32,
    other: BatchId,
    key: (u128, u128),
)
    requires
        m.credited(reservation, durable_replicas).1 is Ok,
    ensures
        ({
            let after = m.credited(reservation, durable_replicas).0;
            let id = reservation.batch_id;
            let before = m.batch(id);
            let batch = after.batch(id);
            &&& m.retains(id)
            &&& before.reservation == reservation
            &&& before.status == BatchStatus::Committed || before.status == BatchStatus::Unresolved
            &&& batch.durable_replicas >= before.durable_replicas
            &&& batch.durable_replicas >= durable_replicas
            &&& batch.durable_replicas == before.durable_replicas || batch.durable_replicas
                == durable_replicas
            &&& batch.status == before.status
            &&& batch.reservation == before.reservation
            &&& batch.object_durable == before.object_durable
            &&& batch.record_id == before.record_id
            &&& m.retains(other) && other != id ==> after.batch(other) == m.batch(other)
            &&& after.batches.len() == m.batches.len()
            &&& after.first_batch == m.first_batch
            &&& after.sequencer == m.sequencer
            &&& after.producers == m.producers
            &&& after.groups == m.groups
            &&& after.finalized == m.finalized
            &&& after.policy == m.policy
            &&& after.log_start == m.log_start
            &&& after.dedup.contains_key(key) == m.dedup.contains_key(key)
            &&& m.dedup.contains_key(key) ==> {
                &&& after.dedup[key].response == m.dedup[key].response
                &&& after.dedup[key].payload_digest == m.dedup[key].payload_digest
                &&& after.dedup[key].record_count == m.dedup[key].record_count
                &&& after.dedup[key].durable_replicas >= m.dedup[key].durable_replicas
                &&& m.dedup[key].response.batch_id == id ==> after.dedup[key].durable_replicas
                    >= durable_replicas
                &&& m.dedup[key].response.batch_id != id ==> after.dedup[key] == m.dedup[key]
            }
        }),
{
}


proof fn lemma_scan_reaches(m: PartitionModel, cursor: Cursor, mark: Mark, index: int)
    requires
        m.chained(),
        0 <= index < m.batches.len(),
        m.first_batch <= cursor.batch <= m.first_batch + index,
        m.batches[cursor.batch - m.first_batch].reservation.first_offset == cursor.offset,
        forall|j: int| cursor.batch - m.first_batch <= j <= index ==> mark.passes(
            #[trigger] m.batches[j],
        ),
    ensures
        scan(m.batches, m.first_batch, cursor, mark).offset.0 >= m.batches[index].reservation.end(),
    decreases m.first_batch + index - cursor.batch,
{
    let at = cursor.batch - m.first_batch;
    let batch = m.batches[at];
    assert(mark.passes(batch));
    let next = Cursor {
        batch: (cursor.batch + 1) as u128,
        offset: LogicalOffset(batch.reservation.end() as u64),
    };
    if at < index {
        assert(m.batches[at].reservation.end() == m.batches[at + 1].reservation.first_offset.0);
        lemma_scan_reaches(m, next, mark, index);
    } else {
        lemma_scan_not_back(m, next, mark);
    }
}

proof fn lemma_scan_not_back(m: PartitionModel, cursor: Cursor, mark: Mark)
    requires
        m.chained(),
    ensures
        scan(m.batches, m.first_batch, cursor, mark).offset.0 >= cursor.offset.0,
    decreases m.first_batch + m.batches.len() - cursor.batch,
{
    if m.first_batch <= cursor.batch < m.first_batch + m.batches.len() && cursor.batch
        < u128::MAX {
        let batch = m.batches[cursor.batch - m.first_batch];
        if batch.reservation.first_offset == cursor.offset && mark.passes(batch) {
            lemma_scan_not_back(
                m,
                Cursor {
                    batch: (cursor.batch + 1) as u128,
                    offset: LogicalOffset(batch.reservation.end() as u64),
                },
                mark,
            );
        }
    }
}

/// A batch that has too few copies for its partition and is not given up.
pub open spec fn lacks_copies(m: PartitionModel, batch: BatchRuntime) -> bool {
    &&& batch.status != BatchStatus::Aborted
    &&& batch.status == BatchStatus::Pending || batch.durable_replicas
        < m.policy.min_in_sync_replicas
}

/// A batch whose outcome is open.
pub open spec fn is_open(batch: BatchRuntime) -> bool {
    batch.status == BatchStatus::Pending || batch.status == BatchStatus::Unresolved
}

/// No watermark passes a batch that it waits for: the contiguous log ends before the
/// first batch that is not written or given up, the stable end before the first one
/// whose outcome is open, the replicated end before the first one with too few copies.
pub proof fn watermarks_wait(m: PartitionModel, index: int)
    requires
        m.wf(),
        0 <= index < m.batches.len(),
    ensures
        ({
            let w = m.watermarks();
            let batch = m.batches[index];
            let start = batch.reservation.first_offset;
            &&& batch.status == BatchStatus::Pending ==> w.contiguous_log_end.0 <= start.0
            &&& is_open(batch) ==> w.last_stable_offset.0 <= start.0
            &&& lacks_copies(m, batch) ==> w.replicated_high_watermark.0 <= start.0
        }),
{
    lemma_chain_is_increasing(m);
    let start = Cursor { batch: m.first_batch, offset: m.log_start };
    let batch = m.batches[index];
    if batch.status == BatchStatus::Pending {
        lemma_scan_held(m, start, Mark::Contiguous, index);
    }
    if is_open(batch) {
        lemma_scan_held(m, start, Mark::Stable, index);
    }
    if lacks_copies(m, batch) {
        lemma_scan_held(m, start, Mark::Replicated(m.policy.min_in_sync_replicas), index);
    }
}

/// Every watermark reaches as far as it may: past a batch once it waits for neither
/// that batch nor any before it.
pub proof fn watermarks_reach(m: PartitionModel, index: int)
    requires
        m.wf(),
        0 <= index < m.batches.len(),
        m.batches[0].reservation.first_offset == m.log_start,
    ensures
        ({
            let w = m.watermarks();
            let end = m.batches[index].reservation.last_offset.0 + 1;
            &&& (forall|j: int|
                0 <= j <= index ==> (#[trigger] m.batches[j]).status != BatchStatus::Pending)
                ==> w.contiguous_log_end.0 >= end
            &&& (forall|j: int| 0 <= j <= index ==> !is_open(#[trigger] m.batches[j]))
                ==> w.last_stable_offset.0 >= end
            &&& (forall|j: int| 0 <= j <= index ==> !lacks_copies(m, #[trigger] m.batches[j]))
                ==> w.replicated_high_watermark.0 >= end
        }),
{
    let start = Cursor { batch: m.first_batch, offset: m.log_start };
    if forall|j: int| 0 <= j <= index ==> (#[trigger] m.batches[j]).status != BatchStatus::Pending {
        lemma_scan_reaches(m, start, Mark::Contiguous, index);
    }
    if forall|j: int| 0 <= j <= index ==> !is_open(#[trigger] m.batches[j]) {
        assert forall|j: int| 0 <= j <= index implies Mark::Stable.passes(
            #[trigger] m.batches[j],
        ) by {
            assert(!is_open(m.batches[j]));
        }
        lemma_scan_reaches(m, start, Mark::Stable, index);
    }
    if forall|j: int| 0 <= j <= index ==> !lacks_copies(m, #[trigger] m.batches[j]) {
        let mark = Mark::Replicated(m.policy.min_in_sync_replicas);
        assert forall|j: int| 0 <= j <= index implies mark.passes(#[trigger] m.batches[j]) by {
            assert(!lacks_copies(m, m.batches[j]));
        }
        lemma_scan_reaches(m, start, mark, index);
    }
}

/// A new batch moves no watermark but the end of what was given out.
pub proof fn new_batches_move_no_watermark(m: PartitionModel, ask: Ask)
    requires
        m.wf(),
        ask.record_count > 0,
        ask.asked(m).1 matches Ok(ReserveOutcome::Reserved { .. }),
    ensures
        ({
            let before = m.watermarks();
            let after = ask.asked(m).0.watermarks();
            &&& after.log_start == before.log_start
            &&& after.contiguous_log_end == before.contiguous_log_end
            &&& after.last_stable_offset == before.last_stable_offset
            &&& after.replicated_high_watermark == before.replicated_high_watermark
            &&& after.allocated_end.0 == before.allocated_end.0 + ask.record_count
        }),
{
    let after = ask.asked(m).0;
    let batch = after.batches.last();
    assert(after.batches =~= m.batches.push(batch));
    lemma_scan_pending(m, m.contiguous, batch, Mark::Contiguous);
    lemma_scan_pending(m, m.stable, batch, Mark::Stable);
    lemma_scan_pending(m, m.replicated, batch, Mark::Replicated(m.policy.min_in_sync_replicas));
    let start = Cursor { batch: m.first_batch, offset: m.log_start };
    lemma_scan_rests(m, start, Mark::Contiguous);
    lemma_scan_rests(m, start, Mark::Stable);
    lemma_scan_rests(m, start, Mark::Replicated(m.policy.min_in_sync_replicas));
}

/// A watermark at rest stays where it is.
proof fn lemma_scan_rests(m: PartitionModel, cursor: Cursor, mark: Mark)
    ensures
        ({
            let rest = scan(m.batches, m.first_batch, cursor, mark);
            scan(m.batches, m.first_batch, rest, mark) == rest
        }),
    decreases m.first_batch + m.batches.len() - cursor.batch,
{
    if m.first_batch <= cursor.batch < m.first_batch + m.batches.len() && cursor.batch
        < u128::MAX {
        let batch = m.batches[cursor.batch - m.first_batch];
        if batch.reservation.first_offset == cursor.offset && mark.passes(batch) {
            lemma_scan_rests(
                m,
                Cursor {
                    batch: (cursor.batch + 1) as u128,
                    offset: LogicalOffset(batch.reservation.end() as u64),
                },
                mark,
            );
        }
    }
}

proof fn lemma_scan_pending(m: PartitionModel, cursor: Cursor, batch: BatchRuntime, mark: Mark)
    requires
        batch.status == BatchStatus::Pending,
    ensures
        scan(m.batches.push(batch), m.first_batch, cursor, mark) == scan(
            m.batches,
            m.first_batch,
            cursor,
            mark,
        ),
    decreases m.first_batch + m.batches.len() - cursor.batch,
{
    let more = m.batches.push(batch);
    if m.first_batch <= cursor.batch < m.first_batch + m.batches.len() && cursor.batch
        < u128::MAX {
        let held = m.batches[cursor.batch - m.first_batch];
        assert(more[cursor.batch - m.first_batch] == held);
        if held.reservation.first_offset == cursor.offset && mark.passes(held) {
            lemma_scan_pending(
                m,
                Cursor {
                    batch: (cursor.batch + 1) as u128,
                    offset: LogicalOffset(held.reservation.end() as u64),
                },
                batch,
                mark,
            );
        }
    } else if cursor.batch == m.first_batch + m.batches.len() {
        assert(more[cursor.batch - m.first_batch] == batch);
    }
}

} // verus!
