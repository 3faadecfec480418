//! What atomic groups, and those that write and read them, may count on.
use vstd::prelude::*;

use crate::admin::inspect_atomic_group;
use crate::coordinator::{CompleteAppend, ReserveOutcome};
use crate::error::{EngineResult, Fault};
use crate::ids::BatchId;
use crate::log_laws::Ask;
use crate::partition::{
    lemma_chain_is_increasing, AtomicGroupInspection, AtomicGroupState, BatchStatus, GroupModel,
    PartitionModel, PartitionState,
};
use crate::protocol::{AtomicGroupIdentity, ProducerIdentity};
use crate::sequencer::Reservation;

verus! {

/// The chunks of a group came in the order of their batches' numbers.
pub open spec fn in_order(group: GroupModel) -> bool {
    forall|i: int, j: int|
        0 <= i < j < group.batch_ids.len() ==> (#[trigger] group.batch_ids[i]) < (
        #[trigger] group.batch_ids[j])
}

/// Every group is in order and names no batch that was not given out yet.
pub open spec fn groups_in_order(m: PartitionModel) -> bool {
    forall|id: u128| #[trigger]
        m.groups.contains_key(id) ==> in_order(m.groups[id]) && forall|i: int|
            0 <= i < m.groups[id].batch_ids.len() ==> (#[trigger] m.groups[id].batch_ids[i])
                < m.first_batch + m.batches.len()
}

/// The inspection of a group tells a range of offsets that holds every retained batch
/// of the group, and that begins and ends with one of them; and it tells the group's
/// state and totals.
pub proof fn inspections_span_the_group(
    state: PartitionState,
    transaction_id: u128,
    result: EngineResult<AtomicGroupInspection>,
    index: int,
)
    requires
        state.sound(),
        call_ensures(inspect_atomic_group, (&state, transaction_id), result),
        result is Ok,
        in_order(state@.groups[transaction_id]),
        0 <= index < state@.groups[transaction_id].batch_ids.len(),
        state@.retains(BatchId(state@.groups[transaction_id].batch_ids[index])),
    ensures
        ({
            let told = result->Ok_0;
            let group = state@.groups[transaction_id];
            let batch = state@.batch(BatchId(group.batch_ids[index])).reservation;
            &&& told.transaction_id == transaction_id
            &&& told.state == group.state
            &&& told.chunk_count == group.next_sequence
            &&& told.record_count == group.record_count
            &&& told.payload_bytes == group.payload_bytes
            &&& told.first_offset.0 <= batch.first_offset.0
            &&& batch.last_offset.0 <= told.last_offset.0
            &&& exists|i: int|
                0 <= i < group.batch_ids.len() && state@.retains(
                    BatchId(#[trigger] group.batch_ids[i]),
                ) && state@.batch(BatchId(group.batch_ids[i])).reservation.first_offset
                    == told.first_offset
            &&& exists|i: int|
                0 <= i < group.batch_ids.len() && state@.retains(
                    BatchId(#[trigger] group.batch_ids[i]),
                ) && state@.batch(BatchId(group.batch_ids[i])).reservation.last_offset
                    == told.last_offset
        }),
{
    let m = state@;
    let group = m.groups[transaction_id];
    let ids = group.batch_ids;
    let n = ids.len() as int;
    lemma_chain_is_increasing(m);
    let at = ids[index] - m.first_batch;
    if index > 0 {
        assert(ids[0] < ids[index]);
        assert(m.batches[ids[0] - m.first_batch].reservation.end()
            <= m.batches[at].reservation.first_offset.0);
    }
    if index < n - 1 {
        assert(ids[index] < ids[n - 1]);
        assert(m.batches[at].reservation.end()
            <= m.batches[ids[n - 1] - m.first_batch].reservation.first_offset.0);
    }
    assert(m.retains(BatchId(ids[0])));
    assert(m.retains(BatchId(ids[n - 1])));
}

/// A group that nobody started is unknown, to an inspection as to a commit or abort.
pub proof fn unknown_groups_are_refused(
    m: PartitionModel,
    transaction_id: u128,
    outcome: AtomicGroupState,
)
    requires
        !m.groups.contains_key(transaction_id),
        outcome != AtomicGroupState::Unresolved,
    ensures
        m.inspected(transaction_id) == Err::<AtomicGroupInspection, Fault>(
            Fault::UnknownAtomicGroup(transaction_id),
        ),
        m.finalizing(transaction_id, outcome) == Err::<Option<AtomicGroupInspection>, Fault>(
            Fault::UnknownAtomicGroup(transaction_id),
        ),
{
}

/// A new chunk is the next of its group and is counted into it: one chunk, its
/// records and its bytes more. A group starts with chunk zero. A batch outside the
/// group changes nothing of it.
pub proof fn chunks_are_counted(m: PartitionModel, ask: Ask, transaction_id: u128)
    requires
        ask.asked(m).1 matches Ok(ReserveOutcome::Reserved { .. }),
    ensures
        ({
            let after = ask.asked(m).0;
            let reservation = ask.asked(m).1->Ok_0->reservation;
            if ask.atomic_group is Some && ask.atomic_group->0.transaction_id == transaction_id {
                let group = after.groups[transaction_id];
                let known = m.groups.contains_key(transaction_id);
                let before = m.groups[transaction_id];
                &&& after.groups.contains_key(transaction_id)
                &&& !m.finalized.contains_key(transaction_id)
                &&& group.state == AtomicGroupState::Unresolved
                &&& group.next_sequence == ask.atomic_group->0.chunk_sequence + 1
                &&& group.batch_ids.len() > 0
                &&& group.batch_ids.last() == reservation.batch_id.0
                &&& known ==> {
                    &&& before.state == AtomicGroupState::Unresolved
                    &&& group.batch_ids.drop_last() == before.batch_ids
                    &&& ask.atomic_group->0.chunk_sequence == before.next_sequence
                    &&& group.record_count == before.record_count + ask.record_count
                    &&& group.payload_bytes == before.payload_bytes + ask.payload_bytes
                }
                &&& !known ==> {
                    &&& group.batch_ids.len() == 1
                    &&& ask.atomic_group->0.chunk_sequence == 0
                    &&& group.record_count == ask.record_count
                    &&& group.payload_bytes == ask.payload_bytes
                }
            } else {
                &&& after.groups.contains_key(transaction_id) == m.groups.contains_key(
                    transaction_id,
                )
                &&& after.groups[transaction_id] == m.groups[transaction_id]
            }
        }),
{
    if ask.atomic_group is Some && ask.atomic_group->0.transaction_id == transaction_id {
        let after = ask.asked(m).0;
        let group = after.groups[transaction_id];
        if m.groups.contains_key(transaction_id) {
            assert(group.batch_ids.drop_last() =~= m.groups[transaction_id].batch_ids);
        }
    }
}

/// A chunk that does not come next is refused and changes nothing: one too far ahead
/// is out of order, and one of a group that has its outcome is too late. (A producer's
/// claim is looked at first.)
pub proof fn chunks_come_in_order(m: PartitionModel, ask: Ask, identity: AtomicGroupIdentity)
    requires
        ask.producer is None,
        ask.atomic_group == Some(identity),
    ensures
        ({
            let id = identity.transaction_id;
            let known = m.groups.contains_key(id);
            let expected = if known {
                m.groups[id].next_sequence
            } else {
                0
            };
            let decided = m.finalized.contains_key(id) || known && m.groups[id].state
                != AtomicGroupState::Unresolved;
            &&& decided ==> ask.asked(m) == (
                m,
                Err::<ReserveOutcome, Fault>(Fault::AtomicGroupFinalized(id)),
            )
            &&& !decided && identity.chunk_sequence > expected ==> ask.asked(m) == (
                m,
                Err::<ReserveOutcome, Fault>(
                    Fault::AtomicGroupSequenceOutOfOrder {
                        transaction_id: id,
                        expected,
                        received: identity.chunk_sequence,
                    },
                ),
            )
            &&& ask.asked(m).1 matches Ok(ReserveOutcome::Reserved { .. })
                ==> identity.chunk_sequence == expected && !decided
        }),
{
}

/// A written chunk that is offered again is answered with its own place and identity,
/// and nothing changes; with other contents it is refused.
pub proof fn repeated_chunks_get_their_receipt(
    m: PartitionModel,
    ask: Ask,
    identity: AtomicGroupIdentity,
)
    requires
        ask.producer is None,
        ask.atomic_group == Some(identity),
        !m.finalized.contains_key(identity.transaction_id),
        m.groups.contains_key(identity.transaction_id),
        m.groups[identity.transaction_id].state == AtomicGroupState::Unresolved,
        identity.chunk_sequence < m.groups[identity.transaction_id].next_sequence,
        identity.chunk_sequence < m.groups[identity.transaction_id].batch_ids.len(),
        ({
            let id = BatchId(
                m.groups[identity.transaction_id].batch_ids[identity.chunk_sequence as int],
            );
            &&& m.retains(id)
            &&& m.batch(id).status == BatchStatus::Unresolved
            &&& m.batch(id).atomic_group == Some(identity)
        }),
    ensures
        ({
            let id = BatchId(
                m.groups[identity.transaction_id].batch_ids[identity.chunk_sequence as int],
            );
            let batch = m.batch(id);
            let (after, outcome) = ask.asked(m);
            &&& after == m
            &&& if batch.reservation.record_count == ask.record_count && batch.payload_bytes
                == ask.payload_bytes && batch.payload_digest == Some(ask.payload_digest) {
                outcome matches Ok(
                    ReserveOutcome::Duplicate {
                        response,
                        durable_replicas,
                        object_durable,
                        replication_policy,
                    },
                ) && {
                    &&& response.request_id == ask.request_id
                    &&& response.batch_id == batch.reservation.batch_id
                    &&& response.first_offset == batch.reservation.first_offset
                    &&& response.last_offset == batch.reservation.last_offset
                    &&& response.placement == batch.reservation.placement
                    &&& response.record_id == batch.record_id
                    &&& durable_replicas == batch.durable_replicas
                    &&& object_durable == batch.object_durable
                    &&& replication_policy == m.policy
                }
            } else {
                outcome == Err::<ReserveOutcome, Fault>(
                    Fault::AtomicGroupChunkMismatch(identity.transaction_id),
                )
            }
        }),
{
}

/// A chunk that was surely not written leaves its group as it was before the chunk:
/// one chunk, its records and its bytes fewer, and no group at all where it was alone.
pub proof fn failed_chunks_leave_their_group(
    m: PartitionModel,
    reservation: Reservation,
    producer: Option<ProducerIdentity>,
    identity: AtomicGroupIdentity,
)
    requires
        m.chained(),
        m.failing(reservation, producer, true).1 is Ok,
        m.batch(reservation.batch_id).atomic_group == Some(identity),
    ensures
        ({
            let after = m.failing(reservation, producer, true).0;
            let id = identity.transaction_id;
            let before = m.groups[id];
            let batch = m.batch(reservation.batch_id);
            &&& m.groups.contains_key(id)
            &&& before.batch_ids.len() > 0
            &&& before.batch_ids.last() == reservation.batch_id.0
            &&& before.batch_ids.len() == 1 ==> !after.groups.contains_key(id)
            &&& before.batch_ids.len() > 1 ==> {
                &&& after.groups.contains_key(id)
                &&& after.groups[id].batch_ids == before.batch_ids.drop_last()
                &&& after.groups[id].next_sequence == identity.chunk_sequence
                &&& after.groups[id].record_count + reservation.record_count == before.record_count
                &&& after.groups[id].payload_bytes + batch.payload_bytes == before.payload_bytes
                &&& after.groups[id].state == before.state
            }
            &&& forall|other: u128|
                other != id ==> (#[trigger] after.groups.contains_key(other)
                    == m.groups.contains_key(other)) && after.groups[other] == m.groups[other]
        }),
{
}

/// A group gets an outcome only once every chunk of it is written and still open; to
/// be committed, each must also have the copies that the partition asks for.
pub proof fn outcomes_need_every_chunk(
    m: PartitionModel,
    transaction_id: u128,
    outcome: AtomicGroupState,
    index: int,
)
    requires
        m.finalizing(transaction_id, outcome) matches Ok(None),
        0 <= index < m.groups[transaction_id].batch_ids.len(),
    ensures
        outcome != AtomicGroupState::Unresolved,
        m.groups[transaction_id].state == AtomicGroupState::Unresolved,
        ({
            let id = BatchId(m.groups[transaction_id].batch_ids[index]);
            &&& m.retains(id)
            &&& m.batch(id).status == BatchStatus::Unresolved
            &&& outcome == AtomicGroupState::Committed ==> m.batch(id).durable_replicas
                >= m.policy.min_in_sync_replicas
        }),
{
    lemma_no_obstacle_at(
        m,
        transaction_id,
        m.groups[transaction_id].batch_ids,
        outcome,
        index,
    );
}

proof fn lemma_no_obstacle_at(
    m: PartitionModel,
    transaction_id: u128,
    ids: Seq<u128>,
    outcome: AtomicGroupState,
    index: int,
)
    requires
        m.group_obstacle(transaction_id, ids, outcome) is None,
        0 <= index < ids.len(),
    ensures
        m.chunk_obstacle(transaction_id, ids[index], outcome) is None,
    decreases ids.len(),
{
    if index > 0 {
        assert(ids.skip(1)[index - 1] == ids[index]);
        lemma_no_obstacle_at(m, transaction_id, ids.skip(1), outcome, index - 1);
    }
}

/// Where every chunk is written, open and has its copies, an outcome is not refused.
pub proof fn ready_groups_get_their_outcome(
    m: PartitionModel,
    transaction_id: u128,
    outcome: AtomicGroupState,
)
    requires
        outcome != AtomicGroupState::Unresolved,
        m.groups.contains_key(transaction_id),
        m.groups[transaction_id].state == AtomicGroupState::Unresolved,
        forall|i: int|
            0 <= i < m.groups[transaction_id].batch_ids.len() ==> {
                let id = BatchId(#[trigger] m.groups[transaction_id].batch_ids[i]);
                &&& m.retains(id)
                &&& m.batch(id).status == BatchStatus::Unresolved
                &&& m.batch(id).durable_replicas >= m.policy.min_in_sync_replicas
            },
    ensures
        m.finalizing(transaction_id, outcome) == Ok::<Option<AtomicGroupInspection>, Fault>(None),
{
    lemma_unobstructed(m, transaction_id, m.groups[transaction_id].batch_ids, outcome);
}

proof fn lemma_unobstructed(
    m: PartitionModel,
    transaction_id: u128,
    ids: Seq<u128>,
    outcome: AtomicGroupState,
)
    requires
        forall|i: int|
            0 <= i < ids.len() ==> {
                let id = BatchId(#[trigger] ids[i]);
                &&& m.retains(id)
                &&& m.batch(id).status == BatchStatus::Unresolved
                &&& m.batch(id).durable_replicas >= m.policy.min_in_sync_replicas
            },
    ensures
        m.group_obstacle(transaction_id, ids, outcome) is None,
    decreases ids.len(),
{
    if ids.len() > 0 {
        assert(m.retains(BatchId(ids[0])));
        assert forall|i: int| 0 <= i < ids.skip(1).len() implies {
            let id = BatchId(#[trigger] ids.skip(1)[i]);
            &&& m.retains(id)
            &&& m.batch(id).status == BatchStatus::Unresolved
            &&& m.batch(id).durable_replicas >= m.policy.min_in_sync_replicas
        } by {
            assert(ids.skip(1)[i] == ids[i + 1]);
        }
        lemma_unobstructed(m, transaction_id, ids.skip(1), outcome);
    }
}

/// An outcome is kept with its group and changes nothing of any other group, of the
/// group's totals, of a batch's place, or of any producer.
pub proof fn outcomes_are_kept(
    m: PartitionModel,
    transaction_id: u128,
    outcome: AtomicGroupState,
    other: u128,
    index: int,
)
    requires
        m.finalizing(transaction_id, outcome) matches Ok(None),
        other != transaction_id,
        0 <= index < m.batches.len(),
    ensures
        ({
            let after = m.finalized_as(transaction_id, outcome);
            let group = after.groups[transaction_id];
            let before = m.groups[transaction_id];
            let batch = after.batches[index];
            &&& after.groups.contains_key(transaction_id)
            &&& group.state == outcome
            &&& group.batch_ids == before.batch_ids
            &&& group.record_count == before.record_count
            &&& group.payload_bytes == before.payload_bytes
            &&& group.next_sequence == before.next_sequence
            &&& after.finalized.contains_key(transaction_id)
            &&& after.finalized[transaction_id] == outcome
            &&& after.groups.contains_key(other) == m.groups.contains_key(other)
            &&& after.groups[other] == m.groups[other]
            &&& after.finalized.contains_key(other) == m.finalized.contains_key(other)
            &&& after.finalized[other] == m.finalized[other]
            &&& after.batches.len() == m.batches.len()
            &&& after.first_batch == m.first_batch
            &&& batch.reservation == m.batches[index].reservation
            &&& batch.durable_replicas == m.batches[index].durable_replicas
            &&& batch.object_durable == m.batches[index].object_durable
            &&& batch.record_id == m.batches[index].record_id
            &&& after.producers == m.producers
            &&& after.dedup == m.dedup
            &&& after.sequencer == m.sequencer
            &&& after.log_start == m.log_start
        }),
{
}

/// Groups stay in order, whatever happens to the log of a leader.
pub proof fn groups_stay_in_order(
    m: PartitionModel,
    ask: Ask,
    completion: CompleteAppend,
    reservation: Reservation,
    producer: Option<ProducerIdentity>,
    definitely_not_written: bool,
    durable_replicas: u32,
    transaction_id: u128,
    outcome: AtomicGroupState,
)
    requires
        m.wf(),
        groups_in_order(m),
    ensures
        groups_in_order(ask.asked(m).0),
        groups_in_order(m.completing(completion).0),
        groups_in_order(m.failing(reservation, producer, definitely_not_written).0),
        groups_in_order(m.credited(reservation, durable_replicas).0),
        m.finalizing(transaction_id, outcome) matches Ok(None) ==> groups_in_order(
            m.finalized_as(transaction_id, outcome),
        ),
{
    let asked = ask.asked(m).0;
    assert forall|id: u128| #[trigger] asked.groups.contains_key(id) implies in_order(
        asked.groups[id],
    ) && forall|i: int|
        0 <= i < asked.groups[id].batch_ids.len() ==> (#[trigger] asked.groups[id].batch_ids[i])
            < asked.first_batch + asked.batches.len() by {
        if m.groups.contains_key(id) {
            assert(in_order(m.groups[id]));
        }
    }
    let failed = m.failing(reservation, producer, definitely_not_written).0;
    assert forall|id: u128| #[trigger] failed.groups.contains_key(id) implies in_order(
        failed.groups[id],
    ) && forall|i: int|
        0 <= i < failed.groups[id].batch_ids.len() ==> (#[trigger] failed.groups[id].batch_ids[i])
            < failed.first_batch + failed.batches.len() by {
        assert(m.groups.contains_key(id));
        assert(in_order(m.groups[id]));
    }
    let finalized = m.finalized_as(transaction_id, outcome);
    if m.finalizing(transaction_id, outcome) matches Ok(None) {
        assert forall|id: u128| #[trigger] finalized.groups.contains_key(id) implies in_order(
            finalized.groups[id],
        ) && forall|i: int|
            0 <= i < finalized.groups[id].batch_ids.len() ==> (
            #[trigger] finalized.groups[id].batch_ids[i]) < finalized.first_batch
                + finalized.batches.len() by {
            assert(m.groups.contains_key(id));
            assert(in_order(m.groups[id]));
        }
    }
}

} // verus!
