//! What retention, replication policies, waiting readers and followers may count on.
use vstd::prelude::*;

use crate::config::PartitionReplicationPolicy;
use crate::coordinator::ReserveOutcome;
use crate::error::{EngineResult, Fault};
use crate::ids::{BatchId, LogicalOffset};
use crate::partition::{
    lemma_chain_is_increasing, lemma_ripe_splits, lemma_scan_held, queued, ripe, waiter_ids,
    waiters_sorted, BatchStatus, Cursor, FetchBounds, Mark, PartitionModel, PartitionState,
    Waiter,
};
use crate::protocol::{AtomicGroupIdentity, PayloadDigest, ProducerIdentity};
use crate::sequencer::Reservation;

verus! {

/// A truncation removes exactly the batches that start below the new log start, and
/// leaves the others, the numbering and every producer as they are.
pub proof fn truncations_remove_what_lies_below(m: PartitionModel, log_start: LogicalOffset, index: int)
    requires
        m.wf(),
        m.truncation(log_start) matches Ok(Some(_)),
        0 <= index < m.batches.len(),
        log_start != m.stable.offset || m.stable.offset.0 == m.sequencer.next_offset,
    ensures
        ({
            let after = m.truncated(log_start, m.truncation(log_start)->Ok_0->0);
            let batch = m.batches[index];
            let id = batch.reservation.batch_id;
            &&& after.log_start == log_start
            &&& after.retains(id) <==> log_start.0 <= batch.reservation.first_offset.0
            &&& after.retains(id) ==> after.batch(id) == batch
            &&& after.first_batch + after.batches.len() == m.first_batch + m.batches.len()
            &&& after.sequencer == m.sequencer
            &&& after.producers == m.producers
            &&& after.dedup == m.dedup
            &&& after.policy == m.policy
            &&& after.finalized == m.finalized
        }),
{
    lemma_chain_is_increasing(m);
    let key = m.truncation(log_start)->Ok_0->0;
    assert(m.first_kept(log_start, key));
    let last = m.batches.len() - 1;
    assert(m.batches[last].reservation.end() == m.sequencer.next_offset);
    if log_start == m.stable.offset {
        assert(m.batches[index].reservation.end() <= m.batches[last].reservation.end());
    } else {
        let kept = key - m.first_batch;
        if index < kept {
            assert(m.batches[index].reservation.end()
                <= m.batches[kept].reservation.first_offset.0);
        }
        if kept < index {
            assert(m.batches[kept].reservation.end()
                <= m.batches[index].reservation.first_offset.0);
        }
    }
}

/// The log start never moves back, never passes what is stable, and moves only to
/// where a batch starts or to the stable end; a refused truncation is an error.
pub proof fn truncations_stay_within_the_log(m: PartitionModel, log_start: LogicalOffset)
    requires
        m.wf(),
    ensures
        log_start.0 < m.log_start.0 ==> m.truncation(log_start) is Err,
        log_start.0 > m.stable.offset.0 ==> m.truncation(log_start) is Err,
        log_start != m.stable.offset && (forall|i: int|
            0 <= i < m.batches.len() ==> (#[trigger] m.batches[i]).reservation.first_offset
                != log_start) ==> m.truncation(log_start) is Err,
        m.truncation(log_start) matches Ok(Some(_)) ==> m.log_start.0 < log_start.0,
        m.truncation(log_start) matches Ok(None) ==> m.log_start == log_start,
{
    if log_start != m.stable.offset && (forall|i: int|
        0 <= i < m.batches.len() ==> (#[trigger] m.batches[i]).reservation.first_offset
            != log_start) {
        assert forall|key: u128| !m.first_kept(log_start, key) by {
            if m.retains(BatchId(key)) {
                assert(m.batches[key - m.first_batch].reservation.first_offset != log_start);
            }
        }
    }
}

/// A truncation to the start of a stable batch that belongs to no group, or starts
/// one, is not refused; one in the middle of a group is.
pub proof fn truncations_split_no_group(m: PartitionModel, index: int)
    requires
        m.wf(),
        0 <= index < m.batches.len(),
        m.batches[index].reservation.first_offset.0 < m.stable.offset.0,
        m.log_start.0 < m.batches[index].reservation.first_offset.0,
    ensures
        ({
            let log_start = m.batches[index].reservation.first_offset;
            if m.batches[index].atomic_group matches Some(group) && group.chunk_sequence != 0 {
                m.truncation(log_start) is Err
            } else {
                m.truncation(log_start) == Ok::<Option<u128>, Fault>(
                    Some(m.batches[index].reservation.batch_id.0),
                )
            }
        }),
{
    lemma_chain_is_increasing(m);
    let log_start = m.batches[index].reservation.first_offset;
    let key = m.batches[index].reservation.batch_id.0;
    assert(m.first_kept(log_start, key));
    assert forall|other: u128| m.first_kept(log_start, other) implies other == key by {
        let at = other - m.first_batch;
        assert(m.batches[at].reservation.first_offset == log_start);
        if at < index {
            assert(m.batches[at].reservation.end() <= m.batches[index].reservation.first_offset.0);
        }
        if index < at {
            assert(m.batches[index].reservation.end() <= m.batches[at].reservation.first_offset.0);
        }
    }
}

/// Truncations drop a group exactly when every batch of it lies below the first batch
/// that is kept; a group that is kept is kept whole.
pub proof fn truncations_keep_groups_whole(
    m: PartitionModel,
    log_start: LogicalOffset,
    first_kept: u128,
    transaction_id: u128,
)
    requires
        m.groups.contains_key(transaction_id),
        m.groups[transaction_id].batch_ids.len() > 0,
    ensures
        ({
            let after = m.truncated(log_start, first_kept);
            let last = m.groups[transaction_id].batch_ids.last();
            &&& after.groups.contains_key(transaction_id) <==> first_kept <= last
            &&& first_kept <= last ==> after.groups[transaction_id] == m.groups[transaction_id]
        }),
{
}

/// A policy is changed only by who knows the present one, and only to a newer one; the
/// present policy itself changes nothing.
pub proof fn policies_only_advance(
    m: PartitionModel,
    expected: u64,
    policy: PartitionReplicationPolicy,
)
    ensures
        m.policy_change(expected, policy) == Ok::<bool, Fault>(true) ==> {
            &&& expected == m.policy.policy_generation
            &&& policy.policy_generation > m.policy.policy_generation
        },
        m.policy_change(expected, policy) == Ok::<bool, Fault>(false) <==> policy == m.policy,
        policy != m.policy && expected != m.policy.policy_generation ==> m.policy_change(
            expected,
            policy,
        ) is Err,
        policy != m.policy && policy.policy_generation <= expected ==> m.policy_change(
            expected,
            policy,
        ) is Err,
{
}

/// What is stable stays replicated: a new policy is accepted only when every retained
/// batch below the stable end is aborted or has the copies that it asks for.
pub proof fn policies_cover_what_is_stable(
    m: PartitionModel,
    expected: u64,
    policy: PartitionReplicationPolicy,
    index: int,
)
    requires
        m.wf(),
        m.policy_change(expected, policy) == Ok::<bool, Fault>(true),
        0 <= index < m.batches.len(),
        m.batches[index].reservation.first_offset.0 < m.stable.offset.0,
    ensures
        m.batches[index].status == BatchStatus::Aborted || m.batches[index].durable_replicas
            >= policy.min_in_sync_replicas,
{
    let mark = Mark::Replicated(policy.min_in_sync_replicas);
    lemma_chain_is_increasing(m);
    if !(m.batches[index].status == BatchStatus::Aborted || m.batches[index].durable_replicas
        >= policy.min_in_sync_replicas) {
        if index > 0 {
            assert(m.batches[0].reservation.end()
                <= m.batches[index].reservation.first_offset.0);
        }
        lemma_scan_held(
            m,
            Cursor { batch: m.first_batch, offset: m.log_start },
            mark,
            index,
        );
    }
}

/// A new policy is kept; no batch, producer, group or offset changes with it.
pub proof fn policies_change_nothing_else(m: PartitionModel, policy: PartitionReplicationPolicy)
    ensures
        ({
            let after = m.under_policy(policy);
            &&& after.policy == policy
            &&& after.batches == m.batches
            &&& after.first_batch == m.first_batch
            &&& after.log_start == m.log_start
            &&& after.sequencer == m.sequencer
            &&& after.groups == m.groups
            &&& after.finalized == m.finalized
            &&& after.producers == m.producers
            &&& after.dedup == m.dedup
        }),
{
}

/// Readers wait no longer than they must and no shorter: once the watermarks have
/// moved, whoever still waits waits for something that is not visible, and whoever
/// waits no more waited for something that is, and is named among the ready ones.
pub proof fn waits_end_in_time(m: PartitionModel, index: int)
    requires
        m.chained(),
    ensures
        ({
            let after = m.advanced();
            &&& 0 <= index < after.ordered_waiters.len() ==> after.ordered_waiters[index].through
                > after.stable.offset.0
            &&& 0 <= index < after.replicated_waiters.len()
                ==> after.replicated_waiters[index].through > after.replicated_end().0
            &&& 0 <= index < m.ordered_waiters.len() ==> if m.ordered_waiters[index].through
                <= after.stable.offset.0 {
                after.ready.contains(m.ordered_waiters[index].id)
            } else {
                after.ordered_waiters.contains(m.ordered_waiters[index])
            }
            &&& 0 <= index < m.replicated_waiters.len() ==> if m.replicated_waiters[index].through
                <= after.replicated_end().0 {
                after.ready.contains(m.replicated_waiters[index].id)
            } else {
                after.replicated_waiters.contains(m.replicated_waiters[index])
            }
            &&& 0 <= index < m.ready.len() ==> after.ready[index] == m.ready[index]
            &&& after.ready.len() + after.ordered_waiters.len() + after.replicated_waiters.len()
                == m.ready.len() + m.ordered_waiters.len() + m.replicated_waiters.len()
        }),
{
    let after = m.advanced();
    let visible = after.stable.offset.0;
    let copied = after.replicated_end().0;
    lemma_ripe_splits(m.ordered_waiters, visible);
    lemma_ripe_splits(m.replicated_waiters, copied);
    let ordered = ripe(m.ordered_waiters, visible) as int;
    let replicated = ripe(m.replicated_waiters, copied) as int;
    let told = m.ready + waiter_ids(m.ordered_waiters.take(ordered)) + waiter_ids(
        m.replicated_waiters.take(replicated),
    );
    assert(after.ready == told);
    if 0 <= index < after.ordered_waiters.len() {
        assert(after.ordered_waiters[index] == m.ordered_waiters[index + ordered]);
    }
    if 0 <= index < after.replicated_waiters.len() {
        assert(after.replicated_waiters[index] == m.replicated_waiters[index + replicated]);
    }
    if 0 <= index < m.ordered_waiters.len() {
        if index < ordered {
            assert(told[m.ready.len() + index] == m.ordered_waiters[index].id);
        } else {
            assert(after.ordered_waiters[index - ordered] == m.ordered_waiters[index]);
        }
    }
    if 0 <= index < m.replicated_waiters.len() {
        if index < replicated {
            assert(told[m.ready.len() + ordered + index] == m.replicated_waiters[index].id);
        } else {
            assert(after.replicated_waiters[index - replicated] == m.replicated_waiters[index]);
        }
    }
}

/// A reader that joins the queue is in it, with everybody who was there.
pub proof fn waiters_join_the_queue(waiters: Seq<Waiter>, waiter: Waiter, index: int)
    requires
        waiters_sorted(waiters),
        0 <= index < waiters.len(),
    ensures
        queued(waiters, waiter).len() == waiters.len() + 1,
        queued(waiters, waiter).contains(waiter),
        queued(waiters, waiter).contains(waiters[index]),
        waiters_sorted(queued(waiters, waiter)),
{
    lemma_ripe_splits(waiters, waiter.through);
    let n = ripe(waiters, waiter.through) as int;
    let all = queued(waiters, waiter);
    assert(all[n] == waiter);
    assert(all[if index < n {
        index
    } else {
        index + 1
    }] == waiters[index]);
    assert forall|i: int, j: int| 0 <= i <= j < all.len() implies (#[trigger] all[i]).through <= (
    #[trigger] all[j]).through by {
        let a = if i < n {
            i
        } else {
            i - 1
        };
        let b = if j < n {
            j
        } else {
            j - 1
        };
        if i != n && j != n {
            assert(waiters[a].through <= waiters[b].through);
        } else if i != n {
            assert(waiters[a].through <= waiter.through);
        } else if j != n {
            assert(waiters[b].through > waiter.through);
        }
    }
}

/// Fetches may read ordered data up to where everything has an outcome, replicated
/// data never past that, and anything up to where the written log ends; nothing below
/// the log start is offered.
pub proof fn fetches_stay_within_the_log(
    state: PartitionState,
    start_offset: LogicalOffset,
    result: EngineResult<FetchBounds>,
)
    requires
        state.wf(),
        call_ensures(PartitionState::fetch_bounds, (&state, start_offset), result),
    ensures
        result is Ok <==> state@.log_start.0 <= start_offset.0,
        result matches Ok(bounds) ==> {
            &&& bounds.physical_end == state@.watermarks().contiguous_log_end
            &&& bounds.ordered_end == state@.watermarks().last_stable_offset
            &&& bounds.replicated_end.0 <= bounds.ordered_end.0
            &&& bounds.replicated_end.0 <= state@.watermarks().replicated_high_watermark.0
            &&& bounds.replicated_end == bounds.ordered_end || bounds.replicated_end
                == state@.watermarks().replicated_high_watermark
            &&& bounds.ordered_end.0 <= bounds.physical_end.0
        },
        result matches Err(error) ==> error@ == (Fault::OffsetOutOfRange {
            requested: start_offset,
            log_start: state@.log_start,
        }),
{
    state@.watermarks_are_ordered();
}

/// A follower takes a batch that it does not hold only as the exact next one, for the
/// number of records that it stands for, and stores it as it was offered; otherwise
/// nothing changes.
pub proof fn followers_take_the_next_batch(
    m: PartitionModel,
    reservation: Reservation,
    producer: Option<ProducerIdentity>,
    atomic_group: Option<AtomicGroupIdentity>,
    payload_bytes: u64,
    payload_digest: PayloadDigest,
)
    requires
        m.wf(),
        !m.retains(reservation.batch_id),
        reservation.record_count > 0,
    ensures
        ({
            let (after, outcome) = m.replicating(
                reservation,
                producer,
                atomic_group,
                payload_bytes,
                payload_digest,
            );
            &&& outcome is Err || (outcome matches Ok(ReserveOutcome::Reserved { .. }))
            &&& outcome matches Ok(ReserveOutcome::Reserved { reservation: told, .. }) ==> {
                &&& told == reservation
                &&& reservation.first_offset.0 == m.sequencer.next_offset
                &&& reservation.batch_id.0 == m.first_batch + m.batches.len()
                &&& after.retains(reservation.batch_id)
                &&& after.batch(reservation.batch_id).reservation == reservation
                &&& after.batch(reservation.batch_id).status == BatchStatus::Pending
                &&& after.batch(reservation.batch_id).producer == producer
                &&& after.batch(reservation.batch_id).atomic_group == atomic_group
                &&& after.batch(reservation.batch_id).payload_bytes == payload_bytes
                &&& after.batch(reservation.batch_id).payload_digest == Some(payload_digest)
            }
            &&& reservation.first_offset.0 != m.sequencer.next_offset || reservation.batch_id.0
                != m.first_batch + m.batches.len() ==> outcome is Err && after == m
        }),
{
}

/// A batch that a follower holds is taken again only if it is the same in place,
/// producer, group and size. One that is written is confirmed with its own identity,
/// one that is under way is refused, and one that was aborted starts over in its place.
pub proof fn followers_know_their_batches(
    m: PartitionModel,
    reservation: Reservation,
    producer: Option<ProducerIdentity>,
    atomic_group: Option<AtomicGroupIdentity>,
    payload_bytes: u64,
    payload_digest: PayloadDigest,
)
    requires
        m.chained(),
        m.retains(reservation.batch_id),
    ensures
        ({
            let held = m.batch(reservation.batch_id);
            let (after, outcome) = m.replicating(
                reservation,
                producer,
                atomic_group,
                payload_bytes,
                payload_digest,
            );
            let differs = held.reservation != reservation || held.producer != producer
                || held.atomic_group != atomic_group || held.payload_bytes != payload_bytes || (
            held.payload_digest is Some && held.payload_digest->0 != payload_digest);
            &&& differs ==> outcome is Err && after == m
            &&& !differs && held.status == BatchStatus::Pending ==> outcome == Err::<
                ReserveOutcome,
                Fault,
            >(Fault::ReplicaInFlight(reservation.batch_id)) && after == m
            &&& !differs && (held.status == BatchStatus::Committed || held.status
                == BatchStatus::Unresolved) ==> after == m && (outcome matches Ok(
                ReserveOutcome::Duplicate { response, durable_replicas, object_durable, .. },
            ) && response.batch_id == reservation.batch_id && response.first_offset
                == reservation.first_offset && response.last_offset == reservation.last_offset
                && response.placement == reservation.placement && response.record_id
                == held.record_id && durable_replicas == held.durable_replicas && object_durable
                == held.object_durable)
            &&& !differs && held.status == BatchStatus::Aborted && atomic_group is None ==> {
                &&& outcome matches Ok(ReserveOutcome::Reserved { reservation: told, .. }) && told
                    == reservation
                &&& after.batches.len() == m.batches.len()
                &&& after.sequencer == m.sequencer
                &&& after.batch(reservation.batch_id).reservation == reservation
                &&& after.batch(reservation.batch_id).status == BatchStatus::Pending
                &&& after.batch(reservation.batch_id).payload_digest == Some(payload_digest)
            }
        }),
{
}

/// A new policy moves neither the end of what is finished nor the stable end; only the
/// replicated end is measured anew, by the copies that the policy asks for.
pub proof fn policies_move_only_the_replicated_end(
    m: PartitionModel,
    policy: PartitionReplicationPolicy,
)
    requires
        m.wf(),
    ensures
        ({
            let before = m.watermarks();
            let after = m.under_policy(policy).watermarks();
            &&& after.contiguous_log_end == before.contiguous_log_end
            &&& after.last_stable_offset == before.last_stable_offset
            &&& after.allocated_end == before.allocated_end
            &&& after.log_start == before.log_start
            &&& policy.min_in_sync_replicas == m.policy.min_in_sync_replicas
                ==> after.replicated_high_watermark == before.replicated_high_watermark
        }),
{
}

/// A follower that takes an aborted batch again gives its producer another chance in that
/// epoch, and leaves the producer's sequence and every other producer alone.
pub proof fn repeated_batches_forgive_their_producer(
    m: PartitionModel,
    reservation: Reservation,
    claim: ProducerIdentity,
    payload_bytes: u64,
    payload_digest: PayloadDigest,
    other: u128,
)
    requires
        m.retains(reservation.batch_id),
        m.batch(reservation.batch_id).status == BatchStatus::Aborted,
        m.producers.contains_key(claim.producer_id),
        m.producers[claim.producer_id].epoch == claim.epoch,
        other != claim.producer_id,
        m.replicating(reservation, Some(claim), None, payload_bytes, payload_digest).1 is Ok,
    ensures
        ({
            let after = m.replicating(
                reservation,
                Some(claim),
                None,
                payload_bytes,
                payload_digest,
            ).0;
            let id = claim.producer_id;
            &&& after.producers.contains_key(id)
            &&& !after.producers[id].failed
            &&& after.producers[id].epoch == claim.epoch
            &&& after.producers[id].next_sequence == m.producers[id].next_sequence
            &&& after.producers.contains_key(other) == m.producers.contains_key(other)
            &&& after.producers[other] == m.producers[other]
        }),
{
}

} // verus!
