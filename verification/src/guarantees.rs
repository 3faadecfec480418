//! What producers and consumers may rely on across several requests.
use vstd::prelude::*;

use crate::append::{
    admission, admitted, required_copies, reserve_continuation, AdmittedAppend, AfterReserve,
    AppendDurability, Completing,
};
use crate::config::EngineConfig;
use crate::coordinator::{dedup_key, receipt, stored_claim, CompleteAppend, ReserveOutcome};
use crate::error::{agrees, EngineResult, Fault};
use crate::fetch::{before, has_next, lemma_next_lane, next_lane, next_of, picked, plans_in_order, Plans};
use crate::ids::{BatchId, LogicalOffset, RecordId, TopicPartition};
use crate::journal::PartitionJournalModel;
use crate::partition::{
    empty_partition, fetchable, AtomicGroupState, BatchRuntime, DedupRecord, PartitionModel,
};
use crate::protocol::{
    AppendRequest, AppendResponse, AtomicGroupIdentity, Durability, ExtentCatalogEntry, FetchMode,
    PayloadDigest, ProducerIdentity, ProducerSequence, StoredBatchMetadata, DIGEST_XXH3_128,
};
use crate::recovery::{assembled, claim_identity, recovered_partition, Progress};
use crate::sequencer::Reservation;

verus! {

/// A producer's batch, as it is offered.
pub ghost struct Offer {
    pub claim: ProducerIdentity,
    pub record_count: u32,
    pub payload_bytes: u64,
    pub payload_digest: PayloadDigest,
}

impl Offer {
    /// What a partition makes of the offer.
    pub open spec fn reserved_in(self, m: PartitionModel, request_id: u128) -> (
        PartitionModel,
        Result<ReserveOutcome, Fault>,
    ) {
        m.reserving(
            request_id,
            Some(self.claim),
            None,
            self.record_count,
            self.payload_bytes,
            self.payload_digest,
        )
    }
}

/// What an accepted offer does to the producer's cursor.
proof fn lemma_offer_accepted(m: PartitionModel, request_id: u128, offer: Offer)
    requires
        offer.reserved_in(m, request_id).1 matches Ok(ReserveOutcome::Reserved { .. }),
    ensures
        ({
            let after = offer.reserved_in(m, request_id).0;
            let id = offer.claim.producer_id;
            &&& after.producers.contains_key(id)
            &&& after.producers[id].epoch == offer.claim.epoch
            &&& after.producers[id].next_sequence == offer.claim.first_sequence
                + offer.record_count
            &&& !after.producers[id].failed
            &&& after.dedup == m.dedup
            &&& m.checked_producer(
                request_id,
                Some(offer.claim),
                offer.record_count,
                offer.payload_digest,
            ) == Ok::<Option<(AppendResponse, u32, bool)>, Fault>(None)
        }),
{
}

/// A producer that offers an appended batch again is told the receipt of the
/// first time, and nothing changes; under the same sequence, another payload,
/// another identity of the event or another number of records is refused.
pub proof fn retried_batches_get_their_receipt(
    m: PartitionModel,
    first_request: u128,
    offer: Offer,
    completion: CompleteAppend,
    again: Offer,
    second_request: u128,
)
    requires
        offer.reserved_in(m, first_request).1 matches Ok(ReserveOutcome::Reserved { .. }),
        completion.reservation == offer.reserved_in(m, first_request).1->Ok_0->reservation,
        completion.producer == Some(offer.claim),
        completion.payload_digest == offer.payload_digest,
        offer.reserved_in(m, first_request).0.completing(completion).1 is Ok,
        again.claim.producer_id == offer.claim.producer_id,
        again.claim.epoch == offer.claim.epoch,
        again.claim.first_sequence == offer.claim.first_sequence,
    ensures
        ({
            let (stored, response) = offer.reserved_in(m, first_request).0.completing(completion);
            let (after, outcome) = again.reserved_in(stored, second_request);
            &&& after == stored
            &&& if again.payload_digest == offer.payload_digest && again.claim.event_id
                == offer.claim.event_id && again.record_count == offer.record_count {
                outcome matches Ok(ReserveOutcome::Duplicate { response: told, .. }) && told == (
                AppendResponse { request_id: second_request, ..response->Ok_0 })
            } else {
                outcome == Err::<ReserveOutcome, Fault>(
                    Fault::DuplicateSequenceMismatch(offer.claim.producer_id),
                )
            }
        }),
{
    lemma_offer_accepted(m, first_request, offer);
    let reserved = offer.reserved_in(m, first_request).0;
    let (stored, response) = reserved.completing(completion);
    assert(dedup_key(again.claim) == dedup_key(offer.claim));
    assert(stored.dedup.contains_key(dedup_key(offer.claim)));
    assert(stored.producers == reserved.producers);
    assert(completion.reservation.record_count == offer.record_count);
}

/// Two batches that a producer appends one after the other in an epoch have
/// sequences without a gap and without overlap.
pub proof fn producer_sequences_are_contiguous(
    m: PartitionModel,
    first_request: u128,
    offer: Offer,
    later: PartitionModel,
    second_request: u128,
    next: Offer,
)
    requires
        offer.reserved_in(m, first_request).1 matches Ok(ReserveOutcome::Reserved { .. }),
        later.producers[offer.claim.producer_id] == offer.reserved_in(
            m,
            first_request,
        ).0.producers[offer.claim.producer_id],
        later.producers.contains_key(offer.claim.producer_id),
        next.claim.producer_id == offer.claim.producer_id,
        next.claim.epoch == offer.claim.epoch,
        next.reserved_in(later, second_request).1 matches Ok(ReserveOutcome::Reserved { .. }),
    ensures
        next.claim.first_sequence == offer.claim.first_sequence + offer.record_count,
{
    lemma_offer_accepted(m, first_request, offer);
    lemma_offer_accepted(later, second_request, next);
}

/// A producer whose append failed gets no further batch in its epoch: it is
/// told to start a new one, unless it repeats a batch that was appended.
pub proof fn failed_producers_need_a_new_epoch(
    m: PartitionModel,
    reservation: Reservation,
    claim: ProducerIdentity,
    definitely_not_written: bool,
    request_id: u128,
    next: Offer,
)
    requires
        m.producers.contains_key(claim.producer_id),
        m.failing(reservation, Some(claim), definitely_not_written).1 is Ok,
        next.claim.producer_id == claim.producer_id,
        next.claim.epoch == m.producers[claim.producer_id].epoch,
        !m.dedup.contains_key(dedup_key(next.claim)),
    ensures
        ({
            let after = m.failing(reservation, Some(claim), definitely_not_written).0;
            next.reserved_in(after, request_id) == (
                after,
                Err::<ReserveOutcome, Fault>(Fault::ProducerRequiresNewEpoch(claim.producer_id)),
            )
        }),
{
    let after = m.failing(reservation, Some(claim), definitely_not_written).0;
    assert(after.producers[claim.producer_id].failed);
    assert(after.dedup == m.dedup);
}

/// An append that is finished can be fetched, unless it belongs to an atomic
/// group: then it cannot be fetched before the group is committed.
pub proof fn finished_appends_can_be_fetched(m: PartitionModel, completion: CompleteAppend)
    requires
        m.completing(completion).1 is Ok,
    ensures
        ({
            let id = completion.reservation.batch_id;
            let after = m.completing(completion).0;
            &&& after.retains(id)
            &&& after.batch(id).reservation == completion.reservation
            &&& fetchable(after.batch(id), false) == (m.batch(id).atomic_group is None)
        }),
{
}

/// An append that failed before anything was written is never fetched.
pub proof fn failed_appends_are_never_fetched(
    m: PartitionModel,
    reservation: Reservation,
    producer: Option<ProducerIdentity>,
)
    requires
        m.failing(reservation, producer, true).1 is Ok,
    ensures
        ({
            let after = m.failing(reservation, producer, true).0;
            &&& after.retains(reservation.batch_id)
            &&& !fetchable(after.batch(reservation.batch_id), true)
        }),
{
}

proof fn lemma_no_obstacle(
    m: PartitionModel,
    transaction_id: u128,
    ids: Seq<u128>,
    outcome: AtomicGroupState,
    index: int,
)
    requires
        m.group_obstacle(transaction_id, ids, outcome) is None,
        0 <= index < ids.len(),
    ensures
        m.chunk_obstacle(transaction_id, ids[index], outcome) is None,
    decreases ids.len(),
{
    if index > 0 {
        assert(ids.skip(1)[index - 1] == ids[index]);
        lemma_no_obstacle(m, transaction_id, ids.skip(1), outcome, index - 1);
    }
}

/// A group gets its outcome as a whole: until then no batch of it can be
/// fetched; once it is committed every one can, once it is aborted none can,
/// and no other batch is touched.
pub proof fn groups_are_atomic(
    m: PartitionModel,
    transaction_id: u128,
    outcome: AtomicGroupState,
    batch_id: BatchId,
)
    requires
        m.chained(),
        m.retains(batch_id),
        m.finalizing(transaction_id, outcome) matches Ok(None),
    ensures
        ({
            let after = m.finalized_as(transaction_id, outcome);
            &&& after.retains(batch_id)
            &&& if m.groups[transaction_id].batch_ids.contains(batch_id.0) {
                &&& !fetchable(m.batch(batch_id), false)
                &&& fetchable(after.batch(batch_id), false) == (outcome
                    == AtomicGroupState::Committed)
                &&& outcome == AtomicGroupState::Aborted ==> !fetchable(
                    after.batch(batch_id),
                    true,
                )
            } else {
                after.batch(batch_id) == m.batch(batch_id)
            }
        }),
{
    let ids = m.groups[transaction_id].batch_ids;
    if ids.contains(batch_id.0) {
        let index = choose|index: int| 0 <= index < ids.len() && ids[index] == batch_id.0;
        lemma_no_obstacle(m, transaction_id, ids, outcome, index);
        assert(BatchId(ids[index]) == batch_id);
    }
    let i = batch_id.0 - m.first_batch;
    assert((m.first_batch + i) as u128 == batch_id.0);
}

/// The coordinator's part of an append that the local store answered with `stored`.
pub open spec fn stored_completion(
    append: AdmittedAppend,
    reservation: Reservation,
    stored: AppendDurability,
    record_id: RecordId,
) -> CompleteAppend {
    CompleteAppend {
        reservation,
        producer: append.producer,
        payload_digest: append.payload_digest,
        durable_replicas: stored.durable_replicas,
        object_durable: stored.object_durable,
        response: receipt(append.request_id, reservation, record_id),
    }
}

/// A whole append where there is neither a transport nor a fence: the partition
/// afterwards, and the answer. `checked` is what the request's own check said,
/// `stored` what the local store answers, and `record_id` the batch's identity.
pub open spec fn local_append(
    config: EngineConfig,
    m: PartitionModel,
    request: AppendRequest,
    checked: Result<u32, Seq<char>>,
    stored: AppendDurability,
    record_id: RecordId,
) -> (PartitionModel, Result<AppendResponse, Fault>) {
    match admission(config, request, checked, None) {
        Err(fault) => (m, Err(fault)),
        Ok(append) => {
            let (reserved, outcome) = m.reserving(
                append.request_id,
                append.producer,
                append.atomic_group,
                append.record_count,
                append.payload_bytes,
                append.payload_digest,
            );
            match outcome {
                Err(fault) => (reserved, Err(fault)),
                Ok(
                    ReserveOutcome::Duplicate {
                        response,
                        durable_replicas,
                        object_durable,
                        replication_policy,
                    },
                ) => (
                    reserved,
                    enough(
                        append.durability,
                        required_copies(append.durability, replication_policy),
                        durable_replicas,
                        object_durable,
                        true,
                        response,
                    ),
                ),
                Ok(ReserveOutcome::Reserved { reservation, replication_policy, .. }) => {
                    let (after, completed) = reserved.completing(
                        stored_completion(append, reservation, stored, record_id),
                    );
                    (
                        after,
                        match completed {
                            Err(fault) => Err(fault),
                            Ok(response) => enough(
                                append.durability,
                                required_copies(append.durability, replication_policy),
                                stored.durable_replicas,
                                stored.object_durable,
                                false,
                                response,
                            ),
                        },
                    )
                },
            }
        },
    }
}

/// What a partition makes of the reservation of an admitted request.
pub open spec fn reserved_by(m: PartitionModel, request: AppendRequest, checked: Result<u32, Seq<char>>) -> (
    PartitionModel,
    Result<ReserveOutcome, Fault>,
) {
    let append = admitted(request, checked->Ok_0);
    m.reserving(
        append.request_id,
        append.producer,
        append.atomic_group,
        append.record_count,
        append.payload_bytes,
        append.payload_digest,
    )
}

/// The place that a request's batch gets, where it is admitted and new.
pub open spec fn placed_in(
    config: EngineConfig,
    m: PartitionModel,
    request: AppendRequest,
    checked: Result<u32, Seq<char>>,
) -> Option<Reservation> {
    match (admission(config, request, checked, None), reserved_by(m, request, checked).1) {
        (Ok(_), Ok(ReserveOutcome::Reserved { reservation, .. })) => Some(reservation),
        _ => None,
    }
}

/// The receipt, where a batch has as many copies as were asked for. Of a batch
/// that was appended before, the object tier is asked first.
pub open spec fn enough(
    durability: Durability,
    required: u32,
    durable_replicas: u32,
    object_durable: bool,
    object_first: bool,
    response: AppendResponse,
) -> Result<AppendResponse, Fault> {
    let no_object = durability == Durability::Object && !object_durable;
    if no_object && object_first {
        Err(Fault::ObjectDurabilityUnavailable)
    } else if durable_replicas < required {
        Err(Fault::DurabilityUnavailable { required_replicas: required, durable_replicas })
    } else if no_object {
        Err(Fault::ObjectDurabilityUnavailable)
    } else {
        Ok(response)
    }
}

/// The steps of an append without a transport and a fence add up to
/// `local_append`: what follows the reservation, and the acknowledgement once the
/// coordinator completed it.
pub proof fn local_appends_follow_their_steps(
    config: EngineConfig,
    m: PartitionModel,
    request: AppendRequest,
    checked: Result<u32, Seq<char>>,
    stored: AppendDurability,
    record_id: RecordId,
    append: AdmittedAppend,
    outcome: ReserveOutcome,
    next: AfterReserve,
    completed: EngineResult<AppendResponse>,
    result: EngineResult<AppendResponse>,
)
    requires
        admission(config, request, checked, None) == Ok::<_, Fault>(append),
        m.reserving(
            append.request_id,
            append.producer,
            append.atomic_group,
            append.record_count,
            append.payload_bytes,
            append.payload_digest,
        ).1 == Ok::<_, Fault>(outcome),
        reserve_continuation(append, false, outcome, next),
        match next {
            AfterReserve::Finished(finished) => result == finished,
            AfterReserve::Resend(_) => true,
            AfterReserve::Write(write) => {
                let completing = Completing {
                    write,
                    durability: stored,
                    replication_error: None,
                };
                &&& agrees(
                    completed,
                    m.reserving(
                        append.request_id,
                        append.producer,
                        append.atomic_group,
                        append.record_count,
                        append.payload_bytes,
                        append.payload_digest,
                    ).0.completing(
                        stored_completion(append, write.reservation, stored, record_id),
                    ).1,
                )
                &&& completing.acknowledges(append.durability, completed, result)
            },
        },
    ensures
        !(next is Resend),
        agrees(result, local_append(config, m, request, checked, stored, record_id).1),
{
}

/// A durability that asks for copies of the log only.
pub open spec fn is_log_durability(durability: Durability) -> bool {
    durability != Durability::Object
}

/// Where a partition has a single replica, the spellings of an acknowledgement
/// are one: whichever a request uses, the append has the same outcome and leaves
/// the same partition, and one local copy is enough for it.
pub proof fn spellings_agree_with_one_replica(
    config: EngineConfig,
    m: PartitionModel,
    one: AppendRequest,
    other: AppendRequest,
    checked: Result<u32, Seq<char>>,
    stored: AppendDurability,
    record_id: RecordId,
)
    requires
        m.policy.replication_factor == 1,
        m.policy.min_in_sync_replicas == 1,
        is_log_durability(one.durability),
        is_log_durability(other.durability),
        other == (AppendRequest { durability: other.durability, ..one }),
    ensures
        local_append(config, m, one, checked, stored, record_id) == local_append(
            config,
            m,
            other,
            checked,
            stored,
            record_id,
        ),
        placed_in(config, m, one, checked) is Some && stored.durable_replicas >= 1
            ==> local_append(config, m, one, checked, stored, record_id).1
            == reserved_by(m, one, checked).0.completing(
            stored_completion(
                admitted(one, checked->Ok_0),
                placed_in(config, m, one, checked)->0,
                stored,
                record_id,
            ),
        ).1,
{
    let (reserved, outcome) = m.reserving(
        one.request_id,
        one.producer,
        one.atomic_group,
        checked->Ok_0,
        one.payload@.len() as u64,
        admitted(one, checked->Ok_0).payload_digest,
    );
    assert(required_copies(one.durability, m.policy) == 1);
    assert(required_copies(other.durability, m.policy) == 1);
    lemma_reserving_keeps_policy(
        m,
        one.request_id,
        one.producer,
        one.atomic_group,
        checked->Ok_0,
        one.payload@.len() as u64,
        admitted(one, checked->Ok_0).payload_digest,
    );
    if let Ok(ReserveOutcome::Reserved { reservation, .. }) = outcome {
        let a = admitted(one, checked->Ok_0);
        let b = admitted(other, checked->Ok_0);
        assert(stored_completion(a, reservation, stored, record_id) == stored_completion(
            b,
            reservation,
            stored,
            record_id,
        ));
        let completed = reserved.completing(stored_completion(a, reservation, stored, record_id));
    }
}

proof fn lemma_reserving_keeps_policy(
    m: PartitionModel,
    request_id: u128,
    producer: Option<ProducerIdentity>,
    atomic_group: Option<AtomicGroupIdentity>,
    record_count: u32,
    payload_bytes: u64,
    payload_digest: PayloadDigest,
)
    ensures
        match m.reserving(
            request_id,
            producer,
            atomic_group,
            record_count,
            payload_bytes,
            payload_digest,
        ).1 {
            Ok(ReserveOutcome::Duplicate { replication_policy, .. }) => replication_policy
                == m.policy,
            Ok(ReserveOutcome::Reserved { replication_policy, .. }) => replication_policy
                == m.policy,
            Err(fault) => !(fault is DurabilityUnavailable),
        },
{
}

/// Without an object store, an append that asks for the object tier is refused
/// before anything is reserved.
pub proof fn object_appends_need_a_store(
    config: EngineConfig,
    m: PartitionModel,
    request: AppendRequest,
    checked: Result<u32, Seq<char>>,
    stored: AppendDurability,
    record_id: RecordId,
)
    requires
        request.durability == Durability::Object,
        config.object_store_dir is None,
    ensures
        local_append(config, m, request, checked, stored, record_id) == (
            m,
            Err::<AppendResponse, _>(
                Fault::UnsupportedDurability("object acknowledgement requires object_store_dir"@),
            ),
        ),
{
}

/// A producer's request that was acknowledged is answered alike when it is sent
/// again: with the same batch, offsets, placement and identity, under its new
/// request number, and nothing is stored a second time.
pub proof fn retried_appends_are_answered_alike(
    config: EngineConfig,
    m: PartitionModel,
    request: AppendRequest,
    checked: Result<u32, Seq<char>>,
    stored: AppendDurability,
    record_id: RecordId,
    again: AppendRequest,
    stored_again: AppendDurability,
    other_id: RecordId,
)
    requires
        request.producer is Some,
        placed_in(config, m, request, checked) is Some,
        local_append(config, m, request, checked, stored, record_id).1 is Ok,
        again == (AppendRequest { request_id: again.request_id, ..request }),
    ensures
        ({
            let (after, answer) = local_append(config, m, request, checked, stored, record_id);
            local_append(config, after, again, checked, stored_again, other_id) == (
                after,
                Ok::<_, Fault>(
                    AppendResponse { request_id: again.request_id, ..answer->Ok_0 },
                ),
            )
        }),
{
    let append = admitted(request, checked->Ok_0);
    let claim = request.producer->0;
    let (reserved, outcome) = reserved_by(m, request, checked);
    let reservation = placed_in(config, m, request, checked)->0;
    let completion = stored_completion(append, reservation, stored, record_id);
    let (after, completed) = reserved.completing(completion);
    assert(reserved.producers.contains_key(claim.producer_id));
    assert(reserved.producers[claim.producer_id].epoch == claim.epoch);
    assert(after.producers == reserved.producers);
    assert(after.policy == m.policy);
    assert(after.dedup.contains_key(dedup_key(claim)));
    let record = after.dedup[dedup_key(claim)];
    assert(record.record_count == append.record_count);
    assert(record.durable_replicas >= stored.durable_replicas);
    assert(record.object_durable == stored.object_durable);
}

proof fn lemma_picked_extends(
    plans: Plans,
    positions: Seq<int>,
    mode: FetchMode,
    end: LogicalOffset,
    committed: Set<u128>,
    max_bytes: usize,
    used: nat,
    taken: Seq<(int, StoredBatchMetadata)>,
)
    requires
        positions.len() == plans.len(),
        picked(plans, positions, mode, end, committed, max_bytes, used, taken) is Ok,
    ensures
        ({
            let all = picked(plans, positions, mode, end, committed, max_bytes, used, taken)->Ok_0;
            all.len() >= taken.len() && all.take(taken.len() as int) == taken
        }),
    decreases crate::fetch::left(plans, positions, plans.len()),
{
    lemma_next_lane(plans, positions, plans.len());
    let all = picked(plans, positions, mode, end, committed, max_bytes, used, taken)->Ok_0;
    match next_lane(plans, positions, plans.len()) {
        None => {
            assert(all.take(taken.len() as int) =~= taken);
        },
        Some(lane) => {
            let batch = next_of(plans, positions, lane);
            let rest = positions.update(lane, positions[lane] + 1);
            crate::fetch::lemma_left_shrinks(plans, positions, plans.len(), lane);
            if mode != FetchMode::AsAvailable && batch.reservation.last_offset.0 >= end.0 {
                assert(all.take(taken.len() as int) =~= taken);
            } else if !committed.contains(batch.reservation.batch_id.0) {
                if mode != FetchMode::AsAvailable && batch.reservation.first_offset.0 >= end.0 {
                    assert(all.take(taken.len() as int) =~= taken);
                } else {
                    lemma_picked_extends(plans, rest, mode, end, committed, max_bytes, used, taken);
                }
            } else if taken.len() > 0 && used + batch.payload_len > max_bytes {
                assert(all.take(taken.len() as int) =~= taken);
            } else {
                let more = taken.push((lane, batch));
                lemma_picked_extends(
                    plans,
                    rest,
                    mode,
                    end,
                    committed,
                    max_bytes,
                    used + batch.payload_len as nat,
                    more,
                );
                assert(all.take(taken.len() as int) =~= all.take(more.len() as int).drop_last());
                assert(more.drop_last() =~= taken);
            }
        },
    }
}

/// A batch of a shard is among those taken.
pub open spec fn is_taken(
    taken: Seq<(int, StoredBatchMetadata)>,
    lane: int,
    batch: StoredBatchMetadata,
) -> bool {
    exists|k: int| 0 <= k < taken.len() && #[trigger] taken[k] == (lane, batch)
}

proof fn lemma_picked_skips_nothing(
    plans: Plans,
    positions: Seq<int>,
    mode: FetchMode,
    end: LogicalOffset,
    committed: Set<u128>,
    max_bytes: usize,
    used: nat,
    taken: Seq<(int, StoredBatchMetadata)>,
    lane: int,
    index: int,
)
    requires
        positions.len() == plans.len(),
        plans_in_order(plans),
        0 <= lane < plans.len(),
        0 <= positions[lane] <= index < plans[lane].len(),
        committed.contains(plans[lane][index].reservation.batch_id.0),
        picked(plans, positions, mode, end, committed, max_bytes, used, taken) is Ok,
        ({
            let all = picked(plans, positions, mode, end, committed, max_bytes, used, taken)->Ok_0;
            all.len() > taken.len() && plans[lane][index].reservation.first_offset.0
                < all.last().1.reservation.first_offset.0
        }),
    ensures
        is_taken(
            picked(plans, positions, mode, end, committed, max_bytes, used, taken)->Ok_0,
            lane,
            plans[lane][index],
        ),
    decreases crate::fetch::left(plans, positions, plans.len()),
{
    lemma_next_lane(plans, positions, plans.len());
    let all = picked(plans, positions, mode, end, committed, max_bytes, used, taken)->Ok_0;
    assert(has_next(plans, positions, lane));
    let served = next_lane(plans, positions, plans.len())->0;
    let batch = next_of(plans, positions, served);
    let rest = positions.update(served, positions[served] + 1);
    crate::fetch::lemma_left_shrinks(plans, positions, plans.len(), served);
    if !committed.contains(batch.reservation.batch_id.0) {
        lemma_picked_skips_nothing(
            plans,
            rest,
            mode,
            end,
            committed,
            max_bytes,
            used,
            taken,
            lane,
            index,
        );
    } else {
        let more = taken.push((served, batch));
        lemma_picked_extends(
            plans,
            rest,
            mode,
            end,
            committed,
            max_bytes,
            used + batch.payload_len as nat,
            more,
        );
        assert(all.take(more.len() as int)[taken.len() as int] == (served, batch));
        assert(all[taken.len() as int] == (served, batch));
        if served == lane && positions[lane] == index {
            assert(is_taken(all, lane, plans[lane][index]));
        } else if all.len() == more.len() {
            assert(all.last() == (served, batch));
            assert(plans[lane][positions[lane]].reservation.first_offset.0
                <= plans[lane][index].reservation.first_offset.0);
            if served != lane {
                assert(before(plans, positions, served, lane));
            }
        } else {
            lemma_picked_skips_nothing(
                plans,
                rest,
                mode,
                end,
                committed,
                max_bytes,
                used + batch.payload_len as nat,
                more,
                lane,
                index,
            );
        }
    }
}

/// The batches that a fetch takes from the shards' plans.
pub open spec fn fetched(
    plans: Plans,
    mode: FetchMode,
    end: LogicalOffset,
    committed: Set<u128>,
    max_bytes: usize,
) -> Result<Seq<(int, StoredBatchMetadata)>, Fault> {
    picked(
        plans,
        Seq::new(plans.len(), |i: int| 0int),
        mode,
        end,
        committed,
        max_bytes,
        0,
        Seq::empty(),
    )
}

/// A fetch skips no visible batch: every one that a shard planned and that
/// starts below the last batch returned is returned too.
pub proof fn fetches_skip_nothing(
    plans: Plans,
    mode: FetchMode,
    end: LogicalOffset,
    committed: Set<u128>,
    max_bytes: usize,
    lane: int,
    index: int,
)
    requires
        plans_in_order(plans),
        fetched(plans, mode, end, committed, max_bytes) is Ok,
        fetched(plans, mode, end, committed, max_bytes)->Ok_0.len() > 0,
        0 <= lane < plans.len(),
        0 <= index < plans[lane].len(),
        committed.contains(plans[lane][index].reservation.batch_id.0),
        plans[lane][index].reservation.first_offset.0 < fetched(
            plans,
            mode,
            end,
            committed,
            max_bytes,
        )->Ok_0.last().1.reservation.first_offset.0,
    ensures
        is_taken(
            fetched(plans, mode, end, committed, max_bytes)->Ok_0,
            lane,
            plans[lane][index],
        ),
{
    lemma_picked_skips_nothing(
        plans,
        Seq::new(plans.len(), |i: int| 0int),
        mode,
        end,
        committed,
        max_bytes,
        0,
        Seq::empty(),
        lane,
        index,
    );
}

/// Every planned batch that starts no later than `bound` lies below the end.
pub open spec fn whole_below(plans: Plans, bound: u64, end: LogicalOffset) -> bool {
    forall|lane: int, i: int|
        0 <= lane < plans.len() && 0 <= i < plans[lane].len() && (
        #[trigger] plans[lane][i]).reservation.first_offset.0 <= bound
            ==> plans[lane][i].reservation.first_offset.0 <= plans[lane][i].reservation.last_offset.0
            < end.0
}

proof fn lemma_picked_progresses(
    plans: Plans,
    positions: Seq<int>,
    mode: FetchMode,
    end: LogicalOffset,
    committed: Set<u128>,
    max_bytes: usize,
    lane: int,
    index: int,
)
    requires
        positions.len() == plans.len(),
        forall|l: int| 0 <= l < plans.len() ==> 0 <= #[trigger] positions[l],
        plans_in_order(plans),
        0 <= lane < plans.len(),
        positions[lane] <= index < plans[lane].len(),
        committed.contains(plans[lane][index].reservation.batch_id.0),
        mode != FetchMode::AsAvailable ==> whole_below(
            plans,
            plans[lane][index].reservation.first_offset.0,
            end,
        ),
        picked(plans, positions, mode, end, committed, max_bytes, 0, Seq::empty()) is Ok,
    ensures
        picked(plans, positions, mode, end, committed, max_bytes, 0, Seq::empty())->Ok_0.len() > 0,
    decreases crate::fetch::left(plans, positions, plans.len()),
{
    lemma_next_lane(plans, positions, plans.len());
    assert(has_next(plans, positions, lane));
    let served = next_lane(plans, positions, plans.len())->0;
    let batch = next_of(plans, positions, served);
    let rest = positions.update(served, positions[served] + 1);
    crate::fetch::lemma_left_shrinks(plans, positions, plans.len(), served);
    assert(plans[lane][positions[lane]].reservation.first_offset.0
        <= plans[lane][index].reservation.first_offset.0);
    if served != lane {
        assert(before(plans, positions, served, lane));
    }
    assert(plans[served][positions[served]].reservation.first_offset.0
        <= plans[lane][index].reservation.first_offset.0);
    if !committed.contains(batch.reservation.batch_id.0) {
        lemma_picked_progresses(plans, rest, mode, end, committed, max_bytes, lane, index);
    } else {
        lemma_picked_extends(
            plans,
            rest,
            mode,
            end,
            committed,
            max_bytes,
            batch.payload_len as nat,
            Seq::empty().push((served, batch)),
        );
    }
}

/// A fetch makes progress: where a visible batch was planned, and everything
/// that starts no later lies below the visible end, the fetch returns something,
/// however small its budget.
pub proof fn fetches_make_progress(
    plans: Plans,
    mode: FetchMode,
    end: LogicalOffset,
    committed: Set<u128>,
    max_bytes: usize,
    lane: int,
    index: int,
)
    requires
        plans_in_order(plans),
        fetched(plans, mode, end, committed, max_bytes) is Ok,
        0 <= lane < plans.len(),
        0 <= index < plans[lane].len(),
        committed.contains(plans[lane][index].reservation.batch_id.0),
        mode != FetchMode::AsAvailable ==> whole_below(
            plans,
            plans[lane][index].reservation.first_offset.0,
            end,
        ),
    ensures
        fetched(plans, mode, end, committed, max_bytes)->Ok_0.len() > 0,
{
    lemma_picked_progresses(
        plans,
        Seq::new(plans.len(), |i: int| 0int),
        mode,
        end,
        committed,
        max_bytes,
        lane,
        index,
    );
}

proof fn lemma_appended_all_keeps_producers(m: PartitionModel, batches: Seq<BatchRuntime>)
    requires
        m.appended_all(batches).1 is Ok,
    ensures
        m.appended_all(batches).0.producers == m.producers,
        m.appended_all(batches).0.dedup == m.dedup,
        m.appended_all(batches).0.policy == m.policy,
    decreases batches.len(),
{
    if batches.len() > 0 {
        lemma_appended_all_keeps_producers(m, batches.drop_last());
    }
}

/// What recovery keeps of a stored claim.
pub open spec fn restored_record(entry: ExtentCatalogEntry, replicas: u32) -> DedupRecord {
    let claim = entry.producer->0;
    DedupRecord {
        digest_algorithm: claim.digest_algorithm,
        payload_digest: claim.payload_digest,
        event_id: claim.event_id,
        record_count: entry.reservation.record_count,
        durable_replicas: replicas,
        object_durable: entry.object_durable,
        response: receipt(0, entry.reservation, entry.record_id),
    }
}

/// Where recovery keeps what it knows of a stored claim.
pub open spec fn restored_key(entry: ExtentCatalogEntry) -> (u128, u128) {
    dedup_key(claim_identity(entry.producer->0))
}

/// No entry from `from` on repeats the sequence of `entry`.
pub open spec fn not_repeated(
    entries: Seq<ExtentCatalogEntry>,
    from: int,
    entry: ExtentCatalogEntry,
) -> bool {
    forall|j: int|
        from <= j < entries.len() && (#[trigger] entries[j]).producer is Some ==> restored_key(
            entries[j],
        ) != restored_key(entry)
}

/// No entry has a later epoch of the producer.
pub open spec fn latest_epoch(entries: Seq<ExtentCatalogEntry>, claim: ProducerSequence) -> bool {
    forall|j: int|
        0 <= j < entries.len() && (#[trigger] entries[j]).producer is Some
            && entries[j].producer->0.producer_id == claim.producer_id
            ==> entries[j].producer->0.epoch <= claim.epoch
}

proof fn lemma_claims_restored(
    start: Progress,
    topic_partition: TopicPartition,
    journal: PartitionJournalModel,
    replicas: u32,
    entries: Seq<ExtentCatalogEntry>,
    index: int,
)
    requires
        start.after_all(topic_partition, journal, replicas, entries) is Ok,
        0 <= index < entries.len(),
        entries[index].producer is Some,
    ensures
        ({
            let m = start.after_all(topic_partition, journal, replicas, entries)->Ok_0.model;
            let claim = entries[index].producer->0;
            &&& m.producers.contains_key(claim.producer_id)
            &&& m.producers[claim.producer_id].epoch >= claim.epoch
            &&& not_repeated(entries, index + 1, entries[index]) ==> m.dedup.contains_key(
                restored_key(entries[index]),
            ) && m.dedup[restored_key(entries[index])] == restored_record(entries[index], replicas)
        }),
    decreases entries.len(),
{
    let earlier = entries.drop_last();
    let last = entries.last();
    let progress = start.after_all(topic_partition, journal, replicas, earlier)->Ok_0;
    lemma_after_restores(progress, topic_partition, journal, replicas, last);
    if index < entries.len() - 1 {
        assert(earlier[index] == entries[index]);
        lemma_claims_restored(start, topic_partition, journal, replicas, earlier, index);
        if not_repeated(entries, index + 1, entries[index]) {
            assert forall|j: int|
                index + 1 <= j < earlier.len() && (
                #[trigger] earlier[j]).producer is Some implies restored_key(earlier[j])
                != restored_key(entries[index]) by {
                assert(earlier[j] == entries[j]);
            }
            assert(entries[entries.len() - 1] == last);
        }
        let claim = entries[index].producer->0;
        let m = progress.model;
        let after = start.after_all(topic_partition, journal, replicas, entries)->Ok_0.model;
        assert(after == progress.after(topic_partition, journal, replicas, last)->Ok_0.model);
        assert(m.producers.contains_key(claim.producer_id));
        if let Some(stored) = last.producer {
            assert(after.producers.contains_key(claim.producer_id) || stored.producer_id
                != claim.producer_id);
            assert(stored.producer_id != claim.producer_id ==> after.producers.contains_key(
                claim.producer_id,
            ) == m.producers.contains_key(claim.producer_id));
            if not_repeated(entries, index + 1, entries[index]) {
                assert(restored_key(last) != restored_key(entries[index]));
                assert(after.dedup[restored_key(entries[index])] == m.dedup[restored_key(
                    entries[index],
                )]);
            }
        }
    } else {
        assert(entries[index] == last);
    }
}

/// What one stored batch does to the producers.
proof fn lemma_after_restores(
    progress: Progress,
    topic_partition: TopicPartition,
    journal: PartitionJournalModel,
    replicas: u32,
    entry: ExtentCatalogEntry,
)
    requires
        progress.after(topic_partition, journal, replicas, entry) is Ok,
    ensures
        ({
            let m = progress.model;
            let after = progress.after(topic_partition, journal, replicas, entry)->Ok_0.model;
            &&& after.policy == m.policy
            &&& match entry.producer {
                None => after.producers == m.producers && after.dedup == m.dedup,
                Some(claim) => {
                    let id = claim.producer_id;
                    &&& after.dedup == m.dedup.insert(
                        restored_key(entry),
                        restored_record(entry, replicas),
                    )
                    &&& after.producers.contains_key(id)
                    &&& after.producers[id].epoch == (if m.producers.contains_key(id)
                        && m.producers[id].epoch > claim.epoch {
                        m.producers[id].epoch
                    } else {
                        claim.epoch
                    })
                    &&& forall|other: u128|
                        other != id ==> (#[trigger] after.producers.contains_key(other)
                            == m.producers.contains_key(other)) && after.producers[other]
                            == m.producers[other]
                },
            }
        }),
{
    let reservation = entry.reservation;
    let missing = reservation.batch_id.0 - progress.next_batch_id;
    let filled = progress.gap_filled(
        journal.rings,
        topic_partition,
        missing,
        reservation.first_offset.0 - progress.next_offset,
        reservation.placement.ring_epoch,
    )->Ok_0;
    if missing > 0 {
        let gap = crate::recovery::Gap {
            topic_partition,
            lanes: crate::recovery::ring_lanes(journal.rings, reservation.placement.ring_epoch),
            ring_epoch: reservation.placement.ring_epoch,
            leader_epoch: progress.model.sequencer.leader_epoch,
            first_batch: progress.next_batch_id,
            first_offset: progress.next_offset,
            first_sequence: progress.next_sequence,
            batches: missing,
            records: reservation.first_offset.0 - progress.next_offset,
        };
        lemma_appended_all_keeps_producers(progress.model, gap.all());
    }
    assert(filled.producers == progress.model.producers);
    assert(filled.dedup == progress.model.dedup);
    assert(filled.policy == progress.model.policy);
}

proof fn lemma_policy_kept(
    start: Progress,
    topic_partition: TopicPartition,
    journal: PartitionJournalModel,
    replicas: u32,
    entries: Seq<ExtentCatalogEntry>,
)
    requires
        start.after_all(topic_partition, journal, replicas, entries) is Ok,
    ensures
        start.after_all(topic_partition, journal, replicas, entries)->Ok_0.model.policy
            == start.model.policy,
    decreases entries.len(),
{
    if entries.len() > 0 {
        let earlier = entries.drop_last();
        let progress = start.after_all(topic_partition, journal, replicas, earlier)->Ok_0;
        lemma_policy_kept(start, topic_partition, journal, replicas, earlier);
        lemma_after_restores(progress, topic_partition, journal, replicas, entries.last());
    }
}

proof fn lemma_epochs_were_stored(
    start: Progress,
    topic_partition: TopicPartition,
    journal: PartitionJournalModel,
    replicas: u32,
    entries: Seq<ExtentCatalogEntry>,
    claim: ProducerSequence,
)
    requires
        start.after_all(topic_partition, journal, replicas, entries) is Ok,
        !start.model.producers.contains_key(claim.producer_id),
        latest_epoch(entries, claim),
    ensures
        ({
            let m = start.after_all(topic_partition, journal, replicas, entries)->Ok_0.model;
            m.producers.contains_key(claim.producer_id)
                ==> m.producers[claim.producer_id].epoch <= claim.epoch
        }),
    decreases entries.len(),
{
    if entries.len() > 0 {
        let earlier = entries.drop_last();
        let last = entries.last();
        let progress = start.after_all(topic_partition, journal, replicas, earlier)->Ok_0;
        assert forall|j: int|
            0 <= j < earlier.len() && (#[trigger] earlier[j]).producer is Some
                && earlier[j].producer->0.producer_id
                == claim.producer_id implies earlier[j].producer->0.epoch <= claim.epoch by {
            assert(earlier[j] == entries[j]);
        }
        lemma_epochs_were_stored(start, topic_partition, journal, replicas, earlier, claim);
        lemma_after_restores(progress, topic_partition, journal, replicas, last);
        assert(entries[entries.len() - 1] == last);
    }
}

/// A restart forgets no producer's batch: one that was stored in the latest
/// epoch of its producer is recognised when it is offered again, by the receipt
/// of its place, and another payload under its sequence is refused.
pub proof fn restarts_keep_producers(
    config: EngineConfig,
    topic_partition: TopicPartition,
    journal: PartitionJournalModel,
    replicas: u32,
    entries: Seq<ExtentCatalogEntry>,
    index: int,
    again: Offer,
    request_id: u128,
)
    requires
        recovered_partition(config, topic_partition, journal, replicas, entries) is Ok,
        0 <= index < entries.len(),
        entries[index].producer is Some,
        entries[index].producer->0.digest_algorithm == DIGEST_XXH3_128,
        latest_epoch(entries, entries[index].producer->0),
        not_repeated(entries, index + 1, entries[index]),
        again.claim.producer_id == entries[index].producer->0.producer_id,
        again.claim.epoch == entries[index].producer->0.epoch,
        again.claim.first_sequence == entries[index].producer->0.first_sequence,
    ensures
        ({
            let m = recovered_partition(
                config,
                topic_partition,
                journal,
                replicas,
                entries,
            )->Ok_0;
            let claim = entries[index].producer->0;
            let (after, outcome) = again.reserved_in(m, request_id);
            &&& after == m
            &&& if again.payload_digest == claim.payload_digest && again.claim.event_id
                == claim.event_id && again.record_count == entries[index].reservation.record_count {
                outcome == Ok::<ReserveOutcome, Fault>(
                    ReserveOutcome::Duplicate {
                        response: receipt(
                            request_id,
                            entries[index].reservation,
                            entries[index].record_id,
                        ),
                        durable_replicas: if replicas <= journal.policy.replication_factor {
                            replicas
                        } else {
                            journal.policy.replication_factor
                        },
                        object_durable: entries[index].object_durable,
                        replication_policy: journal.policy,
                    },
                )
            } else {
                outcome == Err::<ReserveOutcome, Fault>(
                    Fault::DuplicateSequenceMismatch(claim.producer_id),
                )
            }
        }),
{
    let claim = entries[index].producer->0;
    let limit = if replicas <= journal.policy.replication_factor {
        replicas
    } else {
        journal.policy.replication_factor
    };
    let m = recovered_partition(config, topic_partition, journal, replicas, entries)->Ok_0;
    let whole = assembled(topic_partition, journal, replicas, entries)->Ok_0;
    let ring = journal.rings.last();
    let fresh = crate::sequencer::SequencerModel {
        topic_id: topic_partition.topic_id,
        partition_id: topic_partition.partition_id,
        ring_epoch: ring.epoch,
        leader_epoch: crate::ids::LeaderEpoch(0),
        virtual_lanes: ring.lanes,
        next_batch_id: 0,
        next_offset: 0,
        next_placement_sequence: 0,
    };
    let start = Progress {
        model: empty_partition(fresh, journal.policy),
        next_batch_id: 0,
        next_offset: 0,
        next_sequence: 0,
    };
    lemma_claims_restored(start, topic_partition, journal, limit, entries, index);
    lemma_epochs_were_stored(start, topic_partition, journal, limit, entries, claim);
    lemma_policy_kept(start, topic_partition, journal, limit, entries);
    assert(m.policy == journal.policy);
    assert(m.producers == whole.producers);
    assert(m.dedup == whole.dedup);
    assert(dedup_key(again.claim) == restored_key(entries[index]));
}

/// A batch that was appended before a restart is answered alike after it: offered
/// again in the same epoch it is told the batch, offsets, placement and identity
/// of the first time, nothing changes, and another payload, event or number of
/// records under its sequence is refused. (No other stored batch may claim the
/// sequence.)
pub proof fn retries_survive_restarts(
    m: PartitionModel,
    first_request: u128,
    offer: Offer,
    completion: CompleteAppend,
    config: EngineConfig,
    topic_partition: TopicPartition,
    journal: PartitionJournalModel,
    replicas: u32,
    entries: Seq<ExtentCatalogEntry>,
    index: int,
    again: Offer,
    request_id: u128,
)
    requires
        offer.reserved_in(m, first_request).1 matches Ok(ReserveOutcome::Reserved { .. }),
        completion.reservation == offer.reserved_in(m, first_request).1->Ok_0->reservation,
        completion.producer == Some(offer.claim),
        completion.payload_digest == offer.payload_digest,
        completion.response == receipt(
            first_request,
            completion.reservation,
            completion.response.record_id,
        ),
        offer.reserved_in(m, first_request).0.completing(completion).1 is Ok,
        recovered_partition(config, topic_partition, journal, replicas, entries) is Ok,
        0 <= index < entries.len(),
        entries[index].reservation == completion.reservation,
        entries[index].producer == stored_claim(Some(offer.claim), offer.payload_digest),
        entries[index].record_id == completion.response.record_id,
        latest_epoch(entries, entries[index].producer->0),
        not_repeated(entries, index + 1, entries[index]),
        again.claim.producer_id == offer.claim.producer_id,
        again.claim.epoch == offer.claim.epoch,
        again.claim.first_sequence == offer.claim.first_sequence,
    ensures
        ({
            let first = offer.reserved_in(m, first_request).0.completing(completion).1->Ok_0;
            let recovered = recovered_partition(
                config,
                topic_partition,
                journal,
                replicas,
                entries,
            )->Ok_0;
            let (after, outcome) = again.reserved_in(recovered, request_id);
            &&& after == recovered
            &&& after.watermarks() == recovered.watermarks()
            &&& if again.payload_digest == offer.payload_digest && again.claim.event_id
                == offer.claim.event_id && again.record_count == offer.record_count {
                outcome matches Ok(ReserveOutcome::Duplicate { response, .. }) && {
                    &&& response.request_id == request_id
                    &&& response.batch_id == first.batch_id
                    &&& response.record_id == first.record_id
                    &&& response.first_offset == first.first_offset
                    &&& response.last_offset == first.last_offset
                    &&& response.placement == first.placement
                }
            } else {
                outcome == Err::<ReserveOutcome, Fault>(
                    Fault::DuplicateSequenceMismatch(offer.claim.producer_id),
                )
            }
        }),
{
    assert(completion.reservation.record_count == offer.record_count);
    restarts_keep_producers(
        config,
        topic_partition,
        journal,
        replicas,
        entries,
        index,
        again,
        request_id,
    );
}

/// A producer's request that was acknowledged is answered alike when it is sent
/// again after a restart: with the same batch, offsets, placement and identity,
/// under its new request number, and nothing is stored a second time. How far the
/// log was visible at the first time is not known any more: the receipt names the
/// batch's own start. The partition has one replica, and the store that it
/// restarts from holds the batch. (No later stored batch may claim the sequence.)
pub proof fn acknowledged_appends_survive_restarts(
    config: EngineConfig,
    m: PartitionModel,
    request: AppendRequest,
    checked: Result<u32, Seq<char>>,
    stored: AppendDurability,
    record_id: RecordId,
    topic_partition: TopicPartition,
    journal: PartitionJournalModel,
    replicas: u32,
    entries: Seq<ExtentCatalogEntry>,
    index: int,
    again: AppendRequest,
    stored_again: AppendDurability,
    other_id: RecordId,
)
    requires
        request.producer is Some,
        placed_in(config, m, request, checked) is Some,
        local_append(config, m, request, checked, stored, record_id).1 is Ok,
        journal.policy.replication_factor == 1,
        journal.policy.min_in_sync_replicas == 1,
        replicas >= 1,
        recovered_partition(config, topic_partition, journal, replicas, entries) is Ok,
        0 <= index < entries.len(),
        entries[index].reservation == placed_in(config, m, request, checked)->0,
        entries[index].producer == stored_claim(
            request.producer,
            admitted(request, checked->Ok_0).payload_digest,
        ),
        entries[index].record_id == record_id,
        entries[index].object_durable == stored.object_durable,
        latest_epoch(entries, entries[index].producer->0),
        not_repeated(entries, index + 1, entries[index]),
        again == (AppendRequest { request_id: again.request_id, ..request }),
    ensures
        ({
            let first = local_append(config, m, request, checked, stored, record_id).1->Ok_0;
            let recovered = recovered_partition(
                config,
                topic_partition,
                journal,
                replicas,
                entries,
            )->Ok_0;
            local_append(config, recovered, again, checked, stored_again, other_id) == (
                recovered,
                Ok::<_, Fault>(
                    AppendResponse {
                        request_id: again.request_id,
                        visible_through: first.first_offset,
                        ..first
                    },
                ),
            )
        }),
{
    let append = admitted(request, checked->Ok_0);
    let offer = Offer {
        claim: request.producer->0,
        record_count: append.record_count,
        payload_bytes: append.payload_bytes,
        payload_digest: append.payload_digest,
    };
    let reservation = placed_in(config, m, request, checked)->0;
    assert(reservation.record_count == append.record_count);
    assert(required_copies(request.durability, journal.policy) == 1);
    restarts_keep_producers(
        config,
        topic_partition,
        journal,
        replicas,
        entries,
        index,
        offer,
        again.request_id,
    );
    let recovered = recovered_partition(
        config,
        topic_partition,
        journal,
        replicas,
        entries,
    )->Ok_0;
    let known = recovered.checked_producer(
        again.request_id,
        again.producer,
        append.record_count,
        append.payload_digest,
    );
    assert(recovered.checked_group(
        again.request_id,
        None,
        append.record_count,
        append.payload_bytes,
        append.payload_digest,
    ) == Ok::<Option<ReserveOutcome>, Fault>(None));
    assert(known is Ok && known->Ok_0 is Some);
    assert(reserved_by(recovered, again, checked).1 == offer.reserved_in(
        recovered,
        again.request_id,
    ).1);
}

} // verus!
