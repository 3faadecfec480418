//! Decisions on one partition: reservations, outcomes, producers, atomic
//! groups, replication policy and retention.
use vstd::prelude::*;

use crate::config::PartitionReplicationPolicy;
use crate::error::{agrees, invalid_config, numbered, numbered2, EngineError, EngineResult, Fault};
use crate::ids::{BatchId, RecordId};

use crate::partition::{
    lemma_advance_settles, AtomicGroupRuntime, AtomicGroupState, BatchRuntime, BatchStatus,
    GroupModel, PartitionModel, PartitionState, ProducerCursor,
};
use crate::protocol::{
    AppendResponse, AtomicGroupIdentity, PayloadDigest, ProducerIdentity, ProducerSequence,
    DIGEST_XXH3_128,
};
use crate::sequencer::{ring_valid, Reservation, SequencerState, TopicSequencer};
use crate::text::decimal;

verus! {

broadcast use vstd::std_specs::hash::group_hash_axioms;

/// What came of asking for a place in the log.
#[derive(Debug, Clone, Copy, PartialEq, Eq, Structural)]
pub enum ReserveOutcome {
    Duplicate {
        response: AppendResponse,
        durable_replicas: u32,
        object_durable: bool,
        replication_policy: PartitionReplicationPolicy,
    },
    Reserved {
        reservation: Reservation,
        producer: Option<ProducerSequence>,
        replication_policy: PartitionReplicationPolicy,
    },
}

/// A finished local append.
#[derive(Debug, Clone, Copy, PartialEq, Eq, Structural)]
pub struct CompleteAppend {
    pub reservation: Reservation,
    pub producer: Option<ProducerIdentity>,
    pub payload_digest: PayloadDigest,
    pub durable_replicas: u32,
    pub object_durable: bool,
    pub response: AppendResponse,
}

/// How many bits of `word` are set.
pub open spec fn ones(word: u64) -> nat
    decreases word,
{
    if word == 0 {
        0
    } else {
        (word % 2) as nat + ones(word / 2)
    }
}

pub fn count_ones(word: u64) -> (count: u32)
    ensures
        count == ones(word),
        word == 0 || count > 0,
    decreases word,
{
    if word == 0 {
        return 0;
    }
    proof {
        vstd::arithmetic::power2::lemma2_to64_rest();
        lemma_ones_bounded(word / 2, 63);
    }
    let rest: u32 = count_ones(word / 2);
    if word % 2 == 1 {
        rest + 1
    } else {
        rest
    }
}

proof fn lemma_ones_bounded(word: u64, bits: nat)
    requires
        word < vstd::arithmetic::power2::pow2(bits),
    ensures
        ones(word) <= bits,
    decreases bits,
{
    if bits == 0 {
        vstd::arithmetic::power2::lemma2_to64();
    } else {
        vstd::arithmetic::power2::lemma_pow2_unfold(bits);
        lemma_ones_bounded(word / 2, (bits - 1) as nat);
    }
}

/// The receipt of a batch before its visibility is known.
pub open spec fn receipt(request_id: u128, reservation: Reservation, record_id: RecordId) -> AppendResponse {
    AppendResponse {
        request_id,
        batch_id: reservation.batch_id,
        record_id,
        first_offset: reservation.first_offset,
        last_offset: reservation.last_offset,
        visible_through: reservation.first_offset,
        placement: reservation.placement,
    }
}

pub fn append_response(request_id: u128, reservation: Reservation, record_id: RecordId) -> (response:
    AppendResponse)
    ensures
        response == receipt(request_id, reservation, record_id),
{
    AppendResponse {
        request_id,
        batch_id: reservation.batch_id,
        record_id,
        first_offset: reservation.first_offset,
        last_offset: reservation.last_offset,
        visible_through: reservation.first_offset,
        placement: reservation.placement,
    }
}

/// One number for an epoch and a sequence.
pub open spec fn sequence_slot(epoch: u32, sequence: u64) -> u128 {
    (epoch * 0x1_0000_0000_0000_0000 + sequence) as u128
}

/// Where the receipt of a producer's batch is kept.
pub open spec fn dedup_key(producer: ProducerIdentity) -> (u128, u128) {
    (producer.producer_id, sequence_slot(producer.epoch, producer.first_sequence))
}

pub fn slot(epoch: u32, sequence: u64) -> (slot: u128)
    ensures
        slot == sequence_slot(epoch, sequence),
{
    epoch as u128 * 0x1_0000_0000_0000_0000 + sequence as u128
}

/// Different sequences of a producer, or of its epochs, have different slots.
pub proof fn sequence_slots_are_distinct(
    one_epoch: u32,
    one_sequence: u64,
    other_epoch: u32,
    other_sequence: u64,
)
    requires
        sequence_slot(one_epoch, one_sequence) == sequence_slot(other_epoch, other_sequence),
    ensures
        one_epoch == other_epoch,
        one_sequence == other_sequence,
{
}

/// The claim of a producer as it is stored with its batch.
pub open spec fn stored_claim(producer: Option<ProducerIdentity>, payload_digest: PayloadDigest) -> Option<
    ProducerSequence,
> {
    match producer {
        None => None,
        Some(identity) => Some(
            ProducerSequence {
                producer_id: identity.producer_id,
                epoch: identity.epoch,
                first_sequence: identity.first_sequence,
                event_id: identity.event_id,
                digest_algorithm: DIGEST_XXH3_128,
                payload_digest,
            },
        ),
    }
}

pub fn producer_sequence(producer: Option<ProducerIdentity>, payload_digest: PayloadDigest) -> (claim:
    Option<ProducerSequence>)
    ensures
        claim == stored_claim(producer, payload_digest),
{
    match producer {
        None => None,
        Some(identity) => Some(
            ProducerSequence {
                producer_id: identity.producer_id,
                epoch: identity.epoch,
                first_sequence: identity.first_sequence,
                event_id: identity.event_id,
                digest_algorithm: DIGEST_XXH3_128,
                payload_digest,
            },
        ),
    }
}

/// A batch that waits for its append to finish.
pub open spec fn pending_batch(
    reservation: Reservation,
    producer: Option<ProducerIdentity>,
    atomic_group: Option<AtomicGroupIdentity>,
    payload_bytes: u64,
    payload_digest: PayloadDigest,
) -> BatchRuntime {
    BatchRuntime {
        reservation,
        status: BatchStatus::Pending,
        durable_replicas: 0,
        replica_acks: 0,
        producer,
        atomic_group,
        payload_digest: Some(payload_digest),
        payload_bytes,
        object_durable: false,
        record_id: RecordId(0),
    }
}

impl PartitionModel {
    /// What a producer's claim on a batch meets: nothing in its way, the
    /// receipt of an earlier append of the same batch, or a refusal.
    pub open spec fn checked_producer(
        self,
        request_id: u128,
        producer: Option<ProducerIdentity>,
        record_count: u32,
        payload_digest: PayloadDigest,
    ) -> Result<Option<(AppendResponse, u32, bool)>, Fault> {
        match producer {
            None => Ok(None),
            Some(claim) => {
                let id = claim.producer_id;
                let known = self.producers.contains_key(id);
                let cursor = self.producers[id];
                let key = dedup_key(claim);
                let record = self.dedup[key];
                let expected = if known {
                    cursor.next_sequence
                } else {
                    0
                };
                if known && claim.epoch < cursor.epoch {
                    Err(
                        Fault::StaleProducerEpoch {
                            producer_id: id,
                            current: cursor.epoch,
                            received: claim.epoch,
                        },
                    )
                } else if known && claim.epoch == cursor.epoch && self.dedup.contains_key(key) {
                    if record.digest_algorithm == DIGEST_XXH3_128 && record.payload_digest
                        == payload_digest && record.event_id == claim.event_id
                        && record.record_count == record_count {
                        Ok(
                            Some(
                                (
                                    AppendResponse { request_id, ..record.response },
                                    record.durable_replicas,
                                    record.object_durable,
                                ),
                            ),
                        )
                    } else {
                        Err(Fault::DuplicateSequenceMismatch(id))
                    }
                } else if known && claim.epoch == cursor.epoch && cursor.failed {
                    Err(Fault::ProducerRequiresNewEpoch(id))
                } else if claim.first_sequence != expected {
                    Err(
                        Fault::ProducerSequenceOutOfOrder {
                            producer_id: id,
                            expected,
                            received: claim.first_sequence,
                        },
                    )
                } else {
                    Ok(None)
                }
            },
        }
    }

    /// The producers after one of them appended a batch.
    pub open spec fn advanced_producers(
        self,
        producer: Option<ProducerIdentity>,
        record_count: u32,
    ) -> Result<Map<u128, ProducerCursor>, Fault> {
        match producer {
            None => Ok(self.producers),
            Some(claim) => {
                let id = claim.producer_id;
                if claim.first_sequence + record_count > u64::MAX {
                    Err(Fault::InvalidConfig("producer sequence overflow"@))
                } else {
                    let next_sequence = (claim.first_sequence + record_count) as u64;
                    let cursor = self.producers[id];
                    Ok(
                        self.producers.insert(
                            id,
                            if self.producers.contains_key(id) && claim.epoch <= cursor.epoch {
                                ProducerCursor { next_sequence, ..cursor }
                            } else {
                                ProducerCursor { epoch: claim.epoch, next_sequence, failed: false }
                            },
                        ),
                    )
                }
            },
        }
    }

    /// What a chunk of an atomic group meets: nothing in its way, the receipt
    /// of an earlier append of the same chunk, or a refusal.
    pub open spec fn checked_group(
        self,
        request_id: u128,
        atomic_group: Option<AtomicGroupIdentity>,
        record_count: u32,
        payload_bytes: u64,
        payload_digest: PayloadDigest,
    ) -> Result<Option<ReserveOutcome>, Fault> {
        match atomic_group {
            None => Ok(None),
            Some(identity) => {
                let id = identity.transaction_id;
                let chunk = identity.chunk_sequence;
                let known = self.groups.contains_key(id);
                let group = self.groups[id];
                let expected = if known {
                    group.next_sequence
                } else {
                    0
                };
                if self.finalized.contains_key(id) || known && group.state
                    != AtomicGroupState::Unresolved {
                    Err(Fault::AtomicGroupFinalized(id))
                } else if chunk > expected {
                    Err(
                        Fault::AtomicGroupSequenceOutOfOrder {
                            transaction_id: id,
                            expected,
                            received: chunk,
                        },
                    )
                } else if chunk == expected {
                    Ok(None)
                } else if chunk >= group.batch_ids.len() {
                    Err(
                        Fault::CorruptState(
                            "atomic group "@ + decimal(id as nat) + " is missing chunk "@ + decimal(
                                chunk as nat,
                            ) + ""@,
                        ),
                    )
                } else {
                    let batch_id = BatchId(group.batch_ids[chunk as int]);
                    let batch = self.batch(batch_id);
                    if !self.retains(batch_id) {
                        Err(
                            Fault::CorruptState(
                                "atomic group "@ + decimal(id as nat)
                                    + " references missing batch "@ + decimal(batch_id.0 as nat)
                                    + ""@,
                            ),
                        )
                    } else if batch.atomic_group != Some(identity)
                        || batch.reservation.record_count != record_count || batch.payload_bytes
                        != payload_bytes || batch.payload_digest != Some(payload_digest) {
                        Err(Fault::AtomicGroupChunkMismatch(id))
                    } else {
                        match batch.status {
                            BatchStatus::Pending => Err(
                                Fault::ReplicaInFlight(batch.reservation.batch_id),
                            ),
                            BatchStatus::Aborted => Err(
                                Fault::CorruptState(
                                    "atomic group "@ + decimal(id as nat)
                                        + " retains aborted batch "@ + decimal(
                                        batch.reservation.batch_id.0 as nat,
                                    ) + ""@,
                                ),
                            ),
                            _ => Ok(
                                Some(
                                    ReserveOutcome::Duplicate {
                                        response: receipt(request_id, batch.reservation, batch.record_id),
                                        durable_replicas: batch.durable_replicas,
                                        object_durable: batch.object_durable,
                                        replication_policy: self.policy,
                                    },
                                ),
                            ),
                        }
                    }
                }
            },
        }
    }

    /// The group that a chunk joins: the one it names, or a new one.
    pub open spec fn group_or_new(self, transaction_id: u128) -> GroupModel {
        if self.groups.contains_key(transaction_id) {
            self.groups[transaction_id]
        } else {
            GroupModel {
                state: AtomicGroupState::Unresolved,
                batch_ids: Seq::empty(),
                next_sequence: 0,
                payload_bytes: 0,
                record_count: 0,
            }
        }
    }

    /// The state after a chunk was counted into its group, and whether it could be.
    pub open spec fn registered(
        self,
        identity: AtomicGroupIdentity,
        reservation: Reservation,
        payload_bytes: u64,
    ) -> (PartitionModel, Result<(), Fault>) {
        let id = identity.transaction_id;
        let group = self.group_or_new(id);
        let bytes = group.payload_bytes + payload_bytes;
        let records = group.record_count + reservation.record_count;
        let batch_ids = group.batch_ids.push(reservation.batch_id.0);
        let (counted, result) = if group.state != AtomicGroupState::Unresolved {
            (group, Err(Fault::AtomicGroupFinalized(id)))
        } else if identity.chunk_sequence != group.next_sequence {
            (
                group,
                Err(
                    Fault::AtomicGroupSequenceOutOfOrder {
                        transaction_id: id,
                        expected: group.next_sequence,
                        received: identity.chunk_sequence,
                    },
                ),
            )
        } else if bytes > u64::MAX {
            (group, Err(Fault::InvalidConfig("atomic group byte count overflow"@)))
        } else if records > u64::MAX {
            (
                GroupModel { payload_bytes: bytes as u64, ..group },
                Err(Fault::InvalidConfig("atomic group record count overflow"@)),
            )
        } else if group.next_sequence == u64::MAX {
            (
                GroupModel {
                    payload_bytes: bytes as u64,
                    record_count: records as u64,
                    batch_ids,
                    ..group
                },
                Err(Fault::InvalidConfig("atomic group sequence exhausted"@)),
            )
        } else {
            (
                GroupModel {
                    payload_bytes: bytes as u64,
                    record_count: records as u64,
                    batch_ids,
                    next_sequence: (group.next_sequence + 1) as u64,
                    ..group
                },
                Ok(()),
            )
        };
        (PartitionModel { groups: self.groups.insert(id, counted), ..self }, result)
    }

    /// The state after a batch was counted into its group, if it has one.
    pub open spec fn registered_if_grouped(
        self,
        atomic_group: Option<AtomicGroupIdentity>,
        reservation: Reservation,
        payload_bytes: u64,
    ) -> (PartitionModel, Result<(), Fault>) {
        match atomic_group {
            None => (self, Ok(())),
            Some(identity) => self.registered(identity, reservation, payload_bytes),
        }
    }

    /// The state after a batch was added at the end of the log.
    pub open spec fn appended(self, batch: BatchRuntime) -> (PartitionModel, Result<(), Fault>) {
        if self.batches.len() >= usize::MAX {
            (
                self,
                Err(
                    Fault::CorruptState(
                        "batch "@ + decimal(batch.reservation.batch_id.0 as nat)
                            + " violates dense index ordering: "@
                            + "dense index capacity exhausted"@,
                    ),
                ),
            )
        } else {
            (PartitionModel { batches: self.batches.push(batch), ..self }.advanced(), Ok(()))
        }
    }

    /// The state after a batch took the next place in the log.
    pub open spec fn placed(self, batch: BatchRuntime, payload_digest: PayloadDigest) -> (
        PartitionModel,
        Result<ReserveOutcome, Fault>,
    ) {
        let count = batch.reservation.record_count;
        match self.advanced_producers(batch.producer, count) {
            Err(fault) => (self, Err(fault)),
            Ok(producers) => {
                let sequenced = PartitionModel {
                    sequencer: self.sequencer.after_reserve(count),
                    producers,
                    ..self
                };
                let (appended, result) = sequenced.appended(batch);
                match result {
                    Err(fault) => (appended, Err(fault)),
                    Ok(()) => {
                        let (registered, result) = appended.registered_if_grouped(
                            batch.atomic_group,
                            batch.reservation,
                            batch.payload_bytes,
                        );
                        match result {
                            Err(fault) => (registered, Err(fault)),
                            Ok(()) => (
                                registered,
                                Ok(
                                    ReserveOutcome::Reserved {
                                        reservation: batch.reservation,
                                        producer: stored_claim(batch.producer, payload_digest),
                                        replication_policy: self.policy,
                                    },
                                ),
                            ),
                        }
                    },
                }
            },
        }
    }

    /// The state after a leader asked for the next place in the log, and what it got.
    pub open spec fn reserving(
        self,
        request_id: u128,
        producer: Option<ProducerIdentity>,
        atomic_group: Option<AtomicGroupIdentity>,
        record_count: u32,
        payload_bytes: u64,
        payload_digest: PayloadDigest,
    ) -> (PartitionModel, Result<ReserveOutcome, Fault>) {
        match self.checked_producer(request_id, producer, record_count, payload_digest) {
            Err(fault) => (self, Err(fault)),
            Ok(Some((response, durable_replicas, object_durable))) => (
                self,
                Ok(
                    ReserveOutcome::Duplicate {
                        response,
                        durable_replicas,
                        object_durable,
                        replication_policy: self.policy,
                    },
                ),
            ),
            Ok(None) => match self.checked_group(
                request_id,
                atomic_group,
                record_count,
                payload_bytes,
                payload_digest,
            ) {
                Err(fault) => (self, Err(fault)),
                Ok(Some(duplicate)) => (self, Ok(duplicate)),
                Ok(None) => match self.sequencer.reserve_fault(record_count) {
                    Some(error) => (self, Err(Fault::Sequencer(error))),
                    None => self.placed(
                        pending_batch(
                            self.sequencer.reserved(record_count),
                            producer,
                            atomic_group,
                            payload_bytes,
                            payload_digest,
                        ),
                        payload_digest,
                    ),
                },
            },
        }
    }
}

/// Checks a producer's claim on a batch.
pub fn check_producer(
    state: &PartitionState,
    request_id: u128,
    producer: Option<ProducerIdentity>,
    record_count: u32,
    payload_digest: PayloadDigest,
) -> (result: EngineResult<Option<(AppendResponse, u32, bool)>>)
    ensures
        agrees(
            result,
            state@.checked_producer(request_id, producer, record_count, payload_digest),
        ),
{
    let claim = match producer {
        None => {
            return Ok(None);
        },
        Some(claim) => claim,
    };
    let expected: u64 = match state.producers.get(&claim.producer_id) {
        Some(cursor) => {
            if claim.epoch < cursor.epoch {
                return Err(
                    EngineError::StaleProducerEpoch {
                        producer_id: claim.producer_id,
                        current: cursor.epoch,
                        received: claim.epoch,
                    },
                );
            }
            if claim.epoch == cursor.epoch {
                if let Some(record) = state.dedup.get(
                    claim.producer_id,
                    slot(claim.epoch, claim.first_sequence),
                ) {
                    let digest_matches = record.digest_algorithm == DIGEST_XXH3_128
                        && record.payload_digest == payload_digest && record.event_id
                        == claim.event_id;
                    if !digest_matches || record.record_count != record_count {
                        return Err(EngineError::DuplicateSequenceMismatch(claim.producer_id));
                    }
                    let mut response = record.response;
                    response.request_id = request_id;
                    return Ok(Some((response, record.durable_replicas, record.object_durable)));
                }
                if cursor.failed {
                    return Err(EngineError::ProducerRequiresNewEpoch(claim.producer_id));
                }
            }
            cursor.next_sequence
        },
        None => 0,
    };
    if claim.first_sequence != expected {
        return Err(
            EngineError::ProducerSequenceOutOfOrder {
                producer_id: claim.producer_id,
                expected,
                received: claim.first_sequence,
            },
        );
    }
    Ok(None)
}

/// The receipt kept for a producer's batch, if its event is the one asked about.
pub fn idempotent_receipt(state: &PartitionState, producer: ProducerIdentity) -> (result:
    EngineResult<Option<AppendResponse>>)
    ensures
        agrees(
            result,
            if !state@.dedup.contains_key(dedup_key(producer)) {
                Ok(None)
            } else if state@.dedup[dedup_key(producer)].event_id != producer.event_id {
                Err(Fault::DuplicateSequenceMismatch(producer.producer_id))
            } else {
                Ok(Some(state@.dedup[dedup_key(producer)].response))
            },
        ),
{
    match state.dedup.get(producer.producer_id, slot(producer.epoch, producer.first_sequence)) {
        None => Ok(None),
        Some(record) => {
            if record.event_id != producer.event_id {
                return Err(EngineError::DuplicateSequenceMismatch(producer.producer_id));
            }
            Ok(Some(record.response))
        },
    }
}

/// Moves a producer past a batch.
pub fn advance_producer(
    state: &mut PartitionState,
    producer: Option<ProducerIdentity>,
    record_count: u32,
) -> (result: EngineResult<()>)
    ensures
        match (result, old(state)@.advanced_producers(producer, record_count)) {
            (Ok(()), Ok(producers)) => final(state)@ == (PartitionModel {
                producers,
                ..old(state)@
            }),
            (Err(error), Err(fault)) => error@ == fault && final(state)@ == old(state)@,
            _ => false,
        },
        final(state).sequencer == old(state).sequencer,
        final(state).batches == old(state).batches,
{
    let claim = match producer {
        None => {
            return Ok(());
        },
        Some(claim) => claim,
    };
    let next_sequence: u64 = match claim.first_sequence.checked_add(record_count as u64) {
        Some(next_sequence) => next_sequence,
        None => {
            return Err(invalid_config("producer sequence overflow"));
        },
    };
    let cursor = match state.producers.get(&claim.producer_id) {
        Some(cursor) => if claim.epoch > cursor.epoch {
            ProducerCursor { epoch: claim.epoch, next_sequence, failed: false }
        } else {
            ProducerCursor { epoch: cursor.epoch, next_sequence, failed: cursor.failed }
        },
        None => ProducerCursor { epoch: claim.epoch, next_sequence, failed: false },
    };
    state.producers.insert(claim.producer_id, cursor);
    Ok(())
}

/// Checks a chunk of an atomic group.
pub fn check_atomic_group(
    state: &PartitionState,
    request_id: u128,
    atomic_group: Option<AtomicGroupIdentity>,
    record_count: u32,
    payload_bytes: u64,
    payload_digest: PayloadDigest,
) -> (result: EngineResult<Option<ReserveOutcome>>)
    requires
        state.sound(),
    ensures
        agrees(
            result,
            state@.checked_group(
                request_id,
                atomic_group,
                record_count,
                payload_bytes,
                payload_digest,
            ),
        ),
{
    let identity = match atomic_group {
        None => {
            return Ok(None);
        },
        Some(identity) => identity,
    };
    let id: u128 = identity.transaction_id;
    proof {
        state.batches.lemma_wf();
    }
    if state.finalized_groups.contains_key(&id) {
        return Err(EngineError::AtomicGroupFinalized(id));
    }
    match state.atomic_groups.get(&id) {
        None => {
            if identity.chunk_sequence == 0 {
                return Ok(None);
            }
            Err(
                EngineError::AtomicGroupSequenceOutOfOrder {
                    transaction_id: id,
                    expected: 0,
                    received: identity.chunk_sequence,
                },
            )
        },
        Some(group) => {
            assert(state@.groups.contains_key(id) && state@.groups[id] == group@);
            if group.state != AtomicGroupState::Unresolved {
                return Err(EngineError::AtomicGroupFinalized(id));
            }
            if identity.chunk_sequence > group.next_sequence {
                return Err(
                    EngineError::AtomicGroupSequenceOutOfOrder {
                        transaction_id: id,
                        expected: group.next_sequence,
                        received: identity.chunk_sequence,
                    },
                );
            }
            if identity.chunk_sequence == group.next_sequence {
                return Ok(None);
            }
            if identity.chunk_sequence >= group.batch_ids.len() as u64 {
                return Err(
                    EngineError::CorruptState(
                        numbered2(
                            "atomic group ",
                            id,
                            " is missing chunk ",
                            identity.chunk_sequence as u128,
                            "",
                        ),
                    ),
                );
            }
            let batch_id: u128 = group.batch_ids[identity.chunk_sequence as usize];
            match state.batches.get(batch_id) {
                None => Err(
                    EngineError::CorruptState(
                        numbered2("atomic group ", id, " references missing batch ", batch_id, ""),
                    ),
                ),
                Some(batch) => {
                    if batch.atomic_group != Some(identity) || batch.reservation.record_count
                        != record_count || batch.payload_bytes != payload_bytes
                        || batch.payload_digest != Some(payload_digest) {
                        return Err(EngineError::AtomicGroupChunkMismatch(id));
                    }
                    match batch.status {
                        BatchStatus::Pending => Err(
                            EngineError::ReplicaInFlight(batch.reservation.batch_id),
                        ),
                        BatchStatus::Aborted => Err(
                            EngineError::CorruptState(
                                numbered2(
                                    "atomic group ",
                                    id,
                                    " retains aborted batch ",
                                    batch.reservation.batch_id.0,
                                    "",
                                ),
                            ),
                        ),
                        BatchStatus::Committed | BatchStatus::Unresolved => Ok(
                            Some(
                                ReserveOutcome::Duplicate {
                                    response: append_response(request_id, batch.reservation, batch.record_id),
                                    durable_replicas: batch.durable_replicas,
                                    object_durable: batch.object_durable,
                                    replication_policy: state.replication_policy,
                                },
                            ),
                        ),
                    }
                },
            }
        },
    }
}

/// Counts a chunk into its atomic group.
pub fn register_atomic_chunk(
    state: &mut PartitionState,
    identity: AtomicGroupIdentity,
    reservation: Reservation,
    payload_bytes: u64,
) -> (result: EngineResult<()>)
    requires
        old(state).sound(),
    ensures
        final(state).sound(),
        old(state).consistent() ==> final(state).consistent(),
        old(state).wf() ==> final(state).wf(),
        agrees(result, old(state)@.registered(identity, reservation, payload_bytes).1),
        final(state)@ == old(state)@.registered(identity, reservation, payload_bytes).0,
{
    let id: u128 = identity.transaction_id;
    let ghost before = state@;
    let removed = state.atomic_groups.remove(&id);
    let mut group = match removed {
        Some(group) => group,
        None => AtomicGroupRuntime {
            state: AtomicGroupState::Unresolved,
            batch_ids: Vec::new(),
            next_sequence: 0,
            payload_bytes: 0,
            record_count: 0,
        },
    };
    proof {
        assert(group@.batch_ids =~= before.group_or_new(id).batch_ids);
        assert(group@ == before.group_or_new(id));
    }
    let result = count_chunk(&mut group, identity, reservation, payload_bytes);
    let ghost counted = group@;
    state.atomic_groups.insert(id, group);
    proof {
        assert(state@.groups =~= before.groups.insert(id, counted));
        assert(state@ =~= before.registered(identity, reservation, payload_bytes).0);
    }
    result
}

fn count_chunk(
    group: &mut AtomicGroupRuntime,
    identity: AtomicGroupIdentity,
    reservation: Reservation,
    payload_bytes: u64,
) -> (result: EngineResult<()>)
    ensures
        forall|model: PartitionModel| #[trigger]
            model.group_or_new(identity.transaction_id) == old(group)@ ==> agrees(
                result,
                model.registered(identity, reservation, payload_bytes).1,
            ) && final(group)@ == model.registered(
                identity,
                reservation,
                payload_bytes,
            ).0.groups[identity.transaction_id],
{
    let id: u128 = identity.transaction_id;
    if group.state != AtomicGroupState::Unresolved {
        return Err(EngineError::AtomicGroupFinalized(id));
    }
    if identity.chunk_sequence != group.next_sequence {
        return Err(
            EngineError::AtomicGroupSequenceOutOfOrder {
                transaction_id: id,
                expected: group.next_sequence,
                received: identity.chunk_sequence,
            },
        );
    }
    match group.payload_bytes.checked_add(payload_bytes) {
        Some(bytes) => {
            group.payload_bytes = bytes;
        },
        None => {
            return Err(invalid_config("atomic group byte count overflow"));
        },
    }
    match group.record_count.checked_add(reservation.record_count as u64) {
        Some(records) => {
            group.record_count = records;
        },
        None => {
            return Err(invalid_config("atomic group record count overflow"));
        },
    }
    group.batch_ids.push(reservation.batch_id.0);
    match group.next_sequence.checked_add(1) {
        Some(next_sequence) => {
            group.next_sequence = next_sequence;
        },
        None => {
            return Err(invalid_config("atomic group sequence exhausted"));
        },
    }
    Ok(())
}

pub fn register_if_grouped(
    state: &mut PartitionState,
    atomic_group: Option<AtomicGroupIdentity>,
    reservation: Reservation,
    payload_bytes: u64,
) -> (result: EngineResult<()>)
    requires
        old(state).sound(),
    ensures
        final(state).sound(),
        old(state).consistent() ==> final(state).consistent(),
        old(state).wf() ==> final(state).wf(),
        agrees(
            result,
            old(state)@.registered_if_grouped(atomic_group, reservation, payload_bytes).1,
        ),
        final(state)@ == old(state)@.registered_if_grouped(
            atomic_group,
            reservation,
            payload_bytes,
        ).0,
{
    match atomic_group {
        None => Ok(()),
        Some(identity) => register_atomic_chunk(state, identity, reservation, payload_bytes),
    }
}

/// A batch that continues the chain of retained batches.
pub open spec fn continues(model: PartitionModel, batch: BatchRuntime) -> bool {
    &&& batch.reservation.spans()
    &&& batch.reservation.batch_id.0 == model.first_batch + model.batches.len()
    &&& batch.reservation.batch_id.0 < u128::MAX
    &&& if model.batches.len() > 0 {
        batch.reservation.first_offset.0 == model.batches.last().reservation.end()
    } else {
        batch.reservation.first_offset.0 >= model.log_start.0
    }
}

proof fn lemma_push_keeps_chain(model: PartitionModel, batch: BatchRuntime)
    requires
        model.chained(),
        continues(model, batch),
    ensures
        (PartitionModel { batches: model.batches.push(batch), ..model }).chained(),
{
    let after = PartitionModel { batches: model.batches.push(batch), ..model };
    assert forall|i: int, j: int| 0 <= i && j == i + 1 && j < after.batches.len() implies (
    #[trigger] after.batches[i]).reservation.end() == (
    #[trigger] after.batches[j]).reservation.first_offset.0 by {
        if j < model.batches.len() {
            assert(model.batches[i].reservation.end()
                == model.batches[j].reservation.first_offset.0);
        }
    }
}

/// Adds a batch at the end of the log.
pub fn append_batch_runtime(state: &mut PartitionState, batch: BatchRuntime) -> (result: EngineResult<
    (),
>)
    requires
        old(state).sound(),
        continues(old(state)@, batch),
    ensures
        final(state).sound(),
        agrees(result, old(state)@.appended(batch).1),
        final(state)@ == old(state)@.appended(batch).0,
        ({
            let pushed = PartitionModel {
                batches: old(state)@.batches.push(batch),
                ..old(state)@
            };
            result is Ok && pushed.aligned() ==> final(state).consistent()
        }),
        old(state)@.settled() ==> final(state)@.settled(),
{
    let ghost before = state@;
    proof {
        state.batches.lemma_wf();
        lemma_push_keeps_chain(before, batch);
    }
    match state.batches.push(batch.reservation.batch_id.0, batch) {
        Err(error) => {
            let mut text = numbered(
                "batch ",
                batch.reservation.batch_id.0,
                " violates dense index ordering: ",
            );
            text.append(error.message().as_str());
            Err(EngineError::CorruptState(text))
        },
        Ok(()) => {
            proof {
                assert(state@ =~= (PartitionModel {
                    batches: before.batches.push(batch),
                    ..before
                }));
            }
            let ghost pushed = state@;
            state.advance_cached_watermarks();
            proof {
                if before.settled() {
                    lemma_advance_settles(before, pushed);
                }
            }
            Ok(())
        },
    }
}

pub fn new_batch(
    reservation: Reservation,
    producer: Option<ProducerIdentity>,
    atomic_group: Option<AtomicGroupIdentity>,
    payload_bytes: u64,
    payload_digest: PayloadDigest,
) -> (batch: BatchRuntime)
    ensures
        batch == pending_batch(
            reservation,
            producer,
            atomic_group,
            payload_bytes,
            payload_digest,
        ),
{
    BatchRuntime {
        reservation,
        status: BatchStatus::Pending,
        durable_replicas: 0,
        replica_acks: 0,
        producer,
        atomic_group,
        payload_digest: Some(payload_digest),
        payload_bytes,
        object_durable: false,
        record_id: RecordId(0),
    }
}

/// Adds a batch whose place the sequencer has just given out; `previous` is
/// the sequencer's state before that.
pub fn place(
    state: &mut PartitionState,
    previous: SequencerState,
    batch: BatchRuntime,
    payload_digest: PayloadDigest,
) -> (result: EngineResult<ReserveOutcome>)
    requires
        ({
            let prior = PartitionModel { sequencer: previous@, ..old(state)@ };
            let count = batch.reservation.record_count;
            &&& count > 0
            &&& prior.chained()
            &&& prior.aligned()
            &&& prior.batches.len() < usize::MAX
            &&& ring_valid(previous@.virtual_lanes)
            &&& previous@.reserve_fault(count) is None
            &&& old(state)@.sequencer == previous@.after_reserve(count)
            &&& batch.reservation == previous@.reserved(count)
        }),
        old(state).sound(),
    ensures
        ({
            let prior = PartitionModel { sequencer: previous@, ..old(state)@ };
            &&& agrees(result, prior.placed(batch, payload_digest).1)
            &&& final(state)@ == prior.placed(batch, payload_digest).0
        }),
        final(state).consistent(),
        old(state)@.settled() ==> final(state)@.settled(),
{
    let ghost prior = PartitionModel { sequencer: previous@, ..state@ };
    let count: u32 = batch.reservation.record_count;
    match advance_producer(state, batch.producer, count) {
        Err(error) => {
            match TopicSequencer::restore(previous) {
                Ok(sequencer) => {
                    state.sequencer = sequencer;
                },
                Err(_) => {},
            }
            proof {
                assert(state@ =~= prior);
            }
            return Err(error);
        },
        Ok(()) => {},
    }
    let ghost sequenced = state@;
    match append_batch_runtime(state, batch) {
        Err(error) => {
            return Err(error);
        },
        Ok(()) => {},
    }
    match register_if_grouped(state, batch.atomic_group, batch.reservation, batch.payload_bytes) {
        Err(error) => Err(error),
        Ok(()) => Ok(
            ReserveOutcome::Reserved {
                reservation: batch.reservation,
                producer: producer_sequence(batch.producer, payload_digest),
                replication_policy: state.replication_policy,
            },
        ),
    }
}

/// Gives the next place in the log to a leader's batch.
///
/// A retry of a finished batch gets the receipt of the first append instead.
pub fn reserve(
    state: &mut PartitionState,
    request_id: u128,
    producer: Option<ProducerIdentity>,
    atomic_group: Option<AtomicGroupIdentity>,
    record_count: u32,
    payload_bytes: u64,
    payload_digest: PayloadDigest,
) -> (result: EngineResult<ReserveOutcome>)
    requires
        old(state).consistent(),
        old(state)@.batches.len() < usize::MAX,
        record_count > 0,
    ensures
        final(state).consistent(),
        old(state).wf() ==> final(state).wf(),
        agrees(
            result,
            old(state)@.reserving(
                request_id,
                producer,
                atomic_group,
                record_count,
                payload_bytes,
                payload_digest,
            ).1,
        ),
        final(state)@ == old(state)@.reserving(
            request_id,
            producer,
            atomic_group,
            record_count,
            payload_bytes,
            payload_digest,
        ).0,
{
    match check_producer(state, request_id, producer, record_count, payload_digest) {
        Err(error) => {
            return Err(error);
        },
        Ok(Some((response, durable_replicas, object_durable))) => {
            return Ok(
                ReserveOutcome::Duplicate {
                    response,
                    durable_replicas,
                    object_durable,
                    replication_policy: state.replication_policy,
                },
            );
        },
        Ok(None) => {},
    }
    match check_atomic_group(
        state,
        request_id,
        atomic_group,
        record_count,
        payload_bytes,
        payload_digest,
    ) {
        Err(error) => {
            return Err(error);
        },
        Ok(Some(duplicate)) => {
            return Ok(duplicate);
        },
        Ok(None) => {},
    }
    let previous = state.sequencer.state();
    let ghost before = state@;
    match state.sequencer.reserve(record_count) {
        Err(error) => {
            proof {
                assert(state@ =~= before);
            }
            Err(EngineError::Sequencer(error))
        },
        Ok(reservation) => {
            let batch = new_batch(
                reservation,
                producer,
                atomic_group,
                payload_bytes,
                payload_digest,
            );
            place(state, previous, batch, payload_digest)
        },
    }
}

} // verus!
