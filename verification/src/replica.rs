//! Reservations that a follower takes over from its leader.
use vstd::prelude::*;

use crate::coordinator::{
    append_response, check_atomic_group, new_batch, pending_batch, place, producer_sequence,
    receipt, register_if_grouped, stored_claim, ReserveOutcome,
};
use crate::error::{agrees, numbered, EngineError, EngineResult, Fault};
use crate::partition::{
    BatchRuntime, BatchStatus, PartitionModel, PartitionState, ProducerCursor,
};
use crate::protocol::{AtomicGroupIdentity, PayloadDigest, ProducerIdentity};
use crate::sequencer::{Reservation, TopicSequencer};
use crate::text::{append_decimal, decimal};

verus! {

broadcast use vstd::std_specs::hash::group_hash_axioms;

/// A batch is the one that a leader offers.
pub open spec fn same_batch(
    batch: BatchRuntime,
    reservation: Reservation,
    producer: Option<ProducerIdentity>,
    atomic_group: Option<AtomicGroupIdentity>,
    payload_bytes: u64,
    payload_digest: PayloadDigest,
) -> bool {
    &&& batch.reservation == reservation
    &&& batch.producer == producer
    &&& batch.atomic_group == atomic_group
    &&& batch.payload_bytes == payload_bytes
    &&& batch.payload_digest is None || batch.payload_digest == Some(payload_digest)
}

impl PartitionModel {
    /// The producers after one of them got another chance in its epoch.
    pub open spec fn forgiven_producers(self, producer: Option<ProducerIdentity>) -> Map<
        u128,
        ProducerCursor,
    > {
        match producer {
            Some(claim) if self.producers.contains_key(claim.producer_id)
                && self.producers[claim.producer_id].epoch == claim.epoch => self.producers.insert(
                claim.producer_id,
                ProducerCursor { failed: false, ..self.producers[claim.producer_id] },
            ),
            _ => self.producers,
        }
    }

    /// The state after an aborted batch was offered again.
    pub open spec fn revived(
        self,
        reservation: Reservation,
        producer: Option<ProducerIdentity>,
        atomic_group: Option<AtomicGroupIdentity>,
        payload_bytes: u64,
        payload_digest: PayloadDigest,
    ) -> (PartitionModel, Result<ReserveOutcome, Fault>) {
        let id = reservation.batch_id;
        let pending = BatchRuntime {
            status: BatchStatus::Pending,
            producer,
            atomic_group,
            payload_digest: Some(payload_digest),
            payload_bytes,
            ..self.batch(id)
        };
        let reopened = PartitionModel {
            producers: self.forgiven_producers(producer),
            ..self.with_batch(id, pending)
        };
        let (registered, result) = reopened.registered_if_grouped(
            atomic_group,
            reservation,
            payload_bytes,
        );
        match result {
            Err(fault) => (registered, Err(fault)),
            Ok(()) => (
                registered.remeasured(),
                Ok(
                    ReserveOutcome::Reserved {
                        reservation,
                        producer: stored_claim(producer, payload_digest),
                        replication_policy: self.policy,
                    },
                ),
            ),
        }
    }

    /// The state after a leader's reservation was offered to a follower, and what came of it.
    pub open spec fn replicating(
        self,
        reservation: Reservation,
        producer: Option<ProducerIdentity>,
        atomic_group: Option<AtomicGroupIdentity>,
        payload_bytes: u64,
        payload_digest: PayloadDigest,
    ) -> (PartitionModel, Result<ReserveOutcome, Fault>) {
        let id = reservation.batch_id;
        let batch = self.batch(id);
        if self.retains(id) {
            if !same_batch(
                batch,
                reservation,
                producer,
                atomic_group,
                payload_bytes,
                payload_digest,
            ) {
                (
                    self,
                    Err(
                        Fault::CorruptState(
                            "replica reservation conflicts with batch "@ + decimal(id.0 as nat)
                                + ""@,
                        ),
                    ),
                )
            } else {
                match batch.status {
                    BatchStatus::Pending => (self, Err(Fault::ReplicaInFlight(id))),
                    BatchStatus::Aborted => self.revived(
                        reservation,
                        producer,
                        atomic_group,
                        payload_bytes,
                        payload_digest,
                    ),
                    _ => (
                        self,
                        Ok(
                            ReserveOutcome::Duplicate {
                                response: receipt(0, reservation, batch.record_id),
                                durable_replicas: batch.durable_replicas,
                                object_durable: batch.object_durable,
                                replication_policy: self.policy,
                            },
                        ),
                    ),
                }
            }
        } else {
            match self.checked_group(
                0,
                atomic_group,
                reservation.record_count,
                payload_bytes,
                payload_digest,
            ) {
                Err(fault) => (self, Err(fault)),
                Ok(Some(_)) => (
                    self,
                    Err(
                        Fault::Fenced(
                            "replica reservation "@ + decimal(id.0 as nat)
                                + " reuses atomic group "@ + decimal(
                                atomic_group->0.transaction_id as nat,
                            ) + " chunk "@ + decimal(atomic_group->0.chunk_sequence as nat)
                                + " with a different batch"@,
                        ),
                    ),
                ),
                Ok(None) => match self.sequencer.reserve_fault(reservation.record_count) {
                    Some(error) => (self, Err(Fault::Sequencer(error))),
                    None => {
                        if self.sequencer.reserved(reservation.record_count) != reservation {
                            (
                                self,
                                Err(
                                    Fault::Fenced(
                                        "replica reservation "@ + decimal(id.0 as nat)
                                            + " is not the exact next fenced placement"@,
                                    ),
                                ),
                            )
                        } else {
                            self.placed(
                                pending_batch(
                                    reservation,
                                    producer,
                                    atomic_group,
                                    payload_bytes,
                                    payload_digest,
                                ),
                                payload_digest,
                            )
                        }
                    },
                },
            }
        }
    }
}

/// Takes over a leader's reservation, which must be the exact next one, a batch
/// that is held already, or one that was aborted and comes again.
pub fn reserve_replica(
    state: &mut PartitionState,
    reservation: Reservation,
    producer: Option<ProducerIdentity>,
    atomic_group: Option<AtomicGroupIdentity>,
    payload_bytes: u64,
    payload_digest: PayloadDigest,
) -> (result: EngineResult<ReserveOutcome>)
    requires
        old(state).consistent(),
        old(state)@.batches.len() < usize::MAX,
        reservation.record_count > 0,
    ensures
        agrees(
            result,
            old(state)@.replicating(
                reservation,
                producer,
                atomic_group,
                payload_bytes,
                payload_digest,
            ).1,
        ),
        final(state)@ == old(state)@.replicating(
            reservation,
            producer,
            atomic_group,
            payload_bytes,
            payload_digest,
        ).0,
        final(state).consistent(),
        old(state).wf() && result is Ok ==> final(state).wf(),
{
    let id = reservation.batch_id;
    let ghost before = state@;
    if let Some(existing) = state.batch_of(id) {
        let digest_matches = match existing.payload_digest {
            None => true,
            Some(digest) => digest == payload_digest,
        };
        if existing.reservation != reservation || existing.producer != producer
            || existing.atomic_group != atomic_group || existing.payload_bytes != payload_bytes
            || !digest_matches {
            return Err(
                EngineError::CorruptState(
                    numbered("replica reservation conflicts with batch ", id.0, ""),
                ),
            );
        }
        match existing.status {
            BatchStatus::Committed | BatchStatus::Unresolved => {
                return Ok(
                    ReserveOutcome::Duplicate {
                        response: append_response(0, reservation, existing.record_id),
                        durable_replicas: existing.durable_replicas,
                        object_durable: existing.object_durable,
                        replication_policy: state.replication_policy,
                    },
                );
            },
            BatchStatus::Pending => {
                return Err(EngineError::ReplicaInFlight(id));
            },
            BatchStatus::Aborted => {},
        }
        let mut pending = existing;
        pending.status = BatchStatus::Pending;
        pending.producer = producer;
        pending.atomic_group = atomic_group;
        pending.payload_digest = Some(payload_digest);
        pending.payload_bytes = payload_bytes;
        state.replace_batch(id, pending);
        forgive_producer(state, producer);
        match register_if_grouped(state, atomic_group, reservation, payload_bytes) {
            Err(error) => {
                return Err(error);
            },
            Ok(()) => {},
        }
        state.reset_cached_watermarks_after_truncate();
        return Ok(
            ReserveOutcome::Reserved {
                reservation,
                producer: producer_sequence(producer, payload_digest),
                replication_policy: state.replication_policy,
            },
        );
    }
    match check_atomic_group(
        state,
        0,
        atomic_group,
        reservation.record_count,
        payload_bytes,
        payload_digest,
    ) {
        Err(error) => {
            return Err(error);
        },
        Ok(Some(_)) => {
            if let Some(group) = atomic_group {
                let mut text = numbered("replica reservation ", id.0, " reuses atomic group ");
                append_decimal(&mut text, group.transaction_id);
                text.append(" chunk ");
                append_decimal(&mut text, group.chunk_sequence as u128);
                text.append(" with a different batch");
                return Err(EngineError::Fenced(text));
            }
        },
        Ok(None) => {},
    }
    let previous = state.sequencer.state();
    match state.sequencer.reserve(reservation.record_count) {
        Err(error) => {
            proof {
                assert(state@ =~= before);
            }
            Err(EngineError::Sequencer(error))
        },
        Ok(expected) => {
            if expected != reservation {
                if let Ok(sequencer) = TopicSequencer::restore(previous) {
                    state.sequencer = sequencer;
                }
                proof {
                    assert(state@ =~= before);
                }
                return Err(
                    EngineError::Fenced(
                        numbered(
                            "replica reservation ",
                            id.0,
                            " is not the exact next fenced placement",
                        ),
                    ),
                );
            }
            let batch = new_batch(
                reservation,
                producer,
                atomic_group,
                payload_bytes,
                payload_digest,
            );
            proof {
                assert((PartitionModel { sequencer: previous@, ..state@ }) =~= before);
            }
            place(state, previous, batch, payload_digest)
        },
    }
}

fn forgive_producer(state: &mut PartitionState, producer: Option<ProducerIdentity>)
    requires
        old(state).sound(),
    ensures
        final(state)@ == (PartitionModel {
            producers: old(state)@.forgiven_producers(producer),
            ..old(state)@
        }),
        final(state).sound(),
{
    if let Some(claim) = producer {
        let known = match state.producers.get(&claim.producer_id) {
            Some(cursor) => Some(*cursor),
            None => None,
        };
        if let Some(cursor) = known {
            if cursor.epoch == claim.epoch {
                state.producers.insert(
                    claim.producer_id,
                    ProducerCursor {
                        epoch: cursor.epoch,
                        next_sequence: cursor.next_sequence,
                        failed: false,
                    },
                );
            }
        }
    }
    proof {
        assert(state@ =~= (PartitionModel {
            producers: old(state)@.forgiven_producers(producer),
            ..old(state)@
        }));
    }
}

impl PartitionModel {
    /// A follower that is offered the leader's own next reservation ends with
    /// the same sequencer as the leader, and with the batch in the same place.
    pub proof fn follower_tracks_leader(
        self,
        leader: PartitionModel,
        record_count: u32,
        payload_bytes: u64,
        payload_digest: PayloadDigest,
    )
        requires
            record_count > 0,
            self.wf(),
            leader.wf(),
            self.sequencer == leader.sequencer,
            self.batches.len() < usize::MAX,
            leader.batches.len() < usize::MAX,
            leader.sequencer.reserve_fault(record_count) is None,
        ensures
            ({
                let (led, taken) = leader.reserving(
                    0,
                    None,
                    None,
                    record_count,
                    payload_bytes,
                    payload_digest,
                );
                let reservation = leader.sequencer.reserved(record_count);
                let (followed, followed_result) = self.replicating(
                    reservation,
                    None,
                    None,
                    payload_bytes,
                    payload_digest,
                );
                &&& taken is Ok
                &&& followed_result is Ok
                &&& followed.sequencer == led.sequencer
                &&& followed.batches.last() == led.batches.last()
            }),
    {
    }
}

} // verus!
