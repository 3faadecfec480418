//! Outcomes of appended batches: completion, failure and replica progress.
use vstd::prelude::*;

use crate::coordinator::{count_ones, dedup_key, ones, slot, CompleteAppend};
use crate::error::{agrees, corrupt_state, numbered, numbered2, EngineError, EngineResult, Fault};
use crate::ids::BatchId;
use crate::partition::{
    eases, lemma_advance_settles, AtomicGroupRuntime, BatchRuntime, BatchStatus, DedupRecord,
    GroupModel, Mark, PartitionModel, PartitionState, ProducerCursor,
};
use crate::protocol::{AppendResponse, ProducerIdentity, DIGEST_XXH3_128};
use crate::sequencer::Reservation;
use crate::text::decimal;

verus! {

broadcast use vstd::std_specs::hash::group_hash_axioms;

pub open spec fn larger(a: u32, b: u32) -> u32 {
    if a >= b {
        a
    } else {
        b
    }
}

fn max_u32(a: u32, b: u32) -> (max: u32)
    ensures
        max == larger(a, b),
{
    if a >= b {
        a
    } else {
        b
    }
}

/// Whether a batch has been written.
pub open spec fn written(status: BatchStatus) -> bool {
    status == BatchStatus::Committed || status == BatchStatus::Unresolved
}

/// A batch after it left the pending state.
pub open spec fn marked_batch(batch: BatchRuntime, status: BatchStatus, durable_replicas: u32) -> BatchRuntime {
    if written(status) {
        let acks = batch.replica_acks | 1;
        BatchRuntime {
            status,
            replica_acks: acks,
            durable_replicas: larger(
                larger(batch.durable_replicas, durable_replicas),
                ones(acks) as u32,
            ),
            ..batch
        }
    } else {
        BatchRuntime { status, durable_replicas: 0, replica_acks: 0, ..batch }
    }
}

impl PartitionModel {
    /// The state after a pending batch got its status, and its durable replica count.
    pub open spec fn marked(
        self,
        reservation: Reservation,
        status: BatchStatus,
        durable_replicas: u32,
    ) -> (PartitionModel, Result<u32, Fault>) {
        let id = reservation.batch_id;
        let batch = self.batch(id);
        if !self.retains(id) {
            (
                self,
                Err(
                    Fault::CorruptState(
                        "batch "@ + decimal(id.0 as nat) + " is missing from runtime state"@,
                    ),
                ),
            )
        } else if batch.reservation != reservation || batch.status != BatchStatus::Pending {
            (
                self,
                Err(
                    Fault::CorruptState(
                        "invalid lifecycle transition for batch "@ + decimal(id.0 as nat) + ""@,
                    ),
                ),
            )
        } else {
            let marked = marked_batch(batch, status, durable_replicas);
            (self.with_batch(id, marked).advanced(), Ok(marked.durable_replicas))
        }
    }

    /// The status that a finished append gives its batch.
    pub open spec fn completed_status(self, batch_id: BatchId) -> BatchStatus {
        if self.retains(batch_id) && self.batch(batch_id).atomic_group is Some {
            BatchStatus::Unresolved
        } else {
            BatchStatus::Committed
        }
    }

    /// The state after an append finished, and its receipt.
    pub open spec fn completing(self, completion: CompleteAppend) -> (
        PartitionModel,
        Result<AppendResponse, Fault>,
    ) {
        let id = completion.reservation.batch_id;
        let (marked, result) = self.marked(
            completion.reservation,
            self.completed_status(id),
            completion.durable_replicas,
        );
        match result {
            Err(fault) => (marked, Err(fault)),
            Ok(durable_replicas) => {
                let stored = marked.with_batch(
                    id,
                    BatchRuntime {
                        object_durable: completion.object_durable,
                        record_id: completion.response.record_id,
                        ..marked.batch(id)
                    },
                );
                let response = AppendResponse {
                    visible_through: marked.stable.offset,
                    ..completion.response
                };
                let dedup = match completion.producer {
                    None => stored.dedup,
                    Some(producer) => stored.dedup.insert(
                        dedup_key(producer),
                        DedupRecord {
                            digest_algorithm: DIGEST_XXH3_128,
                            payload_digest: completion.payload_digest,
                            event_id: producer.event_id,
                            record_count: completion.reservation.record_count,
                            durable_replicas,
                            object_durable: completion.object_durable,
                            response,
                        },
                    ),
                };
                (PartitionModel { dedup, ..stored }, Ok(response))
            },
        }
    }

    /// The producers after an append of one of them failed.
    pub open spec fn failed_producers(self, producer: Option<ProducerIdentity>) -> Map<
        u128,
        ProducerCursor,
    > {
        match producer {
            Some(claim) if self.producers.contains_key(claim.producer_id) => self.producers.insert(
                claim.producer_id,
                ProducerCursor { failed: true, ..self.producers[claim.producer_id] },
            ),
            _ => self.producers,
        }
    }

    /// The group after its last chunk was taken back, and whether its totals allowed it.
    pub open spec fn shrunk_group(
        group: GroupModel,
        chunk: u64,
        payload_bytes: u64,
        record_count: u32,
    ) -> (GroupModel, Result<(), Fault>) {
        let popped = GroupModel {
            batch_ids: group.batch_ids.drop_last(),
            next_sequence: chunk,
            ..group
        };
        if group.payload_bytes < payload_bytes {
            (popped, Err(Fault::CorruptState("atomic group byte count underflow"@)))
        } else {
            let paid = GroupModel {
                payload_bytes: (group.payload_bytes - payload_bytes) as u64,
                ..popped
            };
            if group.record_count < record_count {
                (paid, Err(Fault::CorruptState("atomic group record count underflow"@)))
            } else {
                (
                    GroupModel { record_count: (group.record_count - record_count) as u64, ..paid },
                    Ok(()),
                )
            }
        }
    }

    /// The state after a batch was taken out of its atomic group.
    pub open spec fn rolled_back(self, reservation: Reservation) -> (
        PartitionModel,
        Result<(), Fault>,
    ) {
        let batch = self.batch(reservation.batch_id);
        if !self.retains(reservation.batch_id) || batch.atomic_group is None {
            (self, Ok(()))
        } else {
            let identity = batch.atomic_group->0;
            let id = identity.transaction_id;
            let chunk = identity.chunk_sequence;
            let group = self.groups[id];
            if !self.groups.contains_key(id) {
                (self, Err(Fault::UnknownAtomicGroup(id)))
            } else if group.batch_ids.len() == 0 || group.batch_ids.last()
                != reservation.batch_id.0 || group.next_sequence != (if chunk == u64::MAX {
                chunk as int
            } else {
                chunk + 1
            }) {
                (
                    self,
                    Err(
                        Fault::CorruptState(
                            "cannot roll back non-tail chunk "@ + decimal(chunk as nat)
                                + " from atomic group "@ + decimal(id as nat) + ""@,
                        ),
                    ),
                )
            } else {
                let (shrunk, result) = Self::shrunk_group(
                    group,
                    chunk,
                    batch.payload_bytes,
                    reservation.record_count,
                );
                let groups = if result is Ok && shrunk.batch_ids.len() == 0 {
                    self.groups.remove(id)
                } else {
                    self.groups.insert(id, shrunk)
                };
                (PartitionModel { groups, ..self }, result)
            }
        }
    }

    /// The state after an append failed.
    pub open spec fn failing(
        self,
        reservation: Reservation,
        producer: Option<ProducerIdentity>,
        definitely_not_written: bool,
    ) -> (PartitionModel, Result<(), Fault>) {
        let blamed = PartitionModel { producers: self.failed_producers(producer), ..self };
        if !definitely_not_written {
            (blamed, Ok(()))
        } else {
            let (marked, result) = blamed.marked(reservation, BatchStatus::Aborted, 0);
            match result {
                Err(fault) => (marked, Err(fault)),
                Ok(_) => marked.rolled_back(reservation),
            }
        }
    }

    /// The receipts after more replicas hold a batch.
    pub open spec fn credited_receipts(self, batch_id: BatchId, durable_replicas: u32) -> Map<
        (u128, u128),
        DedupRecord,
    > {
        self.dedup.map_values(
            |record: DedupRecord|
                if record.response.batch_id == batch_id {
                    DedupRecord {
                        durable_replicas: larger(record.durable_replicas, durable_replicas),
                        ..record
                    }
                } else {
                    record
                },
        )
    }

    /// The state after more replicas hold a batch.
    pub open spec fn credited(self, reservation: Reservation, durable_replicas: u32) -> (
        PartitionModel,
        Result<(), Fault>,
    ) {
        let id = reservation.batch_id;
        let batch = self.batch(id);
        if !self.retains(id) {
            (
                self,
                Err(
                    Fault::CorruptState(
                        "replica progress references missing batch "@ + decimal(id.0 as nat) + ""@,
                    ),
                ),
            )
        } else if batch.reservation != reservation || !written(batch.status) {
            (
                self,
                Err(
                    Fault::CorruptState(
                        "invalid replica count for batch "@ + decimal(id.0 as nat) + ""@,
                    ),
                ),
            )
        } else {
            let advanced = self.with_batch(
                id,
                BatchRuntime {
                    durable_replicas: larger(batch.durable_replicas, durable_replicas),
                    ..batch
                },
            ).advanced();
            (
                PartitionModel {
                    dedup: advanced.credited_receipts(id, durable_replicas),
                    ..advanced
                },
                Ok(()),
            )
        }
    }
}

/// Changing a batch so that it is no harder to pass settles again after moving the watermarks on.
proof fn lemma_batch_eased(model: PartitionModel, id: BatchId, batch: BatchRuntime)
    requires
        model.chained(),
        model.settled(),
        model.retains(id),
        batch.reservation == model.batch(id).reservation,
        forall|mark: Mark| mark.passes(model.batch(id)) ==> #[trigger] mark.passes(batch),
    ensures
        model.with_batch(id, batch).advanced().settled(),
{
    let after = model.with_batch(id, batch);
    assert forall|mark: Mark| #[trigger] eases(model.batches, after.batches, mark) by {
        assert forall|i: int| 0 <= i < model.batches.len() implies {
            &&& (#[trigger] after.batches[i]).reservation == model.batches[i].reservation
            &&& mark.passes(model.batches[i]) ==> mark.passes(after.batches[i])
        } by {
            if i == id.0 - model.first_batch {
                assert(mark.passes(model.batch(id)) ==> mark.passes(batch));
            }
        }
    }
    lemma_advance_settles(model, after);
}

/// Takes a pending batch to its next status.
pub fn mark_batch(
    state: &mut PartitionState,
    reservation: Reservation,
    status: BatchStatus,
    durable_replicas: u32,
) -> (result: EngineResult<u32>)
    requires
        old(state).sound(),
        status != BatchStatus::Pending,
    ensures
        final(state).sound(),
        old(state).consistent() ==> final(state).consistent(),
        old(state).wf() ==> final(state).wf(),
        agrees(result, old(state)@.marked(reservation, status, durable_replicas).1),
        final(state)@ == old(state)@.marked(reservation, status, durable_replicas).0,
{
    let id = reservation.batch_id;
    let ghost before = state@;
    let mut batch = match state.batch_of(id) {
        None => {
            return Err(
                EngineError::CorruptState(
                    numbered("batch ", id.0, " is missing from runtime state"),
                ),
            );
        },
        Some(batch) => batch,
    };
    if batch.reservation != reservation || batch.status != BatchStatus::Pending {
        return Err(
            EngineError::CorruptState(
                numbered("invalid lifecycle transition for batch ", id.0, ""),
            ),
        );
    }
    batch.status = status;
    match status {
        BatchStatus::Committed | BatchStatus::Unresolved => {
            batch.replica_acks = batch.replica_acks | 1;
            batch.durable_replicas = max_u32(
                max_u32(batch.durable_replicas, durable_replicas),
                count_ones(batch.replica_acks),
            );
        },
        _ => {
            batch.durable_replicas = 0;
            batch.replica_acks = 0;
        },
    }
    assert(batch == marked_batch(before.batch(id), status, durable_replicas));
    state.replace_batch(id, batch);
    state.advance_cached_watermarks();
    proof {
        if before.settled() {
            lemma_batch_eased(before, id, batch);
        }
    }
    Ok(batch.durable_replicas)
}

/// Records a finished append and gives its receipt.
pub fn complete(state: &mut PartitionState, completion: CompleteAppend) -> (result: EngineResult<
    AppendResponse,
>)
    requires
        old(state).sound(),
    ensures
        final(state).sound(),
        old(state).consistent() ==> final(state).consistent(),
        old(state).wf() ==> final(state).wf(),
        agrees(result, old(state)@.completing(completion).1),
        final(state)@ == old(state)@.completing(completion).0,
{
    let id = completion.reservation.batch_id;
    let status = match state.batch_of(id) {
        Some(batch) => match batch.atomic_group {
            Some(_) => BatchStatus::Unresolved,
            None => BatchStatus::Committed,
        },
        None => BatchStatus::Committed,
    };
    let durable_replicas: u32 = match mark_batch(
        state,
        completion.reservation,
        status,
        completion.durable_replicas,
    ) {
        Err(error) => {
            return Err(error);
        },
        Ok(durable_replicas) => durable_replicas,
    };
    let ghost marked = state@;
    if let Some(held) = state.batch_of(id) {
        let mut batch = held;
        batch.object_durable = completion.object_durable;
        batch.record_id = completion.response.record_id;
        state.replace_batch(id, batch);
        proof {
            lemma_only_storage_changed(marked, id, batch);
        }
    }
    let mut response = completion.response;
    response.visible_through = state.stable.offset;
    if let Some(producer) = completion.producer {
        let record = DedupRecord {
            digest_algorithm: DIGEST_XXH3_128,
            payload_digest: completion.payload_digest,
            event_id: producer.event_id,
            record_count: completion.reservation.record_count,
            durable_replicas,
            object_durable: completion.object_durable,
            response,
        };
        state.dedup.insert(
            producer.producer_id,
            slot(producer.epoch, producer.first_sequence),
            record,
        );
    }
    proof {
        assert(state@ =~= old(state)@.completing(completion).0);
    }
    Ok(response)
}

/// Where a batch is stored and its identity do not matter to the watermarks.
proof fn lemma_only_storage_changed(model: PartitionModel, id: BatchId, batch: BatchRuntime)
    requires
        model.chained(),
        model.retains(id),
        batch == (BatchRuntime {
            object_durable: batch.object_durable,
            record_id: batch.record_id,
            ..model.batch(id)
        }),
    ensures
        model.settled() ==> model.with_batch(id, batch).settled(),
{
    let after = model.with_batch(id, batch);
    let start = crate::partition::Cursor { batch: model.first_batch, offset: model.log_start };
    assert forall|mark: Mark| #[trigger] after.measured(mark) == model.measured(mark) by {
        lemma_scan_same(model, after, start, mark);
    }
}

proof fn lemma_scan_same(
    one: PartitionModel,
    other: PartitionModel,
    cursor: crate::partition::Cursor,
    mark: Mark,
)
    requires
        one.batches.len() == other.batches.len(),
        one.first_batch == other.first_batch,
        forall|i: int|
            0 <= i < one.batches.len() ==> (#[trigger] one.batches[i]).reservation
                == other.batches[i].reservation && (mark.passes(one.batches[i]) <==> mark.passes(
                other.batches[i],
            )),
    ensures
        crate::partition::scan(one.batches, one.first_batch, cursor, mark)
            == crate::partition::scan(other.batches, other.first_batch, cursor, mark),
    decreases one.first_batch + one.batches.len() - cursor.batch,
{
    if one.first_batch <= cursor.batch < one.first_batch + one.batches.len() && cursor.batch
        < u128::MAX {
        let batch = one.batches[cursor.batch - one.first_batch];
        if batch.reservation.first_offset == cursor.offset && mark.passes(batch) {
            lemma_scan_same(
                one,
                other,
                crate::partition::Cursor {
                    batch: (cursor.batch + 1) as u128,
                    offset: crate::ids::LogicalOffset(batch.reservation.end() as u64),
                },
                mark,
            );
        }
    }
}

/// Records a failed append; one that was certainly not written is aborted.
pub fn fail(
    state: &mut PartitionState,
    reservation: Reservation,
    producer: Option<ProducerIdentity>,
    definitely_not_written: bool,
) -> (result: EngineResult<()>)
    requires
        old(state).sound(),
    ensures
        final(state).sound(),
        old(state).consistent() ==> final(state).consistent(),
        old(state).wf() ==> final(state).wf(),
        agrees(result, old(state)@.failing(reservation, producer, definitely_not_written).1),
        final(state)@ == old(state)@.failing(reservation, producer, definitely_not_written).0,
{
    if let Some(claim) = producer {
        let known = match state.producers.get(&claim.producer_id) {
            Some(cursor) => Some(*cursor),
            None => None,
        };
        if let Some(cursor) = known {
            state.producers.insert(
                claim.producer_id,
                ProducerCursor {
                    epoch: cursor.epoch,
                    next_sequence: cursor.next_sequence,
                    failed: true,
                },
            );
        }
    }
    proof {
        assert(state@ =~= (PartitionModel {
            producers: old(state)@.failed_producers(producer),
            ..old(state)@
        }));
    }
    if definitely_not_written {
        match mark_batch(state, reservation, BatchStatus::Aborted, 0) {
            Err(error) => {
                return Err(error);
            },
            Ok(_) => {},
        }
        return rollback_atomic_chunk(state, reservation);
    }
    Ok(())
}

/// Takes an aborted batch out of its atomic group.
pub fn rollback_atomic_chunk(state: &mut PartitionState, reservation: Reservation) -> (result:
    EngineResult<()>)
    requires
        old(state).sound(),
    ensures
        final(state).sound(),
        old(state).consistent() ==> final(state).consistent(),
        old(state).wf() ==> final(state).wf(),
        agrees(result, old(state)@.rolled_back(reservation).1),
        final(state)@ == old(state)@.rolled_back(reservation).0,
{
    let ghost before = state@;
    let batch = match state.batch_of(reservation.batch_id) {
        None => {
            return Ok(());
        },
        Some(batch) => batch,
    };
    let identity = match batch.atomic_group {
        None => {
            return Ok(());
        },
        Some(identity) => identity,
    };
    let id: u128 = identity.transaction_id;
    let mut group: AtomicGroupRuntime = match state.atomic_groups.remove(&id) {
        None => {
            proof {
                assert(state@.groups =~= before.groups);
                assert(state@ =~= before);
            }
            return Err(EngineError::UnknownAtomicGroup(id));
        },
        Some(group) => group,
    };
    assert(before.groups[id] == group@);
    let chunks: usize = group.batch_ids.len();
    if chunks == 0 || group.batch_ids[chunks - 1] != reservation.batch_id.0 || group.next_sequence
        != identity.chunk_sequence.saturating_add(1) {
        state.atomic_groups.insert(id, group);
        proof {
            assert(state@.groups =~= before.groups);
            assert(state@ =~= before);
        }
        return Err(
            EngineError::CorruptState(
                numbered2(
                    "cannot roll back non-tail chunk ",
                    identity.chunk_sequence as u128,
                    " from atomic group ",
                    id,
                    "",
                ),
            ),
        );
    }
    let result = shrink_group(
        &mut group,
        identity.chunk_sequence,
        batch.payload_bytes,
        reservation.record_count,
    );
    let ghost shrunk = group@;
    let emptied: bool = result.is_ok() && group.batch_ids.len() == 0;
    if emptied {
        proof {
            assert(state@.groups =~= before.groups.remove(id));
        }
    } else {
        state.atomic_groups.insert(id, group);
        proof {
            assert(state@.groups =~= before.groups.insert(id, shrunk));
        }
    }
    proof {
        assert(state@ =~= before.rolled_back(reservation).0);
    }
    result
}

fn shrink_group(
    group: &mut AtomicGroupRuntime,
    chunk: u64,
    payload_bytes: u64,
    record_count: u32,
) -> (result: EngineResult<()>)
    requires
        old(group)@.batch_ids.len() > 0,
    ensures
        agrees(
            result,
            PartitionModel::shrunk_group(old(group)@, chunk, payload_bytes, record_count).1,
        ),
        final(group)@ == PartitionModel::shrunk_group(
            old(group)@,
            chunk,
            payload_bytes,
            record_count,
        ).0,
{
    group.batch_ids.pop();
    group.next_sequence = chunk;
    match group.payload_bytes.checked_sub(payload_bytes) {
        Some(bytes) => {
            group.payload_bytes = bytes;
        },
        None => {
            return Err(corrupt_state("atomic group byte count underflow"));
        },
    }
    match group.record_count.checked_sub(record_count as u64) {
        Some(records) => {
            group.record_count = records;
        },
        None => {
            return Err(corrupt_state("atomic group record count underflow"));
        },
    }
    Ok(())
}

/// Raises the number of replicas that hold a written batch.
pub fn set_durable_replica_count(
    state: &mut PartitionState,
    reservation: Reservation,
    durable_replicas: u32,
) -> (result: EngineResult<()>)
    requires
        old(state).sound(),
    ensures
        final(state).sound(),
        old(state).consistent() ==> final(state).consistent(),
        old(state).wf() ==> final(state).wf(),
        agrees(result, old(state)@.credited(reservation, durable_replicas).1),
        final(state)@ == old(state)@.credited(reservation, durable_replicas).0,
{
    let id = reservation.batch_id;
    let ghost before = state@;
    let mut batch = match state.batch_of(id) {
        None => {
            return Err(
                EngineError::CorruptState(
                    numbered("replica progress references missing batch ", id.0, ""),
                ),
            );
        },
        Some(batch) => batch,
    };
    let is_written = match batch.status {
        BatchStatus::Committed | BatchStatus::Unresolved => true,
        _ => false,
    };
    if batch.reservation != reservation || !is_written {
        return Err(
            EngineError::CorruptState(numbered("invalid replica count for batch ", id.0, "")),
        );
    }
    batch.durable_replicas = max_u32(batch.durable_replicas, durable_replicas);
    state.replace_batch(id, batch);
    state.advance_cached_watermarks();
    proof {
        if before.settled() {
            lemma_batch_eased(before, id, batch);
        }
    }
    credit_receipts(state, id, durable_replicas);
    Ok(())
}

fn credit_receipts(state: &mut PartitionState, batch_id: BatchId, durable_replicas: u32)
    ensures
        final(state)@ == (PartitionModel {
            dedup: old(state)@.credited_receipts(batch_id, durable_replicas),
            ..old(state)@
        }),
        final(state).sequencer == old(state).sequencer,
        final(state).batches == old(state).batches,
{
    let keys = state.dedup.keys();
    let ghost before = state@;
    let ghost credited = before.credited_receipts(batch_id, durable_replicas);
    let mut index: usize = 0;
    while index < keys.len()
        invariant
            index <= keys@.len(),
            keys@.no_duplicates(),
            forall|key: (u128, u128)| #[trigger]
                keys@.contains(key) <==> before.dedup.contains_key(key),
            credited == before.credited_receipts(batch_id, durable_replicas),
            state@ == (PartitionModel { dedup: state@.dedup, ..before }),
            state.sequencer == old(state).sequencer,
            state.batches == old(state).batches,
            forall|key: (u128, u128)| #[trigger]
                state@.dedup.contains_key(key) <==> before.dedup.contains_key(key),
            forall|i: int|
                0 <= i < keys@.len() ==> state@.dedup[#[trigger] keys@[i]] == (if i < index {
                    credited[keys@[i]]
                } else {
                    before.dedup[keys@[i]]
                }),
        decreases keys@.len() - index,
    {
        let (row, column) = keys[index];
        assert(keys@.contains(keys@[index as int]));
        let updated: Option<DedupRecord> = match state.dedup.get(row, column) {
            Some(record) => {
                if record.response.batch_id == batch_id {
                    let mut updated = *record;
                    updated.durable_replicas = max_u32(record.durable_replicas, durable_replicas);
                    Some(updated)
                } else {
                    None
                }
            },
            None => None,
        };
        let ghost held = state@.dedup;
        if let Some(record) = updated {
            state.dedup.insert(row, column, record);
        }
        proof {
            assert forall|i: int| 0 <= i < keys@.len() implies state@.dedup[#[trigger] keys@[i]]
                == (if i < index + 1 {
                credited[keys@[i]]
            } else {
                before.dedup[keys@[i]]
            }) by {
                if i != index {
                    assert(keys@[i] != keys@[index as int]);
                }
            }
            assert forall|key: (u128, u128)| #[trigger]
                state@.dedup.contains_key(key) <==> before.dedup.contains_key(key) by {
                assert(held.contains_key(key) <==> before.dedup.contains_key(key));
            }
        }
        index += 1;
    }
    proof {
        assert forall|key: (u128, u128)| before.dedup.contains_key(key) implies state@.dedup[key]
            == #[trigger] credited[key] by {
            assert(keys@.contains(key));
            let i = choose|i: int| 0 <= i < keys@.len() && keys@[i] == key;
            assert(state@.dedup[keys@[i]] == credited[keys@[i]]);
        }
        assert(state@.dedup =~= credited);
        assert(state@ =~= (PartitionModel { dedup: credited, ..before }));
    }
}

} // verus!
