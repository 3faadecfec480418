//! Bounded reordering of leaders' batches on a follower.
use std::collections::HashMap;

use vstd::prelude::*;

use crate::bytes::{le_bytes, push_le};
use crate::engine::ReplicaAppendPlan;
use crate::error::{agrees, invalid_config, numbered, EngineError, EngineResult, Fault};
use crate::hashing::{xxh3_64, xxh3_64_of};
use crate::ids::{BatchId, TopicPartition};
use crate::protocol::{AppendResponse, ReplicaAppend};
use crate::text::decimal;

verus! {

broadcast use vstd::std_specs::hash::group_hash_axioms;

/// The most batches that one lane worker writes together.
pub const MAX_REPLICA_APPEND_GROUP: usize = 8;

/// How long a lane worker waits for more batches.
pub const REPLICA_APPEND_GROUP_LINGER_NANOS: u64 = 200_000;

#[derive(Debug, Clone, Copy, PartialEq, Eq, Structural)]
pub struct DurableApplyConfig {
    pub worker_count: usize,
    pub queue_slots_per_worker: usize,
    pub max_pending_per_partition: usize,
    pub max_gap_batches: u128,
    pub max_pending_bytes_per_partition: usize,
}

impl Default for DurableApplyConfig {
    fn default() -> (config: Self)
        ensures
            config == (DurableApplyConfig {
                worker_count: 4,
                queue_slots_per_worker: 1_024,
                max_pending_per_partition: 256,
                max_gap_batches: 256,
                max_pending_bytes_per_partition: 268_435_456,
            }),
    {
        DurableApplyConfig {
            worker_count: 4,
            queue_slots_per_worker: 1_024,
            max_pending_per_partition: 256,
            max_gap_batches: 256,
            max_pending_bytes_per_partition: 268_435_456,
        }
    }
}

impl DurableApplyConfig {
    /// Every bound is at least one.
    pub open spec fn valid(self) -> bool {
        &&& self.worker_count > 0
        &&& self.queue_slots_per_worker > 0
        &&& self.max_pending_per_partition > 0
        &&& self.max_gap_batches > 0
        &&& self.max_pending_bytes_per_partition > 0
    }

    pub fn validate(self) -> (result: EngineResult<Self>)
        ensures
            agrees(
                result,
                if self.valid() {
                    Ok(self)
                } else {
                    Err(
                        Fault::InvalidConfig(
                            "durable apply worker, queue, pending, and gap bounds must be nonzero"@,
                        ),
                    )
                },
            ),
    {
        if self.worker_count == 0 || self.queue_slots_per_worker == 0
            || self.max_pending_per_partition == 0 || self.max_gap_batches == 0
            || self.max_pending_bytes_per_partition == 0 {
            return Err(
                invalid_config(
                    "durable apply worker, queue, pending, and gap bounds must be nonzero",
                ),
            );
        }
        Ok(self)
    }
}

/// A batch that came before its turn, and who waits for it.
#[derive(Debug)]
pub struct PendingBatch {
    pub batch: ReplicaAppend,
    pub waiters: Vec<u64>,
}

/// The batches of one partition that came before their turn.
#[derive(Debug)]
pub struct PartitionAdmission {
    pub next_batch_id: u128,
    pub pending: HashMap<u128, PendingBatch>,
    pub pending_bytes: usize,
}

/// What happens with a batch that arrived.
#[derive(Debug)]
pub enum Admission {
    /// It is handed on. `in_turn` tells that it is the one that was due.
    Dispatch { batch: ReplicaAppend, waiters: Vec<u64>, in_turn: bool },
    /// It waits for its turn.
    Buffered,
    /// It is turned away.
    Refused { waiter: u64, error: EngineError },
}

/// Two batches are the same in every part.
pub open spec fn same_replica(one: ReplicaAppend, other: ReplicaAppend) -> bool {
    &&& one.reservation == other.reservation
    &&& one.producer == other.producer
    &&& one.atomic_group == other.atomic_group
    &&& one.payload_digest == other.payload_digest
    &&& same_context(one.extension_context, other.extension_context)
    &&& one.payload@ == other.payload@
}

/// Two extension contexts are the same.
pub open spec fn same_context(one: Option<Vec<u8>>, other: Option<Vec<u8>>) -> bool {
    match (one, other) {
        (Some(a), Some(b)) => a@ == b@,
        (None, None) => true,
        _ => false,
    }
}

fn is_same_bytes(one: &Vec<u8>, other: &Vec<u8>) -> (same: bool)
    ensures
        same == (one@ == other@),
{
    if one.len() != other.len() {
        return false;
    }
    let mut index: usize = 0;
    while index < one.len()
        invariant
            index <= one@.len() == other@.len(),
            forall|i: int| 0 <= i < index ==> one@[i] == other@[i],
        decreases one@.len() - index,
    {
        if one[index] != other[index] {
            return false;
        }
        index += 1;
    }
    proof {
        assert(one@ =~= other@);
    }
    true
}

fn is_same_context(one: &Option<Vec<u8>>, other: &Option<Vec<u8>>) -> (same: bool)
    ensures
        same == same_context(*one, *other),
{
    match (one, other) {
        (Some(a), Some(b)) => is_same_bytes(a, b),
        (None, None) => true,
        _ => false,
    }
}

fn is_same_replica(one: &ReplicaAppend, other: &ReplicaAppend) -> (same: bool)
    ensures
        same == same_replica(*one, *other),
{
    one.reservation == other.reservation && one.producer == other.producer && one.atomic_group
        == other.atomic_group && one.payload_digest == other.payload_digest && is_same_context(
        &one.extension_context,
        &other.extension_context,
    ) && is_same_bytes(&one.payload, &other.payload)
}

/// The payload bytes of batches that wait.
pub open spec fn buffered_bytes(pending: Map<u128, PendingBatch>) -> nat
    decreases pending.dom().len(),
    when pending.dom().finite()
{
    if pending.dom().len() == 0 {
        0
    } else {
        let id = pending.dom().choose();
        pending[id].batch.payload@.len() + buffered_bytes(pending.remove(id))
    }
}

/// One batch more or less changes the bytes that wait by its payload.
proof fn lemma_buffered_without(pending: Map<u128, PendingBatch>, id: u128)
    requires
        pending.dom().finite(),
        pending.contains_key(id),
    ensures
        buffered_bytes(pending) == pending[id].batch.payload@.len() + buffered_bytes(
            pending.remove(id),
        ),
    decreases pending.dom().len(),
{
    let chosen = pending.dom().choose();
    assert(pending.dom().contains(id));
    if chosen != id {
        lemma_buffered_without(pending.remove(chosen), id);
        lemma_buffered_without(pending.remove(id), chosen);
        assert(pending.remove(chosen).remove(id) =~= pending.remove(id).remove(chosen));
    }
}

/// Why a batch that is not due cannot wait.
pub open spec fn buffer_obstacle(
    state: PartitionAdmission,
    config: DurableApplyConfig,
    batch: ReplicaAppend,
) -> Option<Fault> {
    let received = batch.reservation.batch_id.0;
    let held = state.pending@.contains_key(received);
    let room = if config.max_pending_bytes_per_partition >= state.pending_bytes {
        config.max_pending_bytes_per_partition - state.pending_bytes
    } else {
        0int
    };
    if received - state.next_batch_id > config.max_gap_batches || !held && state.pending@.len()
        >= config.max_pending_per_partition {
        Some(
            Fault::ReplicaReorderLimited {
                expected: BatchId(state.next_batch_id),
                received: BatchId(received),
                max_gap_batches: config.max_gap_batches,
            },
        )
    } else if !held && batch.payload@.len() > room {
        Some(
            Fault::ReplicaBufferLimited {
                pending_bytes: state.pending_bytes,
                received_bytes: batch.payload@.len() as usize,
                max_pending_bytes: config.max_pending_bytes_per_partition,
            },
        )
    } else if held && !same_replica(state.pending@[received].batch, batch) {
        Some(
            Fault::CorruptState(
                "conflicting buffered replica batch "@ + decimal(received as nat) + ""@,
            ),
        )
    } else {
        None
    }
}

impl PartitionAdmission {
    /// Everything that waits comes at or after the batch that is due, not too
    /// far ahead, and within the bounds on batches and bytes.
    pub open spec fn wf(self, config: DurableApplyConfig) -> bool {
        &&& self.pending@.dom().finite()
        &&& self.pending@.len() <= config.max_pending_per_partition
        &&& self.pending_bytes == buffered_bytes(self.pending@)
        &&& self.pending_bytes <= config.max_pending_bytes_per_partition
        &&& forall|id: u128| #[trigger]
            self.pending@.contains_key(id) ==> self.next_batch_id <= id && id
                - self.next_batch_id <= config.max_gap_batches
    }

    /// A partition whose next batch is `next_batch_id`, with nothing waiting.
    pub fn new(next_batch_id: u128) -> (state: Self)
        ensures
            state.next_batch_id == next_batch_id,
            state.pending@ == Map::<u128, PendingBatch>::empty(),
            state.pending_bytes == 0,
            forall|config: DurableApplyConfig| state.wf(config),
    {
        PartitionAdmission { next_batch_id, pending: HashMap::new(), pending_bytes: 0 }
    }

    /// Takes a batch that arrived: the one that is due and older ones are handed
    /// on, later ones wait within bounds.
    pub fn admit_batch(&mut self, config: &DurableApplyConfig, batch: ReplicaAppend, waiter: u64) -> (admission:
        Admission)
        requires
            old(self).wf(*config),
        ensures
            final(self).wf(*config),
            final(self).next_batch_id == old(self).next_batch_id,
            ({
                let received = batch.reservation.batch_id.0;
                if received <= old(self).next_batch_id {
                    &&& *final(self) == *old(self)
                    &&& admission matches Admission::Dispatch { batch: b, waiters, in_turn }
                        && b == batch && waiters@ == seq![waiter] && in_turn == (received == old(
                        self,
                    ).next_batch_id)
                } else {
                    match buffer_obstacle(*old(self), *config, batch) {
                        Some(fault) => {
                            &&& final(self).pending@ == old(self).pending@
                            &&& final(self).pending_bytes == old(self).pending_bytes
                            &&& admission matches Admission::Refused { waiter: w, error } && w
                                == waiter && error@ == fault
                        },
                        None => {
                            &&& admission is Buffered
                            &&& final(self).pending@.dom() == old(self).pending@.dom().insert(
                                received,
                            )
                            &&& forall|id: u128|
                                id != received && old(self).pending@.contains_key(id)
                                    ==> #[trigger] final(self).pending@[id] == old(
                                    self,
                                ).pending@[id]
                            &&& if old(self).pending@.contains_key(received) {
                                &&& final(self).pending_bytes == old(self).pending_bytes
                                &&& final(self).pending@[received].batch == old(
                                    self,
                                ).pending@[received].batch
                                &&& final(self).pending@[received].waiters@ == old(
                                    self,
                                ).pending@[received].waiters@.push(waiter)
                            } else {
                                &&& final(self).pending_bytes == old(self).pending_bytes
                                    + batch.payload@.len()
                                &&& final(self).pending@[received].batch == batch
                                &&& final(self).pending@[received].waiters@ == seq![waiter]
                            }
                        },
                    }
                }
            }),
    {
        let received: u128 = batch.reservation.batch_id.0;
        let mut waiters: Vec<u64> = Vec::new();
        waiters.push(waiter);
        proof {
            assert(waiters@ =~= seq![waiter]);
        }
        if received <= self.next_batch_id {
            let in_turn = received == self.next_batch_id;
            return Admission::Dispatch { batch, waiters, in_turn };
        }
        let held = self.pending.contains_key(&received);
        let bytes: usize = batch.payload.len();
        if received - self.next_batch_id > config.max_gap_batches || (!held && self.pending.len()
            >= config.max_pending_per_partition) {
            return Admission::Refused {
                waiter,
                error: EngineError::ReplicaReorderLimited {
                    expected: BatchId(self.next_batch_id),
                    received: BatchId(received),
                    max_gap_batches: config.max_gap_batches,
                },
            };
        }
        if !held && bytes > config.max_pending_bytes_per_partition - self.pending_bytes {
            return Admission::Refused {
                waiter,
                error: EngineError::ReplicaBufferLimited {
                    pending_bytes: self.pending_bytes,
                    received_bytes: bytes,
                    max_pending_bytes: config.max_pending_bytes_per_partition,
                },
            };
        }
        match self.pending.remove(&received) {
            None => {
                self.pending_bytes = self.pending_bytes + bytes;
                self.pending.insert(received, PendingBatch { batch, waiters });
                proof {
                    lemma_buffered_without(self.pending@, received);
                    assert(self.pending@.remove(received) =~= old(self).pending@);
                    assert(self.pending@.dom() =~= old(self).pending@.dom().insert(received));
                }
                Admission::Buffered
            },
            Some(mut earlier) => {
                let same = is_same_replica(&earlier.batch, &batch);
                if same {
                    earlier.waiters.push(waiter);
                    self.pending.insert(received, earlier);
                    proof {
                        lemma_buffered_without(self.pending@, received);
                        lemma_buffered_without(old(self).pending@, received);
                        assert(self.pending@.remove(received) =~= old(self).pending@.remove(
                            received,
                        ));
                        assert(self.pending@.dom() =~= old(self).pending@.dom().insert(received));
                        assert(self.pending@.dom() =~= old(self).pending@.dom());
                    }
                    Admission::Buffered
                } else {
                    self.pending.insert(received, earlier);
                    proof {
                        assert(self.pending@ =~= old(self).pending@);
                    }
                    Admission::Refused {
                        waiter,
                        error: EngineError::CorruptState(
                            numbered("conflicting buffered replica batch ", received, ""),
                        ),
                    }
                }
            },
        }
    }

    /// The batch that was due has been handed on; the next one is due.
    pub fn advance(&mut self, config: &DurableApplyConfig)
        requires
            old(self).wf(*config),
            !old(self).pending@.contains_key(old(self).next_batch_id),
        ensures
            final(self).wf(*config),
            final(self).pending == old(self).pending,
            final(self).pending_bytes == old(self).pending_bytes,
            final(self).next_batch_id == (if old(self).next_batch_id == u128::MAX {
                u128::MAX as int
            } else {
                old(self).next_batch_id + 1
            }),
    {
        self.next_batch_id = self.next_batch_id.saturating_add(1);
        proof {
            assert forall|id: u128| #[trigger] self.pending@.contains_key(id) implies self.next_batch_id
                <= id && id - self.next_batch_id <= config.max_gap_batches by {
                assert(old(self).pending@.contains_key(id));
            }
        }
    }

    /// Takes out the batch that is due, if it waits.
    pub fn take_due(&mut self, config: &DurableApplyConfig) -> (pending: Option<PendingBatch>)
        requires
            old(self).wf(*config),
        ensures
            final(self).wf(*config),
            final(self).next_batch_id == old(self).next_batch_id,
            final(self).pending@ == old(self).pending@.remove(old(self).next_batch_id),
            match pending {
                Some(due) => {
                    &&& old(self).pending@.contains_key(old(self).next_batch_id)
                    &&& due == old(self).pending@[old(self).next_batch_id]
                    &&& final(self).pending_bytes == old(self).pending_bytes
                        - due.batch.payload@.len()
                },
                None => {
                    &&& !old(self).pending@.contains_key(old(self).next_batch_id)
                    &&& final(self).pending_bytes == old(self).pending_bytes
                },
            },
    {
        match self.pending.remove(&self.next_batch_id) {
            None => {
                proof {
                    assert(self.pending@ =~= old(self).pending@.remove(old(self).next_batch_id));
                    assert(self.pending@ =~= old(self).pending@);
                }
                None
            },
            Some(due) => {
                proof {
                    lemma_buffered_without(old(self).pending@, old(self).next_batch_id);
                }
                self.pending_bytes = self.pending_bytes.saturating_sub(due.batch.payload.len());
                Some(due)
            },
        }
    }
}

/// What each waiter is told: the first one the result itself, and of a failure
/// the others its description.
pub fn responses(waiters: &Vec<u64>, result: EngineResult<AppendResponse>) -> (told: Vec<
    (u64, EngineResult<AppendResponse>),
>)
    ensures
        told@.len() == waiters@.len(),
        forall|i: int| 0 <= i < told@.len() ==> (#[trigger] told@[i]).0 == waiters@[i],
        match result {
            Ok(response) => forall|i: int|
                0 <= i < told@.len() ==> (#[trigger] told@[i]).1 == Ok::<_, EngineError>(response),
            Err(error) => {
                &&& told@.len() > 0 ==> told@[0].1 == Err::<AppendResponse, _>(error)
                &&& forall|i: int|
                    0 < i < told@.len() ==> agrees(
                        (#[trigger] told@[i]).1,
                        Err(Fault::CorruptState(error.describes())),
                    )
            },
        },
{
    let mut told: Vec<(u64, EngineResult<AppendResponse>)> = Vec::new();
    if waiters.len() == 0 {
        return told;
    }
    match result {
        Ok(response) => {
            let mut index: usize = 0;
            while index < waiters.len()
                invariant
                    index <= waiters@.len(),
                    told@.len() == index,
                    forall|i: int|
                        0 <= i < index ==> (#[trigger] told@[i]).0 == waiters@[i] && told@[i].1
                            == Ok::<_, EngineError>(response),
                decreases waiters@.len() - index,
            {
                told.push((waiters[index], Ok(response)));
                index += 1;
            }
        },
        Err(error) => {
            let message = error.message();
            let ghost described = error.describes();
            told.push((waiters[0], Err(error)));
            let mut index: usize = 1;
            while index < waiters.len()
                invariant
                    1 <= index <= waiters@.len(),
                    told@.len() == index,
                    message@ == described,
                    told@[0].0 == waiters@[0],
                    told@[0].1 == Err::<AppendResponse, _>(error),
                    forall|i: int|
                        0 < i < index ==> (#[trigger] told@[i]).0 == waiters@[i] && agrees(
                            told@[i].1,
                            Err(Fault::CorruptState(described)),
                        ),
                decreases waiters@.len() - index,
            {
                told.push((waiters[index], Err(EngineError::CorruptState(message.clone()))));
                index += 1;
            }
        },
    }
    told
}

/// What is done with a batch that is handed on.
#[derive(Debug, PartialEq, Eq)]
pub enum DispatchStep {
    /// Those who wait are told the result. `handed_on` tells that the next batch is due.
    Tell { result: EngineResult<AppendResponse>, handed_on: bool },
    /// The batch goes to its append worker.
    Send(ReplicaAppendPlan),
    /// The batch's place is taken back and those who wait are told the error.
    TakeBack(EngineError),
}

/// Decides what is done with a batch under the plan that was made for it.
pub fn dispatch_step(
    plan: EngineResult<ReplicaAppendPlan>,
    worker_index: usize,
    worker_count: usize,
) -> (step: DispatchStep)
    ensures
        match plan {
            Err(error) => step == (DispatchStep::Tell { result: Err(error), handed_on: false }),
            Ok(ReplicaAppendPlan::Duplicate(response)) => step == (DispatchStep::Tell {
                result: Ok(response),
                handed_on: true,
            }),
            Ok(reserved) => if worker_index < worker_count {
                step == DispatchStep::Send(reserved)
            } else {
                step is TakeBack && step->TakeBack_0@ == Fault::CorruptState(
                    "durable apply worker "@ + decimal(worker_index as nat) + " is missing"@,
                )
            },
        },
{
    match plan {
        Err(error) => DispatchStep::Tell { result: Err(error), handed_on: false },
        Ok(ReplicaAppendPlan::Duplicate(response)) => DispatchStep::Tell {
            result: Ok(response),
            handed_on: true,
        },
        Ok(reserved) => {
            if worker_index < worker_count {
                DispatchStep::Send(reserved)
            } else {
                DispatchStep::TakeBack(
                    EngineError::CorruptState(
                        numbered("durable apply worker ", worker_index as u128, " is missing"),
                    ),
                )
            }
        },
    }
}

/// The answer to those who wait for a batch whose append worker is gone.
pub fn worker_stopped(worker_index: usize) -> (error: EngineError)
    ensures
        error@ == Fault::CorruptState(
            "durable apply worker "@ + decimal(worker_index as nat) + " stopped"@,
        ),
{
    EngineError::CorruptState(
        numbered("durable apply worker ", worker_index as u128, " stopped"),
    )
}

/// The worker that admits a partition's batches.
pub fn partition_worker(topic_partition: TopicPartition, worker_count: usize) -> (index: usize)
    requires
        worker_count > 0,
    ensures
        index == xxh3_64_of(
            le_bytes(topic_partition.topic_id.0 as nat, 16) + le_bytes(
                topic_partition.partition_id.0 as nat,
                4,
            ),
        ) as usize % worker_count,
        index < worker_count,
{
    let mut key: Vec<u8> = Vec::new();
    push_le(&mut key, topic_partition.topic_id.0, 16);
    push_le(&mut key, topic_partition.partition_id.0 as u128, 4);
    proof {
        assert(key@ =~= le_bytes(topic_partition.topic_id.0 as nat, 16) + le_bytes(
            topic_partition.partition_id.0 as nat,
            4,
        ));
    }
    xxh3_64(key.as_slice()) as usize % worker_count
}

} // verus!
