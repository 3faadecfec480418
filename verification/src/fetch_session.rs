//! One fetch from start to end: what it may ask for, the answers of the shards
//! as they come in, and the batches that the reader gets.
use std::collections::VecDeque;

use vstd::prelude::*;

use crate::config::EngineConfig;
use crate::error::{
    agrees, corrupt_state, invalid_config, numbered2, EngineError, EngineResult, Fault,
};
use crate::fetch::FetchedBatch;
use crate::ids::{BatchId, LogicalOffset};
use crate::partition::{FetchBounds, VisibilityMode};
use crate::protocol::{
    AtomicGroupIdentity, FetchMode, FetchRequest, StoredBatch, StoredBatchMetadata,
};
use crate::recovery::group_identity;
use crate::text::decimal;

verus! {

/// Checks the byte budget of a fetch, once the request's own check `checked` it.
pub fn fetch_budget(
    config: &EngineConfig,
    request: &FetchRequest,
    checked: Result<(), String>,
) -> (result: EngineResult<usize>)
    ensures
        agrees(
            result,
            if checked is Err {
                Err(Fault::InvalidConfig("invalid fetch request: "@ + checked->Err_0@))
            } else if request.max_bytes > config.max_fetch_bytes {
                Err(
                    Fault::InvalidConfig(
                        "fetch max_bytes "@ + decimal(request.max_bytes as nat)
                            + " exceeds configured maximum "@ + decimal(
                            config.max_fetch_bytes as nat,
                        ) + ""@,
                    ),
                )
            } else {
                Ok(request.max_bytes as usize)
            },
        ),
{
    if let Err(text) = checked {
        let mut message = "invalid fetch request: ".to_string();
        message.append(text.as_str());
        return Err(EngineError::InvalidConfig(message));
    }
    let max_bytes: usize = request.max_bytes as usize;
    if max_bytes > config.max_fetch_bytes {
        return Err(
            EngineError::InvalidConfig(
                numbered2(
                    "fetch max_bytes ",
                    max_bytes as u128,
                    " exceeds configured maximum ",
                    config.max_fetch_bytes as u128,
                    "",
                ),
            ),
        );
    }
    Ok(max_bytes)
}

/// Where a fetch ends: the physical end when it may see unresolved batches,
/// else the end that its mode may see.
pub open spec fn visible_end(bounds: FetchBounds, mode: FetchMode, include_unresolved: bool) -> LogicalOffset {
    if include_unresolved {
        bounds.physical_end
    } else if mode == FetchMode::Replicated {
        bounds.replicated_end
    } else {
        bounds.ordered_end
    }
}

pub fn fetch_end(bounds: &FetchBounds, mode: FetchMode, include_unresolved: bool) -> (end:
    LogicalOffset)
    ensures
        end == visible_end(*bounds, mode, include_unresolved),
{
    if include_unresolved {
        bounds.physical_end
    } else {
        match mode {
            FetchMode::Replicated => bounds.replicated_end,
            FetchMode::Ordered | FetchMode::AsAvailable => bounds.ordered_end,
        }
    }
}

/// The watermark that a wait under a fetch mode looks at.
pub fn visibility_mode(mode: FetchMode) -> (result: EngineResult<VisibilityMode>)
    ensures
        agrees(
            result,
            match mode {
                FetchMode::Ordered => Ok(VisibilityMode::Ordered),
                FetchMode::Replicated => Ok(VisibilityMode::Replicated),
                FetchMode::AsAvailable => Err(
                    Fault::InvalidConfig(
                        "as-available fetch mode has no contiguous visibility watermark"@,
                    ),
                ),
            },
        ),
{
    match mode {
        FetchMode::Ordered => Ok(VisibilityMode::Ordered),
        FetchMode::Replicated => Ok(VisibilityMode::Replicated),
        FetchMode::AsAvailable => Err(
            invalid_config("as-available fetch mode has no contiguous visibility watermark"),
        ),
    }
}

/// A shard's answer to a fetch.
pub enum FetchCompletion {
    Plan { lane: usize, result: EngineResult<Vec<StoredBatchMetadata>> },
    Read { lane: usize, result: EngineResult<VecDeque<StoredBatch>> },
}

/// The answers of the shards so far.
pub struct FetchSession {
    pub plans: Vec<Vec<StoredBatchMetadata>>,
    pub planned: Vec<bool>,
    pub batches: Vec<VecDeque<StoredBatch>>,
    pub read: Vec<bool>,
}

/// The batch numbers of a shard's plan.
pub open spec fn plan_ids(plan: Seq<StoredBatchMetadata>) -> Seq<BatchId> {
    plan.map_values(|metadata: StoredBatchMetadata| metadata.reservation.batch_id)
}

/// The batch numbers of all plans, shard by shard.
pub open spec fn all_ids(plans: Seq<Vec<StoredBatchMetadata>>) -> Seq<BatchId>
    decreases plans.len(),
{
    if plans.len() == 0 {
        Seq::empty()
    } else {
        all_ids(plans.drop_last()) + plan_ids(plans.last()@)
    }
}

impl FetchSession {
    pub open spec fn wf(self) -> bool {
        &&& self.planned@.len() == self.plans@.len()
        &&& self.batches@.len() == self.plans@.len()
        &&& self.read@.len() == self.plans@.len()
    }

    /// A fetch that no shard has answered yet.
    pub fn new(lanes: usize) -> (session: Self)
        ensures
            session.wf(),
            session.plans@.len() == lanes,
            forall|i: int| 0 <= i < lanes ==> (#[trigger] session.plans@[i])@.len() == 0,
            forall|i: int| 0 <= i < lanes ==> (#[trigger] session.batches@[i])@.len() == 0,
            forall|i: int| 0 <= i < lanes ==> !#[trigger] session.planned@[i],
            forall|i: int| 0 <= i < lanes ==> !#[trigger] session.read@[i],
    {
        let mut session = FetchSession {
            plans: Vec::new(),
            planned: Vec::new(),
            batches: Vec::new(),
            read: Vec::new(),
        };
        let mut lane: usize = 0;
        while lane < lanes
            invariant
                lane <= lanes,
                session.wf(),
                session.plans@.len() == lane,
                forall|i: int| 0 <= i < lane ==> (#[trigger] session.plans@[i])@.len() == 0,
                forall|i: int| 0 <= i < lane ==> (#[trigger] session.batches@[i])@.len() == 0,
                forall|i: int| 0 <= i < lane ==> !#[trigger] session.planned@[i],
                forall|i: int| 0 <= i < lane ==> !#[trigger] session.read@[i],
            decreases lanes - lane,
        {
            session.plans.push(Vec::new());
            session.planned.push(false);
            session.batches.push(VecDeque::new());
            session.read.push(false);
            lane += 1;
        }
        session
    }

    /// Takes a shard's answer while plans are being collected. Each shard
    /// answers once, with a plan.
    pub fn collect_plan(&mut self, completion: FetchCompletion) -> (result: EngineResult<()>)
        requires
            old(self).wf(),
        ensures
            final(self).wf(),
            final(self).batches == old(self).batches,
            final(self).read == old(self).read,
            match completion {
                FetchCompletion::Read { .. } => result is Err && result->Err_0@
                    == Fault::CorruptState("received a fetch read completion during planning"@)
                    && *final(self) == *old(self),
                FetchCompletion::Plan { lane, result: answer } => if lane >= old(
                    self,
                ).plans@.len() {
                    result is Err && result->Err_0@ == Fault::CorruptState(
                        "fetch plan completion has an invalid lane"@,
                    ) && *final(self) == *old(self)
                } else if old(self).planned@[lane as int] {
                    result is Err && result->Err_0@ == Fault::CorruptState(
                        "fetch plan completed twice for one lane"@,
                    ) && *final(self) == *old(self)
                } else {
                    &&& final(self).planned@ == old(self).planned@.update(lane as int, true)
                    &&& match answer {
                        Err(error) => result == Err::<(), EngineError>(error) && final(self).plans
                            == old(self).plans,
                        Ok(plan) => result is Ok && final(self).plans@ == old(self).plans@.update(
                            lane as int,
                            plan,
                        ),
                    }
                },
            },
    {
        match completion {
            FetchCompletion::Read { .. } => Err(
                corrupt_state("received a fetch read completion during planning"),
            ),
            FetchCompletion::Plan { lane, result } => {
                if lane >= self.plans.len() {
                    return Err(corrupt_state("fetch plan completion has an invalid lane"));
                }
                if self.planned[lane] {
                    return Err(corrupt_state("fetch plan completed twice for one lane"));
                }
                self.planned[lane] = true;
                match result {
                    Err(error) => Err(error),
                    Ok(plan) => {
                        self.plans[lane] = plan;
                        Ok(())
                    },
                }
            },
        }
    }

    /// The batches that any shard planned.
    pub fn candidates(&self) -> (ids: Vec<BatchId>)
        ensures
            ids@ == all_ids(self.plans@),
    {
        let mut ids: Vec<BatchId> = Vec::new();
        let mut lane: usize = 0;
        while lane < self.plans.len()
            invariant
                lane <= self.plans@.len(),
                ids@ == all_ids(self.plans@.take(lane as int)),
            decreases self.plans@.len() - lane,
        {
            let ghost before = ids@;
            let ghost plan = self.plans@[lane as int]@;
            let mut index: usize = 0;
            proof {
                assert(plan_ids(plan).take(0) =~= Seq::<BatchId>::empty());
                assert(before + Seq::<BatchId>::empty() =~= before);
            }
            while index < self.plans[lane].len()
                invariant
                    lane < self.plans@.len(),
                    plan == self.plans@[lane as int]@,
                    index <= plan.len(),
                    ids@ == before + plan_ids(plan).take(index as int),
                decreases plan.len() - index,
            {
                ids.push(self.plans[lane][index].reservation.batch_id);
                index += 1;
                proof {
                    assert(ids@ =~= before + plan_ids(plan).take(index as int));
                }
            }
            proof {
                assert(plan_ids(plan).take(index as int) =~= plan_ids(plan));
                assert(self.plans@.take(lane + 1).drop_last() =~= self.plans@.take(lane as int));
                assert(self.plans@.take(lane + 1).last() == self.plans@[lane as int]);
            }
            lane += 1;
        }
        proof {
            assert(self.plans@.take(lane as int) =~= self.plans@);
        }
        ids
    }

    /// Takes a shard's answer while batches are being read. Each shard answers
    /// once, with what it read.
    pub fn collect_read(&mut self, completion: FetchCompletion) -> (result: EngineResult<()>)
        requires
            old(self).wf(),
        ensures
            final(self).wf(),
            final(self).plans == old(self).plans,
            final(self).planned == old(self).planned,
            match completion {
                FetchCompletion::Plan { .. } => result is Err && result->Err_0@
                    == Fault::CorruptState("received a fetch plan completion during reading"@)
                    && *final(self) == *old(self),
                FetchCompletion::Read { lane, result: answer } => if lane >= old(
                    self,
                ).batches@.len() {
                    result is Err && result->Err_0@ == Fault::CorruptState(
                        "fetch read completion has an invalid lane"@,
                    ) && *final(self) == *old(self)
                } else if old(self).read@[lane as int] {
                    result is Err && result->Err_0@ == Fault::CorruptState(
                        "fetch read completed twice for one lane"@,
                    ) && *final(self) == *old(self)
                } else {
                    &&& final(self).read@ == old(self).read@.update(lane as int, true)
                    &&& match answer {
                        Err(error) => result == Err::<(), EngineError>(error) && final(self).batches == old(self).batches,
                        Ok(batches) => result is Ok && final(self).batches@ == old(
                            self,
                        ).batches@.update(lane as int, batches),
                    }
                },
            },
    {
        match completion {
            FetchCompletion::Plan { .. } => Err(
                corrupt_state("received a fetch plan completion during reading"),
            ),
            FetchCompletion::Read { lane, result } => {
                if lane >= self.batches.len() {
                    return Err(corrupt_state("fetch read completion has an invalid lane"));
                }
                if self.read[lane] {
                    return Err(corrupt_state("fetch read completed twice for one lane"));
                }
                self.read[lane] = true;
                match result {
                    Err(error) => Err(error),
                    Ok(batches) => {
                        self.batches[lane] = batches;
                        Ok(())
                    },
                }
            },
        }
    }
}

/// `fetched` is what a reader sees of a stored batch.
pub open spec fn presents(stored: StoredBatch, fetched: FetchedBatch) -> bool {
    &&& fetched.batch_id == stored.reservation.batch_id
    &&& fetched.event_id == (match stored.producer {
        Some(claim) => claim.event_id,
        None => None,
    })
    &&& fetched.atomic_group == group_identity(stored.atomic_group)
    &&& fetched.first_offset == stored.reservation.first_offset
    &&& fetched.last_offset == stored.reservation.last_offset
    &&& fetched.record_count == stored.reservation.record_count
    &&& fetched.payload == stored.payload
    &&& fetched.placement == stored.reservation.placement
}

/// Turns a stored batch into what a reader sees of it.
pub fn present(stored: StoredBatch) -> (fetched: FetchedBatch)
    ensures
        presents(stored, fetched),
{
    FetchedBatch {
        batch_id: stored.reservation.batch_id,
        event_id: match stored.producer {
            Some(claim) => claim.event_id,
            None => None,
        },
        atomic_group: match stored.atomic_group {
            Some(group) => Some(
                AtomicGroupIdentity {
                    transaction_id: group.transaction_id,
                    chunk_sequence: group.chunk_sequence,
                },
            ),
            None => None,
        },
        first_offset: stored.reservation.first_offset,
        last_offset: stored.reservation.last_offset,
        record_count: stored.reservation.record_count,
        payload: stored.payload,
        placement: stored.reservation.placement,
    }
}

/// Turns stored batches into what a reader sees of them, in order.
pub fn present_all(stored: Vec<StoredBatch>) -> (fetched: Vec<FetchedBatch>)
    ensures
        fetched@.len() == stored@.len(),
        forall|i: int| 0 <= i < stored@.len() ==> presents(stored@[i], #[trigger] fetched@[i]),
{
    let ghost all = stored@;
    let mut fetched: Vec<FetchedBatch> = Vec::new();
    for batch in iter: stored
        invariant
            iter.seq() == all,
            fetched@.len() == iter.index(),
            forall|i: int| 0 <= i < fetched@.len() ==> presents(all[i], #[trigger] fetched@[i]),
    {
        fetched.push(present(batch));
    }
    fetched
}

} // verus!
