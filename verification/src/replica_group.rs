//! A group of leader's batches that a follower writes together.
use vstd::prelude::*;

use crate::append::{AppendDurability, AppendFailure};
use crate::dispatch::Coordinator;
use crate::engine::{finish_replica_append, finishes, ReplicaAppendPlan};
use crate::error::{EngineError, EngineResult};
use crate::ids::ShardId;
use crate::protocol::{AppendResponse, ReplicaAppend};

verus! {

/// A batch that was handed to storage.
#[derive(Debug, PartialEq, Eq)]
pub struct ReplicaWrite {
    /// The batch's place in the group.
    pub index: usize,
    pub batch: ReplicaAppend,
    pub response: AppendResponse,
}

/// What is to be done with a batch of the group.
#[derive(Debug, PartialEq, Eq)]
pub enum Placed {
    /// The batch has its result.
    Settled,
    /// The batch goes to storage.
    Write(AppendResponse),
}

/// The results of a group, and the batches that storage still holds.
pub struct ReplicaGroup {
    pub results: Vec<Option<EngineResult<AppendResponse>>>,
    pub pending: Vec<ReplicaWrite>,
}

/// What storage said of a batch, or nothing when its worker stopped.
pub fn received_outcome(
    lane: ShardId,
    received: Option<Result<AppendDurability, EngineError>>,
) -> (outcome: Result<AppendDurability, AppendFailure>)
    ensures
        outcome == (match received {
            Some(Ok(durability)) => Ok(durability),
            Some(Err(error)) => Err(AppendFailure { error, definitely_not_written: false }),
            None => Err(
                AppendFailure {
                    error: EngineError::WorkerStopped(lane),
                    definitely_not_written: false,
                },
            ),
        }),
{
    match received {
        Some(Ok(durability)) => Ok(durability),
        Some(Err(error)) => Err(AppendFailure::ambiguous(error)),
        None => Err(AppendFailure::ambiguous(EngineError::WorkerStopped(lane))),
    }
}

impl ReplicaGroup {
    /// A batch of the group is with storage.
    pub open spec fn awaits(self, index: int) -> bool {
        exists|p: int| 0 <= p < self.pending@.len() && (#[trigger] self.pending@[p]).index == index
    }

    /// Exactly the batches with storage have no result, and storage has each once.
    pub open spec fn wf(self) -> bool {
        &&& forall|p: int|
            0 <= p < self.pending@.len() ==> (#[trigger] self.pending@[p]).index
                < self.results@.len()
        &&& forall|p: int, q: int|
            0 <= p < q < self.pending@.len() ==> (#[trigger] self.pending@[p]).index < (
            #[trigger] self.pending@[q]).index
        &&& forall|i: int|
            0 <= i < self.results@.len() ==> ((#[trigger] self.results@[i]) is None
                <==> self.awaits(i))
    }

    pub fn new() -> (group: Self)
        ensures
            group.wf(),
            group.results@.len() == 0,
            group.pending@.len() == 0,
    {
        ReplicaGroup { results: Vec::new(), pending: Vec::new() }
    }

    fn settle(&mut self, result: EngineResult<AppendResponse>)
        requires
            old(self).wf(),
        ensures
            final(self).wf(),
            final(self).results@ == old(self).results@.push(Some(result)),
            final(self).pending@ == old(self).pending@,
    {
        self.results.push(Some(result));
        proof {
            assert forall|i: int| 0 <= i < self.results@.len() implies ((
            #[trigger] self.results@[i]) is None <==> self.awaits(i)) by {
                if i < old(self).results@.len() {
                    assert(self.results@[i] == old(self).results@[i]);
                    assert(self.awaits(i) == old(self).awaits(i));
                } else if self.awaits(i) {
                    let p = choose|p: int|
                        0 <= p < self.pending@.len() && (#[trigger] self.pending@[p]).index == i;
                    assert(old(self).pending@[p].index < old(self).results@.len());
                }
            }
        }
    }

    /// Takes the next batch of the group: a duplicate and a batch without a shard
    /// have their results, any other goes to storage.
    pub fn place(&mut self, plan: ReplicaAppendPlan, lane: EngineResult<ShardId>) -> (placed: Placed)
        requires
            old(self).wf(),
        ensures
            final(self).wf(),
            final(self).pending@ == old(self).pending@,
            match (plan, lane) {
                (ReplicaAppendPlan::Duplicate(response), _) => {
                    &&& placed == Placed::Settled
                    &&& final(self).results@ == old(self).results@.push(Some(Ok(response)))
                },
                (ReplicaAppendPlan::Reserved { .. }, Err(error)) => {
                    &&& placed == Placed::Settled
                    &&& final(self).results@ == old(self).results@.push(Some(Err(error)))
                },
                (ReplicaAppendPlan::Reserved { response, .. }, Ok(_)) => {
                    &&& placed == Placed::Write(response)
                    &&& final(self).results@ == old(self).results@
                },
            },
    {
        match (plan, lane) {
            (ReplicaAppendPlan::Duplicate(response), _) => {
                self.settle(Ok(response));
                Placed::Settled
            },
            (ReplicaAppendPlan::Reserved { .. }, Err(error)) => {
                self.settle(Err(error));
                Placed::Settled
            },
            (ReplicaAppendPlan::Reserved { response, .. }, Ok(_)) => Placed::Write(response),
        }
    }

    /// Goes on once a batch was offered to storage: one that was turned away has
    /// its result, any other waits.
    pub fn begun(
        &mut self,
        coordinator: &mut Coordinator,
        batch: ReplicaAppend,
        response: AppendResponse,
        begun: Result<(), AppendFailure>,
    )
        requires
            old(self).wf(),
            old(coordinator).wf(),
            old(coordinator).idle(),
        ensures
            final(self).wf(),
            final(coordinator).wf(),
            final(coordinator).idle(),
            final(self).results@.len() == old(self).results@.len() + 1,
            final(self).results@.drop_last() == old(self).results@,
            match begun {
                Ok(()) => {
                    &&& final(coordinator)@ == old(coordinator)@
                    &&& final(self).results@.last() is None
                    &&& final(self).pending@ == old(self).pending@.push(
                        ReplicaWrite { index: old(self).results@.len() as usize, batch, response },
                    )
                },
                Err(failure) => {
                    &&& final(self).pending@ == old(self).pending@
                    &&& final(self).results@.last() is Some
                    &&& finishes(
                        old(coordinator)@,
                        final(coordinator)@,
                        batch,
                        response,
                        Err(failure),
                        final(self).results@.last()->0,
                    )
                },
            },
    {
        match begun {
            Ok(()) => {
                let index: usize = self.results.len();
                self.results.push(None);
                self.pending.push(ReplicaWrite { index, batch, response });
                proof {
                    let at = old(self).pending@.len() as int;
                    assert forall|i: int| 0 <= i < self.results@.len() implies ((
                    #[trigger] self.results@[i]) is None <==> self.awaits(i)) by {
                        if i < old(self).results@.len() {
                            assert(self.results@[i] == old(self).results@[i]);
                            if old(self).awaits(i) {
                                let p = choose|p: int|
                                    0 <= p < old(self).pending@.len() && (
                                    #[trigger] old(self).pending@[p]).index == i;
                                assert(self.pending@[p].index == i);
                            }
                            if self.awaits(i) {
                                let p = choose|p: int|
                                    0 <= p < self.pending@.len() && (
                                    #[trigger] self.pending@[p]).index == i;
                                assert(p < at);
                                assert(old(self).pending@[p].index == i);
                            }
                        } else {
                            assert(self.pending@[at].index == i);
                        }
                    }
                    assert(self.results@.drop_last() =~= old(self).results@);
                }
            },
            Err(failure) => {
                let result = finish_replica_append(coordinator, &batch, response, Err(failure));
                self.settle(result);
                proof {
                    assert(self.results@.drop_last() =~= old(self).results@);
                }
            },
        }
    }

    /// The next batch to hear of from storage: the one that was handed over first.
    pub fn next_pending(&self) -> (lane: Option<ShardId>)
        ensures
            match lane {
                Some(lane) => self.pending@.len() > 0 && lane
                    == self.pending@[0].batch.reservation.placement.virtual_lane_id,
                None => self.pending@.len() == 0,
            },
    {
        if self.pending.len() == 0 {
            return None;
        }
        Some(self.pending[0].batch.reservation.placement.virtual_lane_id)
    }

    /// Records what storage said of the batch that was handed over first.
    pub fn written(
        &mut self,
        coordinator: &mut Coordinator,
        received: Option<Result<AppendDurability, EngineError>>,
    )
        requires
            old(self).wf(),
            old(self).pending@.len() > 0,
            old(coordinator).wf(),
            old(coordinator).idle(),
        ensures
            final(self).wf(),
            final(coordinator).wf(),
            final(coordinator).idle(),
            final(self).pending@ == old(self).pending@.skip(1),
            ({
                let first = old(self).pending@[0];
                let settled = final(self).results@[first.index as int];
                &&& settled is Some
                &&& final(self).results@ == old(self).results@.update(first.index as int, settled)
                &&& finishes(
                    old(coordinator)@,
                    final(coordinator)@,
                    first.batch,
                    first.response,
                    match received {
                        Some(Ok(durability)) => Ok(durability),
                        Some(Err(error)) => Err(
                            AppendFailure { error, definitely_not_written: false },
                        ),
                        None => Err(
                            AppendFailure {
                                error: EngineError::WorkerStopped(
                                    first.batch.reservation.placement.virtual_lane_id,
                                ),
                                definitely_not_written: false,
                            },
                        ),
                    },
                    settled->0,
                )
            }),
    {
        let first = self.pending.remove(0);
        let outcome = received_outcome(
            first.batch.reservation.placement.virtual_lane_id,
            received,
        );
        let result = finish_replica_append(coordinator, &first.batch, first.response, outcome);
        let ghost before = old(self).pending@;
        proof {
            assert(before[0] == first);
            assert(self.pending@ =~= before.skip(1));
        }
        self.results.set(first.index, Some(result));
        proof {
            assert forall|p: int, q: int|
                0 <= p < q < self.pending@.len() implies (#[trigger] self.pending@[p]).index < (
            #[trigger] self.pending@[q]).index by {
                assert(self.pending@[p] == before[p + 1]);
                assert(self.pending@[q] == before[q + 1]);
            }
            assert forall|p: int| 0 <= p < self.pending@.len() implies (
            #[trigger] self.pending@[p]).index < self.results@.len() by {
                assert(self.pending@[p] == before[p + 1]);
            }
            assert forall|i: int| 0 <= i < self.results@.len() implies ((
            #[trigger] self.results@[i]) is None <==> self.awaits(i)) by {
                if self.awaits(i) {
                    let p = choose|p: int|
                        0 <= p < self.pending@.len() && (#[trigger] self.pending@[p]).index == i;
                    assert(self.pending@[p] == before[p + 1]);
                    assert(before[0].index < before[p + 1].index);
                    assert(old(self).awaits(i));
                }
                if i != first.index && old(self).awaits(i) {
                    let p = choose|p: int|
                        0 <= p < before.len() && (#[trigger] before[p]).index == i;
                    assert(self.pending@[p - 1] == before[p]);
                }
            }
        }
    }

    /// Every batch has its result once storage has answered for all it took.
    pub proof fn answered_groups_are_settled(self)
        requires
            self.wf(),
            self.pending@.len() == 0,
        ensures
            forall|i: int| 0 <= i < self.results@.len() ==> (#[trigger] self.results@[i]) is Some,
    {
        assert forall|i: int| 0 <= i < self.results@.len() implies (
        #[trigger] self.results@[i]) is Some by {
            assert(!self.awaits(i));
        }
    }

    /// Gives the results in the order of the group.
    pub fn finish(self) -> (results: Vec<EngineResult<AppendResponse>>)
        requires
            self.wf(),
            self.pending@.len() == 0,
        ensures
            results@.len() == self.results@.len(),
            forall|i: int|
                0 <= i < results@.len() ==> #[trigger] self.results@[i] == Some(results@[i]),
    {
        proof {
            self.answered_groups_are_settled();
        }
        let ghost all = self.results@;
        let mut results: Vec<EngineResult<AppendResponse>> = Vec::new();
        for settled in iter: self.results
            invariant
                iter.seq() == all,
                results@.len() == iter.index(),
                forall|i: int| 0 <= i < all.len() ==> (#[trigger] all[i]) is Some,
                forall|i: int| 0 <= i < results@.len() ==> #[trigger] all[i] == Some(results@[i]),
        {
            match settled {
                Some(result) => results.push(result),
                None => {
                    proof {
                        assert(all[iter.index() as int] is None);
                    }
                },
            }
        }
        results
    }
}

} // verus!
