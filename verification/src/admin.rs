//! Control decisions on one partition: atomic group outcomes, replication
//! policy and retention.
//!
//! Each is made in two steps. The first checks the request against the state
//! and gives the event that the journal has to keep; the second changes the
//! state once the event is kept.
use vstd::prelude::*;

use crate::config::PartitionReplicationPolicy;
use crate::error::{agrees, invalid_config, numbered, numbered2, EngineError, EngineResult, Fault};
use crate::ids::{BatchId, LogicalOffset, TopicPartition};
use crate::maps::map_keys;
use crate::partition::{
    eases, lemma_advance_settles, lemma_chain_is_increasing, lower, AtomicGroupInspection,
    AtomicGroupState, BatchRuntime, BatchStatus, GroupModel, Mark, PartitionModel, PartitionState,
    PartitionWatermarks,
};
use crate::protocol::JournalEvent;
use crate::text::decimal;

verus! {

broadcast use vstd::std_specs::hash::group_hash_axioms;

/// The status of a group's batches once the group has an outcome.
pub open spec fn outcome_status(outcome: AtomicGroupState) -> BatchStatus {
    match outcome {
        AtomicGroupState::Committed => BatchStatus::Committed,
        AtomicGroupState::Aborted => BatchStatus::Aborted,
        AtomicGroupState::Unresolved => BatchStatus::Unresolved,
    }
}

/// What a request asks for: nothing more, or an event to keep first.
pub enum Planned<T> {
    Done(T),
    Journal(JournalEvent),
}

impl PartitionModel {
    /// What is known of an atomic group.
    pub open spec fn inspected(self, transaction_id: u128) -> Result<AtomicGroupInspection, Fault> {
        let group = self.groups[transaction_id];
        let ids = group.batch_ids;
        if !self.groups.contains_key(transaction_id) {
            Err(Fault::UnknownAtomicGroup(transaction_id))
        } else if ids.len() == 0 || !self.retains(BatchId(ids[0])) || !self.retains(
            BatchId(ids.last()),
        ) {
            Err(
                Fault::CorruptState(
                    "atomic group "@ + decimal(transaction_id as nat) + " has no chunks"@,
                ),
            )
        } else {
            Ok(
                AtomicGroupInspection {
                    transaction_id,
                    state: group.state,
                    chunk_count: group.next_sequence,
                    record_count: group.record_count,
                    payload_bytes: group.payload_bytes,
                    first_offset: self.batch(BatchId(ids[0])).reservation.first_offset,
                    last_offset: self.batch(BatchId(ids.last())).reservation.last_offset,
                },
            )
        }
    }

    /// What keeps one batch of a group from the group's outcome.
    pub open spec fn chunk_obstacle(
        self,
        transaction_id: u128,
        batch_id: u128,
        outcome: AtomicGroupState,
    ) -> Option<Fault> {
        let batch = self.batch(BatchId(batch_id));
        if !self.retains(BatchId(batch_id)) {
            Some(
                Fault::CorruptState(
                    "atomic group "@ + decimal(transaction_id as nat)
                        + " references missing batch "@ + decimal(batch_id as nat) + ""@,
                ),
            )
        } else if batch.status != BatchStatus::Unresolved {
            Some(Fault::ReplicaInFlight(batch.reservation.batch_id))
        } else if outcome == AtomicGroupState::Committed && batch.durable_replicas
            < self.policy.min_in_sync_replicas {
            Some(
                Fault::DurabilityUnavailable {
                    required_replicas: self.policy.min_in_sync_replicas,
                    durable_replicas: batch.durable_replicas,
                },
            )
        } else {
            None
        }
    }

    /// What keeps the first obstructed batch of a group from the group's outcome.
    pub open spec fn group_obstacle(
        self,
        transaction_id: u128,
        batch_ids: Seq<u128>,
        outcome: AtomicGroupState,
    ) -> Option<Fault>
        decreases batch_ids.len(),
    {
        if batch_ids.len() == 0 {
            None
        } else {
            match self.chunk_obstacle(transaction_id, batch_ids[0], outcome) {
                Some(fault) => Some(fault),
                None => self.group_obstacle(transaction_id, batch_ids.skip(1), outcome),
            }
        }
    }

    /// What a request to finish a group meets: `Ok(None)` when it may go ahead.
    pub open spec fn finalizing(self, transaction_id: u128, outcome: AtomicGroupState) -> Result<
        Option<AtomicGroupInspection>,
        Fault,
    > {
        let group = self.groups[transaction_id];
        if outcome == AtomicGroupState::Unresolved {
            Err(Fault::InvalidConfig("an atomic group can only commit or abort"@))
        } else if !self.groups.contains_key(transaction_id) {
            Err(Fault::UnknownAtomicGroup(transaction_id))
        } else if group.state == outcome {
            match self.inspected(transaction_id) {
                Ok(inspection) => Ok(Some(inspection)),
                Err(fault) => Err(fault),
            }
        } else if group.state != AtomicGroupState::Unresolved {
            Err(Fault::AtomicGroupFinalized(transaction_id))
        } else {
            match self.group_obstacle(transaction_id, group.batch_ids, outcome) {
                Some(fault) => Err(fault),
                None => Ok(None),
            }
        }
    }

    /// The batches after every one in `ids` got a status.
    pub open spec fn with_statuses(self, ids: Seq<u128>, status: BatchStatus) -> Seq<BatchRuntime> {
        Seq::new(
            self.batches.len(),
            |i: int|
                if ids.contains((self.first_batch + i) as u128) {
                    BatchRuntime { status, ..self.batches[i] }
                } else {
                    self.batches[i]
                },
        )
    }

    /// The state after a group got its outcome.
    pub open spec fn finalized_as(self, transaction_id: u128, outcome: AtomicGroupState) -> PartitionModel {
        let group = self.groups[transaction_id];
        PartitionModel {
            batches: self.with_statuses(group.batch_ids, outcome_status(outcome)),
            groups: self.groups.insert(transaction_id, GroupModel { state: outcome, ..group }),
            finalized: self.finalized.insert(transaction_id, outcome),
            ..self
        }.advanced()
    }

    /// Replicas of the first batch from `key` on that has too few of them.
    pub open spec fn first_shortage(batches: Seq<BatchRuntime>, replicas: u32) -> u32
        decreases batches.len(),
    {
        if batches.len() == 0 {
            0
        } else if batches[0].status != BatchStatus::Aborted && batches[0].durable_replicas
            < replicas {
            batches[0].durable_replicas
        } else {
            Self::first_shortage(batches.skip(1), replicas)
        }
    }

    /// What a policy change meets: `Ok(true)` when it may go ahead, `Ok(false)`
    /// when there is nothing to change.
    pub open spec fn policy_change(
        self,
        expected_policy_generation: u64,
        policy: PartitionReplicationPolicy,
    ) -> Result<bool, Fault> {
        if self.policy == policy {
            Ok(false)
        } else if self.policy.policy_generation != expected_policy_generation {
            Err(
                Fault::Fenced(
                    "replication policy generation changed from expected "@ + decimal(
                        expected_policy_generation as nat,
                    ) + " to "@ + decimal(self.policy.policy_generation as nat) + ""@,
                ),
            )
        } else if policy.policy_generation <= expected_policy_generation {
            Err(Fault::InvalidConfig("replication policy generation must advance"@))
        } else {
            let target = lower(
                self.measured(Mark::Replicated(policy.min_in_sync_replicas)).offset,
                self.stable.offset,
            );
            if target.0 < self.stable.offset.0 {
                Err(
                    Fault::DurabilityUnavailable {
                        required_replicas: policy.min_in_sync_replicas,
                        durable_replicas: Self::first_shortage(
                            self.batches.skip(self.batches_below(target) as int),
                            policy.min_in_sync_replicas,
                        ),
                    },
                )
            } else {
                Ok(true)
            }
        }
    }

    /// The state under another policy.
    pub open spec fn under_policy(self, policy: PartitionReplicationPolicy) -> PartitionModel {
        PartitionModel { policy, ..self }.remeasured()
    }

    /// The first batch that a truncation to `log_start` keeps, if there is a boundary there.
    pub open spec fn first_kept(self, log_start: LogicalOffset, key: u128) -> bool {
        if log_start == self.stable.offset {
            key == self.first_batch + self.batches.len()
        } else {
            self.starts_at(log_start, key)
        }
    }

    /// What a truncation meets: `Ok(Some(key))` when it may go ahead and keeps the
    /// batches from `key` on, `Ok(None)` when there is nothing to remove.
    pub open spec fn truncation(self, log_start: LogicalOffset) -> Result<Option<u128>, Fault> {
        if log_start.0 < self.log_start.0 {
            Err(
                Fault::InvalidConfig(
                    "log start cannot move backward from "@ + decimal(self.log_start.0 as nat)
                        + " to "@ + decimal(log_start.0 as nat) + ""@,
                ),
            )
        } else if log_start.0 > self.stable.offset.0 {
            Err(
                Fault::InvalidConfig(
                    "log start "@ + decimal(log_start.0 as nat) + " exceeds last stable offset "@
                        + decimal(self.stable.offset.0 as nat) + ""@,
                ),
            )
        } else if !exists|key: u128| self.first_kept(log_start, key) {
            Err(Fault::InvalidConfig("log start must align to a batch boundary"@))
        } else {
            let key = choose|key: u128| self.first_kept(log_start, key);
            if self.retains(BatchId(key)) && (self.batch(BatchId(key)).atomic_group matches Some(
                group,
            ) && group.chunk_sequence != 0) {
                Err(Fault::InvalidConfig("retention cannot split an atomic group"@))
            } else if log_start == self.log_start {
                Ok(None)
            } else {
                Ok(Some(key))
            }
        }
    }

    /// The state after everything below `log_start` was removed.
    pub open spec fn truncated(self, log_start: LogicalOffset, first_kept: u128) -> PartitionModel {
        PartitionModel {
            log_start,
            first_batch: first_kept,
            batches: self.batches.skip(first_kept - self.first_batch),
            groups: self.groups.remove_keys(
                Set::new(
                    |id: u128|
                        self.groups.contains_key(id) && (self.groups[id].batch_ids.len() == 0
                            || self.groups[id].batch_ids.last() < first_kept),
                ),
            ),
            ..self
        }.remeasured()
    }
}

/// What is known of an atomic group.
pub fn inspect_atomic_group(state: &PartitionState, transaction_id: u128) -> (result: EngineResult<
    AtomicGroupInspection,
>)
    requires
        state.sound(),
    ensures
        agrees(result, state@.inspected(transaction_id)),
{
    match state.atomic_groups.get(&transaction_id) {
        None => Err(EngineError::UnknownAtomicGroup(transaction_id)),
        Some(group) => {
            assert(state@.groups[transaction_id] == group@);
            let chunks: usize = group.batch_ids.len();
            if chunks > 0 {
                if let Some(first) = state.batch_of(BatchId(group.batch_ids[0])) {
                    if let Some(last) = state.batch_of(BatchId(group.batch_ids[chunks - 1])) {
                        return Ok(
                            AtomicGroupInspection {
                                transaction_id,
                                state: group.state,
                                chunk_count: group.next_sequence,
                                record_count: group.record_count,
                                payload_bytes: group.payload_bytes,
                                first_offset: first.reservation.first_offset,
                                last_offset: last.reservation.last_offset,
                            },
                        );
                    }
                }
            }
            Err(
                EngineError::CorruptState(
                    numbered("atomic group ", transaction_id, " has no chunks"),
                ),
            )
        },
    }
}

proof fn lemma_obstacle_from(
    model: PartitionModel,
    transaction_id: u128,
    ids: Seq<u128>,
    outcome: AtomicGroupState,
    index: int,
)
    requires
        0 <= index < ids.len(),
    ensures
        model.group_obstacle(transaction_id, ids.skip(index), outcome) == (
        match model.chunk_obstacle(transaction_id, ids[index], outcome) {
            Some(fault) => Some(fault),
            None => model.group_obstacle(transaction_id, ids.skip(index + 1), outcome),
        }),
{
    assert(ids.skip(index).skip(1) =~= ids.skip(index + 1));
}

/// Checks a request to commit or abort a group.
pub fn plan_finalize(
    state: &PartitionState,
    topic_partition: TopicPartition,
    transaction_id: u128,
    outcome: AtomicGroupState,
) -> (result: EngineResult<Planned<AtomicGroupInspection>>)
    requires
        state.sound(),
    ensures
        match result {
            Ok(Planned::Done(inspection)) => state@.finalizing(transaction_id, outcome) == Ok::<
                _,
                Fault,
            >(Some(inspection)),
            Ok(Planned::Journal(event)) => {
                &&& state@.finalizing(transaction_id, outcome) == Ok::<
                    Option<AtomicGroupInspection>,
                    Fault,
                >(None)
                &&& event == (if outcome == AtomicGroupState::Committed {
                    JournalEvent::GroupCommit { topic_partition, transaction_id }
                } else {
                    JournalEvent::GroupAbort { topic_partition, transaction_id }
                })
            },
            Err(error) => state@.finalizing(transaction_id, outcome) == Err::<
                Option<AtomicGroupInspection>,
                Fault,
            >(error@),
        },
{
    if outcome == AtomicGroupState::Unresolved {
        return Err(invalid_config("an atomic group can only commit or abort"));
    }
    let group = match state.atomic_groups.get(&transaction_id) {
        None => {
            return Err(EngineError::UnknownAtomicGroup(transaction_id));
        },
        Some(group) => group,
    };
    assert(state@.groups[transaction_id] == group@);
    if group.state == outcome {
        return match inspect_atomic_group(state, transaction_id) {
            Ok(inspection) => Ok(Planned::Done(inspection)),
            Err(error) => Err(error),
        };
    }
    if group.state != AtomicGroupState::Unresolved {
        return Err(EngineError::AtomicGroupFinalized(transaction_id));
    }
    let mut index: usize = 0;
    let ghost ids = group.batch_ids@;
    proof {
        assert(ids.skip(0) =~= ids);
    }
    while index < group.batch_ids.len()
        invariant
            state.sound(),
            ids == group.batch_ids@,
            index <= ids.len(),
            state@.groups.contains_key(transaction_id),
            state@.groups[transaction_id] == group@,
            group.state == AtomicGroupState::Unresolved,
            outcome != AtomicGroupState::Unresolved,
            state@.group_obstacle(transaction_id, ids, outcome) == state@.group_obstacle(
                transaction_id,
                ids.skip(index as int),
                outcome,
            ),
        decreases ids.len() - index,
    {
        let batch_id: u128 = group.batch_ids[index];
        proof {
            lemma_obstacle_from(state@, transaction_id, ids, outcome, index as int);
        }
        match state.batch_of(BatchId(batch_id)) {
            None => {
                return Err(
                    EngineError::CorruptState(
                        numbered2(
                            "atomic group ",
                            transaction_id,
                            " references missing batch ",
                            batch_id,
                            "",
                        ),
                    ),
                );
            },
            Some(batch) => {
                if batch.status != BatchStatus::Unresolved {
                    return Err(EngineError::ReplicaInFlight(batch.reservation.batch_id));
                }
                if outcome == AtomicGroupState::Committed && batch.durable_replicas
                    < state.replication_policy.min_in_sync_replicas {
                    return Err(
                        EngineError::DurabilityUnavailable {
                            required_replicas: state.replication_policy.min_in_sync_replicas,
                            durable_replicas: batch.durable_replicas,
                        },
                    );
                }
            },
        }
        index += 1;
    }
    Ok(
        Planned::Journal(
            match outcome {
                AtomicGroupState::Committed => JournalEvent::GroupCommit {
                    topic_partition,
                    transaction_id,
                },
                _ => JournalEvent::GroupAbort { topic_partition, transaction_id },
            },
        ),
    )
}

/// A group without obstacles has only unresolved, retained batches.
proof fn lemma_no_obstacle(
    model: PartitionModel,
    transaction_id: u128,
    ids: Seq<u128>,
    outcome: AtomicGroupState,
)
    requires
        model.group_obstacle(transaction_id, ids, outcome) is None,
    ensures
        forall|i: int|
            0 <= i < ids.len() ==> model.retains(BatchId(#[trigger] ids[i])) && model.batch(
                BatchId(ids[i]),
            ).status == BatchStatus::Unresolved && (outcome == AtomicGroupState::Committed
                ==> model.batch(BatchId(ids[i])).durable_replicas
                >= model.policy.min_in_sync_replicas),
    decreases ids.len(),
{
    if ids.len() > 0 {
        lemma_no_obstacle(model, transaction_id, ids.skip(1), outcome);
        assert forall|i: int| 0 <= i < ids.len() implies model.retains(BatchId(#[trigger] ids[i]))
            && model.batch(BatchId(ids[i])).status == BatchStatus::Unresolved && (outcome
            == AtomicGroupState::Committed ==> model.batch(BatchId(ids[i])).durable_replicas
            >= model.policy.min_in_sync_replicas) by {
            if i > 0 {
                assert(ids.skip(1)[i - 1] == ids[i]);
            }
        }
    }
}

fn outcome_to_status(outcome: AtomicGroupState) -> (status: BatchStatus)
    ensures
        status == outcome_status(outcome),
{
    match outcome {
        AtomicGroupState::Committed => BatchStatus::Committed,
        AtomicGroupState::Aborted => BatchStatus::Aborted,
        AtomicGroupState::Unresolved => BatchStatus::Unresolved,
    }
}

/// Gives a group its outcome after the journal kept it.
pub fn apply_finalize(state: &mut PartitionState, transaction_id: u128, outcome: AtomicGroupState) -> (
result: EngineResult<AtomicGroupInspection>)
    requires
        old(state).consistent(),
        old(state)@.finalizing(transaction_id, outcome) == Ok::<
            Option<AtomicGroupInspection>,
            Fault,
        >(None),
    ensures
        final(state).consistent(),
        old(state).wf() ==> final(state).wf(),
        final(state)@ == old(state)@.finalized_as(transaction_id, outcome),
        agrees(
            result,
            old(state)@.finalized_as(transaction_id, outcome).inspected(transaction_id),
        ),
{
    let ghost before = state@;
    let ghost ids = before.groups[transaction_id].batch_ids;
    let status = outcome_to_status(outcome);
    proof {
        lemma_no_obstacle(before, transaction_id, ids, outcome);
        assert(before.with_statuses(ids.take(0), status) =~= before.batches);
    }
    if let Some(mut group) = state.atomic_groups.remove(&transaction_id) {
        let ghost held = group@;
        let mut index: usize = 0;
        while index < group.batch_ids.len()
            invariant
                before.chained(),
                ids == group.batch_ids@,
                group@ == held,
                index <= ids.len(),
                forall|i: int| 0 <= i < ids.len() ==> before.retains(BatchId(#[trigger] ids[i])),
                state.sound(),
                state@.aligned(),
                state@ == (PartitionModel {
                    batches: before.with_statuses(ids.take(index as int), status),
                    groups: before.groups.remove(transaction_id),
                    ..before
                }),
            decreases ids.len() - index,
        {
            let id = BatchId(group.batch_ids[index]);
            let ghost earlier = ids.take(index as int);
            proof {
                assert(before.retains(BatchId(ids[index as int])));
                assert(ids.take(index + 1) =~= earlier.push(id.0));
                assert forall|x: u128| #[trigger] ids.take(index + 1).contains(x)
                    <==> earlier.contains(x) || x == id.0 by {
                    if earlier.contains(x) {
                        let i = choose|i: int| 0 <= i < earlier.len() && earlier[i] == x;
                        assert(ids.take(index + 1)[i] == x);
                    }
                    assert(ids.take(index + 1)[index as int] == id.0);
                }
            }
            if let Some(held_batch) = state.batch_of(id) {
                let mut batch = held_batch;
                batch.status = status;
                state.replace_batch(id, batch);
            }
            proof {
                assert(state@.batches =~= before.with_statuses(ids.take(index + 1), status));
                assert(state@ =~= (PartitionModel {
                    batches: before.with_statuses(ids.take(index + 1), status),
                    groups: before.groups.remove(transaction_id),
                    ..before
                }));
            }
            index += 1;
        }
        group.state = outcome;
        let ghost decided = group@;
        let ghost others = state@.groups;
        state.atomic_groups.insert(transaction_id, group);
        proof {
            assert(ids.take(index as int) =~= ids);
            assert(decided == (GroupModel { state: outcome, ..before.groups[transaction_id] }));
            assert(state@.groups =~= others.insert(transaction_id, decided));
            assert(state@.groups =~= before.groups.insert(
                transaction_id,
                GroupModel { state: outcome, ..before.groups[transaction_id] },
            ));
        }
    }
    state.finalized_groups.insert(transaction_id, outcome);
    let ghost changed = state@;
    state.advance_cached_watermarks();
    proof {
        assert forall|mark: Mark| #[trigger] eases(before.batches, changed.batches, mark) by {
            assert forall|i: int| 0 <= i < before.batches.len() implies {
                &&& (#[trigger] changed.batches[i]).reservation == before.batches[i].reservation
                &&& mark.passes(before.batches[i]) ==> mark.passes(changed.batches[i])
            } by {
                let id = (before.first_batch + i) as u128;
                if ids.contains(id) {
                    let k = choose|k: int| 0 <= k < ids.len() && ids[k] == id;
                    assert(before.batch(BatchId(ids[k])) == before.batches[i]);
                }
            }
        }
        if before.settled() {
            lemma_advance_settles(before, changed);
        }
    }
    inspect_atomic_group(state, transaction_id)
}

/// Checks a change of the replication policy.
pub fn plan_policy(
    state: &PartitionState,
    topic_partition: TopicPartition,
    expected_policy_generation: u64,
    replication_policy: PartitionReplicationPolicy,
) -> (result: EngineResult<Planned<()>>)
    requires
        state.sound(),
    ensures
        match result {
            Ok(Planned::Done(())) => state@.policy_change(
                expected_policy_generation,
                replication_policy,
            ) == Ok::<bool, Fault>(false),
            Ok(Planned::Journal(event)) => {
                &&& state@.policy_change(expected_policy_generation, replication_policy) == Ok::<
                    bool,
                    Fault,
                >(true)
                &&& event == (JournalEvent::UpdateReplicationPolicy {
                    topic_partition,
                    expected_policy_generation,
                    policy_generation: replication_policy.policy_generation,
                    replication_factor: replication_policy.replication_factor,
                    min_in_sync_replicas: replication_policy.min_in_sync_replicas,
                })
            },
            Err(error) => state@.policy_change(expected_policy_generation, replication_policy)
                == Err::<bool, Fault>(error@),
        },
{
    if state.replication_policy == replication_policy {
        return Ok(Planned::Done(()));
    }
    if state.replication_policy.policy_generation != expected_policy_generation {
        return Err(
            EngineError::Fenced(
                numbered2(
                    "replication policy generation changed from expected ",
                    expected_policy_generation as u128,
                    " to ",
                    state.replication_policy.policy_generation as u128,
                    "",
                ),
            ),
        );
    }
    if replication_policy.policy_generation <= expected_policy_generation {
        return Err(invalid_config("replication policy generation must advance"));
    }
    let measured = state.compute_replicated_high_watermark(replication_policy.min_in_sync_replicas);
    let stable = state.stable.offset;
    if measured.0 < stable.0 {
        let first = state.first_batch_with_last_at_or_after(measured);
        return Err(
            EngineError::DurabilityUnavailable {
                required_replicas: replication_policy.min_in_sync_replicas,
                durable_replicas: find_shortage(
                    state,
                    first,
                    replication_policy.min_in_sync_replicas,
                ),
            },
        );
    }
    Ok(
        Planned::Journal(
            JournalEvent::UpdateReplicationPolicy {
                topic_partition,
                expected_policy_generation,
                policy_generation: replication_policy.policy_generation,
                replication_factor: replication_policy.replication_factor,
                min_in_sync_replicas: replication_policy.min_in_sync_replicas,
            },
        ),
    )
}

fn find_shortage(state: &PartitionState, first: u128, replicas: u32) -> (durable_replicas: u32)
    requires
        state.sound(),
        state@.first_batch <= first <= state@.first_batch + state@.batches.len(),
    ensures
        durable_replicas == PartitionModel::first_shortage(
            state@.batches.skip(first - state@.first_batch),
            replicas,
        ),
{
    let mut key: u128 = first;
    let ghost base = state@.first_batch;
    let ghost batches = state@.batches;
    loop
        invariant
            state.sound(),
            base == state@.first_batch,
            batches == state@.batches,
            base <= first <= base + batches.len(),
            base <= key <= base + batches.len(),
            PartitionModel::first_shortage(batches.skip(first - base), replicas)
                == PartitionModel::first_shortage(batches.skip(key - base), replicas),
        decreases base + batches.len() - key,
    {
        match state.batch_of(BatchId(key)) {
            None => {
                return 0;
            },
            Some(batch) => {
                if batch.status != BatchStatus::Aborted && batch.durable_replicas < replicas {
                    return batch.durable_replicas;
                }
                proof {
                    assert(batches.skip(key - base).skip(1) =~= batches.skip(key - base + 1));
                }
            },
        }
        key += 1;
    }
}

/// Puts a policy in force after the journal kept it.
pub fn apply_policy(state: &mut PartitionState, replication_policy: PartitionReplicationPolicy)
    requires
        old(state).consistent(),
    ensures
        final(state).wf(),
        final(state)@ == old(state)@.under_policy(replication_policy),
{
    state.replication_policy = replication_policy;
    state.reset_cached_watermarks_after_truncate();
}

/// Two batches do not start at one offset.
proof fn lemma_first_kept_unique(model: PartitionModel, log_start: LogicalOffset)
    requires
        model.chained(),
    ensures
        forall|one: u128, other: u128| #[trigger]
            model.first_kept(log_start, one) && #[trigger] model.first_kept(log_start, other) ==> one
                == other,
{
    lemma_chain_is_increasing(model);
}

/// Checks a request to remove everything below `log_start`.
pub fn plan_truncate(
    state: &PartitionState,
    topic_partition: TopicPartition,
    log_start: LogicalOffset,
) -> (result: EngineResult<Planned<PartitionWatermarks>>)
    requires
        state.sound(),
    ensures
        match result {
            Ok(Planned::Done(watermarks)) => state@.truncation(log_start) == Ok::<
                Option<u128>,
                Fault,
            >(None) && watermarks == state@.watermarks(),
            Ok(Planned::Journal(event)) => {
                &&& state@.truncation(log_start) matches Ok(Some(_))
                &&& event == (JournalEvent::Truncate { topic_partition, log_start })
            },
            Err(error) => state@.truncation(log_start) == Err::<Option<u128>, Fault>(error@),
        },
{
    let watermarks = state.watermarks();
    proof {
        lemma_first_kept_unique(state@, log_start);
    }
    if log_start.0 < state.log_start.0 {
        return Err(
            EngineError::InvalidConfig(
                numbered2(
                    "log start cannot move backward from ",
                    state.log_start.0 as u128,
                    " to ",
                    log_start.0 as u128,
                    "",
                ),
            ),
        );
    }
    if log_start.0 > state.stable.offset.0 {
        return Err(
            EngineError::InvalidConfig(
                numbered2(
                    "log start ",
                    log_start.0 as u128,
                    " exceeds last stable offset ",
                    state.stable.offset.0 as u128,
                    "",
                ),
            ),
        );
    }
    let first_retained: u128 = match find_first_kept(state, log_start) {
        Some(key) => key,
        None => {
            return Err(invalid_config("log start must align to a batch boundary"));
        },
    };
    assert(state@.first_kept(log_start, first_retained));
    if let Some(first) = state.batch_of(BatchId(first_retained)) {
        if let Some(group) = first.atomic_group {
            if group.chunk_sequence != 0 {
                return Err(invalid_config("retention cannot split an atomic group"));
            }
        }
    }
    if log_start == state.log_start {
        return Ok(Planned::Done(watermarks));
    }
    Ok(Planned::Journal(JournalEvent::Truncate { topic_partition, log_start }))
}

fn find_first_kept(state: &PartitionState, log_start: LogicalOffset) -> (key: Option<u128>)
    requires
        state.sound(),
    ensures
        match key {
            Some(k) => state@.first_kept(log_start, k),
            None => forall|k: u128| !state@.first_kept(log_start, k),
        },
{
    if log_start == state.stable.offset {
        proof {
            state.batches.lemma_wf();
        }
        Some(state.batches.next_key())
    } else {
        state.batch_key_at_first_offset(log_start)
    }
}

/// Removes everything below `log_start` after the journal kept the request.
pub fn apply_truncate(state: &mut PartitionState, log_start: LogicalOffset) -> (watermarks:
    PartitionWatermarks)
    requires
        old(state).consistent(),
        old(state)@.truncation(log_start) matches Ok(Some(_)),
    ensures
        final(state).wf(),
        old(state)@.truncation(log_start) matches Ok(Some(key)) && final(state)@ == old(
            state,
        )@.truncated(log_start, key),
        watermarks == final(state)@.watermarks(),
{
    let ghost before = state@;
    proof {
        lemma_first_kept_unique(before, log_start);
        lemma_chain_is_increasing(before);
        state.batches.lemma_wf();
    }
    if let Some(first_retained) = find_first_kept(state, log_start) {
        proof {
            assert(before.first_kept(log_start, first_retained));
            assert(before.truncation(log_start) == Ok::<Option<u128>, Fault>(
                Some(first_retained),
            ));
        }
        state.log_start = log_start;
        state.batches.truncate_before(first_retained);
        drop_groups_before(state, first_retained);
        proof {
            let after = PartitionModel {
                log_start,
                first_batch: first_retained,
                batches: before.batches.skip(first_retained - before.first_batch),
                groups: before.groups.remove_keys(
                    Set::new(
                        |id: u128|
                            before.groups.contains_key(id) && (before.groups[id].batch_ids.len()
                                == 0 || before.groups[id].batch_ids.last() < first_retained),
                    ),
                ),
                ..before
            };
            assert(state@ =~= after);
            let d = first_retained - before.first_batch;
            assert forall|i: int| 0 <= i < after.batches.len() implies #[trigger] after.batches[i]
                == before.batches[i + d] by {}
            assert forall|i: int, j: int| 0 <= i && j == i + 1 && j < after.batches.len() implies (
            #[trigger] after.batches[i]).reservation.end() == (
            #[trigger] after.batches[j]).reservation.first_offset.0 by {
                assert(before.batches[i + d].reservation.end() == before.batches[j
                    + d].reservation.first_offset.0);
            }
            assert(after.chained());
            assert(after.aligned()) by {
                if after.batches.len() > 0 {
                    assert(after.batches.last() == before.batches.last());
                }
            }
        }
        state.reset_cached_watermarks_after_truncate();
    }
    state.watermarks()
}

/// Forgets the groups whose chunks all lie before `first_retained`.
fn drop_groups_before(state: &mut PartitionState, first_retained: u128)
    ensures
        final(state)@ == (PartitionModel {
            groups: old(state)@.groups.remove_keys(
                Set::new(
                    |id: u128|
                        old(state)@.groups.contains_key(id) && (old(
                            state,
                        )@.groups[id].batch_ids.len() == 0 || old(
                            state,
                        )@.groups[id].batch_ids.last() < first_retained),
                ),
            ),
            ..old(state)@
        }),
        final(state).sequencer == old(state).sequencer,
        final(state).batches == old(state).batches,
{
    let keys = map_keys(&state.atomic_groups);
    let ghost before = state@;
    let ghost dropped = Set::new(
        |id: u128|
            before.groups.contains_key(id) && (before.groups[id].batch_ids.len() == 0
                || before.groups[id].batch_ids.last() < first_retained),
    );
    let mut index: usize = 0;
    while index < keys.len()
        invariant
            index <= keys@.len(),
            keys@.no_duplicates(),
            forall|id: u128| #[trigger] keys@.contains(id) <==> before.groups.contains_key(id),
            forall|id: u128| #[trigger]
                dropped.contains(id) <==> before.groups.contains_key(id) && (
                before.groups[id].batch_ids.len() == 0 || before.groups[id].batch_ids.last()
                    < first_retained),
            state@ == (PartitionModel { groups: state@.groups, ..before }),
            state.sequencer == old(state).sequencer,
            state.batches == old(state).batches,
            forall|id: u128| #[trigger]
                state@.groups.contains_key(id) <==> before.groups.contains_key(id) && !(
                dropped.contains(id) && keys@.take(index as int).contains(id)),
            forall|id: u128|
                state@.groups.contains_key(id) ==> #[trigger] state@.groups[id]
                    == before.groups[id],
        decreases keys@.len() - index,
    {
        let id: u128 = keys[index];
        let ghost earlier = keys@.take(index as int);
        proof {
            assert(keys@.contains(keys@[index as int]));
            assert(keys@.take(index + 1) =~= earlier.push(id));
            assert forall|x: u128| #[trigger] keys@.take(index + 1).contains(x)
                <==> earlier.contains(x) || x == id by {
                if earlier.contains(x) {
                    let i = choose|i: int| 0 <= i < earlier.len() && earlier[i] == x;
                    assert(keys@.take(index + 1)[i] == x);
                }
                assert(keys@.take(index + 1)[index as int] == id);
            }
            assert(!earlier.contains(id)) by {
                if earlier.contains(id) {
                    let i = choose|i: int| 0 <= i < earlier.len() && earlier[i] == id;
                    assert(keys@[i] == keys@[index as int]);
                }
            }
            assert(state@.groups.contains_key(id));
        }
        let ghost held = state@.groups;
        let keep = match state.atomic_groups.get(&id) {
            None => true,
            Some(group) => {
                assert(held[id] == group@);
                let chunks: usize = group.batch_ids.len();
                chunks > 0 && group.batch_ids[chunks - 1] >= first_retained
            },
        };
        if !keep {
            state.atomic_groups.remove(&id);
            proof {
                assert(state@.groups =~= held.remove(id));
            }
        }
        index += 1;
    }
    proof {
        assert(keys@.take(index as int) =~= keys@);
        assert(state@.groups =~= before.groups.remove_keys(dropped));
        assert(state@ =~= (PartitionModel {
            groups: before.groups.remove_keys(dropped),
            ..before
        }));
    }
}

impl PartitionModel {
    /// A group that has its outcome keeps it: asking for the same one again
    /// changes nothing and asking for the other one is refused.
    pub proof fn finalized_groups_keep_their_outcome(
        self,
        transaction_id: u128,
        outcome: AtomicGroupState,
        other: AtomicGroupState,
    )
        requires
            self.wf(),
            self.finalizing(transaction_id, outcome) == Ok::<Option<AtomicGroupInspection>, Fault>(
                None,
            ),
            other != AtomicGroupState::Unresolved,
        ensures
            ({
                let after = self.finalized_as(transaction_id, outcome);
                &&& other == outcome ==> after.finalizing(transaction_id, other) == (
                match after.inspected(transaction_id) {
                    Ok(inspection) => Ok::<_, Fault>(Some(inspection)),
                    Err(fault) => Err(fault),
                })
                &&& other != outcome ==> after.finalizing(transaction_id, other) == Err::<
                    Option<AtomicGroupInspection>,
                    Fault,
                >(Fault::AtomicGroupFinalized(transaction_id))
            }),
    {
    }

    /// A truncation never moves the log start back.
    pub proof fn log_start_only_advances(self, log_start: LogicalOffset)
        requires
            self.truncation(log_start) is Ok,
        ensures
            self.log_start.0 <= log_start.0,
            log_start.0 <= self.stable.offset.0,
    {
    }

    /// A truncation removes no batch that starts at or after the new log start,
    /// unless it goes up to the stable end, where it removes every batch.
    pub proof fn truncation_keeps_later_batches(self, log_start: LogicalOffset, index: int)
        requires
            self.wf(),
            self.truncation(log_start) matches Ok(Some(_)),
            log_start != self.stable.offset,
            0 <= index < self.batches.len(),
            self.batches[index].reservation.first_offset.0 >= log_start.0,
        ensures
            self.truncation(log_start) matches Ok(Some(key)) && self.truncated(
                log_start,
                key,
            ).batches.contains(self.batches[index]),
    {
        lemma_chain_is_increasing(self);
        let key = self.truncation(log_start)->Ok_0->0;
        assert(self.first_kept(log_start, key));
        let d = key - self.first_batch;
        assert(index >= d) by {
            if index < d {
                assert(self.batches[index].reservation.end()
                    <= self.batches[d].reservation.first_offset.0);
            }
        }
        assert(self.truncated(log_start, key).batches[index - d] == self.batches[index]);
    }
}

} // verus!
