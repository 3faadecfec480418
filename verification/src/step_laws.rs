//! What sequencers, workers and followers do from one step to the next.
use vstd::prelude::*;

use crate::append::{AppendDurability, AppendFailure};
use crate::durable_apply::{Admission, DurableApplyConfig, PartitionAdmission, PendingBatch};
use crate::engine::ReplicaAppendPlan;
use crate::error::{EngineError, EngineResult};
use crate::ids::{LeaderEpoch, LogicalPartitionId, RingEpoch, ShardId, TopicId, VirtualLaneId};
use crate::protocol::{AppendResponse, ReplicaAppend};
use crate::replica_group::{received_outcome, Placed, ReplicaGroup};
use crate::sequencer::{
    validate_virtual_lanes, Reservation, SequencerError, SequencerState, TopicSequencer,
};
use crate::worker_loop::{WorkerCommand, WorkerLoop, WorkerStep};

verus! {

/// Places follow one another without a gap: the next batch starts right behind the last
/// one, has the next number and the next place in the ring's turn.
pub proof fn places_follow_one_another(
    sequencer: &mut TopicSequencer,
    record_count: u32,
    first: Reservation,
    again: &mut TopicSequencer,
    next_count: u32,
    second: Reservation,
)
    requires
        record_count > 0,
        next_count > 0,
        old(sequencer)@.next_batch_id < u128::MAX,
        call_ensures(
            TopicSequencer::reserve,
            (sequencer, record_count),
            Ok::<Reservation, SequencerError>(first),
        ),
        *old(again) == *final(sequencer),
        call_ensures(
            TopicSequencer::reserve,
            (again, next_count),
            Ok::<Reservation, SequencerError>(second),
        ),
    ensures
        first.first_offset.0 == old(sequencer)@.next_offset,
        first.record_count == record_count,
        first.last_offset.0 == first.first_offset.0 + record_count - 1,
        second.first_offset.0 == first.last_offset.0 + 1,
        second.batch_id.0 == first.batch_id.0 + 1,
        second.placement.sequence.0 == first.placement.sequence.0 + 1,
        second.placement.ring_epoch == first.placement.ring_epoch,
        second.placement.leader_epoch == first.placement.leader_epoch,
        second.topic_id == first.topic_id,
        second.partition_id == first.partition_id,
{
}

/// A new sequencer starts everything at zero, and one that was stored goes on where it
/// stopped; neither takes a ring that is empty or names a lane twice.
pub proof fn sequencers_start_and_go_on(
    topic_id: TopicId,
    partition_id: LogicalPartitionId,
    ring_epoch: RingEpoch,
    lanes: Vec<VirtualLaneId>,
    fresh: Result<TopicSequencer, SequencerError>,
    valid: Result<(), SequencerError>,
    stored: SequencerState,
    restored: Result<TopicSequencer, SequencerError>,
)
    requires
        call_ensures(TopicSequencer::new, (topic_id, partition_id, ring_epoch, lanes), fresh),
        call_ensures(validate_virtual_lanes, (&lanes,), valid),
        fresh is Ok ==> call_ensures(TopicSequencer::state, (&fresh->Ok_0,), stored),
        call_ensures(TopicSequencer::restore, (stored,), restored),
    ensures
        fresh is Ok <==> valid is Ok,
        lanes@.len() == 0 ==> fresh is Err,
        (exists|i: int, j: int|
            0 <= i < j < lanes@.len() && #[trigger] lanes@[i] == #[trigger] lanes@[j]) ==> fresh
            is Err,
        fresh is Ok ==> fresh->Ok_0@.next_offset == 0 && fresh->Ok_0@.next_batch_id == 0
            && fresh->Ok_0@.next_placement_sequence == 0 && fresh->Ok_0@.leader_epoch.0 == 0
            && fresh->Ok_0@.ring_epoch == ring_epoch && fresh->Ok_0@.virtual_lanes == lanes@,
        fresh is Ok ==> restored is Ok && restored->Ok_0@ == fresh->Ok_0@,
{
}

/// A ring is replaced only by a later one, and a leader only by one that is not older;
/// neither moves an offset or a number.
pub proof fn rings_and_leaders_only_advance(
    sequencer: &mut TopicSequencer,
    ring_epoch: RingEpoch,
    lanes: Vec<VirtualLaneId>,
    reconfigured: Result<(), SequencerError>,
    led: &mut TopicSequencer,
    leader_epoch: LeaderEpoch,
    observed: Result<(), SequencerError>,
)
    requires
        call_ensures(
            TopicSequencer::reconfigure,
            (sequencer, ring_epoch, lanes),
            reconfigured,
        ),
        call_ensures(TopicSequencer::observe_leader_epoch, (led, leader_epoch), observed),
    ensures
        reconfigured is Ok ==> ring_epoch.0 > old(sequencer)@.ring_epoch.0
            && final(sequencer)@.ring_epoch == ring_epoch && final(sequencer)@.virtual_lanes
            == lanes@,
        reconfigured is Err ==> final(sequencer)@ == old(sequencer)@,
        ring_epoch.0 <= old(sequencer)@.ring_epoch.0 ==> reconfigured
            == Err::<(), SequencerError>(
            SequencerError::StaleRingEpoch {
                current: old(sequencer)@.ring_epoch,
                proposed: ring_epoch,
            },
        ),
        final(sequencer)@.next_offset == old(sequencer)@.next_offset,
        final(sequencer)@.next_batch_id == old(sequencer)@.next_batch_id,
        final(sequencer)@.next_placement_sequence == old(sequencer)@.next_placement_sequence,
        observed is Ok <==> leader_epoch.0 >= old(led)@.leader_epoch.0,
        observed is Ok ==> final(led)@.leader_epoch == leader_epoch,
        observed is Err ==> final(led)@ == old(led)@,
        final(led)@.next_offset == old(led)@.next_offset,
        final(led)@.virtual_lanes == old(led)@.virtual_lanes,
{
}

/// A worker loses no command and keeps their order: what it takes up is what waited first,
/// and what it does not take up goes on waiting.
pub proof fn workers_keep_the_order(worker: &mut WorkerLoop, now: u64, step: WorkerStep)
    requires
        call_ensures(WorkerLoop::next, (worker, now), step),
    ensures
        step matches WorkerStep::Write(names) ==> names@ + final(worker).waiting() == old(worker).waiting(),
        step matches WorkerStep::Serve(name) ==> seq![name] + final(worker).waiting() == old(worker).waiting(),
        step is Receive ==> final(worker).waiting() == old(worker).waiting(),
        step is Receive && old(worker).group@.len() > 0 ==> now < old(worker).deadline,
        old(worker).group@.len() > 0 && now >= old(worker).deadline ==> step is Write,
{
}

/// A command that arrives waits behind all that came before it, or is served at once when
/// nothing waits; a request lets the appends before it be written first.
pub proof fn commands_wait_in_order(
    worker: &mut WorkerLoop,
    command: WorkerCommand,
    now: u64,
    step: Option<WorkerStep>,
)
    requires
        call_ensures(WorkerLoop::received, (worker, command, now), step),
    ensures
        command matches WorkerCommand::Append(name) ==> step is None && final(worker).waiting()
            == old(worker).waiting().push(name),
        command matches WorkerCommand::Request(name) ==> {
            &&& old(worker).group@.len() == 0 ==> step == Some(WorkerStep::Serve(name))
            &&& old(worker).group@.len() > 0 ==> (step matches Some(WorkerStep::Write(names))
                && names@ == old(worker).group@) && final(worker).deferred == Some(name)
        },
        command is Append && old(worker).group@.len() > 0 ==> final(worker).deadline
            == old(worker).deadline,
{
}

/// A worker whose queue is gone writes what it holds before it stops; one that merely
/// waited too long goes on.
pub proof fn workers_write_before_they_stop(
    worker: &mut WorkerLoop,
    disconnected: bool,
    step: WorkerStep,
)
    requires
        call_ensures(WorkerLoop::lapsed, (worker, disconnected), step),
    ensures
        old(worker).group@.len() > 0 ==> (step matches WorkerStep::Write(names) && names@
            == old(worker).group@),
        step is Stop <==> disconnected && old(worker).group@.len() == 0,
        final(worker).waiting().len() == 0,
{
}

/// A follower hands on what is due or past, keeps what is early together with who waits
/// for it, and refuses the rest; whatever it does, no batch that waited is lost or changed.
pub proof fn followers_keep_early_batches(
    state: &mut PartitionAdmission,
    config: DurableApplyConfig,
    batch: ReplicaAppend,
    waiter: u64,
    admission: Admission,
    other: u128,
)
    requires
        call_ensures(
            PartitionAdmission::admit_batch,
            (state, &config, batch, waiter),
            admission,
        ),
        other != batch.reservation.batch_id.0,
    ensures
        ({
            let id = batch.reservation.batch_id.0;
            &&& id <= old(state).next_batch_id <==> admission is Dispatch
            &&& admission matches Admission::Dispatch { batch: handed, waiters, in_turn } ==> handed
                == batch && waiters@ == seq![waiter] && (in_turn <==> id == old(state).next_batch_id)
            &&& admission is Buffered ==> {
                let kept = final(state).pending@[id];
                &&& final(state).pending@.contains_key(id)
                &&& kept.waiters@.last() == waiter
                &&& !old(state).pending@.contains_key(id) ==> kept.batch == batch
                    && final(state).pending_bytes == old(state).pending_bytes
                    + batch.payload@.len()
                &&& old(state).pending@.contains_key(id) ==> kept.batch
                    == old(state).pending@[id].batch && final(state).pending_bytes == old(state).pending_bytes
            }
            &&& admission matches Admission::Refused { waiter: told, .. } ==> told == waiter
                && final(state).pending@ == old(state).pending@
            &&& old(state).pending@.contains_key(other) ==> final(state).pending@.contains_key(
                other,
            ) && final(state).pending@[other] == old(state).pending@[other]
            &&& final(state).next_batch_id == old(state).next_batch_id
        }),
{
    let id = batch.reservation.batch_id.0;
    if admission is Buffered {
        assert(final(state).pending@.dom().contains(id));
    }
    if old(state).pending@.contains_key(other) {
        assert(old(state).pending@.dom().contains(other));
        assert(final(state).pending@.dom().contains(other));
    }
}

/// A batch that waited is taken when it is due, as it was kept, and leaves its room; the
/// one after it is due next.
pub proof fn due_batches_are_taken(
    state: &mut PartitionAdmission,
    config: DurableApplyConfig,
    taken: Option<PendingBatch>,
    advanced: &mut PartitionAdmission,
)
    requires
        call_ensures(PartitionAdmission::take_due, (state, &config), taken),
        call_ensures(PartitionAdmission::advance, (advanced, &config), ()),
    ensures
        taken is Some <==> old(state).pending@.contains_key(old(state).next_batch_id),
        taken matches Some(due) ==> due == old(state).pending@[old(state).next_batch_id]
            && final(state).pending_bytes + due.batch.payload@.len() == old(state).pending_bytes,
        !final(state).pending@.contains_key(old(state).next_batch_id),
        old(advanced).next_batch_id < u128::MAX ==> final(advanced).next_batch_id == old(advanced).next_batch_id + 1,
        final(advanced).pending == old(advanced).pending,
{
}

/// What storage did not answer counts as possibly written, and so does what it answered
/// with an error; only its own success counts as written.
pub proof fn unanswered_writes_stay_open(
    lane: ShardId,
    received: Option<Result<AppendDurability, EngineError>>,
    outcome: Result<AppendDurability, AppendFailure>,
)
    requires
        call_ensures(received_outcome, (lane, received), outcome),
    ensures
        outcome is Ok <==> received is Some && received->0 is Ok,
        outcome is Ok ==> outcome->Ok_0 == received->0->Ok_0,
        outcome matches Err(failure) ==> !failure.definitely_not_written,
        outcome is Err && received is Some ==> outcome->Err_0.error == received->0->Err_0,
        received is None ==> outcome->Err_0.error == EngineError::WorkerStopped(lane),
{
}

/// A repeated batch of a group is answered at once with its receipt, one without a lane
/// with its error, and any other is written; results stay in the order of the batches.
pub proof fn group_results_stay_in_order(
    group: &mut ReplicaGroup,
    plan: ReplicaAppendPlan,
    lane: EngineResult<ShardId>,
    placed: Placed,
    index: int,
)
    requires
        call_ensures(ReplicaGroup::place, (group, plan, lane), placed),
        0 <= index < old(group).results@.len(),
    ensures
        final(group).results@[index] == old(group).results@[index],
        plan matches ReplicaAppendPlan::Duplicate(response) ==> placed == Placed::Settled
            && final(group).results@.len() == old(group).results@.len() + 1
            && final(group).results@.last() == Some(
            Ok::<AppendResponse, EngineError>(response),
        ),
        plan is Reserved && lane is Ok ==> placed == Placed::Write(plan->response)
            && final(group).results@.len() == old(group).results@.len(),
        plan is Reserved && lane is Err ==> placed == Placed::Settled
            && final(group).results@.last() == Some(
            Err::<AppendResponse, EngineError>(lane->Err_0),
        ),
{
}

/// A group that is settled is answered batch by batch, in order.
pub proof fn settled_groups_are_answered_in_order(
    group: ReplicaGroup,
    results: Vec<EngineResult<AppendResponse>>,
    index: int,
)
    requires
        call_ensures(ReplicaGroup::finish, (group,), results),
        0 <= index < results@.len(),
    ensures
        results@.len() == group.results@.len(),
        group.results@[index] == Some(results@[index]),
{
}

} // verus!
