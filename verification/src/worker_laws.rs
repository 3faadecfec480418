//! What the appends of a group, and the callers of a shard worker, may count on.
use vstd::prelude::*;

use crate::append::{AppendDurability, AppendFailure};
use crate::channel::TrySendError;
use crate::config::COMMAND_OVERHEAD_BYTES;
use crate::error::{EngineError, EngineResult, Fault};
use crate::ids::ShardId;
use crate::protocol::StoredBatchMetadata;
use crate::worker::{
    append_charge, fail_durable_outcomes, fetch_plan_charge, fetch_read_charge, group_outcomes,
    has_prepared, planned_bytes, requires_object, send_error, sync_batch_open, AppendGroupTuner,
    GroupMember, GroupWrite, MAX_APPEND_GROUP, MAX_SYNC_BATCH, TARGET_APPEND_GROUP,
};

verus! {

/// An append of the group that was prepared waits for an object copy.
pub open spec fn asks_for_object(member: GroupMember) -> bool {
    member.prepare_error is None && member.object_durable
}

/// Where the write and the fence succeeded, every prepared append is told of one
/// durable copy, and of an object copy exactly when everything was offloaded and some
/// prepared append asked for one.
pub proof fn groups_share_their_object_copy(
    members: Vec<GroupMember>,
    write: GroupWrite,
    outcomes: Vec<Result<AppendDurability, String>>,
    index: int,
)
    requires
        call_ensures(group_outcomes, (&members, &write), outcomes),
        0 <= index < members@.len(),
        members@[index].prepare_error is None,
        write.write_error is None,
        write.fence_error is None,
    ensures
        outcomes@.len() == members@.len(),
        outcomes@[index] is Ok,
        outcomes@[index]->Ok_0.durable_replicas == 1,
        write.offloaded && (exists|i: int|
            0 <= i < members@.len() && asks_for_object(#[trigger] members@[i]))
            ==> outcomes@[index]->Ok_0.object_durable,
        !write.offloaded ==> !outcomes@[index]->Ok_0.object_durable,
        (forall|i: int| 0 <= i < members@.len() ==> !asks_for_object(#[trigger] members@[i]))
            ==> !outcomes@[index]->Ok_0.object_durable,
{
    assert(outcomes@[index] is Ok);
    if write.offloaded && exists|i: int|
        0 <= i < members@.len() && asks_for_object(#[trigger] members@[i]) {
        let i = choose|i: int| 0 <= i < members@.len() && asks_for_object(#[trigger] members@[i]);
        assert(members@[i].prepare_error is None && members@[i].object_durable);
    }
    if forall|i: int| 0 <= i < members@.len() ==> !asks_for_object(#[trigger] members@[i]) {
        assert forall|i: int| 0 <= i < members@.len() implies !((
        #[trigger] members@[i]).prepare_error is None && members@[i].object_durable) by {
            assert(!asks_for_object(members@[i]));
        }
    }
}

/// An append that could not be prepared fails alone, with its own error; a write or a
/// fence that failed fails every prepared append, with the error of the first of the
/// two.
pub proof fn group_failures_are_told(
    members: Vec<GroupMember>,
    write: GroupWrite,
    outcomes: Vec<Result<AppendDurability, String>>,
    index: int,
)
    requires
        call_ensures(group_outcomes, (&members, &write), outcomes),
        0 <= index < members@.len(),
    ensures
        outcomes@.len() == members@.len(),
        members@[index].prepare_error matches Some(text) ==> outcomes@[index] matches Err(told)
            && told@ == text@,
        members@[index].prepare_error is None ==> {
            &&& write.write_error matches Some(text) ==> outcomes@[index] matches Err(told)
                && told@ == text@
            &&& write.write_error is None ==> (write.fence_error matches Some(text)
                ==> outcomes@[index] matches Err(told) && told@ == text@)
        },
        outcomes@[index] is Ok <==> members@[index].prepare_error is None && write.write_error
            is None && write.fence_error is None,
{
    assert(outcomes@[index] is Ok || outcomes@[index] is Err);
}

/// A group is written when one of its appends was prepared, and offloaded before it is
/// acknowledged when one of those asks for an object copy.
pub proof fn groups_are_written_for_their_members(
    members: Vec<GroupMember>,
    has: bool,
    requires_it: bool,
)
    requires
        call_ensures(has_prepared, (&members,), has),
        call_ensures(requires_object, (&members,), requires_it),
    ensures
        forall|i: int|
            0 <= i < members@.len() && (#[trigger] members@[i]).prepare_error is None ==> has && (
            members@[i].object_durable ==> requires_it),
        requires_it ==> has,
        has ==> exists|i: int|
            0 <= i < members@.len() && (#[trigger] members@[i]).prepare_error is None,
        requires_it ==> exists|i: int|
            0 <= i < members@.len() && asks_for_object(#[trigger] members@[i]),
{
    if requires_it {
        let i = choose|i: int|
            0 <= i < members@.len() && (#[trigger] members@[i]).prepare_error is None
                && members@[i].object_durable;
        assert(asks_for_object(members@[i]));
    }
}

/// A failed sync leaves no success, tells its own error to those that had succeeded
/// and leaves earlier errors alone.
pub proof fn failed_syncs_leave_no_success(
    outcomes: Vec<Result<AppendDurability, String>>,
    error: String,
    failed: Vec<Result<AppendDurability, String>>,
    index: int,
)
    requires
        call_ensures(fail_durable_outcomes, (&outcomes, &error), failed),
        0 <= index < outcomes@.len(),
    ensures
        failed@.len() == outcomes@.len(),
        failed@[index] is Err,
        outcomes@[index] is Ok ==> failed@[index]->Err_0@ == error@,
        outcomes@[index] is Err ==> failed@[index]->Err_0@ == outcomes@[index]->Err_0@,
{
    assert(failed@[index] is Err);
}

/// A sync batch takes its first request, takes no more than its room, and takes
/// nothing behind a barrier.
pub proof fn sync_batches_end_at_barriers(
    requests: usize,
    last_is_barrier: bool,
    last_is_first: bool,
    open: bool,
)
    requires
        call_ensures(sync_batch_open, (requests, last_is_barrier, last_is_first), open),
    ensures
        requests >= MAX_SYNC_BATCH ==> !open,
        last_is_barrier && !last_is_first ==> !open,
        requests < MAX_SYNC_BATCH && !last_is_barrier ==> open,
        requests < MAX_SYNC_BATCH && last_is_first ==> open,
{
}

/// The wait for more appends stays between its bounds. A sparse group never shortens
/// it and doubles it up to the longest wait; a full one never lengthens it and halves
/// it down to the shortest; any other leaves it alone.
pub proof fn waits_adapt_within_bounds(tuner: AppendGroupTuner, group_len: usize)
    requires
        tuner.wf(),
    ensures
        ({
            let learned = tuner.learned(group_len);
            &&& tuner.min_linger.nanos <= learned <= tuner.max_linger.nanos
            &&& group_len < TARGET_APPEND_GROUP ==> tuner.linger.nanos <= learned && (learned
                == tuner.max_linger.nanos || learned == tuner.linger.nanos + tuner.linger.nanos)
            &&& group_len == MAX_APPEND_GROUP ==> learned <= tuner.linger.nanos && (learned
                == tuner.min_linger.nanos || 2 * learned == tuner.linger.nanos || 2 * learned + 1
                == tuner.linger.nanos)
            &&& TARGET_APPEND_GROUP <= group_len && group_len != MAX_APPEND_GROUP ==> learned
                == tuner.linger.nanos
        }),
{
}

/// A worker that never finished a group, or finished its last one long enough ago,
/// has rested; one that finished a group just now has not.
pub proof fn fresh_groups_are_remembered(tuner: AppendGroupTuner, completed: u64)
    requires
        tuner.last_group_completed == Some(completed),
    ensures
        !tuner.rested(completed),
        forall|now: u64, later: u64|
            now <= later && #[trigger] tuner.rested(now) ==> #[trigger] tuner.rested(later),
        (AppendGroupTuner { last_group_completed: None, ..tuner }).rested(completed),
{
}

/// An append is charged its payload and the overhead of a command, and is refused
/// only when that is more than a counter holds; then it was not written.
pub proof fn appends_are_charged_their_payload(
    shard_id: ShardId,
    payload_len: usize,
    result: Result<usize, AppendFailure>,
)
    requires
        call_ensures(append_charge, (shard_id, payload_len), result),
    ensures
        match result {
            Ok(bytes) => bytes == payload_len + COMMAND_OVERHEAD_BYTES,
            Err(failure) => {
                &&& payload_len + COMMAND_OVERHEAD_BYTES > usize::MAX
                &&& failure.definitely_not_written
                &&& failure.error@ matches Fault::AdmissionLimited { shard_id: told, .. } && told
                    == shard_id
            },
        },
{
}

/// Planning a fetch is charged what the fetch may return and the overhead of a command.
pub proof fn fetches_are_charged_their_limit(
    shard_id: ShardId,
    max_bytes: usize,
    result: EngineResult<usize>,
)
    requires
        call_ensures(fetch_plan_charge, (shard_id, max_bytes), result),
    ensures
        match result {
            Ok(bytes) => bytes == max_bytes + COMMAND_OVERHEAD_BYTES,
            Err(error) => {
                &&& max_bytes + COMMAND_OVERHEAD_BYTES > usize::MAX
                &&& error@ matches Fault::AdmissionLimited { shard_id: told, .. } && told
                    == shard_id
            },
        },
{
}

/// Reading nothing is charged the overhead of a command, and each batch more is
/// charged its payload more.
pub proof fn reads_are_charged_each_batch(
    shard_id: ShardId,
    planned: Vec<StoredBatchMetadata>,
    result: EngineResult<usize>,
    more: Vec<StoredBatchMetadata>,
    batch: StoredBatchMetadata,
    result_of_more: EngineResult<usize>,
)
    requires
        call_ensures(fetch_read_charge, (shard_id, &planned), result),
        call_ensures(fetch_read_charge, (shard_id, &more), result_of_more),
        more@ == planned@.push(batch),
    ensures
        planned@.len() == 0 ==> result == Ok::<usize, EngineError>(COMMAND_OVERHEAD_BYTES),
        result is Ok && result_of_more is Ok ==> result_of_more->Ok_0 == result->Ok_0
            + batch.payload_len,
        result is Ok && result_of_more is Err ==> result->Ok_0 + batch.payload_len > usize::MAX,
        result is Err ==> result_of_more is Err,
{
    assert(more@.drop_last() =~= planned@);
    assert(planned_bytes(more@) == planned_bytes(planned@) + batch.payload_len);
}

/// A caller whose command is not taken learns that the worker stopped exactly when the
/// queue is gone; otherwise the shard is at its limit.
pub proof fn refused_commands_name_their_shard<T>(
    shard_id: ShardId,
    error: TrySendError<T>,
    told: EngineError,
)
    requires
        call_ensures(send_error::<T>, (shard_id, &error), told),
    ensures
        error is Disconnected ==> told@ == Fault::WorkerStopped(shard_id),
        error !is Disconnected ==> (told@ matches Fault::AdmissionLimited { shard_id: at, .. }
            && at == shard_id),
        error is Full ==> told@ == (Fault::AdmissionLimited {
            shard_id,
            reason: "shard slot budget exhausted"@,
        }),
        error is ByteBudget ==> told@ == (Fault::AdmissionLimited {
            shard_id,
            reason: "shard byte budget exhausted"@,
        }),
        error is TooLarge ==> told@ == (Fault::AdmissionLimited {
            shard_id,
            reason: "command exceeds shard byte budget"@,
        }),
{
}

} // verus!
