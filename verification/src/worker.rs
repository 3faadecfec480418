//! Decisions of a shard worker: how long appends are gathered, what commands
//! are charged, and what comes of a group of appends.
use vstd::prelude::*;

use crate::append::{AppendDurability, AppendFailure};
use crate::channel::TrySendError;
use crate::config::COMMAND_OVERHEAD_BYTES;
use crate::error::{agrees, EngineError, EngineResult, Fault};
use crate::ids::ShardId;
use crate::protocol::StoredBatchMetadata;
use crate::time::Duration;

verus! {

/// The most appends of one group.
pub const MAX_APPEND_GROUP: usize = 128;

/// Groups smaller than this wait longer the next time.
pub const TARGET_APPEND_GROUP: usize = 8;

/// The shortest wait for more appends.
pub const MIN_APPEND_GROUP_LINGER_NANOS: u64 = 200_000;

/// After this long without a group the wait starts over.
pub const APPEND_GROUP_IDLE_RESET_NANOS: u64 = 4_000_000;

/// The most requests that one sync covers.
pub const MAX_SYNC_BATCH: usize = 8;

/// Adapts how long a worker waits for more appends to join a group.
///
/// Moments are nanoseconds of a monotonic clock.
#[derive(Debug, Clone, Copy, PartialEq, Eq, Structural)]
pub struct AppendGroupTuner {
    pub linger: Duration,
    pub min_linger: Duration,
    pub max_linger: Duration,
    pub last_group_completed: Option<u64>,
}

fn shorter(one: Duration, other: Duration) -> (shorter: Duration)
    ensures
        shorter.nanos == min_nanos(one.nanos as int, other.nanos as int),
{
    if one.nanos <= other.nanos {
        one
    } else {
        other
    }
}

pub open spec fn min_nanos(one: int, other: int) -> int {
    if one <= other {
        one
    } else {
        other
    }
}

impl AppendGroupTuner {
    /// The wait is between its bounds.
    pub open spec fn wf(self) -> bool {
        self.min_linger.nanos <= self.linger.nanos <= self.max_linger.nanos
    }

    /// No group was completed recently enough to learn from.
    pub open spec fn rested(self, now: u64) -> bool {
        match self.last_group_completed {
            None => true,
            Some(completed) => now - completed >= APPEND_GROUP_IDLE_RESET_NANOS,
        }
    }

    /// The wait after a group of this size.
    pub open spec fn learned(self, group_len: usize) -> int {
        if group_len < TARGET_APPEND_GROUP {
            min_nanos(2 * self.linger.nanos, self.max_linger.nanos as int)
        } else if group_len == MAX_APPEND_GROUP {
            if self.linger.nanos as int / 2 >= self.min_linger.nanos {
                self.linger.nanos as int / 2
            } else {
                self.min_linger.nanos as int
            }
        } else {
            self.linger.nanos as int
        }
    }

    pub fn new(max_linger: Duration) -> (tuner: Self)
        ensures
            tuner.wf(),
            tuner.max_linger == max_linger,
            tuner.min_linger.nanos == min_nanos(
                MIN_APPEND_GROUP_LINGER_NANOS as int,
                max_linger.nanos as int,
            ),
            tuner.linger == tuner.min_linger,
            tuner.last_group_completed is None,
    {
        let min_linger = shorter(Duration { nanos: MIN_APPEND_GROUP_LINGER_NANOS as u128 }, max_linger);
        AppendGroupTuner {
            linger: min_linger,
            min_linger,
            max_linger,
            last_group_completed: None,
        }
    }

    /// How long the group that starts now waits for more appends.
    pub fn begin_group(&mut self, now: u64) -> (linger: Duration)
        requires
            old(self).wf(),
        ensures
            final(self).wf(),
            *final(self) == (if old(self).rested(now) {
                AppendGroupTuner { linger: old(self).min_linger, ..*old(self) }
            } else {
                *old(self)
            }),
            linger == final(self).linger,
    {
        let rested = match self.last_group_completed {
            None => true,
            Some(completed) => now >= completed && now - completed
                >= APPEND_GROUP_IDLE_RESET_NANOS,
        };
        if rested {
            self.linger = self.min_linger;
        }
        self.linger
    }

    /// Learns from a group: a sparse one doubles the wait, a full one halves it.
    pub fn complete_group(&mut self, now: u64, group_len: usize)
        requires
            old(self).wf(),
        ensures
            final(self).wf(),
            final(self).last_group_completed == Some(now),
            final(self).min_linger == old(self).min_linger,
            final(self).max_linger == old(self).max_linger,
            final(self).linger.nanos == old(self).learned(group_len),
    {
        self.last_group_completed = Some(now);
        if group_len < TARGET_APPEND_GROUP {
            let doubled: u128 = match self.linger.nanos.checked_mul(2) {
                Some(doubled) => doubled,
                None => u128::MAX,
            };
            self.linger = shorter(Duration { nanos: doubled }, self.max_linger);
        } else if group_len == MAX_APPEND_GROUP {
            let halved: u128 = self.linger.nanos / 2;
            self.linger = if halved >= self.min_linger.nanos {
                Duration { nanos: halved }
            } else {
                self.min_linger
            };
        }
    }
}

/// The bytes that a command with a payload is charged.
pub open spec fn charge(shard_id: ShardId, bytes: nat, reason: Seq<char>) -> Result<usize, Fault> {
    if bytes + COMMAND_OVERHEAD_BYTES > usize::MAX {
        Err(Fault::AdmissionLimited { shard_id, reason })
    } else {
        Ok((bytes + COMMAND_OVERHEAD_BYTES) as usize)
    }
}

/// The charge of an append. One that cannot be charged was certainly not written.
pub fn append_charge(shard_id: ShardId, payload_len: usize) -> (result: Result<usize, AppendFailure>)
    ensures
        match (result, charge(shard_id, payload_len as nat, "append byte charge overflow"@)) {
            (Ok(bytes), Ok(expected)) => bytes == expected,
            (Err(failure), Err(fault)) => failure.error@ == fault && failure.definitely_not_written,
            _ => false,
        },
{
    match payload_len.checked_add(COMMAND_OVERHEAD_BYTES) {
        Some(bytes) => Ok(bytes),
        None => Err(
            AppendFailure::rejected(
                EngineError::AdmissionLimited { shard_id, reason: "append byte charge overflow" },
            ),
        ),
    }
}

/// The charge of planning a fetch.
pub fn fetch_plan_charge(shard_id: ShardId, max_bytes: usize) -> (result: EngineResult<usize>)
    ensures
        agrees(result, charge(shard_id, max_bytes as nat, "fetch byte charge overflow"@)),
{
    match max_bytes.checked_add(COMMAND_OVERHEAD_BYTES) {
        Some(bytes) => Ok(bytes),
        None => Err(
            EngineError::AdmissionLimited { shard_id, reason: "fetch byte charge overflow" },
        ),
    }
}

/// Payload bytes of planned batches.
pub open spec fn planned_bytes(planned: Seq<StoredBatchMetadata>) -> nat
    decreases planned.len(),
{
    if planned.len() == 0 {
        0
    } else {
        planned_bytes(planned.drop_last()) + planned.last().payload_len as nat
    }
}

proof fn lemma_planned_bytes(planned: Seq<StoredBatchMetadata>, count: int)
    requires
        0 <= count <= planned.len(),
    ensures
        planned_bytes(planned.take(count)) <= planned_bytes(planned),
    decreases planned.len() - count,
{
    if count == planned.len() {
        assert(planned.take(count) =~= planned);
    } else {
        assert(planned.take(count + 1).drop_last() =~= planned.take(count));
        lemma_planned_bytes(planned, count + 1);
    }
}

/// The charge of reading planned batches.
pub fn fetch_read_charge(shard_id: ShardId, planned: &Vec<StoredBatchMetadata>) -> (result:
    EngineResult<usize>)
    ensures
        agrees(
            result,
            charge(shard_id, planned_bytes(planned@), "fetch read byte charge overflow"@),
        ),
{
    let mut total: usize = COMMAND_OVERHEAD_BYTES;
    let mut index: usize = 0;
    while index < planned.len()
        invariant
            index <= planned@.len(),
            total == COMMAND_OVERHEAD_BYTES + planned_bytes(planned@.take(index as int)),
        decreases planned@.len() - index,
    {
        proof {
            assert(planned@.take(index + 1).drop_last() =~= planned@.take(index as int));
            lemma_planned_bytes(planned@, index + 1);
        }
        match total.checked_add(planned[index].payload_len) {
            Some(sum) => {
                total = sum;
            },
            None => {
                return Err(
                    EngineError::AdmissionLimited {
                        shard_id,
                        reason: "fetch read byte charge overflow",
                    },
                );
            },
        }
        index += 1;
    }
    proof {
        assert(planned@.take(index as int) =~= planned@);
    }
    Ok(total)
}

/// What a caller is told when a shard's queue does not take its command.
pub fn send_error<T>(shard_id: ShardId, error: &TrySendError<T>) -> (result: EngineError)
    ensures
        result@ == (match *error {
            TrySendError::TooLarge { .. } => Fault::AdmissionLimited {
                shard_id,
                reason: "command exceeds shard byte budget"@,
            },
            TrySendError::ByteBudget { .. } => Fault::AdmissionLimited {
                shard_id,
                reason: "shard byte budget exhausted"@,
            },
            TrySendError::Full(_) => Fault::AdmissionLimited {
                shard_id,
                reason: "shard slot budget exhausted"@,
            },
            TrySendError::Disconnected(_) => Fault::WorkerStopped(shard_id),
        }),
{
    match error {
        TrySendError::TooLarge { .. } => EngineError::AdmissionLimited {
            shard_id,
            reason: "command exceeds shard byte budget",
        },
        TrySendError::ByteBudget { .. } => EngineError::AdmissionLimited {
            shard_id,
            reason: "shard byte budget exhausted",
        },
        TrySendError::Full(_) => EngineError::AdmissionLimited {
            shard_id,
            reason: "shard slot budget exhausted",
        },
        TrySendError::Disconnected(_) => EngineError::WorkerStopped(shard_id),
    }
}

/// One append of a group: why it could not be prepared, if it could not, and
/// whether it waits for an object copy.
#[derive(Debug, Clone, PartialEq, Eq)]
pub struct GroupMember {
    pub prepare_error: Option<String>,
    pub object_durable: bool,
}

/// Some append of the group was prepared.
pub open spec fn any_prepared(members: Seq<GroupMember>) -> bool {
    exists|i: int| 0 <= i < members.len() && (#[trigger] members[i]).prepare_error is None
}

/// Whether there is anything to write.
pub fn has_prepared(members: &Vec<GroupMember>) -> (has: bool)
    ensures
        has == any_prepared(members@),
{
    let mut index: usize = 0;
    while index < members.len()
        invariant
            index <= members@.len(),
            forall|i: int| 0 <= i < index ==> (#[trigger] members@[i]).prepare_error is Some,
        decreases members@.len() - index,
    {
        if members[index].prepare_error.is_none() {
            return true;
        }
        index += 1;
    }
    false
}

/// Some written append of the group waits for an object copy.
pub open spec fn wants_object(members: Seq<GroupMember>) -> bool {
    exists|i: int|
        0 <= i < members.len() && (#[trigger] members[i]).prepare_error is None
            && members[i].object_durable
}

/// Whether the group has to be sealed and offloaded before it is acknowledged.
pub fn requires_object(members: &Vec<GroupMember>) -> (requires_it: bool)
    ensures
        requires_it == wants_object(members@),
{
    let mut index: usize = 0;
    while index < members.len()
        invariant
            index <= members@.len(),
            forall|i: int|
                0 <= i < index ==> !((#[trigger] members@[i]).prepare_error is None
                    && members@[i].object_durable),
        decreases members@.len() - index,
    {
        if members[index].prepare_error.is_none() && members[index].object_durable {
            return true;
        }
        index += 1;
    }
    false
}

/// What storage did for the prepared appends of a group.
#[derive(Debug, Clone, PartialEq, Eq)]
pub struct GroupWrite {
    /// The error of the write, if it failed.
    pub write_error: Option<String>,
    /// The error of the sync, or of getting the file to be synced, if it failed.
    pub fence_error: Option<String>,
    /// Whether everything written is in object storage.
    pub offloaded: bool,
}

/// What comes of one append of a group.
pub open spec fn member_outcome(member: GroupMember, write: GroupWrite, wanted: bool) -> Result<
    AppendDurability,
    Seq<char>,
> {
    match (member.prepare_error, write.write_error, write.fence_error) {
        (Some(text), _, _) => Err(text@),
        (None, Some(text), _) => Err(text@),
        (None, None, Some(text)) => Err(text@),
        (None, None, None) => Ok(
            AppendDurability { durable_replicas: 1, object_durable: wanted && write.offloaded },
        ),
    }
}

/// An outcome is the one that is expected.
pub open spec fn outcome_is(
    outcome: Result<AppendDurability, String>,
    expected: Result<AppendDurability, Seq<char>>,
) -> bool {
    match (outcome, expected) {
        (Ok(one), Ok(other)) => one == other,
        (Err(one), Err(other)) => one@ == other,
        _ => false,
    }
}

/// What comes of each append of a group: an append that could not be prepared
/// fails alone, a failed write or fence fails all that were prepared, and an
/// object copy counts for all of them when one of them asked for it.
pub fn group_outcomes(members: &Vec<GroupMember>, write: &GroupWrite) -> (outcomes: Vec<
    Result<AppendDurability, String>,
>)
    ensures
        outcomes@.len() == members@.len(),
        forall|i: int|
            0 <= i < members@.len() ==> outcome_is(
                #[trigger] outcomes@[i],
                member_outcome(members@[i], *write, wants_object(members@)),
            ),
{
    let wanted = requires_object(members);
    let mut outcomes: Vec<Result<AppendDurability, String>> = Vec::new();
    let mut index: usize = 0;
    while index < members.len()
        invariant
            index <= members@.len(),
            wanted == wants_object(members@),
            outcomes@.len() == index,
            forall|i: int|
                0 <= i < index ==> outcome_is(
                    #[trigger] outcomes@[i],
                    member_outcome(members@[i], *write, wanted),
                ),
        decreases members@.len() - index,
    {
        let outcome = match &members[index].prepare_error {
            Some(text) => Err(text.clone()),
            None => match &write.write_error {
                Some(text) => Err(text.clone()),
                None => match &write.fence_error {
                    Some(text) => Err(text.clone()),
                    None => Ok(
                        AppendDurability {
                            durable_replicas: 1,
                            object_durable: wanted && write.offloaded,
                        },
                    ),
                },
            },
        };
        outcomes.push(outcome);
        index += 1;
    }
    outcomes
}

/// A failed sync turns every success of the group into that failure.
pub fn fail_durable_outcomes(
    outcomes: &Vec<Result<AppendDurability, String>>,
    error: &String,
) -> (failed: Vec<Result<AppendDurability, String>>)
    ensures
        failed@.len() == outcomes@.len(),
        forall|i: int|
            0 <= i < outcomes@.len() ==> outcome_is(
                #[trigger] failed@[i],
                Err(
                    match outcomes@[i] {
                        Ok(_) => error@,
                        Err(text) => text@,
                    },
                ),
            ),
{
    let mut failed: Vec<Result<AppendDurability, String>> = Vec::new();
    let mut index: usize = 0;
    while index < outcomes.len()
        invariant
            index <= outcomes@.len(),
            failed@.len() == index,
            forall|i: int|
                0 <= i < index ==> outcome_is(
                    #[trigger] failed@[i],
                    Err(
                        match outcomes@[i] {
                            Ok(_) => error@,
                            Err(text) => text@,
                        },
                    ),
                ),
        decreases outcomes@.len() - index,
    {
        let text = match &outcomes[index] {
            Ok(_) => error.clone(),
            Err(text) => text.clone(),
        };
        failed.push(Err(text));
        index += 1;
    }
    failed
}

/// Whether a sync batch takes one more request: it has room and does not end
/// in a barrier, which is a request without appends.
pub fn sync_batch_open(requests: usize, last_is_barrier: bool, last_is_first: bool) -> (open: bool)
    ensures
        open == (requests < MAX_SYNC_BATCH && (last_is_first || !last_is_barrier)),
{
    requests < MAX_SYNC_BATCH && (last_is_first || !last_is_barrier)
}

} // verus!
