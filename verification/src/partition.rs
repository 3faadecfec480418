//! Runtime state of one partition: its batches, watermarks and waiters.
use std::cmp::Ordering;
use std::collections::HashMap;

use vstd::prelude::*;

use crate::batch_set::CommittedBatchSet;
use crate::config::PartitionReplicationPolicy;
use crate::dense::{DenseOrderedMap, DEFAULT_SEGMENT_CAPACITY};
use crate::error::{agrees, invalid_config, EngineError, EngineResult, Fault};
use crate::ids::{BatchId, LeaderEpoch, LogicalOffset, RecordId, RingEpoch};
use crate::maps::PairMap;
use crate::protocol::{AppendResponse, AtomicGroupIdentity, PayloadDigest, ProducerIdentity};
use crate::sequencer::{Reservation, SequencerModel, TopicSequencer};

verus! {

broadcast use vstd::std_specs::hash::group_hash_axioms;

/// Where a batch stands between its reservation and its outcome.
#[derive(Debug, Clone, Copy, PartialEq, Eq, Structural)]
pub enum BatchStatus {
    Pending,
    Committed,
    Unresolved,
    Aborted,
}

/// What the coordinator knows of one batch.
#[derive(Debug, Clone, Copy, PartialEq, Eq, Structural)]
pub struct BatchRuntime {
    pub reservation: Reservation,
    pub status: BatchStatus,
    pub durable_replicas: u32,
    pub replica_acks: u64,
    pub producer: Option<ProducerIdentity>,
    pub atomic_group: Option<AtomicGroupIdentity>,
    pub payload_digest: Option<PayloadDigest>,
    pub payload_bytes: u64,
    pub object_durable: bool,
    /// The batch's identity, once it is written; zero until then.
    pub record_id: RecordId,
}

/// The outcome of an atomic group.
#[derive(Debug, Clone, Copy, PartialEq, Eq, Structural)]
pub enum AtomicGroupState {
    Unresolved,
    Committed,
    Aborted,
}

/// An atomic group's chunks and totals.
#[derive(Debug, Clone)]
pub struct AtomicGroupRuntime {
    pub state: AtomicGroupState,
    pub batch_ids: Vec<u128>,
    pub next_sequence: u64,
    pub payload_bytes: u64,
    pub record_count: u64,
}

/// An atomic group with its chunk list taken by its view.
pub ghost struct GroupModel {
    pub state: AtomicGroupState,
    pub batch_ids: Seq<u128>,
    pub next_sequence: u64,
    pub payload_bytes: u64,
    pub record_count: u64,
}

impl View for AtomicGroupRuntime {
    type V = GroupModel;

    open spec fn view(&self) -> GroupModel {
        GroupModel {
            state: self.state,
            batch_ids: self.batch_ids@,
            next_sequence: self.next_sequence,
            payload_bytes: self.payload_bytes,
            record_count: self.record_count,
        }
    }
}

/// What a producer may append next.
#[derive(Debug, Clone, Copy, PartialEq, Eq, Structural)]
pub struct ProducerCursor {
    pub epoch: u32,
    pub next_sequence: u64,
    pub failed: bool,
}

/// The receipt kept for retries of one producer sequence.
#[derive(Debug, Clone, Copy, PartialEq, Eq, Structural)]
pub struct DedupRecord {
    pub digest_algorithm: u8,
    pub payload_digest: PayloadDigest,
    pub event_id: Option<RecordId>,
    pub record_count: u32,
    pub durable_replicas: u32,
    pub object_durable: bool,
    pub response: AppendResponse,
}

#[derive(Debug, Clone, Copy, PartialEq, Eq, Structural)]
pub struct PartitionWatermarks {
    pub log_start: LogicalOffset,
    pub allocated_end: LogicalOffset,
    pub contiguous_log_end: LogicalOffset,
    pub replicated_high_watermark: LogicalOffset,
    pub last_stable_offset: LogicalOffset,
}

#[derive(Debug, Clone, Copy, PartialEq, Eq, Structural)]
pub struct ProducerProgress {
    pub epoch: u32,
    pub next_sequence: u64,
    pub requires_new_epoch: bool,
}

#[derive(Debug, Clone, Copy, PartialEq, Eq, Structural)]
pub struct PartitionEpochs {
    pub ring_epoch: RingEpoch,
    pub leader_epoch: LeaderEpoch,
}

#[derive(Debug, Clone, Copy, PartialEq, Eq, Structural)]
pub struct AtomicGroupInspection {
    pub transaction_id: u128,
    pub state: AtomicGroupState,
    pub chunk_count: u64,
    pub record_count: u64,
    pub payload_bytes: u64,
    pub first_offset: LogicalOffset,
    pub last_offset: LogicalOffset,
}

/// How far each kind of fetch may read.
#[derive(Debug, Clone, Copy, PartialEq, Eq, Structural)]
pub struct FetchBounds {
    pub physical_end: LogicalOffset,
    pub ordered_end: LogicalOffset,
    pub replicated_end: LogicalOffset,
}

#[derive(Debug, Clone, Copy, PartialEq, Eq, Structural)]
pub enum VisibilityMode {
    Ordered,
    Replicated,
}

/// A caller that waits until everything below `through` is visible.
#[derive(Debug, Clone, Copy, PartialEq, Eq, Structural)]
pub struct Waiter {
    pub through: u64,
    pub id: u64,
}

/// A watermark: the offset it has reached and the batch it looks at next.
#[derive(Debug, Clone, Copy, PartialEq, Eq, Structural)]
pub struct Cursor {
    pub batch: u128,
    pub offset: LogicalOffset,
}

/// What a watermark waits for.
#[derive(Debug, Clone, Copy, PartialEq, Eq, Structural)]
pub enum Mark {
    /// Batches that are no longer pending.
    Contiguous,
    /// Batches with an outcome.
    Stable,
    /// Batches that are aborted, or durable on this many replicas.
    Replicated(u32),
}

impl Mark {
    /// Whether a watermark may move past a batch.
    pub open spec fn passes(self, batch: BatchRuntime) -> bool {
        match self {
            Mark::Contiguous => batch.status != BatchStatus::Pending,
            Mark::Stable => batch.status != BatchStatus::Pending && batch.status
                != BatchStatus::Unresolved,
            Mark::Replicated(replicas) => batch.status == BatchStatus::Aborted || batch.status
                != BatchStatus::Pending && batch.durable_replicas >= replicas,
        }
    }

    fn admits(self, batch: &BatchRuntime) -> (admits: bool)
        ensures
            admits == self.passes(*batch),
    {
        match self {
            Mark::Contiguous => batch.status != BatchStatus::Pending,
            Mark::Stable => batch.status != BatchStatus::Pending && batch.status
                != BatchStatus::Unresolved,
            Mark::Replicated(replicas) => batch.status == BatchStatus::Aborted || (batch.status
                != BatchStatus::Pending && batch.durable_replicas >= replicas),
        }
    }
}

/// Where a watermark comes to rest: it moves over each batch that starts at the
/// offset reached so far and that it may pass.
pub open spec fn scan(batches: Seq<BatchRuntime>, first: u128, cursor: Cursor, mark: Mark) -> Cursor
    decreases first + batches.len() - cursor.batch,
{
    if first <= cursor.batch < first + batches.len() && cursor.batch < u128::MAX {
        let batch = batches[cursor.batch - first];
        if batch.reservation.first_offset == cursor.offset && mark.passes(batch) {
            scan(
                batches,
                first,
                Cursor {
                    batch: (cursor.batch + 1) as u128,
                    offset: LogicalOffset(batch.reservation.end() as u64),
                },
                mark,
            )
        } else {
            cursor
        }
    } else {
        cursor
    }
}

/// How many of the first waiters need no more than `visible`.
pub open spec fn ripe(waiters: Seq<Waiter>, visible: u64) -> nat
    decreases waiters.len(),
{
    if waiters.len() > 0 && waiters[0].through <= visible {
        1 + ripe(waiters.skip(1), visible)
    } else {
        0
    }
}

/// The waiters with one more among them, behind those that need no more than it.
pub open spec fn queued(waiters: Seq<Waiter>, waiter: Waiter) -> Seq<Waiter> {
    let n = ripe(waiters, waiter.through) as int;
    waiters.take(n).push(waiter) + waiters.skip(n)
}

/// The names of waiters.
pub open spec fn waiter_ids(waiters: Seq<Waiter>) -> Seq<u64> {
    waiters.map_values(|waiter: Waiter| waiter.id)
}

/// Waiters stand in the order of what they wait for.
pub open spec fn waiters_sorted(waiters: Seq<Waiter>) -> bool {
    forall|i: int, j: int|
        0 <= i <= j < waiters.len() ==> (#[trigger] waiters[i]).through <= (
        #[trigger] waiters[j]).through
}

/// The lower of two offsets.
pub open spec fn lower(a: LogicalOffset, b: LogicalOffset) -> LogicalOffset {
    if a.0 <= b.0 {
        a
    } else {
        b
    }
}

/// Everything a coordinator knows of one partition.
#[verifier::ext_equal]
pub ghost struct PartitionModel {
    pub sequencer: SequencerModel,
    pub log_start: LogicalOffset,
    /// Number of the first retained batch.
    pub first_batch: u128,
    /// Retained batches, in the order of their numbers.
    pub batches: Seq<BatchRuntime>,
    pub policy: PartitionReplicationPolicy,
    pub contiguous: Cursor,
    pub stable: Cursor,
    pub replicated: Cursor,
    pub groups: Map<u128, GroupModel>,
    pub finalized: Map<u128, AtomicGroupState>,
    pub producers: Map<u128, ProducerCursor>,
    pub dedup: Map<(u128, u128), DedupRecord>,
    pub ordered_waiters: Seq<Waiter>,
    pub replicated_waiters: Seq<Waiter>,
    /// Waiters whose wait is over, oldest first.
    pub ready: Seq<u64>,
}

impl PartitionModel {
    /// Retained batches are numbered densely and tile a run of offsets that
    /// does not start below the log start.
    pub open spec fn chained(self) -> bool {
        &&& self.first_batch + self.batches.len() <= u128::MAX
        &&& forall|i: int|
            0 <= i < self.batches.len() ==> {
                &&& (#[trigger] self.batches[i]).reservation.spans()
                &&& self.batches[i].reservation.batch_id.0 == self.first_batch + i
            }
        &&& forall|i: int, j: int|
            0 <= i && j == i + 1 && j < self.batches.len() ==> (
            #[trigger] self.batches[i]).reservation.end() == (
            #[trigger] self.batches[j]).reservation.first_offset.0
        &&& self.batches.len() > 0 ==> self.log_start.0
            <= self.batches[0].reservation.first_offset.0
        &&& waiters_sorted(self.ordered_waiters)
        &&& waiters_sorted(self.replicated_waiters)
    }

    /// The retained batches end where the sequencer goes on.
    pub open spec fn aligned(self) -> bool {
        &&& self.first_batch + self.batches.len() == self.sequencer.next_batch_id
        &&& self.log_start.0 <= self.sequencer.next_offset
        &&& self.batches.len() > 0 ==> self.batches.last().reservation.end()
            == self.sequencer.next_offset
        &&& self.contiguous.offset.0 <= self.sequencer.next_offset
        &&& self.stable.offset.0 <= self.sequencer.next_offset
        &&& self.replicated.offset.0 <= self.sequencer.next_offset
    }

    pub open spec fn wf(self) -> bool {
        self.chained() && self.aligned() && self.settled()
    }

    pub open spec fn retains(self, batch_id: BatchId) -> bool {
        self.first_batch <= batch_id.0 < self.first_batch + self.batches.len()
    }

    pub open spec fn batch(self, batch_id: BatchId) -> BatchRuntime {
        self.batches[batch_id.0 - self.first_batch]
    }

    /// The state with one batch replaced.
    pub open spec fn with_batch(self, batch_id: BatchId, batch: BatchRuntime) -> PartitionModel {
        PartitionModel {
            batches: self.batches.update(batch_id.0 - self.first_batch, batch),
            ..self
        }
    }

    /// The end of what replicated reads see.
    pub open spec fn replicated_end(self) -> LogicalOffset {
        lower(self.replicated.offset, self.stable.offset)
    }

    /// The state with every watermark at rest and ripe waiters released.
    pub open spec fn advanced(self) -> PartitionModel {
        let moved = PartitionModel {
            contiguous: scan(self.batches, self.first_batch, self.contiguous, Mark::Contiguous),
            stable: scan(self.batches, self.first_batch, self.stable, Mark::Stable),
            replicated: scan(
                self.batches,
                self.first_batch,
                self.replicated,
                Mark::Replicated(self.policy.min_in_sync_replicas),
            ),
            ..self
        };
        let ordered = ripe(self.ordered_waiters, moved.stable.offset.0) as int;
        let replicated = ripe(self.replicated_waiters, moved.replicated_end().0) as int;
        PartitionModel {
            ordered_waiters: self.ordered_waiters.skip(ordered),
            replicated_waiters: self.replicated_waiters.skip(replicated),
            ready: self.ready + waiter_ids(self.ordered_waiters.take(ordered)) + waiter_ids(
                self.replicated_waiters.take(replicated),
            ),
            ..moved
        }
    }

    /// The state with every watermark measured anew from the log start.
    pub open spec fn remeasured(self) -> PartitionModel {
        let start = Cursor { batch: self.first_batch, offset: self.log_start };
        PartitionModel { contiguous: start, stable: start, replicated: start, ..self }.advanced()
    }

    /// The watermark that a mark has when measured from the log start.
    pub open spec fn measured(self, mark: Mark) -> Cursor {
        scan(
            self.batches,
            self.first_batch,
            Cursor { batch: self.first_batch, offset: self.log_start },
            mark,
        )
    }

    /// Every cached watermark is the one that a fresh measurement gives.
    pub open spec fn settled(self) -> bool {
        &&& self.contiguous == self.measured(Mark::Contiguous)
        &&& self.stable == self.measured(Mark::Stable)
        &&& self.replicated == self.measured(Mark::Replicated(self.policy.min_in_sync_replicas))
    }

    pub open spec fn watermarks(self) -> PartitionWatermarks {
        PartitionWatermarks {
            log_start: self.log_start,
            allocated_end: LogicalOffset(self.sequencer.next_offset),
            contiguous_log_end: self.contiguous.offset,
            replicated_high_watermark: self.replicated.offset,
            last_stable_offset: self.stable.offset,
        }
    }

    /// How many retained batches end below an offset.
    pub open spec fn batches_below(self, offset: LogicalOffset) -> nat {
        batches_below(self.batches, offset)
    }
}

/// How many of the first batches end below an offset.
pub open spec fn batches_below(batches: Seq<BatchRuntime>, offset: LogicalOffset) -> nat
    decreases batches.len(),
{
    if batches.len() > 0 && batches[0].reservation.last_offset.0 < offset.0 {
        1 + batches_below(batches.skip(1), offset)
    } else {
        0
    }
}

/// A partition of which nothing has been written yet.
pub open spec fn empty_partition(
    sequencer: SequencerModel,
    policy: PartitionReplicationPolicy,
) -> PartitionModel {
    let start = Cursor { batch: 0, offset: LogicalOffset(0) };
    PartitionModel {
        sequencer,
        log_start: LogicalOffset(0),
        first_batch: 0,
        batches: Seq::empty(),
        policy,
        contiguous: start,
        stable: start,
        replicated: start,
        groups: Map::empty(),
        finalized: Map::empty(),
        producers: Map::empty(),
        dedup: Map::empty(),
        ordered_waiters: Seq::empty(),
        replicated_waiters: Seq::empty(),
        ready: Seq::empty(),
    }
}

/// The state of one partition.
#[derive(Debug)]
pub struct PartitionState {
    pub sequencer: TopicSequencer,
    pub log_start: LogicalOffset,
    pub batches: DenseOrderedMap<BatchRuntime, DEFAULT_SEGMENT_CAPACITY>,
    pub replication_policy: PartitionReplicationPolicy,
    pub contiguous: Cursor,
    pub stable: Cursor,
    pub replicated: Cursor,
    pub atomic_groups: HashMap<u128, AtomicGroupRuntime>,
    pub finalized_groups: HashMap<u128, AtomicGroupState>,
    pub producers: HashMap<u128, ProducerCursor>,
    pub dedup: PairMap<DedupRecord>,
    pub ordered_waiters: Vec<Waiter>,
    pub replicated_waiters: Vec<Waiter>,
    pub ready: Vec<u64>,
}

/// Atomic groups with their chunk lists taken by their views.
pub open spec fn group_models(groups: Map<u128, AtomicGroupRuntime>) -> Map<u128, GroupModel> {
    groups.map_values(|group: AtomicGroupRuntime| group@)
}

impl View for PartitionState {
    type V = PartitionModel;

    open spec fn view(&self) -> PartitionModel {
        PartitionModel {
            sequencer: self.sequencer@,
            log_start: self.log_start,
            first_batch: self.batches.spec_first_key(),
            batches: self.batches@,
            policy: self.replication_policy,
            contiguous: self.contiguous,
            stable: self.stable,
            replicated: self.replicated,
            groups: group_models(self.atomic_groups@),
            finalized: self.finalized_groups@,
            producers: self.producers@,
            dedup: self.dedup@,
            ordered_waiters: self.ordered_waiters@,
            replicated_waiters: self.replicated_waiters@,
            ready: self.ready@,
        }
    }
}

proof fn lemma_ripe(waiters: Seq<Waiter>, visible: u64, n: int)
    requires
        0 <= n <= waiters.len(),
        forall|i: int| 0 <= i < n ==> (#[trigger] waiters[i]).through <= visible,
        n < waiters.len() ==> waiters[n].through > visible,
    ensures
        ripe(waiters, visible) == n,
    decreases n,
{
    if n > 0 {
        assert(waiters[0].through <= visible);
        assert forall|i: int| 0 <= i < n - 1 implies (#[trigger] waiters.skip(1)[i]).through
            <= visible by {
            assert(waiters[i + 1].through <= visible);
        }
        lemma_ripe(waiters.skip(1), visible, n - 1);
    }
}

/// What `ripe` counts.
pub proof fn lemma_ripe_splits(waiters: Seq<Waiter>, visible: u64)
    requires
        waiters_sorted(waiters),
    ensures
        ripe(waiters, visible) <= waiters.len(),
        forall|i: int|
            0 <= i < waiters.len() ==> ((#[trigger] waiters[i]).through <= visible <==> i < ripe(
                waiters,
                visible,
            )),
    decreases waiters.len(),
{
    if waiters.len() > 0 && waiters[0].through <= visible {
        let rest = waiters.skip(1);
        assert(waiters_sorted(rest)) by {
            assert forall|i: int, j: int| 0 <= i <= j < rest.len() implies (
            #[trigger] rest[i]).through <= (#[trigger] rest[j]).through by {
                assert(waiters[i + 1].through <= waiters[j + 1].through);
            }
        }
        lemma_ripe_splits(rest, visible);
        assert forall|i: int| 0 <= i < waiters.len() implies ((#[trigger] waiters[i]).through
            <= visible <==> i < ripe(waiters, visible)) by {
            if i > 0 {
                assert(rest[i - 1] == waiters[i]);
            }
        }
    } else if waiters.len() > 0 {
        assert forall|i: int| 0 <= i < waiters.len() implies (#[trigger] waiters[i]).through
            > visible by {
            assert(waiters[0].through <= waiters[i].through);
        }
    }
}

/// Moves the waiters that need no more than `visible` to `ready`.
fn release_waiters(waiters: &mut Vec<Waiter>, ready: &mut Vec<u64>, visible: LogicalOffset)
    requires
        waiters_sorted(old(waiters)@),
    ensures
        final(waiters)@ == old(waiters)@.skip(ripe(old(waiters)@, visible.0) as int),
        final(ready)@ == old(ready)@ + waiter_ids(
            old(waiters)@.take(ripe(old(waiters)@, visible.0) as int),
        ),
        waiters_sorted(final(waiters)@),
{
    let ghost all = waiters@;
    let ghost released = ready@;
    let mut count: usize = 0;
    while count < waiters.len() && waiters[count].through <= visible.0
        invariant
            waiters@ == all,
            count <= all.len(),
            forall|i: int| 0 <= i < count ==> (#[trigger] all[i]).through <= visible.0,
            ready@ == released + waiter_ids(all.take(count as int)),
        decreases all.len() - count,
    {
        ready.push(waiters[count].id);
        proof {
            assert(all.take(count + 1) =~= all.take(count as int).push(all[count as int]));
            assert(waiter_ids(all.take(count + 1)) =~= waiter_ids(all.take(count as int)).push(
                all[count as int].id,
            ));
            assert(ready@ =~= released + waiter_ids(all.take(count + 1)));
        }
        count += 1;
    }
    proof {
        lemma_ripe(all, visible.0, count as int);
        assert(released + waiter_ids(all.take(0)) =~= released);
    }
    let rest = waiters.split_off(count);
    *waiters = rest;
    proof {
        assert(waiters@ =~= all.skip(count as int));
        assert forall|i: int, j: int| 0 <= i <= j < waiters@.len() implies (
        #[trigger] waiters@[i]).through <= (#[trigger] waiters@[j]).through by {
            assert(all[i + count].through <= all[j + count].through);
        }
    }
}

/// Puts a waiter behind those that need no more than it.
fn enqueue_waiter(waiters: &mut Vec<Waiter>, waiter: Waiter)
    requires
        waiters_sorted(old(waiters)@),
    ensures
        final(waiters)@ == queued(old(waiters)@, waiter),
        waiters_sorted(final(waiters)@),
{
    let ghost all = waiters@;
    let mut position: usize = 0;
    while position < waiters.len() && waiters[position].through <= waiter.through
        invariant
            waiters@ == all,
            position <= all.len(),
            forall|i: int| 0 <= i < position ==> (#[trigger] all[i]).through <= waiter.through,
        decreases all.len() - position,
    {
        position += 1;
    }
    proof {
        lemma_ripe(all, waiter.through, position as int);
        lemma_ripe_splits(all, waiter.through);
    }
    waiters.insert(position, waiter);
    proof {
        assert(waiters@ =~= queued(all, waiter));
        assert forall|i: int, j: int| 0 <= i <= j < waiters@.len() implies (
        #[trigger] waiters@[i]).through <= (#[trigger] waiters@[j]).through by {
            let a = if i < position {
                i
            } else {
                i - 1
            };
            let b = if j < position {
                j
            } else {
                j - 1
            };
            if i != position && j != position {
                assert(all[a].through <= all[b].through);
            }
        }
    }
}

impl PartitionState {
    /// The parts of the state are each consistent.
    pub open spec fn sound(self) -> bool {
        &&& self.sequencer.wf()
        &&& self.batches.wf()
        &&& self@.chained()
    }

    /// The parts of the state fit together: the sequencer goes on where the batches end.
    pub open spec fn consistent(self) -> bool {
        self.sound() && self@.aligned()
    }

    /// The state is consistent and every watermark is where a fresh measurement
    /// would put it.
    pub open spec fn wf(self) -> bool {
        self.consistent() && self@.settled()
    }

    /// A partition of which nothing has been written yet.
    pub fn empty(sequencer: TopicSequencer, replication_policy: PartitionReplicationPolicy) -> (state:
        Self)
        requires
            sequencer.wf(),
        ensures
            state.sound(),
            sequencer@.next_batch_id == 0 ==> state.wf(),
            state@.ready.len() == 0,
            state@ == empty_partition(sequencer@, replication_policy),
            state@.settled(),
    {
        let start = Cursor { batch: 0, offset: LogicalOffset(0) };
        let state = PartitionState {
            sequencer,
            log_start: LogicalOffset(0),
            batches: DenseOrderedMap::new(0),
            replication_policy,
            contiguous: start,
            stable: start,
            replicated: start,
            atomic_groups: HashMap::new(),
            finalized_groups: HashMap::new(),
            producers: HashMap::new(),
            dedup: PairMap::new(),
            ordered_waiters: Vec::new(),
            replicated_waiters: Vec::new(),
            ready: Vec::new(),
        };
        proof {
            assert(state@ =~= empty_partition(sequencer@, replication_policy));
        }
        state
    }

    pub fn watermarks(&self) -> (watermarks: PartitionWatermarks)
        ensures
            watermarks == self@.watermarks(),
    {
        PartitionWatermarks {
            log_start: self.log_start,
            allocated_end: self.sequencer.next_offset(),
            contiguous_log_end: self.contiguous.offset,
            replicated_high_watermark: self.replicated.offset,
            last_stable_offset: self.stable.offset,
        }
    }

    fn replicated_end(&self) -> (end: LogicalOffset)
        ensures
            end == self@.replicated_end(),
    {
        if self.replicated.offset.0 <= self.stable.offset.0 {
            self.replicated.offset
        } else {
            self.stable.offset
        }
    }

    /// How far a fetch from `start_offset` may read.
    pub fn fetch_bounds(&self, start_offset: LogicalOffset) -> (result: EngineResult<FetchBounds>)
        ensures
            agrees(
                result,
                if start_offset.0 < self@.log_start.0 {
                    Err(
                        Fault::OffsetOutOfRange {
                            requested: start_offset,
                            log_start: self@.log_start,
                        },
                    )
                } else {
                    Ok(
                        FetchBounds {
                            physical_end: self@.contiguous.offset,
                            ordered_end: self@.stable.offset,
                            replicated_end: self@.replicated_end(),
                        },
                    )
                },
            ),
    {
        if start_offset.0 < self.log_start.0 {
            return Err(
                EngineError::OffsetOutOfRange {
                    requested: start_offset,
                    log_start: self.log_start,
                },
            );
        }
        Ok(
            FetchBounds {
                physical_end: self.contiguous.offset,
                ordered_end: self.stable.offset,
                replicated_end: self.replicated_end(),
            },
        )
    }

    /// Which of the candidate batches are committed, or unresolved where that is asked for.
    pub fn committed_candidates(
        &self,
        candidates: &Vec<BatchId>,
        include_unresolved: bool,
    ) -> (result: EngineResult<CommittedBatchSet>)
        requires
            self.sound(),
        ensures
            match result {
                Ok(set) => {
                    &&& !spread_exceeds(candidates@, usize::MAX as int)
                    &&& set.wf()
                    &&& forall|id: u128| #[trigger]
                        set@.contains(id) <==> candidates@.contains(BatchId(id))
                            && self@.retains(BatchId(id)) && fetchable(
                            self@.batch(BatchId(id)),
                            include_unresolved,
                        )
                },
                Err(error) => {
                    &&& spread_exceeds(candidates@, usize::MAX as int)
                    &&& error@ == Fault::InvalidConfig("fetch candidate window exceeds usize"@)
                },
            },
    {
        if candidates.len() == 0 {
            return Ok(CommittedBatchSet::new(0, 0));
        }
        let mut first: u128 = candidates[0].0;
        let mut last: u128 = candidates[0].0;
        let mut index: usize = 1;
        let ghost low: int = 0;
        let ghost high: int = 0;
        while index < candidates.len()
            invariant
                1 <= index <= candidates@.len(),
                0 <= low < index,
                0 <= high < index,
                candidates@[low].0 == first,
                candidates@[high].0 == last,
                forall|i: int| 0 <= i < index ==> first <= (#[trigger] candidates@[i]).0 <= last,
            decreases candidates@.len() - index,
        {
            let id: u128 = candidates[index].0;
            if id < first {
                first = id;
                proof {
                    low = index as int;
                }
            }
            if id > last {
                last = id;
                proof {
                    high = index as int;
                }
            }
            index += 1;
        }
        if last - first >= usize::MAX as u128 {
            proof {
                assert(candidates@[high].0 - candidates@[low].0 >= usize::MAX as int);
            }
            return Err(invalid_config("fetch candidate window exceeds usize"));
        }
        proof {
            assert forall|i: int, j: int| 0 <= i < candidates@.len() && 0 <= j
                < candidates@.len() implies (#[trigger] candidates@[i]).0 - (
            #[trigger] candidates@[j]).0 < usize::MAX as int by {}
        }
        let mut set = CommittedBatchSet::new(first, (last - first) as usize + 1);
        let mut at: usize = 0;
        while at < candidates.len()
            invariant
                self.sound(),
                at <= candidates@.len(),
                set.wf(),
                forall|i: int| 0 <= i < candidates@.len() ==> first <= (#[trigger] candidates@[i]).0
                    <= last,
                forall|id: u128| #[trigger]
                    set.covers(id) <==> first <= id < first + (last - first + 1),
                forall|id: u128| #[trigger]
                    set@.contains(id) <==> candidates@.take(at as int).contains(BatchId(id))
                        && self@.retains(BatchId(id)) && fetchable(
                        self@.batch(BatchId(id)),
                        include_unresolved,
                    ),
            decreases candidates@.len() - at,
        {
            let candidate: BatchId = candidates[at];
            let ghost before = candidates@.take(at as int);
            proof {
                self.batches.lemma_wf();
                assert(candidates@.take(at + 1) =~= before.push(candidate));
                assert(set.covers(candidate.0));
                assert forall|id: BatchId| #[trigger]
                    candidates@.take(at + 1).contains(id) <==> before.contains(id) || id
                    == candidate by {
                    if before.contains(id) {
                        let i = choose|i: int| 0 <= i < before.len() && before[i] == id;
                        assert(candidates@.take(at + 1)[i] == id);
                    }
                    assert(candidates@.take(at + 1)[at as int] == candidate);
                }
            }
            if let Some(batch) = self.batches.get(candidate.0) {
                if batch.status == BatchStatus::Committed || (include_unresolved && batch.status
                    == BatchStatus::Unresolved) {
                    set.insert(candidate);
                }
            }
            at += 1;
        }
        proof {
            assert(candidates@.take(at as int) =~= candidates@);
        }
        Ok(set)
    }

    /// Moves a watermark as far as it can go.
    fn scan_from(&self, cursor: Cursor, mark: Mark) -> (rest: Cursor)
        requires
            self.sound(),
        ensures
            rest == scan(self@.batches, self@.first_batch, cursor, mark),
    {
        let mut at: Cursor = cursor;
        proof {
            self.batches.lemma_wf();
        }
        loop
            invariant
                self.sound(),
                self.batches.spec_next_key() == self@.first_batch + self@.batches.len(),
                scan(self@.batches, self@.first_batch, at, mark) == scan(
                    self@.batches,
                    self@.first_batch,
                    cursor,
                    mark,
                ),
            ensures
                at == scan(self@.batches, self@.first_batch, cursor, mark),
            decreases self@.first_batch + self@.batches.len() - at.batch,
        {
            match self.batches.get(at.batch) {
                Some(batch) => {
                    if batch.reservation.first_offset != at.offset || !mark.admits(batch) {
                        break;
                    }
                    at = Cursor {
                        batch: at.batch + 1,
                        offset: LogicalOffset(batch.reservation.last_offset.0 + 1),
                    };
                },
                None => {
                    break;
                },
            }
        }
        at
    }

    /// Moves every watermark as far as it can go and releases ripe waiters.
    pub fn advance_cached_watermarks(&mut self)
        requires
            old(self).sound(),
        ensures
            final(self).sound(),
            old(self)@.aligned() ==> final(self)@.aligned(),
            final(self)@ == old(self)@.advanced(),
            final(self)@.batches == old(self)@.batches,
            final(self)@.log_start == old(self)@.log_start,
            final(self)@.first_batch == old(self)@.first_batch,
    {
        let ghost before = self@;
        let contiguous = self.scan_from(self.contiguous, Mark::Contiguous);
        let stable = self.scan_from(self.stable, Mark::Stable);
        let replicated = self.scan_from(
            self.replicated,
            Mark::Replicated(self.replication_policy.min_in_sync_replicas),
        );
        self.contiguous = contiguous;
        self.stable = stable;
        self.replicated = replicated;
        let replicated_end = self.replicated_end();
        release_waiters(&mut self.ordered_waiters, &mut self.ready, stable.offset);
        release_waiters(&mut self.replicated_waiters, &mut self.ready, replicated_end);
        proof {
            assert(self@ =~= before.advanced());
            if before.aligned() {
                lemma_advanced_stays_aligned(before);
            }
        }
    }

    /// Tells at once whether everything below `through` is visible; otherwise
    /// the caller is queued and shows up in `ready` when it is.
    pub fn wait_until_visible(&mut self, through: LogicalOffset, mode: VisibilityMode, id: u64) -> (
    visible: bool)
        requires
            old(self).sound(),
        ensures
            final(self).sound(),
            old(self)@.aligned() ==> final(self)@.aligned(),
            visible == (match mode {
                VisibilityMode::Ordered => old(self)@.stable.offset.0 >= through.0,
                VisibilityMode::Replicated => old(self)@.replicated_end().0 >= through.0,
            }),
            visible ==> final(self)@ == old(self)@,
            !visible ==> final(self)@ == (match mode {
                VisibilityMode::Ordered => PartitionModel {
                    ordered_waiters: queued(
                        old(self)@.ordered_waiters,
                        Waiter { through: through.0, id },
                    ),
                    ..old(self)@
                },
                VisibilityMode::Replicated => PartitionModel {
                    replicated_waiters: queued(
                        old(self)@.replicated_waiters,
                        Waiter { through: through.0, id },
                    ),
                    ..old(self)@
                },
            }),
    {
        let waiter = Waiter { through: through.0, id };
        match mode {
            VisibilityMode::Ordered => {
                if self.stable.offset.0 >= through.0 {
                    return true;
                }
                enqueue_waiter(&mut self.ordered_waiters, waiter);
            },
            VisibilityMode::Replicated => {
                if self.replicated_end().0 >= through.0 {
                    return true;
                }
                enqueue_waiter(&mut self.replicated_waiters, waiter);
            },
        }
        false
    }

    /// Hands out the waiters whose wait is over.
    pub fn take_ready(&mut self) -> (ready: Vec<u64>)
        requires
            old(self).sound(),
        ensures
            final(self).sound(),
            ready@ == old(self)@.ready,
            final(self)@ == (PartitionModel { ready: Seq::empty(), ..old(self)@ }),
    {
        let mut ready: Vec<u64> = Vec::new();
        ready.append(&mut self.ready);
        proof {
            assert(ready@ =~= old(self)@.ready);
            assert(self@ =~= (PartitionModel { ready: Seq::empty(), ..old(self)@ }));
        }
        ready
    }

    /// Measures every watermark anew from the log start.
    pub fn reset_cached_watermarks_after_truncate(&mut self)
        requires
            old(self).sound(),
        ensures
            final(self).sound(),
            old(self)@.aligned() ==> final(self)@.aligned(),
            final(self)@ == old(self)@.remeasured(),
            final(self)@.settled(),
    {
        let ghost before = self@;
        let start = Cursor { batch: self.batches.first_key(), offset: self.log_start };
        self.contiguous = start;
        self.stable = start;
        self.replicated = start;
        self.advance_cached_watermarks();
    }

    /// The replicated watermark under another replica requirement.
    pub fn compute_replicated_high_watermark(&self, min_in_sync_replicas: u32) -> (end:
        LogicalOffset)
        requires
            self.sound(),
        ensures
            end == self@.measured(Mark::Replicated(min_in_sync_replicas)).offset,
    {
        self.scan_from(
            Cursor { batch: self.batches.first_key(), offset: self.log_start },
            Mark::Replicated(min_in_sync_replicas),
        ).offset
    }

    /// The number of the first batch that ends at or after an offset.
    pub fn first_batch_with_last_at_or_after(&self, offset: LogicalOffset) -> (key: u128)
        requires
            self.sound(),
        ensures
            key == self@.first_batch + self@.batches_below(offset),
            self@.batches_below(offset) <= self@.batches.len(),
    {
        let compare = |key: u128, batch: &BatchRuntime| -> (order: Ordering)
            ensures
                order == (if batch.reservation.last_offset.0 < offset.0 {
                    Ordering::Less
                } else {
                    Ordering::Greater
                }),
            {
                if batch.reservation.last_offset.0 < offset.0 {
                    Ordering::Less
                } else {
                    Ordering::Greater
                }
            };
        let found = self.batches.binary_search_by(compare);
        proof {
            self.batches.lemma_wf();
            lemma_chain_is_increasing(self@);
        }
        match found {
            Ok(key) => key,
            Err(key) => {
                proof {
                    lemma_batches_below_at(self@, key - self@.first_batch, offset);
                }
                key
            },
        }
    }

    /// The number of the batch that starts at an offset.
    pub fn batch_key_at_first_offset(&self, offset: LogicalOffset) -> (key: Option<u128>)
        requires
            self.sound(),
        ensures
            match key {
                Some(k) => self@.starts_at(offset, k),
                None => forall|k: u128| !self@.starts_at(offset, k),
            },
    {
        let compare = |key: u128, batch: &BatchRuntime| -> (order: Ordering)
            ensures
                order == (if batch.reservation.first_offset.0 < offset.0 {
                    Ordering::Less
                } else if batch.reservation.first_offset.0 == offset.0 {
                    Ordering::Equal
                } else {
                    Ordering::Greater
                }),
            {
                if batch.reservation.first_offset.0 < offset.0 {
                    Ordering::Less
                } else if batch.reservation.first_offset.0 == offset.0 {
                    Ordering::Equal
                } else {
                    Ordering::Greater
                }
            };
        let found = self.batches.binary_search_by(compare);
        proof {
            self.batches.lemma_wf();
            lemma_chain_is_increasing(self@);
        }
        match found {
            Ok(key) => Some(key),
            Err(key) => None,
        }
    }
}

/// Whether a batch may be returned by a fetch.
pub open spec fn fetchable(batch: BatchRuntime, include_unresolved: bool) -> bool {
    batch.status == BatchStatus::Committed || include_unresolved && batch.status
        == BatchStatus::Unresolved
}

/// Two of the batch numbers lie `limit` or more apart.
pub open spec fn spread_exceeds(ids: Seq<BatchId>, limit: int) -> bool {
    exists|i: int, j: int|
        0 <= i < ids.len() && 0 <= j < ids.len() && (#[trigger] ids[i]).0 - (#[trigger] ids[j]).0
            >= limit
}

impl PartitionModel {
    /// Batch `key` is retained and starts at `offset`.
    pub open spec fn starts_at(self, offset: LogicalOffset, key: u128) -> bool {
        self.retains(BatchId(key)) && self.batch(BatchId(key)).reservation.first_offset == offset
    }
}

/// A watermark that starts below a bound stays below it while every batch ends below it.
proof fn lemma_scan_bounded(
    batches: Seq<BatchRuntime>,
    first: u128,
    cursor: Cursor,
    mark: Mark,
    bound: u64,
)
    requires
        cursor.offset.0 <= bound,
        forall|i: int| 0 <= i < batches.len() ==> (#[trigger] batches[i]).reservation.end() <= bound,
    ensures
        scan(batches, first, cursor, mark).offset.0 <= bound,
    decreases first + batches.len() - cursor.batch,
{
    if first <= cursor.batch < first + batches.len() && cursor.batch < u128::MAX {
        let batch = batches[cursor.batch - first];
        if batch.reservation.first_offset == cursor.offset && mark.passes(batch) {
            lemma_scan_bounded(
                batches,
                first,
                Cursor {
                    batch: (cursor.batch + 1) as u128,
                    offset: LogicalOffset(batch.reservation.end() as u64),
                },
                mark,
                bound,
            );
        }
    }
}

/// Watermarks of a settled state do not go past the last batch.
pub proof fn lemma_settled_within(model: PartitionModel, bound: u64)
    requires
        model.chained(),
        model.settled(),
        model.log_start.0 <= bound,
        model.batches.len() > 0 ==> model.batches.last().reservation.end() <= bound,
    ensures
        model.contiguous.offset.0 <= bound,
        model.stable.offset.0 <= bound,
        model.replicated.offset.0 <= bound,
{
    lemma_chain_is_increasing(model);
    let start = Cursor { batch: model.first_batch, offset: model.log_start };
    assert forall|i: int| 0 <= i < model.batches.len() implies (
    #[trigger] model.batches[i]).reservation.end() <= bound by {
        let n = model.batches.len() as int;
        if i < n - 1 {
            assert(model.batches[i].reservation.end()
                <= model.batches[n - 1].reservation.first_offset.0);
        }
    }
    lemma_scan_bounded(model.batches, model.first_batch, start, Mark::Contiguous, bound);
    lemma_scan_bounded(model.batches, model.first_batch, start, Mark::Stable, bound);
    lemma_scan_bounded(
        model.batches,
        model.first_batch,
        start,
        Mark::Replicated(model.policy.min_in_sync_replicas),
        bound,
    );
}

/// Moving the watermarks keeps a consistent state consistent.
pub proof fn lemma_advanced_stays_aligned(model: PartitionModel)
    requires
        model.chained(),
        model.aligned(),
    ensures
        model.advanced().aligned(),
{
    lemma_chain_is_increasing(model);
    let bound = model.sequencer.next_offset;
    assert forall|i: int| 0 <= i < model.batches.len() implies (
    #[trigger] model.batches[i]).reservation.end() <= bound by {
        let n = model.batches.len() as int;
        if i < n - 1 {
            assert(model.batches[i].reservation.end()
                <= model.batches[n - 1].reservation.first_offset.0);
        }
    }
    lemma_scan_bounded(model.batches, model.first_batch, model.contiguous, Mark::Contiguous, bound);
    lemma_scan_bounded(model.batches, model.first_batch, model.stable, Mark::Stable, bound);
    lemma_scan_bounded(
        model.batches,
        model.first_batch,
        model.replicated,
        Mark::Replicated(model.policy.min_in_sync_replicas),
        bound,
    );
}

/// Offsets increase along the chain of retained batches.
pub proof fn lemma_chain_is_increasing(model: PartitionModel)
    requires
        model.chained(),
    ensures
        forall|i: int, j: int|
            0 <= i < j < model.batches.len() ==> (#[trigger] model.batches[i]).reservation.end()
                <= (#[trigger] model.batches[j]).reservation.first_offset.0,
        forall|i: int|
            0 <= i < model.batches.len() ==> model.log_start.0 <= (
            #[trigger] model.batches[i]).reservation.first_offset.0,
{
    assert forall|i: int, j: int| 0 <= i < j < model.batches.len() implies (
    #[trigger] model.batches[i]).reservation.end() <= (
    #[trigger] model.batches[j]).reservation.first_offset.0 by {
        lemma_chain_step(model, i, j);
    }
    assert forall|i: int| 0 <= i < model.batches.len() implies model.log_start.0 <= (
    #[trigger] model.batches[i]).reservation.first_offset.0 by {
        if i > 0 {
            lemma_chain_step(model, 0, i);
        }
    }
}

proof fn lemma_chain_step(model: PartitionModel, i: int, j: int)
    requires
        model.chained(),
        0 <= i < j < model.batches.len(),
    ensures
        model.batches[i].reservation.end() <= model.batches[j].reservation.first_offset.0,
    decreases j - i,
{
    if i + 1 < j {
        lemma_chain_step(model, i, j - 1);
        assert(model.batches[j - 1].reservation.end()
            == model.batches[j].reservation.first_offset.0);
    } else {
        assert(model.batches[i].reservation.end() == model.batches[j].reservation.first_offset.0);
    }
}

proof fn lemma_batches_below_is(batches: Seq<BatchRuntime>, n: int, offset: LogicalOffset)
    requires
        0 <= n <= batches.len(),
        forall|i: int| 0 <= i < n ==> (#[trigger] batches[i]).reservation.last_offset.0 < offset.0,
        n < batches.len() ==> batches[n].reservation.last_offset.0 >= offset.0,
    ensures
        batches_below(batches, offset) == n,
    decreases n,
{
    if n > 0 {
        assert(batches[0].reservation.last_offset.0 < offset.0);
        assert forall|i: int| 0 <= i < n - 1 implies (
        #[trigger] batches.skip(1)[i]).reservation.last_offset.0 < offset.0 by {
            assert(batches[i + 1].reservation.last_offset.0 < offset.0);
        }
        lemma_batches_below_is(batches.skip(1), n - 1, offset);
    }
}

proof fn lemma_batches_below_at(model: PartitionModel, n: int, offset: LogicalOffset)
    requires
        model.chained(),
        0 <= n <= model.batches.len(),
        n > 0 ==> model.batches[n - 1].reservation.last_offset.0 < offset.0,
        n < model.batches.len() ==> model.batches[n].reservation.last_offset.0 >= offset.0,
    ensures
        model.batches_below(offset) == n,
{
    lemma_chain_is_increasing(model);
    assert forall|i: int| 0 <= i < n implies (
    #[trigger] model.batches[i]).reservation.last_offset.0 < offset.0 by {
        if i < n - 1 {
            assert(model.batches[i].reservation.end()
                <= model.batches[n - 1].reservation.first_offset.0);
        }
    }
    lemma_batches_below_is(model.batches, n, offset);
}

/// `after` holds the batches of `before` at the same places, perhaps more, and
/// a watermark may pass every batch that it could pass before.
pub open spec fn eases(before: Seq<BatchRuntime>, after: Seq<BatchRuntime>, mark: Mark) -> bool {
    &&& before.len() <= after.len()
    &&& forall|i: int|
        0 <= i < before.len() ==> {
            &&& (#[trigger] after[i]).reservation == before[i].reservation
            &&& mark.passes(before[i]) ==> mark.passes(after[i])
        }
}

/// A watermark can be moved in steps: what it passed before, it need not look at again.
pub proof fn lemma_scan_resumes(
    before: Seq<BatchRuntime>,
    after: Seq<BatchRuntime>,
    first: u128,
    cursor: Cursor,
    mark: Mark,
)
    requires
        eases(before, after, mark),
    ensures
        scan(after, first, scan(before, first, cursor, mark), mark) == scan(
            after,
            first,
            cursor,
            mark,
        ),
    decreases first + before.len() - cursor.batch,
{
    if first <= cursor.batch < first + before.len() && cursor.batch < u128::MAX {
        let batch = before[cursor.batch - first];
        assert(after[cursor.batch - first].reservation == batch.reservation);
        if batch.reservation.first_offset == cursor.offset && mark.passes(batch) {
            lemma_scan_resumes(
                before,
                after,
                first,
                Cursor {
                    batch: (cursor.batch + 1) as u128,
                    offset: LogicalOffset(batch.reservation.end() as u64),
                },
                mark,
            );
        }
    }
}

/// Where the batches of a settled state only became easier to pass, moving the
/// watermarks on settles the state again.
pub proof fn lemma_advance_settles(before: PartitionModel, after: PartitionModel)
    requires
        before.settled(),
        after.log_start == before.log_start,
        after.first_batch == before.first_batch,
        after.policy == before.policy,
        after.contiguous == before.contiguous,
        after.stable == before.stable,
        after.replicated == before.replicated,
        eases(before.batches, after.batches, Mark::Contiguous),
        eases(before.batches, after.batches, Mark::Stable),
        eases(
            before.batches,
            after.batches,
            Mark::Replicated(before.policy.min_in_sync_replicas),
        ),
    ensures
        after.advanced().settled(),
{
    let start = Cursor { batch: before.first_batch, offset: before.log_start };
    lemma_scan_resumes(before.batches, after.batches, before.first_batch, start, Mark::Contiguous);
    lemma_scan_resumes(before.batches, after.batches, before.first_batch, start, Mark::Stable);
    lemma_scan_resumes(
        before.batches,
        after.batches,
        before.first_batch,
        start,
        Mark::Replicated(before.policy.min_in_sync_replicas),
    );
}

/// Watermarks only move forward over a chain of batches.
proof fn lemma_scan_forward(model: PartitionModel, cursor: Cursor, mark: Mark)
    requires
        model.chained(),
    ensures
        cursor.offset.0 <= scan(model.batches, model.first_batch, cursor, mark).offset.0,
    decreases model.first_batch + model.batches.len() - cursor.batch,
{
    if model.first_batch <= cursor.batch < model.first_batch + model.batches.len() && cursor.batch
        < u128::MAX {
        let batch = model.batches[cursor.batch - model.first_batch];
        if batch.reservation.first_offset == cursor.offset && mark.passes(batch) {
            lemma_scan_forward(
                model,
                Cursor {
                    batch: (cursor.batch + 1) as u128,
                    offset: LogicalOffset(batch.reservation.end() as u64),
                },
                mark,
            );
        }
    }
}

/// A stricter watermark does not overtake a more lenient one.
proof fn lemma_scan_stricter(model: PartitionModel, cursor: Cursor, strict: Mark, lenient: Mark)
    requires
        model.chained(),
        forall|batch: BatchRuntime| strict.passes(batch) ==> #[trigger] lenient.passes(batch),
    ensures
        scan(model.batches, model.first_batch, cursor, strict).offset.0 <= scan(
            model.batches,
            model.first_batch,
            cursor,
            lenient,
        ).offset.0,
    decreases model.first_batch + model.batches.len() - cursor.batch,
{
    if model.first_batch <= cursor.batch < model.first_batch + model.batches.len() && cursor.batch
        < u128::MAX {
        let batch = model.batches[cursor.batch - model.first_batch];
        if batch.reservation.first_offset == cursor.offset {
            let next = Cursor {
                batch: (cursor.batch + 1) as u128,
                offset: LogicalOffset(batch.reservation.end() as u64),
            };
            if strict.passes(batch) {
                assert(lenient.passes(batch));
                lemma_scan_stricter(model, next, strict, lenient);
            } else if lenient.passes(batch) {
                lemma_scan_forward(model, next, lenient);
            }
        }
    }
}

impl PartitionModel {
    /// Watermarks are ordered: the log start, then the stable end, then the end
    /// of the contiguous log, then the end of what was given out; replicated
    /// reads never see past the stable end.
    pub proof fn watermarks_are_ordered(self)
        requires
            self.wf(),
        ensures
            ({
                let w = self.watermarks();
                &&& w.log_start.0 <= w.last_stable_offset.0
                &&& w.last_stable_offset.0 <= w.contiguous_log_end.0
                &&& w.log_start.0 <= w.replicated_high_watermark.0
                &&& w.replicated_high_watermark.0 <= w.contiguous_log_end.0
                &&& w.contiguous_log_end.0 <= w.allocated_end.0
                &&& self.replicated_end().0 <= w.last_stable_offset.0
            }),
    {
        let start = Cursor { batch: self.first_batch, offset: self.log_start };
        let replicated = Mark::Replicated(self.policy.min_in_sync_replicas);
        lemma_scan_forward(self, start, Mark::Stable);
        lemma_scan_forward(self, start, replicated);
        lemma_scan_stricter(self, start, Mark::Stable, Mark::Contiguous);
        lemma_scan_stricter(self, start, replicated, Mark::Contiguous);
    }

    /// Moving the watermarks never takes one back.
    pub proof fn watermarks_only_advance(self)
        requires
            self.chained(),
        ensures
            self.contiguous.offset.0 <= self.advanced().contiguous.offset.0,
            self.stable.offset.0 <= self.advanced().stable.offset.0,
            self.replicated.offset.0 <= self.advanced().replicated.offset.0,
    {
        lemma_scan_forward(self, self.contiguous, Mark::Contiguous);
        lemma_scan_forward(self, self.stable, Mark::Stable);
        lemma_scan_forward(
            self,
            self.replicated,
            Mark::Replicated(self.policy.min_in_sync_replicas),
        );
    }

    /// A batch without an outcome holds the stable end: in a settled state no
    /// pending or unresolved batch lies below it.
    pub proof fn open_batches_hold_the_stable_end(self, index: int)
        requires
            self.wf(),
            0 <= index < self.batches.len(),
            self.batches[index].status == BatchStatus::Pending || self.batches[index].status
                == BatchStatus::Unresolved,
        ensures
            self.stable.offset.0 <= self.batches[index].reservation.first_offset.0,
    {
        lemma_chain_is_increasing(self);
        lemma_scan_held(
            self,
            Cursor { batch: self.first_batch, offset: self.log_start },
            Mark::Stable,
            index,
        );
    }
}

/// A watermark stops at a batch that it may not pass.
pub proof fn lemma_scan_held(model: PartitionModel, cursor: Cursor, mark: Mark, index: int)
    requires
        model.chained(),
        0 <= index < model.batches.len(),
        !mark.passes(model.batches[index]),
        model.first_batch <= cursor.batch <= model.first_batch + index,
        cursor.offset.0 <= model.batches[index].reservation.first_offset.0,
    ensures
        scan(model.batches, model.first_batch, cursor, mark).offset.0
            <= model.batches[index].reservation.first_offset.0,
    decreases model.first_batch + index - cursor.batch,
{
    let at = cursor.batch - model.first_batch;
    let batch = model.batches[at];
    if batch.reservation.first_offset == cursor.offset && mark.passes(batch) {
        lemma_chain_is_increasing(model);
        lemma_scan_held(
            model,
            Cursor {
                batch: (cursor.batch + 1) as u128,
                offset: LogicalOffset(batch.reservation.end() as u64),
            },
            mark,
            index,
        );
    }
}

/// Replacing a batch by one with the same place keeps the chain.
pub proof fn lemma_with_batch_keeps(model: PartitionModel, batch_id: BatchId, batch: BatchRuntime)
    requires
        model.chained(),
        model.retains(batch_id),
        batch.reservation == model.batch(batch_id).reservation,
    ensures
        model.with_batch(batch_id, batch).chained(),
        model.aligned() ==> model.with_batch(batch_id, batch).aligned(),
{
    let after = model.with_batch(batch_id, batch);
    assert forall|i: int| 0 <= i < model.batches.len() implies (
    #[trigger] after.batches[i]).reservation == model.batches[i].reservation by {}
    assert forall|i: int, j: int| 0 <= i && j == i + 1 && j < after.batches.len() implies (
    #[trigger] after.batches[i]).reservation.end() == (
    #[trigger] after.batches[j]).reservation.first_offset.0 by {
        assert(model.batches[i].reservation.end() == model.batches[j].reservation.first_offset.0);
    }
}

impl PartitionState {
    /// Replaces a retained batch by one with the same place.
    pub fn replace_batch(&mut self, batch_id: BatchId, batch: BatchRuntime)
        requires
            old(self).sound(),
            old(self)@.retains(batch_id),
            batch.reservation == old(self)@.batch(batch_id).reservation,
        ensures
            final(self).sound(),
            old(self)@.aligned() ==> final(self)@.aligned(),
            final(self)@ == old(self)@.with_batch(batch_id, batch),
    {
        let ghost before = self@;
        proof {
            self.batches.lemma_wf();
            lemma_with_batch_keeps(before, batch_id, batch);
        }
        if let Some(held) = self.batches.get_mut(batch_id.0) {
            *held = batch;
        }
        proof {
            assert(self@ =~= before.with_batch(batch_id, batch));
        }
    }

    /// A retained batch.
    pub fn batch_of(&self, batch_id: BatchId) -> (batch: Option<BatchRuntime>)
        requires
            self.sound(),
        ensures
            match batch {
                Some(b) => self@.retains(batch_id) && b == self@.batch(batch_id),
                None => !self@.retains(batch_id),
            },
    {
        proof {
            self.batches.lemma_wf();
        }
        match self.batches.get(batch_id.0) {
            Some(batch) => Some(*batch),
            None => None,
        }
    }
}

} // verus!
