//! Fetching across shards: limits, merging of shard plans, and assembly of results.
use std::collections::VecDeque;

use vstd::prelude::*;

use crate::batch_set::CommittedBatchSet;

use crate::error::{corrupt_state, invalid_config, EngineResult, Fault};
use crate::ids::{BatchId, LogicalOffset, RecordId};

use crate::protocol::{AtomicGroupIdentity, FetchMode, StoredBatch, StoredBatchMetadata};
use crate::sequencer::Placement;

verus! {

/// The most batches that one shard plans for one fetch.
pub const MAX_FETCH_PLAN_BATCHES_PER_SHARD: usize = 4_096;

/// A batch as a reader gets it.
#[derive(Debug, Clone, PartialEq, Eq)]
pub struct FetchedBatch {
    pub batch_id: BatchId,
    /// Identity that the producer supplied for the event.
    pub event_id: Option<RecordId>,
    /// Place in an atomic group, which ordinary reads see only once it is committed.
    pub atomic_group: Option<AtomicGroupIdentity>,
    pub first_offset: LogicalOffset,
    pub last_offset: LogicalOffset,
    pub record_count: u32,
    pub payload: Vec<u8>,
    pub placement: Placement,
}

/// The plans of all shards, by shard.
pub type Plans = Seq<Seq<StoredBatchMetadata>>;

/// The views of the shards' plans.
pub open spec fn plans_of(shard_plans: Seq<Vec<StoredBatchMetadata>>) -> Plans {
    shard_plans.map_values(|plan: Vec<StoredBatchMetadata>| plan@)
}

/// Shard `lane` has a batch left at `positions`.
pub open spec fn has_next(plans: Plans, positions: Seq<int>, lane: int) -> bool {
    0 <= lane < plans.len() && 0 <= positions[lane] < plans[lane].len()
}

/// The next batch of shard `lane`.
pub open spec fn next_of(plans: Plans, positions: Seq<int>, lane: int) -> StoredBatchMetadata {
    plans[lane][positions[lane]]
}

/// Shard `one` is served before shard `other`: its next batch starts earlier,
/// or at the same offset and it has the lower number.
pub open spec fn before(plans: Plans, positions: Seq<int>, one: int, other: int) -> bool {
    let a = next_of(plans, positions, one).reservation.first_offset.0;
    let b = next_of(plans, positions, other).reservation.first_offset.0;
    a < b || a == b && one < other
}

/// The shard that is served next among those below `count`.
pub open spec fn next_lane(plans: Plans, positions: Seq<int>, count: nat) -> Option<int>
    decreases count,
{
    if count == 0 {
        None
    } else {
        let lane = count - 1;
        match next_lane(plans, positions, lane as nat) {
            None => if has_next(plans, positions, lane) {
                Some(lane)
            } else {
                None
            },
            Some(best) => if has_next(plans, positions, lane) && before(
                plans,
                positions,
                lane,
                best,
            ) {
                Some(lane)
            } else {
                Some(best)
            },
        }
    }
}

/// How many batches are left.
pub open spec fn left(plans: Plans, positions: Seq<int>, count: nat) -> nat
    decreases count,
{
    if count == 0 {
        0
    } else {
        let lane = count - 1;
        left(plans, positions, lane as nat) + if has_next(plans, positions, lane) {
            (plans[lane].len() - positions[lane]) as nat
        } else {
            0
        }
    }
}

/// The batches that a fetch takes, each with its shard: from the merged plans
/// in offset order, the visible ones up to the end of what the mode may see,
/// until the next one would exceed the budget; the first is always taken.
pub open spec fn picked(
    plans: Plans,
    positions: Seq<int>,
    mode: FetchMode,
    end: LogicalOffset,
    committed: Set<u128>,
    max_bytes: usize,
    used: nat,
    taken: Seq<(int, StoredBatchMetadata)>,
) -> Result<Seq<(int, StoredBatchMetadata)>, Fault>
    decreases left(plans, positions, plans.len()),
    when positions.len() == plans.len()
    via picked_decreases
{
    match next_lane(plans, positions, plans.len()) {
        None => Ok(taken),
        Some(lane) => {
            let batch = next_of(plans, positions, lane);
            let rest = positions.update(lane, positions[lane] + 1);
            if mode != FetchMode::AsAvailable && batch.reservation.last_offset.0 >= end.0 {
                Ok(taken)
            } else if !committed.contains(batch.reservation.batch_id.0) {
                if mode != FetchMode::AsAvailable && batch.reservation.first_offset.0 >= end.0 {
                    Ok(taken)
                } else {
                    picked(plans, rest, mode, end, committed, max_bytes, used, taken)
                }
            } else if used + batch.payload_len > usize::MAX {
                Err(Fault::InvalidConfig("selected fetch byte count overflow"@))
            } else if taken.len() > 0 && used + batch.payload_len > max_bytes {
                Ok(taken)
            } else {
                picked(
                    plans,
                    rest,
                    mode,
                    end,
                    committed,
                    max_bytes,
                    used + batch.payload_len as nat,
                    taken.push((lane, batch)),
                )
            }
        },
    }
}

#[via_fn]
proof fn picked_decreases(
    plans: Plans,
    positions: Seq<int>,
    mode: FetchMode,
    end: LogicalOffset,
    committed: Set<u128>,
    max_bytes: usize,
    used: nat,
    taken: Seq<(int, StoredBatchMetadata)>,
) {
    lemma_next_lane(plans, positions, plans.len());
    if let Some(lane) = next_lane(plans, positions, plans.len()) {
        lemma_left_shrinks(plans, positions, plans.len(), lane);
    }
}

/// What `next_lane` gives: the first of the shards that have a batch left.
pub proof fn lemma_next_lane(plans: Plans, positions: Seq<int>, count: nat)
    requires
        count <= plans.len(),
    ensures
        match next_lane(plans, positions, count) {
            None => forall|lane: int| 0 <= lane < count ==> !#[trigger] has_next(
                plans,
                positions,
                lane,
            ),
            Some(best) => 0 <= best < count && has_next(plans, positions, best) && forall|lane: int|
                0 <= lane < count && lane != best && #[trigger] has_next(plans, positions, lane)
                    ==> before(plans, positions, best, lane),
        },
    decreases count,
{
    if count > 0 {
        lemma_next_lane(plans, positions, (count - 1) as nat);
    }
}

pub proof fn lemma_left_shrinks(plans: Plans, positions: Seq<int>, count: nat, lane: int)
    requires
        count <= plans.len() == positions.len(),
        0 <= lane < plans.len(),
        has_next(plans, positions, lane),
    ensures
        ({
            let rest = positions.update(lane, positions[lane] + 1);
            left(plans, rest, count) == left(plans, positions, count) - if lane < count {
                1int
            } else {
                0int
            }
        }),
    decreases count,
{
    if count > 0 {
        lemma_left_shrinks(plans, positions, (count - 1) as nat, lane);
    }
}

/// The batches of one shard among those taken, in order.
pub open spec fn taken_from(taken: Seq<(int, StoredBatchMetadata)>, lane: int) -> Seq<
    StoredBatchMetadata,
>
    decreases taken.len(),
{
    if taken.len() == 0 {
        Seq::empty()
    } else {
        let earlier = taken_from(taken.drop_last(), lane);
        if taken.last().0 == lane {
            earlier.push(taken.last().1)
        } else {
            earlier
        }
    }
}

/// What a fetch reads from each shard and in which order the results are merged.
#[derive(Debug)]
pub struct FetchSelection {
    pub by_shard: Vec<Vec<StoredBatchMetadata>>,
    pub merge_order: Vec<usize>,
}

impl FetchSelection {
    /// The selection is made of exactly the batches taken.
    pub open spec fn selects(self, lanes: nat, taken: Seq<(int, StoredBatchMetadata)>) -> bool {
        &&& self.by_shard@.len() == lanes
        &&& forall|lane: int|
            0 <= lane < lanes ==> (#[trigger] self.by_shard@[lane])@ == taken_from(taken, lane)
        &&& self.merge_order@.len() == taken.len()
        &&& forall|i: int|
            0 <= i < taken.len() ==> #[trigger] self.merge_order@[i] == taken[i].0
        &&& forall|i: int| 0 <= i < taken.len() ==> 0 <= (#[trigger] taken[i]).0 < lanes
    }
}

fn find_next_lane(shard_plans: &Vec<Vec<StoredBatchMetadata>>, positions: &Vec<usize>) -> (lane:
    Option<usize>)
    requires
        positions@.len() == shard_plans@.len(),
    ensures
        ({
            let p = positions@.map_values(|x: usize| x as int);
            match next_lane(plans_of(shard_plans@), p, shard_plans@.len()) {
                None => lane is None,
                Some(best) => lane == Some(best as usize) && 0 <= best < shard_plans@.len(),
            }
        }),
{
    let ghost plans = plans_of(shard_plans@);
    let ghost p = positions@.map_values(|x: usize| x as int);
    let mut best: Option<usize> = None;
    let mut lane: usize = 0;
    while lane < shard_plans.len()
        invariant
            positions@.len() == shard_plans@.len(),
            plans == plans_of(shard_plans@),
            p == positions@.map_values(|x: usize| x as int),
            lane <= shard_plans@.len(),
            match next_lane(plans, p, lane as nat) {
                None => best is None,
                Some(b) => best == Some(b as usize) && 0 <= b < lane,
            },
        decreases shard_plans@.len() - lane,
    {
        proof {
            lemma_next_lane(plans, p, lane as nat);
            assert(plans[lane as int] == shard_plans@[lane as int]@);
            assert(p[lane as int] == positions@[lane as int]);
        }
        if positions[lane] < shard_plans[lane].len() {
            let offset: u64 = shard_plans[lane][positions[lane]].reservation.first_offset.0;
            match best {
                None => {
                    best = Some(lane);
                },
                Some(other) => {
                    proof {
                        assert(plans[other as int] == shard_plans@[other as int]@);
                        assert(p[other as int] == positions@[other as int]);
                        assert(has_next(plans, p, other as int));
                    }
                    let held: u64 =
                        shard_plans[other][positions[other]].reservation.first_offset.0;
                    if offset < held {
                        best = Some(lane);
                    }
                },
            }
        }
        lane += 1;
    }
    best
}

/// Chooses the batches that a fetch returns.
pub fn select_fetch_plan(
    shard_plans: &Vec<Vec<StoredBatchMetadata>>,
    mode: FetchMode,
    ordered_end: LogicalOffset,
    committed: &CommittedBatchSet,
    max_bytes: usize,
) -> (result: EngineResult<FetchSelection>)
    requires
        committed.wf(),
    ensures
        match (
            result,
            picked(
                plans_of(shard_plans@),
                Seq::new(shard_plans@.len(), |i: int| 0int),
                mode,
                ordered_end,
                committed@,
                max_bytes,
                0,
                Seq::empty(),
            ),
        ) {
            (Ok(selection), Ok(taken)) => selection.selects(shard_plans@.len(), taken),
            (Err(error), Err(fault)) => error@ == fault,
            _ => false,
        },
{
    let ghost plans = plans_of(shard_plans@);
    let lanes: usize = shard_plans.len();
    let mut positions: Vec<usize> = Vec::new();
    let mut by_shard: Vec<Vec<StoredBatchMetadata>> = Vec::new();
    let mut lane: usize = 0;
    while lane < lanes
        invariant
            lanes == shard_plans@.len(),
            lane <= lanes,
            positions@.len() == lane,
            by_shard@.len() == lane,
            forall|i: int| 0 <= i < lane ==> positions@[i] == 0,
            forall|i: int|
                0 <= i < lane ==> (#[trigger] by_shard@[i])@ == Seq::<StoredBatchMetadata>::empty(),
        decreases lanes - lane,
    {
        positions.push(0);
        by_shard.push(Vec::new());
        lane += 1;
    }
    let mut merge_order: Vec<usize> = Vec::new();
    let mut used: usize = 0;
    let ghost start = Seq::new(shard_plans@.len(), |i: int| 0int);
    let ghost mut taken: Seq<(int, StoredBatchMetadata)> = Seq::empty();
    let ghost target = picked(
        plans,
        start,
        mode,
        ordered_end,
        committed@,
        max_bytes,
        0,
        Seq::empty(),
    );
    proof {
        assert(positions@.map_values(|x: usize| x as int) =~= start);
    }
    loop
        invariant_except_break
            target == picked(
                plans,
                positions@.map_values(|x: usize| x as int),
                mode,
                ordered_end,
                committed@,
                max_bytes,
                used as nat,
                taken,
            ),
        invariant
            committed.wf(),
            plans == plans_of(shard_plans@),
            lanes == shard_plans@.len(),
            positions@.len() == lanes,
            by_shard@.len() == lanes,
            forall|i: int| 0 <= i < lanes ==> positions@[i] <= (#[trigger] plans[i]).len(),
            forall|i: int|
                0 <= i < lanes ==> (#[trigger] by_shard@[i])@ == taken_from(taken, i),
            merge_order@.len() == taken.len(),
            forall|i: int| 0 <= i < taken.len() ==> #[trigger] merge_order@[i] == taken[i].0,
            forall|i: int| 0 <= i < taken.len() ==> 0 <= (#[trigger] taken[i]).0 < lanes,
            target == picked(
                plans,
                start,
                mode,
                ordered_end,
                committed@,
                max_bytes,
                0,
                Seq::empty(),
            ),
            start == Seq::new(shard_plans@.len(), |i: int| 0int),
        ensures
            target == Ok::<Seq<(int, StoredBatchMetadata)>, Fault>(taken),
        decreases left(plans, positions@.map_values(|x: usize| x as int), plans.len()),
    {
        let ghost p = positions@.map_values(|x: usize| x as int);
        proof {
            lemma_next_lane(plans, p, plans.len());
        }
        let lane: usize = match find_next_lane(shard_plans, &positions) {
            None => {
                break;
            },
            Some(lane) => lane,
        };
        proof {
            assert(plans[lane as int] == shard_plans@[lane as int]@);
            assert(p[lane as int] == positions@[lane as int]);
            assert(has_next(plans, p, lane as int));
            lemma_left_shrinks(plans, p, plans.len(), lane as int);
        }
        let position: usize = positions[lane];
        let planned: usize = shard_plans[lane].len();
        assert(position < planned);
        let batch: StoredBatchMetadata = shard_plans[lane][position];
        positions[lane] = position + 1;
        proof {
            assert(positions@.map_values(|x: usize| x as int) =~= p.update(
                lane as int,
                p[lane as int] + 1,
            ));
        }
        if mode != FetchMode::AsAvailable && batch.reservation.last_offset.0 >= ordered_end.0 {
            break;
        }
        if !committed.contains(batch.reservation.batch_id) {
            if mode == FetchMode::AsAvailable {
                continue;
            }
            if batch.reservation.first_offset.0 >= ordered_end.0 {
                break;
            }
            continue;
        }
        let next: usize = match used.checked_add(batch.payload_len) {
            Some(next) => next,
            None => {
                return Err(invalid_config("selected fetch byte count overflow"));
            },
        };
        if merge_order.len() > 0 && next > max_bytes {
            break;
        }
        used = next;
        let ghost earlier = taken;
        by_shard[lane].push(batch);
        merge_order.push(lane);
        proof {
            taken = taken.push((lane as int, batch));
            assert(taken.drop_last() =~= earlier);
            assert forall|i: int| 0 <= i < lanes implies (#[trigger] by_shard@[i])@ == taken_from(
                taken,
                i,
            ) by {}
        }
    }
    Ok(FetchSelection { by_shard, merge_order })
}

/// The views of what the shards read.
pub open spec fn batches_of(lanes: Seq<VecDeque<StoredBatch>>) -> Seq<Seq<StoredBatch>> {
    lanes.map_values(|lane: VecDeque<StoredBatch>| lane@)
}

/// How often the lane of position `index` comes before it.
pub open spec fn earlier_uses(order: Seq<usize>, index: int) -> nat {
    uses(order.take(index), order[index] as int)
}

/// How often a lane comes in `order`.
pub open spec fn uses(order: Seq<usize>, lane: int) -> nat
    decreases order.len(),
{
    if order.len() == 0 {
        0
    } else {
        uses(order.drop_last(), lane) + if order.last() == lane {
            1nat
        } else {
            0nat
        }
    }
}

/// Position `index` of the merge order has a batch behind it.
pub open spec fn supplied(
    lanes: Seq<Seq<StoredBatch>>,
    order: Seq<usize>,
    index: int,
) -> bool {
    order[index] < lanes.len() && earlier_uses(order, index) < lanes[order[index] as int].len()
}

/// `batch` is the one behind position `index` of the merge order.
pub open spec fn supplies(
    lanes: Seq<Seq<StoredBatch>>,
    order: Seq<usize>,
    index: int,
    batch: StoredBatch,
) -> bool {
    &&& supplied(lanes, order, index)
    &&& batch == lanes[order[index] as int][earlier_uses(order, index) as int]
}

/// Merges the batches that the shards read, in the planned order.
pub fn materialize_stored_batches(lanes: Vec<VecDeque<StoredBatch>>, merge_order: &Vec<usize>) -> (
result: EngineResult<Vec<StoredBatch>>)
    ensures
        ({
            let read = batches_of(lanes@);
            let order = merge_order@;
            match result {
                Ok(batches) => {
                    &&& batches@.len() == order.len()
                    &&& forall|i: int|
                        0 <= i < order.len() ==> supplies(read, order, i, #[trigger] batches@[i])
                },
                Err(error) => {
                    &&& exists|i: int| 0 <= i < order.len() && !#[trigger] supplied(read, order, i)
                    &&& error@ == Fault::CorruptState(
                        "fetch materialization did not match its plan"@,
                    )
                },
            }
        }),
{
    let ghost read = batches_of(lanes@);
    let ghost order = merge_order@;
    let mut rest = lanes;
    let mut batches: Vec<StoredBatch> = Vec::new();
    let mut index: usize = 0;
    proof {
        assert forall|l: int| 0 <= l < rest@.len() implies (#[trigger] rest@[l])@
            == read[l].skip(uses(order.take(0), l) as int) by {
            assert(read[l].skip(0) =~= read[l]);
        }
    }
    while index < merge_order.len()
        invariant
            order == merge_order@,
            read == batches_of(lanes@),
            index <= order.len(),
            rest@.len() == read.len(),
            forall|l: int|
                0 <= l < rest@.len() ==> uses(order.take(index as int), l) <= (
                #[trigger] read[l]).len(),
            forall|l: int|
                0 <= l < rest@.len() ==> (#[trigger] rest@[l])@ == read[l].skip(
                    uses(order.take(index as int), l) as int,
                ),
            batches@.len() == index,
            forall|i: int|
                0 <= i < index ==> supplies(read, order, i, #[trigger] batches@[i]),
        decreases order.len() - index,
    {
        let lane: usize = merge_order[index];
        let ghost before = rest@;
        proof {
            assert(order.take(index + 1).drop_last() =~= order.take(index as int));
            assert(order.take(index + 1).last() == lane);
        }
        if lane >= rest.len() {
            assert(!supplied(read, order, index as int));
            return Err(corrupt_state("fetch materialization did not match its plan"));
        }
        let ghost used = uses(order.take(index as int), lane as int);
        match rest[lane].pop_front() {
            None => {
                assert(before[lane as int]@.len() == 0);
                assert(!supplied(read, order, index as int));
                return Err(corrupt_state("fetch materialization did not match its plan"));
            },
            Some(batch) => {
                assert(before[lane as int]@[0] == read[lane as int][used as int]);
                batches.push(batch);
                assert(supplies(read, order, index as int, batches@[index as int]));
            },
        }
        proof {
            assert forall|l: int| 0 <= l < rest@.len() implies (#[trigger] rest@[l])@
                == read[l].skip(uses(order.take(index + 1), l) as int) && uses(
                order.take(index + 1),
                l,
            ) <= read[l].len() by {
                if l == lane {
                    assert(rest@[l]@ =~= read[l].skip(
                        uses(order.take(index as int), l) as int + 1,
                    ));
                } else {
                    assert(rest@[l] == before[l]);
                }
            }
        }
        index += 1;
    }
    Ok(batches)
}

/// Everything that `picked` adds is visible.
proof fn lemma_picked_visible(
    plans: Plans,
    positions: Seq<int>,
    mode: FetchMode,
    end: LogicalOffset,
    committed: Set<u128>,
    max_bytes: usize,
    used: nat,
    taken: Seq<(int, StoredBatchMetadata)>,
)
    requires
        positions.len() == plans.len(),
        picked(plans, positions, mode, end, committed, max_bytes, used, taken) is Ok,
        used == total(taken),
        taken.len() <= 1 || total(taken) <= max_bytes,
        forall|i: int|
            0 <= i < taken.len() ==> committed.contains(
                (#[trigger] taken[i]).1.reservation.batch_id.0,
            ) && (mode != FetchMode::AsAvailable ==> taken[i].1.reservation.last_offset.0 < end.0),
    ensures
        ({
            let all = picked(plans, positions, mode, end, committed, max_bytes, used, taken)->Ok_0;
            &&& all.len() <= 1 || total(all) <= max_bytes
            &&& forall|i: int|
                0 <= i < all.len() ==> committed.contains(
                    (#[trigger] all[i]).1.reservation.batch_id.0,
                ) && (mode != FetchMode::AsAvailable ==> all[i].1.reservation.last_offset.0 < end.0)
        }),
    decreases left(plans, positions, plans.len()),
{
    lemma_next_lane(plans, positions, plans.len());
    if let Some(lane) = next_lane(plans, positions, plans.len()) {
        lemma_left_shrinks(plans, positions, plans.len(), lane);
        let batch = next_of(plans, positions, lane);
        let rest = positions.update(lane, positions[lane] + 1);
        if mode != FetchMode::AsAvailable && batch.reservation.last_offset.0 >= end.0 {
        } else if !committed.contains(batch.reservation.batch_id.0) {
            if mode != FetchMode::AsAvailable && batch.reservation.first_offset.0 >= end.0 {
            } else {
                lemma_picked_visible(
                    plans,
                    rest,
                    mode,
                    end,
                    committed,
                    max_bytes,
                    used,
                    taken,
                );
            }
        } else if taken.len() > 0 && used + batch.payload_len > max_bytes {
        } else {
            let more = taken.push((lane, batch));
            assert(more.drop_last() =~= taken);
            lemma_picked_visible(
                plans,
                rest,
                mode,
                end,
                committed,
                max_bytes,
                used + batch.payload_len as nat,
                more,
            );
        }
    }
}

/// Payload bytes of the batches taken.
pub open spec fn total(taken: Seq<(int, StoredBatchMetadata)>) -> nat
    decreases taken.len(),
{
    if taken.len() == 0 {
        0
    } else {
        total(taken.drop_last()) + taken.last().1.payload_len as nat
    }
}

/// A fetch returns only visible batches, in ordered modes only such as end below
/// the visible end, and stays within its budget unless a single batch exceeds it.
pub proof fn fetch_stays_visible_and_within_budget(
    plans: Plans,
    mode: FetchMode,
    end: LogicalOffset,
    committed: Set<u128>,
    max_bytes: usize,
)
    requires
        picked(
            plans,
            Seq::new(plans.len(), |i: int| 0int),
            mode,
            end,
            committed,
            max_bytes,
            0,
            Seq::empty(),
        ) is Ok,
    ensures
        ({
            let all = picked(
                plans,
                Seq::new(plans.len(), |i: int| 0int),
                mode,
                end,
                committed,
                max_bytes,
                0,
                Seq::empty(),
            )->Ok_0;
            &&& all.len() <= 1 || total(all) <= max_bytes
            &&& forall|i: int|
                0 <= i < all.len() ==> committed.contains(
                    (#[trigger] all[i]).1.reservation.batch_id.0,
                ) && (mode != FetchMode::AsAvailable ==> all[i].1.reservation.last_offset.0 < end.0)
        }),
{
    lemma_picked_visible(
        plans,
        Seq::new(plans.len(), |i: int| 0int),
        mode,
        end,
        committed,
        max_bytes,
        0,
        Seq::empty(),
    );
}

/// Every shard plans its batches in the order of their offsets.
pub open spec fn plans_in_order(plans: Plans) -> bool {
    forall|lane: int, i: int, j: int|
        0 <= lane < plans.len() && 0 <= i <= j < plans[lane].len() ==> (
        #[trigger] plans[lane][i]).reservation.first_offset.0 <= (
        #[trigger] plans[lane][j]).reservation.first_offset.0
}

pub open spec fn taken_in_order(taken: Seq<(int, StoredBatchMetadata)>) -> bool {
    forall|i: int, j: int|
        0 <= i <= j < taken.len() ==> (#[trigger] taken[i]).1.reservation.first_offset.0 <= (
        #[trigger] taken[j]).1.reservation.first_offset.0
}

proof fn lemma_picked_in_order(
    plans: Plans,
    positions: Seq<int>,
    mode: FetchMode,
    end: LogicalOffset,
    committed: Set<u128>,
    max_bytes: usize,
    used: nat,
    taken: Seq<(int, StoredBatchMetadata)>,
)
    requires
        positions.len() == plans.len(),
        plans_in_order(plans),
        forall|lane: int| 0 <= lane < plans.len() ==> 0 <= #[trigger] positions[lane],
        picked(plans, positions, mode, end, committed, max_bytes, used, taken) is Ok,
        taken_in_order(taken),
        forall|i: int, lane: int|
            0 <= i < taken.len() && #[trigger] has_next(plans, positions, lane) ==> (
            #[trigger] taken[i]).1.reservation.first_offset.0 <= next_of(
                plans,
                positions,
                lane,
            ).reservation.first_offset.0,
    ensures
        taken_in_order(
            picked(plans, positions, mode, end, committed, max_bytes, used, taken)->Ok_0,
        ),
    decreases left(plans, positions, plans.len()),
{
    lemma_next_lane(plans, positions, plans.len());
    if let Some(lane) = next_lane(plans, positions, plans.len()) {
        lemma_left_shrinks(plans, positions, plans.len(), lane);
        let batch = next_of(plans, positions, lane);
        let rest = positions.update(lane, positions[lane] + 1);
        // Whatever comes later starts no earlier than this batch.
        assert forall|other: int| #[trigger] has_next(plans, rest, other) implies batch.reservation.first_offset.0
            <= next_of(plans, rest, other).reservation.first_offset.0 by {
            if other == lane {
                assert(plans[lane][positions[lane]].reservation.first_offset.0 <= plans[lane][
                positions[lane] + 1].reservation.first_offset.0);
            } else {
                assert(has_next(plans, positions, other));
            }
        }
        assert forall|i: int, other: int|
            0 <= i < taken.len() && #[trigger] has_next(plans, rest, other) implies (
        #[trigger] taken[i]).1.reservation.first_offset.0 <= next_of(
            plans,
            rest,
            other,
        ).reservation.first_offset.0 by {
            assert(has_next(plans, positions, lane));
        }
        if mode != FetchMode::AsAvailable && batch.reservation.last_offset.0 >= end.0 {
        } else if !committed.contains(batch.reservation.batch_id.0) {
            if mode != FetchMode::AsAvailable && batch.reservation.first_offset.0 >= end.0 {
            } else {
                lemma_picked_in_order(
                    plans,
                    rest,
                    mode,
                    end,
                    committed,
                    max_bytes,
                    used,
                    taken,
                );
            }
        } else if taken.len() > 0 && used + batch.payload_len > max_bytes {
        } else {
            let more = taken.push((lane, batch));
            assert(has_next(plans, positions, lane));
            lemma_picked_in_order(
                plans,
                rest,
                mode,
                end,
                committed,
                max_bytes,
                used + batch.payload_len as nat,
                more,
            );
        }
    }
}

/// Where every shard plans in offset order, a fetch returns batches in offset
/// order, across all shards.
pub proof fn fetch_is_in_offset_order(
    plans: Plans,
    mode: FetchMode,
    end: LogicalOffset,
    committed: Set<u128>,
    max_bytes: usize,
)
    requires
        plans_in_order(plans),
        picked(
            plans,
            Seq::new(plans.len(), |i: int| 0int),
            mode,
            end,
            committed,
            max_bytes,
            0,
            Seq::empty(),
        ) is Ok,
    ensures
        taken_in_order(
            picked(
                plans,
                Seq::new(plans.len(), |i: int| 0int),
                mode,
                end,
                committed,
                max_bytes,
                0,
                Seq::empty(),
            )->Ok_0,
        ),
{
    lemma_picked_in_order(
        plans,
        Seq::new(plans.len(), |i: int| 0int),
        mode,
        end,
        committed,
        max_bytes,
        0,
        Seq::empty(),
    );
}

} // verus!
