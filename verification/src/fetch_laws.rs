//! What a reader gets of the batches that the shards hold.
use std::collections::VecDeque;
use vstd::prelude::*;

use crate::batch_set::CommittedBatchSet;
use crate::error::EngineResult;
use crate::fetch::{
    batches_of, earlier_uses, fetch_is_in_offset_order, fetch_stays_visible_and_within_budget,
    materialize_stored_batches, picked, plans_in_order, plans_of, select_fetch_plan, supplied,
    supplies, taken_from, uses, FetchSelection,
};
use crate::ids::LogicalOffset;
use crate::protocol::{FetchMode, StoredBatch, StoredBatchMetadata};

verus! {

proof fn lemma_taken_place(
    taken: Seq<(int, StoredBatchMetadata)>,
    order: Seq<usize>,
    count: int,
    lane: int,
)
    requires
        order.len() == taken.len(),
        forall|i: int| 0 <= i < taken.len() ==> #[trigger] order[i] == taken[i].0,
        0 <= count <= taken.len(),
    ensures
        taken_from(taken.take(count), lane).len() == uses(order.take(count), lane),
    decreases count,
{
    if count > 0 {
        lemma_taken_place(taken, order, count - 1, lane);
        assert(taken.take(count).drop_last() =~= taken.take(count - 1));
        assert(order.take(count).drop_last() =~= order.take(count - 1));
        assert(order.take(count).last() == taken.take(count).last().0);
    }
}

proof fn lemma_taken_prefix(taken: Seq<(int, StoredBatchMetadata)>, count: int, lane: int)
    requires
        0 <= count <= taken.len(),
    ensures
        taken_from(taken.take(count), lane).len() <= taken_from(taken, lane).len(),
        forall|i: int|
            0 <= i < taken_from(taken.take(count), lane).len() ==> #[trigger] taken_from(
                taken,
                lane,
            )[i] == taken_from(taken.take(count), lane)[i],
    decreases taken.len() - count,
{
    if count < taken.len() {
        lemma_taken_prefix(taken, count + 1, lane);
        assert(taken.take(count + 1).drop_last() =~= taken.take(count));
        let longer = taken_from(taken.take(count + 1), lane);
        let shorter = taken_from(taken.take(count), lane);
        assert forall|i: int| 0 <= i < shorter.len() implies #[trigger] taken_from(
            taken,
            lane,
        )[i] == shorter[i] by {
            assert(longer[i] == shorter[i]);
        }
    } else {
        assert(taken.take(count) =~= taken);
    }
}

/// The batch that the merge takes at a place is the one that was planned for it.
proof fn lemma_taken_at(
    taken: Seq<(int, StoredBatchMetadata)>,
    order: Seq<usize>,
    index: int,
)
    requires
        order.len() == taken.len(),
        forall|i: int| 0 <= i < taken.len() ==> #[trigger] order[i] == taken[i].0,
        0 <= index < taken.len(),
    ensures
        earlier_uses(order, index) < taken_from(taken, taken[index].0).len(),
        taken_from(taken, taken[index].0)[earlier_uses(order, index) as int] == taken[index].1,
{
    let lane = taken[index].0;
    assert(order[index] == lane);
    lemma_taken_place(taken, order, index, lane);
    lemma_taken_prefix(taken, index + 1, lane);
    assert(taken.take(index + 1).drop_last() =~= taken.take(index));
    assert(taken.take(index + 1).last() == taken[index]);
    let next = taken_from(taken.take(index + 1), lane);
    let place = earlier_uses(order, index) as int;
    assert(next[place] == taken[index].1);
    assert(taken_from(taken, lane)[place] == next[place]);
}

/// A reader gets the batches that its fetch planned, in the order of their offsets over
/// all shards, provided that each shard hands over what it planned: only batches that are
/// visible, in the ordered modes only such as end below the visible end, and no more bytes
/// than asked for unless the first batch alone has more.
pub proof fn readers_get_batches_in_order(
    shard_plans: Vec<Vec<StoredBatchMetadata>>,
    mode: FetchMode,
    end: LogicalOffset,
    committed: CommittedBatchSet,
    max_bytes: usize,
    selection: FetchSelection,
    lanes: Vec<VecDeque<StoredBatch>>,
    result: EngineResult<Vec<StoredBatch>>,
    index: int,
    later: int,
)
    requires
        plans_in_order(plans_of(shard_plans@)),
        call_ensures(
            select_fetch_plan,
            (&shard_plans, mode, end, &committed, max_bytes),
            Ok::<FetchSelection, crate::error::EngineError>(selection),
        ),
        lanes@.len() == shard_plans@.len(),
        forall|lane: int|
            0 <= lane < lanes@.len() ==> (#[trigger] lanes@[lane])@.len()
                == selection.by_shard@[lane]@.len(),
        forall|lane: int, i: int|
            0 <= lane < lanes@.len() && 0 <= i < lanes@[lane]@.len() ==> (
            #[trigger] lanes@[lane]@[i]).reservation
                == selection.by_shard@[lane]@[i].reservation,
        call_ensures(materialize_stored_batches, (lanes, &selection.merge_order), result),
        0 <= index <= later < selection.merge_order@.len(),
    ensures
        result is Ok,
        result->Ok_0@.len() == selection.merge_order@.len(),
        result->Ok_0@[index].reservation.first_offset.0
            <= result->Ok_0@[later].reservation.first_offset.0,
        committed@.contains(result->Ok_0@[index].reservation.batch_id.0),
        mode != FetchMode::AsAvailable ==> result->Ok_0@[index].reservation.last_offset.0 < end.0,
        exists|lane: int, i: int|
            0 <= lane < shard_plans@.len() && 0 <= i < lanes@[lane]@.len()
                && #[trigger] lanes@[lane]@[i] == result->Ok_0@[index],
{
    let plans = plans_of(shard_plans@);
    let start = Seq::new(plans.len(), |i: int| 0int);
    assert(start =~= Seq::new(shard_plans@.len(), |i: int| 0int));
    let taken = picked(plans, start, mode, end, committed@, max_bytes, 0, Seq::empty())->Ok_0;
    let order = selection.merge_order@;
    let read = batches_of(lanes@);
    fetch_is_in_offset_order(plans, mode, end, committed@, max_bytes);
    fetch_stays_visible_and_within_budget(plans, mode, end, committed@, max_bytes);
    assert forall|i: int| 0 <= i < order.len() implies #[trigger] supplied(read, order, i) && read[
    order[i] as int][earlier_uses(order, i) as int].reservation == taken[i].1.reservation by {
        lemma_taken_at(taken, order, i);
        let lane = taken[i].0;
        assert(order[i] == lane);
        assert(read[lane] == lanes@[lane]@);
        assert(selection.by_shard@[lane]@ == taken_from(taken, lane));
        assert(lanes@[lane]@[earlier_uses(order, i) as int].reservation == taken_from(
            taken,
            lane,
        )[earlier_uses(order, i) as int].reservation);
    }
    if result is Err {
        let i = choose|i: int| 0 <= i < order.len() && !#[trigger] supplied(read, order, i);
        assert(supplied(read, order, i));
    }
    let batches = result->Ok_0@;
    assert(supplies(read, order, index, batches[index]));
    assert(supplies(read, order, later, batches[later]));
    assert(supplied(read, order, index) && supplied(read, order, later));
    assert(taken[index].1.reservation.first_offset.0 <= taken[later].1.reservation.first_offset.0);
    let lane = order[index] as int;
    let place = earlier_uses(order, index) as int;
    assert(read[lane] == lanes@[lane]@);
    assert(lanes@[lane]@[place] == batches[index]);
}

/// A plan without visible batches reads nothing, and a plan reads from each shard only
/// what that shard holds.
pub proof fn plans_read_what_is_there(
    shard_plans: Vec<Vec<StoredBatchMetadata>>,
    mode: FetchMode,
    end: LogicalOffset,
    committed: CommittedBatchSet,
    max_bytes: usize,
    selection: FetchSelection,
)
    requires
        call_ensures(
            select_fetch_plan,
            (&shard_plans, mode, end, &committed, max_bytes),
            Ok::<FetchSelection, crate::error::EngineError>(selection),
        ),
    ensures
        selection.by_shard@.len() == shard_plans@.len(),
        committed@ == Set::<u128>::empty() ==> selection.merge_order@.len() == 0,
        forall|i: int|
            0 <= i < selection.merge_order@.len() ==> (#[trigger] selection.merge_order@[i])
                < shard_plans@.len(),
{
    let plans = plans_of(shard_plans@);
    let start = Seq::new(plans.len(), |i: int| 0int);
    assert(start =~= Seq::new(shard_plans@.len(), |i: int| 0int));
    fetch_stays_visible_and_within_budget(plans, mode, end, committed@, max_bytes);
    let taken = picked(plans, start, mode, end, committed@, max_bytes, 0, Seq::empty())->Ok_0;
    if committed@ == Set::<u128>::empty() && taken.len() > 0 {
        assert(committed@.contains(taken[0].1.reservation.batch_id.0));
    }
    assert forall|i: int| 0 <= i < selection.merge_order@.len() implies (
    #[trigger] selection.merge_order@[i]) < shard_plans@.len() by {
        assert(0 <= taken[i].0 < shard_plans@.len());
    }
}

} // verus!
