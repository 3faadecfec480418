//! The division of partitions among coordinator workers.
use vstd::prelude::*;

use crate::dispatch::{coordinator_index, folded, mixed};
use crate::ids::{LogicalPartitionId, TopicId, TopicPartition};
use crate::maps::PairMap;
use crate::protocol::ExtentCatalogEntry;

verus! {

/// The number of workers: at least one.
pub open spec fn workers(worker_count: usize) -> usize {
    if worker_count == 0 {
        1
    } else {
        worker_count
    }
}

/// The partition of a key.
pub open spec fn keyed_partition(key: (u128, u128)) -> TopicPartition {
    TopicPartition { topic_id: TopicId(key.0), partition_id: LogicalPartitionId(key.1 as u32) }
}

/// The worker that coordinates the partition of a key.
pub open spec fn home(key: (u128, u128), count: usize) -> int {
    mixed(folded(keyed_partition(key))) as usize as int % count as int
}

/// Gives every recovered partition to the worker that coordinates it.
pub fn distribute<V>(worker_count: usize, recovered: PairMap<V>) -> (states: Vec<PairMap<V>>)
    requires
        forall|key: (u128, u128)| #[trigger] recovered@.contains_key(key) ==> key.1 <= u32::MAX,
    ensures
        states@.len() == workers(worker_count),
        forall|w: int, key: (u128, u128)|
            0 <= w < states@.len() ==> (#[trigger] states@[w]@.contains_key(key)
                <==> recovered@.contains_key(key) && home(key, workers(worker_count)) == w),
        forall|w: int, key: (u128, u128)|
            0 <= w < states@.len() && #[trigger] states@[w]@.contains_key(key) ==> states@[w]@[key]
                == recovered@[key],
{
    let count: usize = if worker_count == 0 {
        1
    } else {
        worker_count
    };
    let mut states: Vec<PairMap<V>> = Vec::new();
    while states.len() < count
        invariant
            states@.len() <= count,
            forall|w: int|
                0 <= w < states@.len() ==> (#[trigger] states@[w])@ == Map::<
                    (u128, u128),
                    V,
                >::empty(),
        decreases count - states@.len(),
    {
        states.push(PairMap::new());
    }
    let mut remaining = recovered;
    let ghost all = recovered@;
    let keys = remaining.keys();
    let mut index: usize = 0;
    proof {
        assert forall|i: int| 0 <= i < keys@.len() implies remaining@.contains_key(
            #[trigger] keys@[i],
        ) by {
            assert(keys@.contains(keys@[i]));
        }
    }
    while index < keys.len()
        invariant
            index <= keys@.len(),
            states@.len() == count,
            count > 0,
            keys@.no_duplicates(),
            forall|key: (u128, u128)| #[trigger] keys@.contains(key) <==> all.contains_key(key),
            forall|key: (u128, u128)| #[trigger] all.contains_key(key) ==> key.1 <= u32::MAX,
            forall|i: int|
                index <= i < keys@.len() ==> remaining@.contains_key(#[trigger] keys@[i])
                    && remaining@[keys@[i]] == all[keys@[i]],
            forall|w: int, key: (u128, u128)|
                0 <= w < count ==> (#[trigger] states@[w]@.contains_key(key) <==> keys@.take(
                    index as int,
                ).contains(key) && home(key, count) == w),
            forall|w: int, key: (u128, u128)|
                0 <= w < count && #[trigger] states@[w]@.contains_key(key) ==> states@[w]@[key]
                    == all[key],
        decreases keys@.len() - index,
    {
        let (row, column) = keys[index];
        let ghost key = (row, column);
        proof {
            assert(keys@.contains(keys@[index as int]));
            assert(remaining@.contains_key(keys@[index as int]));
        }
        let worker: usize = coordinator_index(
            TopicPartition {
                topic_id: TopicId(row),
                partition_id: LogicalPartitionId(column as u32),
            },
            count,
        );
        let ghost before = states@;
        let ghost left = remaining@;
        if let Some(state) = remaining.remove(row, column) {
            states[worker].insert(row, column, state);
        }
        proof {
            let taken = keys@.take(index as int);
            let more = keys@.take(index + 1);
            assert(more =~= taken.push(key));
            assert forall|other: (u128, u128)| more.contains(other) <==> (taken.contains(other)
                || other == key) by {
                if taken.contains(other) {
                    let i = choose|i: int| 0 <= i < taken.len() && taken[i] == other;
                    assert(more[i] == other);
                }
                if other == key {
                    assert(more[index as int] == other);
                }
                if more.contains(other) && other != key {
                    let i = choose|i: int| 0 <= i < more.len() && more[i] == other;
                    assert(taken[i] == other);
                }
            }
            assert forall|i: int| index + 1 <= i < keys@.len() implies remaining@.contains_key(
                #[trigger] keys@[i],
            ) && remaining@[keys@[i]] == all[keys@[i]] by {
                assert(keys@[i] != keys@[index as int]);
            }
            assert forall|w: int, other: (u128, u128)| 0 <= w < count implies (
            #[trigger] states@[w]@.contains_key(other) <==> more.contains(other) && home(
                other,
                count,
            ) == w) by {
                assert(before[w]@.contains_key(other) <==> taken.contains(other) && home(
                    other,
                    count,
                ) == w);
            }
            assert forall|w: int, other: (u128, u128)|
                0 <= w < count && #[trigger] states@[w]@.contains_key(
                    other,
                ) implies states@[w]@[other] == all[other] by {
                if before[w]@.contains_key(other) {
                    assert(before[w]@[other] == all[other]);
                }
            }
        }
        index += 1;
    }
    proof {
        assert(keys@.take(index as int) =~= keys@);
    }
    states
}

/// Every recovered partition is coordinated by exactly one worker.
pub proof fn every_partition_has_one_coordinator<V>(
    worker_count: usize,
    recovered: Map<(u128, u128), V>,
    states: Seq<PairMap<V>>,
    key: (u128, u128),
)
    requires
        states.len() == workers(worker_count),
        forall|w: int, k: (u128, u128)|
            0 <= w < states.len() ==> (#[trigger] states[w]@.contains_key(k)
                <==> recovered.contains_key(k) && home(k, workers(worker_count)) == w),
        recovered.contains_key(key),
    ensures
        0 <= home(key, workers(worker_count)) < states.len(),
        states[home(key, workers(worker_count))]@.contains_key(key),
        forall|w: int|
            0 <= w < states.len() && #[trigger] states[w]@.contains_key(key) ==> w == home(
                key,
                workers(worker_count),
            ),
{
    let count = workers(worker_count) as int;
    let value = mixed(folded(keyed_partition(key))) as usize as int;
    assert(0 <= value % count < count) by (nonlinear_arith)
        requires
            count > 0,
            value >= 0,
    ;
}

/// The order of partitions: by topic, then by number.
pub open spec fn precedes(one: TopicPartition, other: TopicPartition) -> bool {
    one.topic_id.0 < other.topic_id.0 || (one.topic_id.0 == other.topic_id.0 && one.partition_id.0
        <= other.partition_id.0)
}

/// Partitions stand in order.
pub open spec fn ordered(partitions: Seq<TopicPartition>) -> bool {
    forall|i: int, j: int|
        0 <= i < j < partitions.len() ==> precedes(#[trigger] partitions[i], #[trigger] partitions[j])
}

/// All partitions of all workers.
pub open spec fn joined(lists: Seq<Vec<TopicPartition>>) -> Seq<TopicPartition>
    decreases lists.len(),
{
    if lists.len() == 0 {
        Seq::empty()
    } else {
        joined(lists.drop_last()) + lists.last()@
    }
}

fn insert_in_order(partitions: &mut Vec<TopicPartition>, added: TopicPartition)
    requires
        ordered(old(partitions)@),
    ensures
        ordered(final(partitions)@),
        final(partitions)@.to_multiset() == old(partitions)@.to_multiset().insert(added),
        exists|at: int|
            0 <= at <= old(partitions)@.len() && final(partitions)@ == #[trigger] old(
                partitions,
            )@.insert(at, added),
{
    let mut at: usize = partitions.len();
    while at > 0 && !(partitions[at - 1].topic_id.0 < added.topic_id.0 || (partitions[at
        - 1].topic_id.0 == added.topic_id.0 && partitions[at - 1].partition_id.0
        <= added.partition_id.0))
        invariant
            at <= partitions@.len(),
            ordered(partitions@),
            forall|i: int|
                at <= i < partitions@.len() ==> !precedes(#[trigger] partitions@[i], added),
        decreases at,
    {
        at -= 1;
    }
    let ghost before = partitions@;
    partitions.insert(at, added);
    proof {
        let after = partitions@;
        assert(after == before.insert(at as int, added));
        assert forall|i: int, j: int| 0 <= i < j < after.len() implies precedes(
            #[trigger] after[i],
            #[trigger] after[j],
        ) by {
            if j == at {
                assert(precedes(before[at - 1], added));
                if i < at - 1 {
                    assert(precedes(before[i], before[at - 1]));
                }
            } else if i == at {
                assert(!precedes(before[j - 1], added));
            } else {
                let a = if i < at {
                    i
                } else {
                    i - 1
                };
                let b = if j < at {
                    j
                } else {
                    j - 1
                };
                assert(after[i] == before[a] && after[j] == before[b]);
                assert(precedes(before[a], before[b]));
            }
        }
        vstd::seq_lib::to_multiset_insert(before, at as int, added);
    }
}

/// Puts the partitions of all workers in order.
pub fn merge_partitions(lists: Vec<Vec<TopicPartition>>) -> (partitions: Vec<TopicPartition>)
    ensures
        ordered(partitions@),
        partitions@.to_multiset() == joined(lists@).to_multiset(),
{
    let mut partitions: Vec<TopicPartition> = Vec::new();
    let mut row: usize = 0;
    proof {
        assert(lists@.take(0) =~= Seq::empty());
        assert(joined(lists@.take(0)) =~= partitions@);
    }
    while row < lists.len()
        invariant
            row <= lists@.len(),
            ordered(partitions@),
            partitions@.to_multiset() == joined(lists@.take(row as int)).to_multiset(),
        decreases lists@.len() - row,
    {
        let list = &lists[row];
        let ghost done = joined(lists@.take(row as int));
        let mut column: usize = 0;
        proof {
            assert(done + list@.take(0) =~= done);
        }
        while column < list.len()
            invariant
                column <= list@.len(),
                ordered(partitions@),
                partitions@.to_multiset() == (done + list@.take(column as int)).to_multiset(),
            decreases list@.len() - column,
        {
            insert_in_order(&mut partitions, list[column]);
            proof {
                let part = done + list@.take(column as int);
                part.to_multiset_ensures();
                assert(done + list@.take(column + 1) =~= part.push(list@[column as int]));
            }
            column += 1;
        }
        proof {
            assert(list@.take(column as int) =~= list@);
            assert(lists@.take(row + 1).drop_last() =~= lists@.take(row as int));
            assert(lists@.take(row + 1).last() == list);
        }
        row += 1;
    }
    proof {
        assert(lists@.take(row as int) =~= lists@);
    }
    partitions
}

/// The partition of a catalog entry.
pub open spec fn partition_of_entry(entry: ExtentCatalogEntry) -> TopicPartition {
    TopicPartition {
        topic_id: entry.reservation.topic_id,
        partition_id: entry.reservation.partition_id,
    }
}

fn holds_partition(partitions: &Vec<TopicPartition>, sought: TopicPartition) -> (holds: bool)
    ensures
        holds == partitions@.contains(sought),
{
    let mut index: usize = 0;
    while index < partitions.len()
        invariant
            index <= partitions@.len(),
            forall|i: int| 0 <= i < index ==> partitions@[i] != sought,
        decreases partitions@.len() - index,
    {
        if partitions[index] == sought {
            assert(partitions@.contains(sought));
            return true;
        }
        index += 1;
    }
    false
}

/// The partitions that have stored batches, in order and each once.
pub fn recovered_partitions(catalog: &Vec<ExtentCatalogEntry>) -> (partitions: Vec<TopicPartition>)
    ensures
        ordered(partitions@),
        partitions@.no_duplicates(),
        forall|topic_partition: TopicPartition| #[trigger]
            partitions@.contains(topic_partition) <==> exists|i: int|
                0 <= i < catalog@.len() && partition_of_entry(#[trigger] catalog@[i])
                    == topic_partition,
{
    let mut partitions: Vec<TopicPartition> = Vec::new();
    let mut index: usize = 0;
    while index < catalog.len()
        invariant
            index <= catalog@.len(),
            ordered(partitions@),
            partitions@.no_duplicates(),
            forall|topic_partition: TopicPartition| #[trigger]
                partitions@.contains(topic_partition) <==> exists|i: int|
                    0 <= i < index && partition_of_entry(#[trigger] catalog@[i])
                        == topic_partition,
        decreases catalog@.len() - index,
    {
        let entry = &catalog[index];
        let found = TopicPartition {
            topic_id: entry.reservation.topic_id,
            partition_id: entry.reservation.partition_id,
        };
        let ghost before = partitions@;
        if !holds_partition(&partitions, found) {
            insert_in_order(&mut partitions, found);
            proof {
                let at = choose|at: int|
                    0 <= at <= before.len() && partitions@ == #[trigger] before.insert(at, found);
                lemma_inserted(before, at, found);
            }
        }
        proof {
            assert(partition_of_entry(catalog@[index as int]) == found);
            assert forall|p: TopicPartition| #[trigger] partitions@.contains(p) <==> exists|i: int|
                0 <= i < index + 1 && partition_of_entry(#[trigger] catalog@[i]) == p by {
                if partitions@.contains(p) && p != found {
                    assert(before.contains(p));
                    let i = choose|i: int|
                        0 <= i < index && partition_of_entry(#[trigger] catalog@[i]) == p;
                    assert(partition_of_entry(catalog@[i]) == p);
                }
                if exists|i: int|
                    0 <= i < index + 1 && partition_of_entry(#[trigger] catalog@[i]) == p {
                    let i = choose|i: int|
                        0 <= i < index + 1 && partition_of_entry(#[trigger] catalog@[i]) == p;
                    if i < index {
                        assert(before.contains(p));
                    }
                }
            }
        }
        index += 1;
    }
    partitions
}

/// An element that is new may be inserted anywhere without a repetition.
proof fn lemma_inserted(before: Seq<TopicPartition>, at: int, added: TopicPartition)
    requires
        0 <= at <= before.len(),
        before.no_duplicates(),
        !before.contains(added),
    ensures
        before.insert(at, added).no_duplicates(),
        forall|p: TopicPartition| #[trigger]
            before.insert(at, added).contains(p) <==> before.contains(p) || p == added,
{
    let after = before.insert(at, added);
    assert forall|i: int, j: int| 0 <= i < after.len() && 0 <= j < after.len() && i != j implies after[i]
        != after[j] by {
        let a = if i < at {
            i
        } else {
            i - 1
        };
        let b = if j < at {
            j
        } else {
            j - 1
        };
        if i != at {
            assert(after[i] == before[a]);
            assert(before.contains(before[a]));
        }
        if j != at {
            assert(after[j] == before[b]);
            assert(before.contains(before[b]));
        }
    }
    assert forall|p: TopicPartition| #[trigger] after.contains(p) <==> before.contains(p) || p
        == added by {
        if before.contains(p) {
            let i = choose|i: int| 0 <= i < before.len() && before[i] == p;
            if i < at {
                assert(after[i] == p);
            } else {
                assert(after[i + 1] == p);
            }
        }
        assert(after[at] == added);
        if after.contains(p) && p != added {
            let i = choose|i: int| 0 <= i < after.len() && after[i] == p;
            if i < at {
                assert(before[i] == p);
            } else {
                assert(before[i - 1] == p);
            }
        }
    }
}

} // verus!
