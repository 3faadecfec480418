//! Recovery of every partition of an engine.
use vstd::prelude::*;

use crate::config::EngineConfig;
use crate::error::{invalid_config, EngineError, EngineResult, Fault};
use crate::ids::TopicPartition;
use crate::journal::{about, about_partition, partition_key, replayed, JournalModel, RecoveredJournal};
use crate::maps::PairMap;
use crate::partition::{PartitionModel, PartitionState};
use crate::protocol::{ExtentCatalogEntry, JournalEvent};
use crate::recovery::{recover_partition, recovered_partition};

verus! {

broadcast use vstd::std_specs::hash::group_hash_axioms;

/// The partition that a stored batch belongs to.
pub open spec fn entry_partition(entry: ExtentCatalogEntry) -> TopicPartition {
    TopicPartition {
        topic_id: entry.reservation.topic_id,
        partition_id: entry.reservation.partition_id,
    }
}

/// Stored batches stand in the order of their offsets.
pub open spec fn in_offset_order(entries: Seq<ExtentCatalogEntry>) -> bool {
    forall|i: int, j: int|
        0 <= i <= j < entries.len() ==> (#[trigger] entries[i]).reservation.first_offset.0 <= (
        #[trigger] entries[j]).reservation.first_offset.0
}

/// `arranged` holds the same batches as `entries`, in the order of their offsets.
pub open spec fn arranges(
    entries: Seq<ExtentCatalogEntry>,
    arranged: Seq<ExtentCatalogEntry>,
) -> bool {
    in_offset_order(arranged) && arranged.to_multiset() == entries.to_multiset()
}

/// The stored batches of one partition, in catalog order.
pub open spec fn entries_of(catalog: Seq<ExtentCatalogEntry>, key: (u128, u128)) -> Seq<
    ExtentCatalogEntry,
>
    decreases catalog.len(),
{
    if catalog.len() == 0 {
        Seq::empty()
    } else {
        let earlier = entries_of(catalog.drop_last(), key);
        if partition_key(entry_partition(catalog.last())) == key {
            earlier.push(catalog.last())
        } else {
            earlier
        }
    }
}

/// What keeps the catalog from being used: the first batch of an unknown partition.
pub open spec fn catalog_obstacle(journal: JournalModel, catalog: Seq<ExtentCatalogEntry>) -> Option<
    Fault,
>
    decreases catalog.len(),
{
    if catalog.len() == 0 {
        None
    } else {
        match catalog_obstacle(journal, catalog.drop_last()) {
            Some(fault) => Some(fault),
            None => if journal.knows(entry_partition(catalog.last())) {
                None
            } else {
                Some(
                    Fault::CorruptState(
                        about_partition(
                            "extent for unconfigured partition "@,
                            entry_partition(catalog.last()),
                        ),
                    ),
                )
            },
        }
    }
}

proof fn lemma_catalog_fault_stays(
    journal: JournalModel,
    catalog: Seq<ExtentCatalogEntry>,
    count: int,
)
    requires
        0 <= count <= catalog.len(),
        catalog_obstacle(journal, catalog.take(count)) is Some,
    ensures
        catalog_obstacle(journal, catalog) == catalog_obstacle(journal, catalog.take(count)),
    decreases catalog.len() - count,
{
    if count == catalog.len() {
        assert(catalog.take(count) =~= catalog);
    } else {
        assert(catalog.take(count + 1).drop_last() =~= catalog.take(count));
        lemma_catalog_fault_stays(journal, catalog, count + 1);
    }
}

/// A partition can be recovered to `outcome` from its stored batches.
pub open spec fn recovers_to(
    config: EngineConfig,
    journal: JournalModel,
    replicas: u32,
    catalog: Seq<ExtentCatalogEntry>,
    topic_partition: TopicPartition,
    outcome: Result<PartitionModel, Fault>,
) -> bool {
    exists|arranged: Seq<ExtentCatalogEntry>| #[trigger]
        arranges(entries_of(catalog, partition_key(topic_partition)), arranged)
            && recovered_partition(
            config,
            topic_partition,
            journal.part(topic_partition),
            replicas,
            arranged,
        ) == outcome
}

/// Merges two runs that are each in offset order.
fn merge(left: &Vec<ExtentCatalogEntry>, right: &Vec<ExtentCatalogEntry>) -> (merged: Vec<
    ExtentCatalogEntry,
>)
    requires
        in_offset_order(left@),
        in_offset_order(right@),
    ensures
        in_offset_order(merged@),
        merged@.to_multiset() == (left@ + right@).to_multiset(),
{
    broadcast use vstd::seq_lib::group_to_multiset_ensures;

    let mut merged: Vec<ExtentCatalogEntry> = Vec::new();
    let mut l: usize = 0;
    let mut r: usize = 0;
    proof {
        assert(left@.take(0) + right@.take(0) =~= merged@);
    }
    while l < left.len() || r < right.len()
        invariant
            in_offset_order(left@),
            in_offset_order(right@),
            l <= left@.len(),
            r <= right@.len(),
            in_offset_order(merged@),
            merged@.len() == l + r,
            merged@.to_multiset() == left@.take(l as int).to_multiset().add(
                right@.take(r as int).to_multiset(),
            ),
            forall|i: int, j: int|
                0 <= i < merged@.len() && l <= j < left@.len() ==> (
                #[trigger] merged@[i]).reservation.first_offset.0 <= (
                #[trigger] left@[j]).reservation.first_offset.0,
            forall|i: int, j: int|
                0 <= i < merged@.len() && r <= j < right@.len() ==> (
                #[trigger] merged@[i]).reservation.first_offset.0 <= (
                #[trigger] right@[j]).reservation.first_offset.0,
        decreases left@.len() - l + right@.len() - r,
    {
        broadcast use vstd::seq_lib::group_to_multiset_ensures;

        let ghost before = merged@;
        let from_left = l < left.len() && (r >= right.len()
            || left[l].reservation.first_offset.0 <= right[r].reservation.first_offset.0);
        if from_left {
            let entry = left[l];
            merged.push(entry);
            proof {
                assert(left@.take(l + 1) =~= left@.take(l as int).push(entry));
                assert(merged@.to_multiset() =~= left@.take(l + 1).to_multiset().add(
                    right@.take(r as int).to_multiset(),
                ));
            }
            l += 1;
        } else {
            let entry = right[r];
            merged.push(entry);
            proof {
                assert(right@.take(r + 1) =~= right@.take(r as int).push(entry));
                assert(merged@.to_multiset() =~= left@.take(l as int).to_multiset().add(
                    right@.take(r + 1).to_multiset(),
                ));
            }
            r += 1;
        }
    }
    proof {
        assert(left@.take(l as int) =~= left@);
        assert(right@.take(r as int) =~= right@);
        vstd::seq_lib::lemma_multiset_commutative(left@, right@);
    }
    merged
}

/// Puts stored batches in the order of their offsets.
pub fn arrange(entries: Vec<ExtentCatalogEntry>) -> (arranged: Vec<ExtentCatalogEntry>)
    ensures
        arranges(entries@, arranged@),
    decreases entries@.len(),
{
    if entries.len() <= 1 {
        return entries;
    }
    let ghost all = entries@;
    let mut left = entries;
    let middle: usize = left.len() / 2;
    let right = left.split_off(middle);
    proof {
        assert(all =~= left@ + right@);
        vstd::seq_lib::lemma_multiset_commutative(left@, right@);
    }
    let left = arrange(left);
    let right = arrange(right);
    proof {
        vstd::seq_lib::lemma_multiset_commutative(left@, right@);
    }
    merge(&left, &right)
}

proof fn lemma_arranged_member(
    entries: Seq<ExtentCatalogEntry>,
    arranged: Seq<ExtentCatalogEntry>,
    index: int,
)
    requires
        arranges(entries, arranged),
        0 <= index < arranged.len(),
    ensures
        entries.contains(arranged[index]),
{
    broadcast use vstd::seq_lib::group_to_multiset_ensures;

    assert(arranged.contains(arranged[index]));
    assert(arranged.to_multiset().count(arranged[index]) > 0);
    assert(entries.to_multiset().count(arranged[index]) > 0);
}

proof fn lemma_entries_of_members(catalog: Seq<ExtentCatalogEntry>, key: (u128, u128))
    ensures
        forall|entry: ExtentCatalogEntry| #[trigger]
            entries_of(catalog, key).contains(entry) ==> catalog.contains(entry),
    decreases catalog.len(),
{
    if catalog.len() > 0 {
        lemma_entries_of_members(catalog.drop_last(), key);
        assert forall|entry: ExtentCatalogEntry| #[trigger]
            entries_of(catalog, key).contains(entry) implies catalog.contains(entry) by {
            let all = entries_of(catalog, key);
            let earlier = entries_of(catalog.drop_last(), key);
            let i = choose|i: int| 0 <= i < all.len() && all[i] == entry;
            if i < earlier.len() {
                assert(earlier[i] == entry);
                assert(earlier.contains(entry));
                assert(catalog.drop_last().contains(entry));
                let k = choose|k: int|
                    0 <= k < catalog.drop_last().len() && catalog.drop_last()[k] == entry;
                assert(catalog[k] == entry);
            } else {
                assert(catalog[catalog.len() - 1] == entry);
            }
        }
    }
}

/// Sorts the catalog's batches by partition.
fn split_catalog(journal: &RecoveredJournal, catalog: &Vec<ExtentCatalogEntry>) -> (result:
    EngineResult<PairMap<Vec<ExtentCatalogEntry>>>)
    ensures
        match result {
            Ok(split) => {
                &&& catalog_obstacle(journal@, catalog@) is None
                &&& forall|key: (u128, u128)| #[trigger]
                    split@.contains_key(key) ==> split@[key]@ == entries_of(catalog@, key)
                &&& forall|key: (u128, u128)|
                    !(#[trigger] split@.contains_key(key)) ==> entries_of(catalog@, key).len() == 0
            },
            Err(error) => catalog_obstacle(journal@, catalog@) == Some(error@),
        },
{
    let mut split: PairMap<Vec<ExtentCatalogEntry>> = PairMap::new();
    let mut index: usize = 0;
    while index < catalog.len()
        invariant
            index <= catalog@.len(),
            catalog_obstacle(journal@, catalog@.take(index as int)) is None,
            forall|key: (u128, u128)| #[trigger]
                split@.contains_key(key) ==> split@[key]@ == entries_of(
                    catalog@.take(index as int),
                    key,
                ),
            forall|key: (u128, u128)|
                !(#[trigger] split@.contains_key(key)) ==> entries_of(
                    catalog@.take(index as int),
                    key,
                ).len() == 0,
        decreases catalog@.len() - index,
    {
        let entry = catalog[index];
        let ghost before = split@;
        let topic_partition = TopicPartition {
            topic_id: entry.reservation.topic_id,
            partition_id: entry.reservation.partition_id,
        };
        proof {
            assert(catalog@.take(index + 1).drop_last() =~= catalog@.take(index as int));
            assert(catalog@.take(index + 1).last() == entry);
        }
        if !journal.knows(topic_partition) {
            proof {
                lemma_catalog_fault_stays(journal@, catalog@, index + 1);
            }
            return Err(
                EngineError::CorruptState(
                    about("extent for unconfigured partition ", topic_partition),
                ),
            );
        }
        let row: u128 = topic_partition.topic_id.0;
        let column: u128 = topic_partition.partition_id.0 as u128;
        let mut held = match split.remove(row, column) {
            Some(held) => held,
            None => Vec::new(),
        };
        proof {
            assert(held@ =~= entries_of(catalog@.take(index as int), (row, column)));
        }
        held.push(entry);
        split.insert(row, column, held);
        proof {
            assert forall|key: (u128, u128)|
                !(#[trigger] split@.contains_key(key)) implies entries_of(
                catalog@.take(index + 1),
                key,
            ).len() == 0 by {
                assert(!before.contains_key(key));
            }
        }
        index += 1;
    }
    proof {
        assert(catalog@.take(index as int) =~= catalog@);
    }
    Ok(split)
}

/// Restores every partition that the journal configures from the store's catalog.
///
/// Every state that comes out is consistent. A failure is the first one in the
/// journal, else the first in the catalog, else the one of a partition that
/// cannot be recovered.
pub fn recover_partition_states(
    config: &EngineConfig,
    events: &Vec<JournalEvent>,
    catalog: &Vec<ExtentCatalogEntry>,
    recovered_durable_replicas: u32,
) -> (result: EngineResult<PairMap<PartitionState>>)
    requires
        forall|i: int| 0 <= i < catalog@.len() ==> (#[trigger] catalog@[i]).reservation.spans(),
    ensures
        ({
            let allowed = 1 <= recovered_durable_replicas <= config.replication_factor;
            let replay = replayed(*config, events@);
            match result {
                Ok(states) => {
                    &&& allowed
                    &&& replay is Ok
                    &&& catalog_obstacle(replay->Ok_0, catalog@) is None
                    &&& forall|key: (u128, u128)| #[trigger]
                        states@.contains_key(key) <==> replay->Ok_0.parts.contains_key(key)
                    &&& forall|i: int|
                        0 <= i < replay->Ok_0.order.len() ==> {
                            let topic_partition = #[trigger] replay->Ok_0.order[i];
                            let state = states@[partition_key(topic_partition)];
                            &&& state.wf()
                            &&& recovers_to(
                                *config,
                                replay->Ok_0,
                                recovered_durable_replicas,
                                catalog@,
                                topic_partition,
                                Ok(state@),
                            )
                        }
                },
                Err(error) => if !allowed {
                    error@ == Fault::InvalidConfig(
                        "recovered durable replica count must be within the configured replication factor"@,
                    )
                } else {
                    match replay {
                        Err(fault) => error@ == fault,
                        Ok(journal) => match catalog_obstacle(journal, catalog@) {
                            Some(fault) => error@ == fault,
                            None => exists|i: int|
                                0 <= i < journal.order.len() && recovers_to(
                                    *config,
                                    journal,
                                    recovered_durable_replicas,
                                    catalog@,
                                    #[trigger] journal.order[i],
                                    Err(error@),
                                ),
                        },
                    }
                },
            }
        }),
{
    if recovered_durable_replicas == 0 || recovered_durable_replicas > config.replication_factor {
        return Err(
            invalid_config(
                "recovered durable replica count must be within the configured replication factor",
            ),
        );
    }
    let journal = match RecoveredJournal::replay(config, events) {
        Err(error) => {
            return Err(error);
        },
        Ok(journal) => journal,
    };
    let mut split = match split_catalog(&journal, catalog) {
        Err(error) => {
            return Err(error);
        },
        Ok(split) => split,
    };
    let mut states: PairMap<PartitionState> = PairMap::new();
    let mut index: usize = 0;
    while index < journal.order.len()
        invariant
            1 <= recovered_durable_replicas <= config.replication_factor,
            forall|i: int| 0 <= i < catalog@.len() ==> (#[trigger] catalog@[i]).reservation.spans(),
            replayed(*config, events@) == Ok::<JournalModel, Fault>(journal@),
            journal@.wf(),
            catalog_obstacle(journal@, catalog@) is None,
            index <= journal.order@.len(),
            forall|i: int|
                index <= i < journal@.order.len() ==> {
                    let key = partition_key(#[trigger] journal@.order[i]);
                    &&& split@.contains_key(key) ==> split@[key]@ == entries_of(catalog@, key)
                    &&& !split@.contains_key(key) ==> entries_of(catalog@, key).len() == 0
                },
            forall|key: (u128, u128)| #[trigger]
                states@.contains_key(key) <==> exists|i: int|
                    0 <= i < index && partition_key(#[trigger] journal@.order[i]) == key,
            forall|i: int|
                0 <= i < index ==> {
                    let topic_partition = #[trigger] journal@.order[i];
                    let state = states@[partition_key(topic_partition)];
                    &&& state.wf()
                    &&& recovers_to(
                        *config,
                        journal@,
                        recovered_durable_replicas,
                        catalog@,
                        topic_partition,
                        Ok(state@),
                    )
                },
        decreases journal.order@.len() - index,
    {
        let topic_partition = journal.order[index];
        let row: u128 = topic_partition.topic_id.0;
        let column: u128 = topic_partition.partition_id.0 as u128;
        let ghost key = (row, column);
        let ghost before = states@;
        let ghost split_before = split@;
        proof {
            assert(journal@.order[index as int] == topic_partition);
            assert(journal@.parts.contains_key(key));
            assert forall|i: int| 0 <= i < journal@.order.len() && i != index implies partition_key(
                #[trigger] journal@.order[i],
            ) != key by {
                if partition_key(journal@.order[i]) == key {
                    assert(journal@.order[i] == journal@.order[index as int]);
                }
            }
        }
        let entries = match split.remove(row, column) {
            Some(entries) => entries,
            None => Vec::new(),
        };
        proof {
            assert(entries@ =~= entries_of(catalog@, key));
        }
        let arranged = arrange(entries);
        proof {
            assert forall|i: int| 0 <= i < arranged@.len() implies (
            #[trigger] arranged@[i]).reservation.spans() by {
                lemma_arranged_member(entries@, arranged@, i);
                lemma_entries_of_members(catalog@, key);
                assert(catalog@.contains(arranged@[i]));
                let k = choose|k: int| 0 <= k < catalog@.len() && catalog@[k] == arranged@[i];
                assert(catalog@[k].reservation.spans());
            }
        }
        if let Some(part) = journal.parts.get(row, column) {
            assert(journal@.parts[key] == part@);
            match recover_partition(
                config,
                topic_partition,
                part,
                recovered_durable_replicas,
                &arranged,
            ) {
                Err(error) => {
                    proof {
                        assert(arranges(entries_of(catalog@, key), arranged@));
                        assert(recovers_to(
                            *config,
                            journal@,
                            recovered_durable_replicas,
                            catalog@,
                            journal@.order[index as int],
                            Err(error@),
                        ));
                    }
                    return Err(error);
                },
                Ok(state) => {
                    proof {
                        assert(arranges(entries_of(catalog@, key), arranged@));
                    }
                    states.insert(row, column, state);
                },
            }
        }
        proof {
            assert forall|other: (u128, u128)| #[trigger]
                states@.contains_key(other) <==> exists|i: int|
                0 <= i < index + 1 && partition_key(#[trigger] journal@.order[i]) == other by {
                if states@.contains_key(other) {
                    if other == key {
                        assert(partition_key(journal@.order[index as int]) == other);
                    } else {
                        assert(before.contains_key(other));
                    }
                }
                if exists|i: int|
                    0 <= i < index + 1 && partition_key(#[trigger] journal@.order[i]) == other {
                    let i = choose|i: int|
                        0 <= i < index + 1 && partition_key(#[trigger] journal@.order[i]) == other;
                    if i < index {
                        assert(before.contains_key(other));
                    }
                }
            }
        }
        index += 1;
    }
    Ok(states)
}

} // verus!
