//! What the ordered indexes hold after they were changed.
use vstd::prelude::*;

use crate::batch_set::CommittedBatchSet;
use crate::dense::{DenseInsertError, DenseOrderedMap};
use crate::ids::BatchId;
use crate::sparse::{KeyHasher, OrderedAppendMap, OrderedKey};

verus! {

/// What is pushed under the next key is found under that key, and every other key finds
/// what it found before; a key that is not the next one is given back with its value.
pub proof fn pushed_values_are_found<T, const N: usize>(
    map: &mut DenseOrderedMap<T, N>,
    key: u128,
    value: T,
    pushed: Result<(), DenseInsertError<T>>,
    found: Option<&T>,
    other: u128,
    before: Option<&T>,
    after: Option<&T>,
)
    requires
        old(map).wf(),
        final(map).wf(),
        old(map)@.len() == old(map).spec_next_key() - old(map).spec_first_key(),
        final(map)@.len() == final(map).spec_next_key() - final(map).spec_first_key(),
        other != key,
        call_ensures(DenseOrderedMap::<T, N>::push, (map, key, value), pushed),
        call_ensures(DenseOrderedMap::<T, N>::get, (final(map), key), found),
        call_ensures(DenseOrderedMap::<T, N>::get, (old(map), other), before),
        call_ensures(DenseOrderedMap::<T, N>::get, (final(map), other), after),
    ensures
        pushed is Ok ==> found is Some && *found->0 == value,
        before is Some <==> after is Some,
        before is Some ==> *before->0 == *after->0,
        pushed matches Err(error) ==> {
            &&& *final(map) == *old(map)
            &&& match error {
                DenseInsertError::OutOfOrder { expected, actual, value: returned } => actual == key
                    && returned == value && expected != key,
                DenseInsertError::KeySpaceExhausted { value: returned } => returned == value,
                DenseInsertError::CapacityExhausted { value: returned } => returned == value,
            }
        },
{
}

/// A truncation forgets exactly the keys below the one that it is given, and keeps every
/// other key with its value.
pub proof fn truncations_forget_what_lies_below<T, const N: usize>(
    map: &mut DenseOrderedMap<T, N>,
    first_retained: u128,
    removed: usize,
    key: u128,
    before: Option<&T>,
    after: Option<&T>,
)
    requires
        old(map)@.len() == old(map).spec_next_key() - old(map).spec_first_key(),
        call_ensures(DenseOrderedMap::<T, N>::truncate_before, (map, first_retained), removed),
        call_ensures(DenseOrderedMap::<T, N>::get, (old(map), key), before),
        call_ensures(DenseOrderedMap::<T, N>::get, (final(map), key), after),
    ensures
        key < first_retained ==> after is None,
        key >= first_retained ==> (after is Some <==> before is Some),
        after is Some ==> before is Some && *after->0 == *before->0,
        final(map)@.len() + removed == old(map)@.len(),
{
}

/// The oldest value leaves first, with its key, and the rest stays.
pub proof fn oldest_values_leave_first<T, const N: usize>(
    map: &mut DenseOrderedMap<T, N>,
    entry: Option<(u128, T)>,
    key: u128,
    before: Option<&T>,
    after: Option<&T>,
)
    requires
        old(map)@.len() == old(map).spec_next_key() - old(map).spec_first_key(),
        call_ensures(DenseOrderedMap::<T, N>::pop_front, (map,), entry),
        call_ensures(DenseOrderedMap::<T, N>::get, (old(map), key), before),
        call_ensures(DenseOrderedMap::<T, N>::get, (final(map), key), after),
    ensures
        entry is None <==> old(map)@.len() == 0,
        entry matches Some((oldest, value)) ==> {
            &&& key == oldest ==> before is Some && *before->0 == value && after is None
            &&& key != oldest ==> (after is Some <==> before is Some)
            &&& before is Some ==> oldest <= key
        },
        after is Some ==> before is Some && *after->0 == *before->0,
{
}

/// What is inserted under a key is found under it; a key that was there gives its old
/// value back and keeps its place, and no other key is affected.
pub proof fn inserted_values_are_found<K: OrderedKey, V, S: KeyHasher<K>, const N: usize>(
    map: &mut OrderedAppendMap<K, V, S, N>,
    key: K,
    value: V,
    previous: Option<V>,
    found: Option<&V>,
    other: K,
    before: Option<&V>,
    after: Option<&V>,
)
    requires
        old(map).wf(),
        final(map).wf(),
        other@ != key@,
        call_ensures(OrderedAppendMap::<K, V, S, N>::insert, (map, key, value), previous),
        call_ensures(OrderedAppendMap::<K, V, S, N>::get, (final(map), &key), found),
        call_ensures(OrderedAppendMap::<K, V, S, N>::get, (old(map), &other), before),
        call_ensures(OrderedAppendMap::<K, V, S, N>::get, (final(map), &other), after),
    ensures
        found is Some,
        *found->0 == value,
        before is Some <==> after is Some,
        before is Some ==> *before->0 == *after->0,
        previous is Some ==> final(map)@.len() == old(map)@.len(),
        previous is None ==> final(map)@.len() == old(map)@.len() + 1,
{
    old(map).lemma_wf();
    final(map).lemma_wf();
    let a = old(map)@;
    let b = final(map)@;
    if previous is Some {
        let index = choose|index: int| #[trigger]
            old(map).holds_at(key@, index) && previous->0 == a[index].1 && b == a.update(
                index,
                (key@, value),
            );
        assert(final(map).holds_at(key@, index));
    } else {
        assert(b[a.len() as int] == (key@, value));
        assert(final(map).holds_at(key@, a.len() as int));
    }
    if before is Some {
        let index = choose|index: int| #[trigger]
            old(map).holds_at(other@, index) && *before->0 == a[index].1;
        assert(b[index] == a[index]);
        assert(final(map).holds_at(other@, index));
    }
    if after is Some {
        let index = choose|index: int| #[trigger]
            final(map).holds_at(other@, index) && *after->0 == b[index].1;
        assert(index < a.len());
        assert(b[index] == a[index]);
        assert(old(map).holds_at(other@, index));
    }
}

/// A set of batches holds a batch exactly once it was inserted, within the stretch that the
/// set was made for.
pub proof fn batch_sets_hold_what_was_inserted(
    first: u128,
    len: usize,
    fresh: CommittedBatchSet,
    set: &mut CommittedBatchSet,
    batch_id: BatchId,
    other: BatchId,
    before: bool,
    held: bool,
    after: bool,
)
    requires
        call_ensures(CommittedBatchSet::new, (first, len), fresh),
        *old(set) == fresh,
        other != batch_id,
        call_ensures(CommittedBatchSet::contains, (&fresh, batch_id), before),
        call_ensures(CommittedBatchSet::insert, (set, batch_id), ()),
        call_ensures(CommittedBatchSet::contains, (final(set), batch_id), held),
        call_ensures(CommittedBatchSet::contains, (final(set), other), after),
    ensures
        !before,
        held <==> first <= batch_id.0 < first + len,
        !after,
{
    assert(fresh.covers(batch_id.0) <==> first <= batch_id.0 < first + len);
}

} // verus!
