//! A map for sparse keys that keeps insertion order.
use vstd::multiset::Multiset;
use vstd::prelude::*;

use crate::bytes::{le_bytes, push_le};
use crate::dense::DenseOrderedMap;
use crate::hashing::{xxh3_64, xxh3_64_of};

verus! {

/// What a key is: two keys are the same when their views are.
pub trait OrderedKey: View {
    fn same_key(&self, other: &Self) -> (same: bool)
        ensures
            same == (self@ == other@),
    ;
}

/// A hash function for keys; keys with the same view have the same hash.
pub trait KeyHasher<K: OrderedKey> {
    spec fn spec_hash(&self, key: K::V) -> u64;

    fn hash_one(&self, key: &K) -> (hash: u64)
        ensures
            hash == self.spec_hash(key@),
    ;
}

impl OrderedKey for u64 {
    fn same_key(&self, other: &Self) -> (same: bool) {
        *self == *other
    }
}

impl OrderedKey for u128 {
    fn same_key(&self, other: &Self) -> (same: bool) {
        *self == *other
    }
}

impl OrderedKey for String {
    fn same_key(&self, other: &Self) -> (same: bool) {
        *self == *other
    }
}

/// XXH3 over a key's bytes.
#[derive(Debug, Clone, Copy, PartialEq, Eq, Structural)]
pub struct Xxh3DefaultBuilder;

impl Default for Xxh3DefaultBuilder {
    fn default() -> (builder: Self)
        ensures
            builder == Xxh3DefaultBuilder,
    {
        Xxh3DefaultBuilder
    }
}

impl KeyHasher<u64> for Xxh3DefaultBuilder {
    open spec fn spec_hash(&self, key: u64) -> u64 {
        xxh3_64_of(le_bytes(key as nat, 8))
    }

    fn hash_one(&self, key: &u64) -> (hash: u64) {
        let mut bytes: Vec<u8> = Vec::new();
        push_le(&mut bytes, *key as u128, 8);
        proof {
            assert(bytes@ =~= le_bytes(*key as nat, 8));
        }
        xxh3_64(bytes.as_slice())
    }
}

impl KeyHasher<u128> for Xxh3DefaultBuilder {
    open spec fn spec_hash(&self, key: u128) -> u64 {
        xxh3_64_of(le_bytes(key as nat, 16))
    }

    fn hash_one(&self, key: &u128) -> (hash: u64) {
        let mut bytes: Vec<u8> = Vec::new();
        push_le(&mut bytes, *key, 16);
        proof {
            assert(bytes@ =~= le_bytes(*key as nat, 16));
        }
        xxh3_64(bytes.as_slice())
    }
}

impl KeyHasher<String> for Xxh3DefaultBuilder {
    /// The text's UTF-8 bytes and a closing byte that no text contains.
    open spec fn spec_hash(&self, key: Seq<char>) -> u64 {
        xxh3_64_of(vstd::utf8::encode_utf8(key).push(0xff))
    }

    fn hash_one(&self, key: &String) -> (hash: u64) {
        let text = key.as_str().as_bytes();
        let mut bytes: Vec<u8> = Vec::new();
        let mut index: usize = 0;
        while index < text.len()
            invariant
                index <= text@.len(),
                bytes@ == text@.take(index as int),
            decreases text@.len() - index,
        {
            bytes.push(text[index]);
            index += 1;
            proof {
                assert(bytes@ =~= text@.take(index as int));
            }
        }
        bytes.push(0xff);
        proof {
            assert(bytes@ =~= text@.push(0xff));
        }
        xxh3_64(bytes.as_slice())
    }
}

/// One entry, with the hash it was inserted under.
#[derive(Debug)]
pub struct OrderedEntry<K, V> {
    pub hash: u64,
    pub key: K,
    pub value: V,
}

/// Hashes and ordinals of the entries, findable by hash.
#[verifier::external_body]
#[derive(Debug)]
pub struct LookupTable {
    table: hashbrown::HashTable<(u64, u128)>,
}

/// The pairs of a hash and an ordinal that a table holds.
pub uninterp spec fn slots_of(table: LookupTable) -> Multiset<(u64, u128)>;

/// As many slots as a table may hold: its size, and that of the larger one that it
/// grows into, can be computed with room to spare.
pub open spec fn max_slots() -> nat {
    (usize::MAX / 512) as nat
}

/// Whether the entry of an ordinal is retained and has the key.
pub open spec fn ordinal_names<K: OrderedKey, V, const SEGMENT_CAPACITY: usize>(
    entries: DenseOrderedMap<OrderedEntry<K, V>, SEGMENT_CAPACITY>,
    ordinal: u128,
    key: K::V,
) -> bool {
    entries.retains(ordinal) && entries.value_at(ordinal).key@ == key
}

fn has_key<K: OrderedKey, V, const SEGMENT_CAPACITY: usize>(
    entries: &DenseOrderedMap<OrderedEntry<K, V>, SEGMENT_CAPACITY>,
    slot: &(u64, u128),
    key: &K,
) -> (has: bool)
    requires
        entries.wf(),
    ensures
        has == ordinal_names(*entries, slot.1, key@),
{
    match entries.get(slot.1) {
        Some(entry) => entry.key.same_key(key),
        None => false,
    }
}

fn has_ordinal(slot: &(u64, u128), ordinal: u128) -> (has: bool)
    ensures
        has == (slot.1 == ordinal),
{
    slot.1 == ordinal
}

/// Creates a table with `hashbrown::HashTable::with_capacity`: it holds nothing.
/// A capacity whose table size cannot be computed panics, so it is left out.
#[verifier::external_body]
fn new_table(capacity: usize) -> (table: LookupTable)
    requires
        capacity <= max_slots(),
    ensures
        slots_of(table) == Multiset::<(u64, u128)>::empty(),
{
    LookupTable { table: hashbrown::HashTable::with_capacity(capacity) }
}

/// Searches with `hashbrown::HashTable::find`: what it gives is a slot of the
/// table for which the test holds; it tries every slot under the hash, and
/// perhaps others, so when it gives none no slot under the hash passes.
#[verifier::external_body]
fn find_slot<K: OrderedKey, V, const SEGMENT_CAPACITY: usize>(
    table: &LookupTable,
    hash: u64,
    entries: &DenseOrderedMap<OrderedEntry<K, V>, SEGMENT_CAPACITY>,
    key: &K,
) -> (ordinal: Option<u128>)
    requires
        entries.wf(),
    ensures
        match ordinal {
            Some(found) => exists|h: u64| #[trigger]
                slots_of(*table).count((h, found)) > 0 && ordinal_names(*entries, found, key@),
            None => forall|other: u128| #[trigger]
                slots_of(*table).count((hash, other)) > 0 ==> !ordinal_names(*entries, other, key@),
        },
{
    table.table.find(hash, |slot| has_key(entries, slot, key)).map(|slot| slot.1)
}

/// Adds a slot with `hashbrown::HashTable::insert_unique`, which neither looks
/// for nor changes any other. A table whose size cannot be computed panics, so
/// it is left out.
#[verifier::external_body]
fn add_slot(table: &mut LookupTable, hash: u64, ordinal: u128)
    requires
        slots_of(*old(table)).len() < max_slots(),
    ensures
        slots_of(*final(table)) == slots_of(*old(table)).insert((hash, ordinal)),
{
    table.table.insert_unique(hash, (hash, ordinal), |slot| slot.0);
}

/// Removes a slot with `hashbrown::HashTable::find_entry` and the entry's
/// `remove`: one slot with the ordinal leaves, which is found if it lies under
/// the hash.
#[verifier::external_body]
fn remove_slot(table: &mut LookupTable, hash: u64, ordinal: u128) -> (removed: bool)
    ensures
        removed ==> exists|h: u64| #[trigger]
            slots_of(*old(table)).count((h, ordinal)) > 0 && slots_of(*final(table)) == slots_of(
                *old(table),
            ).remove((h, ordinal)),
        !removed ==> slots_of(*old(table)).count((hash, ordinal)) == 0 && slots_of(*final(table))
            == slots_of(*old(table)),
{
    match table.table.find_entry(hash, |slot| has_ordinal(slot, ordinal)) {
        Ok(entry) => {
            entry.remove();
            true
        },
        Err(_) => false,
    }
}

/// Append-ordered map for sparse keys.
///
/// The hash table stores only a precomputed hash and stable ordinal. Keys and
/// values remain in segmented insertion order. The view is the sequence of
/// keys and values in that order.
#[derive(Debug)]
pub struct OrderedAppendMap<K, V, S, const SEGMENT_CAPACITY: usize> {
    entries: DenseOrderedMap<OrderedEntry<K, V>, SEGMENT_CAPACITY>,
    lookup: LookupTable,
    hash_builder: S,
}

impl<K: OrderedKey, V, S, const SEGMENT_CAPACITY: usize> View for OrderedAppendMap<
    K,
    V,
    S,
    SEGMENT_CAPACITY,
> {
    type V = Seq<(K::V, V)>;

    closed spec fn view(&self) -> Seq<(K::V, V)> {
        self.entries@.map_values(|entry: OrderedEntry<K, V>| (entry.key@, entry.value))
    }
}

impl<K: OrderedKey, V, S, const SEGMENT_CAPACITY: usize> OrderedAppendMap<
    K,
    V,
    S,
    SEGMENT_CAPACITY,
> {
    /// The hashes of the entries, in order.
    pub closed spec fn hashes(self) -> Seq<u64> {
        self.entries@.map_values(|entry: OrderedEntry<K, V>| entry.hash)
    }

    /// The hash builder.
    pub closed spec fn builder(self) -> S {
        self.hash_builder
    }

    /// How many entries have ever been appended.
    pub closed spec fn appended(self) -> nat {
        self.entries.spec_next_key() as nat
    }

    spec fn slot(self, index: int) -> (u64, u128) {
        (self.entries@[index].hash, (self.entries.spec_first_key() + index) as u128)
    }

    /// The table has exactly one slot for each entry.
    spec fn indexed(self) -> bool {
        &&& slots_of(self.lookup).len() == self.entries@.len()
        &&& forall|i: int|
            0 <= i < self.entries@.len() ==> slots_of(self.lookup).count(#[trigger] self.slot(i))
                == 1
        &&& forall|slot: (u64, u128)| #[trigger]
            slots_of(self.lookup).count(slot) > 0 ==> {
                let i = slot.1 - self.entries.spec_first_key();
                0 <= i < self.entries@.len() && self.slot(i) == slot
            }
    }

    /// Entries are dense, indexed once each, and no key occurs twice.
    pub closed spec fn wf(self) -> bool {
        &&& self.entries.wf()
        &&& self.indexed()
        &&& forall|i: int, j: int|
            0 <= i < j < self.entries@.len() ==> (#[trigger] self.entries@[i]).key@ != (
            #[trigger] self.entries@[j]).key@
    }

    /// An entry with this key, if there is one, was inserted under this hash.
    pub open spec fn hashed_as(self, key: K::V, hash: u64) -> bool {
        forall|i: int|
            0 <= i < self@.len() && (#[trigger] self@[i]).0 == key ==> self.hashes()[i] == hash
    }

    /// Position of a key.
    pub open spec fn holds_at(self, key: K::V, index: int) -> bool {
        0 <= index < self@.len() && self@[index].0 == key
    }

    pub open spec fn holds(self, key: K::V) -> bool {
        exists|index: int| self.holds_at(key, index)
    }

    /// What the invariant says in terms of the view.
    pub proof fn lemma_wf(self)
        requires
            self.wf(),
        ensures
            self.hashes().len() == self@.len(),
            forall|i: int, j: int|
                0 <= i < j < self@.len() ==> (#[trigger] self@[i]).0 != (#[trigger] self@[j]).0,
    {
        assert forall|i: int, j: int| 0 <= i < j < self@.len() implies (#[trigger] self@[i]).0 != (
        #[trigger] self@[j]).0 by {
            assert(self.entries@[i].key@ != self.entries@[j].key@);
        }
    }

    /// Creates an empty ordered map with an explicit hash builder.
    #[must_use]
    pub fn with_hasher(hash_builder: S) -> (map: Self)
        requires
            SEGMENT_CAPACITY > 0,
        ensures
            map.wf(),
            map@ == Seq::<(K::V, V)>::empty(),
            map.appended() == 0,
            map.builder() == hash_builder,
    {
        Self::with_capacity_and_hasher(0, hash_builder)
    }

    /// Creates an empty ordered map with a lookup-table capacity hint.
    #[must_use]
    pub fn with_capacity_and_hasher(capacity: usize, hash_builder: S) -> (map: Self)
        requires
            SEGMENT_CAPACITY > 0,
            capacity <= max_slots(),
        ensures
            map.wf(),
            map@ == Seq::<(K::V, V)>::empty(),
            map.appended() == 0,
            map.builder() == hash_builder,
    {
        let map = OrderedAppendMap {
            entries: DenseOrderedMap::new(0),
            lookup: new_table(capacity),
            hash_builder,
        };
        proof {
            assert(map@ =~= Seq::<(K::V, V)>::empty());
        }
        map
    }

    /// Number of retained entries.
    #[must_use]
    pub fn len(&self) -> (len: usize)
        requires
            self.wf(),
        ensures
            len == self@.len(),
    {
        self.entries.len()
    }

    /// Returns whether the map contains no entries.
    #[must_use]
    pub fn is_empty(&self) -> (empty: bool)
        requires
            self.wf(),
        ensures
            empty == (self@.len() == 0),
    {
        self.entries.is_empty()
    }

    /// The ordinal of a key.
    fn find(&self, hash: u64, key: &K) -> (ordinal: Option<u128>)
        requires
            self.wf(),
            self.hashed_as(key@, hash),
        ensures
            match ordinal {
                Some(found) => self.entries.retains(found) && self.holds_at(
                    key@,
                    found - self.entries.spec_first_key(),
                ),
                None => !self.holds(key@),
            },
    {
        let found = find_slot(&self.lookup, hash, &self.entries, key);
        proof {
            self.entries.lemma_wf();
            if found is None {
                assert forall|index: int| !self.holds_at(key@, index) by {
                    if self.holds_at(key@, index) {
                        assert(self@[index].0 == key@);
                        assert(self.hashes()[index] == hash);
                        let ordinal = (self.entries.spec_first_key() + index) as u128;
                        assert(slots_of(self.lookup).count(self.slot(index)) == 1);
                        assert(slots_of(self.lookup).count((hash, ordinal)) > 0);
                        assert(ordinal_names(self.entries, ordinal, key@));
                    }
                }
            }
        }
        found
    }

    /// Inserts using a caller-provided hash.
    ///
    /// Callers must use the same hash for subsequent prehashed lookups.
    pub fn insert_prehashed(&mut self, hash: u64, key: K, value: V) -> (previous: Option<V>)
        requires
            old(self).wf(),
            old(self).hashed_as(key@, hash),
            old(self)@.len() < max_slots(),
            old(self).appended() < u128::MAX,
        ensures
            final(self).wf(),
            final(self).builder() == old(self).builder(),
            match previous {
                Some(replaced) => exists|index: int| #[trigger]
                    old(self).holds_at(key@, index) && replaced == old(self)@[index].1 && final(self)@ == old(self)@.update(index, (key@, value)) && final(self).hashes() == old(self).hashes() && final(self).appended() == old(self).appended(),
                None => {
                    &&& !old(self).holds(key@)
                    &&& final(self)@ == old(self)@.push((key@, value))
                    &&& final(self).hashes() == old(self).hashes().push(hash)
                    &&& final(self).appended() == old(self).appended() + 1
                },
            },
    {
        let ghost before = *self;
        proof {
            self.entries.lemma_wf();
        }
        if let Some(ordinal) = self.find(hash, &key) {
            let ghost index = ordinal - before.entries.spec_first_key();
            return self.replace_value(ordinal, value, Ghost(key@));
        }
        let ordinal: u128 = self.entries.next_key();
        let entry = OrderedEntry { hash, key, value };
        let ghost pushed = entry;
        let result = self.entries.push(ordinal, entry);
        add_slot(&mut self.lookup, hash, ordinal);
        proof {
            self.entries.lemma_wf();
            assert(result is Ok);
            assert(self.entries@ == before.entries@.push(pushed));
            assert(self@ =~= before@.push((pushed.key@, value)));
            assert(self.hashes() =~= before.hashes().push(hash));
            let n = before.entries@.len() as int;
            assert forall|i: int| 0 <= i < self.entries@.len() implies slots_of(self.lookup).count(
                #[trigger] self.slot(i),
            ) == 1 by {
                if i < n {
                    assert(self.slot(i) == before.slot(i));
                    assert(slots_of(before.lookup).count(before.slot(i)) == 1);
                    assert(self.slot(i).1 != ordinal);
                } else {
                    assert(self.slot(i) == (hash, ordinal));
                    assert(slots_of(before.lookup).count((hash, ordinal)) == 0);
                }
            }
            assert forall|slot: (u64, u128)| #[trigger]
                slots_of(self.lookup).count(slot) > 0 implies {
                let i = slot.1 - self.entries.spec_first_key();
                0 <= i < self.entries@.len() && self.slot(i) == slot
            } by {
                if slot == (hash, ordinal) {
                    assert(self.slot(n) == slot);
                } else {
                    assert(slots_of(before.lookup).count(slot) > 0);
                    let i = slot.1 - before.entries.spec_first_key();
                    assert(self.slot(i) == before.slot(i));
                }
            }
            assert forall|i: int, j: int| 0 <= i < j < self.entries@.len() implies (
            #[trigger] self.entries@[i]).key@ != (#[trigger] self.entries@[j]).key@ by {
                if j == n {
                    if self.entries@[i].key@ == pushed.key@ {
                        assert(before.holds_at(pushed.key@, i));
                    }
                } else {
                    assert(before.entries@[i].key@ != before.entries@[j].key@);
                }
            }
        }
        None
    }

    fn replace_value(&mut self, ordinal: u128, value: V, Ghost(key): Ghost<K::V>) -> (previous:
        Option<V>)
        requires
            old(self).wf(),
            old(self).entries.retains(ordinal),
            old(self).holds_at(key, ordinal - old(self).entries.spec_first_key()),
        ensures
            final(self).wf(),
            final(self).builder() == old(self).builder(),
            ({
                let index = ordinal - old(self).entries.spec_first_key();
                &&& previous == Some(old(self)@[index].1)
                &&& final(self)@ == old(self)@.update(index, (key, value))
                &&& final(self).hashes() == old(self).hashes()
                &&& final(self).appended() == old(self).appended()
            }),
    {
        let ghost before = *self;
        let ghost index = ordinal - before.entries.spec_first_key();
        let mut held = value;
        proof {
            self.entries.lemma_wf();
        }
        if let Some(entry) = self.entries.get_mut(ordinal) {
            std::mem::swap(&mut entry.value, &mut held);
        }
        proof {
            self.entries.lemma_wf();
            let old_entry = before.entries@[index];
            let new_entry = self.entries@[index];
            assert(new_entry == (OrderedEntry { value, ..old_entry }));
            assert(self.entries@ == before.entries@.update(index, new_entry));
            assert(self@ =~= before@.update(index, (key, value)));
            assert(self.hashes() =~= before.hashes());
            self.lemma_same_shape(before);
        }
        Some(held)
    }

    /// The invariant does not depend on the values.
    proof fn lemma_same_shape(self, before: Self)
        requires
            before.wf(),
            self.entries.wf(),
            self.lookup == before.lookup,
            self.entries.spec_first_key() == before.entries.spec_first_key(),
            self.entries@.len() == before.entries@.len(),
            forall|i: int|
                0 <= i < before.entries@.len() ==> (#[trigger] self.entries@[i]).hash
                    == before.entries@[i].hash && self.entries@[i].key == before.entries@[i].key,
        ensures
            self.wf(),
    {
        assert forall|i: int| 0 <= i < self.entries@.len() implies slots_of(self.lookup).count(
            #[trigger] self.slot(i),
        ) == 1 by {
            assert(self.entries@[i].hash == before.entries@[i].hash);
            assert(self.slot(i) == before.slot(i));
        }
        assert forall|slot: (u64, u128)| #[trigger]
            slots_of(self.lookup).count(slot) > 0 implies {
            let i = slot.1 - self.entries.spec_first_key();
            0 <= i < self.entries@.len() && self.slot(i) == slot
        } by {
            let i = slot.1 - self.entries.spec_first_key();
            assert(before.slot(i) == slot);
            assert(self.entries@[i].hash == before.entries@[i].hash);
        }
        assert forall|i: int, j: int| 0 <= i < j < self.entries@.len() implies (
        #[trigger] self.entries@[i]).key@ != (#[trigger] self.entries@[j]).key@ by {
            assert(before.entries@[i].key@ != before.entries@[j].key@);
        }
    }

    /// Returns a value using a caller-provided hash.
    #[must_use]
    pub fn get_prehashed(&self, hash: u64, key: &K) -> (value: Option<&V>)
        requires
            self.wf(),
            self.hashed_as(key@, hash),
        ensures
            match value {
                Some(v) => exists|index: int| #[trigger]
                    self.holds_at(key@, index) && *v == self@[index].1,
                None => !self.holds(key@),
            },
    {
        match self.find(hash, key) {
            None => None,
            Some(ordinal) => {
                let ghost index = ordinal - self.entries.spec_first_key();
                match self.entries.get(ordinal) {
                    Some(entry) => {
                        assert(self.holds_at(key@, index) && entry.value == self@[index].1);
                        Some(&entry.value)
                    },
                    None => None,
                }
            },
        }
    }

    /// Removes the oldest retained key and value.
    pub fn pop_front(&mut self) -> (entry: Option<(K, V)>)
        requires
            old(self).wf(),
        ensures
            final(self).wf(),
            final(self).builder() == old(self).builder(),
            final(self).appended() == old(self).appended(),
            match entry {
                Some((key, value)) => {
                    &&& old(self)@.len() > 0
                    &&& (key@, value) == old(self)@[0]
                    &&& final(self)@ == old(self)@.skip(1)
                    &&& final(self).hashes() == old(self).hashes().skip(1)
                },
                None => old(self)@.len() == 0 && *final(self) == *old(self),
            },
    {
        let ghost before = *self;
        proof {
            self.entries.lemma_wf();
        }
        let ordinal: u128 = self.entries.first_key();
        let hash: u64 = match self.entries.get(ordinal) {
            Some(entry) => entry.hash,
            None => {
                return None;
            },
        };
        proof {
            assert(before.slot(0) == (hash, ordinal));
            assert(slots_of(before.lookup).count(before.slot(0)) == 1);
        }
        let removed = remove_slot(&mut self.lookup, hash, ordinal);
        proof {
            assert(removed);
            let h = choose|h: u64| #[trigger]
                slots_of(before.lookup).count((h, ordinal)) > 0 && slots_of(self.lookup)
                    == slots_of(before.lookup).remove((h, ordinal));
            assert(before.slot(0) == (h, ordinal));
        }
        match self.entries.pop_front() {
            None => None,
            Some((_, entry)) => {
                proof {
                    self.entries.lemma_wf();
                    assert(self.entries@ == before.entries@.skip(1));
                    assert(self@ =~= before@.skip(1));
                    assert(self.hashes() =~= before.hashes().skip(1));
                    assert forall|i: int| 0 <= i < self.entries@.len() implies slots_of(
                        self.lookup,
                    ).count(#[trigger] self.slot(i)) == 1 by {
                        assert(self.slot(i) == before.slot(i + 1));
                        assert(slots_of(before.lookup).count(before.slot(i + 1)) == 1);
                        assert(self.slot(i) != (hash, ordinal));
                    }
                    assert forall|slot: (u64, u128)| #[trigger]
                        slots_of(self.lookup).count(slot) > 0 implies {
                        let i = slot.1 - self.entries.spec_first_key();
                        0 <= i < self.entries@.len() && self.slot(i) == slot
                    } by {
                        assert(slots_of(before.lookup).count(slot) > 0);
                        let i = slot.1 - before.entries.spec_first_key();
                        assert(before.slot(i) == slot);
                        if i == 0 {
                            assert(slots_of(before.lookup).count(slot) == 1);
                        } else {
                            assert(self.slot(i - 1) == before.slot(i));
                        }
                    }
                    assert forall|i: int, j: int| 0 <= i < j < self.entries@.len() implies (
                    #[trigger] self.entries@[i]).key@ != (#[trigger] self.entries@[j]).key@ by {
                        assert(before.entries@[i + 1].key@ != before.entries@[j + 1].key@);
                    }
                }
                Some((entry.key, entry.value))
            },
        }
    }

    /// Removes at most `count` entries from the insertion-order prefix.
    pub fn truncate_front(&mut self, count: usize) -> (removed: usize)
        requires
            old(self).wf(),
        ensures
            final(self).wf(),
            final(self).builder() == old(self).builder(),
            final(self).appended() == old(self).appended(),
            removed == (if count as nat <= old(self)@.len() {
                count as nat
            } else {
                old(self)@.len()
            }),
            final(self)@ == old(self)@.skip(removed as int),
            final(self).hashes() == old(self).hashes().skip(removed as int),
    {
        let mut removed: usize = 0;
        let ghost before = *self;
        proof {
            before.lemma_wf();
            assert(before@.skip(0) =~= before@);
            assert(before.hashes().skip(0) =~= before.hashes());
        }
        while removed < count
            invariant
                before.wf(),
                before.hashes().len() == before@.len(),
                self.wf(),
                removed <= count,
                removed <= before@.len(),
                self.builder() == before.builder(),
                self.appended() == before.appended(),
                self@ == before@.skip(removed as int),
                self.hashes() == before.hashes().skip(removed as int),
            ensures
                removed == count || self@.len() == 0,
            decreases count - removed,
        {
            if self.pop_front().is_none() {
                break;
            }
            removed += 1;
            proof {
                assert(self@ =~= before@.skip(removed as int));
                assert(self.hashes() =~= before.hashes().skip(removed as int));
            }
        }
        removed
    }

    /// Sparse keys and values in insertion order.
    pub fn iter(&self) -> (entries: Vec<(&K, &V)>)
        requires
            self.wf(),
        ensures
            entries@.len() == self@.len(),
            forall|i: int|
                0 <= i < self@.len() ==> (#[trigger] entries@[i]).0@ == self@[i].0 && *entries@[i].1
                    == self@[i].1,
    {
        let values = self.entries.values();
        let mut entries: Vec<(&K, &V)> = Vec::new();
        let mut index: usize = 0;
        while index < values.len()
            invariant
                index <= values@.len(),
                values@.len() == self.entries@.len(),
                forall|i: int|
                    0 <= i < values@.len() ==> *(#[trigger] values@[i]) == self.entries@[i],
                entries@.len() == index,
                forall|i: int|
                    0 <= i < index ==> (#[trigger] entries@[i]).0@ == self@[i].0 && *entries@[i].1
                        == self@[i].1,
            decreases values@.len() - index,
        {
            let entry = values[index];
            assert(*values@[index as int] == self.entries@[index as int]);
            entries.push((&entry.key, &entry.value));
            index += 1;
        }
        entries
    }
}

impl<
    K: OrderedKey,
    V,
    S: KeyHasher<K>,
    const SEGMENT_CAPACITY: usize,
> OrderedAppendMap<K, V, S, SEGMENT_CAPACITY> {
    /// Every entry was inserted under the hash of its key.
    pub open spec fn uniform(self) -> bool {
        forall|i: int|
            0 <= i < self@.len() ==> #[trigger] self.hashes()[i] == self.builder().spec_hash(
                self@[i].0,
            )
    }

    /// Inserts a sparse key, preserving its original ordinal when replaced.
    pub fn insert(&mut self, key: K, value: V) -> (previous: Option<V>)
        requires
            old(self).wf(),
            old(self).uniform(),
            old(self)@.len() < max_slots(),
            old(self).appended() < u128::MAX,
        ensures
            final(self).wf(),
            final(self).uniform(),
            final(self).builder() == old(self).builder(),
            match previous {
                Some(replaced) => exists|index: int| #[trigger]
                    old(self).holds_at(key@, index) && replaced == old(self)@[index].1 && final(self)@ == old(self)@.update(index, (key@, value)) && final(self).appended() == old(self).appended(),
                None => {
                    &&& !old(self).holds(key@)
                    &&& final(self)@ == old(self)@.push((key@, value))
                    &&& final(self).appended() == old(self).appended() + 1
                },
            },
    {
        let ghost before = *self;
        let hash: u64 = self.hash_builder.hash_one(&key);
        proof {
            before.lemma_wf();
        }
        let previous = self.insert_prehashed(hash, key, value);
        proof {
            self.lemma_wf();
            assert forall|i: int| 0 <= i < self@.len() implies #[trigger] self.hashes()[i]
                == self.builder().spec_hash(self@[i].0) by {
                if i < before@.len() {
                    assert(before.hashes()[i] == before.builder().spec_hash(before@[i].0));
                }
            }
        }
        previous
    }

    /// Returns a value for a sparse key.
    #[must_use]
    pub fn get(&self, key: &K) -> (value: Option<&V>)
        requires
            self.wf(),
            self.uniform(),
        ensures
            match value {
                Some(v) => exists|index: int| #[trigger]
                    self.holds_at(key@, index) && *v == self@[index].1,
                None => !self.holds(key@),
            },
    {
        proof {
            self.lemma_wf();
        }
        let hash: u64 = self.hash_builder.hash_one(key);
        self.get_prehashed(hash, key)
    }

    /// What the map holds after the value of one entry was overwritten.
    proof fn lemma_value_written(self, before: Self, index: int, key: K::V, value: V)
        requires
            before.wf(),
            before.uniform(),
            before.holds_at(key, index),
            self.entries.wf(),
            self.lookup == before.lookup,
            self.hash_builder == before.hash_builder,
            self.entries.spec_first_key() == before.entries.spec_first_key(),
            self.entries@ == before.entries@.update(
                index,
                OrderedEntry { value, ..before.entries@[index] },
            ),
        ensures
            self.wf(),
            self.uniform(),
            self@ == before@.update(index, (key, value)),
            self.builder() == before.builder(),
            self.appended() == before.appended(),
    {
        before.lemma_wf();
        before.entries.lemma_wf();
        self.entries.lemma_wf();
        self.lemma_same_shape(before);
        assert(self@ =~= before@.update(index, (key, value)));
        assert(self.hashes() =~= before.hashes());
        assert forall|i: int| 0 <= i < self@.len() implies #[trigger] self.hashes()[i]
            == self.builder().spec_hash(self@[i].0) by {
            assert(before.hashes()[i] == before.builder().spec_hash(before@[i].0));
        }
    }

    /// Returns a mutable value for a sparse key.
    pub fn get_mut(&mut self, key: &K) -> (value: Option<&mut V>)
        requires
            old(self).wf(),
            old(self).uniform(),
        ensures
            match value {
                Some(v) => exists|index: int| #[trigger]
                    old(self).holds_at(key@, index) && *v == old(self)@[index].1 && final(self).wf()
                        && final(self).uniform() && final(self)@ == old(self)@.update(
                        index,
                        (key@, *final(v)),
                    ) && final(self).builder() == old(self).builder() && final(self).appended()
                        == old(self).appended(),
                None => !old(self).holds(key@) && *final(self) == *old(self),
            },
    {
        let ghost before = *self;
        proof {
            self.lemma_wf();
            self.entries.lemma_wf();
        }
        let hash: u64 = self.hash_builder.hash_one(key);
        match self.find(hash, key) {
            None => None,
            Some(ordinal) => {
                let ghost index = ordinal - before.entries.spec_first_key();
                match self.entries.get_mut(ordinal) {
                    None => None,
                    Some(entry) => {
                        let value = &mut entry.value;
                        proof {
                            after_borrow(*self).lemma_value_written(
                                before,
                                index,
                                key@,
                                *final(value),
                            );
                        }
                        Some(value)
                    },
                }
            },
        }
    }
}

/// The entries after one more was inserted: it takes the place of the entry
/// with its key, or the last place.
pub open spec fn with_entry<K, V>(entries: Seq<(K, V)>, entry: (K, V)) -> Seq<(K, V)> {
    if exists|i: int| 0 <= i < entries.len() && (#[trigger] entries[i]).0 == entry.0 {
        entries.update(
            choose|i: int| 0 <= i < entries.len() && (#[trigger] entries[i]).0 == entry.0,
            entry,
        )
    } else {
        entries.push(entry)
    }
}

/// The entries after more were inserted one by one.
pub open spec fn with_entries<K, V>(entries: Seq<(K, V)>, more: Seq<(K, V)>) -> Seq<(K, V)>
    decreases more.len(),
{
    if more.len() == 0 {
        entries
    } else {
        with_entry(with_entries(entries, more.drop_last()), more.last())
    }
}

/// Keys and values, with the keys taken by their views.
pub open spec fn entry_views<K: OrderedKey, V>(entries: Seq<(K, V)>) -> Seq<(K::V, V)> {
    entries.map_values(|entry: (K, V)| (entry.0@, entry.1))
}

impl<
    K: OrderedKey,
    V,
    S: KeyHasher<K>,
    const SEGMENT_CAPACITY: usize,
> OrderedAppendMap<K, V, S, SEGMENT_CAPACITY> {
    /// Inserts entries one by one.
    pub fn extend(&mut self, entries: Vec<(K, V)>)
        requires
            old(self).wf(),
            old(self).uniform(),
            old(self)@.len() + entries@.len() <= max_slots(),
            old(self).appended() + entries@.len() <= u128::MAX,
        ensures
            final(self).wf(),
            final(self).uniform(),
            final(self).builder() == old(self).builder(),
            final(self)@ == with_entries(old(self)@, entry_views(entries@)),
    {
        let ghost before = *self;
        let ghost all = entries@;
        let ghost views = entry_views(entries@);
        proof {
            assert(views.take(0) =~= Seq::empty());
        }
        for entry in iter: entries
            invariant
                iter.seq() == all,
                views == entry_views(all),
                self.wf(),
                self.uniform(),
                self.builder() == before.builder(),
                self@ == with_entries(before@, views.take(iter.index() as int)),
                self@.len() <= before@.len() + iter.index(),
                self.appended() <= before.appended() + iter.index(),
                before@.len() + all.len() <= max_slots(),
                before.appended() + all.len() <= u128::MAX,
        {
            let ghost at = iter.index() as int;
            let ghost held = *self;
            let (key, value) = entry;
            let ghost name = key@;
            let previous = self.insert(key, value);
            proof {
                assert(views.take(at + 1).drop_last() =~= views.take(at));
                assert(views.take(at + 1).last() == (name, value));
                if previous is Some {
                    let index = choose|index: int| #[trigger]
                        held.holds_at(name, index) && previous->0 == held@[index].1 && self@
                            == held@.update(index, (name, value)) && self.appended()
                            == held.appended();
                    assert(held@[index].0 == name);
                    let other = choose|i: int|
                        0 <= i < held@.len() && (#[trigger] held@[i]).0 == name;
                    assert(held.holds_at(name, other));
                    held.keys_are_unique(name, index, other);
                } else {
                    assert forall|i: int| 0 <= i < held@.len() implies (
                    #[trigger] held@[i]).0 != name by {
                        assert(!held.holds_at(name, i));
                    }
                }
                assert(self@ == with_entry(held@, (name, value)));
            }
        }
        proof {
            assert(views.take(views.len() as int) =~= views);
        }
    }
}

impl<
    K: OrderedKey,
    V,
    S: KeyHasher<K> + Default,
    const SEGMENT_CAPACITY: usize,
> OrderedAppendMap<K, V, S, SEGMENT_CAPACITY> {
    /// Creates an empty ordered map.
    #[must_use]
    pub fn new() -> (map: Self)
        requires
            SEGMENT_CAPACITY > 0,
        ensures
            map.wf(),
            map.uniform(),
            map@ == Seq::<(K::V, V)>::empty(),
            map.appended() == 0,
    {
        Self::with_hasher(S::default())
    }

    /// Creates an ordered map of entries that are inserted one by one.
    pub fn from_iter(entries: Vec<(K, V)>) -> (map: Self)
        requires
            SEGMENT_CAPACITY > 0,
            entries@.len() <= max_slots(),
        ensures
            map.wf(),
            map.uniform(),
            map@ == with_entries(Seq::empty(), entry_views(entries@)),
    {
        let mut map = Self::new();
        map.extend(entries);
        map
    }

    /// Creates an empty ordered map with a lookup-table capacity hint.
    #[must_use]
    pub fn with_capacity(capacity: usize) -> (map: Self)
        requires
            SEGMENT_CAPACITY > 0,
            capacity <= max_slots(),
        ensures
            map.wf(),
            map.uniform(),
            map@ == Seq::<(K::V, V)>::empty(),
            map.appended() == 0,
    {
        Self::with_capacity_and_hasher(capacity, S::default())
    }
}

impl<K: OrderedKey, V, S, const SEGMENT_CAPACITY: usize> OrderedAppendMap<
    K,
    V,
    S,
    SEGMENT_CAPACITY,
> {
    /// A replaced key keeps its place, and the order of all keys stays; a new
    /// key comes last and leaves every other where it was.
    pub proof fn replacement_keeps_order(before: Self, after: Self, index: int, key: K::V, value: V)
        requires
            before.wf(),
            before.holds_at(key, index),
            after@ == before@.update(index, (key, value)),
        ensures
            after.holds_at(key, index),
            after@[index].1 == value,
            after@.len() == before@.len(),
            forall|i: int|
                0 <= i < before@.len() ==> (#[trigger] after@[i]).0 == before@[i].0 && (i != index
                    ==> after@[i].1 == before@[i].1),
    {
    }

    /// A key is found under one position only.
    pub proof fn keys_are_unique(self, key: K::V, one: int, other: int)
        requires
            self.wf(),
            self.holds_at(key, one),
            self.holds_at(key, other),
        ensures
            one == other,
    {
        self.lemma_wf();
        if one < other {
            assert(self@[one].0 != self@[other].0);
        } else if other < one {
            assert(self@[other].0 != self@[one].0);
        }
    }
}

} // verus!
