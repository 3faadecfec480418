//! Hash maps under one and two integer keys.
use std::collections::HashMap;

use vstd::prelude::*;
use vstd::std_specs::iter::IteratorSpec;

verus! {

broadcast use vstd::std_specs::hash::group_hash_axioms;

/// The keys of a map, each once.
pub fn map_keys<V>(map: &HashMap<u128, V>) -> (keys: Vec<u128>)
    ensures
        keys@.no_duplicates(),
        forall|key: u128| #[trigger] keys@.contains(key) <==> map@.contains_key(key),
{
    let mut keys: Vec<u128> = Vec::new();
    for key in iter: map.keys()
        invariant
            iter.seq().unref().to_set() == map@.dom(),
            iter.seq().no_duplicates(),
            keys@ == iter.seq().unref().take(iter.index() as int),
    {
        keys.push(*key);
        proof {
            assert(keys@ =~= iter.seq().unref().take(iter.index() as int + 1));
        }
    }
    proof {
        let all = map.keys().remaining().unref();
        assert(keys@ =~= all);
        assert forall|key: u128| #[trigger] keys@.contains(key) <==> map@.contains_key(key) by {
            assert(all.to_set().contains(key) <==> all.contains(key));
        }
        assert forall|i: int, j: int| 0 <= i < keys@.len() && 0 <= j < keys@.len() && i
            != j implies keys@[i] != keys@[j] by {
            assert(map.keys().remaining()[i] != map.keys().remaining()[j]);
        }
    }
    keys
}

/// A hash map under a pair of integers.
///
/// The view is the map from pairs to values.
#[derive(Debug)]
pub struct PairMap<V> {
    rows: HashMap<u128, HashMap<u128, V>>,
}

impl<V> View for PairMap<V> {
    type V = Map<(u128, u128), V>;

    closed spec fn view(&self) -> Map<(u128, u128), V> {
        Map::new(
            |key: (u128, u128)|
                self.rows@.contains_key(key.0) && self.rows@[key.0]@.contains_key(key.1),
            |key: (u128, u128)| self.rows@[key.0]@[key.1],
        )
    }
}

impl<V> PairMap<V> {
    pub fn new() -> (map: Self)
        ensures
            map@ == Map::<(u128, u128), V>::empty(),
    {
        let map = PairMap { rows: HashMap::new() };
        proof {
            assert(map@ =~= Map::<(u128, u128), V>::empty());
        }
        map
    }

    pub fn get(&self, row: u128, column: u128) -> (value: Option<&V>)
        ensures
            match value {
                Some(v) => self@.contains_key((row, column)) && *v == self@[(row, column)],
                None => !self@.contains_key((row, column)),
            },
    {
        match self.rows.get(&row) {
            Some(columns) => columns.get(&column),
            None => None,
        }
    }

    pub fn contains_key(&self, row: u128, column: u128) -> (contains: bool)
        ensures
            contains == self@.contains_key((row, column)),
    {
        self.get(row, column).is_some()
    }

    /// Stores a value and gives back the one it replaces.
    pub fn insert(&mut self, row: u128, column: u128, value: V) -> (previous: Option<V>)
        ensures
            final(self)@ == old(self)@.insert((row, column), value),
            previous == (if old(self)@.contains_key((row, column)) {
                Some(old(self)@[(row, column)])
            } else {
                None
            }),
    {
        let mut columns = match self.rows.remove(&row) {
            Some(columns) => columns,
            None => HashMap::new(),
        };
        let previous = columns.insert(column, value);
        self.rows.insert(row, columns);
        proof {
            assert(self@ =~= old(self)@.insert((row, column), value));
        }
        previous
    }

    /// Takes a value out.
    pub fn remove(&mut self, row: u128, column: u128) -> (removed: Option<V>)
        ensures
            final(self)@ == old(self)@.remove((row, column)),
            removed == (if old(self)@.contains_key((row, column)) {
                Some(old(self)@[(row, column)])
            } else {
                None
            }),
    {
        match self.rows.remove(&row) {
            Some(mut columns) => {
                let removed = columns.remove(&column);
                self.rows.insert(row, columns);
                proof {
                    assert(self@ =~= old(self)@.remove((row, column)));
                }
                removed
            },
            None => {
                proof {
                    assert(self@ =~= old(self)@.remove((row, column)));
                }
                None
            },
        }
    }

    /// The keys, each once.
    pub fn keys(&self) -> (keys: Vec<(u128, u128)>)
        ensures
            keys@.no_duplicates(),
            forall|key: (u128, u128)| #[trigger] keys@.contains(key) <==> self@.contains_key(key),
    {
        let rows = map_keys(&self.rows);
        let mut keys: Vec<(u128, u128)> = Vec::new();
        let mut index: usize = 0;
        while index < rows.len()
            invariant
                index <= rows@.len(),
                rows@.no_duplicates(),
                forall|row: u128| #[trigger] rows@.contains(row) <==> self.rows@.contains_key(row),
                keys@.no_duplicates(),
                forall|key: (u128, u128)| #[trigger]
                    keys@.contains(key) <==> self@.contains_key(key) && rows@.take(
                        index as int,
                    ).contains(key.0),
            decreases rows@.len() - index,
        {
            let row: u128 = rows[index];
            let ghost done = rows@.take(index as int);
            proof {
                assert(rows@.contains(row));
                assert(rows@.take(index + 1) =~= done.push(row));
                assert(!done.contains(row)) by {
                    if done.contains(row) {
                        let i = choose|i: int| 0 <= i < done.len() && done[i] == row;
                        assert(rows@[i] == rows@[index as int]);
                    }
                }
            }
            if let Some(columns) = self.rows.get(&row) {
                let names = map_keys(columns);
                let mut at: usize = 0;
                while at < names.len()
                    invariant
                        at <= names@.len(),
                        names@.no_duplicates(),
                        self.rows@.contains_key(row),
                        columns@ == self.rows@[row]@,
                        forall|column: u128| #[trigger]
                            names@.contains(column) <==> columns@.contains_key(column),
                        keys@.no_duplicates(),
                        !done.contains(row),
                        forall|key: (u128, u128)| #[trigger]
                            keys@.contains(key) <==> self@.contains_key(key) && (done.contains(
                                key.0,
                            ) || key.0 == row && names@.take(at as int).contains(key.1)),
                    decreases names@.len() - at,
                {
                    let column: u128 = names[at];
                    let ghost before = keys@;
                    proof {
                        assert(names@.contains(column));
                        assert(names@.take(at + 1) =~= names@.take(at as int).push(column));
                        assert(!names@.take(at as int).contains(column)) by {
                            if names@.take(at as int).contains(column) {
                                let i = choose|i: int|
                                    0 <= i < at && names@.take(at as int)[i] == column;
                                assert(names@[i] == names@[at as int]);
                            }
                        }
                        assert(!before.contains((row, column)));
                    }
                    keys.push((row, column));
                    proof {
                        lemma_push_contains(before, (row, column));
                        lemma_push_contains(names@.take(at as int), column);
                    }
                    at += 1;
                }
                proof {
                    assert(names@.take(at as int) =~= names@);
                }
            }
            proof {
                lemma_push_contains(done, row);
            }
            index += 1;
        }
        proof {
            assert(rows@.take(index as int) =~= rows@);
        }
        keys
    }
}

proof fn lemma_push_contains<A>(s: Seq<A>, a: A)
    ensures
        forall|x: A| #[trigger] s.push(a).contains(x) <==> s.contains(x) || x == a,
{
    assert forall|x: A| #[trigger] s.push(a).contains(x) <==> s.contains(x) || x == a by {
        if s.contains(x) {
            let i = choose|i: int| 0 <= i < s.len() && s[i] == x;
            assert(s.push(a)[i] == x);
        }
        if x == a {
            assert(s.push(a)[s.len() as int] == x);
        }
    }
}

} // verus!
