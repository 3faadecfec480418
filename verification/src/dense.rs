//! Segmented storage for values under dense, increasing `u128` keys.
use std::cmp::Ordering;
use std::collections::VecDeque;

use vstd::arithmetic::div_mod::{
    lemma_div_is_ordered, lemma_fundamental_div_mod, lemma_fundamental_div_mod_converse,
};
use vstd::arithmetic::mul::lemma_mul_inequality;
use vstd::prelude::*;

use crate::text::{append_decimal, decimal};

verus! {

#[derive(Debug)]
struct Segment<T> {
    first_key: u128,
    values: VecDeque<T>,
}

impl<T> Segment<T> {
    spec fn end(self) -> int {
        self.first_key + self.values@.len()
    }

    fn end_key(&self) -> (end: u128)
        requires
            self.end() <= u128::MAX,
        ensures
            end == self.end(),
    {
        self.first_key + self.values.len() as u128
    }
}

/// Failure returned when a dense insertion is not the next expected key.
#[derive(Debug, PartialEq, Eq)]
pub enum DenseInsertError<T> {
    /// The supplied key would create a gap or overwrite an existing entry.
    OutOfOrder {
        /// Next key accepted by the map.
        expected: u128,
        /// Key supplied by the caller.
        actual: u128,
        /// Value that was not inserted.
        value: T,
    },
    /// Inserting the key would exhaust the `u128` key space.
    KeySpaceExhausted {
        /// Value that was not inserted.
        value: T,
    },
    /// The process cannot represent another live entry in `usize`.
    CapacityExhausted {
        /// Value that was not inserted.
        value: T,
    },
}

impl<T> DenseInsertError<T> {
    /// The value that was not inserted.
    pub open spec fn rejected(self) -> T {
        match self {
            DenseInsertError::OutOfOrder { value, .. } => value,
            DenseInsertError::KeySpaceExhausted { value } => value,
            DenseInsertError::CapacityExhausted { value } => value,
        }
    }

    /// Returns ownership of the value that was not inserted.
    pub fn into_value(self) -> (value: T)
        ensures
            value == self.rejected(),
    {
        match self {
            DenseInsertError::OutOfOrder { expected: _, actual: _, value } => value,
            DenseInsertError::KeySpaceExhausted { value } => value,
            DenseInsertError::CapacityExhausted { value } => value,
        }
    }

    /// The text that describes the failure.
    pub open spec fn describes(self) -> Seq<char> {
        match self {
            DenseInsertError::OutOfOrder { expected, actual, .. } => "dense key "@ + decimal(
                actual as nat,
            ) + " is out of order; expected "@ + decimal(expected as nat),
            DenseInsertError::KeySpaceExhausted { .. } => "dense key space exhausted"@,
            DenseInsertError::CapacityExhausted { .. } => "dense index capacity exhausted"@,
        }
    }

    /// Describes the failure.
    pub fn message(&self) -> (text: String)
        ensures
            text@ == self.describes(),
    {
        match self {
            DenseInsertError::OutOfOrder { expected, actual, .. } => {
                let mut text = "dense key ".to_string();
                append_decimal(&mut text, *actual);
                text.append(" is out of order; expected ");
                append_decimal(&mut text, *expected);
                text
            },
            DenseInsertError::KeySpaceExhausted { .. } => "dense key space exhausted".to_string(),
            DenseInsertError::CapacityExhausted { .. } => {
                "dense index capacity exhausted".to_string()
            },
        }
    }
}

/// Values per segment unless a map is given another size.
pub const DEFAULT_SEGMENT_CAPACITY: usize = 1_024;

/// Segmented insertion-ordered storage for dense monotonic `u128` keys.
///
/// Exact lookup is arithmetic and does not hash. Prefix truncation drops whole
/// segments and performs at most one bounded partial-segment drain.
///
/// The view is the sequence of retained values; the value at position `i` has
/// the key `first_key + i`.
#[derive(Debug)]
pub struct DenseOrderedMap<T, const SEGMENT_CAPACITY: usize> {
    first_key: u128,
    next_key: u128,
    len: usize,
    segments: VecDeque<Segment<T>>,
}

/// Gives a mutable reference to the element of a deque at `index`
/// (`VecDeque::get_mut`): what is written through it lands at that position and
/// nothing else changes; there is none when `index` is past the end.
#[verifier::external_body]
fn deque_get_mut<T>(deque: &mut VecDeque<T>, index: usize) -> (element: Option<&mut T>)
    ensures
        match element {
            Some(slot) => index < old(deque)@.len() && *slot == old(deque)@[index as int]
                && final(deque)@ == old(deque)@.update(index as int, *final(slot)),
            None => index >= old(deque)@.len() && final(deque)@ == old(deque)@,
        },
{
    deque.get_mut(index)
}

impl<T, const SEGMENT_CAPACITY: usize> View for DenseOrderedMap<T, SEGMENT_CAPACITY> {
    type V = Seq<T>;

    closed spec fn view(&self) -> Seq<T> {
        Seq::new(self.len as nat, |i: int| self.at(self.first_key + i))
    }
}

impl<T, const SEGMENT_CAPACITY: usize> DenseOrderedMap<T, SEGMENT_CAPACITY> {
    /// Number of the first segment on the key axis.
    spec fn base(self) -> int {
        self.segments@[0].first_key as int / SEGMENT_CAPACITY as int
    }

    /// Where a key's segment stands in the deque.
    spec fn slot(self, key: int) -> int {
        key / SEGMENT_CAPACITY as int - self.base()
    }

    /// The value stored under a retained key.
    spec fn at(self, key: int) -> T {
        let segment = self.segments@[self.slot(key)];
        segment.values@[key - segment.first_key]
    }

    /// Smallest retained key, or the next insertion key when nothing is retained.
    pub closed spec fn spec_first_key(self) -> u128 {
        self.first_key
    }

    /// The key of the next insertion.
    pub closed spec fn spec_next_key(self) -> u128 {
        self.next_key
    }

    /// Whether a key is retained.
    pub open spec fn retains(self, key: u128) -> bool {
        self.spec_first_key() <= key < self.spec_next_key()
    }

    /// The value stored under a retained key.
    pub open spec fn value_at(self, key: u128) -> T {
        self@[key - self.spec_first_key()]
    }

    /// Segments tile the retained keys: each holds the retained keys of one
    /// aligned block of `SEGMENT_CAPACITY` keys, in order.
    spec fn tiled(self) -> bool {
        let n = self.segments@.len() as int;
        let c = SEGMENT_CAPACITY as int;
        let s = self.segments@;
        &&& n == 0 ==> self.first_key == self.next_key
        &&& n > 0 ==> s[0].first_key == self.first_key && s[n - 1].end() == self.next_key && (
        self.next_key - 1) / c == self.base() + n - 1
        &&& forall|i: int| 0 <= i < n ==> 0 < (#[trigger] s[i]).values@.len() <= c
        &&& forall|i: int| 0 < i < n ==> (#[trigger] s[i]).first_key == (self.base() + i) * c
        &&& forall|i: int|
            0 <= i < n - 1 ==> (#[trigger] s[i]).end() == (self.base() + i + 1) * c
    }

    /// The map's invariant.
    pub closed spec fn wf(self) -> bool {
        &&& SEGMENT_CAPACITY > 0
        &&& self.next_key - self.first_key == self.len
        &&& self.tiled()
    }

    /// What the invariant says in terms of the view.
    pub proof fn lemma_wf(self)
        requires
            self.wf(),
        ensures
            SEGMENT_CAPACITY > 0,
            self@.len() <= usize::MAX,
            self.spec_next_key() == self.spec_first_key() + self@.len(),
    {
    }

    proof fn lemma_slot(self, key: int)
        requires
            self.wf(),
            self.first_key <= key < self.next_key,
        ensures
            0 <= self.slot(key) < self.segments@.len(),
            self.segments@[self.slot(key)].first_key <= key < self.segments@[self.slot(key)].end(),
    {
        let c = SEGMENT_CAPACITY as int;
        let n = self.segments@.len() as int;
        let m = key / c;
        lemma_div_is_ordered(self.first_key as int, key, c);
        lemma_div_is_ordered(key, self.next_key - 1, c);
        lemma_fundamental_div_mod(key, c);
        assert(c * m == m * c) by (nonlinear_arith);
        assert((m + 1) * c == m * c + c) by (nonlinear_arith);
        let i = self.slot(key);
        assert(self.base() + i == m);
        assert(self.base() + i + 1 == m + 1);
        if i > 0 {
            assert(self.segments@[i].first_key == (self.base() + i) * c);
        }
        if i < n - 1 {
            assert(self.segments@[i].end() == (self.base() + i + 1) * c);
        }
    }

    /// Keys of one segment all fall into its block.
    proof fn lemma_block(self, i: int, key: int)
        requires
            self.wf(),
            0 <= i < self.segments@.len(),
            self.segments@[i].first_key <= key < self.segments@[i].end(),
        ensures
            self.slot(key) == i,
            self.first_key <= key < self.next_key,
    {
        let c = SEGMENT_CAPACITY as int;
        let n = self.segments@.len() as int;
        let b = self.base();
        let s = self.segments@;
        lemma_fundamental_div_mod(self.first_key as int, c);
        assert(c * b == b * c) by (nonlinear_arith);
        // The block starts no later than the segment.
        assert(b * c <= s[0].first_key);
        assert((b + i) * c <= s[i].first_key) by {
            if i > 0 {
                assert(s[i].first_key == (b + i) * c);
            }
        }
        lemma_fundamental_div_mod(self.next_key - 1, c);
        assert(c * (b + n - 1) == (b + n - 1) * c) by (nonlinear_arith);
        assert((b + n) * c == (b + n - 1) * c + c) by (nonlinear_arith);
        assert(s[n - 1].end() <= (b + n) * c);
        assert(s[i].end() <= (b + i + 1) * c) by {
            if i < n - 1 {
                assert(s[i].end() == (b + i + 1) * c);
            }
        }
        assert((b + i + 1) * c == (b + i) * c + c) by (nonlinear_arith);
        let r = key - (b + i) * c;
        lemma_fundamental_div_mod_converse(key, c, b + i, r);
        lemma_mul_inequality(b, b + i, c);
        lemma_mul_inequality(b + i + 1, b + n, c);
        if i > 0 {
            assert(s[0].end() <= s[i].first_key) by {
                assert(s[0].end() == (b + 0 + 1) * c);
                lemma_mul_inequality(b + 1, b + i, c);
            }
        }
        if i < n - 1 {
            assert(s[n - 1].first_key == (b + (n - 1)) * c);
            lemma_mul_inequality(b + i + 1, b + n - 1, c);
        }
    }

    /// Creates an empty map whose first insertion must use `first_key`.
    #[must_use]
    pub fn new(first_key: u128) -> (map: Self)
        requires
            SEGMENT_CAPACITY > 0,
        ensures
            map.wf(),
            map@ == Seq::<T>::empty(),
            map.spec_first_key() == first_key,
            map.spec_next_key() == first_key,
    {
        let map = DenseOrderedMap {
            first_key,
            next_key: first_key,
            len: 0,
            segments: VecDeque::new(),
        };
        proof {
            assert(map@ =~= Seq::<T>::empty());
        }
        map
    }

    /// Number of retained entries.
    #[must_use]
    pub fn len(&self) -> (len: usize)
        requires
            self.wf(),
        ensures
            len == self@.len(),
    {
        self.len
    }

    /// Returns whether the map contains no retained entries.
    #[must_use]
    pub fn is_empty(&self) -> (empty: bool)
        requires
            self.wf(),
        ensures
            empty == (self@.len() == 0),
    {
        self.len == 0
    }

    /// First retained key, or the next insertion key when empty.
    #[must_use]
    pub fn first_key(&self) -> (key: u128)
        ensures
            key == self.spec_first_key(),
    {
        self.first_key
    }

    /// Key required by the next insertion.
    #[must_use]
    pub fn next_key(&self) -> (key: u128)
        ensures
            key == self.spec_next_key(),
    {
        self.next_key
    }

    /// What the map holds after a value was appended at its end.
    proof fn lemma_pushed(self, before: Self, value: T)
        requires
            before.wf(),
            self.wf(),
            self.first_key == before.first_key,
            self.len == before.len + 1,
            before.segments@.len() > 0 ==> self.base() == before.base(),
            before.segments@.len() <= self.segments@.len(),
            forall|i: int|
                0 <= i < before.segments@.len() ==> {
                    &&& (#[trigger] self.segments@[i]).first_key == before.segments@[i].first_key
                    &&& before.segments@[i].values@ == self.segments@[i].values@.take(
                        before.segments@[i].values@.len() as int,
                    )
                    &&& before.segments@[i].values@.len() <= self.segments@[i].values@.len()
                },
            self.segments@.last().values@.last() == value,
        ensures
            self@ == before@.push(value),
    {
        assert forall|j: int| 0 <= j < before.len implies self@[j] == #[trigger] before@[j] by {
            let key = before.first_key + j;
            before.lemma_slot(key);
            let i = before.slot(key);
            assert(self.segments@[i].first_key == before.segments@[i].first_key);
        }
        let n = self.segments@.len() as int;
        self.lemma_block(n - 1, self.next_key - 1);
        assert(self@ =~= before@.push(value));
    }

    /// Appends the next dense key and value.
    pub fn push(&mut self, key: u128, value: T) -> (result: Result<(), DenseInsertError<T>>)
        requires
            old(self).wf(),
        ensures
            final(self).wf(),
            match result {
                Ok(()) => key == old(self).spec_next_key() && key < u128::MAX && old(self)@.len()
                    < usize::MAX && final(self)@ == old(self)@.push(value)
                    && final(self).spec_first_key() == old(self).spec_first_key(),
                Err(error) => *final(self) == *old(self) && error == (if key != old(
                    self,
                ).spec_next_key() {
                    DenseInsertError::OutOfOrder {
                        expected: old(self).spec_next_key(),
                        actual: key,
                        value,
                    }
                } else if key == u128::MAX {
                    DenseInsertError::KeySpaceExhausted { value }
                } else {
                    DenseInsertError::CapacityExhausted { value }
                }),
            },
            result is Ok <==> key == old(self).spec_next_key() && key < u128::MAX && old(
                self,
            )@.len() < usize::MAX,
    {
        if key != self.next_key {
            return Err(
                DenseInsertError::OutOfOrder { expected: self.next_key, actual: key, value },
            );
        }
        let next_key: u128 = match key.checked_add(1) {
            Some(next_key) => next_key,
            None => {
                return Err(DenseInsertError::KeySpaceExhausted { value });
            },
        };
        let next_len: usize = match self.len.checked_add(1) {
            Some(next_len) => next_len,
            None => {
                return Err(DenseInsertError::CapacityExhausted { value });
            },
        };
        let ghost before = *self;
        let ghost c = SEGMENT_CAPACITY as int;
        let segment_number: u128 = key / SEGMENT_CAPACITY as u128;
        let count: usize = self.segments.len();
        proof {
            lemma_fundamental_div_mod(key as int, c);
            assert(c * (key as int / c) == (key as int / c) * c) by (nonlinear_arith);
            if count > 0 {
                let b = before.base();
                let n = count as int;
                let last = before.segments@[n - 1];
                before.lemma_block(n - 1, last.first_key as int);
                before.lemma_block(n - 1, last.end() - 1);
                // The next key falls either into the last block or at the start of the next.
                let m = b + n - 1;
                lemma_fundamental_div_mod(key - 1, c);
                assert(c * m == m * c) by (nonlinear_arith);
                assert((m + 1) * c == m * c + c) by (nonlinear_arith);
                assert((m + 2) * c == m * c + 2 * c) by (nonlinear_arith);
                if key == (m + 1) * c {
                    lemma_fundamental_div_mod_converse(key as int, c, m + 1, 0);
                } else {
                    lemma_fundamental_div_mod_converse(key as int, c, m, key - m * c);
                    if n > 1 {
                        assert(last.first_key == (b + (n - 1)) * c);
                    }
                    assert(m * c <= last.first_key) by {
                        lemma_fundamental_div_mod(before.first_key as int, c);
                        assert(c * b == b * c) by (nonlinear_arith);
                    }
                }
            }
        }
        let extend_last: bool = count > 0 && self.segments[count - 1].first_key
            / SEGMENT_CAPACITY as u128 == segment_number;
        if extend_last {
            if let Some(mut segment) = self.segments.pop_back() {
                segment.values.push_back(value);
                self.segments.push_back(segment);
            }
        } else {
            let mut values = VecDeque::with_capacity(SEGMENT_CAPACITY);
            values.push_back(value);
            self.segments.push_back(Segment { first_key: key, values });
        }
        self.next_key = next_key;
        self.len = next_len;
        proof {
            let s = self.segments@;
            let old_s = before.segments@;
            if extend_last {
                assert(s.len() == count);
                assert(forall|i: int| 0 <= i < count - 1 ==> #[trigger] s[i] == old_s[i]);
                assert(s[count - 1].values@.take(old_s[count - 1].values@.len() as int)
                    =~= old_s[count - 1].values@);
            } else {
                assert(s.len() == count + 1);
                assert(forall|i: int| 0 <= i < count ==> #[trigger] s[i] == old_s[i]);
                assert(s[count as int].values@ =~= seq![value]);
            }
            assert(forall|i: int|
                0 <= i < count ==> old_s[i].values@ =~= (#[trigger] s[i]).values@.take(
                    old_s[i].values@.len() as int,
                ));
            assert(self.tiled());
            self.lemma_pushed(before, value);
        }
        Ok(())
    }

    /// Returns a shared reference for an exact dense key.
    #[must_use]
    pub fn get(&self, key: u128) -> (value: Option<&T>)
        requires
            self.wf(),
        ensures
            match value {
                Some(v) => self.retains(key) && *v == self.value_at(key),
                None => !self.retains(key),
            },
    {
        match self.position(key) {
            Some((segment_index, value_index)) => Some(
                &self.segments[segment_index].values[value_index],
            ),
            None => None,
        }
    }

    /// Returns a mutable reference for an exact dense key.
    pub fn get_mut(&mut self, key: u128) -> (value: Option<&mut T>)
        requires
            old(self).wf(),
        ensures
            match value {
                Some(v) => {
                    &&& old(self).retains(key)
                    &&& *v == old(self).value_at(key)
                    &&& final(self).wf()
                    &&& final(self).spec_first_key() == old(self).spec_first_key()
                    &&& final(self)@ == old(self)@.update(
                        key - old(self).spec_first_key(),
                        *final(v),
                    )
                },
                None => !old(self).retains(key) && *final(self) == *old(self),
            },
    {
        match self.position(key) {
            Some((segment_index, value_index)) => {
                let ghost before = *self;
                match deque_get_mut(&mut self.segments, segment_index) {
                    Some(segment) => match deque_get_mut(&mut segment.values, value_index) {
                        Some(slot) => {
                            proof {
                                after_borrow(*self).lemma_written(before, key as int, *final(slot));
                            }
                            Some(slot)
                        },
                        None => None,
                    },
                    None => None,
                }
            },
            None => None,
        }
    }

    /// What the map holds after the value of one retained key was overwritten.
    proof fn lemma_written(self, before: Self, key: int, value: T)
        requires
            before.wf(),
            before.first_key <= key < before.next_key,
            self.first_key == before.first_key,
            self.next_key == before.next_key,
            self.len == before.len,
            ({
                let i = before.slot(key);
                let segment = before.segments@[i];
                &&& self.segments@.len() == before.segments@.len()
                &&& forall|j: int|
                    0 <= j < before.segments@.len() && j != i ==> #[trigger] self.segments@[j]
                        == before.segments@[j]
                &&& self.segments@[i].first_key == segment.first_key
                &&& self.segments@[i].values@ == segment.values@.update(
                    key - segment.first_key,
                    value,
                )
            }),
        ensures
            self.wf(),
            self@ == before@.update(key - before.first_key, value),
    {
        let i = before.slot(key);
        before.lemma_slot(key);
        assert(forall|j: int|
            0 <= j < before.segments@.len() ==> (#[trigger] self.segments@[j]).first_key
                == before.segments@[j].first_key && self.segments@[j].end()
                == before.segments@[j].end());
        assert(self.wf());
        assert forall|j: int| 0 <= j < before.len implies self@[j] == before@.update(
            key - before.first_key,
            value,
        )[j] by {
            before.lemma_slot(before.first_key + j);
        }
        assert(self@ =~= before@.update(key - before.first_key, value));
    }

    /// Returns whether an exact dense key is retained.
    #[must_use]
    pub fn contains_key(&self, key: u128) -> (contains: bool)
        requires
            self.wf(),
        ensures
            contains == self.retains(key),
    {
        self.position(key).is_some()
    }

    fn position(&self, key: u128) -> (place: Option<(usize, usize)>)
        requires
            self.wf(),
        ensures
            match place {
                Some((segment_index, value_index)) => {
                    &&& self.retains(key)
                    &&& segment_index == self.slot(key as int)
                    &&& segment_index < self.segments@.len()
                    &&& value_index == key - self.segments@[segment_index as int].first_key
                    &&& value_index < self.segments@[segment_index as int].values@.len()
                },
                None => !self.retains(key),
            },
    {
        if key < self.first_key || key >= self.next_key {
            return None;
        }
        proof {
            self.lemma_slot(key as int);
        }
        let segment_number: u128 = key / SEGMENT_CAPACITY as u128;
        let first_segment_number: u128 = self.segments[0].first_key / SEGMENT_CAPACITY as u128;
        let count: usize = self.segments.len();
        assert(segment_number - first_segment_number < count);
        let segment_index: usize = (segment_number - first_segment_number) as usize;
        let held: usize = self.segments[segment_index].values.len();
        assert(key - self.segments@[segment_index as int].first_key < held);
        let value_index: usize = (key - self.segments[segment_index].first_key) as usize;
        Some((segment_index, value_index))
    }

    /// What the map holds after its first segment was dropped.
    proof fn lemma_segment_dropped(self, before: Self)
        requires
            before.wf(),
            before.segments@.len() > 0,
            self.segments@ == before.segments@.subrange(1, before.segments@.len() as int),
            self.first_key == before.segments@[0].end(),
            self.next_key == before.next_key,
            self.len == before.len - before.segments@[0].values@.len(),
        ensures
            self.wf(),
            self@ == before@.skip(self.first_key - before.first_key),
    {
        let c = SEGMENT_CAPACITY as int;
        let n = before.segments@.len() as int;
        let b = before.base();
        if n > 1 {
            assert(before.segments@[0].end() == (b + 0 + 1) * c);
            assert(before.segments@[1].first_key == (b + 1) * c);
            lemma_fundamental_div_mod_converse(before.segments@[1].first_key as int, c, b + 1, 0);
            assert(self.segments@[0] == before.segments@[1]);
            assert(self.base() == b + 1);
            assert forall|i: int| 0 <= i < n - 1 implies {
                &&& 0 < (#[trigger] self.segments@[i]).values@.len() <= c
                &&& i > 0 ==> self.segments@[i].first_key == (self.base() + i) * c
                &&& i < n - 2 ==> self.segments@[i].end() == (self.base() + i + 1) * c
            } by {
                assert(self.segments@[i] == before.segments@[i + 1]);
                assert(b + (i + 1) == self.base() + i);
                assert(b + (i + 1) + 1 == self.base() + i + 1);
            }
            assert(self.segments@[n - 2] == before.segments@[n - 1]);
        }
        assert(self.wf());
        assert forall|i: int| 0 <= i < self.segments@.len() implies {
            &&& (#[trigger] self.segments@[i]) == before.segments@[i + 1]
            &&& self.segments@[i].values@ == before.segments@[i + 1].values@.skip(0)
        } by {
            assert(before.segments@[i + 1].values@.skip(0) =~= before.segments@[i + 1].values@);
        }
        self.lemma_shifted(before, 1);
    }

    /// What the map holds after part of its first segment was dropped.
    proof fn lemma_segment_trimmed(self, before: Self, count: int)
        requires
            before.wf(),
            before.segments@.len() > 0,
            0 <= count < before.segments@[0].values@.len(),
            self.segments@.len() == before.segments@.len(),
            forall|i: int|
                0 < i < before.segments@.len() ==> #[trigger] self.segments@[i]
                    == before.segments@[i],
            self.segments@[0].first_key == before.segments@[0].first_key + count,
            self.segments@[0].values@ == before.segments@[0].values@.skip(count),
            self.first_key == before.first_key + count,
            self.next_key == before.next_key,
            self.len == before.len - count,
        ensures
            self.wf(),
            self@ == before@.skip(count),
    {
        before.lemma_block(0, self.first_key as int);
        assert(self.base() == before.base());
        assert(self.segments@[0].end() == before.segments@[0].end());
        assert(self.wf());
        assert forall|i: int| 0 < i < self.segments@.len() implies (
        #[trigger] self.segments@[i]).values@ == before.segments@[i].values@.skip(0) by {
            assert(before.segments@[i].values@.skip(0) =~= before.segments@[i].values@);
        }
        self.lemma_shifted(before, 0);
    }

    /// A map whose segments are a suffix of another's, cut at `self.first_key`,
    /// holds the suffix of the other's values.
    proof fn lemma_shifted(self, before: Self, dropped: int)
        requires
            before.wf(),
            self.wf(),
            before.first_key <= self.first_key <= self.next_key == before.next_key,
            before.segments@.len() == self.segments@.len() + dropped,
            0 <= dropped,
            self.segments@.len() > 0 ==> self.base() == before.base() + dropped,
            forall|i: int|
                0 <= i < self.segments@.len() ==> {
                    let cut = (#[trigger] self.segments@[i]).first_key - before.segments@[i
                        + dropped].first_key;
                    &&& 0 <= cut <= before.segments@[i + dropped].values@.len()
                    &&& self.segments@[i].values@ == before.segments@[i + dropped].values@.skip(cut)
                },
        ensures
            self@ == before@.skip(self.first_key - before.first_key),
    {
        let d = self.first_key - before.first_key;
        assert forall|j: int| 0 <= j < self.len implies self@[j] == before@.skip(d)[j] by {
            let key = self.first_key + j;
            self.lemma_slot(key);
            before.lemma_slot(key);
            assert(before.slot(key) == self.slot(key) + dropped);
        }
        assert(self@ =~= before@.skip(d));
    }

    /// Removes and returns the first retained entry.
    pub fn pop_front(&mut self) -> (entry: Option<(u128, T)>)
        requires
            old(self).wf(),
        ensures
            final(self).wf(),
            match entry {
                Some((key, value)) => {
                    &&& old(self)@.len() > 0
                    &&& key == old(self).spec_first_key()
                    &&& value == old(self)@[0]
                    &&& final(self)@ == old(self)@.skip(1)
                    &&& final(self).spec_first_key() == key + 1
                    &&& final(self).spec_next_key() == old(self).spec_next_key()
                },
                None => old(self)@.len() == 0 && *final(self) == *old(self),
            },
    {
        let key: u128 = self.first_key;
        let ghost before = *self;
        if self.len == 0 {
            return None;
        }
        proof {
            before.lemma_slot(before.first_key as int);
            before.lemma_block(0, before.first_key as int);
        }
        match self.segments.pop_front() {
            Some(segment) => {
                let Segment { first_key: segment_first, mut values } = segment;
                match values.pop_front() {
                    Some(value) => {
                        self.first_key = key + 1;
                        self.len = self.len - 1;
                        if values.len() > 0 {
                            self.segments.push_front(
                                Segment { first_key: segment_first + 1, values },
                            );
                            proof {
                                assert(values@ =~= before.segments@[0].values@.skip(1));
                                assert forall|i: int| 0 < i < before.segments@.len() implies
                                    #[trigger] self.segments@[i] == before.segments@[i] by {}
                                self.lemma_segment_trimmed(before, 1);
                            }
                        } else {
                            proof {
                                self.lemma_segment_dropped(before);
                            }
                        }
                        proof {
                            assert(before@[0] == value);
                        }
                        Some((key, value))
                    },
                    None => None,
                }
            },
            None => None,
        }
    }

    /// The bound that truncation to `first_retained` really uses.
    pub open spec fn truncation_target(self, first_retained: u128) -> u128 {
        if first_retained < self.spec_first_key() {
            self.spec_first_key()
        } else if first_retained > self.spec_next_key() {
            self.spec_next_key()
        } else {
            first_retained
        }
    }

    /// Removes every retained entry with a key below `first_retained`.
    ///
    /// Returns the number of removed entries.
    pub fn truncate_before(&mut self, first_retained: u128) -> (removed: usize)
        requires
            old(self).wf(),
        ensures
            final(self).wf(),
            final(self).spec_first_key() == old(self).truncation_target(first_retained),
            final(self).spec_next_key() == old(self).spec_next_key(),
            removed == final(self).spec_first_key() - old(self).spec_first_key(),
            final(self)@ == old(self)@.skip(removed as int),
    {
        let target: u128 = if first_retained < self.first_key {
            self.first_key
        } else if first_retained > self.next_key {
            self.next_key
        } else {
            first_retained
        };
        let ghost start = *self;
        let mut removed: usize = 0;
        proof {
            assert(start@.skip(0) =~= start@);
        }
        loop
            invariant
                start.wf(),
                self.wf(),
                start.first_key <= self.first_key <= target <= self.next_key == start.next_key,
                removed == self.first_key - start.first_key,
                self@ == start@.skip(removed as int),
            ensures
                self.segments@.len() > 0 ==> self.segments@[0].end() > target,
            decreases self.len,
        {
            let ghost before = *self;
            if self.segments.len() == 0 {
                break;
            }
            proof {
                before.lemma_block(0, before.segments@[0].end() - 1);
            }
            if self.segments[0].end_key() > target {
                break;
            }
            if let Some(segment) = self.segments.pop_front() {
                self.first_key = segment.end_key();
                proof {
                    assert(self.first_key - before.first_key == segment.values@.len());
                    assert(segment.values@.len() <= before.len);
                }
                removed = removed + segment.values.len();
                self.len = self.len - segment.values.len();
                proof {
                    self.lemma_segment_dropped(before);
                    assert(self@ =~= start@.skip(removed as int));
                }
            }
        }
        let ghost before = *self;
        if self.segments.len() > 0 && self.segments[0].first_key < target {
            let held: usize = self.segments[0].values.len();
            if let Some(segment) = self.segments.pop_front() {
                let Segment { first_key: segment_first, mut values } = segment;
                assert(target - segment_first < held);
                let count: usize = (target - segment_first) as usize;
                let rest = values.split_off(count);
                proof {
                    before.lemma_block(0, target as int);
                    assert(rest@ =~= before.segments@[0].values@.skip(count as int));
                }
                self.segments.push_front(Segment { first_key: target, values: rest });
                removed = removed + count;
                self.len = self.len - count;
                self.first_key = target;
                proof {
                    assert forall|i: int| 0 < i < before.segments@.len() implies
                        #[trigger] self.segments@[i] == before.segments@[i] by {}
                    self.lemma_segment_trimmed(before, count as int);
                    assert(self@ =~= start@.skip(removed as int));
                }
            }
        }
        removed
    }

    /// Keys and values in insertion order, from position `from` on.
    fn entries_from(&self, from: usize) -> (entries: Vec<(u128, &T)>)
        requires
            self.wf(),
            from <= self@.len(),
        ensures
            entries@.len() == self@.len() - from,
            forall|i: int|
                0 <= i < entries@.len() ==> (#[trigger] entries@[i]).0 == self.spec_first_key()
                    + from + i && *entries@[i].1 == self@[from + i],
    {
        let mut entries: Vec<(u128, &T)> = Vec::new();
        let mut position: usize = from;
        while position < self.len
            invariant
                self.wf(),
                from <= position <= self.len,
                entries@.len() == position - from,
                forall|i: int|
                    0 <= i < entries@.len() ==> (#[trigger] entries@[i]).0 == self.first_key + from
                        + i && *entries@[i].1 == self@[from + i],
            decreases self.len - position,
        {
            let key: u128 = self.first_key + position as u128;
            if let Some(value) = self.get(key) {
                entries.push((key, value));
            }
            position += 1;
        }
        entries
    }

    /// Keys and values in insertion order.
    pub fn iter(&self) -> (entries: Vec<(u128, &T)>)
        requires
            self.wf(),
        ensures
            entries@.len() == self@.len(),
            forall|i: int|
                0 <= i < entries@.len() ==> (#[trigger] entries@[i]).0 == self.spec_first_key() + i
                    && *entries@[i].1 == self@[i],
    {
        self.entries_from(0)
    }

    /// Retained values in insertion order.
    pub fn values(&self) -> (values: Vec<&T>)
        requires
            self.wf(),
        ensures
            values@.len() == self@.len(),
            forall|i: int| 0 <= i < values@.len() ==> *(#[trigger] values@[i]) == self@[i],
    {
        let mut values: Vec<&T> = Vec::new();
        let mut position: usize = 0;
        while position < self.len
            invariant
                self.wf(),
                position <= self.len,
                values@.len() == position,
                forall|i: int| 0 <= i < values@.len() ==> *(#[trigger] values@[i]) == self@[i],
            decreases self.len - position,
        {
            if let Some(value) = self.get(self.first_key + position as u128) {
                values.push(value);
            }
            position += 1;
        }
        values
    }

    /// Keys and values from an exact retained key, or from the next insertion point.
    pub fn iter_from(&self, key: u128) -> (entries: Vec<(u128, &T)>)
        requires
            self.wf(),
        ensures
            entries@.len() == self.spec_next_key() - self.truncation_target(key),
            forall|i: int|
                0 <= i < entries@.len() ==> (#[trigger] entries@[i]).0 == self.truncation_target(
                    key,
                ) + i && *entries@[i].1 == self@[self.truncation_target(key)
                    - self.spec_first_key() + i],
    {
        self.entries_from(self.clamped_position(key))
    }

    fn clamped_position(&self, key: u128) -> (position: usize)
        requires
            self.wf(),
        ensures
            position == self.truncation_target(key) - self.spec_first_key(),
            position <= self@.len(),
    {
        if key < self.first_key {
            0
        } else if key > self.next_key {
            self.len
        } else {
            assert(key - self.first_key <= self.len);
            (key - self.first_key) as usize
        }
    }

    /// Values from an exact retained key, or from the next insertion point.
    pub fn values_from(&self, key: u128) -> (values: Vec<&T>)
        requires
            self.wf(),
        ensures
            values@.len() == self.spec_next_key() - self.truncation_target(key),
            forall|i: int|
                0 <= i < values@.len() ==> *(#[trigger] values@[i]) == self@[self.truncation_target(
                    key,
                ) - self.spec_first_key() + i],
    {
        let entries = self.entries_from(self.clamped_position(key));
        let mut values: Vec<&T> = Vec::new();
        let mut index: usize = 0;
        while index < entries.len()
            invariant
                index <= entries@.len(),
                values@.len() == index,
                forall|i: int| 0 <= i < index ==> #[trigger] values@[i] == entries@[i].1,
            decreases entries@.len() - index,
        {
            values.push(entries[index].1);
            index += 1;
        }
        values
    }

    /// The key at a position.
    spec fn spec_key_at(self, position: int) -> u128 {
        (self.first_key + position) as u128
    }

    /// The key before `key`.
    pub open spec fn spec_key_before(self, key: u128) -> u128 {
        (key - 1) as u128
    }

    /// The key at a position.
    fn key_at(&self, position: usize) -> (key: u128)
        requires
            self.wf(),
            position <= self@.len(),
        ensures
            key == self.spec_first_key() + position,
    {
        self.first_key + position as u128
    }

    /// Binary-searches retained values while preserving dense direct indexing.
    ///
    /// Gives a key whose entry compares equal, or the key at which the order
    /// turns: the entry before it compares less and the one at it greater. Only
    /// retained keys are compared, each with its own value.
    pub fn binary_search_by<F: Fn(u128, &T) -> Ordering>(&self, compare: F) -> (result: Result<
        u128,
        u128,
    >)
        requires
            self.wf(),
            forall|key: u128| #[trigger]
                self.retains(key) ==> compare.requires((key, &self.value_at(key))),
        ensures
            match result {
                Ok(key) => self.retains(key) && compare.ensures(
                    (key, &self.value_at(key)),
                    Ordering::Equal,
                ),
                Err(key) => {
                    &&& self.spec_first_key() <= key <= self.spec_next_key()
                    &&& key > self.spec_first_key() ==> compare.ensures(
                        (self.spec_key_before(key), &self.value_at(self.spec_key_before(key))),
                        Ordering::Less,
                    )
                    &&& key < self.spec_next_key() ==> compare.ensures(
                        (key, &self.value_at(key)),
                        Ordering::Greater,
                    )
                },
            },
    {
        let mut left: usize = 0;
        let mut right: usize = self.len;
        while left < right
            invariant
                self.wf(),
                forall|key: u128| #[trigger]
                    self.retains(key) ==> compare.requires((key, &self.value_at(key))),
                left <= right <= self.len,
                left > 0 ==> compare.ensures(
                    (self.spec_key_at(left - 1), &self.value_at(self.spec_key_at(left - 1))),
                    Ordering::Less,
                ),
                right < self.len ==> compare.ensures(
                    (self.spec_key_at(right + 0), &self.value_at(self.spec_key_at(right + 0))),
                    Ordering::Greater,
                ),
            decreases right - left,
        {
            let middle: usize = left + (right - left) / 2;
            let key: u128 = self.key_at(middle);
            match self.get(key) {
                Some(value) => match compare(key, value) {
                    Ordering::Less => {
                        left = middle + 1;
                    },
                    Ordering::Equal => {
                        return Ok(key);
                    },
                    Ordering::Greater => {
                        right = middle;
                    },
                },
                None => {
                    return Err(key);
                },
            }
        }
        Err(self.key_at(left))
    }
}

/// Where an answer stands in the order less, equal, greater.
pub open spec fn answer_place(answer: Ordering) -> int {
    match answer {
        Ordering::Less => 0,
        Ordering::Equal => 1,
        Ordering::Greater => 2,
    }
}

impl<T, const SEGMENT_CAPACITY: usize> DenseOrderedMap<T, SEGMENT_CAPACITY> {
    /// Where the answers of a comparison ascend along the keys, the key that a search
    /// without a match gives parts the map: every key below it compares less, every
    /// other greater, and none equal.
    pub proof fn searches_part_the_map(self, answer: spec_fn(u128) -> Ordering, key: u128)
        requires
            self.wf(),
            forall|a: u128, b: u128|
                self.retains(a) && self.retains(b) && a <= b ==> answer_place(#[trigger] answer(a)) <= answer_place(
                    #[trigger] answer(b),
                ),
            self.spec_first_key() <= key <= self.spec_next_key(),
            key > self.spec_first_key() ==> answer(self.spec_key_before(key)) == Ordering::Less,
            key < self.spec_next_key() ==> answer(key) == Ordering::Greater,
        ensures
            forall|k: u128| #[trigger]
                self.retains(k) ==> answer(k) == (if k < key {
                    Ordering::Less
                } else {
                    Ordering::Greater
                }),
    {
        assert forall|k: u128| #[trigger] self.retains(k) implies answer(k) == (if k < key {
            Ordering::Less
        } else {
            Ordering::Greater
        }) by {
            if k < key {
                let before = self.spec_key_before(key);
                assert(self.retains(before));
                assert(answer_place(answer(k)) <= answer_place(answer(before)));
            } else {
                assert(self.retains(key));
                assert(answer_place(answer(key)) <= answer_place(answer(k)));
            }
        }
    }
}

impl<T, const SEGMENT_CAPACITY: usize> DenseOrderedMap<T, SEGMENT_CAPACITY> {
    /// Changes every value, in key order.
    pub fn iter_mut<F: Fn(u128, T) -> T>(&mut self, change: F)
        requires
            old(self).wf(),
            SEGMENT_CAPACITY > 0,
            forall|i: int|
                0 <= i < old(self)@.len() ==> change.requires(
                    ((old(self).spec_first_key() + i) as u128, #[trigger] old(self)@[i]),
                ),
        ensures
            final(self).wf(),
            final(self).spec_first_key() == old(self).spec_first_key(),
            final(self).spec_next_key() == old(self).spec_next_key(),
            final(self)@.len() == old(self)@.len(),
            forall|i: int|
                0 <= i < old(self)@.len() ==> change.ensures(
                    ((old(self).spec_first_key() + i) as u128, #[trigger] old(self)@[i]),
                    final(self)@[i],
                ),
    {
        let ghost before = *self;
        proof {
            self.lemma_wf();
        }
        let mut changed: DenseOrderedMap<T, SEGMENT_CAPACITY> = DenseOrderedMap::new(
            self.first_key,
        );
        let mut done: usize = 0;
        let total: usize = self.len;
        proof {
            assert(before@.skip(0) =~= before@);
        }
        while done < total
            invariant
                self.wf(),
                changed.wf(),
                before.wf(),
                done <= total,
                total == before@.len(),
                self@ == before@.skip(done as int),
                self.spec_first_key() == before.spec_first_key() + done,
                self.spec_next_key() == before.spec_next_key(),
                before.spec_next_key() == before.spec_first_key() + before@.len(),
                changed.spec_first_key() == before.spec_first_key(),
                changed.spec_next_key() == before.spec_first_key() + done,
                changed@.len() == done,
                forall|i: int|
                    0 <= i < before@.len() ==> change.requires(
                        ((before.spec_first_key() + i) as u128, #[trigger] before@[i]),
                    ),
                forall|i: int|
                    0 <= i < done ==> change.ensures(
                        ((before.spec_first_key() + i) as u128, #[trigger] before@[i]),
                        changed@[i],
                    ),
            decreases total - done,
        {
            let ghost held = changed@;
            match self.pop_front() {
                None => {},
                Some((key, value)) => {
                    proof {
                        assert(value == before@[done as int]);
                        assert(key == (before.spec_first_key() + done) as u128);
                    }
                    let next = change(key, value);
                    let pushed = changed.push(key, next);
                    proof {
                        changed.lemma_wf();
                        assert(before@.skip(done as int).skip(1) =~= before@.skip(done + 1));
                        assert(changed@ == held.push(next));
                        assert forall|i: int| 0 <= i < done + 1 implies change.ensures(
                            ((before.spec_first_key() + i) as u128, #[trigger] before@[i]),
                            changed@[i],
                        ) by {
                            if i < done {
                                assert(changed@[i] == held[i]);
                            }
                        }
                    }
                },
            }
            done += 1;
        }
        *self = changed;
    }

    /// Changes every value, without its key.
    pub fn values_mut<F: Fn(T) -> T>(&mut self, change: F)
        requires
            old(self).wf(),
            SEGMENT_CAPACITY > 0,
            forall|i: int|
                0 <= i < old(self)@.len() ==> change.requires((#[trigger] old(self)@[i],)),
        ensures
            final(self).wf(),
            final(self).spec_first_key() == old(self).spec_first_key(),
            final(self).spec_next_key() == old(self).spec_next_key(),
            final(self)@.len() == old(self)@.len(),
            forall|i: int|
                0 <= i < old(self)@.len() ==> change.ensures(
                    (#[trigger] old(self)@[i],),
                    final(self)@[i],
                ),
    {
        let change = &change;
        let with_key = |_key: u128, value: T| -> (next: T)
            requires
                change.requires((value,)),
            ensures
                change.ensures((value,), next),
        {
            let next: T = change(value);
            next
        };
        self.iter_mut(with_key);
    }
}

impl<T, const SEGMENT_CAPACITY: usize> Default for DenseOrderedMap<T, SEGMENT_CAPACITY> {
    /// An empty map that starts at key zero.
    fn default() -> (map: Self)
        ensures
            SEGMENT_CAPACITY > 0 ==> map.wf(),
            map@ == Seq::<T>::empty(),
            map.spec_first_key() == 0,
            map.spec_next_key() == 0,
    {
        let map = DenseOrderedMap {
            first_key: 0,
            next_key: 0,
            len: 0,
            segments: VecDeque::new(),
        };
        proof {
            assert(map@ =~= Seq::<T>::empty());
        }
        map
    }
}

impl<T, const SEGMENT_CAPACITY: usize> DenseOrderedMap<T, SEGMENT_CAPACITY> {
    /// A value appended under the next key is the one found there, and every
    /// other entry stays as it was.
    pub proof fn push_then_get(before: Self, after: Self, value: T)
        requires
            before.wf(),
            after.wf(),
            before.spec_next_key() < u128::MAX,
            after@ == before@.push(value),
            after.spec_first_key() == before.spec_first_key(),
        ensures
            after.retains(before.spec_next_key()),
            after.value_at(before.spec_next_key()) == value,
            forall|key: u128| #[trigger]
                before.retains(key) ==> after.retains(key) && after.value_at(key)
                    == before.value_at(key),
    {
        before.lemma_wf();
        after.lemma_wf();
    }

    /// Truncation keeps every entry at or above the bound under its own key,
    /// and nothing below it.
    pub proof fn truncation_keeps_the_suffix(before: Self, after: Self, first_retained: u128)
        requires
            before.wf(),
            after.wf(),
            after.spec_first_key() == before.truncation_target(first_retained),
            after.spec_next_key() == before.spec_next_key(),
            after@ == before@.skip(after.spec_first_key() - before.spec_first_key()),
        ensures
            forall|key: u128| #[trigger]
                after.retains(key) <==> before.retains(key) && key >= first_retained,
            forall|key: u128| #[trigger]
                after.retains(key) ==> after.value_at(key) == before.value_at(key),
    {
        before.lemma_wf();
        after.lemma_wf();
    }
}

} // verus!
