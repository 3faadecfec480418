//! A set of batch numbers within a window, as a bitmap.
use vstd::prelude::*;

use crate::ids::BatchId;

verus! {

/// Batches of one window that a fetch may return.
///
/// The view is the set of their numbers.
#[derive(Debug)]
pub struct CommittedBatchSet {
    first_batch_id: u128,
    len: usize,
    words: Vec<u64>,
}

spec fn bit(word: u64, index: int) -> bool {
    word & (1u64 << (index as u64)) != 0
}

proof fn lemma_set_bit(word: u64, index: u64, other: u64)
    requires
        index < 64,
        other < 64,
    ensures
        (word | (1u64 << index)) & (1u64 << other) != 0 <==> (index == other || word & (1u64
            << other) != 0),
{
    assert(index < 64 && other < 64 ==> ((word | (1u64 << index)) & (1u64 << other) != 0 <==> (index
        == other || word & (1u64 << other) != 0))) by (bit_vector);
}

impl View for CommittedBatchSet {
    type V = Set<u128>;

    closed spec fn view(&self) -> Set<u128> {
        Set::new(
            |id: u128|
                self.first_batch_id <= id < self.first_batch_id + self.len && self.has(
                    id - self.first_batch_id,
                ),
        )
    }
}

impl CommittedBatchSet {
    spec fn has(self, relative: int) -> bool {
        bit(self.words@[relative / 64], relative % 64)
    }

    pub closed spec fn wf(self) -> bool {
        self.words@.len() * 64 >= self.len
    }

    /// The batches that the window covers.
    pub closed spec fn covers(self, id: u128) -> bool {
        self.first_batch_id <= id < self.first_batch_id + self.len
    }

    /// An empty set over `len` batches from `first_batch_id` on.
    pub fn new(first_batch_id: u128, len: usize) -> (set: Self)
        ensures
            set.wf(),
            set@ == Set::<u128>::empty(),
            forall|id: u128| #[trigger]
                set.covers(id) <==> first_batch_id <= id < first_batch_id + len,
    {
        let count: usize = len / 64 + if len % 64 == 0 {
            0
        } else {
            1
        };
        let mut words: Vec<u64> = Vec::new();
        let mut index: usize = 0;
        while index < count
            invariant
                index <= count,
                words@.len() == index,
                forall|i: int| 0 <= i < index ==> words@[i] == 0,
            decreases count - index,
        {
            words.push(0);
            index += 1;
        }
        let set = CommittedBatchSet { first_batch_id, len, words };
        proof {
            assert forall|id: u128| !(#[trigger] set@.contains(id)) by {
                if set.covers(id) {
                    let relative = id - first_batch_id;
                    let shift = (relative % 64) as u64;
                    assert(words@[relative / 64] == 0);
                    assert(0u64 & (1u64 << shift) == 0) by (bit_vector);
                }
            }
            assert(set@ =~= Set::<u128>::empty());
        }
        set
    }

    /// Adds a batch that lies in the window; any other is left out.
    pub fn insert(&mut self, batch_id: BatchId)
        requires
            old(self).wf(),
        ensures
            final(self).wf(),
            final(self)@ == (if old(self).covers(batch_id.0) {
                old(self)@.insert(batch_id.0)
            } else {
                old(self)@
            }),
            forall|id: u128| #[trigger] final(self).covers(id) <==> old(self).covers(id),
    {
        if batch_id.0 < self.first_batch_id || batch_id.0 - self.first_batch_id
            >= self.len as u128 {
            return;
        }
        let relative: usize = (batch_id.0 - self.first_batch_id) as usize;
        let shift: u64 = (relative % 64) as u64;
        let word: u64 = self.words[relative / 64];
        self.words[relative / 64] = word | (1u64 << shift);
        proof {
            assert forall|id: u128| self.covers(id) implies #[trigger] self@.contains(id) == (id
                == batch_id.0 || old(self)@.contains(id)) by {
                let r = id - self.first_batch_id;
                if r / 64 == relative as int / 64 {
                    lemma_set_bit(word, shift, (r % 64) as u64);
                    assert(r == 64 * (r / 64) + r % 64);
                    assert(relative == 64 * (relative as int / 64) + relative as int % 64);
                }
            }
            assert(self@ =~= old(self)@.insert(batch_id.0));
        }
    }

    /// Whether a batch is in the set.
    pub fn contains(&self, batch_id: BatchId) -> (contains: bool)
        requires
            self.wf(),
        ensures
            contains == self@.contains(batch_id.0),
    {
        if batch_id.0 < self.first_batch_id || batch_id.0 - self.first_batch_id
            >= self.len as u128 {
            return false;
        }
        let relative: usize = (batch_id.0 - self.first_batch_id) as usize;
        let shift: u64 = (relative % 64) as u64;
        self.words[relative / 64] & (1u64 << shift) != 0
    }
}

} // verus!
