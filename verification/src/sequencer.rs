//! Assignment of batch numbers, offsets and lanes to appended batches.
use std::collections::HashSet;

use vstd::prelude::*;

use crate::ids::{
    BatchId, LeaderEpoch, LogicalOffset, LogicalPartitionId, PlacementSequence, RingEpoch, ShardId,
    TopicId, VirtualLaneId,
};
use crate::text::{append_decimal, decimal};

verus! {

broadcast use vstd::std_specs::hash::group_hash_axioms;

/// Where a batch is stored, and under which generations it was placed there.
#[derive(Debug, Clone, Copy, PartialEq, Eq, Hash, Structural)]
pub struct Placement {
    pub virtual_lane_id: VirtualLaneId,
    pub ring_epoch: RingEpoch,
    pub leader_epoch: LeaderEpoch,
    pub sequence: PlacementSequence,
}

/// The place in the log that one batch was given.
#[derive(Debug, Clone, Copy, PartialEq, Eq, Hash, Structural)]
pub struct Reservation {
    pub topic_id: TopicId,
    pub partition_id: LogicalPartitionId,
    pub batch_id: BatchId,
    pub first_offset: LogicalOffset,
    pub last_offset: LogicalOffset,
    pub record_count: u32,
    pub placement: Placement,
}

impl Reservation {
    /// A reservation covers `record_count` offsets, at least one, and leaves
    /// room for an offset after them.
    pub open spec fn wf(self) -> bool {
        &&& self.record_count > 0
        &&& self.last_offset.0 == self.first_offset.0 + self.record_count - 1
        &&& self.last_offset.0 < u64::MAX
    }

    /// A reservation covers at least one offset and leaves room for one after it.
    pub open spec fn spans(self) -> bool {
        self.first_offset.0 <= self.last_offset.0 < u64::MAX
    }

    /// The offset after the last record.
    pub open spec fn end(self) -> int {
        self.last_offset.0 + 1
    }
}

#[derive(Debug, Clone, Copy, PartialEq, Eq, Structural)]
pub enum SequencerError {
    EmptyRing,
    DuplicateLane(VirtualLaneId),
    StaleRingEpoch { current: RingEpoch, proposed: RingEpoch },
    StaleLeaderEpoch { current: LeaderEpoch, proposed: LeaderEpoch },
    OffsetSpaceExhausted,
    BatchIdSpaceExhausted,
    PlacementSequenceSpaceExhausted,
}

impl SequencerError {
    pub open spec fn describes(self) -> Seq<char> {
        match self {
            SequencerError::EmptyRing => "placement ring cannot be empty"@,
            SequencerError::DuplicateLane(lane) => {
                "placement ring contains duplicate virtual lane ShardId("@ + decimal(lane.0 as nat)
                    + ")"@
            },
            SequencerError::StaleRingEpoch { current, proposed } => {
                "ring epoch must increase: current=RingEpoch("@ + decimal(current.0 as nat)
                    + "), proposed=RingEpoch("@ + decimal(proposed.0 as nat) + ")"@
            },
            SequencerError::StaleLeaderEpoch { current, proposed } => {
                "leader epoch cannot move backward: current=LeaderEpoch("@ + decimal(
                    current.0 as nat,
                ) + "), proposed=LeaderEpoch("@ + decimal(proposed.0 as nat) + ")"@
            },
            SequencerError::OffsetSpaceExhausted => "logical offset space exhausted"@,
            SequencerError::BatchIdSpaceExhausted => "batch ID space exhausted"@,
            SequencerError::PlacementSequenceSpaceExhausted => "placement sequence space exhausted"@,
        }
    }

    /// Describes the failure.
    pub fn message(&self) -> (text: String)
        ensures
            text@ == self.describes(),
    {
        match self {
            SequencerError::EmptyRing => "placement ring cannot be empty".to_string(),
            SequencerError::DuplicateLane(lane) => {
                let mut text =
                    "placement ring contains duplicate virtual lane ShardId(".to_string();
                append_decimal(&mut text, lane.0 as u128);
                text.append(")");
                text
            },
            SequencerError::StaleRingEpoch { current, proposed } => {
                let mut text = "ring epoch must increase: current=RingEpoch(".to_string();
                append_decimal(&mut text, current.0 as u128);
                text.append("), proposed=RingEpoch(");
                append_decimal(&mut text, proposed.0 as u128);
                text.append(")");
                text
            },
            SequencerError::StaleLeaderEpoch { current, proposed } => {
                let mut text =
                    "leader epoch cannot move backward: current=LeaderEpoch(".to_string();
                append_decimal(&mut text, current.0 as u128);
                text.append("), proposed=LeaderEpoch(");
                append_decimal(&mut text, proposed.0 as u128);
                text.append(")");
                text
            },
            SequencerError::OffsetSpaceExhausted => "logical offset space exhausted".to_string(),
            SequencerError::BatchIdSpaceExhausted => "batch ID space exhausted".to_string(),
            SequencerError::PlacementSequenceSpaceExhausted => {
                "placement sequence space exhausted".to_string()
            },
        }
    }
}

/// What a sequencer knows: its ring and the next number of each kind.
pub ghost struct SequencerModel {
    pub topic_id: TopicId,
    pub partition_id: LogicalPartitionId,
    pub ring_epoch: RingEpoch,
    pub leader_epoch: LeaderEpoch,
    pub virtual_lanes: Seq<VirtualLaneId>,
    pub next_batch_id: u128,
    pub next_offset: u64,
    pub next_placement_sequence: u64,
}

/// A ring can be used when it has lanes and names none twice.
pub open spec fn ring_valid(lanes: Seq<VirtualLaneId>) -> bool {
    lanes.len() > 0 && lanes.no_duplicates()
}

/// `error` is what is wrong with `lanes`: the first lane that repeats an
/// earlier one, or that there is none at all.
pub open spec fn ring_fault(lanes: Seq<VirtualLaneId>, error: SequencerError) -> bool {
    match error {
        SequencerError::EmptyRing => lanes.len() == 0,
        SequencerError::DuplicateLane(lane) => exists|i: int|
            {
                &&& 0 <= i < lanes.len()
                &&& #[trigger] lanes[i] == lane
                &&& lanes.take(i).contains(lane)
                &&& lanes.take(i).no_duplicates()
            },
        _ => false,
    }
}

/// The lane that carries a placement sequence number.
pub open spec fn lane_of(lanes: Seq<VirtualLaneId>, sequence: u64) -> VirtualLaneId {
    lanes[sequence as int % lanes.len() as int]
}

impl SequencerModel {
    /// Why a batch of `record_count` records cannot be given a place.
    pub open spec fn reserve_fault(self, record_count: u32) -> Option<SequencerError> {
        if self.next_offset + record_count > u64::MAX {
            Some(SequencerError::OffsetSpaceExhausted)
        } else if self.next_batch_id == u128::MAX {
            Some(SequencerError::BatchIdSpaceExhausted)
        } else if self.next_placement_sequence == u64::MAX {
            Some(SequencerError::PlacementSequenceSpaceExhausted)
        } else {
            None
        }
    }

    /// The place that the next batch gets.
    pub open spec fn reserved(self, record_count: u32) -> Reservation {
        Reservation {
            topic_id: self.topic_id,
            partition_id: self.partition_id,
            batch_id: BatchId(self.next_batch_id),
            first_offset: LogicalOffset(self.next_offset),
            last_offset: LogicalOffset((self.next_offset + record_count - 1) as u64),
            record_count,
            placement: Placement {
                virtual_lane_id: lane_of(self.virtual_lanes, self.next_placement_sequence),
                ring_epoch: self.ring_epoch,
                leader_epoch: self.leader_epoch,
                sequence: PlacementSequence(self.next_placement_sequence),
            },
        }
    }

    /// The sequencer after it gave out a place.
    pub open spec fn after_reserve(self, record_count: u32) -> SequencerModel {
        SequencerModel {
            next_batch_id: (self.next_batch_id + 1) as u128,
            next_offset: (self.next_offset + record_count) as u64,
            next_placement_sequence: (self.next_placement_sequence + 1) as u64,
            ..self
        }
    }
}

/// Hands out dense batch numbers and offsets, and lanes in rotation.
#[derive(Debug)]
pub struct TopicSequencer {
    topic_id: TopicId,
    partition_id: LogicalPartitionId,
    ring_epoch: RingEpoch,
    leader_epoch: LeaderEpoch,
    virtual_lanes: Vec<VirtualLaneId>,
    next_batch_id: u128,
    next_offset: u64,
    next_placement_sequence: u64,
}

/// A sequencer's state as plain data.
#[derive(Debug, Clone, PartialEq, Eq)]
pub struct SequencerState {
    pub topic_id: TopicId,
    pub partition_id: LogicalPartitionId,
    pub ring_epoch: RingEpoch,
    pub leader_epoch: LeaderEpoch,
    pub virtual_lanes: Vec<VirtualLaneId>,
    pub next_batch_id: u128,
    pub next_offset: u64,
    pub next_placement_sequence: u64,
}

impl View for SequencerState {
    type V = SequencerModel;

    open spec fn view(&self) -> SequencerModel {
        SequencerModel {
            topic_id: self.topic_id,
            partition_id: self.partition_id,
            ring_epoch: self.ring_epoch,
            leader_epoch: self.leader_epoch,
            virtual_lanes: self.virtual_lanes@,
            next_batch_id: self.next_batch_id,
            next_offset: self.next_offset,
            next_placement_sequence: self.next_placement_sequence,
        }
    }
}

impl View for TopicSequencer {
    type V = SequencerModel;

    closed spec fn view(&self) -> SequencerModel {
        SequencerModel {
            topic_id: self.topic_id,
            partition_id: self.partition_id,
            ring_epoch: self.ring_epoch,
            leader_epoch: self.leader_epoch,
            virtual_lanes: self.virtual_lanes@,
            next_batch_id: self.next_batch_id,
            next_offset: self.next_offset,
            next_placement_sequence: self.next_placement_sequence,
        }
    }
}

impl TopicSequencer {
    /// A sequencer always has a usable ring.
    pub open spec fn wf(self) -> bool {
        ring_valid(self@.virtual_lanes)
    }

    pub fn new(
        topic_id: TopicId,
        partition_id: LogicalPartitionId,
        ring_epoch: RingEpoch,
        virtual_lanes: Vec<VirtualLaneId>,
    ) -> (result: Result<Self, SequencerError>)
        ensures
            result is Ok <==> ring_valid(virtual_lanes@),
            match result {
                Ok(sequencer) => sequencer.wf() && sequencer@ == (SequencerModel {
                    topic_id,
                    partition_id,
                    ring_epoch,
                    leader_epoch: LeaderEpoch(0),
                    virtual_lanes: virtual_lanes@,
                    next_batch_id: 0,
                    next_offset: 0,
                    next_placement_sequence: 0,
                }),
                Err(error) => ring_fault(virtual_lanes@, error),
            },
    {
        match validate_virtual_lanes(&virtual_lanes) {
            Err(error) => Err(error),
            Ok(()) => Ok(
                TopicSequencer {
                    topic_id,
                    partition_id,
                    ring_epoch,
                    leader_epoch: LeaderEpoch(0),
                    virtual_lanes,
                    next_batch_id: 0,
                    next_offset: 0,
                    next_placement_sequence: 0,
                },
            ),
        }
    }

    /// Continues from a saved state.
    pub fn restore(state: SequencerState) -> (result: Result<Self, SequencerError>)
        ensures
            result is Ok <==> ring_valid(state@.virtual_lanes),
            match result {
                Ok(sequencer) => sequencer.wf() && sequencer@ == state@,
                Err(error) => ring_fault(state@.virtual_lanes, error),
            },
    {
        match validate_virtual_lanes(&state.virtual_lanes) {
            Err(error) => Err(error),
            Ok(()) => Ok(
                TopicSequencer {
                    topic_id: state.topic_id,
                    partition_id: state.partition_id,
                    ring_epoch: state.ring_epoch,
                    leader_epoch: state.leader_epoch,
                    virtual_lanes: state.virtual_lanes,
                    next_batch_id: state.next_batch_id,
                    next_offset: state.next_offset,
                    next_placement_sequence: state.next_placement_sequence,
                },
            ),
        }
    }

    /// Gives the next batch its number, its offsets and its lane.
    pub fn reserve(&mut self, record_count: u32) -> (result: Result<Reservation, SequencerError>)
        requires
            old(self).wf(),
            record_count > 0,
        ensures
            final(self).wf(),
            match result {
                Ok(reservation) => {
                    &&& old(self)@.reserve_fault(record_count) is None
                    &&& reservation == old(self)@.reserved(record_count)
                    &&& final(self)@ == old(self)@.after_reserve(record_count)
                },
                Err(error) => {
                    &&& old(self)@.reserve_fault(record_count) == Some(error)
                    &&& final(self)@ == old(self)@
                },
            },
    {
        let records: u64 = record_count as u64;
        let last_offset: u64 = match self.next_offset.checked_add(records - 1) {
            Some(offset) => offset,
            None => {
                return Err(SequencerError::OffsetSpaceExhausted);
            },
        };
        let next_offset: u64 = match self.next_offset.checked_add(records) {
            Some(offset) => offset,
            None => {
                return Err(SequencerError::OffsetSpaceExhausted);
            },
        };
        let next_batch_id: u128 = match self.next_batch_id.checked_add(1) {
            Some(batch_id) => batch_id,
            None => {
                return Err(SequencerError::BatchIdSpaceExhausted);
            },
        };
        let next_placement_sequence: u64 = match self.next_placement_sequence.checked_add(1) {
            Some(sequence) => sequence,
            None => {
                return Err(SequencerError::PlacementSequenceSpaceExhausted);
            },
        };
        let lane_index: usize = (self.next_placement_sequence % self.virtual_lanes.len() as u64)
            as usize;
        let reservation = Reservation {
            topic_id: self.topic_id,
            partition_id: self.partition_id,
            batch_id: BatchId(self.next_batch_id),
            first_offset: LogicalOffset(self.next_offset),
            last_offset: LogicalOffset(last_offset),
            record_count,
            placement: Placement {
                virtual_lane_id: self.virtual_lanes[lane_index],
                ring_epoch: self.ring_epoch,
                leader_epoch: self.leader_epoch,
                sequence: PlacementSequence(self.next_placement_sequence),
            },
        };
        self.next_offset = next_offset;
        self.next_batch_id = next_batch_id;
        self.next_placement_sequence = next_placement_sequence;
        Ok(reservation)
    }

    /// Changes the ring under a higher ring epoch; every counter goes on.
    pub fn reconfigure(
        &mut self,
        ring_epoch: RingEpoch,
        virtual_lanes: Vec<VirtualLaneId>,
    ) -> (result: Result<(), SequencerError>)
        requires
            old(self).wf(),
        ensures
            final(self).wf(),
            result is Ok <==> ring_epoch.0 > old(self)@.ring_epoch.0 && ring_valid(virtual_lanes@),
            match result {
                Ok(()) => final(self)@ == (SequencerModel {
                    ring_epoch,
                    virtual_lanes: virtual_lanes@,
                    ..old(self)@
                }),
                Err(error) => final(self)@ == old(self)@ && if ring_epoch.0 <= old(
                    self,
                )@.ring_epoch.0 {
                    error == (SequencerError::StaleRingEpoch {
                        current: old(self)@.ring_epoch,
                        proposed: ring_epoch,
                    })
                } else {
                    ring_fault(virtual_lanes@, error)
                },
            },
    {
        if ring_epoch.0 <= self.ring_epoch.0 {
            return Err(
                SequencerError::StaleRingEpoch { current: self.ring_epoch, proposed: ring_epoch },
            );
        }
        match validate_virtual_lanes(&virtual_lanes) {
            Err(error) => Err(error),
            Ok(()) => {
                self.ring_epoch = ring_epoch;
                self.virtual_lanes = virtual_lanes;
                Ok(())
            },
        }
    }

    /// Takes over a leader epoch that is not lower than the current one.
    pub fn observe_leader_epoch(&mut self, leader_epoch: LeaderEpoch) -> (result: Result<
        (),
        SequencerError,
    >)
        requires
            old(self).wf(),
        ensures
            final(self).wf(),
            result == (if leader_epoch.0 < old(self)@.leader_epoch.0 {
                Err::<(), SequencerError>(
                    SequencerError::StaleLeaderEpoch {
                        current: old(self)@.leader_epoch,
                        proposed: leader_epoch,
                    },
                )
            } else {
                Ok(())
            }),
            final(self)@ == (if leader_epoch.0 < old(self)@.leader_epoch.0 {
                old(self)@
            } else {
                SequencerModel { leader_epoch, ..old(self)@ }
            }),
    {
        if leader_epoch.0 < self.leader_epoch.0 {
            return Err(
                SequencerError::StaleLeaderEpoch {
                    current: self.leader_epoch,
                    proposed: leader_epoch,
                },
            );
        }
        self.leader_epoch = leader_epoch;
        Ok(())
    }

    #[must_use]
    pub fn next_offset(&self) -> (offset: LogicalOffset)
        ensures
            offset == LogicalOffset(self@.next_offset),
    {
        LogicalOffset(self.next_offset)
    }

    #[must_use]
    pub fn next_batch_id(&self) -> (batch_id: BatchId)
        ensures
            batch_id == BatchId(self@.next_batch_id),
    {
        BatchId(self.next_batch_id)
    }

    #[must_use]
    pub fn ring_epoch(&self) -> (epoch: RingEpoch)
        ensures
            epoch == self@.ring_epoch,
    {
        self.ring_epoch
    }

    #[must_use]
    pub fn leader_epoch(&self) -> (epoch: LeaderEpoch)
        ensures
            epoch == self@.leader_epoch,
    {
        self.leader_epoch
    }

    /// Whether the ring consists of exactly these lanes, in this order.
    pub fn has_lanes(&self, lanes: &Vec<VirtualLaneId>) -> (same: bool)
        ensures
            same == (self@.virtual_lanes == lanes@),
    {
        if self.virtual_lanes.len() != lanes.len() {
            return false;
        }
        let mut index: usize = 0;
        while index < lanes.len()
            invariant
                self.virtual_lanes@.len() == lanes@.len(),
                index <= lanes@.len(),
                forall|i: int| 0 <= i < index ==> self.virtual_lanes@[i] == lanes@[i],
            decreases lanes@.len() - index,
        {
            if self.virtual_lanes[index].0 != lanes[index].0 {
                return false;
            }
            index += 1;
        }
        proof {
            assert(self@.virtual_lanes =~= lanes@);
        }
        true
    }

    /// The state as plain data.
    #[must_use]
    pub fn state(&self) -> (state: SequencerState)
        ensures
            state@ == self@,
    {
        SequencerState {
            topic_id: self.topic_id,
            partition_id: self.partition_id,
            ring_epoch: self.ring_epoch,
            leader_epoch: self.leader_epoch,
            virtual_lanes: copy_lanes(&self.virtual_lanes),
            next_batch_id: self.next_batch_id,
            next_offset: self.next_offset,
            next_placement_sequence: self.next_placement_sequence,
        }
    }
}

/// A copy of a list of lanes.
pub fn copy_lanes(lanes: &Vec<VirtualLaneId>) -> (copy: Vec<VirtualLaneId>)
    ensures
        copy@ == lanes@,
{
    let mut copy: Vec<VirtualLaneId> = Vec::new();
    let mut index: usize = 0;
    while index < lanes.len()
        invariant
            index <= lanes@.len(),
            copy@ == lanes@.take(index as int),
        decreases lanes@.len() - index,
    {
        copy.push(lanes[index]);
        index += 1;
        proof {
            assert(copy@ =~= lanes@.take(index as int));
        }
    }
    proof {
        assert(copy@ =~= lanes@);
    }
    copy
}

/// Checks that a ring has lanes and repeats none.
pub fn validate_virtual_lanes(virtual_lanes: &Vec<VirtualLaneId>) -> (result: Result<
    (),
    SequencerError,
>)
    ensures
        result is Ok <==> ring_valid(virtual_lanes@),
        match result {
            Ok(()) => true,
            Err(error) => ring_fault(virtual_lanes@, error),
        },
{
    if virtual_lanes.len() == 0 {
        return Err(SequencerError::EmptyRing);
    }
    let mut unique: HashSet<u32> = HashSet::with_capacity(virtual_lanes.len());
    let mut index: usize = 0;
    while index < virtual_lanes.len()
        invariant
            index <= virtual_lanes@.len(),
            virtual_lanes@.take(index as int).no_duplicates(),
            forall|lane: u32| #[trigger]
                unique@.contains(lane) <==> virtual_lanes@.take(index as int).contains(
                    ShardId(lane),
                ),
        decreases virtual_lanes@.len() - index,
    {
        let lane = virtual_lanes[index];
        let ghost before = virtual_lanes@.take(index as int);
        let ghost after = virtual_lanes@.take(index + 1);
        proof {
            assert(after =~= before.push(lane));
            assert(before.contains(lane) <==> unique@.contains(lane.0));
        }
        if !unique.insert(lane.0) {
            proof {
                assert(virtual_lanes@[index as int] == lane);
                assert(!ring_valid(virtual_lanes@)) by {
                    let i = choose|i: int| 0 <= i < before.len() && before[i] == lane;
                    assert(virtual_lanes@[i] == virtual_lanes@[index as int]);
                }
            }
            return Err(SequencerError::DuplicateLane(lane));
        }
        proof {
            assert forall|other: u32| #[trigger] unique@.contains(other) <==> after.contains(
                ShardId(other),
            ) by {
                let id = ShardId(other);
                if before.contains(id) {
                    let i = choose|i: int| 0 <= i < before.len() && before[i] == id;
                    assert(after[i] == id);
                }
                if other == lane.0 {
                    assert(after[index as int] == id);
                }
            }
        }
        index += 1;
    }
    proof {
        assert(virtual_lanes@.take(index as int) =~= virtual_lanes@);
    }
    Ok(())
}

impl SequencerModel {
    /// Consecutive reservations tile the offsets and number batches and
    /// placements without a gap, whatever the record counts.
    pub proof fn reservations_are_contiguous(self, first_count: u32, second_count: u32)
        requires
            first_count > 0,
            second_count > 0,
            self.reserve_fault(first_count) is None,
            self.after_reserve(first_count).reserve_fault(second_count) is None,
        ensures
            ({
                let first = self.reserved(first_count);
                let second = self.after_reserve(first_count).reserved(second_count);
                &&& first.wf()
                &&& second.wf()
                &&& second.first_offset.0 == first.last_offset.0 + 1
                &&& second.batch_id.0 == first.batch_id.0 + 1
                &&& second.placement.sequence.0 == first.placement.sequence.0 + 1
            }),
    {
    }

    /// Placement advances once per batch: as long as the ring stays, a batch
    /// that comes a whole ring later gets the same lane again, and the lane of
    /// a batch does not depend on how many records it or any other has.
    pub proof fn placement_rotates_per_batch(self, one_count: u32, other_count: u32)
        requires
            ring_valid(self.virtual_lanes),
        ensures
            self.reserved(one_count).placement == self.reserved(other_count).placement,
            self.next_placement_sequence + self.virtual_lanes.len() <= u64::MAX ==> lane_of(
                self.virtual_lanes,
                (self.next_placement_sequence + self.virtual_lanes.len()) as u64,
            ) == lane_of(self.virtual_lanes, self.next_placement_sequence),
    {
        let n = self.virtual_lanes.len() as int;
        let s = self.next_placement_sequence as int;
        assert((s + n) % n == s % n) by {
            vstd::arithmetic::div_mod::lemma_mod_add_multiples_vanish(s, n);
        }
    }

    /// A ring change leaves every counter where it was.
    pub proof fn ring_change_keeps_counters(
        self,
        ring_epoch: RingEpoch,
        virtual_lanes: Seq<VirtualLaneId>,
        record_count: u32,
    )
        ensures
            ({
                let changed = SequencerModel { ring_epoch, virtual_lanes, ..self };
                let before = self.reserved(record_count);
                let after = changed.reserved(record_count);
                &&& after.batch_id == before.batch_id
                &&& after.first_offset == before.first_offset
                &&& after.last_offset == before.last_offset
                &&& after.placement.sequence == before.placement.sequence
                &&& after.placement.ring_epoch == ring_epoch
            }),
    {
    }
}

} // verus!
