//! Where the limits lie, and what happens at them.
use vstd::prelude::*;

use crate::bytes::{le_bytes, le_bytes_read_back, lemma_le_bounds};
use crate::control::{
    decode_state, encode_state, lemma_magic, state_body, LeaseCoordinatorConfig,
    STATE_CHECKSUM_BYTES, STATE_VERSION,
};
use crate::coordinator::advance_producer;
use crate::error::{EngineResult, Fault};
use crate::ids::{RingEpoch, TopicPartition};
use crate::journal::RingModel;
use crate::lease::{ClusterId, ControlError, ControlResult, FinalizedLease, NodeId};
use crate::partition::PartitionState;
use crate::protocol::ProducerIdentity;
use crate::recovery::{Progress, MAX_RECOVERED_GAP_BATCHES};
use crate::sequencer::{Reservation, SequencerError, TopicSequencer};

verus! {

/// Places are given out as long as offsets, numbers and turns last, to the very last one;
/// a place that cannot be given out takes nothing.
pub proof fn places_last_to_the_end(
    sequencer: &mut TopicSequencer,
    record_count: u32,
    result: Result<Reservation, SequencerError>,
)
    requires
        record_count > 0,
        call_ensures(TopicSequencer::reserve, (sequencer, record_count), result),
    ensures
        ({
            let m = old(sequencer)@;
            &&& result is Ok <==> m.next_offset + record_count <= u64::MAX && m.next_batch_id
                < u128::MAX && m.next_placement_sequence < u64::MAX
            &&& m.next_offset + record_count > u64::MAX ==> result == Err::<
                Reservation,
                SequencerError,
            >(SequencerError::OffsetSpaceExhausted)
            &&& result is Err ==> final(sequencer)@ == m
            &&& result is Ok ==> final(sequencer)@.next_offset == m.next_offset + record_count
                && final(sequencer)@.next_batch_id == m.next_batch_id + 1
                && final(sequencer)@.next_placement_sequence == m.next_placement_sequence + 1
        }),
{
}

/// A producer's next sequence is the one behind its batch. In the same epoch it stays
/// failed if it was, a later epoch starts it anew, and no other producer is moved.
pub proof fn producers_move_behind_their_batch(
    state: &mut PartitionState,
    claim: ProducerIdentity,
    record_count: u32,
    result: EngineResult<()>,
    other: u128,
)
    requires
        call_ensures(advance_producer, (state, Some(claim), record_count), result),
        other != claim.producer_id,
    ensures
        ({
            let before = old(state)@.producers;
            let after = final(state)@.producers;
            let id = claim.producer_id;
            &&& result is Ok <==> claim.first_sequence + record_count <= u64::MAX
            &&& result is Err ==> final(state)@ == old(state)@
            &&& result is Ok ==> {
                &&& after.contains_key(id)
                &&& after[id].next_sequence == claim.first_sequence + record_count
                &&& !before.contains_key(id) || claim.epoch > before[id].epoch ==> after[id].epoch
                    == claim.epoch && !after[id].failed
                &&& before.contains_key(id) && claim.epoch <= before[id].epoch ==> after[id].epoch
                    == before[id].epoch && after[id].failed == before[id].failed
                &&& after.contains_key(other) == before.contains_key(other)
                &&& after[other] == before[other]
            }
        }),
{
}

/// A table of leases that another node, or a node of another cluster, wrote is refused.
pub proof fn foreign_tables_are_refused(
    cluster_id: ClusterId,
    node_id: NodeId,
    leases: Vec<FinalizedLease>,
    bytes: Vec<u8>,
    config: LeaseCoordinatorConfig,
    result: ControlResult<Vec<FinalizedLease>>,
)
    requires
        call_ensures(
            encode_state,
            (cluster_id, node_id, &leases),
            Ok::<Vec<u8>, ControlError>(bytes),
        ),
        call_ensures(decode_state, (&config, &bytes), result),
        config.cluster_id != cluster_id || config.node_id != node_id,
    ensures
        result is Err,
{
    let models = crate::control::lease_models(leases@);
    let body = state_body(cluster_id, node_id, models);
    lemma_magic();
    lemma_le_bounds();
    le_bytes_read_back(STATE_VERSION as nat, 2);
    le_bytes_read_back(cluster_id.0 as nat, 16);
    le_bytes_read_back(node_id.0 as nat, 16);
    assert(bytes@.take(bytes@.len() - STATE_CHECKSUM_BYTES) =~= body);
    assert(body.subrange(10, 26) =~= le_bytes(cluster_id.0 as nat, 16));
    assert(body.subrange(26, 42) =~= le_bytes(node_id.0 as nat, 16));
}

/// Where nothing is missing nothing is filled in; offsets that are missing without a batch
/// for them, more batches than records, and more batches than are believed, are refused.
pub proof fn unlikely_gaps_are_refused(
    progress: Progress,
    rings: Seq<RingModel>,
    topic_partition: TopicPartition,
    missing_batches: int,
    missing_records: int,
    ring_epoch: RingEpoch,
)
    requires
        missing_batches >= 0,
        missing_records >= 0,
    ensures
        ({
            let filled = progress.gap_filled(
                rings,
                topic_partition,
                missing_batches,
                missing_records,
                ring_epoch,
            );
            &&& missing_batches == 0 && missing_records == 0 ==> filled == Ok::<
                crate::partition::PartitionModel,
                Fault,
            >(progress.model)
            &&& missing_batches == 0 && missing_records > 0 ==> filled is Err
            &&& missing_records < missing_batches ==> filled is Err
            &&& missing_batches > MAX_RECOVERED_GAP_BATCHES ==> filled is Err
        }),
{
}

} // verus!
