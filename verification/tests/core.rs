use shard_stream::channel::{
    byte_bounded_channel, ChannelConfigError, TryRecvError, TrySendError,
};
use shard_stream::ids::{
    BrokerId, LogicalOffset, LogicalPartitionId, RingEpoch, TopicId, TopicPartition, VirtualLaneId,
};
use shard_stream::sequencer::{SequencerError, SequencerState, TopicSequencer};
use shard_stream::topology::{AssignmentProvider, BrokerDescriptor, SingleNodeAssignment};

#[test]
fn validates_both_capacity_dimensions() {
    assert!(matches!(
        byte_bounded_channel::<u8>(0, 1),
        Err(ChannelConfigError::ZeroSlots)
    ));
    assert!(matches!(
        byte_bounded_channel::<u8>(1, 0),
        Err(ChannelConfigError::ZeroBytes)
    ));
}

#[test]
fn byte_permit_lives_until_received_item_is_dropped() {
    let mut channel = byte_bounded_channel(2, 10).expect("channel");
    channel.try_send("first", 8).expect("first send");

    assert!(matches!(
        channel.try_send("second", 3),
        Err(TrySendError::ByteBudget { .. })
    ));

    let first = channel.recv().expect("first receive");
    assert_eq!(channel.stats().used_bytes, 8);
    assert!(matches!(
        channel.try_send("second", 3),
        Err(TrySendError::ByteBudget { .. })
    ));

    channel.release(first);
    channel.try_send("second", 3).expect("permit released");
    let second = channel.recv().expect("second receive");
    assert_eq!(second.into_inner(&mut channel), "second");
    assert_eq!(channel.stats().used_bytes, 0);
}

#[test]
fn slot_capacity_is_enforced_independently() {
    let mut channel = byte_bounded_channel(1, 100).expect("channel");
    channel.try_send(1, 1).expect("first send");
    assert_eq!(channel.try_send(2, 1), Err(TrySendError::Full(2)));
    let received = channel.recv().expect("receive");
    assert_eq!(received.into_inner(&mut channel), 1);
    channel.try_send(2, 1).expect("slot released");
}

#[test]
fn oversized_and_disconnected_sends_return_the_item() {
    let mut channel = byte_bounded_channel(1, 4).expect("channel");
    assert_eq!(
        channel.try_send(7, 5),
        Err(TrySendError::TooLarge {
            item: 7,
            bytes: 5,
            max_bytes: 4
        })
    );
    channel.disconnect_receiver();
    assert_eq!(channel.try_send(8, 4), Err(TrySendError::Disconnected(8)));
    assert_eq!(channel.stats().used_bytes, 0);
}

#[test]
fn an_empty_channel_tells_whether_anyone_can_still_send() {
    let mut channel = byte_bounded_channel::<u8>(1, 4).expect("channel");
    assert!(matches!(channel.try_recv(), Err(TryRecvError::Empty)));
    channel.connect_sender();
    channel.disconnect_sender();
    assert!(matches!(channel.try_recv(), Err(TryRecvError::Empty)));
    channel.disconnect_sender();
    assert!(matches!(channel.try_recv(), Err(TryRecvError::Disconnected)));
    assert!(channel.recv().is_err());
}

#[test]
fn mapping_a_received_item_keeps_its_charge_unless_it_fails() {
    let mut channel = byte_bounded_channel(2, 10).expect("channel");
    channel.try_send(3u32, 4).expect("send");
    channel.try_send(5u32, 6).expect("send");
    let first = channel.recv().expect("receive");
    assert_eq!(first.charged_bytes(), 4);
    let mapped = first
        .try_map(&mut channel, |value| -> Result<u64, String> {
            Ok(u64::from(value) * 2)
        })
        .expect("mapped");
    assert_eq!(*mapped.get(), 6);
    assert_eq!(channel.stats().used_bytes, 10);
    let second = channel.recv().expect("receive");
    let failed = second.try_map(&mut channel, |_| -> Result<u64, String> {
        Err("refused".to_string())
    });
    assert!(failed.is_err());
    assert_eq!(channel.stats().used_bytes, 4);
    channel.release(mapped);
    assert_eq!(channel.stats().used_bytes, 0);
    assert_eq!(channel.stats().max_bytes, 10);
}

#[test]
fn a_channel_charges_exactly_its_live_items() {
    let mut channel = byte_bounded_channel(3, 20).expect("channel");
    let charges = [5usize, 7, 2];
    for (item, bytes) in charges.into_iter().enumerate() {
        channel.try_send(item, bytes).expect("send");
    }
    assert!(channel.try_send(3, 1).is_err());
    assert_eq!(channel.stats().used_bytes, 14);
    let first = channel.recv().expect("receive");
    let second = channel.recv().expect("receive");
    assert_eq!(channel.stats().used_bytes, 14);
    channel.release(second);
    assert_eq!(channel.stats().used_bytes, 7);
    channel.try_send(4, 13).expect("send");
    assert_eq!(channel.stats().used_bytes, 20);
    assert_eq!(first.into_inner(&mut channel), 0);
    assert_eq!(channel.stats().used_bytes, 15);
}

fn sequencer(lanes: &[u32]) -> TopicSequencer {
    TopicSequencer::new(
        TopicId::new(7),
        LogicalPartitionId::new(3),
        RingEpoch::new(1),
        lanes.iter().copied().map(VirtualLaneId::new).collect(),
    )
    .expect("valid sequencer")
}

#[test]
fn placement_advances_once_per_batch_not_per_record() {
    let mut sequencer = sequencer(&[10, 11, 12]);
    let counts = [5, 1, 9, 2];
    let reservations = counts.map(|count| sequencer.reserve(count).expect("reservation"));

    assert_eq!(
        reservations.map(|reservation| reservation.placement.virtual_lane_id.get()),
        [10, 11, 12, 10]
    );
    assert_eq!(
        reservations.map(|reservation| reservation.placement.sequence.get()),
        [0, 1, 2, 3]
    );
    assert_eq!(
        reservations.map(|reservation| (
            reservation.first_offset.get(),
            reservation.last_offset.get()
        )),
        [(0, 4), (5, 5), (6, 14), (15, 16)]
    );
}

#[test]
fn ring_change_preserves_global_placement_sequence() {
    let mut sequencer = sequencer(&[1, 2]);
    let first = sequencer.reserve(1).expect("first reservation");
    assert_eq!(first.placement.sequence.get(), 0);

    sequencer
        .reconfigure(
            RingEpoch::new(2),
            vec![
                VirtualLaneId::new(7),
                VirtualLaneId::new(8),
                VirtualLaneId::new(9),
            ],
        )
        .expect("new epoch");
    let second = sequencer.reserve(1).expect("second reservation");

    assert_eq!(second.placement.sequence.get(), 1);
    assert_eq!(second.placement.virtual_lane_id, VirtualLaneId::new(8));
    assert_eq!(second.placement.ring_epoch, RingEpoch::new(2));
}

#[test]
fn rejects_empty_duplicate_and_stale_rings() {
    assert_eq!(
        TopicSequencer::new(
            TopicId::new(1),
            LogicalPartitionId::new(0),
            RingEpoch::new(1),
            Vec::new()
        )
        .expect_err("empty ring"),
        SequencerError::EmptyRing
    );
    assert_eq!(
        TopicSequencer::new(
            TopicId::new(1),
            LogicalPartitionId::new(0),
            RingEpoch::new(1),
            vec![VirtualLaneId::new(2), VirtualLaneId::new(2)]
        )
        .expect_err("duplicate"),
        SequencerError::DuplicateLane(VirtualLaneId::new(2))
    );

    let mut sequencer = sequencer(&[1]);
    assert!(matches!(
        sequencer.reconfigure(RingEpoch::new(1), vec![VirtualLaneId::new(2)]),
        Err(SequencerError::StaleRingEpoch { .. })
    ));
}

#[test]
fn failed_checked_reservation_does_not_advance_state() {
    let fresh = sequencer(&[1]);
    let mut sequencer = TopicSequencer::restore(SequencerState {
        next_batch_id: 4,
        next_offset: u64::MAX,
        next_placement_sequence: 9,
        ..fresh.state()
    })
    .expect("restored");

    assert_eq!(
        sequencer.reserve(1).expect_err("offset overflow"),
        SequencerError::OffsetSpaceExhausted
    );
    assert_eq!(sequencer.next_offset(), LogicalOffset::new(u64::MAX));
    assert_eq!(sequencer.state().next_batch_id, 4);
    assert_eq!(sequencer.state().next_placement_sequence, 9);
}

#[test]
fn sequencer_errors_explain_themselves() {
    assert_eq!(
        SequencerError::DuplicateLane(VirtualLaneId::new(2)).message(),
        "placement ring contains duplicate virtual lane ShardId(2)".to_string()
    );
    let mut sequencer = sequencer(&[1]);
    sequencer
        .observe_leader_epoch(shard_stream::ids::LeaderEpoch::new(5))
        .expect("later epoch");
    assert_eq!(sequencer.leader_epoch().get(), 5);
    assert!(matches!(
        sequencer.observe_leader_epoch(shard_stream::ids::LeaderEpoch::new(4)),
        Err(SequencerError::StaleLeaderEpoch { .. })
    ));
}

fn broker(kafka_host: &str, kafka_port: u16) -> BrokerDescriptor {
    BrokerDescriptor {
        broker_id: BrokerId::new(0),
        incarnation: 1,
        rack: String::new(),
        zone: String::new(),
        internal_rest: "http://127.0.0.1:7420".into(),
        internal_replication: String::new(),
        advertised_rest: "http://127.0.0.1:7420".into(),
        advertised_grpc: "http://127.0.0.1:7421".into(),
        kafka_host: kafka_host.into(),
        kafka_port,
        cpu_capacity: 1,
        disk_capacity_bytes: 0,
        network_capacity_bytes_per_sec: 0,
        certificate_digest: [0; 32],
    }
}

#[test]
fn single_node_assignment_accepts_an_absent_optional_kafka_endpoint() {
    assert!(SingleNodeAssignment::new(broker("", 0), 1).is_ok());
    assert!(SingleNodeAssignment::new(broker("127.0.0.1", 9092), 1).is_ok());
}

#[test]
fn single_node_assignment_rejects_a_partial_kafka_endpoint() {
    assert!(SingleNodeAssignment::new(broker("", 9092), 1).is_err());
    assert!(SingleNodeAssignment::new(broker("127.0.0.1", 0), 1).is_err());
}

#[test]
fn the_single_node_leads_every_partition_with_a_valid_assignment() {
    let node = SingleNodeAssignment::new(broker("", 0), 3).expect("assignment");
    let partition = TopicPartition::new(TopicId::new(9), LogicalPartitionId::new(2));
    assert!(node.is_local_leader(partition));
    assert_eq!(node.local_broker_id(), BrokerId::new(0));
    assert_eq!(
        node.leader(partition).expect("leader").advertised_grpc,
        "http://127.0.0.1:7421".to_string()
    );
    assert!(node.broker().rack.is_empty());
    let mut assignment = node.assignment(partition).expect("assignment");
    assignment.validate().expect("valid");
    assert_eq!(assignment.virtual_lanes().len(), 3);
    assignment.min_in_sync_replicas = 2;
    assert_eq!(
        assignment.validate(),
        Err("minimum ISR must be between one and the replica count".to_string())
    );
    assignment.min_in_sync_replicas = 1;
    assignment.replicas.push(BrokerId::new(0));
    assert_eq!(
        assignment.validate(),
        Err("partition assignment contains duplicate replicas".to_string())
    );
    assignment.preferred_follower = Some(BrokerId::new(0));
    assert_eq!(
        assignment.validate(),
        Err("preferred follower must be a non-leader replica".to_string())
    );
}
