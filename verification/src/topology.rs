//! Brokers, partition assignments and where to find them.
use vstd::prelude::*;

use crate::ids::{
    AssignmentEpoch, BrokerId, LeaderEpoch, LogicalOffset, RingEpoch, ShardId, TopicPartition,
    VirtualLaneId,
};

verus! {

/// Stable, transport-neutral broker metadata advertised by assignment
/// providers. Capacity values are relative weights, not hard limits.
#[derive(Debug, PartialEq, Eq)]
pub struct BrokerDescriptor {
    pub broker_id: BrokerId,
    pub incarnation: u64,
    pub rack: String,
    pub zone: String,
    pub internal_rest: String,
    pub internal_replication: String,
    pub advertised_rest: String,
    pub advertised_grpc: String,
    pub kafka_host: String,
    pub kafka_port: u16,
    pub cpu_capacity: u32,
    pub disk_capacity_bytes: u64,
    pub network_capacity_bytes_per_sec: u64,
    pub certificate_digest: [u8; 32],
}

impl Clone for BrokerDescriptor {
    fn clone(&self) -> (copy: Self)
        ensures
            copy == *self,
    {
        BrokerDescriptor {
            broker_id: self.broker_id,
            incarnation: self.incarnation,
            rack: self.rack.clone(),
            zone: self.zone.clone(),
            internal_rest: self.internal_rest.clone(),
            internal_replication: self.internal_replication.clone(),
            advertised_rest: self.advertised_rest.clone(),
            advertised_grpc: self.advertised_grpc.clone(),
            kafka_host: self.kafka_host.clone(),
            kafka_port: self.kafka_port,
            cpu_capacity: self.cpu_capacity,
            disk_capacity_bytes: self.disk_capacity_bytes,
            network_capacity_bytes_per_sec: self.network_capacity_bytes_per_sec,
            certificate_digest: self.certificate_digest,
        }
    }
}

/// The explicit, finalized placement for one logical partition.
#[derive(Debug, Clone, PartialEq, Eq)]
pub struct PartitionAssignment {
    pub topic_partition: TopicPartition,
    pub replicas: Vec<BrokerId>,
    pub leader: BrokerId,
    pub preferred_follower: Option<BrokerId>,
    pub assignment_epoch: AssignmentEpoch,
    pub leader_epoch: LeaderEpoch,
    pub ring_epoch: RingEpoch,
    pub virtual_lane_count: u32,
    pub min_in_sync_replicas: u32,
}

fn contains_broker(brokers: &Vec<BrokerId>, broker: BrokerId) -> (contains: bool)
    ensures
        contains == brokers@.contains(broker),
{
    let mut index: usize = 0;
    while index < brokers.len()
        invariant
            index <= brokers@.len(),
            forall|i: int| 0 <= i < index ==> brokers@[i] != broker,
        decreases brokers@.len() - index,
    {
        if brokers[index] == broker {
            return true;
        }
        index += 1;
    }
    false
}

fn all_different(brokers: &Vec<BrokerId>) -> (different: bool)
    ensures
        different == brokers@.no_duplicates(),
{
    let mut index: usize = 0;
    while index < brokers.len()
        invariant
            index <= brokers@.len(),
            forall|i: int, j: int| 0 <= i < j < index ==> brokers@[i] != brokers@[j],
        decreases brokers@.len() - index,
    {
        let mut earlier: usize = 0;
        while earlier < index
            invariant
                earlier <= index < brokers@.len(),
                forall|i: int| 0 <= i < earlier ==> brokers@[i] != brokers@[index as int],
            decreases index - earlier,
        {
            if brokers[earlier] == brokers[index] {
                assert(brokers@[earlier as int] == brokers@[index as int]);
                return false;
            }
            earlier += 1;
        }
        index += 1;
    }
    true
}

impl PartitionAssignment {
    /// The first thing that is wrong with the assignment.
    pub open spec fn fault(self) -> Option<Seq<char>> {
        if self.replicas@.len() == 0 {
            Some("partition assignment must contain a replica"@)
        } else if self.virtual_lane_count == 0 {
            Some("partition assignment must contain a virtual lane"@)
        } else if !(1 <= self.min_in_sync_replicas <= self.replicas@.len()) {
            Some("minimum ISR must be between one and the replica count"@)
        } else if !self.replicas@.contains(self.leader) {
            Some("partition leader must be a replica"@)
        } else if self.preferred_follower matches Some(follower) && (follower == self.leader
            || !self.replicas@.contains(follower)) {
            Some("preferred follower must be a non-leader replica"@)
        } else if !self.replicas@.no_duplicates() {
            Some("partition assignment contains duplicate replicas"@)
        } else {
            None
        }
    }

    /// Checks the assignment and names the first fault.
    pub fn validate(&self) -> (result: Result<(), String>)
        ensures
            match result {
                Ok(()) => self.fault() is None,
                Err(text) => self.fault() == Some(text@),
            },
    {
        if self.replicas.len() == 0 {
            return Err("partition assignment must contain a replica".to_string());
        }
        if self.virtual_lane_count == 0 {
            return Err("partition assignment must contain a virtual lane".to_string());
        }
        if self.min_in_sync_replicas == 0 || self.min_in_sync_replicas as usize
            > self.replicas.len() {
            return Err("minimum ISR must be between one and the replica count".to_string());
        }
        if !contains_broker(&self.replicas, self.leader) {
            return Err("partition leader must be a replica".to_string());
        }
        if let Some(follower) = self.preferred_follower {
            if follower == self.leader || !contains_broker(&self.replicas, follower) {
                return Err("preferred follower must be a non-leader replica".to_string());
            }
        }
        if !all_different(&self.replicas) {
            return Err("partition assignment contains duplicate replicas".to_string());
        }
        Ok(())
    }

    /// The virtual lanes, in order.
    #[must_use]
    pub fn virtual_lanes(&self) -> (lanes: Vec<VirtualLaneId>)
        ensures
            lanes@ == Seq::new(self.virtual_lane_count as nat, |i: int| ShardId(i as u32)),
    {
        let mut lanes: Vec<VirtualLaneId> = Vec::new();
        let mut index: u32 = 0;
        while index < self.virtual_lane_count
            invariant
                index <= self.virtual_lane_count,
                lanes@ == Seq::new(index as nat, |i: int| ShardId(i as u32)),
            decreases self.virtual_lane_count - index,
        {
            lanes.push(ShardId(index));
            index += 1;
            proof {
                assert(lanes@ =~= Seq::new(index as nat, |i: int| ShardId(i as u32)));
            }
        }
        lanes
    }
}

#[derive(Debug, Clone, Copy, PartialEq, Eq, Structural)]
pub struct ReplicaProgress {
    pub topic_partition: TopicPartition,
    pub broker_id: BrokerId,
    pub leader_epoch: LeaderEpoch,
    pub durable_end: LogicalOffset,
    pub visible_end: LogicalOffset,
    pub object_end: LogicalOffset,
    pub in_sync: bool,
    pub observed_at_unix_ms: u64,
}

#[derive(Debug, Clone, PartialEq, Eq)]
pub struct ExtentDescriptor {
    pub topic_partition: TopicPartition,
    pub first_offset: LogicalOffset,
    pub last_offset: LogicalOffset,
    pub virtual_lane_id: VirtualLaneId,
    pub ring_epoch: RingEpoch,
    pub leader_epoch: LeaderEpoch,
    pub checksum_xxh3_128: [u8; 16],
    pub object_key: Option<String>,
}

/// The first broker of that number.
pub open spec fn broker_numbered(brokers: Seq<BrokerDescriptor>, broker_id: BrokerId) -> Option<
    BrokerDescriptor,
>
    decreases brokers.len(),
{
    if brokers.len() == 0 {
        None
    } else if brokers[0].broker_id == broker_id {
        Some(brokers[0])
    } else {
        broker_numbered(brokers.skip(1), broker_id)
    }
}

fn find_broker(brokers: Vec<BrokerDescriptor>, broker_id: BrokerId) -> (found: Option<
    BrokerDescriptor,
>)
    ensures
        found == broker_numbered(brokers@, broker_id),
{
    let mut index: usize = 0;
    proof {
        assert(brokers@.skip(0) =~= brokers@);
    }
    while index < brokers.len()
        invariant
            index <= brokers@.len(),
            broker_numbered(brokers@, broker_id) == broker_numbered(
                brokers@.skip(index as int),
                broker_id,
            ),
        decreases brokers@.len() - index,
    {
        if brokers[index].broker_id == broker_id {
            return Some(brokers[index].clone());
        }
        proof {
            assert(brokers@.skip(index as int).skip(1) =~= brokers@.skip(index + 1));
        }
        index += 1;
    }
    None
}

/// Read-only routing surface consumed by brokers and protocol adapters.
///
/// What a provider publishes is a snapshot: `published` and `spec_leader` say
/// what it holds.
pub trait AssignmentProvider {
    /// The number of the local broker.
    spec fn spec_local(&self) -> BrokerId;

    /// The brokers that are known.
    spec fn published(&self) -> Seq<BrokerDescriptor>;

    /// The leader of a partition, if it has an assignment.
    spec fn spec_leader(&self, topic_partition: TopicPartition) -> Option<BrokerId>;

    fn local_broker_id(&self) -> (id: BrokerId)
        ensures
            id == self.spec_local(),
    ;

    fn brokers(&self) -> (brokers: Vec<BrokerDescriptor>)
        ensures
            brokers@ == self.published(),
    ;

    fn assignment(&self, topic_partition: TopicPartition) -> (assignment: Option<
        PartitionAssignment,
    >)
        ensures
            match assignment {
                Some(placed) => self.spec_leader(topic_partition) == Some(placed.leader),
                None => self.spec_leader(topic_partition) is None,
            },
    ;

    fn assignment_epoch(&self) -> AssignmentEpoch;

    fn broker(&self, broker_id: BrokerId) -> (broker: Option<BrokerDescriptor>)
        ensures
            broker == broker_numbered(self.published(), broker_id),
    {
        find_broker(self.brokers(), broker_id)
    }

    fn leader(&self, topic_partition: TopicPartition) -> (broker: Option<BrokerDescriptor>)
        ensures
            broker == (match self.spec_leader(topic_partition) {
                Some(leader) => broker_numbered(self.published(), leader),
                None => None,
            }),
    {
        match self.assignment(topic_partition) {
            Some(assignment) => self.broker(assignment.leader),
            None => None,
        }
    }

    fn is_local_leader(&self, topic_partition: TopicPartition) -> (local: bool)
        ensures
            local == (self.spec_leader(topic_partition) == Some(self.spec_local())),
    {
        match self.assignment(topic_partition) {
            Some(assignment) => assignment.leader == self.local_broker_id(),
            None => false,
        }
    }
}

/// Fixed RF1 assignment used by the public server.
#[derive(Debug, Clone)]
pub struct SingleNodeAssignment {
    broker: BrokerDescriptor,
    virtual_lane_count: u32,
}

impl SingleNodeAssignment {
    pub closed spec fn spec_broker(&self) -> BrokerDescriptor {
        self.broker
    }

    pub closed spec fn spec_lanes(&self) -> u32 {
        self.virtual_lane_count
    }

    /// The first thing that is wrong with a single-node setup.
    pub open spec fn fault(broker: BrokerDescriptor, virtual_lane_count: u32) -> Option<Seq<char>> {
        if broker.broker_id.0 > i32::MAX {
            Some("broker ID must fit Kafka's signed 32-bit broker ID"@)
        } else if (broker.kafka_host@.len() == 0) != (broker.kafka_port == 0) {
            Some("Kafka host and port must either both be configured or both be absent"@)
        } else if virtual_lane_count == 0 {
            Some("virtual lane count must be nonzero"@)
        } else {
            None
        }
    }

    pub fn new(broker: BrokerDescriptor, virtual_lane_count: u32) -> (result: Result<Self, String>)
        ensures
            match result {
                Ok(assignment) => {
                    &&& Self::fault(broker, virtual_lane_count) is None
                    &&& assignment.spec_broker() == broker
                    &&& assignment.spec_lanes() == virtual_lane_count
                },
                Err(text) => Self::fault(broker, virtual_lane_count) == Some(text@),
            },
    {
        if broker.broker_id.0 > 0x7fff_ffff {
            return Err("broker ID must fit Kafka's signed 32-bit broker ID".to_string());
        }
        let host_absent = crate::text::collect_chars(broker.kafka_host.as_str()).len() == 0;
        if host_absent != (broker.kafka_port == 0) {
            return Err(
                "Kafka host and port must either both be configured or both be absent".to_string(),
            );
        }
        if virtual_lane_count == 0 {
            return Err("virtual lane count must be nonzero".to_string());
        }
        Ok(SingleNodeAssignment { broker, virtual_lane_count })
    }

    #[must_use]
    pub fn broker(&self) -> (broker: &BrokerDescriptor)
        ensures
            *broker == self.spec_broker(),
    {
        &self.broker
    }

    /// The one assignment of every partition.
    pub open spec fn places(
        &self,
        topic_partition: TopicPartition,
        assignment: PartitionAssignment,
    ) -> bool {
        &&& assignment.topic_partition == topic_partition
        &&& assignment.replicas@ == seq![self.spec_broker().broker_id]
        &&& assignment.leader == self.spec_broker().broker_id
        &&& assignment.preferred_follower is None
        &&& assignment.assignment_epoch == AssignmentEpoch(1)
        &&& assignment.leader_epoch == LeaderEpoch(0)
        &&& assignment.ring_epoch == RingEpoch(1)
        &&& assignment.virtual_lane_count == self.spec_lanes()
        &&& assignment.min_in_sync_replicas == 1
    }

    /// Every assignment of a valid single-node setup is valid.
    pub proof fn assignments_are_valid(
        &self,
        topic_partition: TopicPartition,
        assignment: PartitionAssignment,
    )
        requires
            Self::fault(self.spec_broker(), self.spec_lanes()) is None,
            self.places(topic_partition, assignment),
        ensures
            assignment.fault() is None,
    {
        assert(assignment.replicas@[0] == assignment.leader);
    }
}

impl AssignmentProvider for SingleNodeAssignment {
    open spec fn spec_local(&self) -> BrokerId {
        self.spec_broker().broker_id
    }

    open spec fn published(&self) -> Seq<BrokerDescriptor> {
        seq![self.spec_broker()]
    }

    open spec fn spec_leader(&self, topic_partition: TopicPartition) -> Option<BrokerId> {
        Some(self.spec_broker().broker_id)
    }

    fn local_broker_id(&self) -> (id: BrokerId) {
        self.broker.broker_id
    }

    fn brokers(&self) -> (brokers: Vec<BrokerDescriptor>) {
        let mut brokers: Vec<BrokerDescriptor> = Vec::new();
        brokers.push(self.broker.clone());
        proof {
            assert(brokers@ =~= seq![self.spec_broker()]);
        }
        brokers
    }

    fn assignment(&self, topic_partition: TopicPartition) -> (assignment: Option<
        PartitionAssignment,
    >)
        ensures
            assignment is Some && self.places(topic_partition, assignment->0),
    {
        let mut replicas: Vec<BrokerId> = Vec::new();
        replicas.push(self.broker.broker_id);
        proof {
            assert(replicas@ =~= seq![self.spec_broker().broker_id]);
        }
        Some(
            PartitionAssignment {
                topic_partition,
                replicas,
                leader: self.broker.broker_id,
                preferred_follower: None,
                assignment_epoch: AssignmentEpoch(1),
                leader_epoch: LeaderEpoch(0),
                ring_epoch: RingEpoch(1),
                virtual_lane_count: self.virtual_lane_count,
                min_in_sync_replicas: 1,
            },
        )
    }

    fn assignment_epoch(&self) -> (epoch: AssignmentEpoch)
        ensures
            epoch == AssignmentEpoch(1),
    {
        AssignmentEpoch(1)
    }
}

} // verus!
