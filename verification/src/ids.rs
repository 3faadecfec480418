//! Identifiers of topics, partitions, lanes, batches and epochs.
use vstd::prelude::*;

use crate::text::{decimal, decimal_string};

verus! {

/// A virtual lane is addressed by the number of the shard that carries it.
pub type VirtualLaneId = ShardId;

/// Stable identity of one broker process.
#[derive(Debug, Clone, Copy, PartialEq, Eq, PartialOrd, Ord, Hash, Structural)]
pub struct BrokerId(pub u32);

impl BrokerId {
    pub fn new(value: u32) -> (id: Self)
        ensures
            id == BrokerId(value),
    {
        BrokerId(value)
    }

    pub fn get(self) -> (value: u32)
        ensures
            value == self.0,
    {
        self.0
    }

    /// The identifier in decimal.
    pub fn display(&self) -> (text: String)
        ensures
            text@ == decimal(self.0 as nat),
    {
        decimal_string(self.0 as u128)
    }
}

impl From<u32> for BrokerId {
    fn from(value: u32) -> (id: Self) {
        BrokerId(value)
    }
}

impl vstd::std_specs::convert::FromSpecImpl<u32> for BrokerId {
    open spec fn obeys_from_spec() -> bool {
        true
    }

    open spec fn from_spec(value: u32) -> Self {
        BrokerId(value)
    }
}

/// Stable identity of an origin, which may hold several local brokers.
#[derive(Debug, Clone, Copy, PartialEq, Eq, PartialOrd, Ord, Hash, Structural)]
pub struct OriginId(pub u32);

impl OriginId {
    pub fn new(value: u32) -> (id: Self)
        ensures
            id == OriginId(value),
    {
        OriginId(value)
    }

    pub fn get(self) -> (value: u32)
        ensures
            value == self.0,
    {
        self.0
    }

    /// The identifier in decimal.
    pub fn display(&self) -> (text: String)
        ensures
            text@ == decimal(self.0 as nat),
    {
        decimal_string(self.0 as u128)
    }
}

impl From<u32> for OriginId {
    fn from(value: u32) -> (id: Self) {
        OriginId(value)
    }
}

impl vstd::std_specs::convert::FromSpecImpl<u32> for OriginId {
    open spec fn obeys_from_spec() -> bool {
        true
    }

    open spec fn from_spec(value: u32) -> Self {
        OriginId(value)
    }
}

/// Identity of one physical shard on a broker.
#[derive(Debug, Clone, Copy, PartialEq, Eq, PartialOrd, Ord, Hash, Structural)]
pub struct PhysicalShardId(pub u32);

impl PhysicalShardId {
    pub fn new(value: u32) -> (id: Self)
        ensures
            id == PhysicalShardId(value),
    {
        PhysicalShardId(value)
    }

    pub fn get(self) -> (value: u32)
        ensures
            value == self.0,
    {
        self.0
    }

    /// The identifier in decimal.
    pub fn display(&self) -> (text: String)
        ensures
            text@ == decimal(self.0 as nat),
    {
        decimal_string(self.0 as u128)
    }
}

impl From<u32> for PhysicalShardId {
    fn from(value: u32) -> (id: Self) {
        PhysicalShardId(value)
    }
}

impl vstd::std_specs::convert::FromSpecImpl<u32> for PhysicalShardId {
    open spec fn obeys_from_spec() -> bool {
        true
    }

    open spec fn from_spec(value: u32) -> Self {
        PhysicalShardId(value)
    }
}

/// Generation of a partition assignment.
#[derive(Debug, Clone, Copy, PartialEq, Eq, PartialOrd, Ord, Hash, Structural)]
pub struct AssignmentEpoch(pub u64);

impl AssignmentEpoch {
    pub fn new(value: u64) -> (id: Self)
        ensures
            id == AssignmentEpoch(value),
    {
        AssignmentEpoch(value)
    }

    pub fn get(self) -> (value: u64)
        ensures
            value == self.0,
    {
        self.0
    }

    /// The identifier in decimal.
    pub fn display(&self) -> (text: String)
        ensures
            text@ == decimal(self.0 as nat),
    {
        decimal_string(self.0 as u128)
    }
}

impl From<u64> for AssignmentEpoch {
    fn from(value: u64) -> (id: Self) {
        AssignmentEpoch(value)
    }
}

impl vstd::std_specs::convert::FromSpecImpl<u64> for AssignmentEpoch {
    open spec fn obeys_from_spec() -> bool {
        true
    }

    open spec fn from_spec(value: u64) -> Self {
        AssignmentEpoch(value)
    }
}

/// Identity of a topic.
#[derive(Debug, Clone, Copy, PartialEq, Eq, PartialOrd, Ord, Hash, Structural)]
pub struct TopicId(pub u128);

impl TopicId {
    pub fn new(value: u128) -> (id: Self)
        ensures
            id == TopicId(value),
    {
        TopicId(value)
    }

    pub fn get(self) -> (value: u128)
        ensures
            value == self.0,
    {
        self.0
    }

    /// The identifier in decimal.
    pub fn display(&self) -> (text: String)
        ensures
            text@ == decimal(self.0 as nat),
    {
        decimal_string(self.0)
    }
}

impl From<u128> for TopicId {
    fn from(value: u128) -> (id: Self) {
        TopicId(value)
    }
}

impl vstd::std_specs::convert::FromSpecImpl<u128> for TopicId {
    open spec fn obeys_from_spec() -> bool {
        true
    }

    open spec fn from_spec(value: u128) -> Self {
        TopicId(value)
    }
}

/// Index of a logical partition within its topic.
#[derive(Debug, Clone, Copy, PartialEq, Eq, PartialOrd, Ord, Hash, Structural)]
pub struct LogicalPartitionId(pub u32);

impl LogicalPartitionId {
    pub fn new(value: u32) -> (id: Self)
        ensures
            id == LogicalPartitionId(value),
    {
        LogicalPartitionId(value)
    }

    pub fn get(self) -> (value: u32)
        ensures
            value == self.0,
    {
        self.0
    }

    /// The identifier in decimal.
    pub fn display(&self) -> (text: String)
        ensures
            text@ == decimal(self.0 as nat),
    {
        decimal_string(self.0 as u128)
    }
}

impl From<u32> for LogicalPartitionId {
    fn from(value: u32) -> (id: Self) {
        LogicalPartitionId(value)
    }
}

impl vstd::std_specs::convert::FromSpecImpl<u32> for LogicalPartitionId {
    open spec fn obeys_from_spec() -> bool {
        true
    }

    open spec fn from_spec(value: u32) -> Self {
        LogicalPartitionId(value)
    }
}

/// Identity of a shard; virtual lanes share the same number space.
#[derive(Debug, Clone, Copy, PartialEq, Eq, PartialOrd, Ord, Hash, Structural)]
pub struct ShardId(pub u32);

impl ShardId {
    pub fn new(value: u32) -> (id: Self)
        ensures
            id == ShardId(value),
    {
        ShardId(value)
    }

    pub fn get(self) -> (value: u32)
        ensures
            value == self.0,
    {
        self.0
    }

    /// The identifier in decimal.
    pub fn display(&self) -> (text: String)
        ensures
            text@ == decimal(self.0 as nat),
    {
        decimal_string(self.0 as u128)
    }
}

impl From<u32> for ShardId {
    fn from(value: u32) -> (id: Self) {
        ShardId(value)
    }
}

impl vstd::std_specs::convert::FromSpecImpl<u32> for ShardId {
    open spec fn obeys_from_spec() -> bool {
        true
    }

    open spec fn from_spec(value: u32) -> Self {
        ShardId(value)
    }
}

/// Dense per-partition batch number, starting at zero.
#[derive(Debug, Clone, Copy, PartialEq, Eq, PartialOrd, Ord, Hash, Structural)]
pub struct BatchId(pub u128);

impl BatchId {
    pub fn new(value: u128) -> (id: Self)
        ensures
            id == BatchId(value),
    {
        BatchId(value)
    }

    pub fn get(self) -> (value: u128)
        ensures
            value == self.0,
    {
        self.0
    }

    /// The identifier in decimal.
    pub fn display(&self) -> (text: String)
        ensures
            text@ == decimal(self.0 as nat),
    {
        decimal_string(self.0)
    }
}

impl From<u128> for BatchId {
    fn from(value: u128) -> (id: Self) {
        BatchId(value)
    }
}

impl vstd::std_specs::convert::FromSpecImpl<u128> for BatchId {
    open spec fn obeys_from_spec() -> bool {
        true
    }

    open spec fn from_spec(value: u128) -> Self {
        BatchId(value)
    }
}

/// Offset of a record within a logical partition.
#[derive(Debug, Clone, Copy, PartialEq, Eq, PartialOrd, Ord, Hash, Structural)]
pub struct LogicalOffset(pub u64);

impl LogicalOffset {
    pub fn new(value: u64) -> (id: Self)
        ensures
            id == LogicalOffset(value),
    {
        LogicalOffset(value)
    }

    pub fn get(self) -> (value: u64)
        ensures
            value == self.0,
    {
        self.0
    }

    /// The identifier in decimal.
    pub fn display(&self) -> (text: String)
        ensures
            text@ == decimal(self.0 as nat),
    {
        decimal_string(self.0 as u128)
    }
}

impl From<u64> for LogicalOffset {
    fn from(value: u64) -> (id: Self) {
        LogicalOffset(value)
    }
}

impl vstd::std_specs::convert::FromSpecImpl<u64> for LogicalOffset {
    open spec fn obeys_from_spec() -> bool {
        true
    }

    open spec fn from_spec(value: u64) -> Self {
        LogicalOffset(value)
    }
}

/// Fencing generation of a partition leader.
#[derive(Debug, Clone, Copy, PartialEq, Eq, PartialOrd, Ord, Hash, Structural)]
pub struct LeaderEpoch(pub u64);

impl LeaderEpoch {
    pub fn new(value: u64) -> (id: Self)
        ensures
            id == LeaderEpoch(value),
    {
        LeaderEpoch(value)
    }

    pub fn get(self) -> (value: u64)
        ensures
            value == self.0,
    {
        self.0
    }

    /// The identifier in decimal.
    pub fn display(&self) -> (text: String)
        ensures
            text@ == decimal(self.0 as nat),
    {
        decimal_string(self.0 as u128)
    }
}

impl From<u64> for LeaderEpoch {
    fn from(value: u64) -> (id: Self) {
        LeaderEpoch(value)
    }
}

impl vstd::std_specs::convert::FromSpecImpl<u64> for LeaderEpoch {
    open spec fn obeys_from_spec() -> bool {
        true
    }

    open spec fn from_spec(value: u64) -> Self {
        LeaderEpoch(value)
    }
}

/// Generation of a partition's lane ring.
#[derive(Debug, Clone, Copy, PartialEq, Eq, PartialOrd, Ord, Hash, Structural)]
pub struct RingEpoch(pub u64);

impl RingEpoch {
    pub fn new(value: u64) -> (id: Self)
        ensures
            id == RingEpoch(value),
    {
        RingEpoch(value)
    }

    pub fn get(self) -> (value: u64)
        ensures
            value == self.0,
    {
        self.0
    }

    /// The identifier in decimal.
    pub fn display(&self) -> (text: String)
        ensures
            text@ == decimal(self.0 as nat),
    {
        decimal_string(self.0 as u128)
    }
}

impl From<u64> for RingEpoch {
    fn from(value: u64) -> (id: Self) {
        RingEpoch(value)
    }
}

impl vstd::std_specs::convert::FromSpecImpl<u64> for RingEpoch {
    open spec fn obeys_from_spec() -> bool {
        true
    }

    open spec fn from_spec(value: u64) -> Self {
        RingEpoch(value)
    }
}

/// Position of a batch among all batches of its partition, across ring epochs.
#[derive(Debug, Clone, Copy, PartialEq, Eq, PartialOrd, Ord, Hash, Structural)]
pub struct PlacementSequence(pub u64);

impl PlacementSequence {
    pub fn new(value: u64) -> (id: Self)
        ensures
            id == PlacementSequence(value),
    {
        PlacementSequence(value)
    }

    pub fn get(self) -> (value: u64)
        ensures
            value == self.0,
    {
        self.0
    }

    /// The identifier in decimal.
    pub fn display(&self) -> (text: String)
        ensures
            text@ == decimal(self.0 as nat),
    {
        decimal_string(self.0 as u128)
    }
}

impl From<u64> for PlacementSequence {
    fn from(value: u64) -> (id: Self) {
        PlacementSequence(value)
    }
}

impl vstd::std_specs::convert::FromSpecImpl<u64> for PlacementSequence {
    open spec fn obeys_from_spec() -> bool {
        true
    }

    open spec fn from_spec(value: u64) -> Self {
        PlacementSequence(value)
    }
}

/// Content-independent identity of an appended batch.
#[derive(Debug, Clone, Copy, PartialEq, Eq, PartialOrd, Ord, Hash, Structural)]
pub struct RecordId(pub u128);

impl RecordId {
    pub fn new(value: u128) -> (id: Self)
        ensures
            id == RecordId(value),
    {
        RecordId(value)
    }

    pub fn get(self) -> (value: u128)
        ensures
            value == self.0,
    {
        self.0
    }

    /// The identifier in decimal.
    pub fn display(&self) -> (text: String)
        ensures
            text@ == decimal(self.0 as nat),
    {
        decimal_string(self.0)
    }
}

impl From<u128> for RecordId {
    fn from(value: u128) -> (id: Self) {
        RecordId(value)
    }
}

impl vstd::std_specs::convert::FromSpecImpl<u128> for RecordId {
    open spec fn obeys_from_spec() -> bool {
        true
    }

    open spec fn from_spec(value: u128) -> Self {
        RecordId(value)
    }
}

/// One logical partition of one topic.
#[derive(Debug, Clone, Copy, PartialEq, Eq, PartialOrd, Ord, Hash, Structural)]
pub struct TopicPartition {
    pub topic_id: TopicId,
    pub partition_id: LogicalPartitionId,
}

impl TopicPartition {
    pub fn new(topic_id: TopicId, partition_id: LogicalPartitionId) -> (key: Self)
        ensures
            key == (TopicPartition { topic_id, partition_id }),
    {
        TopicPartition { topic_id, partition_id }
    }
}

} // verus!
