//! Engine, topic and replication settings.
use vstd::prelude::*;

use crate::error::{invalid_config, numbered2, EngineError, EngineResult, Fault};
use crate::ids::{ShardId, TopicId};
use crate::text::decimal;
use crate::time::Duration;

verus! {

/// Bytes that a queued command is charged on top of its payload.
pub const COMMAND_OVERHEAD_BYTES: usize = 256;

#[derive(Debug, Clone)]
pub struct EngineConfig {
    pub data_dir: String,
    pub object_store_dir: Option<String>,
    /// Number of physical worker threads that own storage and I/O.
    pub shard_count: u32,
    /// Stable logical append lanes mapped onto physical workers.
    pub virtual_lane_count: u32,
    /// Maximum durability copies available to the engine. Values above one
    /// require a replication transport.
    pub replication_factor: u32,
    /// Minimum durable copies required by quorum aliases.
    pub min_in_sync_replicas: u32,
    pub queue_slots_per_shard: usize,
    pub queue_bytes_per_shard: usize,
    pub target_pack_bytes: u64,
    pub max_pack_age: Duration,
    pub max_batch_bytes: usize,
    pub max_fetch_bytes: usize,
    pub append_linger: Duration,
}

impl EngineConfig {
    /// The first thing that is wrong with the settings.
    pub open spec fn fault(self) -> Option<Seq<char>> {
        if self.shard_count == 0 {
            Some("shard_count must be nonzero"@)
        } else if self.virtual_lane_count == 0 {
            Some("virtual_lane_count must be nonzero"@)
        } else if self.replication_factor == 0 {
            Some("replication_factor must be nonzero"@)
        } else if self.replication_factor > 64 {
            Some("replication_factor cannot exceed 64"@)
        } else if !(1 <= self.min_in_sync_replicas <= self.replication_factor) {
            Some("min_in_sync_replicas must be between one and replication_factor"@)
        } else if self.queue_slots_per_shard == 0 || self.queue_bytes_per_shard == 0 {
            Some("shard queue slot and byte limits must be nonzero"@)
        } else if self.target_pack_bytes == 0 || self.max_pack_age.nanos == 0
            || self.max_batch_bytes == 0 || self.max_fetch_bytes == 0 {
            Some("pack byte/age and request byte limits must be nonzero"@)
        } else if self.append_linger.nanos > 60_000_000_000 {
            Some("append_linger cannot exceed 60 seconds"@)
        } else if self.max_batch_bytes + COMMAND_OVERHEAD_BYTES > self.queue_bytes_per_shard {
            Some(
                "max_batch_bytes plus command overhead cannot exceed queue_bytes_per_shard"@,
            )
        } else if self.max_fetch_bytes + COMMAND_OVERHEAD_BYTES > self.queue_bytes_per_shard {
            Some(
                "max_fetch_bytes plus command overhead cannot exceed queue_bytes_per_shard"@,
            )
        } else {
            None
        }
    }

    /// Checks the settings and names the first fault.
    pub fn validate(&self) -> (result: EngineResult<()>)
        ensures
            match result {
                Ok(()) => self.fault() is None,
                Err(error) => self.fault() is Some && error@ == Fault::InvalidConfig(self.fault()->0),
            },
    {
        if self.shard_count == 0 {
            return Err(invalid_config("shard_count must be nonzero"));
        }
        if self.virtual_lane_count == 0 {
            return Err(invalid_config("virtual_lane_count must be nonzero"));
        }
        if self.replication_factor == 0 {
            return Err(invalid_config("replication_factor must be nonzero"));
        }
        if self.replication_factor > 64 {
            return Err(invalid_config("replication_factor cannot exceed 64"));
        }
        if self.min_in_sync_replicas == 0 || self.min_in_sync_replicas > self.replication_factor {
            return Err(invalid_config("min_in_sync_replicas must be between one and replication_factor"));
        }
        if self.queue_slots_per_shard == 0 || self.queue_bytes_per_shard == 0 {
            return Err(invalid_config("shard queue slot and byte limits must be nonzero"));
        }
        if self.target_pack_bytes == 0 || self.max_pack_age.is_zero() || self.max_batch_bytes == 0
            || self.max_fetch_bytes == 0 {
            return Err(invalid_config("pack byte/age and request byte limits must be nonzero"));
        }
        if self.append_linger.nanos > 60_000_000_000 {
            return Err(invalid_config("append_linger cannot exceed 60 seconds"));
        }
        if exceeds_with_overhead(self.max_batch_bytes, self.queue_bytes_per_shard) {
            return Err(invalid_config("max_batch_bytes plus command overhead cannot exceed queue_bytes_per_shard"));
        }
        if exceeds_with_overhead(self.max_fetch_bytes, self.queue_bytes_per_shard) {
            return Err(invalid_config("max_fetch_bytes plus command overhead cannot exceed queue_bytes_per_shard"));
        }
        Ok(())
    }

    /// The physical shards, in order.
    #[must_use]
    pub fn shard_ids(&self) -> (ids: Vec<ShardId>)
        ensures
            ids@ == Seq::new(self.shard_count as nat, |i: int| ShardId(i as u32)),
    {
        numbered_shards(self.shard_count)
    }

    /// The virtual lanes, in order.
    #[must_use]
    pub fn virtual_lane_ids(&self) -> (ids: Vec<ShardId>)
        ensures
            ids@ == Seq::new(self.virtual_lane_count as nat, |i: int| ShardId(i as u32)),
    {
        numbered_shards(self.virtual_lane_count)
    }

    /// The physical shard that serves a virtual lane.
    #[must_use]
    pub fn physical_shard_for_lane(&self, lane: ShardId) -> (shard: ShardId)
        requires
            self.shard_count > 0,
        ensures
            shard == ShardId((lane.0 % self.shard_count) as u32),
            shard.0 < self.shard_count,
    {
        ShardId(lane.0 % self.shard_count)
    }

    pub open spec fn spec_default_policy(self) -> PartitionReplicationPolicy {
        PartitionReplicationPolicy {
            policy_generation: 1,
            replication_factor: self.replication_factor,
            min_in_sync_replicas: self.min_in_sync_replicas,
        }
    }

    /// The policy of a partition that was given none.
    #[must_use]
    pub fn default_replication_policy(&self) -> (policy: PartitionReplicationPolicy)
        ensures
            policy == self.spec_default_policy(),
    {
        PartitionReplicationPolicy {
            policy_generation: 1,
            replication_factor: self.replication_factor,
            min_in_sync_replicas: self.min_in_sync_replicas,
        }
    }
}

fn exceeds_with_overhead(bytes: usize, limit: usize) -> (exceeds: bool)
    ensures
        exceeds == (bytes + COMMAND_OVERHEAD_BYTES > limit),
{
    match bytes.checked_add(COMMAND_OVERHEAD_BYTES) {
        Some(total) => total > limit,
        None => true,
    }
}

fn numbered_shards(count: u32) -> (ids: Vec<ShardId>)
    ensures
        ids@ == Seq::new(count as nat, |i: int| ShardId(i as u32)),
{
    let mut ids: Vec<ShardId> = Vec::new();
    let mut index: u32 = 0;
    while index < count
        invariant
            index <= count,
            ids@ == Seq::new(index as nat, |i: int| ShardId(i as u32)),
        decreases count - index,
    {
        ids.push(ShardId(index));
        index += 1;
        proof {
            assert(ids@ =~= Seq::new(index as nat, |i: int| ShardId(i as u32)));
        }
    }
    ids
}

#[derive(Debug, Clone)]
pub struct TopicConfig {
    pub topic_id: TopicId,
    pub partitions: u32,
    pub shards: Option<Vec<ShardId>>,
}

/// Replication durability persisted with every physical topic generation.
///
/// `EngineConfig` describes the maximum capacity available to this engine.
/// This policy is the authoritative per-partition value used for append
/// acknowledgements and replicated watermarks.
#[derive(Debug, Clone, Copy, PartialEq, Eq, Structural)]
pub struct PartitionReplicationPolicy {
    pub policy_generation: u64,
    pub replication_factor: u32,
    pub min_in_sync_replicas: u32,
}

impl PartitionReplicationPolicy {
    /// The first thing that is wrong with the policy on an engine of the given capacity.
    pub open spec fn fault(self, maximum_replication_factor: u32) -> Option<Seq<char>> {
        if self.policy_generation == 0 {
            Some("policy_generation must be nonzero"@)
        } else if !(1 <= self.replication_factor <= 64) {
            Some("topic replication_factor must be between one and 64"@)
        } else if self.replication_factor > maximum_replication_factor {
            Some(
                "topic replication_factor "@ + decimal(self.replication_factor as nat)
                    + " exceeds engine capacity "@ + decimal(maximum_replication_factor as nat)
                    + ""@,
            )
        } else if !(1 <= self.min_in_sync_replicas <= self.replication_factor) {
            Some("topic min_in_sync_replicas must be between one and replication_factor"@)
        } else {
            None
        }
    }

    /// Checks the policy and names the first fault.
    pub fn validate(self, maximum_replication_factor: u32) -> (result: EngineResult<()>)
        ensures
            match result {
                Ok(()) => self.fault(maximum_replication_factor) is None,
                Err(error) => self.fault(maximum_replication_factor) is Some && error@ == Fault::InvalidConfig(self.fault(maximum_replication_factor)->0),
            },
    {
        if self.policy_generation == 0 {
            return Err(invalid_config("policy_generation must be nonzero"));
        }
        if self.replication_factor == 0 || self.replication_factor > 64 {
            return Err(invalid_config("topic replication_factor must be between one and 64"));
        }
        if self.replication_factor > maximum_replication_factor {
            return Err(
                EngineError::InvalidConfig(
                    numbered2(
                        "topic replication_factor ",
                        self.replication_factor as u128,
                        " exceeds engine capacity ",
                        maximum_replication_factor as u128,
                        "",
                    ),
                ),
            );
        }
        if self.min_in_sync_replicas == 0 || self.min_in_sync_replicas > self.replication_factor {
            return Err(invalid_config("topic min_in_sync_replicas must be between one and replication_factor"));
        }
        Ok(())
    }
}

impl EngineConfig {
    /// Settings that pass `validate` give every partition a default policy that is valid too.
    pub proof fn default_policy_is_valid(self)
        requires
            self.fault() is None,
        ensures
            self.spec_default_policy().fault(self.replication_factor) is None,
    {
    }
}

} // verus!
