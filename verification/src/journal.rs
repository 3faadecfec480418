//! Replay of the control journal: what each partition was configured to be.
use std::collections::{HashMap, HashSet};

use vstd::prelude::*;

use crate::config::{EngineConfig, PartitionReplicationPolicy};
use crate::error::{agrees, invalid_config, numbered, numbered2, EngineError, EngineResult, Fault};
use crate::ids::{LogicalOffset, RingEpoch, ShardId, TopicPartition};
use crate::maps::PairMap;
use crate::partition::AtomicGroupState;
use crate::protocol::JournalEvent;
use crate::sequencer::{copy_lanes, ring_valid};
use crate::text::{append_decimal, decimal};

verus! {

broadcast use vstd::std_specs::hash::group_hash_axioms;

/// The key of a partition.
pub open spec fn partition_key(topic_partition: TopicPartition) -> (u128, u128) {
    (topic_partition.topic_id.0, topic_partition.partition_id.0 as u128)
}

/// The lanes of one ring epoch.
#[derive(Debug)]
pub struct Ring {
    pub epoch: RingEpoch,
    pub lanes: Vec<ShardId>,
}

pub ghost struct RingModel {
    pub epoch: RingEpoch,
    pub lanes: Seq<ShardId>,
}

impl View for Ring {
    type V = RingModel;

    open spec fn view(&self) -> RingModel {
        RingModel { epoch: self.epoch, lanes: self.lanes@ }
    }
}

/// What the journal says of one partition.
#[derive(Debug)]
pub struct PartitionJournal {
    /// Rings in the order of their epochs.
    pub rings: Vec<Ring>,
    pub policy: PartitionReplicationPolicy,
    pub log_start: LogicalOffset,
    pub outcomes: HashMap<u128, AtomicGroupState>,
}

#[verifier::ext_equal]
pub ghost struct PartitionJournalModel {
    pub rings: Seq<RingModel>,
    pub policy: PartitionReplicationPolicy,
    pub log_start: LogicalOffset,
    pub outcomes: Map<u128, AtomicGroupState>,
}

impl View for PartitionJournal {
    type V = PartitionJournalModel;

    open spec fn view(&self) -> PartitionJournalModel {
        PartitionJournalModel {
            rings: self.rings@.map_values(|ring: Ring| ring@),
            policy: self.policy,
            log_start: self.log_start,
            outcomes: self.outcomes@,
        }
    }
}

impl PartitionJournalModel {
    /// A configured partition has at least one ring, every ring can be used,
    /// and ring epochs increase.
    pub open spec fn wf(self) -> bool {
        &&& self.rings.len() > 0
        &&& forall|i: int| 0 <= i < self.rings.len() ==> ring_valid((#[trigger] self.rings[i]).lanes)
        &&& forall|i: int, j: int|
            0 <= i < j < self.rings.len() ==> (#[trigger] self.rings[i]).epoch.0 < (
            #[trigger] self.rings[j]).epoch.0
    }
}

/// Everything the journal says.
#[verifier::ext_equal]
pub ghost struct JournalModel {
    /// Partitions in the order in which they were first configured.
    pub order: Seq<TopicPartition>,
    pub parts: Map<(u128, u128), PartitionJournalModel>,
}

impl JournalModel {
    pub open spec fn wf(self) -> bool {
        &&& forall|key: (u128, u128)| #[trigger] self.parts.contains_key(key) ==> self.parts[key].wf()
        &&& forall|key: (u128, u128)| #[trigger]
            self.parts.contains_key(key) <==> exists|i: int|
                0 <= i < self.order.len() && partition_key(#[trigger] self.order[i]) == key
        &&& self.order.no_duplicates()
    }

    pub open spec fn knows(self, topic_partition: TopicPartition) -> bool {
        self.parts.contains_key(partition_key(topic_partition))
    }

    pub open spec fn part(self, topic_partition: TopicPartition) -> PartitionJournalModel {
        self.parts[partition_key(topic_partition)]
    }

    pub open spec fn with_part(
        self,
        topic_partition: TopicPartition,
        part: PartitionJournalModel,
    ) -> JournalModel {
        JournalModel {
            order: if self.knows(topic_partition) {
                self.order
            } else {
                self.order.push(topic_partition)
            },
            parts: self.parts.insert(partition_key(topic_partition), part),
        }
    }
}

/// A message about a partition.
pub open spec fn about_partition(before: Seq<char>, topic_partition: TopicPartition) -> Seq<char> {
    before + decimal(topic_partition.topic_id.0 as nat) + "/"@ + decimal(
        topic_partition.partition_id.0 as nat,
    ) + ""@
}

pub fn about(before: &str, topic_partition: TopicPartition) -> (text: String)
    ensures
        text@ == about_partition(before@, topic_partition),
{
    numbered2(before, topic_partition.topic_id.0, "/", topic_partition.partition_id.0 as u128, "")
}

/// The first lane of a ring that does not exist or repeats an earlier one.
pub open spec fn lane_obstacle(lanes: Seq<ShardId>, from: int, lane_count: u32) -> Option<Fault>
    decreases lanes.len() - from,
{
    if from < 0 || from >= lanes.len() {
        None
    } else if lanes[from].0 >= lane_count {
        Some(Fault::UnknownShard(lanes[from]))
    } else if lanes.take(from).contains(lanes[from]) {
        Some(
            Fault::InvalidConfig(
                "duplicate shard "@ + decimal(lanes[from].0 as nat) + " in placement ring"@,
            ),
        )
    } else {
        lane_obstacle(lanes, from + 1, lane_count)
    }
}

/// What is wrong with a ring on an engine with this many lanes.
pub open spec fn ring_obstacle(lanes: Seq<ShardId>, lane_count: u32) -> Option<Fault> {
    if lanes.len() == 0 {
        Some(Fault::InvalidConfig("placement ring cannot be empty"@))
    } else {
        lane_obstacle(lanes, 0, lane_count)
    }
}

/// Checks that a ring has lanes, all of which exist, and repeats none.
pub fn validate_ring(config: &EngineConfig, lanes: &Vec<ShardId>) -> (result: EngineResult<()>)
    ensures
        agrees(
            result,
            match ring_obstacle(lanes@, config.virtual_lane_count) {
                Some(fault) => Err(fault),
                None => Ok(()),
            },
        ),
        result is Ok ==> ring_valid(lanes@),
{
    if lanes.len() == 0 {
        return Err(invalid_config("placement ring cannot be empty"));
    }
    let mut unique: HashSet<u32> = HashSet::with_capacity(lanes.len());
    let mut index: usize = 0;
    while index < lanes.len()
        invariant
            0 < lanes@.len(),
            index <= lanes@.len(),
            lanes@.take(index as int).no_duplicates(),
            lane_obstacle(lanes@, 0, config.virtual_lane_count) == lane_obstacle(
                lanes@,
                index as int,
                config.virtual_lane_count,
            ),
            forall|lane: u32| #[trigger]
                unique@.contains(lane) <==> lanes@.take(index as int).contains(ShardId(lane)),
        decreases lanes@.len() - index,
    {
        let lane = lanes[index];
        let ghost before = lanes@.take(index as int);
        let ghost after = lanes@.take(index + 1);
        proof {
            assert(after =~= before.push(lane));
            assert(unique@.contains(lane.0) <==> before.contains(lane));
        }
        if lane.0 >= config.virtual_lane_count {
            return Err(EngineError::UnknownShard(lane));
        }
        if !unique.insert(lane.0) {
            return Err(
                EngineError::InvalidConfig(
                    numbered("duplicate shard ", lane.0 as u128, " in placement ring"),
                ),
            );
        }
        proof {
            assert forall|other: u32| #[trigger] unique@.contains(other) <==> after.contains(
                ShardId(other),
            ) by {
                if before.contains(ShardId(other)) {
                    let i = choose|i: int| 0 <= i < before.len() && before[i] == ShardId(other);
                    assert(after[i] == ShardId(other));
                }
                if other == lane.0 {
                    assert(after[index as int] == ShardId(other));
                }
            }
        }
        index += 1;
    }
    proof {
        assert(lanes@.take(index as int) =~= lanes@);
    }
    Ok(())
}

/// A policy change as the journal keeps it.
pub open spec fn policy_of(
    policy_generation: u64,
    replication_factor: u32,
    min_in_sync_replicas: u32,
) -> PartitionReplicationPolicy {
    PartitionReplicationPolicy { policy_generation, replication_factor, min_in_sync_replicas }
}

impl JournalModel {
    pub open spec fn empty() -> JournalModel {
        JournalModel { order: Seq::empty(), parts: Map::empty() }
    }

    pub open spec fn configured(
        self,
        config: EngineConfig,
        topic_partition: TopicPartition,
        epoch: RingEpoch,
        lanes: Seq<ShardId>,
    ) -> Result<JournalModel, Fault> {
        let part = self.part(topic_partition);
        let ring = RingModel { epoch, lanes };
        match ring_obstacle(lanes, config.virtual_lane_count) {
            Some(fault) => Err(fault),
            None => if !self.knows(topic_partition) {
                Ok(
                    self.with_part(
                        topic_partition,
                        PartitionJournalModel {
                            rings: seq![ring],
                            policy: config.spec_default_policy(),
                            log_start: LogicalOffset(0),
                            outcomes: Map::empty(),
                        },
                    ),
                )
            } else if epoch.0 <= part.rings.last().epoch.0 {
                Err(
                    Fault::CorruptState(
                        about_partition("non-increasing ring epoch for "@, topic_partition),
                    ),
                )
            } else {
                Ok(
                    self.with_part(
                        topic_partition,
                        PartitionJournalModel { rings: part.rings.push(ring), ..part },
                    ),
                )
            },
        }
    }

    pub open spec fn created(
        self,
        config: EngineConfig,
        topic_partition: TopicPartition,
        epoch: RingEpoch,
        lanes: Seq<ShardId>,
        policy: PartitionReplicationPolicy,
    ) -> Result<JournalModel, Fault> {
        match ring_obstacle(lanes, config.virtual_lane_count) {
            Some(fault) => Err(fault),
            None => if self.knows(topic_partition) {
                Err(
                    Fault::CorruptState(
                        about_partition("duplicate partition creation for "@, topic_partition),
                    ),
                )
            } else {
                match policy.fault(config.replication_factor) {
                    Some(text) => Err(Fault::InvalidConfig(text)),
                    None => Ok(
                        self.with_part(
                            topic_partition,
                            PartitionJournalModel {
                                rings: seq![RingModel { epoch, lanes }],
                                policy,
                                log_start: LogicalOffset(0),
                                outcomes: Map::empty(),
                            },
                        ),
                    ),
                }
            },
        }
    }

    pub open spec fn repoliced(
        self,
        config: EngineConfig,
        topic_partition: TopicPartition,
        expected_policy_generation: u64,
        policy: PartitionReplicationPolicy,
    ) -> Result<JournalModel, Fault> {
        let part = self.part(topic_partition);
        if !self.knows(topic_partition) {
            Err(
                Fault::CorruptState(
                    about_partition(
                        "replication policy update for unconfigured partition "@,
                        topic_partition,
                    ),
                ),
            )
        } else {
            match policy.fault(config.replication_factor) {
                Some(text) => Err(Fault::InvalidConfig(text)),
                None => if part.policy == policy {
                    Ok(self)
                } else if part.policy.policy_generation != expected_policy_generation {
                    Err(
                        Fault::CorruptState(
                            about_partition(
                                "replication policy generation mismatch for "@,
                                topic_partition,
                            ) + ": expected "@ + decimal(expected_policy_generation as nat)
                                + ", found "@ + decimal(part.policy.policy_generation as nat),
                        ),
                    )
                } else {
                    Ok(
                        self.with_part(topic_partition, PartitionJournalModel { policy, ..part }),
                    )
                },
            }
        }
    }

    pub open spec fn retained_from(
        self,
        topic_partition: TopicPartition,
        log_start: LogicalOffset,
    ) -> Result<JournalModel, Fault> {
        let part = self.part(topic_partition);
        if !self.knows(topic_partition) {
            Err(
                Fault::CorruptState(
                    about_partition(
                        "retention event for unconfigured partition "@,
                        topic_partition,
                    ),
                ),
            )
        } else if log_start.0 < part.log_start.0 {
            Err(
                Fault::CorruptState(
                    about_partition("log start moved backward for "@, topic_partition),
                ),
            )
        } else {
            Ok(self.with_part(topic_partition, PartitionJournalModel { log_start, ..part }))
        }
    }

    pub open spec fn decided(
        self,
        topic_partition: TopicPartition,
        transaction_id: u128,
        outcome: AtomicGroupState,
    ) -> Result<JournalModel, Fault> {
        let part = self.part(topic_partition);
        if !self.knows(topic_partition) {
            Err(
                Fault::CorruptState(
                    about_partition(
                        "atomic group marker for unconfigured partition "@,
                        topic_partition,
                    ),
                ),
            )
        } else if part.outcomes.contains_key(transaction_id) && part.outcomes[transaction_id]
            != outcome {
            Err(
                Fault::CorruptState(
                    "atomic group "@ + decimal(transaction_id as nat)
                        + " has conflicting commit and abort markers"@,
                ),
            )
        } else {
            Ok(
                self.with_part(
                    topic_partition,
                    PartitionJournalModel {
                        outcomes: part.outcomes.insert(transaction_id, outcome),
                        ..part
                    },
                ),
            )
        }
    }

    /// What is known after one more event, or what is wrong with it.
    pub open spec fn after(self, config: EngineConfig, event: JournalEvent) -> Result<
        JournalModel,
        Fault,
    > {
        match event {
            JournalEvent::Configure { topic_partition, ring_epoch, shards } => self.configured(
                config,
                topic_partition,
                ring_epoch,
                shards@,
            ),
            JournalEvent::CreatePartition {
                topic_partition,
                ring_epoch,
                shards,
                policy_generation,
                replication_factor,
                min_in_sync_replicas,
            } => self.created(
                config,
                topic_partition,
                ring_epoch,
                shards@,
                policy_of(policy_generation, replication_factor, min_in_sync_replicas),
            ),
            JournalEvent::UpdateReplicationPolicy {
                topic_partition,
                expected_policy_generation,
                policy_generation,
                replication_factor,
                min_in_sync_replicas,
            } => self.repoliced(
                config,
                topic_partition,
                expected_policy_generation,
                policy_of(policy_generation, replication_factor, min_in_sync_replicas),
            ),
            JournalEvent::Truncate { topic_partition, log_start } => self.retained_from(
                topic_partition,
                log_start,
            ),
            JournalEvent::GroupCommit { topic_partition, transaction_id } => self.decided(
                topic_partition,
                transaction_id,
                AtomicGroupState::Committed,
            ),
            JournalEvent::GroupAbort { topic_partition, transaction_id } => self.decided(
                topic_partition,
                transaction_id,
                AtomicGroupState::Aborted,
            ),
        }
    }
}

/// What the journal says after all its events, or the first fault in them.
pub open spec fn replayed(config: EngineConfig, events: Seq<JournalEvent>) -> Result<
    JournalModel,
    Fault,
>
    decreases events.len(),
{
    if events.len() == 0 {
        Ok(JournalModel::empty())
    } else {
        match replayed(config, events.drop_last()) {
            Err(fault) => Err(fault),
            Ok(journal) => journal.after(config, events.last()),
        }
    }
}

/// Once an event is at fault, later ones do not matter.
proof fn lemma_fault_stays(config: EngineConfig, events: Seq<JournalEvent>, count: int)
    requires
        0 <= count <= events.len(),
        replayed(config, events.take(count)) is Err,
    ensures
        replayed(config, events) == replayed(config, events.take(count)),
    decreases events.len() - count,
{
    if count == events.len() {
        assert(events.take(count) =~= events);
    } else {
        assert(events.take(count + 1).drop_last() =~= events.take(count));
        lemma_fault_stays(config, events, count + 1);
    }
}

/// The journal's content as the engine holds it during recovery.
#[derive(Debug)]
pub struct RecoveredJournal {
    pub order: Vec<TopicPartition>,
    pub parts: PairMap<PartitionJournal>,
}

impl View for RecoveredJournal {
    type V = JournalModel;

    open spec fn view(&self) -> JournalModel {
        JournalModel {
            order: self.order@,
            parts: self.parts@.map_values(|part: PartitionJournal| part@),
        }
    }
}

proof fn lemma_with_part_wf(
    journal: JournalModel,
    topic_partition: TopicPartition,
    part: PartitionJournalModel,
)
    requires
        journal.wf(),
        part.wf(),
    ensures
        journal.with_part(topic_partition, part).wf(),
{
    let after = journal.with_part(topic_partition, part);
    let new_key = partition_key(topic_partition);
    assert forall|key: (u128, u128)| #[trigger] after.parts.contains_key(key) <==> exists|i: int|
        0 <= i < after.order.len() && partition_key(#[trigger] after.order[i]) == key by {
        if after.parts.contains_key(key) {
            if journal.parts.contains_key(key) {
                let i = choose|i: int|
                    0 <= i < journal.order.len() && partition_key(#[trigger] journal.order[i])
                        == key;
                assert(after.order[i] == journal.order[i]);
            } else {
                assert(key == new_key);
                assert(partition_key(after.order[journal.order.len() as int]) == key);
            }
        }
        if exists|i: int|
            0 <= i < after.order.len() && partition_key(#[trigger] after.order[i]) == key {
            let i = choose|i: int|
                0 <= i < after.order.len() && partition_key(#[trigger] after.order[i]) == key;
            if i < journal.order.len() {
                assert(journal.order[i] == after.order[i]);
                assert(journal.parts.contains_key(key));
            }
        }
    }
    if !journal.knows(topic_partition) {
        assert forall|i: int| 0 <= i < journal.order.len() implies journal.order[i]
            != topic_partition by {
            if journal.order[i] == topic_partition {
                assert(partition_key(journal.order[i]) == new_key);
                assert(journal.parts.contains_key(new_key));
            }
        }
    }
}

impl RecoveredJournal {
    pub fn new() -> (journal: Self)
        ensures
            journal@ == JournalModel::empty(),
            journal@.wf(),
    {
        let journal = RecoveredJournal { order: Vec::new(), parts: PairMap::new() };
        proof {
            assert(journal@ =~= JournalModel::empty());
        }
        journal
    }

    pub fn knows(&self, topic_partition: TopicPartition) -> (known: bool)
        ensures
            known == self@.knows(topic_partition),
    {
        self.parts.contains_key(topic_partition.topic_id.0, topic_partition.partition_id.0 as u128)
    }

    fn store(&mut self, topic_partition: TopicPartition, part: PartitionJournal)
        requires
            old(self)@.wf(),
            part@.wf(),
        ensures
            final(self)@ == old(self)@.with_part(topic_partition, part@),
            final(self)@.wf(),
    {
        let ghost before = self@;
        proof {
            lemma_with_part_wf(before, topic_partition, part@);
        }
        if !self.knows(topic_partition) {
            self.order.push(topic_partition);
        }
        self.parts.insert(
            topic_partition.topic_id.0,
            topic_partition.partition_id.0 as u128,
            part,
        );
        proof {
            assert(self@ =~= before.with_part(topic_partition, part@));
        }
    }

    fn take(&mut self, topic_partition: TopicPartition) -> (part: Option<PartitionJournal>)
        ensures
            match part {
                Some(p) => old(self)@.knows(topic_partition) && p@ == old(self)@.part(
                    topic_partition,
                ) && final(self)@.order == old(self)@.order && final(self)@.parts == old(
                    self,
                )@.parts.remove(partition_key(topic_partition)),
                None => !old(self)@.knows(topic_partition) && final(self)@ == old(self)@,
            },
    {
        let ghost before = self@;
        let part = self.parts.remove(
            topic_partition.topic_id.0,
            topic_partition.partition_id.0 as u128,
        );
        proof {
            assert(self@.parts =~= before.parts.remove(partition_key(topic_partition)));
            if part is None {
                assert(self@ =~= before);
            }
        }
        part
    }

    /// Puts a part back that `take` gave out, perhaps changed.
    fn put_back(
        &mut self,
        topic_partition: TopicPartition,
        part: PartitionJournal,
        Ghost(before): Ghost<JournalModel>,
    )
        requires
            before.wf(),
            before.knows(topic_partition),
            part@.wf(),
            old(self)@.order == before.order,
            old(self)@.parts == before.parts.remove(partition_key(topic_partition)),
        ensures
            final(self)@ == before.with_part(topic_partition, part@),
            final(self)@.wf(),
    {
        proof {
            lemma_with_part_wf(before, topic_partition, part@);
        }
        self.parts.insert(
            topic_partition.topic_id.0,
            topic_partition.partition_id.0 as u128,
            part,
        );
        proof {
            let key = partition_key(topic_partition);
            assert(self@.parts =~= old(self)@.parts.insert(key, part@));
            assert(self@.parts =~= before.parts.insert(key, part@));
            assert(self@ =~= before.with_part(topic_partition, part@));
        }
    }

    fn configure(
        &mut self,
        config: &EngineConfig,
        topic_partition: TopicPartition,
        epoch: RingEpoch,
        lanes: &Vec<ShardId>,
    ) -> (result: EngineResult<()>)
        requires
            old(self)@.wf(),
        ensures
            match (result, old(self)@.configured(*config, topic_partition, epoch, lanes@)) {
                (Ok(()), Ok(journal)) => final(self)@ == journal && final(self)@.wf(),
                (Err(error), Err(fault)) => error@ == fault,
                _ => false,
            },
    {
        match validate_ring(config, lanes) {
            Err(error) => {
                return Err(error);
            },
            Ok(()) => {},
        }
        let ghost before = self@;
        let ring = Ring { epoch, lanes: copy_lanes(lanes) };
        match self.take(topic_partition) {
            None => {
                let mut rings: Vec<Ring> = Vec::new();
                rings.push(ring);
                let part = PartitionJournal {
                    rings,
                    policy: config.default_replication_policy(),
                    log_start: LogicalOffset(0),
                    outcomes: HashMap::new(),
                };
                proof {
                    assert(part@.rings =~= seq![RingModel { epoch, lanes: lanes@ }]);
                    assert(part@ =~= (PartitionJournalModel {
                        rings: seq![RingModel { epoch, lanes: lanes@ }],
                        policy: config.spec_default_policy(),
                        log_start: LogicalOffset(0),
                        outcomes: Map::empty(),
                    }));
                }
                self.store(topic_partition, part);
                Ok(())
            },
            Some(mut part) => {
                proof {
                    assert(before.part(topic_partition).wf());
                }
                let last: usize = part.rings.len() - 1;
                if epoch.0 <= part.rings[last].epoch.0 {
                    return Err(
                        EngineError::CorruptState(
                            about("non-increasing ring epoch for ", topic_partition),
                        ),
                    );
                }
                let ghost held = part@;
                part.rings.push(ring);
                proof {
                    assert(part@.rings =~= held.rings.push(RingModel { epoch, lanes: lanes@ }));
                    assert(part@ =~= (PartitionJournalModel { rings: part@.rings, ..held }));
                    assert(part@.wf());
                }
                self.put_back(topic_partition, part, Ghost(before));
                Ok(())
            },
        }
    }

    fn create(
        &mut self,
        config: &EngineConfig,
        topic_partition: TopicPartition,
        epoch: RingEpoch,
        lanes: &Vec<ShardId>,
        policy: PartitionReplicationPolicy,
    ) -> (result: EngineResult<()>)
        requires
            old(self)@.wf(),
        ensures
            match (result, old(self)@.created(*config, topic_partition, epoch, lanes@, policy)) {
                (Ok(()), Ok(journal)) => final(self)@ == journal && final(self)@.wf(),
                (Err(error), Err(fault)) => error@ == fault,
                _ => false,
            },
    {
        match validate_ring(config, lanes) {
            Err(error) => {
                return Err(error);
            },
            Ok(()) => {},
        }
        if self.knows(topic_partition) {
            return Err(
                EngineError::CorruptState(
                    about("duplicate partition creation for ", topic_partition),
                ),
            );
        }
        match policy.validate(config.replication_factor) {
            Err(error) => {
                return Err(error);
            },
            Ok(()) => {},
        }
        let mut rings: Vec<Ring> = Vec::new();
        rings.push(Ring { epoch, lanes: copy_lanes(lanes) });
        let part = PartitionJournal {
            rings,
            policy,
            log_start: LogicalOffset(0),
            outcomes: HashMap::new(),
        };
        proof {
            assert(part@.rings =~= seq![RingModel { epoch, lanes: lanes@ }]);
            assert(part@ =~= (PartitionJournalModel {
                rings: seq![RingModel { epoch, lanes: lanes@ }],
                policy,
                log_start: LogicalOffset(0),
                outcomes: Map::empty(),
            }));
        }
        self.store(topic_partition, part);
        Ok(())
    }

    fn repolice(
        &mut self,
        config: &EngineConfig,
        topic_partition: TopicPartition,
        expected_policy_generation: u64,
        policy: PartitionReplicationPolicy,
    ) -> (result: EngineResult<()>)
        requires
            old(self)@.wf(),
        ensures
            match (
                result,
                old(self)@.repoliced(*config, topic_partition, expected_policy_generation, policy),
            ) {
                (Ok(()), Ok(journal)) => final(self)@ == journal && final(self)@.wf(),
                (Err(error), Err(fault)) => error@ == fault,
                _ => false,
            },
    {
        if !self.knows(topic_partition) {
            return Err(
                EngineError::CorruptState(
                    about("replication policy update for unconfigured partition ", topic_partition),
                ),
            );
        }
        match policy.validate(config.replication_factor) {
            Err(error) => {
                return Err(error);
            },
            Ok(()) => {},
        }
        let ghost before = self@;
        if let Some(mut part) = self.take(topic_partition) {
            if part.policy != policy {
                if part.policy.policy_generation != expected_policy_generation {
                    let mut text = about(
                        "replication policy generation mismatch for ",
                        topic_partition,
                    );
                    text.append(": expected ");
                    append_decimal(&mut text, expected_policy_generation as u128);
                    text.append(", found ");
                    append_decimal(&mut text, part.policy.policy_generation as u128);
                    return Err(EngineError::CorruptState(text));
                }
                part.policy = policy;
            }
            proof {
                assert(before.part(topic_partition).wf());
                assert(part@ =~= (PartitionJournalModel {
                    policy,
                    ..before.part(topic_partition)
                }));
                if before.part(topic_partition).policy == policy {
                    assert(before.with_part(topic_partition, part@).parts =~= before.parts);
                }
            }
            self.put_back(topic_partition, part, Ghost(before));
        }
        Ok(())
    }

    fn retain_from(&mut self, topic_partition: TopicPartition, log_start: LogicalOffset) -> (result:
        EngineResult<()>)
        requires
            old(self)@.wf(),
        ensures
            match (result, old(self)@.retained_from(topic_partition, log_start)) {
                (Ok(()), Ok(journal)) => final(self)@ == journal && final(self)@.wf(),
                (Err(error), Err(fault)) => error@ == fault,
                _ => false,
            },
    {
        let ghost before = self@;
        match self.take(topic_partition) {
            None => Err(
                EngineError::CorruptState(
                    about("retention event for unconfigured partition ", topic_partition),
                ),
            ),
            Some(mut part) => {
                if log_start.0 < part.log_start.0 {
                    return Err(
                        EngineError::CorruptState(
                            about("log start moved backward for ", topic_partition),
                        ),
                    );
                }
                part.log_start = log_start;
                proof {
                    assert(before.part(topic_partition).wf());
                    assert(part@ =~= (PartitionJournalModel {
                        log_start,
                        ..before.part(topic_partition)
                    }));
                }
                self.put_back(topic_partition, part, Ghost(before));
                Ok(())
            },
        }
    }

    /// Records a group's outcome.
    fn record_recovered_group_outcome(
        &mut self,
        topic_partition: TopicPartition,
        transaction_id: u128,
        outcome: AtomicGroupState,
    ) -> (result: EngineResult<()>)
        requires
            old(self)@.wf(),
        ensures
            match (result, old(self)@.decided(topic_partition, transaction_id, outcome)) {
                (Ok(()), Ok(journal)) => final(self)@ == journal && final(self)@.wf(),
                (Err(error), Err(fault)) => error@ == fault,
                _ => false,
            },
    {
        let ghost before = self@;
        match self.take(topic_partition) {
            None => Err(
                EngineError::CorruptState(
                    about("atomic group marker for unconfigured partition ", topic_partition),
                ),
            ),
            Some(mut part) => {
                let previous = part.outcomes.insert(transaction_id, outcome);
                if let Some(earlier) = previous {
                    if earlier != outcome {
                        return Err(
                            EngineError::CorruptState(
                                numbered(
                                    "atomic group ",
                                    transaction_id,
                                    " has conflicting commit and abort markers",
                                ),
                            ),
                        );
                    }
                }
                proof {
                    assert(before.part(topic_partition).wf());
                    assert(part@ =~= (PartitionJournalModel {
                        outcomes: before.part(topic_partition).outcomes.insert(
                            transaction_id,
                            outcome,
                        ),
                        ..before.part(topic_partition)
                    }));
                }
                self.put_back(topic_partition, part, Ghost(before));
                Ok(())
            },
        }
    }

    /// Takes one more event into account.
    fn observe(&mut self, config: &EngineConfig, event: &JournalEvent) -> (result: EngineResult<()>)
        requires
            old(self)@.wf(),
        ensures
            match (result, old(self)@.after(*config, *event)) {
                (Ok(()), Ok(journal)) => final(self)@ == journal && final(self)@.wf(),
                (Err(error), Err(fault)) => error@ == fault,
                _ => false,
            },
    {
        match event {
            JournalEvent::Configure { topic_partition, ring_epoch, shards } => self.configure(
                config,
                *topic_partition,
                *ring_epoch,
                shards,
            ),
            JournalEvent::CreatePartition {
                topic_partition,
                ring_epoch,
                shards,
                policy_generation,
                replication_factor,
                min_in_sync_replicas,
            } => self.create(
                config,
                *topic_partition,
                *ring_epoch,
                shards,
                PartitionReplicationPolicy {
                    policy_generation: *policy_generation,
                    replication_factor: *replication_factor,
                    min_in_sync_replicas: *min_in_sync_replicas,
                },
            ),
            JournalEvent::UpdateReplicationPolicy {
                topic_partition,
                expected_policy_generation,
                policy_generation,
                replication_factor,
                min_in_sync_replicas,
            } => self.repolice(
                config,
                *topic_partition,
                *expected_policy_generation,
                PartitionReplicationPolicy {
                    policy_generation: *policy_generation,
                    replication_factor: *replication_factor,
                    min_in_sync_replicas: *min_in_sync_replicas,
                },
            ),
            JournalEvent::Truncate { topic_partition, log_start } => self.retain_from(
                *topic_partition,
                *log_start,
            ),
            JournalEvent::GroupCommit { topic_partition, transaction_id } => {
                self.record_recovered_group_outcome(
                    *topic_partition,
                    *transaction_id,
                    AtomicGroupState::Committed,
                )
            },
            JournalEvent::GroupAbort { topic_partition, transaction_id } => {
                self.record_recovered_group_outcome(
                    *topic_partition,
                    *transaction_id,
                    AtomicGroupState::Aborted,
                )
            },
        }
    }

    /// Replays a journal.
    pub fn replay(config: &EngineConfig, events: &Vec<JournalEvent>) -> (result: EngineResult<Self>)
        ensures
            match (result, replayed(*config, events@)) {
                (Ok(journal), Ok(model)) => journal@ == model && model.wf(),
                (Err(error), Err(fault)) => error@ == fault,
                _ => false,
            },
    {
        let mut journal = RecoveredJournal::new();
        let mut index: usize = 0;
        while index < events.len()
            invariant
                index <= events@.len(),
                journal@.wf(),
                replayed(*config, events@.take(index as int)) == Ok::<JournalModel, Fault>(
                    journal@,
                ),
            decreases events@.len() - index,
        {
            proof {
                assert(events@.take(index + 1).drop_last() =~= events@.take(index as int));
            }
            match journal.observe(config, &events[index]) {
                Err(error) => {
                    proof {
                        lemma_fault_stays(*config, events@, index + 1);
                    }
                    return Err(error);
                },
                Ok(()) => {},
            }
            index += 1;
        }
        proof {
            assert(events@.take(index as int) =~= events@);
        }
        Ok(journal)
    }
}

/// The highest log start that the journal asks for, by partition.
pub open spec fn hinted(events: Seq<JournalEvent>) -> Map<(u128, u128), LogicalOffset>
    decreases events.len(),
{
    if events.len() == 0 {
        Map::empty()
    } else {
        let earlier = hinted(events.drop_last());
        match events.last() {
            JournalEvent::Truncate { topic_partition, log_start } => {
                let key = partition_key(topic_partition);
                if earlier.contains_key(key) && earlier[key].0 >= log_start.0 {
                    earlier
                } else {
                    earlier.insert(key, log_start)
                }
            },
            _ => earlier,
        }
    }
}

/// The highest log start that the journal asks for, by partition.
pub fn retention_hints(events: &Vec<JournalEvent>) -> (hints: PairMap<LogicalOffset>)
    ensures
        hints@ == hinted(events@),
{
    let mut hints: PairMap<LogicalOffset> = PairMap::new();
    let mut index: usize = 0;
    while index < events.len()
        invariant
            index <= events@.len(),
            hints@ == hinted(events@.take(index as int)),
        decreases events@.len() - index,
    {
        proof {
            assert(events@.take(index + 1).drop_last() =~= events@.take(index as int));
        }
        if let JournalEvent::Truncate { topic_partition, log_start } = &events[index] {
            let row: u128 = topic_partition.topic_id.0;
            let column: u128 = topic_partition.partition_id.0 as u128;
            let covered = match hints.get(row, column) {
                Some(current) => current.0 >= log_start.0,
                None => false,
            };
            if !covered {
                hints.insert(row, column, *log_start);
            }
        }
        index += 1;
    }
    proof {
        assert(events@.take(index as int) =~= events@);
    }
    hints
}

} // verus!
