//! Leader leases of one node: the table of leases, its stored form, and the
//! rules by which leases are claimed, finalized and checked.
use vstd::prelude::*;
use vstd::string::StringSliceAdditionalSpecFns;
use vstd::utf8::encode_utf8;

use crate::bytes::{le_bytes, le_bytes_read_back, le_value, lemma_le_bounds, push_le};
use crate::hashing::{blake3_hash, blake3_of};
use crate::ids::TopicPartition;
use crate::lease::{
    decode_lease, digest_at, encode_lease, is_zero_digest, lease_at, push_bytes, push_digest,
    same_digest, state_error, stored_leases_read_back, zero_digest, BlossomLeaseCertificate,
    ClaimModel, ClusterId, ControlError, ControlFault, ControlResult, Decoder, FinalizedLease,
    LeaseClaim, LeaseModel, NodeId, LEASE_BYTES,
};
use crate::time::Duration;

verus! {

/// Version of the stored form.
pub const STATE_VERSION: u16 = 1;

/// Bytes of the checksum at the end of the stored form.
pub const STATE_CHECKSUM_BYTES: usize = 32;

/// The longest stored form.
pub const MAX_STATE_BYTES: usize = 67_108_864;

/// Bytes before the first lease.
pub const STATE_HEADER_BYTES: usize = 46;

/// Commits lease claims through the consensus of the cluster.
///
/// What it returns is checked against the claim before it is used.
pub trait BlossomLeaseConsensus {
    fn commit_lease(&self, group_id: [u8; 32], claim_payload: &[u8], deadline: Duration) -> ControlResult<
        BlossomLeaseCertificate,
    >;
}

/// Admits writes under a current lease only.
pub trait WriteFence {
    fn check_write(&self, topic_partition: TopicPartition, leader_epoch: u64) -> ControlResult<()>;
}

#[derive(Debug, Clone)]
pub struct LeaseCoordinatorConfig {
    pub cluster_id: ClusterId,
    pub node_id: NodeId,
    pub state_file: String,
    pub consensus_deadline: Duration,
    pub max_lease_duration: Duration,
    pub max_leases: usize,
}

impl LeaseCoordinatorConfig {
    /// The first thing that is wrong with the settings.
    pub open spec fn fault(self) -> Option<Seq<char>> {
        if self.consensus_deadline.nanos == 0 || self.max_lease_duration.nanos == 0
            || self.max_leases == 0 {
            Some(
                "consensus deadline, maximum lease duration, and lease bound must be nonzero"@,
            )
        } else if self.max_leases > 1_000_000 {
            Some("maximum lease count exceeds the hard safety bound"@)
        } else if self.state_file@.len() == 0 {
            Some("lease state file cannot be empty"@)
        } else {
            None
        }
    }

    pub fn validate(&self) -> (result: ControlResult<()>)
        ensures
            match result {
                Ok(()) => self.fault() is None,
                Err(error) => self.fault() is Some && error@ == ControlFault::InvalidConfig(
                    self.fault()->0,
                ),
            },
    {
        if self.consensus_deadline.is_zero() || self.max_lease_duration.is_zero()
            || self.max_leases == 0 {
            return Err(
                ControlError::InvalidConfig(
                    "consensus deadline, maximum lease duration, and lease bound must be nonzero".to_string(),
                ),
            );
        }
        if self.max_leases > 1_000_000 {
            return Err(
                ControlError::InvalidConfig(
                    "maximum lease count exceeds the hard safety bound".to_string(),
                ),
            );
        }
        if crate::text::collect_chars(self.state_file.as_str()).len() == 0 {
            return Err(
                ControlError::InvalidConfig("lease state file cannot be empty".to_string()),
            );
        }
        Ok(())
    }
}

/// Partitions in the order of topics and then of partitions.
pub open spec fn partition_before(one: TopicPartition, other: TopicPartition) -> bool {
    one.topic_id.0 < other.topic_id.0 || one.topic_id.0 == other.topic_id.0 && one.partition_id.0
        < other.partition_id.0
}

fn comes_before(one: TopicPartition, other: TopicPartition) -> (before: bool)
    ensures
        before == partition_before(one, other),
{
    one.topic_id.0 < other.topic_id.0 || (one.topic_id.0 == other.topic_id.0
        && one.partition_id.0 < other.partition_id.0)
}

/// Leases stand in the order of their partitions, at most one for each.
pub open spec fn in_partition_order(leases: Seq<LeaseModel>) -> bool {
    forall|i: int, j: int|
        0 <= i < j < leases.len() ==> partition_before(
            (#[trigger] leases[i]).claim.topic_partition,
            (#[trigger] leases[j]).claim.topic_partition,
        )
}

/// How many of the first leases are for partitions before this one.
pub open spec fn rank(leases: Seq<LeaseModel>, topic_partition: TopicPartition) -> nat
    decreases leases.len(),
{
    if leases.len() > 0 && partition_before(leases[0].claim.topic_partition, topic_partition) {
        1 + rank(leases.skip(1), topic_partition)
    } else {
        0
    }
}

/// Whether there is a lease for a partition.
pub open spec fn leased(leases: Seq<LeaseModel>, topic_partition: TopicPartition) -> bool {
    let n = rank(leases, topic_partition) as int;
    n < leases.len() && leases[n].claim.topic_partition == topic_partition
}

/// The lease of a partition.
pub open spec fn lease_of(leases: Seq<LeaseModel>, topic_partition: TopicPartition) -> Option<
    LeaseModel,
> {
    if leased(leases, topic_partition) {
        Some(leases[rank(leases, topic_partition) as int])
    } else {
        None
    }
}

/// The table with a lease put in its place, in place of an earlier one of its partition.
pub open spec fn with_lease(leases: Seq<LeaseModel>, lease: LeaseModel) -> Seq<LeaseModel> {
    let n = rank(leases, lease.claim.topic_partition) as int;
    if leased(leases, lease.claim.topic_partition) {
        leases.update(n, lease)
    } else {
        leases.insert(n, lease)
    }
}

proof fn lemma_rank_is(leases: Seq<LeaseModel>, topic_partition: TopicPartition, n: int)
    requires
        0 <= n <= leases.len(),
        forall|i: int|
            0 <= i < n ==> partition_before(
                (#[trigger] leases[i]).claim.topic_partition,
                topic_partition,
            ),
        n < leases.len() ==> !partition_before(leases[n].claim.topic_partition, topic_partition),
    ensures
        rank(leases, topic_partition) == n,
    decreases n,
{
    if n > 0 {
        assert(partition_before(leases[0].claim.topic_partition, topic_partition));
        assert forall|i: int| 0 <= i < n - 1 implies partition_before(
            (#[trigger] leases.skip(1)[i]).claim.topic_partition,
            topic_partition,
        ) by {
            assert(partition_before(leases[i + 1].claim.topic_partition, topic_partition));
        }
        lemma_rank_is(leases.skip(1), topic_partition, n - 1);
    }
}

/// A lease is found by its partition wherever it stands.
pub proof fn leases_are_found(leases: Seq<LeaseModel>, index: int)
    requires
        in_partition_order(leases),
        0 <= index < leases.len(),
    ensures
        lease_of(leases, leases[index].claim.topic_partition) == Some(leases[index]),
{
    lemma_rank_is(leases, leases[index].claim.topic_partition, index);
}

pub proof fn lemma_rank_bounds(leases: Seq<LeaseModel>, topic_partition: TopicPartition)
    requires
        in_partition_order(leases),
    ensures
        rank(leases, topic_partition) <= leases.len(),
        forall|i: int|
            0 <= i < leases.len() ==> (partition_before(
                (#[trigger] leases[i]).claim.topic_partition,
                topic_partition,
            ) <==> i < rank(leases, topic_partition)),
    decreases leases.len(),
{
    if leases.len() > 0 && partition_before(leases[0].claim.topic_partition, topic_partition) {
        let rest = leases.skip(1);
        assert(in_partition_order(rest)) by {
            assert forall|i: int, j: int| 0 <= i < j < rest.len() implies partition_before(
                (#[trigger] rest[i]).claim.topic_partition,
                (#[trigger] rest[j]).claim.topic_partition,
            ) by {
                assert(partition_before(
                    leases[i + 1].claim.topic_partition,
                    leases[j + 1].claim.topic_partition,
                ));
            }
        }
        lemma_rank_bounds(rest, topic_partition);
        assert forall|i: int| 0 <= i < leases.len() implies (partition_before(
            (#[trigger] leases[i]).claim.topic_partition,
            topic_partition,
        ) <==> i < rank(leases, topic_partition)) by {
            if i > 0 {
                assert(rest[i - 1] == leases[i]);
            }
        }
    } else if leases.len() > 0 {
        assert forall|i: int| 0 <= i < leases.len() implies !partition_before(
            (#[trigger] leases[i]).claim.topic_partition,
            topic_partition,
        ) by {
            if i > 0 {
                assert(partition_before(
                    leases[0].claim.topic_partition,
                    leases[i].claim.topic_partition,
                ));
            }
        }
    }
}

/// Putting a lease in its place keeps the order, and the lease is found there.
pub proof fn lemma_with_lease(leases: Seq<LeaseModel>, lease: LeaseModel)
    requires
        in_partition_order(leases),
    ensures
        in_partition_order(with_lease(leases, lease)),
        lease_of(with_lease(leases, lease), lease.claim.topic_partition) == Some(lease),
        forall|other: TopicPartition|
            other != lease.claim.topic_partition ==> #[trigger] lease_of(
                with_lease(leases, lease),
                other,
            ) == lease_of(leases, other),
{
    let tp = lease.claim.topic_partition;
    let n = rank(leases, tp) as int;
    let after = with_lease(leases, lease);
    let had = leased(leases, tp);
    lemma_rank_bounds(leases, tp);
    assert forall|i: int, j: int| 0 <= i < j < after.len() implies partition_before(
        (#[trigger] after[i]).claim.topic_partition,
        (#[trigger] after[j]).claim.topic_partition,
    ) by {
        let a = if i <= n || had {
            i
        } else {
            i - 1
        };
        let b = if j <= n || had {
            j
        } else {
            j - 1
        };
        if i != n && j != n {
            assert(partition_before(
                leases[a].claim.topic_partition,
                leases[b].claim.topic_partition,
            ));
        } else if i == n {
            let k = if had {
                j
            } else {
                j - 1
            };
            assert(after[j] == leases[k]);
            if !had && k == n {
                assert(!partition_before(leases[n].claim.topic_partition, tp));
            } else {
                assert(partition_before(
                    leases[n].claim.topic_partition,
                    leases[k].claim.topic_partition,
                ));
                assert(!partition_before(leases[k].claim.topic_partition, tp));
            }
        }
    }
    assert(after[n] == lease);
    lemma_rank_is(after, tp, n);
    assert forall|other: TopicPartition| other != tp implies #[trigger] lease_of(after, other)
        == lease_of(leases, other) by {
        lemma_rank_bounds(leases, other);
        let r = rank(leases, other) as int;
        let shifted = if !had && partition_before(tp, other) {
            r + 1
        } else {
            r
        };
        assert forall|i: int| 0 <= i < shifted implies partition_before(
            (#[trigger] after[i]).claim.topic_partition,
            other,
        ) by {
            if i != n {
                let k = if had || i < n {
                    i
                } else {
                    i - 1
                };
                assert(after[i] == leases[k]);
                if had || i < n {
                    if k >= r {
                        assert(shifted == r + 1);
                        assert(i == r);
                        assert(r < n);
                        assert(partition_before(leases[r].claim.topic_partition, tp));
                    }
                }
            } else if !had {
                if !partition_before(tp, other) {
                    assert(n < r);
                    assert(partition_before(leases[n].claim.topic_partition, other));
                }
            }
        }
        if shifted < after.len() {
            assert(!partition_before(after[shifted].claim.topic_partition, other)) by {
                if shifted != n {
                    let k = if had || shifted < n {
                        shifted
                    } else {
                        shifted - 1
                    };
                    assert(after[shifted] == leases[k]);
                    if k < r {
                        assert(partition_before(leases[k].claim.topic_partition, other));
                        assert(shifted == r && !had && shifted > n && k == r - 1);
                    }
                } else if had {
                    assert(leases[n].claim.topic_partition == tp);
                }
            }
        }
        lemma_rank_is(after, other, shifted);
    }
}

/// The bytes that open a stored state.
pub open spec fn state_magic() -> Seq<u8> {
    encode_utf8("SSLEASE1"@)
}

/// The stored forms of leases, one after the other.
pub open spec fn leases_bytes(leases: Seq<LeaseModel>) -> Seq<u8>
    decreases leases.len(),
{
    if leases.len() == 0 {
        Seq::empty()
    } else {
        leases_bytes(leases.drop_last()) + leases.last().bytes()
    }
}

/// Everything of a stored state before its leases.
pub open spec fn state_header(cluster_id: ClusterId, node_id: NodeId, count: nat) -> Seq<u8> {
    state_magic() + le_bytes(STATE_VERSION as nat, 2) + le_bytes(cluster_id.0 as nat, 16)
        + le_bytes(node_id.0 as nat, 16) + le_bytes(count, 4)
}

/// Everything of a stored state before its checksum.
pub open spec fn state_body(cluster_id: ClusterId, node_id: NodeId, leases: Seq<LeaseModel>) -> Seq<u8> {
    state_header(cluster_id, node_id, leases.len()) + leases_bytes(leases)
}

/// A stored state.
pub open spec fn state_bytes(cluster_id: ClusterId, node_id: NodeId, leases: Seq<LeaseModel>) -> Seq<u8> {
    let body = state_body(cluster_id, node_id, leases);
    body + blake3_of(body)
}

/// The views of leases.
pub open spec fn lease_models(leases: Seq<FinalizedLease>) -> Seq<LeaseModel> {
    leases.map_values(|lease: FinalizedLease| lease@)
}

pub proof fn lemma_magic()
    ensures
        state_magic().len() == 8,
{
    reveal_strlit("SSLEASE1");
    vstd::string::is_ascii_spec_bytes("SSLEASE1");
    assert("SSLEASE1".spec_bytes() == state_magic());
}

proof fn lemma_leases_len(leases: Seq<LeaseModel>)
    requires
        forall|i: int| 0 <= i < leases.len() ==> (#[trigger] leases[i]).sized(),
    ensures
        leases_bytes(leases).len() == leases.len() * LEASE_BYTES,
    decreases leases.len(),
{
    if leases.len() > 0 {
        assert forall|i: int| 0 <= i < leases.drop_last().len() implies (
        #[trigger] leases.drop_last()[i]).sized() by {
            assert(leases[i].sized());
        }
        lemma_leases_len(leases.drop_last());
        stored_leases_read_back(Seq::empty(), leases.last(), Seq::empty());
    }
}

/// Writes a table of leases.
pub fn encode_state(cluster_id: ClusterId, node_id: NodeId, leases: &Vec<FinalizedLease>) -> (result:
    ControlResult<Vec<u8>>)
    ensures
        ({
            let models = lease_models(leases@);
            match result {
                Ok(bytes) => {
                    &&& leases@.len() <= u32::MAX
                    &&& bytes@ == state_bytes(cluster_id, node_id, models)
                    &&& bytes@.len() <= MAX_STATE_BYTES
                },
                Err(error) => if leases@.len() > u32::MAX {
                    error@ == ControlFault::State("too many leases to persist"@)
                } else {
                    &&& state_bytes(cluster_id, node_id, models).len() > MAX_STATE_BYTES
                    &&& error@ == ControlFault::State("lease state exceeds the hard byte limit"@)
                },
            }
        }),
{
    let ghost models = lease_models(leases@);
    if leases.len() > 0xffff_ffff {
        return Err(state_error("too many leases to persist"));
    }
    let mut bytes: Vec<u8> = Vec::new();
    push_bytes(&mut bytes, "SSLEASE1".as_bytes());
    proof {
        assert(bytes@ =~= state_magic());
    }
    push_le(&mut bytes, STATE_VERSION as u128, 2);
    push_le(&mut bytes, cluster_id.0, 16);
    push_le(&mut bytes, node_id.0, 16);
    push_le(&mut bytes, leases.len() as u128, 4);
    let ghost header = bytes@;
    proof {
        assert(header =~= state_header(cluster_id, node_id, leases@.len()));
        assert(bytes@ =~= header + leases_bytes(models.take(0)));
    }
    let mut index: usize = 0;
    while index < leases.len()
        invariant
            index <= leases@.len(),
            models == lease_models(leases@),
            bytes@ == header + leases_bytes(models.take(index as int)),
        decreases leases@.len() - index,
    {
        encode_lease(&mut bytes, &leases[index]);
        proof {
            assert(models.take(index + 1).drop_last() =~= models.take(index as int));
            assert(models.take(index + 1).last() == leases@[index as int]@);
            assert(bytes@ =~= header + leases_bytes(models.take(index + 1)));
        }
        index += 1;
    }
    proof {
        assert(models.take(index as int) =~= models);
    }
    let checksum = blake3_hash(bytes.as_slice());
    push_digest(&mut bytes, &checksum);
    if bytes.len() > MAX_STATE_BYTES {
        return Err(state_error("lease state exceeds the hard byte limit"));
    }
    Ok(bytes)
}

/// Reading `count` leases from `at` on into a table.
pub open spec fn parsed_leases(
    body: Seq<u8>,
    at: int,
    count: nat,
    cluster_id: ClusterId,
    table: Seq<LeaseModel>,
) -> Result<(Seq<LeaseModel>, int), ControlFault>
    decreases count,
{
    let lease = lease_at(body, at, cluster_id);
    if count == 0 {
        Ok((table, at))
    } else if at + LEASE_BYTES > body.len() {
        Err(ControlFault::State("lease state is truncated"@))
    } else if !lease.certified() {
        Err(
            ControlFault::InvalidCertificate(
                "certificate does not finalize the exact lease claim"@,
            ),
        )
    } else if leased(table, lease.claim.topic_partition) {
        Err(ControlFault::State("lease state contains a duplicate partition"@))
    } else {
        parsed_leases(
            body,
            at + LEASE_BYTES,
            (count - 1) as nat,
            cluster_id,
            with_lease(table, lease),
        )
    }
}

/// The table that stored bytes hold for a node, or why they cannot be used.
pub open spec fn parsed_state(config: LeaseCoordinatorConfig, bytes: Seq<u8>) -> Result<
    Seq<LeaseModel>,
    ControlFault,
> {
    let body = bytes.take(bytes.len() - STATE_CHECKSUM_BYTES);
    if bytes.len() > MAX_STATE_BYTES {
        Err(ControlFault::State("lease state exceeds the hard byte limit"@))
    } else if bytes.len() < STATE_HEADER_BYTES + STATE_CHECKSUM_BYTES {
        Err(ControlFault::State("lease state is truncated"@))
    } else if blake3_of(body) != bytes.skip(bytes.len() - STATE_CHECKSUM_BYTES) {
        Err(ControlFault::State("lease state BLAKE3 checksum mismatch"@))
    } else if body.subrange(0, 8) != state_magic() {
        Err(ControlFault::State("lease state magic mismatch"@))
    } else if le_value(body.subrange(8, 10)) != STATE_VERSION {
        Err(ControlFault::State("unsupported lease state version"@))
    } else if le_value(body.subrange(10, 26)) != config.cluster_id.0 || le_value(
        body.subrange(26, 42),
    ) != config.node_id.0 {
        Err(ControlFault::State("lease state belongs to a different cluster or node"@))
    } else if le_value(body.subrange(42, 46)) > config.max_leases {
        Err(ControlFault::State("persisted lease count exceeds the configured bound"@))
    } else {
        match parsed_leases(
            body,
            46,
            le_value(body.subrange(42, 46)),
            config.cluster_id,
            Seq::empty(),
        ) {
            Err(fault) => Err(fault),
            Ok((table, end)) => if end != body.len() {
                Err(ControlFault::State("lease state has trailing data"@))
            } else {
                Ok(table)
            },
        }
    }
}

/// A lease's certificate finalizes exactly its claim.
fn is_certified(claim: &LeaseClaim, certificate: &BlossomLeaseCertificate) -> (certified: bool)
    ensures
        certified == (LeaseModel { claim: claim@, certificate: certificate@ }).certified(),
{
    same_digest(&certificate.group_id, &claim.group_id()) && same_digest(
        &certificate.claim_digest,
        &claim.digest(),
    ) && certificate.epoch_nonce > 0 && !is_zero_digest(&certificate.epoch_hash)
        && certificate.validator_generation > 0
}

/// The place of a partition in a table: where its lease is, or where it would go.
fn find_lease(leases: &Vec<FinalizedLease>, topic_partition: TopicPartition) -> (result: Result<
    usize,
    usize,
>)
    requires
        in_partition_order(lease_models(leases@)),
    ensures
        ({
            let models = lease_models(leases@);
            match result {
                Ok(index) => leased(models, topic_partition) && index == rank(
                    models,
                    topic_partition,
                ) && index < leases@.len(),
                Err(index) => !leased(models, topic_partition) && index == rank(
                    models,
                    topic_partition,
                ) && index <= leases@.len(),
            }
        }),
{
    let ghost models = lease_models(leases@);
    proof {
        lemma_rank_bounds(models, topic_partition);
    }
    let mut low: usize = 0;
    let mut high: usize = leases.len();
    while low < high
        invariant
            models == lease_models(leases@),
            low <= rank(models, topic_partition) <= high <= leases@.len(),
            forall|i: int|
                0 <= i < models.len() ==> (partition_before(
                    (#[trigger] models[i]).claim.topic_partition,
                    topic_partition,
                ) <==> i < rank(models, topic_partition)),
        decreases high - low,
    {
        let middle: usize = low + (high - low) / 2;
        let held = leases[middle].claim.topic_partition;
        assert(models[middle as int].claim.topic_partition == held);
        if comes_before(held, topic_partition) {
            low = middle + 1;
        } else {
            high = middle;
        }
    }
    if low < leases.len() && leases[low].claim.topic_partition == topic_partition {
        assert(models[low as int].claim.topic_partition == topic_partition);
        Ok(low)
    } else {
        if low < leases.len() {
            assert(models[low as int] == leases@[low as int]@);
        }
        Err(low)
    }
}

fn store_lease(leases: &mut Vec<FinalizedLease>, lease: FinalizedLease) -> (replaced: bool)
    requires
        in_partition_order(lease_models(old(leases)@)),
    ensures
        replaced == leased(lease_models(old(leases)@), lease.claim.topic_partition),
        lease_models(final(leases)@) == with_lease(lease_models(old(leases)@), lease@),
        in_partition_order(lease_models(final(leases)@)),
        final(leases)@.len() == old(leases)@.len() + if replaced {
            0int
        } else {
            1int
        },
{
    let ghost before = lease_models(leases@);
    proof {
        lemma_with_lease(before, lease@);
    }
    match find_lease(leases, lease.claim.topic_partition) {
        Ok(index) => {
            leases[index] = lease;
            proof {
                assert(lease_models(leases@) =~= with_lease(before, lease@));
            }
            true
        },
        Err(index) => {
            leases.insert(index, lease);
            proof {
                assert(lease_models(leases@) =~= with_lease(before, lease@));
            }
            false
        },
    }
}

/// Reads a table of leases.
///
/// Anything but a complete, unchanged state of this node is refused.
pub fn decode_state(config: &LeaseCoordinatorConfig, bytes: &Vec<u8>) -> (result: ControlResult<
    Vec<FinalizedLease>,
>)
    ensures
        match (result, parsed_state(*config, bytes@)) {
            (Ok(leases), Ok(table)) => {
                &&& lease_models(leases@) == table
                &&& in_partition_order(table)
                &&& all_certified(table, config.cluster_id)
                &&& table.len() <= config.max_leases
            },
            (Err(error), Err(fault)) => error@ == fault,
            _ => false,
        },
{
    let len: usize = bytes.len();
    if len > MAX_STATE_BYTES {
        return Err(state_error("lease state exceeds the hard byte limit"));
    }
    if len < STATE_HEADER_BYTES + STATE_CHECKSUM_BYTES {
        return Err(state_error("lease state is truncated"));
    }
    let body_len: usize = len - STATE_CHECKSUM_BYTES;
    let mut body: Vec<u8> = Vec::new();
    let mut index: usize = 0;
    while index < body_len
        invariant
            index <= body_len <= bytes@.len(),
            body@ == bytes@.take(index as int),
        decreases body_len - index,
    {
        body.push(bytes[index]);
        index += 1;
        proof {
            assert(body@ =~= bytes@.take(index as int));
        }
    }
    let checksum = digest_at(bytes, body_len);
    let expected = blake3_hash(body.as_slice());
    proof {
        assert(bytes@.subrange(body_len as int, body_len + 32) =~= bytes@.skip(body_len as int));
        lemma_magic();
        lemma_le_bounds();
    }
    if !same_digest(&expected, &checksum) {
        return Err(state_error("lease state BLAKE3 checksum mismatch"));
    }
    if !has_magic(&body) {
        return Err(state_error("lease state magic mismatch"));
    }
    let mut decoder = Decoder { bytes: &body, cursor: 8 };
    let version: u128 = match decoder.number(2) {
        Err(error) => {
            return Err(error);
        },
        Ok(value) => value,
    };
    if version != STATE_VERSION as u128 {
        return Err(state_error("unsupported lease state version"));
    }
    let cluster: u128 = match decoder.number(16) {
        Err(error) => {
            return Err(error);
        },
        Ok(value) => value,
    };
    let node: u128 = match decoder.number(16) {
        Err(error) => {
            return Err(error);
        },
        Ok(value) => value,
    };
    if cluster != config.cluster_id.0 || node != config.node_id.0 {
        return Err(state_error("lease state belongs to a different cluster or node"));
    }
    let count: u128 = match decoder.number(4) {
        Err(error) => {
            return Err(error);
        },
        Ok(value) => value,
    };
    if count > config.max_leases as u128 {
        return Err(state_error("persisted lease count exceeds the configured bound"));
    }
    let mut leases: Vec<FinalizedLease> = Vec::new();
    let ghost whole = parsed_leases(body@, 46, count as nat, config.cluster_id, Seq::empty());
    proof {
        assert(lease_models(leases@) =~= Seq::<LeaseModel>::empty());
    }
    let mut left: u128 = count;
    while left > 0
        invariant
            body@.len() <= MAX_STATE_BYTES,
            body@ == bytes@.take(bytes@.len() - STATE_CHECKSUM_BYTES),
            STATE_HEADER_BYTES + STATE_CHECKSUM_BYTES <= bytes@.len() <= MAX_STATE_BYTES,
            decoder.wf(),
            decoder.bytes == &body,
            in_partition_order(lease_models(leases@)),
            all_certified(lease_models(leases@), config.cluster_id),
            leases@.len() + left == count,
            whole == parsed_leases(body@, 46, count as nat, config.cluster_id, Seq::empty()),
            whole == parsed_leases(
                body@,
                decoder.cursor as int,
                left as nat,
                config.cluster_id,
                lease_models(leases@),
            ),
            blake3_of(body@) == bytes@.skip(bytes@.len() - STATE_CHECKSUM_BYTES),
            body@.subrange(0, 8) == state_magic(),
            le_value(body@.subrange(8, 10)) == STATE_VERSION,
            le_value(body@.subrange(10, 26)) == config.cluster_id.0,
            le_value(body@.subrange(26, 42)) == config.node_id.0,
            le_value(body@.subrange(42, 46)) == count,
            count <= config.max_leases,
        decreases left,
    {
        let lease = match decode_lease(&mut decoder, config.cluster_id) {
            Err(error) => {
                return Err(error);
            },
            Ok(lease) => lease,
        };
        if !is_certified(&lease.claim, &lease.certificate) {
            return Err(
                ControlError::InvalidCertificate(
                    "certificate does not finalize the exact lease claim".to_string(),
                ),
            );
        }
        proof {
            lemma_with_lease_certified(lease_models(leases@), lease@, config.cluster_id);
        }
        if store_lease(&mut leases, lease) {
            return Err(state_error("lease state contains a duplicate partition"));
        }
        left -= 1;
    }
    if !decoder.is_empty() {
        return Err(state_error("lease state has trailing data"));
    }
    Ok(leases)
}

fn has_magic(body: &Vec<u8>) -> (has: bool)
    requires
        body@.len() >= 8,
    ensures
        has == (body@.subrange(0, 8) == state_magic()),
{
    let magic = "SSLEASE1".as_bytes();
    proof {
        lemma_magic();
        assert(magic@ == state_magic());
    }
    let mut index: usize = 0;
    while index < 8
        invariant
            index <= 8,
            body@.len() >= 8,
            magic@.len() == 8,
            magic@ == state_magic(),
            forall|i: int| 0 <= i < index ==> body@[i] == magic@[i],
        decreases 8 - index,
    {
        if body[index] != magic[index] {
            assert(body@.subrange(0, 8)[index as int] != state_magic()[index as int]);
            return false;
        }
        index += 1;
    }
    proof {
        assert(body@.subrange(0, 8) =~= state_magic());
    }
    true
}

/// Every lease belongs to the cluster and is certified.
pub open spec fn all_certified(leases: Seq<LeaseModel>, cluster_id: ClusterId) -> bool {
    forall|i: int|
        0 <= i < leases.len() ==> (#[trigger] leases[i]).certified()
            && leases[i].claim.cluster_id == cluster_id && leases[i].sized()
}

proof fn lemma_with_lease_certified(
    leases: Seq<LeaseModel>,
    lease: LeaseModel,
    cluster_id: ClusterId,
)
    requires
        in_partition_order(leases),
        all_certified(leases, cluster_id),
        lease.certified(),
        lease.sized(),
        lease.claim.cluster_id == cluster_id,
    ensures
        all_certified(with_lease(leases, lease), cluster_id),
{
    let after = with_lease(leases, lease);
    let n = rank(leases, lease.claim.topic_partition) as int;
    lemma_rank_bounds(leases, lease.claim.topic_partition);
    assert forall|i: int| 0 <= i < after.len() implies (#[trigger] after[i]).certified()
        && after[i].claim.cluster_id == cluster_id && after[i].sized() by {
        if i != n {
            let k = if leased(leases, lease.claim.topic_partition) || i < n {
                i
            } else {
                i - 1
            };
            assert(after[i] == leases[k]);
        }
    }
}

proof fn lemma_leases_split(leases: Seq<LeaseModel>, count: int)
    requires
        0 <= count <= leases.len(),
    ensures
        leases_bytes(leases) == leases_bytes(leases.take(count)) + leases_bytes(leases.skip(count)),
    decreases leases.len(),
{
    if count == leases.len() {
        assert(leases.take(count) =~= leases);
        assert(leases.skip(count) =~= Seq::<LeaseModel>::empty());
        assert(leases_bytes(leases) + Seq::<u8>::empty() =~= leases_bytes(leases));
    } else {
        lemma_leases_split(leases.drop_last(), count);
        assert(leases.drop_last().take(count) =~= leases.take(count));
        assert(leases.drop_last().skip(count) =~= leases.skip(count).drop_last());
        assert(leases.skip(count).last() == leases.last());
        assert(leases_bytes(leases) =~= leases_bytes(leases.take(count)) + leases_bytes(
            leases.skip(count),
        ));
    }
}

/// Where the leases of a stored table stand.
#[verifier::spinoff_prover]
#[verifier::rlimit(60)]
proof fn lemma_stored_lease(header: Seq<u8>, leases: Seq<LeaseModel>, cluster_id: ClusterId, index: int)
    requires
        header.len() == STATE_HEADER_BYTES,
        all_certified(leases, cluster_id),
        0 <= index < leases.len(),
    ensures
        lease_at(
            header + leases_bytes(leases),
            STATE_HEADER_BYTES + index * LEASE_BYTES,
            cluster_id,
        ) == leases[index],
{
    let body = header + leases_bytes(leases);
    let lease = leases[index];
    let rest = leases.skip(index);
    let prefix = header + leases_bytes(leases.take(index));
    let suffix = leases_bytes(rest.skip(1));
    lemma_leases_split(leases, index);
    lemma_leases_split(rest, 1);
    assert(rest.take(1) =~= seq![lease]);
    assert(rest.take(1).drop_last() =~= Seq::<LeaseModel>::empty());
    assert(leases_bytes(rest.take(1)) == leases_bytes(rest.take(1).drop_last()) + lease.bytes());
    assert(leases_bytes(rest.take(1)) =~= lease.bytes());
    let stored = lease.bytes();
    assert(body =~= prefix + stored + suffix);
    assert forall|i: int| 0 <= i < leases.take(index).len() implies (
    #[trigger] leases.take(index)[i]).sized() by {
        assert(leases[i].sized());
    }
    lemma_leases_len(leases.take(index));
    assert(leases[index].sized());
    stored_leases_read_back(prefix, lease, suffix);
}

/// Reading goes through a stored table lease by lease.
proof fn lemma_parse_stored(
    body: Seq<u8>,
    leases: Seq<LeaseModel>,
    cluster_id: ClusterId,
    done: int,
)
    requires
        in_partition_order(leases),
        all_certified(leases, cluster_id),
        0 <= done <= leases.len(),
        body.len() == STATE_HEADER_BYTES + leases.len() * LEASE_BYTES,
        forall|i: int|
            0 <= i < leases.len() ==> lease_at(
                body,
                STATE_HEADER_BYTES + i * LEASE_BYTES,
                cluster_id,
            ) == #[trigger] leases[i],
    ensures
        parsed_leases(
            body,
            STATE_HEADER_BYTES + done * LEASE_BYTES,
            (leases.len() - done) as nat,
            cluster_id,
            leases.take(done),
        ) == Ok::<(Seq<LeaseModel>, int), ControlFault>((leases, body.len() as int)),
    decreases leases.len() - done,
{
    if done == leases.len() {
        assert(leases.take(done) =~= leases);
    } else {
        let lease = leases[done];
        let table = leases.take(done);
        assert(lease.certified());
        lemma_rank_is(table, lease.claim.topic_partition, done);
        assert(!leased(table, lease.claim.topic_partition));
        assert(with_lease(table, lease) =~= leases.take(done + 1));
        assert((done + 1) * LEASE_BYTES <= leases.len() * LEASE_BYTES);
        lemma_parse_stored(body, leases, cluster_id, done + 1);
    }
}

/// A table of certified leases that fits is read back from its stored form
/// exactly as it was written.
pub proof fn stored_states_read_back(config: LeaseCoordinatorConfig, leases: Seq<LeaseModel>)
    requires
        in_partition_order(leases),
        all_certified(leases, config.cluster_id),
        leases.len() <= config.max_leases,
        leases.len() <= u32::MAX,
        state_bytes(config.cluster_id, config.node_id, leases).len() <= MAX_STATE_BYTES,
    ensures
        parsed_state(config, state_bytes(config.cluster_id, config.node_id, leases)) == Ok::<
            Seq<LeaseModel>,
            ControlFault,
        >(leases),
{
    let header = state_header(config.cluster_id, config.node_id, leases.len());
    let body = state_body(config.cluster_id, config.node_id, leases);
    let bytes = state_bytes(config.cluster_id, config.node_id, leases);
    lemma_magic();
    lemma_le_bounds();
    le_bytes_read_back(STATE_VERSION as nat, 2);
    le_bytes_read_back(config.cluster_id.0 as nat, 16);
    le_bytes_read_back(config.node_id.0 as nat, 16);
    le_bytes_read_back(leases.len(), 4);
    assert(header.len() == STATE_HEADER_BYTES);
    assert(bytes.take(bytes.len() - STATE_CHECKSUM_BYTES) =~= body);
    assert(bytes.skip(bytes.len() - STATE_CHECKSUM_BYTES) =~= blake3_of(body));
    assert(body.subrange(0, 8) =~= state_magic());
    assert(body.subrange(8, 10) =~= le_bytes(STATE_VERSION as nat, 2));
    assert(body.subrange(10, 26) =~= le_bytes(config.cluster_id.0 as nat, 16));
    assert(body.subrange(26, 42) =~= le_bytes(config.node_id.0 as nat, 16));
    assert(body.subrange(42, 46) =~= le_bytes(leases.len(), 4));
    assert forall|i: int| 0 <= i < leases.len() implies (#[trigger] leases[i]).sized() by {}
    lemma_leases_len(leases);
    assert(leases.take(0) =~= Seq::<LeaseModel>::empty());
    assert forall|i: int| 0 <= i < leases.len() implies lease_at(
        body,
        STATE_HEADER_BYTES + i * LEASE_BYTES,
        config.cluster_id,
    ) == #[trigger] leases[i] by {
        lemma_stored_lease(header, leases, config.cluster_id, i);
    }
    lemma_parse_stored(body, leases, config.cluster_id, 0);
}

/// What keeps a node from claiming an epoch.
pub open spec fn epoch_obstacle(
    previous: Option<LeaseModel>,
    local_node: NodeId,
    proposed_epoch: u64,
) -> Option<Seq<char>> {
    match previous {
        None => None,
        Some(lease) => if lease.claim.leader_id == local_node {
            if proposed_epoch < lease.claim.leader_epoch {
                Some("lease renewal cannot decrease the leader epoch"@)
            } else {
                None
            }
        } else if proposed_epoch <= lease.claim.leader_epoch {
            Some("a new leader must increase the leader epoch"@)
        } else {
            None
        },
    }
}

/// Checks that a claim does not go back behind the lease before it.
pub fn validate_epoch_transition(
    previous: &Option<FinalizedLease>,
    local_node: NodeId,
    proposed_epoch: u64,
) -> (result: ControlResult<()>)
    ensures
        match epoch_obstacle(lease_view(*previous), local_node, proposed_epoch) {
            None => result is Ok,
            Some(text) => result is Err && result->Err_0@ == ControlFault::InvalidClaim(text),
        },
{
    if let Some(lease) = previous {
        if lease.claim.leader_id == local_node {
            if proposed_epoch < lease.claim.leader_epoch {
                return Err(
                    ControlError::InvalidClaim(
                        "lease renewal cannot decrease the leader epoch".to_string(),
                    ),
                );
            }
        } else if proposed_epoch <= lease.claim.leader_epoch {
            return Err(
                ControlError::InvalidClaim(
                    "a new leader must increase the leader epoch".to_string(),
                ),
            );
        }
    }
    Ok(())
}

pub open spec fn lease_view(lease: Option<FinalizedLease>) -> Option<LeaseModel> {
    match lease {
        None => None,
        Some(l) => Some(l@),
    }
}

/// What is wrong with a certificate for a claim that follows a lease.
pub open spec fn certificate_obstacle(lease: LeaseModel, previous: Option<LeaseModel>) -> Option<
    Seq<char>,
> {
    if !lease.certified() {
        Some("certificate does not finalize the exact lease claim"@)
    } else {
        match previous {
            Some(before) => if lease.claim.previous_epoch_hash != before.certificate.epoch_hash
                || lease.certificate.epoch_nonce <= before.certificate.epoch_nonce {
                Some("certificate is not a monotonic continuation of the previous lease"@)
            } else {
                None
            },
            None => if lease.claim.previous_epoch_hash != zero_digest() {
                Some("first lease has a nonzero predecessor"@)
            } else {
                None
            },
        }
    }
}

/// Checks a certificate against its claim and the lease before it.
pub fn validate_certificate(
    claim: &LeaseClaim,
    previous: &Option<FinalizedLease>,
    certificate: &BlossomLeaseCertificate,
) -> (result: ControlResult<()>)
    ensures
        match certificate_obstacle(
            LeaseModel { claim: claim@, certificate: certificate@ },
            lease_view(*previous),
        ) {
            None => result is Ok,
            Some(text) => result is Err && result->Err_0@ == ControlFault::InvalidCertificate(text),
        },
{
    if !is_certified(claim, certificate) {
        return Err(
            ControlError::InvalidCertificate(
                "certificate does not finalize the exact lease claim".to_string(),
            ),
        );
    }
    match previous {
        Some(before) => {
            if !same_digest(&claim.previous_epoch_hash, &before.certificate.epoch_hash)
                || certificate.epoch_nonce <= before.certificate.epoch_nonce {
                return Err(
                    ControlError::InvalidCertificate(
                        "certificate is not a monotonic continuation of the previous lease".to_string(),
                    ),
                );
            }
        },
        None => {
            if !is_zero_digest(&claim.previous_epoch_hash) {
                return Err(
                    ControlError::InvalidCertificate(
                        "first lease has a nonzero predecessor".to_string(),
                    ),
                );
            }
        },
    }
    Ok(())
}

/// A claim that a node is about to have finalized, and the lease it follows.
#[derive(Debug, Clone, Copy)]
pub struct LeaseProposal {
    pub claim: LeaseClaim,
    pub previous: Option<FinalizedLease>,
}

/// A finalized lease with the stored form of the table that holds it.
#[derive(Debug)]
pub struct PendingLease {
    pub lease: FinalizedLease,
    pub bytes: Vec<u8>,
}

fn same_lease(one: &FinalizedLease, other: &FinalizedLease) -> (same: bool)
    ensures
        same == (one@ == other@),
{
    one.claim.cluster_id == other.claim.cluster_id && one.claim.topic_partition
        == other.claim.topic_partition && one.claim.leader_id == other.claim.leader_id
        && one.claim.leader_epoch == other.claim.leader_epoch && one.claim.expires_at_unix_ms
        == other.claim.expires_at_unix_ms && same_digest(
        &one.claim.previous_epoch_hash,
        &other.claim.previous_epoch_hash,
    ) && same_digest(&one.certificate.group_id, &other.certificate.group_id)
        && one.certificate.epoch_nonce == other.certificate.epoch_nonce && same_digest(
        &one.certificate.epoch_hash,
        &other.certificate.epoch_hash,
    ) && same_digest(&one.certificate.claim_digest, &other.certificate.claim_digest)
        && one.certificate.validator_generation == other.certificate.validator_generation
}

/// The leases of one node.
#[derive(Debug)]
pub struct LeaseCoordinator {
    config: LeaseCoordinatorConfig,
    leases: Vec<FinalizedLease>,
}

impl View for LeaseCoordinator {
    type V = Seq<LeaseModel>;

    closed spec fn view(&self) -> Seq<LeaseModel> {
        lease_models(self.leases@)
    }
}

/// What keeps a node from claiming a lease: the first of a zero epoch, a longest
/// duration beyond the clock, an expiry that has passed or lies too far ahead, or
/// an epoch that may not follow.
pub open spec fn claim_obstacle(
    config: LeaseCoordinatorConfig,
    leases: Seq<LeaseModel>,
    topic_partition: TopicPartition,
    leader_epoch: u64,
    expires_at_unix_ms: u64,
    now_unix_ms: u64,
) -> Option<ControlFault> {
    let max_duration_ms = config.max_lease_duration.nanos as int / 1_000_000;
    if leader_epoch == 0 {
        Some(ControlFault::InvalidClaim("leader epoch must be nonzero"@))
    } else if max_duration_ms > u64::MAX {
        Some(ControlFault::Clock)
    } else if expires_at_unix_ms <= now_unix_ms || expires_at_unix_ms - now_unix_ms
        > max_duration_ms {
        Some(
            ControlFault::InvalidClaim(
                "lease expiry is elapsed or exceeds the configured maximum"@,
            ),
        )
    } else {
        match epoch_obstacle(lease_of(leases, topic_partition), config.node_id, leader_epoch) {
            Some(text) => Some(ControlFault::InvalidClaim(text)),
            None => None,
        }
    }
}

/// The claim of a node that follows its last lease.
pub open spec fn next_claim(
    config: LeaseCoordinatorConfig,
    leases: Seq<LeaseModel>,
    topic_partition: TopicPartition,
    leader_epoch: u64,
    expires_at_unix_ms: u64,
) -> ClaimModel {
    ClaimModel {
        cluster_id: config.cluster_id,
        topic_partition,
        leader_id: config.node_id,
        leader_epoch,
        expires_at_unix_ms,
        previous_epoch_hash: match lease_of(leases, topic_partition) {
            Some(lease) => lease.certificate.epoch_hash,
            None => zero_digest(),
        },
    }
}

/// What keeps a finalized claim from becoming the node's lease.
pub open spec fn certify_obstacle(
    config: LeaseCoordinatorConfig,
    leases: Seq<LeaseModel>,
    lease: LeaseModel,
    previous: Option<LeaseModel>,
) -> Option<ControlFault> {
    let next = with_lease(leases, lease);
    match certificate_obstacle(lease, previous) {
        Some(text) => Some(ControlFault::InvalidCertificate(text)),
        None => if lease_of(leases, lease.claim.topic_partition) != previous {
            Some(ControlFault::ConcurrentLeaseChange)
        } else if previous is None && leases.len() >= config.max_leases {
            Some(ControlFault::LeaseLimitReached)
        } else if state_bytes(config.cluster_id, config.node_id, next).len() > MAX_STATE_BYTES {
            Some(ControlFault::State("lease state exceeds the hard byte limit"@))
        } else {
            None
        },
    }
}

impl LeaseCoordinator {
    pub closed spec fn spec_config(self) -> LeaseCoordinatorConfig {
        self.config
    }

    /// Settings are valid; leases are in order, certified and within the limit.
    pub open spec fn wf(self) -> bool {
        &&& self.spec_config().fault() is None
        &&& in_partition_order(self@)
        &&& all_certified(self@, self.spec_config().cluster_id)
        &&& self@.len() <= self.spec_config().max_leases
    }

    /// Opens the table of a node from its stored form, or empty where there is none.
    pub fn open(config: LeaseCoordinatorConfig, state: Option<&Vec<u8>>) -> (result: ControlResult<
        Self,
    >)
        ensures
            match result {
                Ok(coordinator) => {
                    &&& coordinator.wf()
                    &&& coordinator.spec_config() == config
                    &&& match state {
                        None => coordinator@ == Seq::<LeaseModel>::empty(),
                        Some(bytes) => parsed_state(config, bytes@) == Ok::<_, ControlFault>(
                            coordinator@,
                        ),
                    }
                },
                Err(error) => match config.fault() {
                    Some(text) => error@ == ControlFault::InvalidConfig(text),
                    None => state is Some && parsed_state(config, state->0@) == Err::<
                        Seq<LeaseModel>,
                        ControlFault,
                    >(error@),
                },
            },
    {
        match config.validate() {
            Err(error) => {
                return Err(error);
            },
            Ok(()) => {},
        }
        let leases: Vec<FinalizedLease> = match state {
            None => Vec::new(),
            Some(bytes) => match decode_state(&config, bytes) {
                Err(error) => {
                    return Err(error);
                },
                Ok(leases) => leases,
            },
        };
        proof {
            if state is None {
                assert(lease_models(leases@) =~= Seq::<LeaseModel>::empty());
            }
        }
        Ok(LeaseCoordinator { config, leases })
    }

    /// The claim for a new fenced leadership epoch or a renewal of the current one.
    ///
    /// A different leader must use a strictly larger `leader_epoch`. A renewal
    /// may keep the same epoch.
    pub fn propose(
        &self,
        topic_partition: TopicPartition,
        leader_epoch: u64,
        expires_at_unix_ms: u64,
        now_unix_ms: u64,
    ) -> (result: ControlResult<LeaseProposal>)
        requires
            self.wf(),
        ensures
            match (
                result,
                claim_obstacle(
                    self.spec_config(),
                    self@,
                    topic_partition,
                    leader_epoch,
                    expires_at_unix_ms,
                    now_unix_ms,
                ),
            ) {
                (Ok(proposal), None) => {
                    &&& proposal.claim@ == next_claim(
                        self.spec_config(),
                        self@,
                        topic_partition,
                        leader_epoch,
                        expires_at_unix_ms,
                    )
                    &&& lease_view(proposal.previous) == lease_of(self@, topic_partition)
                },
                (Err(error), Some(fault)) => error@ == fault,
                _ => false,
            },
    {
        if leader_epoch == 0 {
            return Err(ControlError::InvalidClaim("leader epoch must be nonzero".to_string()));
        }
        let max_duration_ms: u128 = self.config.max_lease_duration.nanos / 1_000_000;
        if max_duration_ms > u64::MAX as u128 {
            return Err(ControlError::Clock);
        }
        if expires_at_unix_ms <= now_unix_ms || (expires_at_unix_ms - now_unix_ms) as u128
            > max_duration_ms {
            return Err(
                ControlError::InvalidClaim(
                    "lease expiry is elapsed or exceeds the configured maximum".to_string(),
                ),
            );
        }
        let previous = self.lease(topic_partition);
        match validate_epoch_transition(&previous, self.config.node_id, leader_epoch) {
            Err(error) => {
                return Err(error);
            },
            Ok(()) => {},
        }
        let zero: [u8; 32] = [0u8; 32];
        proof {
            assert(zero@ =~= zero_digest());
        }
        let previous_epoch_hash = match &previous {
            Some(lease) => lease.certificate.epoch_hash,
            None => zero,
        };
        Ok(
            LeaseProposal {
                claim: LeaseClaim {
                    cluster_id: self.config.cluster_id,
                    topic_partition,
                    leader_id: self.config.node_id,
                    leader_epoch,
                    expires_at_unix_ms,
                    previous_epoch_hash,
                },
                previous,
            },
        )
    }

    /// What came of a lease that follows `previous`: it waits to be kept together
    /// with the table that holds it, or it was refused.
    pub open spec fn certifies(
        self,
        lease: LeaseModel,
        previous: Option<LeaseModel>,
        result: ControlResult<PendingLease>,
    ) -> bool {
        match (result, certify_obstacle(self.spec_config(), self@, lease, previous)) {
            (Ok(pending), None) => {
                &&& pending.lease@ == lease
                &&& pending.bytes@ == state_bytes(
                    self.spec_config().cluster_id,
                    self.spec_config().node_id,
                    with_lease(self@, lease),
                )
                &&& self.activates(pending)
            },
            (Err(error), Some(fault)) => error@ == fault,
            _ => false,
        }
    }

    /// Checks the certificate of a proposed claim and gives the stored form of
    /// the table with the lease in it. The table itself changes in `activate`,
    /// once that form is kept.
    pub fn certify(&self, proposal: &LeaseProposal, certificate: BlossomLeaseCertificate) -> (result:
        ControlResult<PendingLease>)
        requires
            self.wf(),
            proposal.claim.cluster_id == self.spec_config().cluster_id,
            lease_view(proposal.previous) matches Some(before) ==> before.claim.topic_partition
                == proposal.claim.topic_partition,
        ensures
            self.certifies(
                LeaseModel { claim: proposal.claim@, certificate: certificate@ },
                lease_view(proposal.previous),
                result,
            ),
    {
        let claim = proposal.claim;
        let ghost lease = LeaseModel { claim: claim@, certificate: certificate@ };
        match validate_certificate(&claim, &proposal.previous, &certificate) {
            Err(error) => {
                return Err(error);
            },
            Ok(()) => {},
        }
        let current = self.lease(claim.topic_partition);
        let unchanged = match (&current, &proposal.previous) {
            (None, None) => true,
            (Some(held), Some(before)) => same_lease(held, before),
            _ => false,
        };
        if !unchanged {
            return Err(ControlError::ConcurrentLeaseChange);
        }
        if proposal.previous.is_none() && self.leases.len() >= self.config.max_leases {
            return Err(ControlError::LeaseLimitReached);
        }
        let finalized = FinalizedLease { claim, certificate };
        let mut next: Vec<FinalizedLease> = Vec::new();
        let mut index: usize = 0;
        while index < self.leases.len()
            invariant
                index <= self.leases@.len(),
                next@ == self.leases@.take(index as int),
            decreases self.leases@.len() - index,
        {
            next.push(self.leases[index]);
            index += 1;
            proof {
                assert(next@ =~= self.leases@.take(index as int));
            }
        }
        proof {
            assert(next@ =~= self.leases@);
            lemma_with_lease(self@, lease);
            lemma_with_lease_certified(self@, lease, self.config.cluster_id);
            lemma_rank_bounds(self@, claim.topic_partition);
        }
        store_lease(&mut next, finalized);
        match encode_state(self.config.cluster_id, self.config.node_id, &next) {
            Err(error) => Err(error),
            Ok(bytes) => Ok(PendingLease { lease: finalized, bytes }),
        }
    }

    /// A pending lease can be put in force.
    pub open spec fn activates(self, pending: PendingLease) -> bool {
        &&& pending.lease@.certified()
        &&& pending.lease.claim.cluster_id == self.spec_config().cluster_id
        &&& leased(self@, pending.lease.claim.topic_partition) || self@.len()
            < self.spec_config().max_leases
    }

    /// Puts a lease in force whose table was kept.
    pub fn activate(&mut self, pending: PendingLease) -> (lease: FinalizedLease)
        requires
            old(self).wf(),
            old(self).activates(pending),
        ensures
            final(self).wf(),
            final(self).spec_config() == old(self).spec_config(),
            final(self)@ == with_lease(old(self)@, pending.lease@),
            lease == pending.lease,
            lease_of(final(self)@, lease.claim.topic_partition) == Some(lease@),
    {
        let lease = pending.lease;
        proof {
            lemma_with_lease(self@, lease@);
            lemma_with_lease_certified(self@, lease@, self.config.cluster_id);
        }
        store_lease(&mut self.leases, lease);
        lease
    }

    /// Acquires a new fenced leadership epoch or renews the current local epoch:
    /// proposes a claim, has the cluster finalize its exact bytes in the partition's
    /// group and checks what came back.
    ///
    /// The result is to be kept and then put in force with `activate`.
    pub fn acquire_or_renew<C: BlossomLeaseConsensus>(
        &self,
        consensus: &C,
        topic_partition: TopicPartition,
        leader_epoch: u64,
        expires_at_unix_ms: u64,
        now_unix_ms: u64,
    ) -> (result: ControlResult<PendingLease>)
        requires
            self.wf(),
        ensures
            match claim_obstacle(
                self.spec_config(),
                self@,
                topic_partition,
                leader_epoch,
                expires_at_unix_ms,
                now_unix_ms,
            ) {
                Some(fault) => result is Err && result->Err_0@ == fault,
                None => {
                    let claim = next_claim(
                        self.spec_config(),
                        self@,
                        topic_partition,
                        leader_epoch,
                        expires_at_unix_ms,
                    );
                    exists|
                        group: [u8; 32],
                        payload: &[u8],
                        answer: ControlResult<BlossomLeaseCertificate>,
                    | #[trigger]
                        call_ensures(
                            C::commit_lease,
                            (consensus, group, payload, self.spec_config().consensus_deadline),
                            answer,
                        ) && group@ == claim.group() && payload@ == claim.bytes() && match answer {
                            Err(error) => result == Err::<PendingLease, ControlError>(error),
                            Ok(certificate) => self.certifies(
                                LeaseModel { claim, certificate: certificate@ },
                                lease_of(self@, topic_partition),
                                result,
                            ),
                        }
                },
            },
    {
        let proposal = match self.propose(
            topic_partition,
            leader_epoch,
            expires_at_unix_ms,
            now_unix_ms,
        ) {
            Err(error) => {
                return Err(error);
            },
            Ok(proposal) => proposal,
        };
        let payload = proposal.claim.canonical_bytes();
        let certificate = match consensus.commit_lease(
            proposal.claim.group_id(),
            payload.as_slice(),
            self.config.consensus_deadline,
        ) {
            Err(error) => {
                return Err(error);
            },
            Ok(certificate) => certificate,
        };
        self.certify(&proposal, certificate)
    }

    /// The lease of a partition.
    #[must_use]
    pub fn lease(&self, topic_partition: TopicPartition) -> (lease: Option<FinalizedLease>)
        requires
            self.wf(),
        ensures
            lease_view(lease) == lease_of(self@, topic_partition),
    {
        match find_lease(&self.leases, topic_partition) {
            Ok(index) => {
                assert(self@[index as int] == self.leases@[index as int]@);
                Some(self.leases[index])
            },
            Err(_) => None,
        }
    }

    /// Admits a write exactly when this node holds an unexpired lease of that epoch.
    pub fn check_write(&self, topic_partition: TopicPartition, leader_epoch: u64, now_unix_ms: u64) -> (
    result: ControlResult<()>)
        requires
            self.wf(),
        ensures
            match lease_of(self@, topic_partition) {
                None => result is Err && result->Err_0@ == ControlFault::NoLease(topic_partition),
                Some(lease) => if lease.claim.leader_id != self.spec_config().node_id
                    || lease.claim.leader_epoch != leader_epoch {
                    result is Err && result->Err_0@ == (ControlFault::Fenced {
                        expected_epoch: lease.claim.leader_epoch,
                        received_epoch: leader_epoch,
                    })
                } else if lease.claim.expires_at_unix_ms <= now_unix_ms {
                    result is Err && result->Err_0@ == ControlFault::LeaseExpired
                } else {
                    result is Ok
                },
            },
    {
        match self.lease(topic_partition) {
            None => Err(ControlError::NoLease(topic_partition)),
            Some(lease) => {
                if lease.claim.leader_id != self.config.node_id || lease.claim.leader_epoch
                    != leader_epoch {
                    return Err(
                        ControlError::Fenced {
                            expected_epoch: lease.claim.leader_epoch,
                            received_epoch: leader_epoch,
                        },
                    );
                }
                if lease.claim.expires_at_unix_ms <= now_unix_ms {
                    return Err(ControlError::LeaseExpired);
                }
                Ok(())
            },
        }
    }
}

/// A lease that was put in force survives: the table read back from the form
/// that was kept holds exactly the leases in force.
pub proof fn leases_survive_restart(
    config: LeaseCoordinatorConfig,
    leases: Seq<LeaseModel>,
    lease: LeaseModel,
    previous: Option<LeaseModel>,
)
    requires
        config.fault() is None,
        in_partition_order(leases),
        all_certified(leases, config.cluster_id),
        leases.len() <= config.max_leases,
        lease.sized(),
        lease.claim.cluster_id == config.cluster_id,
        certify_obstacle(config, leases, lease, previous) is None,
    ensures
        ({
            let next = with_lease(leases, lease);
            &&& parsed_state(config, state_bytes(config.cluster_id, config.node_id, next)) == Ok::<
                Seq<LeaseModel>,
                ControlFault,
            >(next)
            &&& lease_of(next, lease.claim.topic_partition) == Some(lease)
        }),
{
    lemma_with_lease(leases, lease);
    lemma_with_lease_certified(leases, lease, config.cluster_id);
    lemma_rank_bounds(leases, lease.claim.topic_partition);
    stored_states_read_back(config, with_lease(leases, lease));
}

/// Each accepted lease is linked to the one before it: its claim names the
/// epoch hash of that one, its nonce is higher, and its leader epoch is not lower.
pub proof fn renewals_are_linked(
    config: LeaseCoordinatorConfig,
    leases: Seq<LeaseModel>,
    topic_partition: TopicPartition,
    leader_epoch: u64,
    expires_at_unix_ms: u64,
    now_unix_ms: u64,
    lease: LeaseModel,
    before: LeaseModel,
)
    requires
        lease_of(leases, topic_partition) == Some(before),
        claim_obstacle(
            config,
            leases,
            topic_partition,
            leader_epoch,
            expires_at_unix_ms,
            now_unix_ms,
        ) is None,
        lease.claim == next_claim(
            config,
            leases,
            topic_partition,
            leader_epoch,
            expires_at_unix_ms,
        ),
        certify_obstacle(config, leases, lease, Some(before)) is None,
    ensures
        lease.claim.previous_epoch_hash == before.certificate.epoch_hash,
        lease.certificate.epoch_nonce > before.certificate.epoch_nonce,
        lease.claim.leader_epoch >= before.claim.leader_epoch,
        before.claim.leader_id != config.node_id ==> lease.claim.leader_epoch
            > before.claim.leader_epoch,
{
}

/// A state that is accepted ends in the checksum of all that comes before, so
/// one whose checksum does not match is refused.
pub proof fn damaged_states_are_refused(config: LeaseCoordinatorConfig, bytes: Seq<u8>)
    requires
        bytes.len() < STATE_CHECKSUM_BYTES || bytes.skip(bytes.len() - STATE_CHECKSUM_BYTES)
            != blake3_of(bytes.take(bytes.len() - STATE_CHECKSUM_BYTES)),
    ensures
        parsed_state(config, bytes) matches Err(ControlFault::State(_)),
{
}

} // verus!
