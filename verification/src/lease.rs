//! Lease claims, certificates and their byte formats.
use vstd::prelude::*;
use vstd::string::StringSliceAdditionalSpecFns;
use vstd::utf8::encode_utf8;

use crate::bytes::{
    le_bound, le_bytes, le_bytes_read_back, le_value, le_value_writes_back, lemma_le_bounds,
    push_le, read_le,
};
use crate::hashing::{blake3_hash, blake3_of};
use crate::ids::{LogicalPartitionId, TopicId, TopicPartition};
use crate::text::{append_decimal, decimal};

verus! {

#[derive(Debug, Clone, Copy, PartialEq, Eq, PartialOrd, Ord, Hash, Structural)]
pub struct ClusterId(pub u128);

#[derive(Debug, Clone, Copy, PartialEq, Eq, PartialOrd, Ord, Hash, Structural)]
pub struct NodeId(pub u128);

pub type ControlResult<T> = Result<T, ControlError>;

/// Why a lease was refused or could not be read.
#[derive(Debug, PartialEq, Eq)]
pub enum ControlError {
    InvalidConfig(String),
    InvalidClaim(String),
    InvalidCertificate(String),
    NoLease(TopicPartition),
    Fenced { expected_epoch: u64, received_epoch: u64 },
    LeaseExpired,
    LeaseLimitReached,
    ConcurrentLeaseChange,
    Clock,
    State(String),
    Io(String),
    Consensus(String),
}

/// A refusal with its text taken by its view.
pub ghost enum ControlFault {
    InvalidConfig(Seq<char>),
    InvalidClaim(Seq<char>),
    InvalidCertificate(Seq<char>),
    NoLease(TopicPartition),
    Fenced { expected_epoch: u64, received_epoch: u64 },
    LeaseExpired,
    LeaseLimitReached,
    ConcurrentLeaseChange,
    Clock,
    State(Seq<char>),
    Io(Seq<char>),
    Consensus(Seq<char>),
}

impl View for ControlError {
    type V = ControlFault;

    open spec fn view(&self) -> ControlFault {
        match *self {
            ControlError::InvalidConfig(text) => ControlFault::InvalidConfig(text@),
            ControlError::InvalidClaim(text) => ControlFault::InvalidClaim(text@),
            ControlError::InvalidCertificate(text) => ControlFault::InvalidCertificate(text@),
            ControlError::NoLease(partition) => ControlFault::NoLease(partition),
            ControlError::Fenced { expected_epoch, received_epoch } => ControlFault::Fenced {
                expected_epoch,
                received_epoch,
            },
            ControlError::LeaseExpired => ControlFault::LeaseExpired,
            ControlError::LeaseLimitReached => ControlFault::LeaseLimitReached,
            ControlError::ConcurrentLeaseChange => ControlFault::ConcurrentLeaseChange,
            ControlError::Clock => ControlFault::Clock,
            ControlError::State(text) => ControlFault::State(text@),
            ControlError::Io(text) => ControlFault::Io(text@),
            ControlError::Consensus(text) => ControlFault::Consensus(text@),
        }
    }
}

impl ControlError {
    pub open spec fn describes(self) -> Seq<char> {
        match self {
            ControlError::InvalidConfig(text) => "invalid control config: "@ + text@,
            ControlError::InvalidClaim(text) => "invalid lease claim: "@ + text@,
            ControlError::InvalidCertificate(text) => "invalid Blossom lease certificate: "@
                + text@,
            ControlError::NoLease(partition) => "no finalized lease for "@ + decimal(
                partition.topic_id.0 as nat,
            ) + "/"@ + decimal(partition.partition_id.0 as nat),
            ControlError::Fenced { expected_epoch, received_epoch } => {
                "writer is fenced: current epoch "@ + decimal(expected_epoch as nat)
                    + ", received "@ + decimal(received_epoch as nat)
            },
            ControlError::LeaseExpired => "writer lease has expired"@,
            ControlError::LeaseLimitReached => "lease state capacity reached"@,
            ControlError::ConcurrentLeaseChange => "lease changed while finality was pending"@,
            ControlError::Clock => "system clock is before or exceeds Unix time"@,
            ControlError::State(text) => "invalid lease state: "@ + text@,
            ControlError::Io(text) => text@,
            ControlError::Consensus(text) => "Blossom consensus failed: "@ + text@,
        }
    }

    /// Describes the failure.
    pub fn message(&self) -> (text: String)
        ensures
            text@ == self.describes(),
    {
        match self {
            ControlError::InvalidConfig(text) => prefixed("invalid control config: ", text),
            ControlError::InvalidClaim(text) => prefixed("invalid lease claim: ", text),
            ControlError::InvalidCertificate(text) => prefixed(
                "invalid Blossom lease certificate: ",
                text,
            ),
            ControlError::NoLease(partition) => {
                let mut text = "no finalized lease for ".to_string();
                append_decimal(&mut text, partition.topic_id.0);
                text.append("/");
                append_decimal(&mut text, partition.partition_id.0 as u128);
                text
            },
            ControlError::Fenced { expected_epoch, received_epoch } => {
                let mut text = "writer is fenced: current epoch ".to_string();
                append_decimal(&mut text, *expected_epoch as u128);
                text.append(", received ");
                append_decimal(&mut text, *received_epoch as u128);
                text
            },
            ControlError::LeaseExpired => "writer lease has expired".to_string(),
            ControlError::LeaseLimitReached => "lease state capacity reached".to_string(),
            ControlError::ConcurrentLeaseChange => {
                "lease changed while finality was pending".to_string()
            },
            ControlError::Clock => "system clock is before or exceeds Unix time".to_string(),
            ControlError::State(text) => prefixed("invalid lease state: ", text),
            ControlError::Io(text) => text.clone(),
            ControlError::Consensus(text) => prefixed("Blossom consensus failed: ", text),
        }
    }
}

fn prefixed(before: &str, text: &String) -> (all: String)
    ensures
        all@ == before@ + text@,
{
    let mut all = before.to_string();
    all.append(text.as_str());
    all
}

/// A damaged or foreign state.
pub fn state_error(text: &str) -> (error: ControlError)
    ensures
        error@ == ControlFault::State(text@),
{
    ControlError::State(text.to_string())
}

/// What a node claims for one partition.
#[derive(Debug, Clone, Copy, PartialEq, Eq)]
pub struct LeaseClaim {
    pub cluster_id: ClusterId,
    pub topic_partition: TopicPartition,
    pub leader_id: NodeId,
    pub leader_epoch: u64,
    pub expires_at_unix_ms: u64,
    pub previous_epoch_hash: [u8; 32],
}

pub ghost struct ClaimModel {
    pub cluster_id: ClusterId,
    pub topic_partition: TopicPartition,
    pub leader_id: NodeId,
    pub leader_epoch: u64,
    pub expires_at_unix_ms: u64,
    pub previous_epoch_hash: Seq<u8>,
}

impl View for LeaseClaim {
    type V = ClaimModel;

    open spec fn view(&self) -> ClaimModel {
        ClaimModel {
            cluster_id: self.cluster_id,
            topic_partition: self.topic_partition,
            leader_id: self.leader_id,
            leader_epoch: self.leader_epoch,
            expires_at_unix_ms: self.expires_at_unix_ms,
            previous_epoch_hash: self.previous_epoch_hash@,
        }
    }
}

/// The bytes that open every claim.
pub open spec fn claim_domain() -> Seq<u8> {
    encode_utf8("shard-stream.blossom.lease-claim.v1"@)
}

/// The bytes that open the preimage of every group identity.
pub open spec fn group_domain() -> Seq<u8> {
    encode_utf8("shard-stream.blossom.lease-group.v1"@)
}

/// The group of a partition in a cluster.
pub open spec fn group_of(cluster_id: ClusterId, topic_partition: TopicPartition) -> Seq<u8> {
    blake3_of(
        group_domain() + le_bytes(cluster_id.0 as nat, 16) + le_bytes(
            topic_partition.topic_id.0 as nat,
            16,
        ) + le_bytes(topic_partition.partition_id.0 as nat, 4),
    )
}

impl ClaimModel {
    /// The one byte form of a claim.
    pub open spec fn bytes(self) -> Seq<u8> {
        claim_domain() + le_bytes(self.cluster_id.0 as nat, 16) + le_bytes(
            self.topic_partition.topic_id.0 as nat,
            16,
        ) + le_bytes(self.topic_partition.partition_id.0 as nat, 4) + le_bytes(
            self.leader_id.0 as nat,
            16,
        ) + le_bytes(self.leader_epoch as nat, 8) + le_bytes(self.expires_at_unix_ms as nat, 8)
            + self.previous_epoch_hash
    }

    pub open spec fn digest(self) -> Seq<u8> {
        blake3_of(self.bytes())
    }

    pub open spec fn group(self) -> Seq<u8> {
        group_of(self.cluster_id, self.topic_partition)
    }
}

/// Appends bytes.
pub fn push_bytes(out: &mut Vec<u8>, bytes: &[u8])
    ensures
        final(out)@ == old(out)@ + bytes@,
{
    let mut index: usize = 0;
    proof {
        assert(out@ =~= old(out)@ + bytes@.take(0));
    }
    while index < bytes.len()
        invariant
            index <= bytes@.len(),
            out@ == old(out)@ + bytes@.take(index as int),
        decreases bytes@.len() - index,
    {
        out.push(bytes[index]);
        index += 1;
        proof {
            assert(out@ =~= old(out)@ + bytes@.take(index as int));
        }
    }
    proof {
        assert(bytes@.take(index as int) =~= bytes@);
    }
}

/// Appends the bytes of a digest.
pub fn push_digest(out: &mut Vec<u8>, digest: &[u8; 32])
    ensures
        final(out)@ == old(out)@ + digest@,
{
    let mut index: usize = 0;
    proof {
        assert(out@ =~= old(out)@ + digest@.take(0));
    }
    while index < 32
        invariant
            index <= 32,
            digest@.len() == 32,
            out@ == old(out)@ + digest@.take(index as int),
        decreases 32 - index,
    {
        out.push(digest[index]);
        index += 1;
        proof {
            assert(out@ =~= old(out)@ + digest@.take(index as int));
        }
    }
    proof {
        assert(digest@.take(index as int) =~= digest@);
    }
}

/// Whether two digests are the same.
pub fn same_digest(one: &[u8; 32], other: &[u8; 32]) -> (same: bool)
    ensures
        same == (one@ == other@),
{
    let mut index: usize = 0;
    while index < 32
        invariant
            index <= 32,
            one@.len() == 32,
            other@.len() == 32,
            forall|i: int| 0 <= i < index ==> one@[i] == other@[i],
        decreases 32 - index,
    {
        if one[index] != other[index] {
            return false;
        }
        index += 1;
    }
    proof {
        assert(one@ =~= other@);
    }
    true
}

/// Thirty-two zero bytes.
pub open spec fn zero_digest() -> Seq<u8> {
    Seq::new(32, |i: int| 0u8)
}

/// Whether a digest is all zero.
pub fn is_zero_digest(digest: &[u8; 32]) -> (zero: bool)
    ensures
        zero == (digest@ == zero_digest()),
{
    let zero: [u8; 32] = [0u8; 32];
    proof {
        assert(zero@ =~= zero_digest());
    }
    same_digest(digest, &zero)
}

impl LeaseClaim {
    /// The one byte form of the claim.
    #[must_use]
    pub fn canonical_bytes(&self) -> (bytes: Vec<u8>)
        ensures
            bytes@ == self@.bytes(),
    {
        let mut bytes: Vec<u8> = Vec::new();
        push_bytes(&mut bytes, "shard-stream.blossom.lease-claim.v1".as_bytes());
        proof {
            assert(bytes@ =~= claim_domain());
        }
        push_le(&mut bytes, self.cluster_id.0, 16);
        push_le(&mut bytes, self.topic_partition.topic_id.0, 16);
        push_le(&mut bytes, self.topic_partition.partition_id.0 as u128, 4);
        push_le(&mut bytes, self.leader_id.0, 16);
        push_le(&mut bytes, self.leader_epoch as u128, 8);
        push_le(&mut bytes, self.expires_at_unix_ms as u128, 8);
        push_digest(&mut bytes, &self.previous_epoch_hash);
        bytes
    }

    /// The digest that a certificate finalizes.
    #[must_use]
    pub fn digest(&self) -> (digest: [u8; 32])
        ensures
            digest@ == self@.digest(),
    {
        let bytes = self.canonical_bytes();
        blake3_hash(bytes.as_slice())
    }

    /// The group that the claim belongs to.
    #[must_use]
    pub fn group_id(&self) -> (group: [u8; 32])
        ensures
            group@ == self@.group(),
    {
        lease_group_id(self.cluster_id, self.topic_partition)
    }
}

/// The group of a partition in a cluster.
#[must_use]
pub fn lease_group_id(cluster_id: ClusterId, topic_partition: TopicPartition) -> (group: [u8; 32])
    ensures
        group@ == group_of(cluster_id, topic_partition),
{
    let mut bytes: Vec<u8> = Vec::new();
    push_bytes(&mut bytes, "shard-stream.blossom.lease-group.v1".as_bytes());
    proof {
        assert(bytes@ =~= group_domain());
    }
    push_le(&mut bytes, cluster_id.0, 16);
    push_le(&mut bytes, topic_partition.topic_id.0, 16);
    push_le(&mut bytes, topic_partition.partition_id.0 as u128, 4);
    blake3_hash(bytes.as_slice())
}

/// Proof that an exact lease claim was included in a finalized Blossom epoch.
///
/// Whoever constructs it must have verified validator signatures, an exact
/// trusted validator generation, the contiguous epoch hash chain, and claim
/// inclusion.
#[derive(Debug, Clone, Copy, PartialEq, Eq)]
pub struct BlossomLeaseCertificate {
    pub group_id: [u8; 32],
    pub epoch_nonce: u64,
    pub epoch_hash: [u8; 32],
    pub claim_digest: [u8; 32],
    pub validator_generation: u64,
}

pub ghost struct CertificateModel {
    pub group_id: Seq<u8>,
    pub epoch_nonce: u64,
    pub epoch_hash: Seq<u8>,
    pub claim_digest: Seq<u8>,
    pub validator_generation: u64,
}

impl View for BlossomLeaseCertificate {
    type V = CertificateModel;

    open spec fn view(&self) -> CertificateModel {
        CertificateModel {
            group_id: self.group_id@,
            epoch_nonce: self.epoch_nonce,
            epoch_hash: self.epoch_hash@,
            claim_digest: self.claim_digest@,
            validator_generation: self.validator_generation,
        }
    }
}

/// A claim with the certificate that finalized it.
#[derive(Debug, Clone, Copy, PartialEq, Eq)]
pub struct FinalizedLease {
    pub claim: LeaseClaim,
    pub certificate: BlossomLeaseCertificate,
}

pub ghost struct LeaseModel {
    pub claim: ClaimModel,
    pub certificate: CertificateModel,
}

impl View for FinalizedLease {
    type V = LeaseModel;

    open spec fn view(&self) -> LeaseModel {
        LeaseModel { claim: self.claim@, certificate: self.certificate@ }
    }
}

impl LeaseModel {
    /// The certificate finalizes exactly the claim.
    pub open spec fn certified(self) -> bool {
        &&& self.certificate.group_id == self.claim.group()
        &&& self.certificate.claim_digest == self.claim.digest()
        &&& self.certificate.epoch_nonce > 0
        &&& self.certificate.epoch_hash != zero_digest()
        &&& self.certificate.validator_generation > 0
    }

    /// Digests are thirty-two bytes long.
    pub open spec fn sized(self) -> bool {
        &&& self.claim.previous_epoch_hash.len() == 32
        &&& self.certificate.group_id.len() == 32
        &&& self.certificate.epoch_hash.len() == 32
        &&& self.certificate.claim_digest.len() == 32
    }

    /// The stored form of a lease: everything but the cluster, which the state names once.
    pub open spec fn bytes(self) -> Seq<u8> {
        le_bytes(self.claim.topic_partition.topic_id.0 as nat, 16) + le_bytes(
            self.claim.topic_partition.partition_id.0 as nat,
            4,
        ) + le_bytes(self.claim.leader_id.0 as nat, 16) + le_bytes(
            self.claim.leader_epoch as nat,
            8,
        ) + le_bytes(self.claim.expires_at_unix_ms as nat, 8) + self.claim.previous_epoch_hash
            + self.certificate.group_id + le_bytes(self.certificate.epoch_nonce as nat, 8)
            + self.certificate.epoch_hash + self.certificate.claim_digest + le_bytes(
            self.certificate.validator_generation as nat,
            8,
        )
    }
}

/// Bytes of one stored lease.
pub const LEASE_BYTES: usize = 196;

/// The lease that stands at `at` in a state of a cluster.
pub open spec fn lease_at(body: Seq<u8>, at: int, cluster_id: ClusterId) -> LeaseModel {
    LeaseModel {
        claim: ClaimModel {
            cluster_id,
            topic_partition: TopicPartition {
                topic_id: TopicId(le_value(body.subrange(at, at + 16)) as u128),
                partition_id: LogicalPartitionId(le_value(body.subrange(at + 16, at + 20)) as u32),
            },
            leader_id: NodeId(le_value(body.subrange(at + 20, at + 36)) as u128),
            leader_epoch: le_value(body.subrange(at + 36, at + 44)) as u64,
            expires_at_unix_ms: le_value(body.subrange(at + 44, at + 52)) as u64,
            previous_epoch_hash: body.subrange(at + 52, at + 84),
        },
        certificate: CertificateModel {
            group_id: body.subrange(at + 84, at + 116),
            epoch_nonce: le_value(body.subrange(at + 116, at + 124)) as u64,
            epoch_hash: body.subrange(at + 124, at + 156),
            claim_digest: body.subrange(at + 156, at + 188),
            validator_generation: le_value(body.subrange(at + 188, at + 196)) as u64,
        },
    }
}

/// Appends the stored form of a lease.
pub fn encode_lease(bytes: &mut Vec<u8>, lease: &FinalizedLease)
    ensures
        final(bytes)@ == old(bytes)@ + lease@.bytes(),
{
    let ghost start = bytes@;
    push_le(bytes, lease.claim.topic_partition.topic_id.0, 16);
    push_le(bytes, lease.claim.topic_partition.partition_id.0 as u128, 4);
    push_le(bytes, lease.claim.leader_id.0, 16);
    push_le(bytes, lease.claim.leader_epoch as u128, 8);
    push_le(bytes, lease.claim.expires_at_unix_ms as u128, 8);
    push_digest(bytes, &lease.claim.previous_epoch_hash);
    push_digest(bytes, &lease.certificate.group_id);
    push_le(bytes, lease.certificate.epoch_nonce as u128, 8);
    push_digest(bytes, &lease.certificate.epoch_hash);
    push_digest(bytes, &lease.certificate.claim_digest);
    push_le(bytes, lease.certificate.validator_generation as u128, 8);
    proof {
        assert(bytes@ =~= start + lease@.bytes());
    }
}

/// A stored lease is read back as it was written.
pub proof fn stored_leases_read_back(prefix: Seq<u8>, lease: LeaseModel, suffix: Seq<u8>)
    requires
        lease.sized(),
    ensures
        lease.bytes().len() == LEASE_BYTES,
        lease_at(prefix + lease.bytes() + suffix, prefix.len() as int, lease.claim.cluster_id)
            == lease,
{
    lemma_le_bounds();
    let c = lease.claim;
    let t = lease.certificate;
    le_bytes_read_back(c.topic_partition.topic_id.0 as nat, 16);
    le_bytes_read_back(c.topic_partition.partition_id.0 as nat, 4);
    le_bytes_read_back(c.leader_id.0 as nat, 16);
    le_bytes_read_back(c.leader_epoch as nat, 8);
    le_bytes_read_back(c.expires_at_unix_ms as nat, 8);
    le_bytes_read_back(t.epoch_nonce as nat, 8);
    le_bytes_read_back(t.validator_generation as nat, 8);
    let body = prefix + lease.bytes() + suffix;
    let at = prefix.len() as int;
    assert(body.subrange(at, at + 16) =~= le_bytes(c.topic_partition.topic_id.0 as nat, 16));
    assert(body.subrange(at + 16, at + 20) =~= le_bytes(
        c.topic_partition.partition_id.0 as nat,
        4,
    ));
    assert(body.subrange(at + 20, at + 36) =~= le_bytes(c.leader_id.0 as nat, 16));
    assert(body.subrange(at + 36, at + 44) =~= le_bytes(c.leader_epoch as nat, 8));
    assert(body.subrange(at + 44, at + 52) =~= le_bytes(c.expires_at_unix_ms as nat, 8));
    assert(body.subrange(at + 52, at + 84) =~= c.previous_epoch_hash);
    assert(body.subrange(at + 84, at + 116) =~= t.group_id);
    assert(body.subrange(at + 116, at + 124) =~= le_bytes(t.epoch_nonce as nat, 8));
    assert(body.subrange(at + 124, at + 156) =~= t.epoch_hash);
    assert(body.subrange(at + 156, at + 188) =~= t.claim_digest);
    assert(body.subrange(at + 188, at + 196) =~= le_bytes(t.validator_generation as nat, 8));
}

/// A cursor over a lease state.
pub struct Decoder<'a> {
    pub bytes: &'a Vec<u8>,
    pub cursor: usize,
}

impl<'a> Decoder<'a> {
    pub open spec fn wf(self) -> bool {
        self.cursor <= self.bytes@.len()
    }

    pub fn new(bytes: &'a Vec<u8>) -> (decoder: Self)
        ensures
            decoder.wf(),
            decoder.bytes == bytes,
            decoder.cursor == 0,
    {
        Decoder { bytes, cursor: 0 }
    }

    /// Moves past the next `count` bytes and gives where they start.
    pub fn take(&mut self, count: usize) -> (result: ControlResult<usize>)
        requires
            old(self).wf(),
        ensures
            final(self).wf(),
            final(self).bytes == old(self).bytes,
            match result {
                Ok(start) => {
                    &&& start == old(self).cursor
                    &&& start + count <= old(self).bytes@.len()
                    &&& final(self).cursor == start + count
                },
                Err(error) => {
                    &&& final(self).cursor == old(self).cursor
                    &&& old(self).cursor + count > old(self).bytes@.len()
                    &&& error@ == (if old(self).cursor + count > usize::MAX {
                        ControlFault::State("lease state offset overflow"@)
                    } else {
                        ControlFault::State("lease state is truncated"@)
                    })
                },
            },
    {
        let len: usize = self.bytes.len();
        let end: usize = match self.cursor.checked_add(count) {
            Some(end) => end,
            None => {
                return Err(state_error("lease state offset overflow"));
            },
        };
        if end > len {
            return Err(state_error("lease state is truncated"));
        }
        let start: usize = self.cursor;
        self.cursor = end;
        Ok(start)
    }

    /// Reads the next number of `count` bytes.
    pub fn number(&mut self, count: usize) -> (result: ControlResult<u128>)
        requires
            old(self).wf(),
            count <= 16,
            old(self).bytes@.len() <= usize::MAX - 16,
        ensures
            final(self).wf(),
            final(self).bytes == old(self).bytes,
            match result {
                Ok(value) => {
                    let at = old(self).cursor as int;
                    &&& at + count <= old(self).bytes@.len()
                    &&& final(self).cursor == at + count
                    &&& value == le_value(old(self).bytes@.subrange(at, at + count))
                    &&& value < le_bound(count as nat)
                },
                Err(error) => {
                    &&& old(self).cursor + count > old(self).bytes@.len()
                    &&& error@ == ControlFault::State("lease state is truncated"@)
                },
            },
    {
        match self.take(count) {
            Err(error) => Err(error),
            Ok(start) => {
                proof {
                    le_value_writes_back(
                        self.bytes@.subrange(start as int, start + count),
                    );
                }
                Ok(read_le(self.bytes, start, start + count))
            },
        }
    }

    /// Reads the next thirty-two bytes.
    pub fn array(&mut self) -> (result: ControlResult<[u8; 32]>)
        requires
            old(self).wf(),
            old(self).bytes@.len() <= usize::MAX - 32,
        ensures
            final(self).wf(),
            final(self).bytes == old(self).bytes,
            match result {
                Ok(value) => {
                    let at = old(self).cursor as int;
                    &&& at + 32 <= old(self).bytes@.len()
                    &&& final(self).cursor == at + 32
                    &&& value@ == old(self).bytes@.subrange(at, at + 32)
                },
                Err(error) => {
                    &&& old(self).cursor + 32 > old(self).bytes@.len()
                    &&& error@ == ControlFault::State("lease state is truncated"@)
                },
            },
    {
        let start: usize = match self.take(32) {
            Err(error) => {
                return Err(error);
            },
            Ok(start) => start,
        };
        Ok(digest_at(self.bytes, start))
    }

    pub fn is_empty(&self) -> (empty: bool)
        ensures
            empty == (self.cursor == self.bytes@.len()),
    {
        self.cursor == self.bytes.len()
    }
}

/// Thirty-two bytes from `start` on.
pub fn digest_at(bytes: &Vec<u8>, start: usize) -> (digest: [u8; 32])
    requires
        start + 32 <= bytes@.len(),
    ensures
        digest@ == bytes@.subrange(start as int, start + 32),
{
    let len: usize = bytes.len();
    let mut digest: [u8; 32] = [0u8; 32];
    let mut index: usize = 0;
    while index < 32
        invariant
            index <= 32,
            len == bytes@.len(),
            start + 32 <= len,
            digest@.len() == 32,
            forall|i: int| 0 <= i < index ==> digest@[i] == bytes@[start + i],
        decreases 32 - index,
    {
        digest[index] = bytes[start + index];
        index += 1;
    }
    proof {
        assert(digest@ =~= bytes@.subrange(start as int, start + 32));
    }
    digest
}

/// Reads the next lease.
pub fn decode_lease(decoder: &mut Decoder<'_>, cluster_id: ClusterId) -> (result: ControlResult<
    FinalizedLease,
>)
    requires
        old(decoder).wf(),
        old(decoder).bytes@.len() <= usize::MAX - LEASE_BYTES,
    ensures
        final(decoder).wf(),
        final(decoder).bytes == old(decoder).bytes,
        match result {
            Ok(lease) => {
                &&& old(decoder).cursor + LEASE_BYTES <= old(decoder).bytes@.len()
                &&& final(decoder).cursor == old(decoder).cursor + LEASE_BYTES
                &&& lease@ == lease_at(
                    old(decoder).bytes@,
                    old(decoder).cursor as int,
                    cluster_id,
                )
            },
            Err(error) => {
                &&& old(decoder).cursor + LEASE_BYTES > old(decoder).bytes@.len()
                &&& error@ == ControlFault::State("lease state is truncated"@)
            },
        },
{
    proof {
        lemma_le_bounds();
    }
    let topic_id: u128 = match decoder.number(16) {
        Err(error) => {
            return Err(error);
        },
        Ok(value) => value,
    };
    let partition_id: u32 = match decoder.number(4) {
        Err(error) => {
            return Err(error);
        },
        Ok(value) => value as u32,
    };
    let leader_id: u128 = match decoder.number(16) {
        Err(error) => {
            return Err(error);
        },
        Ok(value) => value,
    };
    let leader_epoch: u64 = match decoder.number(8) {
        Err(error) => {
            return Err(error);
        },
        Ok(value) => value as u64,
    };
    let expires_at_unix_ms: u64 = match decoder.number(8) {
        Err(error) => {
            return Err(error);
        },
        Ok(value) => value as u64,
    };
    let previous_epoch_hash = match decoder.array() {
        Err(error) => {
            return Err(error);
        },
        Ok(value) => value,
    };
    let group_id = match decoder.array() {
        Err(error) => {
            return Err(error);
        },
        Ok(value) => value,
    };
    let epoch_nonce: u64 = match decoder.number(8) {
        Err(error) => {
            return Err(error);
        },
        Ok(value) => value as u64,
    };
    let epoch_hash = match decoder.array() {
        Err(error) => {
            return Err(error);
        },
        Ok(value) => value,
    };
    let claim_digest = match decoder.array() {
        Err(error) => {
            return Err(error);
        },
        Ok(value) => value,
    };
    let validator_generation: u64 = match decoder.number(8) {
        Err(error) => {
            return Err(error);
        },
        Ok(value) => value as u64,
    };
    Ok(
        FinalizedLease {
            claim: LeaseClaim {
                cluster_id,
                topic_partition: TopicPartition {
                    topic_id: TopicId(topic_id),
                    partition_id: LogicalPartitionId(partition_id),
                },
                leader_id: NodeId(leader_id),
                leader_epoch,
                expires_at_unix_ms,
                previous_epoch_hash,
            },
            certificate: BlossomLeaseCertificate {
                group_id,
                epoch_nonce,
                epoch_hash,
                claim_digest,
                validator_generation,
            },
        },
    )
}

/// Claims that differ in any field have different byte forms.
pub proof fn claims_are_unambiguous(one: ClaimModel, other: ClaimModel)
    requires
        one.previous_epoch_hash.len() == 32,
        other.previous_epoch_hash.len() == 32,
        one.bytes() == other.bytes(),
    ensures
        one == other,
{
    lemma_le_bounds();
    lemma_claim_fields(one);
    lemma_claim_fields(other);
}

/// Every field of a claim can be read off its byte form.
proof fn lemma_claim_fields(claim: ClaimModel)
    requires
        claim.previous_epoch_hash.len() == 32,
    ensures
        ({
            let b = claim.bytes();
            let d = claim_domain().len() as int;
            &&& b.len() == d + 100
            &&& le_value(b.subrange(d, d + 16)) == claim.cluster_id.0
            &&& le_value(b.subrange(d + 16, d + 32)) == claim.topic_partition.topic_id.0
            &&& le_value(b.subrange(d + 32, d + 36)) == claim.topic_partition.partition_id.0
            &&& le_value(b.subrange(d + 36, d + 52)) == claim.leader_id.0
            &&& le_value(b.subrange(d + 52, d + 60)) == claim.leader_epoch
            &&& le_value(b.subrange(d + 60, d + 68)) == claim.expires_at_unix_ms
            &&& b.subrange(d + 68, d + 100) == claim.previous_epoch_hash
        }),
{
    lemma_le_bounds();
    let b = claim.bytes();
    let d = claim_domain().len() as int;
    le_bytes_read_back(claim.cluster_id.0 as nat, 16);
    le_bytes_read_back(claim.topic_partition.topic_id.0 as nat, 16);
    le_bytes_read_back(claim.topic_partition.partition_id.0 as nat, 4);
    le_bytes_read_back(claim.leader_id.0 as nat, 16);
    le_bytes_read_back(claim.leader_epoch as nat, 8);
    le_bytes_read_back(claim.expires_at_unix_ms as nat, 8);
    assert(b.subrange(d, d + 16) =~= le_bytes(claim.cluster_id.0 as nat, 16));
    assert(b.subrange(d + 16, d + 32) =~= le_bytes(claim.topic_partition.topic_id.0 as nat, 16));
    assert(b.subrange(d + 32, d + 36) =~= le_bytes(
        claim.topic_partition.partition_id.0 as nat,
        4,
    ));
    assert(b.subrange(d + 36, d + 52) =~= le_bytes(claim.leader_id.0 as nat, 16));
    assert(b.subrange(d + 52, d + 60) =~= le_bytes(claim.leader_epoch as nat, 8));
    assert(b.subrange(d + 60, d + 68) =~= le_bytes(claim.expires_at_unix_ms as nat, 8));
    assert(b.subrange(d + 68, d + 100) =~= claim.previous_epoch_hash);
}

} // verus!
