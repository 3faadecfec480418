//! What holders of leases, and those that they keep out, may count on.
use vstd::prelude::*;

use crate::bytes::{le_bytes_read_back, lemma_le_bounds};
use crate::control::{
    validate_certificate, validate_epoch_transition, LeaseCoordinator, LeaseCoordinatorConfig,
    LeaseProposal,
};
use crate::ids::TopicPartition;
use crate::lease::{
    claim_domain, is_zero_digest, lease_group_id, BlossomLeaseCertificate, ClaimModel,
    ControlFault, ControlResult, FinalizedLease, LeaseClaim, NodeId,
};

verus! {

/// A claim's bytes say everything about it: two claims with the same bytes are the same.
pub proof fn claims_are_told_apart_by_their_bytes(
    one: LeaseClaim,
    other: LeaseClaim,
    bytes: Vec<u8>,
    other_bytes: Vec<u8>,
)
    requires
        call_ensures(LeaseClaim::canonical_bytes, (&one,), bytes),
        call_ensures(LeaseClaim::canonical_bytes, (&other,), other_bytes),
        bytes@ == other_bytes@,
    ensures
        one.cluster_id == other.cluster_id,
        one.topic_partition == other.topic_partition,
        one.leader_id == other.leader_id,
        one.leader_epoch == other.leader_epoch,
        one.expires_at_unix_ms == other.expires_at_unix_ms,
        one.previous_epoch_hash@ == other.previous_epoch_hash@,
{
    let all = bytes@;
    lemma_claim_parts(one@);
    lemma_claim_parts(other@);
}

/// The bytes of each part of a claim stand where they belong.
proof fn lemma_claim_parts(claim: ClaimModel)
    requires
        claim.previous_epoch_hash.len() == 32,
    ensures
        ({
            let all = claim.bytes();
            let at = claim_domain().len() as int;
            &&& all.len() == at + 100
            &&& crate::bytes::le_value(all.subrange(at, at + 16)) == claim.cluster_id.0
            &&& crate::bytes::le_value(all.subrange(at + 16, at + 32))
                == claim.topic_partition.topic_id.0
            &&& crate::bytes::le_value(all.subrange(at + 32, at + 36))
                == claim.topic_partition.partition_id.0
            &&& crate::bytes::le_value(all.subrange(at + 36, at + 52)) == claim.leader_id.0
            &&& crate::bytes::le_value(all.subrange(at + 52, at + 60)) == claim.leader_epoch
            &&& crate::bytes::le_value(all.subrange(at + 60, at + 68)) == claim.expires_at_unix_ms
            &&& all.subrange(at + 68, at + 100) == claim.previous_epoch_hash
        }),
{
    lemma_le_bounds();
    let all = claim.bytes();
    let at = claim_domain().len() as int;
    le_bytes_read_back(claim.cluster_id.0 as nat, 16);
    le_bytes_read_back(claim.topic_partition.topic_id.0 as nat, 16);
    le_bytes_read_back(claim.topic_partition.partition_id.0 as nat, 4);
    le_bytes_read_back(claim.leader_id.0 as nat, 16);
    le_bytes_read_back(claim.leader_epoch as nat, 8);
    le_bytes_read_back(claim.expires_at_unix_ms as nat, 8);
    assert(all.subrange(at, at + 16) =~= crate::bytes::le_bytes(claim.cluster_id.0 as nat, 16));
    assert(all.subrange(at + 16, at + 32) =~= crate::bytes::le_bytes(
        claim.topic_partition.topic_id.0 as nat,
        16,
    ));
    assert(all.subrange(at + 32, at + 36) =~= crate::bytes::le_bytes(
        claim.topic_partition.partition_id.0 as nat,
        4,
    ));
    assert(all.subrange(at + 36, at + 52) =~= crate::bytes::le_bytes(
        claim.leader_id.0 as nat,
        16,
    ));
    assert(all.subrange(at + 52, at + 60) =~= crate::bytes::le_bytes(
        claim.leader_epoch as nat,
        8,
    ));
    assert(all.subrange(at + 60, at + 68) =~= crate::bytes::le_bytes(
        claim.expires_at_unix_ms as nat,
        8,
    ));
    assert(all.subrange(at + 68, at + 100) =~= claim.previous_epoch_hash);
}

/// A claim belongs to the group of its partition in its cluster, whatever else it says.
pub proof fn claims_share_their_partitions_group(
    claim: LeaseClaim,
    group: [u8; 32],
    own: [u8; 32],
)
    requires
        call_ensures(LeaseClaim::group_id, (&claim,), group),
        call_ensures(lease_group_id, (claim.cluster_id, claim.topic_partition), own),
    ensures
        group@ == own@,
{
}

/// A write is admitted only under a lease of this node, of exactly that epoch, that has
/// not expired; and under such a lease it is always admitted.
pub proof fn writes_need_a_current_lease(
    coordinator: LeaseCoordinator,
    topic_partition: TopicPartition,
    leader_epoch: u64,
    now: u64,
    lease: Option<FinalizedLease>,
    result: ControlResult<()>,
)
    requires
        coordinator.wf(),
        call_ensures(LeaseCoordinator::lease, (&coordinator, topic_partition), lease),
        call_ensures(
            LeaseCoordinator::check_write,
            (&coordinator, topic_partition, leader_epoch, now),
            result,
        ),
    ensures
        result is Ok <==> {
            &&& lease is Some
            &&& lease->0.claim.leader_id == coordinator.spec_config().node_id
            &&& lease->0.claim.leader_epoch == leader_epoch
            &&& now < lease->0.claim.expires_at_unix_ms
        },
        lease is None ==> result is Err && result->Err_0@ == ControlFault::NoLease(
            topic_partition,
        ),
        lease is Some && lease->0.claim.leader_epoch != leader_epoch ==> result is Err
            && result->Err_0@ == (ControlFault::Fenced {
            expected_epoch: lease->0.claim.leader_epoch,
            received_epoch: leader_epoch,
        }),
{
}

/// The lease that is found for a partition is one of the table, and is that partition's.
pub proof fn leases_are_of_their_partition(
    coordinator: LeaseCoordinator,
    topic_partition: TopicPartition,
    lease: Option<FinalizedLease>,
)
    requires
        coordinator.wf(),
        call_ensures(LeaseCoordinator::lease, (&coordinator, topic_partition), lease),
        lease is Some,
    ensures
        lease->0.claim.topic_partition == topic_partition,
        coordinator@.contains(lease->0@),
{
    crate::control::lemma_rank_bounds(coordinator@, topic_partition);
    let n = crate::control::rank(coordinator@, topic_partition) as int;
    assert(coordinator@[n] == lease->0@);
}

/// A node may go on with its own epoch or raise it; another node must raise it; where
/// there is no lease yet, any epoch will do.
pub proof fn epochs_never_go_back(
    previous: Option<FinalizedLease>,
    local_node: NodeId,
    epoch: u64,
    result: ControlResult<()>,
)
    requires
        call_ensures(validate_epoch_transition, (&previous, local_node, epoch), result),
    ensures
        previous is None ==> result is Ok,
        previous is Some && previous->0.claim.leader_id == local_node ==> (result is Ok
            <==> epoch >= previous->0.claim.leader_epoch),
        previous is Some && previous->0.claim.leader_id != local_node ==> (result is Ok
            <==> epoch > previous->0.claim.leader_epoch),
        result is Err ==> result->Err_0@ is InvalidClaim,
{
}

/// A certificate is accepted exactly when it finalizes that claim in that claim's group,
/// in an epoch that exists, and goes on from the lease before it; a first claim has no
/// predecessor.
pub proof fn certificates_finalize_their_claim(
    claim: LeaseClaim,
    previous: Option<FinalizedLease>,
    certificate: BlossomLeaseCertificate,
    digest: [u8; 32],
    group: [u8; 32],
    no_epoch: bool,
    no_predecessor: bool,
    result: ControlResult<()>,
)
    requires
        call_ensures(LeaseClaim::digest, (&claim,), digest),
        call_ensures(LeaseClaim::group_id, (&claim,), group),
        call_ensures(is_zero_digest, (&certificate.epoch_hash,), no_epoch),
        call_ensures(is_zero_digest, (&claim.previous_epoch_hash,), no_predecessor),
        call_ensures(validate_certificate, (&claim, &previous, &certificate), result),
    ensures
        result is Ok <==> {
            &&& certificate.claim_digest@ == digest@
            &&& certificate.group_id@ == group@
            &&& certificate.epoch_nonce > 0
            &&& certificate.validator_generation > 0
            &&& !no_epoch
            &&& previous is None ==> no_predecessor
            &&& previous is Some ==> claim.previous_epoch_hash@
                == previous->0.certificate.epoch_hash@ && certificate.epoch_nonce
                > previous->0.certificate.epoch_nonce
        },
        result is Err ==> result->Err_0@ is InvalidCertificate,
{
}

/// A digest is all zero exactly when each of its bytes is.
pub proof fn zero_digests_are_all_zero(digest: [u8; 32], zero: bool)
    requires
        call_ensures(is_zero_digest, (&digest,), zero),
    ensures
        zero <==> forall|i: int| 0 <= i < 32 ==> #[trigger] digest@[i] == 0,
{
    if forall|i: int| 0 <= i < 32 ==> #[trigger] digest@[i] == 0 {
        assert(digest@ =~= crate::lease::zero_digest());
    }
    if zero {
        assert forall|i: int| 0 <= i < 32 implies #[trigger] digest@[i] == 0 by {
            assert(crate::lease::zero_digest()[i] == 0);
        }
    }
}

/// A node claims only for itself, in its own cluster, the epoch and expiry that it was
/// asked for; an epoch of zero, an expiry that has passed or lies further ahead than
/// leases may last, and an epoch behind the last lease are refused.
pub proof fn claims_are_bounded(
    coordinator: LeaseCoordinator,
    topic_partition: TopicPartition,
    leader_epoch: u64,
    expires: u64,
    now: u64,
    lease: Option<FinalizedLease>,
    result: ControlResult<LeaseProposal>,
)
    requires
        coordinator.wf(),
        call_ensures(LeaseCoordinator::lease, (&coordinator, topic_partition), lease),
        call_ensures(
            LeaseCoordinator::propose,
            (&coordinator, topic_partition, leader_epoch, expires, now),
            result,
        ),
    ensures
        result matches Ok(proposal) ==> {
            &&& proposal.claim.cluster_id == coordinator.spec_config().cluster_id
            &&& proposal.claim.leader_id == coordinator.spec_config().node_id
            &&& proposal.claim.topic_partition == topic_partition
            &&& proposal.claim.leader_epoch == leader_epoch
            &&& proposal.claim.expires_at_unix_ms == expires
            &&& leader_epoch > 0
            &&& now < expires
            &&& (expires - now) * 1_000_000 <= coordinator.spec_config().max_lease_duration.nanos
            &&& lease is Some ==> proposal.claim.previous_epoch_hash@
                == lease->0.certificate.epoch_hash@ && leader_epoch
                >= lease->0.claim.leader_epoch && (lease->0.claim.leader_id
                != coordinator.spec_config().node_id ==> leader_epoch
                > lease->0.claim.leader_epoch)
            &&& lease is None ==> forall|i: int|
                0 <= i < 32 ==> #[trigger] proposal.claim.previous_epoch_hash@[i] == 0
        },
        leader_epoch == 0 ==> result is Err,
        expires <= now ==> result is Err,
        leader_epoch > 0 && now < expires && lease is None && (expires - now) * 1_000_000
            <= coordinator.spec_config().max_lease_duration.nanos
            && coordinator.spec_config().max_lease_duration.nanos / 1_000_000 <= u64::MAX
            ==> result is Ok,
{
    let limit = coordinator.spec_config().max_lease_duration.nanos as int;
    vstd::arithmetic::div_mod::lemma_fundamental_div_mod(limit, 1_000_000);
    if result is Ok && lease is None {
        let claim = result->Ok_0.claim;
        assert(claim@.previous_epoch_hash == crate::lease::zero_digest());
        assert forall|i: int| 0 <= i < 32 implies #[trigger] claim.previous_epoch_hash@[i] == 0 by {
            assert(crate::lease::zero_digest()[i] == 0);
        }
    }
}

/// Settings of a lease holder are accepted exactly when every limit is set, the table is
/// bounded and there is a place to keep it.
pub proof fn lease_settings_are_accepted_when_they_fit(
    config: LeaseCoordinatorConfig,
    result: ControlResult<()>,
)
    requires
        call_ensures(LeaseCoordinatorConfig::validate, (&config,), result),
    ensures
        result is Ok <==> config.consensus_deadline.nanos >= 1 && config.max_lease_duration.nanos
            >= 1 && 1 <= config.max_leases <= 1_000_000 && config.state_file@.len() > 0,
{
}

} // verus!
