use std::cell::Cell;

use shard_stream::control::{
    BlossomLeaseConsensus, LeaseCoordinator, LeaseCoordinatorConfig,
};
use shard_stream::ids::{LogicalPartitionId, TopicId, TopicPartition};
use shard_stream::lease::{
    lease_group_id, BlossomLeaseCertificate, ClusterId, ControlError, ControlResult, FinalizedLease,
    LeaseClaim, NodeId,
};
use shard_stream::time::Duration;

const NOW: u64 = 1_700_000_000_000;

struct TestConsensus {
    next_nonce: Cell<u64>,
}

impl TestConsensus {
    fn new() -> Self {
        Self { next_nonce: Cell::new(1) }
    }
}

impl BlossomLeaseConsensus for TestConsensus {
    fn commit_lease(
        &self,
        group_id: [u8; 32],
        claim_payload: &[u8],
        _deadline: Duration,
    ) -> ControlResult<BlossomLeaseCertificate> {
        let nonce = self.next_nonce.get();
        self.next_nonce.set(nonce + 1);
        let mut epoch = blake3::Hasher::new();
        epoch.update(b"shard-stream.test-finalized-epoch.v1");
        epoch.update(&nonce.to_le_bytes());
        epoch.update(claim_payload);
        Ok(BlossomLeaseCertificate {
            group_id,
            epoch_nonce: nonce,
            epoch_hash: *epoch.finalize().as_bytes(),
            claim_digest: *blake3::hash(claim_payload).as_bytes(),
            validator_generation: 1,
        })
    }
}

fn config() -> LeaseCoordinatorConfig {
    LeaseCoordinatorConfig {
        cluster_id: ClusterId(7),
        node_id: NodeId(9),
        state_file: "leases.state".into(),
        consensus_deadline: Duration::from_secs(1),
        max_lease_duration: Duration::from_secs(60),
        max_leases: 16,
    }
}

fn partition() -> TopicPartition {
    TopicPartition::new(TopicId::new(42), LogicalPartitionId::new(3))
}

fn future_expiry() -> u64 {
    NOW + 30_000
}

fn acquire(
    coordinator: &mut LeaseCoordinator,
    consensus: &TestConsensus,
    epoch: u64,
    kept: &mut Vec<u8>,
) -> ControlResult<FinalizedLease> {
    let pending =
        coordinator.acquire_or_renew(consensus, partition(), epoch, future_expiry(), NOW)?;
    *kept = pending.bytes.clone();
    Ok(coordinator.activate(pending))
}

#[test]
fn finalized_lease_fences_wrong_epochs_and_survives_restart() {
    let mut kept = Vec::new();
    let mut coordinator = LeaseCoordinator::open(config(), None).expect("coordinator");
    let first = acquire(&mut coordinator, &TestConsensus::new(), 4, &mut kept).expect("lease");
    assert_eq!(first.claim.digest(), first.certificate.claim_digest);
    coordinator.check_write(partition(), 4, NOW).expect("write");
    assert!(matches!(
        coordinator.check_write(partition(), 3, NOW),
        Err(ControlError::Fenced { .. })
    ));

    let recovered = LeaseCoordinator::open(config(), Some(&kept)).expect("recovered");
    recovered
        .check_write(partition(), 4, NOW)
        .expect("recovered write");
    assert_eq!(
        recovered.lease(partition()).expect("lease").certificate,
        first.certificate
    );
}

#[test]
fn renewals_are_hash_linked_and_monotonic() {
    let mut kept = Vec::new();
    let consensus = TestConsensus::new();
    let mut coordinator = LeaseCoordinator::open(config(), None).expect("coordinator");
    let first = acquire(&mut coordinator, &consensus, 2, &mut kept).expect("first");
    let renewed = acquire(&mut coordinator, &consensus, 2, &mut kept).expect("renewed");
    assert_eq!(
        renewed.claim.previous_epoch_hash,
        first.certificate.epoch_hash
    );
    assert!(renewed.certificate.epoch_nonce > first.certificate.epoch_nonce);
    assert!(matches!(
        acquire(&mut coordinator, &consensus, 1, &mut kept),
        Err(ControlError::InvalidClaim(_))
    ));
}

#[test]
fn corrupt_persisted_state_fails_closed() {
    let mut kept = Vec::new();
    let mut coordinator = LeaseCoordinator::open(config(), None).expect("coordinator");
    acquire(&mut coordinator, &TestConsensus::new(), 1, &mut kept).expect("lease");

    kept[20] ^= 0x80;
    assert!(matches!(
        LeaseCoordinator::open(config(), Some(&kept)),
        Err(ControlError::State(_))
    ));
}

#[test]
fn canonical_claim_is_stable_and_group_is_partition_scoped() {
    let claim = LeaseClaim {
        cluster_id: ClusterId(1),
        topic_partition: partition(),
        leader_id: NodeId(2),
        leader_epoch: 3,
        expires_at_unix_ms: 4,
        previous_epoch_hash: [5; 32],
    };
    assert_eq!(
        claim.digest(),
        *blake3::hash(&claim.canonical_bytes()).as_bytes()
    );
    let other = TopicPartition::new(TopicId::new(42), LogicalPartitionId::new(4));
    assert_ne!(claim.group_id(), lease_group_id(claim.cluster_id, other));
}

#[test]
fn leases_end_when_they_expire() {
    let mut kept = Vec::new();
    let mut coordinator = LeaseCoordinator::open(config(), None).expect("coordinator");
    acquire(&mut coordinator, &TestConsensus::new(), 4, &mut kept).expect("lease");
    assert_eq!(
        coordinator.check_write(partition(), 4, future_expiry()),
        Err(ControlError::LeaseExpired)
    );
    let other = TopicPartition::new(TopicId::new(42), LogicalPartitionId::new(4));
    assert_eq!(
        coordinator.check_write(other, 4, NOW),
        Err(ControlError::NoLease(other))
    );
    assert!(coordinator.lease(other).is_none());
}

#[test]
fn claims_that_cannot_stand_are_refused_before_consensus() {
    let coordinator = LeaseCoordinator::open(config(), None).expect("coordinator");
    let refused = |epoch, expiry| match coordinator.propose(partition(), epoch, expiry, NOW) {
        Err(error) => error,
        Ok(_) => panic!("claim must be refused"),
    };
    assert_eq!(
        refused(0, future_expiry()),
        ControlError::InvalidClaim("leader epoch must be nonzero".into())
    );
    let outside = ControlError::InvalidClaim(
        "lease expiry is elapsed or exceeds the configured maximum".into(),
    );
    assert_eq!(refused(4, NOW), outside);
    assert_eq!(refused(4, NOW + 60_001), outside);
    assert!(coordinator
        .propose(partition(), 4, NOW + 60_000, NOW)
        .is_ok());
    let boundless = LeaseCoordinator::open(
        LeaseCoordinatorConfig {
            max_lease_duration: Duration::from_secs(u64::MAX),
            ..config()
        },
        None,
    )
    .expect("coordinator");
    assert!(matches!(
        boundless.propose(partition(), 4, future_expiry(), NOW),
        Err(ControlError::Clock)
    ));
}

#[test]
fn certificates_are_checked_against_their_claim() {
    let coordinator = LeaseCoordinator::open(config(), None).expect("coordinator");
    let proposal = coordinator
        .propose(partition(), 4, future_expiry(), NOW)
        .expect("proposal");
    let consensus = TestConsensus::new();
    let good = consensus
        .commit_lease(
            proposal.claim.group_id(),
            &proposal.claim.canonical_bytes(),
            Duration::from_secs(1),
        )
        .expect("certificate");
    assert!(coordinator.certify(&proposal, good).is_ok());
    let mut wrong = good;
    wrong.claim_digest[0] ^= 1;
    assert!(matches!(
        coordinator.certify(&proposal, wrong),
        Err(ControlError::InvalidCertificate(_))
    ));
    assert!(coordinator.propose(partition(), 4, NOW, NOW).is_err());
    assert!(coordinator.propose(partition(), 4, NOW + 60_001, NOW).is_err());
    assert!(LeaseCoordinator::open(
        LeaseCoordinatorConfig { max_leases: 0, ..config() },
        None
    )
    .is_err());
}
