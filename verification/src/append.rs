//! One append on its leader, from admission to acknowledgement.
//!
//! The steps between outside work are decided here: what may be admitted, how
//! many copies are required, when replication starts, and whether the append
//! may be acknowledged.
use vstd::prelude::*;

use crate::config::{EngineConfig, PartitionReplicationPolicy};
use crate::coordinator::{append_response, receipt, CompleteAppend, ReserveOutcome};
use crate::error::{agrees, EngineError, EngineResult, Fault};
use crate::fencing::{WriteFence, WriteFenceError};
use crate::hashing::{xxh3_128, xxh3_128_of};
use crate::durable_apply::same_context;
use crate::ids::{RecordId, TopicPartition};
use crate::lease::push_bytes;
use crate::protocol::{
    AppendRequest, AppendResponse, AtomicGroupIdentity, Durability, PayloadDigest,
    ProducerIdentity, ProducerSequence, ReplicaAppend,
};
use crate::sequencer::Reservation;

verus! {

/// What storage reports of a written batch.
#[derive(Debug, Clone, Copy, PartialEq, Eq, Structural)]
pub struct AppendDurability {
    pub durable_replicas: u32,
    pub object_durable: bool,
}

/// A failed write, and whether it certainly left nothing behind.
#[derive(Debug, PartialEq, Eq)]
pub struct AppendFailure {
    pub error: EngineError,
    pub definitely_not_written: bool,
}

impl AppendFailure {
    /// A write that was turned away before anything was stored.
    pub fn rejected(error: EngineError) -> (failure: Self)
        ensures
            failure.error == error,
            failure.definitely_not_written,
    {
        AppendFailure { error, definitely_not_written: true }
    }

    /// A write that may have been stored.
    pub fn ambiguous(error: EngineError) -> (failure: Self)
        ensures
            failure.error == error,
            !failure.definitely_not_written,
    {
        AppendFailure { error, definitely_not_written: false }
    }
}

/// An append that may ask for a place in the log.
#[derive(Debug, Clone, Copy, PartialEq, Eq, Structural)]
pub struct AdmittedAppend {
    pub topic_partition: TopicPartition,
    pub request_id: u128,
    pub durability: Durability,
    pub producer: Option<ProducerIdentity>,
    pub atomic_group: Option<AtomicGroupIdentity>,
    pub record_count: u32,
    pub payload_bytes: u64,
    pub payload_digest: PayloadDigest,
}

/// What keeps a request from being admitted, before any fence is asked.
///
/// `checked` is what the request's own check said: its record count, or why the
/// request is malformed.
pub open spec fn request_obstacle(
    config: EngineConfig,
    request: AppendRequest,
    checked: Result<u32, Seq<char>>,
    fenced: bool,
) -> Option<Fault> {
    if request.durability == Durability::Object && config.object_store_dir is None {
        Some(Fault::UnsupportedDurability("object acknowledgement requires object_store_dir"@))
    } else if checked is Err {
        Some(Fault::InvalidConfig("invalid append request: "@ + checked->Err_0))
    } else if fenced && request.leader_epoch is None {
        Some(Fault::Fenced("leader_epoch is required by the write fence"@))
    } else {
        None
    }
}

/// The append that a request becomes. Only batches that may be retried carry a digest.
pub open spec fn admitted(request: AppendRequest, record_count: u32) -> AdmittedAppend {
    AdmittedAppend {
        topic_partition: TopicPartition {
            topic_id: request.topic_id,
            partition_id: request.partition_id,
        },
        request_id: request.request_id,
        durability: request.durability,
        producer: request.producer,
        atomic_group: request.atomic_group,
        record_count,
        payload_bytes: request.payload@.len() as u64,
        payload_digest: if request.producer is Some || request.atomic_group is Some {
            PayloadDigest(xxh3_128_of(request.payload@))
        } else {
            PayloadDigest(0)
        },
    }
}

/// What a fence's verdict makes of a request.
pub open spec fn admission(
    config: EngineConfig,
    request: AppendRequest,
    checked: Result<u32, Seq<char>>,
    verdict: Option<Result<(), Seq<char>>>,
) -> Result<AdmittedAppend, Fault> {
    match request_obstacle(config, request, checked, verdict is Some) {
        Some(fault) => Err(fault),
        None => match verdict {
            Some(Err(text)) => Err(Fault::Fenced(text)),
            _ => Ok(admitted(request, checked->Ok_0)),
        },
    }
}

/// A fence's verdict with its explanation taken by its view.
pub open spec fn verdict_view(verdict: Option<Result<(), WriteFenceError>>) -> Option<
    Result<(), Seq<char>>,
> {
    match verdict {
        None => None,
        Some(Ok(())) => Some(Ok(())),
        Some(Err(error)) => Some(Err(error@)),
    }
}

/// The answer of a request's own check with its explanation taken by its view.
pub open spec fn check_view<T>(checked: Result<T, String>) -> Result<T, Seq<char>> {
    match checked {
        Ok(value) => Ok(value),
        Err(text) => Err(text@),
    }
}

fn check_request(
    config: &EngineConfig,
    request: &AppendRequest,
    checked: &Result<u32, String>,
    fenced: bool,
) -> (result: EngineResult<u32>)
    ensures
        agrees(
            result,
            match request_obstacle(*config, *request, check_view(*checked), fenced) {
                Some(fault) => Err(fault),
                None => Ok(checked->Ok_0),
            },
        ),
{
    if request.durability == Durability::Object && config.object_store_dir.is_none() {
        return Err(
            EngineError::UnsupportedDurability("object acknowledgement requires object_store_dir"),
        );
    }
    let record_count: u32 = match checked {
        Err(text) => {
            let mut message = "invalid append request: ".to_string();
            message.append(text.as_str());
            return Err(EngineError::InvalidConfig(message));
        },
        Ok(record_count) => *record_count,
    };
    if fenced && request.leader_epoch.is_none() {
        return Err(
            EngineError::Fenced("leader_epoch is required by the write fence".to_string()),
        );
    }
    Ok(record_count)
}

/// Admits a request under the answer of its own check, and under the verdict that
/// a fence gave, if there is a fence.
pub fn admit_with_verdict(
    config: &EngineConfig,
    request: &AppendRequest,
    checked: Result<u32, String>,
    verdict: Option<Result<(), WriteFenceError>>,
) -> (result: EngineResult<AdmittedAppend>)
    ensures
        agrees(result, admission(*config, *request, check_view(checked), verdict_view(verdict))),
{
    let record_count: u32 = match check_request(config, request, &checked, verdict.is_some()) {
        Err(error) => {
            return Err(error);
        },
        Ok(record_count) => record_count,
    };
    if let Some(Err(error)) = verdict {
        return Err(EngineError::Fenced(error.message()));
    }
    let payload_digest = if request.producer.is_some() || request.atomic_group.is_some() {
        PayloadDigest(xxh3_128(request.payload.as_slice()))
    } else {
        PayloadDigest(0)
    };
    Ok(
        AdmittedAppend {
            topic_partition: TopicPartition {
                topic_id: request.topic_id,
                partition_id: request.partition_id,
            },
            request_id: request.request_id,
            durability: request.durability,
            producer: request.producer,
            atomic_group: request.atomic_group,
            record_count,
            payload_bytes: request.payload.len() as u64,
            payload_digest,
        },
    )
}

/// Admits a request, asking the fence where there is one: its verdict on the
/// partition and the leader epoch decides.
pub fn admit_append<F: WriteFence>(
    config: &EngineConfig,
    fence: Option<&F>,
    request: &AppendRequest,
    checked: Result<u32, String>,
) -> (result: EngineResult<AdmittedAppend>)
    ensures
        request_obstacle(*config, *request, check_view(checked), fence is Some) matches Some(fault)
            ==> result is Err && result->Err_0@ == fault,
        fence is None ==> agrees(
            result,
            admission(*config, *request, check_view(checked), None),
        ),
        fence is Some && request_obstacle(*config, *request, check_view(checked), true) is None
            ==> exists|verdict: Result<(), WriteFenceError>| #[trigger]
            call_ensures(
                F::check_write,
                (
                    fence->0,
                    TopicPartition {
                        topic_id: request.topic_id,
                        partition_id: request.partition_id,
                    },
                    (request.leader_epoch->0).0,
                ),
                verdict,
            ) && agrees(
                result,
                admission(*config, *request, check_view(checked), verdict_view(Some(verdict))),
            ),
{
    match check_request(config, request, &checked, fence.is_some()) {
        Err(error) => {
            return Err(error);
        },
        Ok(_) => {},
    }
    let verdict = match (fence, request.leader_epoch) {
        (Some(fence), Some(epoch)) => Some(
            fence.check_write(
                TopicPartition { topic_id: request.topic_id, partition_id: request.partition_id },
                epoch.0,
            ),
        ),
        _ => None,
    };
    admit_with_verdict(config, request, checked, verdict)
}

/// How many copies an acknowledgement stands for.
pub open spec fn required_copies(durability: Durability, policy: PartitionReplicationPolicy) -> u32 {
    match durability {
        Durability::Quorum => policy.min_in_sync_replicas,
        Durability::AllReplicas => policy.replication_factor,
        Durability::Leader => 1,
        Durability::Object => 1,
    }
}

pub fn required_replicas(durability: Durability, policy: &PartitionReplicationPolicy) -> (required:
    u32)
    ensures
        required == required_copies(durability, *policy),
{
    match durability {
        Durability::Quorum => policy.min_in_sync_replicas,
        Durability::AllReplicas => policy.replication_factor,
        Durability::Leader | Durability::Object => 1,
    }
}

pub open spec fn less_one(count: u32) -> u32 {
    if count == 0 {
        0
    } else {
        (count - 1) as u32
    }
}

pub open spec fn saturated(one: u32, other: u32) -> u32 {
    if one + other > u32::MAX {
        u32::MAX
    } else {
        (one + other) as u32
    }
}

/// A batch that is stored already and has to reach more replicas.
#[derive(Debug, Clone, Copy, PartialEq, Eq, Structural)]
pub struct Resend {
    pub reservation: Reservation,
    pub response: AppendResponse,
    pub required_replicas: u32,
    /// How many followers to wait for.
    pub followers: u32,
}

/// A batch that has a place and is to be written.
#[derive(Debug, Clone, Copy, PartialEq, Eq, Structural)]
pub struct LocalWrite {
    pub reservation: Reservation,
    pub producer: Option<ProducerSequence>,
    pub required_replicas: u32,
    /// How many followers replication waits for, if it starts before the write.
    pub replicate_first: Option<u32>,
}

/// What follows the reservation.
#[derive(Debug, PartialEq, Eq)]
pub enum AfterReserve {
    Finished(EngineResult<AppendResponse>),
    Resend(Resend),
    Write(LocalWrite),
}

/// Followers of a retried batch are still to be reached in the background.
pub open spec fn followers_pending(
    durability: Durability,
    has_replication: bool,
    durable_replicas: u32,
    policy: PartitionReplicationPolicy,
) -> bool {
    has_replication && (durability == Durability::Leader || durability == Durability::Object)
        && durable_replicas < policy.replication_factor
}

/// The place of a batch, from its receipt.
pub open spec fn reservation_of(append: AdmittedAppend, response: AppendResponse) -> Reservation {
    Reservation {
        topic_id: append.topic_partition.topic_id,
        partition_id: append.topic_partition.partition_id,
        batch_id: response.batch_id,
        first_offset: response.first_offset,
        last_offset: response.last_offset,
        record_count: append.record_count,
        placement: response.placement,
    }
}

/// What follows a reservation, in terms of the outcome alone.
pub open spec fn reserve_continuation(
    append: AdmittedAppend,
    has_replication: bool,
    outcome: ReserveOutcome,
    next: AfterReserve,
) -> bool {
    match outcome {
        ReserveOutcome::Duplicate {
            response,
            durable_replicas,
            object_durable,
            replication_policy,
        } => {
            let required = required_copies(append.durability, replication_policy);
            let pending = followers_pending(
                append.durability,
                has_replication,
                durable_replicas,
                replication_policy,
            );
            if append.durability == Durability::Object && !object_durable {
                next matches AfterReserve::Finished(Err(error)) && error@
                    == Fault::ObjectDurabilityUnavailable
            } else if durable_replicas >= required && !pending {
                next == AfterReserve::Finished(Ok(response))
            } else if !has_replication {
                next matches AfterReserve::Finished(Err(error)) && error@ == (
                Fault::DurabilityUnavailable { required_replicas: required, durable_replicas })
            } else {
                next == AfterReserve::Resend(
                    Resend {
                        reservation: reservation_of(append, response),
                        response,
                        required_replicas: required,
                        followers: if pending {
                            0
                        } else {
                            less_one(required)
                        },
                    },
                )
            }
        },
        ReserveOutcome::Reserved { reservation, producer, replication_policy } => {
            let required = required_copies(append.durability, replication_policy);
            next == AfterReserve::Write(
                LocalWrite {
                    reservation,
                    producer,
                    required_replicas: required,
                    replicate_first: if has_replication && required > 1 {
                        Some(less_one(required))
                    } else {
                        None
                    },
                },
            )
        },
    }
}

/// Decides what follows the reservation.
pub fn after_reserve(append: &AdmittedAppend, has_replication: bool, outcome: ReserveOutcome) -> (next:
    AfterReserve)
    ensures
        reserve_continuation(*append, has_replication, outcome, next),
{
    match outcome {
        ReserveOutcome::Duplicate {
            response,
            durable_replicas,
            object_durable,
            replication_policy,
        } => {
            let required: u32 = required_replicas(append.durability, &replication_policy);
            if append.durability == Durability::Object && !object_durable {
                return AfterReserve::Finished(Err(EngineError::ObjectDurabilityUnavailable));
            }
            let pending = has_replication && (append.durability == Durability::Leader
                || append.durability == Durability::Object) && durable_replicas
                < replication_policy.replication_factor;
            if durable_replicas >= required && !pending {
                return AfterReserve::Finished(Ok(response));
            }
            if !has_replication {
                return AfterReserve::Finished(
                    Err(
                        EngineError::DurabilityUnavailable {
                            required_replicas: required,
                            durable_replicas,
                        },
                    ),
                );
            }
            AfterReserve::Resend(
                Resend {
                    reservation: Reservation {
                        topic_id: append.topic_partition.topic_id,
                        partition_id: append.topic_partition.partition_id,
                        batch_id: response.batch_id,
                        first_offset: response.first_offset,
                        last_offset: response.last_offset,
                        record_count: append.record_count,
                        placement: response.placement,
                    },
                    response,
                    required_replicas: required,
                    followers: if pending {
                        0
                    } else {
                        required.saturating_sub(1)
                    },
                },
            )
        },
        ReserveOutcome::Reserved { reservation, producer, replication_policy } => {
            let required: u32 = required_replicas(append.durability, &replication_policy);
            let followers: u32 = required.saturating_sub(1);
            AfterReserve::Write(
                LocalWrite {
                    reservation,
                    producer,
                    required_replicas: required,
                    replicate_first: if has_replication && followers > 0 {
                        Some(followers)
                    } else {
                        None
                    },
                },
            )
        },
    }
}

impl Resend {
    /// How many replicas hold the batch once followers answered.
    pub fn reached(&self, followers: u32) -> (reached: u32)
        ensures
            reached == saturated(followers, 1),
    {
        followers.saturating_add(1)
    }

    /// The answer to the retry once the number of replicas is recorded.
    pub fn recorded(self, reached: u32, recorded: EngineResult<()>) -> (result: EngineResult<
        AppendResponse,
    >)
        ensures
            match recorded {
                Err(error) => result == Err::<AppendResponse, _>(error),
                Ok(()) => agrees(
                    result,
                    if reached < self.required_replicas {
                        Err(
                            Fault::DurabilityUnavailable {
                                required_replicas: self.required_replicas,
                                durable_replicas: reached,
                            },
                        )
                    } else {
                        Ok(self.response)
                    },
                ),
            },
    {
        match recorded {
            Err(error) => {
                return Err(error);
            },
            Ok(()) => {},
        }
        if reached < self.required_replicas {
            return Err(
                EngineError::DurabilityUnavailable {
                    required_replicas: self.required_replicas,
                    durable_replicas: reached,
                },
            );
        }
        Ok(self.response)
    }
}

/// Where replication stands when the local write ends.
#[derive(Debug, PartialEq, Eq)]
pub enum Replication {
    /// There is no transport.
    Absent,
    /// It starts after the write, in the background.
    Deferred,
    /// It was started before the write and can be waited for.
    Started,
    /// It could not be started.
    StartFailed(EngineError),
}

/// A batch that is being written.
#[derive(Debug, PartialEq, Eq)]
pub struct Writing {
    pub write: LocalWrite,
    pub replication: Replication,
}

impl LocalWrite {
    /// The write together with where replication stands: `begun` is the result
    /// of starting it, which happens exactly when `replicate_first` asks for it.
    pub fn begin(self, has_replication: bool, begun: Option<EngineResult<()>>) -> (writing: Writing)
        requires
            begun is Some <==> self.replicate_first is Some,
        ensures
            writing.write == self,
            writing.replication == (match begun {
                Some(Ok(())) => Replication::Started,
                Some(Err(error)) => Replication::StartFailed(error),
                None => if has_replication {
                    Replication::Deferred
                } else {
                    Replication::Absent
                },
            }),
    {
        let replication = match begun {
            Some(Ok(())) => Replication::Started,
            Some(Err(error)) => Replication::StartFailed(error),
            None => if has_replication {
                Replication::Deferred
            } else {
                Replication::Absent
            },
        };
        Writing { write: self, replication }
    }
}

/// A written batch whose replication is still to be heard of.
#[derive(Debug, PartialEq, Eq)]
pub struct Replicating {
    pub write: LocalWrite,
    pub durability: AppendDurability,
    /// Whether replication was started before the write.
    pub started: bool,
}

/// A written batch that is to be completed.
#[derive(Debug, PartialEq, Eq)]
pub struct Completing {
    pub write: LocalWrite,
    pub durability: AppendDurability,
    pub replication_error: Option<EngineError>,
}

/// What follows the local write.
#[derive(Debug, PartialEq, Eq)]
pub enum AfterWrite {
    Replicate(Replicating),
    Complete(Completing),
    Fail(AppendFailure),
}

impl Writing {
    /// Decides what follows the local write.
    pub fn written(self, result: Result<AppendDurability, AppendFailure>) -> (next: AfterWrite)
        ensures
            next == (match result {
                Err(failure) => AfterWrite::Fail(failure),
                Ok(durability) => match self.replication {
                    Replication::Started => AfterWrite::Replicate(
                        Replicating { write: self.write, durability, started: true },
                    ),
                    Replication::Deferred => AfterWrite::Replicate(
                        Replicating { write: self.write, durability, started: false },
                    ),
                    Replication::StartFailed(error) => AfterWrite::Complete(
                        Completing {
                            write: self.write,
                            durability,
                            replication_error: Some(error),
                        },
                    ),
                    Replication::Absent => AfterWrite::Complete(
                        Completing { write: self.write, durability, replication_error: None },
                    ),
                },
            }),
    {
        match result {
            Err(failure) => AfterWrite::Fail(failure),
            Ok(durability) => match self.replication {
                Replication::Started => AfterWrite::Replicate(
                    Replicating { write: self.write, durability, started: true },
                ),
                Replication::Deferred => AfterWrite::Replicate(
                    Replicating { write: self.write, durability, started: false },
                ),
                Replication::StartFailed(error) => AfterWrite::Complete(
                    Completing { write: self.write, durability, replication_error: Some(error) },
                ),
                Replication::Absent => AfterWrite::Complete(
                    Completing { write: self.write, durability, replication_error: None },
                ),
            },
        }
    }
}

impl Replicating {
    /// Takes the followers' answer into account.
    pub fn replicated(self, remote: EngineResult<u32>) -> (completing: Completing)
        ensures
            completing.write == self.write,
            completing.durability.object_durable == self.durability.object_durable,
            match remote {
                Ok(count) => completing.replication_error is None
                    && completing.durability.durable_replicas == saturated(
                    self.durability.durable_replicas,
                    count,
                ),
                Err(error) => completing.replication_error == Some(error)
                    && completing.durability == self.durability,
            },
    {
        let mut durability = self.durability;
        match remote {
            Ok(count) => {
                durability.durable_replicas = durability.durable_replicas.saturating_add(count);
                Completing { write: self.write, durability, replication_error: None }
            },
            Err(error) => Completing {
                write: self.write,
                durability,
                replication_error: Some(error),
            },
        }
    }
}

impl Completing {
    /// What the coordinator is told of the finished append, whose batch has the
    /// identity `record_id`.
    pub fn completion(&self, append: &AdmittedAppend, record_id: RecordId) -> (completion:
        CompleteAppend)
        ensures
            completion == (CompleteAppend {
                reservation: self.write.reservation,
                producer: append.producer,
                payload_digest: append.payload_digest,
                durable_replicas: self.durability.durable_replicas,
                object_durable: self.durability.object_durable,
                response: receipt(append.request_id, self.write.reservation, record_id),
            }),
    {
        CompleteAppend {
            reservation: self.write.reservation,
            producer: append.producer,
            payload_digest: append.payload_digest,
            durable_replicas: self.durability.durable_replicas,
            object_durable: self.durability.object_durable,
            response: append_response(append.request_id, self.write.reservation, record_id),
        }
    }

    /// What an append is answered once the coordinator `completed` it.
    pub open spec fn acknowledges(
        self,
        durability: Durability,
        completed: EngineResult<AppendResponse>,
        result: EngineResult<AppendResponse>,
    ) -> bool {
        match (completed, self.replication_error) {
            (Err(error), _) => result == Err::<AppendResponse, _>(error),
            (Ok(_), Some(error)) => result == Err::<AppendResponse, _>(error),
            (Ok(response), None) => agrees(
                result,
                if self.durability.durable_replicas < self.write.required_replicas {
                    Err(
                        Fault::DurabilityUnavailable {
                            required_replicas: self.write.required_replicas,
                            durable_replicas: self.durability.durable_replicas,
                        },
                    )
                } else if durability == Durability::Object && !self.durability.object_durable {
                    Err(Fault::ObjectDurabilityUnavailable)
                } else {
                    Ok(response)
                },
            ),
        }
    }

    /// The answer to the append. It is acknowledged exactly when the coordinator
    /// took it, replication had no error, enough copies are durable, and the
    /// object copy is where one was asked for.
    pub fn completed(self, durability: Durability, completed: EngineResult<AppendResponse>) -> (result:
        EngineResult<AppendResponse>)
        ensures
            self.acknowledges(durability, completed, result),
    {
        let response = match completed {
            Err(error) => {
                return Err(error);
            },
            Ok(response) => response,
        };
        if let Some(error) = self.replication_error {
            return Err(error);
        }
        if self.durability.durable_replicas < self.write.required_replicas {
            return Err(
                EngineError::DurabilityUnavailable {
                    required_replicas: self.write.required_replicas,
                    durable_replicas: self.durability.durable_replicas,
                },
            );
        }
        if durability == Durability::Object && !self.durability.object_durable {
            return Err(EngineError::ObjectDurabilityUnavailable);
        }
        Ok(response)
    }
}

impl AppendFailure {
    /// The answer to a failed append once the coordinator recorded the failure.
    pub fn failed(self, recorded: EngineResult<()>) -> (result: EngineResult<AppendResponse>)
        ensures
            result == (match recorded {
                Ok(()) => Err::<AppendResponse, EngineError>(self.error),
                Err(error) => Err(error),
            }),
    {
        match recorded {
            Ok(()) => Err(self.error),
            Err(error) => Err(error),
        }
    }
}

fn copy_bytes(bytes: &Vec<u8>) -> (copy: Vec<u8>)
    ensures
        copy@ == bytes@,
{
    let mut copy: Vec<u8> = Vec::new();
    push_bytes(&mut copy, bytes.as_slice());
    proof {
        assert(copy@ =~= bytes@);
    }
    copy
}

/// `replica` is an admitted request's batch on its way to followers.
pub open spec fn carries(
    replica: ReplicaAppend,
    request: AppendRequest,
    append: AdmittedAppend,
    reservation: Reservation,
) -> bool {
    &&& replica.reservation == reservation
    &&& replica.producer == append.producer
    &&& replica.atomic_group == append.atomic_group
    &&& same_context(replica.extension_context, request.extension_context)
    &&& replica.payload_digest == append.payload_digest
    &&& replica.payload@ == request.payload@
}

/// Makes the batch of an admitted request ready for followers.
pub fn replica_append(
    request: &AppendRequest,
    append: &AdmittedAppend,
    reservation: Reservation,
) -> (replica: ReplicaAppend)
    ensures
        carries(replica, *request, *append, reservation),
{
    ReplicaAppend {
        reservation,
        producer: append.producer,
        atomic_group: append.atomic_group,
        extension_context: match &request.extension_context {
            Some(context) => Some(copy_bytes(context)),
            None => None,
        },
        payload_digest: append.payload_digest,
        payload: copy_bytes(&request.payload),
    }
}

} // verus!
