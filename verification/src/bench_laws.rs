//! What a benchmark run does and reports.
use vstd::prelude::*;

use crate::bench::{
    benchmark_sink_options, check_allocated, earliest, BenchmarkSink, DurabilityArg, SinkMode,
    Workload,
};
use crate::config::EngineConfig;
use crate::durable_sink::{
    DurableSinkApply, DurableSinkCheckpoint, DurableSinkLagPolicy, DurableSinkOptions,
};
use crate::error::{EngineError, EngineResult};
use crate::ids::{LogicalOffset, LogicalPartitionId, TopicPartition};
use crate::protocol::{AppendRequest, Durability};
use crate::time::Duration;

verus! {

/// A workload is run exactly when there is something to run.
pub proof fn workloads_are_run_when_they_can_be(work: Workload, result: Result<(), String>)
    requires
        call_ensures(Workload::validate_args, (&work,), result),
    ensures
        result is Ok <==> work.batches >= 1 && work.records_per_batch >= 1 && work.payload_bytes
            >= 1 && work.shards >= 1 && work.partitions >= 1 && work.concurrency >= 1 && (
        work.sink_mode == SinkMode::Slow ==> work.sink_delay_us >= 1),
{
}

/// The engine that a benchmark sets up accepts its settings, has a lane for each shard
/// and takes the benchmark's batches from all workers at once.
pub proof fn benchmark_engines_are_accepted(
    work: Workload,
    data_dir: String,
    object_store_dir: Option<String>,
    config: EngineConfig,
    accepted: EngineResult<()>,
)
    requires
        work.valid(),
        call_ensures(
            Workload::engine_config,
            (&work, data_dir, object_store_dir),
            Ok::<EngineConfig, String>(config),
        ),
        call_ensures(EngineConfig::validate, (&config,), accepted),
    ensures
        accepted is Ok,
        config.data_dir == data_dir,
        config.object_store_dir == object_store_dir,
        config.shard_count == work.shards,
        config.virtual_lane_count == config.shard_count,
        work.payload_bytes <= config.max_batch_bytes,
        work.payload_bytes <= config.max_fetch_bytes,
        work.concurrency * work.payload_bytes <= config.queue_bytes_per_shard,
        work.concurrency <= config.queue_slots_per_shard,
{
    assert(work.payload_bytes * 64 <= work.payload_bytes as nat * (if work.concurrency < 64 {
        64nat
    } else {
        work.concurrency as nat
    })) by (nonlinear_arith);
    assert(work.concurrency * work.payload_bytes <= work.payload_bytes as nat * (
    if work.concurrency < 64 {
        64nat
    } else {
        work.concurrency as nat
    })) by (nonlinear_arith);
}

/// Batches go to the partitions in turn, and as many as there are partitions go to as
/// many different ones.
pub proof fn batches_take_turns(
    work: Workload,
    batch: u64,
    here: LogicalPartitionId,
    next: LogicalPartitionId,
)
    requires
        work.valid(),
        batch < u64::MAX,
        call_ensures(Workload::partition_of, (&work, batch), here),
        call_ensures(Workload::partition_of, (&work, (batch + 1) as u64), next),
    ensures
        here.0 < work.partitions,
        batch < work.partitions ==> here.0 == batch,
        next.0 == (if here.0 + 1 == work.partitions {
            0
        } else {
            here.0 + 1
        }),
{
    let n = work.partitions as int;
    let b = batch as int;
    if b < n {
        vstd::arithmetic::div_mod::lemma_small_mod(b as nat, n as nat);
    }
    vstd::arithmetic::div_mod::lemma_fundamental_div_mod(b, n);
    if b % n + 1 == n {
        assert(b + 1 == n * (b / n + 1)) by (nonlinear_arith)
            requires
                b == n * (b / n) + b % n,
                b % n + 1 == n,
        ;
        vstd::arithmetic::div_mod::lemma_fundamental_div_mod_converse(b + 1, n, b / n + 1, 0);
    } else {
        vstd::arithmetic::div_mod::lemma_fundamental_div_mod_converse(
            b + 1,
            n,
            b / n,
            b % n + 1,
        );
    }
}

/// Every batch is appended to its own partition with its payload, under the durability
/// that was asked for; workers of an idempotent run are different producers, and each
/// goes on where its last batch ended.
pub proof fn workers_append_what_was_asked(
    work: Workload,
    batch: u64,
    worker: usize,
    other: usize,
    sequence: u64,
    next_sequence: u64,
    payload: Vec<u8>,
    place: LogicalPartitionId,
    durability: Durability,
    request: AppendRequest,
    request_of_other: AppendRequest,
)
    requires
        work.valid(),
        call_ensures(Workload::append_request, (&work, batch, worker, sequence, payload), request),
        call_ensures(
            Workload::append_request,
            (&work, batch, other, sequence, payload),
            request_of_other,
        ),
        call_ensures(Workload::partition_of, (&work, batch), place),
        call_ensures(DurabilityArg::engine, (work.durability,), durability),
        call_ensures(Workload::next_sequence, (&work, sequence), Ok::<u64, String>(next_sequence)),
    ensures
        request.request_id == batch,
        request.partition_id == place,
        request.record_count == work.records_per_batch,
        request.payload == payload,
        request.durability == durability,
        request.producer is Some <==> work.idempotent_producers,
        request.producer matches Some(claim) ==> {
            &&& claim.first_sequence == sequence
            &&& next_sequence == claim.first_sequence + request.record_count
            &&& claim.producer_id != 0
            &&& worker != other ==> request_of_other.producer->0.producer_id != claim.producer_id
        },
{
}

/// The names of the durabilities stand for different waits.
pub proof fn durabilities_are_told_apart(
    one: DurabilityArg,
    other: DurabilityArg,
    durability: Durability,
    durability_of_other: Durability,
)
    requires
        one != other,
        call_ensures(DurabilityArg::engine, (one,), durability),
        call_ensures(DurabilityArg::engine, (other,), durability_of_other),
    ensures
        durability != durability_of_other,
        one == DurabilityArg::Leader ==> durability == Durability::Leader,
        one == DurabilityArg::Object ==> durability == Durability::Object,
        one == DurabilityArg::Quorum ==> durability == Durability::Quorum,
{
}

/// The totals are those of all batches together.
pub proof fn totals_are_those_of_all_batches(
    work: Workload,
    more: Workload,
    totals: (u64, u64),
    totals_of_more: (u64, u64),
)
    requires
        more == (Workload { batches: (work.batches + 1) as u64, ..work }),
        work.batches < u64::MAX,
        call_ensures(Workload::totals, (&work,), Ok::<(u64, u64), String>(totals)),
        call_ensures(Workload::totals, (&more,), Ok::<(u64, u64), String>(totals_of_more)),
    ensures
        totals_of_more.0 == totals.0 + work.records_per_batch,
        totals_of_more.1 == totals.1 + work.payload_bytes,
        work.batches == 0 ==> totals == (0u64, 0u64),
{
    assert((work.batches + 1) * work.records_per_batch == work.batches * work.records_per_batch
        + work.records_per_batch) by (nonlinear_arith);
    assert((work.batches + 1) * work.payload_bytes == work.batches * work.payload_bytes
        + work.payload_bytes) by (nonlinear_arith);
}

/// A run that did not finish every batch is not reported as one.
pub proof fn unfinished_runs_are_refused(work: Workload, completed: usize, result: Result<(), String>)
    requires
        call_ensures(Workload::check_completed, (&work, completed), result),
    ensures
        result is Ok <==> completed == work.batches,
{
}

/// The offsets of all partitions together are as many as the records, and the largest end
/// is no smaller than any.
pub proof fn offsets_are_as_many_as_records(
    ends: Vec<LogicalOffset>,
    more: Vec<LogicalOffset>,
    end: LogicalOffset,
    records: u64,
    records_of_more: u64,
    largest: LogicalOffset,
    largest_of_more: LogicalOffset,
)
    requires
        more@ == ends@.push(end),
        call_ensures(
            check_allocated,
            (&ends, records),
            Ok::<LogicalOffset, String>(largest),
        ),
        call_ensures(
            check_allocated,
            (&more, records_of_more),
            Ok::<LogicalOffset, String>(largest_of_more),
        ),
    ensures
        records_of_more == records + end.0,
        largest_of_more.0 == (if end.0 > largest.0 {
            end.0
        } else {
            largest.0
        }),
{
    assert(more@.drop_last() =~= ends@);
    assert(more@[ends@.len() as int] == end);
    if largest.0 != 0 {
        let i = choose|i: int| 0 <= i < ends@.len() && #[trigger] ends@[i] == largest;
        assert(more@[i] == largest);
    }
    if largest_of_more.0 != 0 {
        let i = choose|i: int| 0 <= i < more@.len() && #[trigger] more@[i] == largest_of_more;
        if i < ends@.len() {
            assert(ends@[i] == largest_of_more);
        }
    }
}

/// The earliest of two offsets is one of them, and neither is before it; an offset that is
/// absent does not count.
pub proof fn earliest_offsets_come_first(
    one: Option<LogicalOffset>,
    other: Option<LogicalOffset>,
    first: Option<LogicalOffset>,
)
    requires
        call_ensures(earliest, (one, other), first),
    ensures
        first is None <==> one is None && other is None,
        first == one || first == other,
        one matches Some(offset) ==> (first matches Some(least) && least.0 <= offset.0),
        other matches Some(offset) ==> (first matches Some(least) && least.0 <= offset.0),
{
}

/// A sink that works moves a checkpoint exactly from where it stands; the next load finds
/// the new one, and other partitions keep theirs.
pub proof fn sinks_move_from_where_they_stand(
    sink: &mut BenchmarkSink,
    expected: DurableSinkCheckpoint,
    next: DurableSinkCheckpoint,
    before: Option<DurableSinkCheckpoint>,
    result: EngineResult<DurableSinkApply>,
    after: Option<DurableSinkCheckpoint>,
    other: TopicPartition,
    before_of_other: Option<DurableSinkCheckpoint>,
    after_of_other: Option<DurableSinkCheckpoint>,
)
    requires
        next.topic_partition == expected.topic_partition,
        other != expected.topic_partition,
        call_ensures(
            BenchmarkSink::load_checkpoint,
            (old(sink), expected.topic_partition),
            before,
        ),
        call_ensures(BenchmarkSink::load_checkpoint, (old(sink), other), before_of_other),
        call_ensures(BenchmarkSink::apply, (sink, expected, next), result),
        call_ensures(
            BenchmarkSink::load_checkpoint,
            (final(sink), expected.topic_partition),
            after,
        ),
        call_ensures(BenchmarkSink::load_checkpoint, (final(sink), other), after_of_other),
    ensures
        old(sink).mode == SinkMode::Failed ==> result is Err && after == before,
        old(sink).mode != SinkMode::Failed ==> result is Ok,
        result == Ok::<DurableSinkApply, EngineError>(DurableSinkApply::Applied) ==> after == Some(
            next,
        ),
        result == Ok::<DurableSinkApply, EngineError>(DurableSinkApply::Applied) && before is Some
            ==> before == Some(expected),
        old(sink).mode != SinkMode::Failed && before == Some(expected) ==> result == Ok::<
            DurableSinkApply,
            EngineError,
        >(DurableSinkApply::Applied),
        result matches Ok(DurableSinkApply::CheckpointConflict(actual)) ==> actual != expected
            && after == before && (before is Some ==> before == Some(actual)),
        after_of_other == before_of_other,
{
}

/// Only a sink that fails lets appends go on without it.
pub proof fn failing_sinks_hold_nothing_up(mode: SinkMode, options: DurableSinkOptions)
    requires
        call_ensures(benchmark_sink_options, (mode,), options),
    ensures
        options.lag_policy == DurableSinkLagPolicy::Availability <==> mode == SinkMode::Failed,
{
}

/// A second is a thousand milliseconds, a millisecond a thousand microseconds, and a
/// microsecond a thousand nanoseconds.
pub proof fn times_are_in_their_unit(
    count: u64,
    seconds: Duration,
    millis: Duration,
    micros: Duration,
    nanos: Duration,
    zero: bool,
)
    requires
        call_ensures(Duration::from_secs, (count,), seconds),
        call_ensures(Duration::from_millis, (count,), millis),
        call_ensures(Duration::from_micros, (count,), micros),
        call_ensures(Duration::from_nanos, (count,), nanos),
        call_ensures(Duration::is_zero, (&nanos,), zero),
    ensures
        seconds.nanos == millis.nanos * 1000,
        millis.nanos == micros.nanos * 1000,
        micros.nanos == nanos.nanos * 1000,
        nanos.nanos == count,
        zero <==> count == 0,
{
}

} // verus!
