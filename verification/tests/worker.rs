use shard_stream::append::AppendDurability;
use shard_stream::channel::{byte_bounded_channel, TrySendError};
use shard_stream::error::EngineError;
use shard_stream::ids::ShardId;
use shard_stream::time::Duration;
use shard_stream::worker::{
    append_charge, fail_durable_outcomes, fetch_plan_charge, group_outcomes, send_error,
    sync_batch_open, AppendGroupTuner, GroupMember, GroupWrite, APPEND_GROUP_IDLE_RESET_NANOS,
    MAX_APPEND_GROUP, MIN_APPEND_GROUP_LINGER_NANOS,
};
use shard_stream::worker_loop::{WorkerCommand, WorkerLoop, WorkerStep};

const MICRO: u64 = 1_000;

#[test]
fn append_group_linger_grows_for_sparse_groups_and_resets_after_idle() {
    let min_linger = Duration::from_nanos(MIN_APPEND_GROUP_LINGER_NANOS);
    let max_linger = Duration::from_millis(1);
    let mut tuner = AppendGroupTuner::new(max_linger);
    let started = 5_000_000_000u64;
    assert_eq!(tuner.begin_group(started), min_linger);

    tuner.complete_group(started, 1);
    assert_eq!(
        tuner.begin_group(started + MICRO),
        Duration::from_micros(400)
    );
    tuner.complete_group(started + MICRO, 2);
    assert_eq!(
        tuner.begin_group(started + 2 * MICRO),
        Duration::from_micros(800)
    );
    tuner.complete_group(started + 2 * MICRO, 4);
    assert_eq!(tuner.begin_group(started + 3 * MICRO), max_linger);
    assert_eq!(
        tuner.begin_group(started + APPEND_GROUP_IDLE_RESET_NANOS + 2 * MICRO),
        min_linger
    );
}

#[test]
fn zero_append_linger_disables_group_waiting() {
    let mut tuner = AppendGroupTuner::new(Duration::from_nanos(0));
    let now = 5_000_000_000u64;
    assert_eq!(tuner.begin_group(now), Duration::from_nanos(0));
    tuner.complete_group(now, 1);
    assert_eq!(tuner.begin_group(now), Duration::from_nanos(0));
}

#[test]
fn saturated_append_groups_reduce_linger() {
    let max_linger = Duration::from_millis(1);
    let mut tuner = AppendGroupTuner {
        linger: max_linger,
        min_linger: Duration::from_nanos(MIN_APPEND_GROUP_LINGER_NANOS),
        max_linger,
        last_group_completed: None,
    };
    let now = 5_000_000_000u64;
    tuner.complete_group(now, MAX_APPEND_GROUP);
    assert_eq!(
        tuner.begin_group(now + MICRO),
        Duration::from_micros(500)
    );
}

#[test]
fn a_request_ends_a_group_and_is_served_after_it() {
    let mut worker = WorkerLoop::new(Duration::from_millis(1), Duration::from_secs(1));
    assert_eq!(worker.next(0), WorkerStep::Receive(Duration::from_millis(100)));
    assert_eq!(worker.received(WorkerCommand::Append(1), 10), None);
    assert_eq!(
        worker.next(10),
        WorkerStep::Receive(Duration::from_micros(200))
    );
    assert_eq!(worker.received(WorkerCommand::Append(2), 20), None);
    assert_eq!(
        worker.received(WorkerCommand::Request(3), 30),
        Some(WorkerStep::Write(vec![1, 2]))
    );
    worker.written(40, 2);
    assert_eq!(worker.next(50), WorkerStep::Serve(3));
    assert_eq!(
        worker.received(WorkerCommand::Request(4), 60),
        Some(WorkerStep::Serve(4))
    );
    assert_eq!(worker.lapsed(false), WorkerStep::SealAged);
    assert_eq!(worker.lapsed(true), WorkerStep::Stop);
}

#[test]
fn a_group_is_written_at_its_deadline_and_at_its_size() {
    let mut worker = WorkerLoop::new(Duration::from_millis(1), Duration::from_millis(5));
    assert_eq!(worker.next(0), WorkerStep::Receive(Duration::from_millis(5)));
    worker.received(WorkerCommand::Append(9), 0);
    assert_eq!(
        worker.next(200 * MICRO),
        WorkerStep::Write(vec![9])
    );
    let names: Vec<u64> = (0..MAX_APPEND_GROUP as u64).collect();
    for name in &names {
        worker.received(WorkerCommand::Append(*name), 0);
    }
    assert_eq!(worker.next(0), WorkerStep::Write(names));
    worker.received(WorkerCommand::Append(7), 0);
    assert_eq!(worker.lapsed(false), WorkerStep::Write(vec![7]));
}

#[test]
fn commands_are_charged_for_their_bytes() {
    let shard = ShardId::new(2);
    assert_eq!(append_charge(shard, 100).expect("charge"), 356);
    let refused = append_charge(shard, usize::MAX).expect_err("too large");
    assert!(refused.definitely_not_written);
    assert!(matches!(
        refused.error,
        EngineError::AdmissionLimited { .. }
    ));
    assert_eq!(fetch_plan_charge(shard, 0).expect("charge"), 256);

    let mut channel = byte_bounded_channel(1, 10).expect("channel");
    let too_large: TrySendError<u8> = channel.try_send(1, 11).expect_err("too large");
    assert_eq!(
        send_error(shard, &too_large),
        EngineError::AdmissionLimited {
            shard_id: shard,
            reason: "command exceeds shard byte budget"
        }
    );
    channel.disconnect_receiver();
    let gone = channel.try_send(1, 1).expect_err("gone");
    assert_eq!(send_error(shard, &gone), EngineError::WorkerStopped(shard));
}

#[test]
fn one_failed_extent_does_not_fail_its_group() {
    let members = vec![
        GroupMember { prepare_error: None, object_durable: false },
        GroupMember { prepare_error: Some("bad".into()), object_durable: false },
    ];
    let write = GroupWrite { write_error: None, fence_error: None, offloaded: false };
    let outcomes = group_outcomes(&members, &write);
    assert_eq!(
        outcomes,
        vec![
            Ok(AppendDurability { durable_replicas: 1, object_durable: false }),
            Err("bad".to_string()),
        ]
    );
    assert_eq!(
        fail_durable_outcomes(&outcomes, &"no sync".to_string()),
        vec![Err("no sync".to_string()), Err("bad".to_string())]
    );
    assert!(sync_batch_open(1, false, true));
    assert!(!sync_batch_open(8, false, false));
}
