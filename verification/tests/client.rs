use shard_stream::client::{
    accept_binding, api_error, api_error_shown, create_topic_request, decide_append, durability_name,
    fetch_mode_name, parse_response_u128, parse_response_u64, partition_path, retry_stale,
    show_status, topic_path, trim_slashes, validate_binding_partition, AppendPlan,
    AppendResponseBody, AppendStep, Client, ClientConfig, ClientError, Consumer,
    LogicalTopicBinding, LogicalTopicCursor, PartitionWatermarks, Pause, ProblemBody,
    ProducerReceipt, ProducerTuning, TopicHaMode, WatermarksResponse, BATCH_SIZE_ENV,
    LINGER_MS_ENV, MAX_REQUEST_SIZE_ENV,
};
use shard_stream::ids::{
    BatchId, LeaderEpoch, LogicalOffset, LogicalPartitionId, PlacementSequence, RecordId,
    RingEpoch, ShardId, TopicId, TopicPartition,
};
use shard_stream::protocol::{AppendResponse, Durability, FetchMode};
use shard_stream::sequencer::Placement;
use shard_stream::time::Duration;

#[test]
fn validates_endpoint_and_response_identifiers() {
    let config = ClientConfig {
        endpoint: "file:///tmp/socket".into(),
        ..ClientConfig::default()
    };
    assert!(matches!(
        Client::new(config),
        Err(ClientError::InvalidConfig(_))
    ));
    assert!(matches!(
        parse_response_u128("batch_id", "-1"),
        Err(ClientError::InvalidResponse(_))
    ));
}

#[test]
fn response_conversion_preserves_u128_values() {
    let response = AppendResponseBody {
        request_id: u128::MAX.to_string(),
        batch_id: "2".into(),
        record_id: "8".into(),
        first_offset: "3".into(),
        last_offset: "4".into(),
        visible_through: "5".into(),
        shard_id: 5,
        ring_epoch: 6,
        leader_epoch: 8,
        placement_sequence: "7".into(),
    };
    let receipt = ProducerReceipt::try_from(response).expect("receipt");
    assert_eq!(receipt.request_id, u128::MAX);
    assert_eq!(receipt.record_id, RecordId::new(8));
    assert_eq!(receipt.placement.sequence, PlacementSequence::new(7));
}

#[test]
fn parses_partition_watermarks_without_precision_loss() {
    let watermarks = PartitionWatermarks::try_from(WatermarksResponse {
        log_start: "1".into(),
        allocated_end: "2".into(),
        contiguous_log_end: "3".into(),
        replicated_high_watermark: "4".into(),
        last_stable_offset: u64::MAX.to_string(),
    })
    .expect("watermarks");
    assert_eq!(watermarks.log_start, LogicalOffset::new(1));
    assert_eq!(watermarks.last_stable_offset, LogicalOffset::new(u64::MAX));
}

#[test]
fn producer_tuning_uses_kafka_familiar_environment_names() {
    let tuning = ProducerTuning::from_lookup(|name| match name {
        BATCH_SIZE_ENV => Some("2097152".into()),
        LINGER_MS_ENV => Some("20".into()),
        MAX_REQUEST_SIZE_ENV => Some("4194304".into()),
        _ => None,
    })
    .expect("producer tuning");
    assert_eq!(tuning.batch_size, 2 * 1024 * 1024);
    assert_eq!(tuning.linger, Duration::from_millis(20));
    assert_eq!(tuning.max_request_size, 4 * 1024 * 1024);
    assert!(tuning.should_flush(2 * 1024 * 1024));
}

#[test]
fn producer_tuning_rejects_a_batch_larger_than_the_request() {
    let error = ProducerTuning::from_lookup(|name| match name {
        BATCH_SIZE_ENV => Some("2097152".into()),
        MAX_REQUEST_SIZE_ENV => Some("1048576".into()),
        _ => None,
    })
    .expect_err("invalid producer tuning");
    assert!(matches!(error, ClientError::InvalidConfig(_)));
}

#[test]
fn producer_enforces_the_configured_request_limit_before_network_io() {
    let client = Client::new(ClientConfig {
        producer: ProducerTuning {
            batch_size: 4,
            linger: Duration::from_nanos(0),
            max_request_size: 4,
        },
        ..ClientConfig::default()
    })
    .expect("client");
    let producer = client.producer(TopicId::new(1), LogicalPartitionId::new(0), 1, 0);
    let error = producer.plan_append(5, 1).expect_err("oversized request");
    assert_eq!(
        error,
        ClientError::InvalidConfig(
            "append payload has 5 bytes, exceeding producer max_request_size 4".into()
        )
    );
}

fn tuned(batch: Option<&str>, linger: Option<&str>, request: Option<&str>) -> Result<ProducerTuning, ClientError> {
    ProducerTuning::from_values(
        batch.map(String::from),
        linger.map(String::from),
        request.map(String::from),
    )
}

#[test]
fn tuning_errors_come_in_order() {
    assert_eq!(tuned(None, None, None).expect("default"), ProducerTuning::default());
    assert_eq!(
        tuned(Some("x"), Some("y"), None),
        Err(ClientError::InvalidConfig(
            "SHARD_STREAM_BATCH_SIZE must be a non-negative base-10 integer".into()
        ))
    );
    assert_eq!(
        tuned(None, Some("18446744073709551616"), None),
        Err(ClientError::InvalidConfig(
            "SHARD_STREAM_LINGER_MS must be a non-negative base-10 integer".into()
        ))
    );
    assert_eq!(
        tuned(Some("0"), Some("60001"), None),
        Err(ClientError::InvalidConfig(
            "producer batch and request sizes must be nonzero".into()
        ))
    );
    assert_eq!(
        tuned(None, Some("18446744073709551615"), None),
        Err(ClientError::InvalidConfig(
            "producer linger cannot exceed 60 seconds".into()
        ))
    );
    assert_eq!(
        tuned(Some("+7"), Some("60000"), None).expect("bounds").linger,
        Duration::from_secs(60)
    );
}

#[test]
fn endpoints_are_read_in_normal_form() {
    let mut client = Client::new(ClientConfig {
        endpoint: "HTTP://Example.com:80//".into(),
        ..ClientConfig::default()
    })
    .expect("client");
    assert_eq!(client.endpoint, "http://example.com/".to_string());
    assert_eq!(
        client.url("v1/topics").expect("url"),
        "http://example.com/v1/topics".to_string()
    );
    assert!(matches!(
        client.url("http://[bad"),
        Err(ClientError::InvalidConfig(_))
    ));
    assert_eq!(client.next_request_id(), 1);
    assert_eq!(client.next_request_id(), 2);
    client.next_request_id = u64::MAX;
    assert_eq!(client.next_request_id(), u128::from(u64::MAX));
    assert_eq!(client.next_request_id(), 0);
    assert_eq!(trim_slashes("a//b///"), "a//b");
    assert_eq!(trim_slashes("///"), "");
}

#[test]
fn configurations_are_refused_in_order() {
    let refused = |config: ClientConfig| Client::new(config).expect_err("refused").message();
    assert_eq!(
        refused(ClientConfig { max_frame_bytes: 0, ..ClientConfig::default() }),
        "invalid client config: max_frame_bytes must be nonzero"
    );
    assert_eq!(
        refused(ClientConfig { endpoint: "no address".into(), ..ClientConfig::default() }),
        "invalid client config: relative URL without a base"
    );
    assert_eq!(
        refused(ClientConfig { endpoint: "ftp://host".into(), ..ClientConfig::default() }),
        "invalid client config: endpoint must use http or https"
    );
    assert_eq!(
        refused(ClientConfig { admin_token: Some(String::new()), ..ClientConfig::default() }),
        "invalid client config: admin_token cannot be empty"
    );
    assert_eq!(
        refused(ClientConfig { admin_token: Some("a\nb".into()), ..ClientConfig::default() }),
        "invalid client config: failed to parse header value"
    );
    let kept = ClientConfig { admin_token: Some("t\u{e9}\tok".into()), ..ClientConfig::default() };
    assert_eq!(kept.shown_token(), Some("[redacted]"));
    assert!(Client::new(kept).is_ok());
    assert_eq!(
        Client::with_address(
            ClientConfig::default(),
            Ok(("https".to_string(), "https://host/".to_string()))
        )
        .expect("client")
        .endpoint,
        "https://host/".to_string()
    );
    assert_eq!(
        ClientConfig::from_parts(tuned(None, None, None), Some("token".into()))
            .expect("config")
            .admin_token,
        Some("token".to_string())
    );
}

#[test]
fn answers_decide_what_an_append_does() {
    assert_eq!(decide_append(204, None, None, 0, 0), AppendStep::Accept);
    assert_eq!(
        decide_append(409, Some("STALE_DATA_GENERATION"), None, 0, 1),
        AppendStep::Rebind
    );
    assert_eq!(
        decide_append(409, Some("STALE_DATA_GENERATION"), None, 1, 1),
        AppendStep::Fail
    );
    assert_eq!(decide_append(409, Some("CONFLICT"), None, 0, 3), AppendStep::Fail);
    assert_eq!(
        decide_append(429, None, Some("7"), 0, 3),
        AppendStep::Wait(Pause::Seconds(7))
    );
    assert_eq!(
        decide_append(503, None, Some("soon"), 2, 3),
        AppendStep::Wait(Pause::Millis(40))
    );
    assert_eq!(
        decide_append(503, None, None, 30, 40),
        AppendStep::Wait(Pause::Millis(10_240))
    );
    assert_eq!(decide_append(503, None, None, 3, 3), AppendStep::Fail);
    assert_eq!(decide_append(500, None, None, 0, 3), AppendStep::Fail);
    assert!(retry_stale(Some("STALE_DATA_GENERATION"), 0, 1));
    assert!(!retry_stale(None, 0, 1));
}

fn binding() -> LogicalTopicBinding {
    LogicalTopicBinding {
        logical_topic_id: TopicId::new(4),
        mode: TopicHaMode::ActivePassive,
        data_generation: 1,
        partitions: 2,
    }
}

#[test]
fn accepted_appends_number_their_records_without_a_gap() {
    let client = Client::new(ClientConfig::default()).expect("client");
    let mut producer = client
        .producer(TopicId::new(4), LogicalPartitionId::new(1), 9, 2)
        .with_leader_epoch(6)
        .resume_at(10);
    let plan = producer.plan_append(3, 5).expect("plan");
    assert_eq!(plan, AppendPlan { first_sequence: 10, next_sequence: 15 });
    producer.accept(plan, binding());
    assert_eq!(
        producer.plan_append(3, 1).expect("plan").first_sequence,
        15
    );
    assert_eq!(
        producer.plan_append(3, 0),
        Err(ClientError::InvalidConfig("record_count must be nonzero".into()))
    );
    producer.retry_at(u64::MAX);
    assert_eq!(
        producer.plan_append(3, 1),
        Err(ClientError::InvalidConfig("producer sequence exhausted".into()))
    );
    assert!(producer.set_epoch(2).is_err());
    producer.set_epoch(3).expect("later epoch");
    assert_eq!((producer.epoch, producer.next_sequence), (3, 0));
    assert_eq!(producer.tuning(), ProducerTuning::default());
    let identity = producer.identity(8, RecordId::new(77));
    assert_eq!(
        (identity.producer_id, identity.epoch, identity.first_sequence, identity.event_id),
        (9, 3, 8, Some(RecordId::new(77)))
    );
}

#[test]
fn queries_hold_every_number_in_decimal() {
    let client = Client::new(ClientConfig::default()).expect("client");
    let producer = client
        .producer(TopicId::new(4), LogicalPartitionId::new(1), u128::MAX, 2)
        .with_leader_epoch(6);
    let plan = AppendPlan { first_sequence: 3, next_sequence: 4 };
    assert_eq!(
        producer.append_query(plan, 1, 2, Durability::Quorum, RecordId::new(5), 7),
        vec![
            ("request_id", "1".to_string()),
            ("record_count", "2".to_string()),
            ("durability", "quorum".to_string()),
            ("producer_id", u128::MAX.to_string()),
            ("producer_epoch", "2".to_string()),
            ("first_sequence", "3".to_string()),
            ("event_id", "5".to_string()),
            ("expected_data_generation", "7".to_string()),
            ("leader_epoch", "6".to_string()),
        ]
    );
    assert_eq!(
        Consumer::fetch_query(LogicalOffset::new(10), 20, FetchMode::Replicated, 30, 1),
        vec![
            ("offset", "10".to_string()),
            ("max_bytes", "20".to_string()),
            ("mode", "replicated".to_string()),
            ("request_id", "30".to_string()),
            ("expected_data_generation", "1".to_string()),
        ]
    );
    assert_eq!(durability_name(Durability::AllReplicas), "all_replicas");
    assert_eq!(fetch_mode_name(FetchMode::AsAvailable), "as_available");
    assert_eq!(
        partition_path(TopicId::new(17), LogicalPartitionId::new(3), "records"),
        "v1/topics/17/partitions/3/records".to_string()
    );
    assert_eq!(
        topic_path(TopicId::new(17), "binding"),
        "v1/topics/17/binding".to_string()
    );
    let request = create_topic_request(TopicId::new(8), 2, Some(vec![ShardId::new(5)]));
    assert_eq!(request.topic_id, "8".to_string());
    assert_eq!(request.shards, Some(vec![5]));
}

#[test]
fn answers_are_checked_before_they_are_used() {
    assert_eq!(
        parse_response_u64("payload_bytes", "18446744073709551616"),
        Err(ClientError::InvalidResponse(
            "payload_bytes is not a valid unsigned 64-bit integer".into()
        ))
    );
    assert!(accept_binding(binding(), Ok(()), TopicId::new(4)).is_ok());
    assert_eq!(
        accept_binding(binding(), Err("unfinalized".into()), TopicId::new(5)),
        Err(ClientError::InvalidResponse("unfinalized".into()))
    );
    assert_eq!(
        accept_binding(binding(), Ok(()), TopicId::new(5)).expect_err("other topic").message(),
        "invalid response: topic binding belongs to another logical topic"
    );
    assert_eq!(
        validate_binding_partition(&binding(), LogicalPartitionId::new(2)),
        Err(ClientError::InvalidConfig(
            "partition 2 is outside topic partition count 2".into()
        ))
    );
    let failure = api_error(
        404,
        Ok(ProblemBody {
            code: "NOT_FOUND".into(),
            message: "no such topic".into(),
            retryable: false,
        }),
    );
    assert_eq!(failure.api_code(), Some("NOT_FOUND"));
    assert_eq!(
        failure.message(),
        "server error 404 Not Found NOT_FOUND: no such topic"
    );
    assert_eq!(
        api_error(502, Err("not JSON".into())).message(),
        "invalid response: server returned 502 Bad Gateway with an unreadable error body: not JSON"
    );
    assert_eq!(
        api_error_shown(42, "42", Err("not JSON".into())).message(),
        "invalid response: server returned 42 with an unreadable error body: not JSON"
    );
    assert_eq!(show_status(None, 42), "42".to_string());
    assert_eq!(ClientError::Transport("down".into()).message(), "transport error: down");
    assert_eq!(ClientError::Wire("short".into()).message(), "native protocol error: short");
    assert_eq!(ClientError::Cursor("bad".into()).message(), "logical cursor error: bad");
    assert_eq!(ClientError::Transport("down".into()).api_code(), None);
}

#[test]
fn consumers_keep_to_their_partition() {
    let client = Client::new(ClientConfig::default()).expect("client");
    let mut consumer = client.consumer(TopicId::new(4), LogicalPartitionId::new(1));
    assert!(consumer.plan_fetch(0).is_err());
    consumer.check_binding(&binding()).expect("readable by offset");
    let moved = LogicalTopicBinding { data_generation: 2, ..binding() };
    assert_eq!(
        consumer.check_binding(&moved).expect_err("moved").message(),
        "SDK upgrade required for ActivePassive data generation 2"
    );
    consumer.accept(binding());
    assert_eq!(consumer.binding, Some(binding()));

    let cursor = |partition: u32| LogicalTopicCursor {
        topic_partition: TopicPartition::new(TopicId::new(4), LogicalPartitionId::new(partition)),
        data_generation: 3,
        encoded: Ok("0a0b".into()),
    };
    let mut logical = client.logical_consumer(TopicId::new(4), LogicalPartitionId::new(1));
    assert!(logical.plan_fetch(1, FetchMode::AsAvailable).is_err());
    assert!(logical.plan_fetch(0, FetchMode::Ordered).is_err());
    logical.plan_fetch(1, FetchMode::Ordered).expect("contiguous mode");
    assert!(logical.accept_initial(cursor(0), Ok(())).is_err());
    assert_eq!(
        logical.accept_initial(cursor(0), Err("torn".into())),
        Err(ClientError::Cursor("torn".into()))
    );
    let sent = logical
        .accept_initial(cursor(1), Ok(()))
        .expect("own partition");
    assert_eq!(logical.cursor(), None);
    assert!(logical.accept(&sent, None, binding()).is_err());
    assert!(logical.accept(&sent, Some(Ok(cursor(2))), binding()).is_err());
    assert_eq!(
        logical.accept(&sent, Some(Err("no cursor".into())), binding()),
        Err(ClientError::Cursor("no cursor".into()))
    );
    assert_eq!(logical.cursor(), None);
    logical
        .accept(&sent, Some(Ok(cursor(1))), binding())
        .expect("next cursor");
    assert_eq!(logical.cursor(), Some(&cursor(1)));
    assert_eq!(
        logical.set_cursor(cursor(0), Err("torn".into())),
        Err(ClientError::InvalidConfig(
            "logical cursor belongs to another consumer".into()
        ))
    );
    let moved_on = |generation: u64| LogicalTopicCursor {
        data_generation: generation,
        ..cursor(1)
    };
    assert_eq!(
        logical.set_cursor(moved_on(4), Err("torn".into())),
        Err(ClientError::Cursor("torn".into()))
    );
    assert_eq!(logical.cursor(), Some(&cursor(1)));
    logical.set_cursor(moved_on(5), Ok(())).expect("own cursor");
    assert_eq!(logical.cursor(), Some(&moved_on(5)));
    let unsendable = LogicalTopicCursor {
        encoded: Err("too long".into()),
        ..cursor(1)
    };
    assert_eq!(
        shard_stream::client::LogicalConsumer::fetch_query(&unsendable, 5, FetchMode::Ordered, 6),
        Err(ClientError::Cursor("too long".into()))
    );
    assert_eq!(
        shard_stream::client::LogicalConsumer::fetch_query(&sent, 5, FetchMode::Ordered, 6)
            .expect("query"),
        vec![
            ("cursor", "0a0b".to_string()),
            ("max_bytes", "5".to_string()),
            ("mode", "ordered".to_string()),
            ("request_id", "6".to_string()),
            ("expected_data_generation", "3".to_string()),
        ]
    );
}

#[test]
fn receipts_are_taken_over_whole() {
    let response = AppendResponse {
        request_id: 1,
        batch_id: BatchId::new(2),
        record_id: RecordId::new(3),
        first_offset: LogicalOffset::new(4),
        last_offset: LogicalOffset::new(5),
        visible_through: LogicalOffset::new(6),
        placement: Placement {
            virtual_lane_id: ShardId::new(7),
            ring_epoch: RingEpoch::new(8),
            leader_epoch: LeaderEpoch::new(9),
            sequence: PlacementSequence::new(10),
        },
    };
    let receipt = ProducerReceipt::from(response);
    assert_eq!(receipt.record_id, RecordId::new(3));
    assert_eq!(receipt.placement, response.placement);
    assert_eq!(receipt.visible_through, LogicalOffset::new(6));
}
