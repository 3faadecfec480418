use shard_stream::bench::{
    benchmark_sink_options, check_allocated, earliest, BenchmarkSink, DurabilityArg, SinkMode,
    Workload,
};
use shard_stream::client::{partition_path, AppendPlan, Client, ClientConfig, Consumer};
use shard_stream::durable_sink::{DurableSinkApply, DurableSinkCheckpoint, DurableSinkLagPolicy};
use shard_stream::error::EngineError;
use shard_stream::fetch::FetchedBatch;
use shard_stream::http_route::{
    append_from_query, certificate_chain, fetch_from_query, find_route, grow_body, output_limit,
    parse_durability, parse_fetch_mode, parse_producer, parse_query, parse_records_path,
    parse_u128, parse_u32, private_key, query_value, receipt_body, validate_limits, H3Error,
    HttpMethod, PrivateKey, Route, RouteError,
};
use shard_stream::ids::{
    BatchId, BrokerId, LeaderEpoch, LogicalOffset, LogicalPartitionId, PlacementSequence, RecordId,
    RingEpoch, ShardId, TopicId, TopicPartition,
};
use shard_stream::protocol::{
    AppendResponse, AtomicGroupIdentity, Durability, FetchMode, ProducerIdentity,
};
use shard_stream::sequencer::Placement;
use shard_stream::topology::{BrokerDescriptor, PartitionAssignment, SingleNodeAssignment};
use shard_stream::wire::{
    adopt_leader_epoch, decode_append, decode_fetch, decode_u128, encode_append,
    encode_fetch_batch, encode_u128, engine_status, ensure_local, generation_status,
    resolve_legacy_topic, route_append, AppendMessage, AtomicGroupMessage, FetchMessage,
    ProducerMessage, StatusCode, TopicRouteError, TopicRouteErrorCode, UInt128,
};

#[test]
fn route_and_query_parsing_are_strict() {
    assert_eq!(
        parse_records_path("/v1/topics/17/partitions/3/records").expect("path"),
        (TopicId::new(17), LogicalPartitionId::new(3))
    );
    assert!(parse_records_path("/v1/topics/17/records").is_err());
    let query = parse_query(Some("durability=quorum&record_count=2")).expect("query");
    assert_eq!(
        parse_durability(query_value(&query, "durability")).expect("durability"),
        Durability::Quorum
    );
}

#[test]
fn paths_are_trimmed_and_their_numbers_checked() {
    assert_eq!(
        parse_records_path("//v1/topics/1/partitions/2/records//").expect("path"),
        (TopicId::new(1), LogicalPartitionId::new(2))
    );
    let unknown = parse_records_path("/v1/topics/1//partitions/2/records").expect_err("extra part");
    assert_eq!((unknown.status, unknown.code), (404, "NOT_FOUND"));
    assert_eq!(unknown.message, "unknown HTTP/3 route".to_string());
    assert_eq!(
        parse_records_path("/v1/topics/x/partitions/2/records").expect_err("topic").message,
        "topic_id must be an unsigned u128".to_string()
    );
    assert_eq!(
        parse_records_path("/v1/topics/1/partitions/4294967296/records")
            .expect_err("partition")
            .message,
        "partition_id must be an unsigned u32".to_string()
    );
}

#[test]
fn routes_go_by_method_and_path() {
    assert_eq!(find_route(HttpMethod::Get, "/healthz"), Ok(Route::Health));
    assert!(find_route(HttpMethod::Post, "/healthz").is_err());
    let path = "/v1/topics/1/partitions/2/records";
    let topic = TopicId::new(1);
    let partition = LogicalPartitionId::new(2);
    assert_eq!(find_route(HttpMethod::Post, path), Ok(Route::Append(topic, partition)));
    assert_eq!(find_route(HttpMethod::Get, path), Ok(Route::Fetch(topic, partition)));
    let refused = find_route(HttpMethod::Other, path).expect_err("method");
    assert_eq!((refused.status, refused.code), (405, "METHOD_NOT_ALLOWED"));
    assert_eq!(grow_body(5, 5, 10), Ok(10));
    assert_eq!(grow_body(5, 6, 10).expect_err("too large").status, 413);
    assert_eq!(grow_body(1, usize::MAX, usize::MAX).expect_err("overflow").code, "BATCH_TOO_LARGE");
    assert!(validate_limits(1, 1).is_ok());
    assert!(validate_limits(0, 1).is_err());
    assert!(validate_limits(1, 0).is_err());
    assert_eq!(output_limit(100, 2), 612);
    assert_eq!(output_limit(usize::MAX, 1), usize::MAX);
    assert_eq!(output_limit(1, usize::MAX), usize::MAX);
}

#[test]
fn query_strings_are_decoded_and_the_last_value_counts() {
    let query = parse_query(Some("mode=ordered&mode=as%5Favailable&a+b=c")).expect("query");
    assert_eq!(query_value(&query, "mode"), Some("as_available"));
    assert_eq!(query_value(&query, "a b"), Some("c"));
    assert_eq!(query_value(&query, "absent"), None);
    assert_eq!(parse_fetch_mode(query_value(&query, "mode")), Ok(FetchMode::AsAvailable));
    assert_eq!(parse_fetch_mode(None), Ok(FetchMode::Ordered));
    assert_eq!(
        parse_fetch_mode(Some("replicated")).expect_err("mode").message,
        "mode must be ordered or as_available".to_string()
    );
    assert_eq!(parse_durability(None), Ok(Durability::Leader));
    assert_eq!(parse_durability(Some("object")), Ok(Durability::Object));
    assert!(parse_durability(Some("all_replicas")).is_err());
    assert!(parse_query(None).expect("no query").is_empty());
    assert_eq!(parse_u128("n", &u128::MAX.to_string()), Ok(u128::MAX));
    assert_eq!(parse_u32("n", "+5"), Ok(5));
    assert_eq!(
        parse_u32("n", "4294967296").expect_err("range").message,
        "n must be an unsigned u32".to_string()
    );
}

#[test]
fn producers_are_named_whole_or_not_at_all() {
    let read = |text: &str| parse_producer(&parse_query(Some(text)).expect("query"));
    assert_eq!(read(""), Ok(None));
    assert_eq!(
        read("producer_id=1&producer_epoch=2&first_sequence=3"),
        Ok(Some(ProducerIdentity {
            producer_id: 1,
            epoch: 2,
            first_sequence: 3,
            event_id: None,
        }))
    );
    assert_eq!(
        read("producer_id=1").expect_err("partial").message,
        "producer_id, producer_epoch, and first_sequence must be supplied together".to_string()
    );
    assert_eq!(
        read("producer_id=1&producer_epoch=2&first_sequence=z").expect_err("sequence").message,
        "first_sequence must be an unsigned u64".to_string()
    );
}

#[test]
fn requests_are_built_from_queries() {
    let query = parse_query(Some("record_count=4&durability=object")).expect("query");
    let append = append_from_query(
        TopicId::new(1),
        LogicalPartitionId::new(2),
        &query,
        vec![9, 8],
        55,
    )
    .expect("append");
    assert_eq!((append.request_id, append.record_count), (55, 4));
    assert_eq!(append.durability, Durability::Object);
    assert_eq!(append.payload, vec![9, 8]);
    let fetch = fetch_from_query(
        TopicId::new(1),
        LogicalPartitionId::new(2),
        &parse_query(Some("offset=12&request_id=3")).expect("query"),
        usize::MAX,
        55,
    )
    .expect("fetch");
    assert_eq!(fetch.request_id, 3);
    assert_eq!(fetch.max_bytes, u32::MAX);
    assert_eq!(fetch.start_offset, LogicalOffset::new(12));
    assert_eq!(
        fetch_from_query(
            TopicId::new(1),
            LogicalPartitionId::new(2),
            &parse_query(Some("offset=-1")).expect("query"),
            10,
            55,
        )
        .expect_err("offset")
        .message,
        "offset must be an unsigned u128".to_string()
    );
}

#[test]
fn the_server_reads_what_the_client_writes() {
    let client = Client::new(ClientConfig::default()).expect("client");
    let producer = client.producer(TopicId::new(17), LogicalPartitionId::new(3), 6, 7);
    let plan = AppendPlan { first_sequence: 8, next_sequence: 10 };
    let owned = |query: Vec<(&'static str, String)>| {
        query
            .into_iter()
            .map(|(name, value)| (name.to_string(), value))
            .collect::<Vec<_>>()
    };
    let query = owned(producer.append_query(plan, 1, 2, Durability::Quorum, RecordId::new(5), 1));
    let append = append_from_query(TopicId::new(17), LogicalPartitionId::new(3), &query, vec![], 99)
        .expect("append");
    assert_eq!((append.request_id, append.record_count), (1, 2));
    assert_eq!(append.producer.expect("producer").first_sequence, 8);
    let query = owned(Consumer::fetch_query(
        LogicalOffset::new(4),
        5,
        FetchMode::AsAvailable,
        6,
        1,
    ));
    let fetch = fetch_from_query(TopicId::new(17), LogicalPartitionId::new(3), &query, 100, 99)
        .expect("fetch");
    assert_eq!((fetch.max_bytes, fetch.request_id), (5, 6));
    let path = format!(
        "/{}",
        partition_path(TopicId::new(17), LogicalPartitionId::new(3), "records")
    );
    assert_eq!(
        parse_records_path(&path),
        Ok((TopicId::new(17), LogicalPartitionId::new(3)))
    );
}

#[test]
fn engine_failures_have_their_answers() {
    let status = |error: EngineError| {
        let answer = RouteError::from_engine(&error);
        (answer.status, answer.code, answer.retryable)
    };
    assert_eq!(
        status(EngineError::InvalidConfig("x".into())),
        (400, "INVALID_REQUEST", false)
    );
    assert_eq!(status(EngineError::UnknownShard(ShardId::new(1))), (404, "NOT_FOUND", false));
    assert_eq!(
        status(EngineError::AdmissionLimited { shard_id: ShardId::new(1), reason: "full" }),
        (429, "ADMISSION_LIMITED", true)
    );
    assert_eq!(
        status(EngineError::ObjectDurabilityUnavailable),
        (503, "DURABILITY_UNAVAILABLE", true)
    );
    assert_eq!(
        status(EngineError::OffsetOutOfRange {
            requested: LogicalOffset::new(1),
            log_start: LogicalOffset::new(2),
        }),
        (416, "OFFSET_OUT_OF_RANGE", false)
    );
    assert_eq!(
        status(EngineError::UnsupportedDurability("no")),
        (501, "DURABILITY_UNAVAILABLE", false)
    );
    assert_eq!(status(EngineError::DuplicateSequenceMismatch(3)), (409, "CONFLICT", false));
    assert_eq!(status(EngineError::CorruptState("bad".into())), (500, "INTERNAL", false));
    assert_eq!(RouteError::internal("x".into()).status, 500);
}

#[test]
fn uint128_round_trip_preserves_full_width() {
    let value = u128::MAX - 7;
    assert_eq!(
        decode_u128(Some(encode_u128(value)), "value").expect("decode"),
        value
    );
}

#[test]
fn numbers_are_split_at_the_middle() {
    assert_eq!(encode_u128(1u128 << 64), UInt128 { high: 1, low: 0 });
    assert_eq!(encode_u128(5), UInt128 { high: 0, low: 5 });
    let missing = decode_u128(None, "topic_id").expect_err("missing");
    assert_eq!(missing.code, StatusCode::InvalidArgument);
    assert_eq!(missing.message, "topic_id is required".to_string());
}

fn append_message() -> AppendMessage {
    AppendMessage {
        request_id: Some(encode_u128(1)),
        topic_id: Some(encode_u128(9)),
        partition_id: 2,
        record_count: 3,
        payload: b"grpc".to_vec(),
        durability: Some(Durability::Leader),
        producer: Some(ProducerMessage {
            producer_id: Some(encode_u128(4)),
            epoch: 5,
            first_sequence: 6,
            event_id: Some(encode_u128(7)),
        }),
        atomic_group: Some(AtomicGroupMessage {
            transaction_id: Some(encode_u128(8)),
            chunk_sequence: 9,
        }),
        leader_epoch: None,
    }
}

#[test]
fn messages_are_read_whole_and_in_order() {
    let request = decode_append(append_message()).expect("append");
    assert_eq!(request.topic_id, TopicId::new(9));
    assert_eq!(request.payload, b"grpc".to_vec());
    assert_eq!(request.producer.expect("producer").event_id, Some(RecordId::new(7)));
    assert_eq!(
        request.atomic_group,
        Some(AtomicGroupIdentity { transaction_id: 8, chunk_sequence: 9 })
    );
    let lacking = |message: AppendMessage| decode_append(message).expect_err("lacking").message;
    assert_eq!(
        lacking(AppendMessage { durability: None, request_id: None, ..append_message() }),
        "request_id is required"
    );
    assert_eq!(
        lacking(AppendMessage { durability: None, ..append_message() }),
        "durability is required"
    );
    assert_eq!(
        lacking(AppendMessage {
            atomic_group: Some(AtomicGroupMessage { transaction_id: None, chunk_sequence: 0 }),
            ..append_message()
        }),
        "transaction_id is required"
    );
    let fetch = FetchMessage {
        request_id: Some(encode_u128(1)),
        topic_id: Some(encode_u128(9)),
        partition_id: 0,
        start_offset: 11,
        max_bytes: 12,
        mode: Some(FetchMode::Replicated),
    };
    let request = decode_fetch(fetch).expect("fetch");
    assert_eq!(request.start_offset, LogicalOffset::new(11));
    assert_eq!(request.mode, FetchMode::Replicated);
    assert_eq!(
        decode_fetch(FetchMessage { mode: None, ..fetch }).expect_err("mode").message,
        "fetch mode is required".to_string()
    );
}

fn placement() -> Placement {
    Placement {
        virtual_lane_id: ShardId::new(7),
        ring_epoch: RingEpoch::new(8),
        leader_epoch: LeaderEpoch::new(9),
        sequence: PlacementSequence::new(10),
    }
}

#[test]
fn receipts_and_batches_are_written_whole() {
    let response = AppendResponse {
        request_id: 1,
        batch_id: BatchId::new(2),
        record_id: RecordId::new((3u128 << 64) | 1),
        first_offset: LogicalOffset::new(4),
        last_offset: LogicalOffset::new(5),
        visible_through: LogicalOffset::new(6),
        placement: placement(),
    };
    let message = encode_append(response);
    assert_eq!(message.batch_id, UInt128 { high: 0, low: 2 });
    assert_eq!(message.placement.leader_epoch, 9);
    assert_eq!(message.record_id, UInt128 { high: 3, low: 1 });
    let body = receipt_body(&response);
    assert_eq!(body.last_offset, "5".to_string());
    assert_eq!((body.shard_id, body.ring_epoch), (7, 8));
    let batch = encode_fetch_batch(
        3,
        FetchedBatch {
            batch_id: BatchId::new(2),
            event_id: Some(RecordId::new(1u128 << 64)),
            atomic_group: Some(AtomicGroupIdentity { transaction_id: 5, chunk_sequence: 6 }),
            first_offset: LogicalOffset::new(4),
            last_offset: LogicalOffset::new(5),
            record_count: 2,
            payload: vec![1],
            placement: placement(),
        },
    );
    assert_eq!(batch.event_id, Some(UInt128 { high: 1, low: 0 }));
    assert_eq!(batch.atomic_group.expect("group").chunk_sequence, 6);
    assert_eq!((batch.record_count, batch.payload), (2, vec![1]));
}

#[test]
fn statuses_follow_the_failure() {
    let code = |error: EngineError| engine_status(&error).code;
    assert_eq!(code(EngineError::UnknownAtomicGroup(1)), StatusCode::NotFound);
    assert_eq!(code(EngineError::ReplicaInFlight(BatchId::new(1))), StatusCode::Unavailable);
    assert_eq!(
        code(EngineError::RetentionPinned {
            requested: LogicalOffset::new(2),
            pinned: LogicalOffset::new(1),
        }),
        StatusCode::FailedPrecondition
    );
    assert_eq!(code(EngineError::UnsupportedDurability("no")), StatusCode::Unimplemented);
    assert_eq!(code(EngineError::Storage("io".into())), StatusCode::Internal);
    assert_eq!(
        generation_status(TopicRouteError {
            code: TopicRouteErrorCode::WritePaused,
            message: "paused".into(),
        })
        .code,
        StatusCode::Unavailable
    );
    let mut topic = TopicId::new(1);
    resolve_legacy_topic(Ok(None), &mut topic).expect("unchanged");
    assert_eq!(topic, TopicId::new(1));
    let physical = TopicPartition::new(TopicId::new(5), LogicalPartitionId::new(0));
    resolve_legacy_topic(Ok(Some(physical)), &mut topic).expect("resolved");
    assert_eq!(topic, TopicId::new(5));
    let refused = resolve_legacy_topic(
        Err(TopicRouteError {
            code: TopicRouteErrorCode::StaleGeneration,
            message: "stale".into(),
        }),
        &mut topic,
    )
    .expect_err("refused");
    assert_eq!(refused.code, StatusCode::FailedPrecondition);
    assert_eq!(topic, TopicId::new(5));
}

#[test]
fn appends_go_on_at_their_leader_under_its_epoch() {
    let node = SingleNodeAssignment::new(
        BrokerDescriptor {
            broker_id: BrokerId::new(0),
            incarnation: 1,
            rack: String::new(),
            zone: String::new(),
            internal_rest: String::new(),
            internal_replication: String::new(),
            advertised_rest: String::new(),
            advertised_grpc: "http://127.0.0.1:7421".into(),
            kafka_host: String::new(),
            kafka_port: 0,
            cpu_capacity: 1,
            disk_capacity_bytes: 0,
            network_capacity_bytes_per_sec: 0,
            certificate_digest: [0; 32],
        },
        2,
    )
    .expect("assignment");
    let request = decode_append(append_message()).expect("append");
    ensure_local(&node, TopicPartition::new(request.topic_id, request.partition_id)).expect("local");
    let routed = route_append(&node, request).expect("routed");
    assert_eq!(routed.leader_epoch, Some(LeaderEpoch::new(0)));
    let none: Option<PartitionAssignment> = None;
    assert_eq!(adopt_leader_epoch(None, none), None);
    let none: Option<PartitionAssignment> = None;
    assert_eq!(
        adopt_leader_epoch(Some(LeaderEpoch::new(4)), none),
        Some(LeaderEpoch::new(4))
    );
}

fn workload() -> Workload {
    Workload {
        batches: 10,
        records_per_batch: 4,
        payload_bytes: 100,
        shards: 2,
        partitions: 3,
        concurrency: 1,
        durability: DurabilityArg::Quorum,
        sink_mode: SinkMode::Disabled,
        sink_delay_us: 0,
        idempotent_producers: true,
    }
}

#[test]
fn workloads_are_checked_and_turned_into_requests() {
    workload().validate_args().expect("valid");
    assert!(Workload { concurrency: 0, ..workload() }.validate_args().is_err());
    assert!(Workload { sink_mode: SinkMode::Slow, ..workload() }.validate_args().is_err());
    let config = workload()
        .engine_config("data".into(), None)
        .expect("configuration");
    assert_eq!(config.queue_bytes_per_shard, 100 * 64 + 64 * 1024 * 1024);
    assert_eq!(config.queue_slots_per_shard, 4096);
    assert_eq!(config.max_fetch_bytes, 1024 * 1024);
    config.validate().expect("valid configuration");
    assert!(Workload { payload_bytes: usize::MAX, ..workload() }
        .engine_config("data".into(), None)
        .is_err());
    let request = workload().append_request(7, 2, 12, vec![0x5a; 100]);
    assert_eq!(request.partition_id, LogicalPartitionId::new(1));
    assert_eq!(request.producer.expect("producer").producer_id, 3);
    assert_eq!(workload().next_sequence(12), Ok(16));
    assert!(workload().next_sequence(u64::MAX).is_err());
    assert_eq!(workload().totals(), Ok((40, 1000)));
    assert_eq!(
        Workload { batches: u64::MAX, ..workload() }.totals(),
        Err("record count overflow".to_string())
    );
    assert_eq!(
        workload().check_completed(9),
        Err("benchmark completed 9 of 10 batches".to_string())
    );
    assert_eq!(DurabilityArg::Object.name(), "object-manifest");
    assert_eq!(SinkMode::Disabled.name(), "none");
}

#[test]
fn totals_compare_allocated_offsets_with_records() {
    let ends = vec![LogicalOffset::new(12), LogicalOffset::new(28)];
    assert_eq!(check_allocated(&ends, 40), Ok(LogicalOffset::new(28)));
    assert_eq!(
        check_allocated(&ends, 41),
        Err("benchmark allocated 40 logical offsets, expected 41".to_string())
    );
    assert_eq!(
        earliest(Some(LogicalOffset::new(3)), Some(LogicalOffset::new(2))),
        Some(LogicalOffset::new(2))
    );
    assert_eq!(earliest(None, None), None);
}

#[test]
fn the_benchmark_sink_applies_each_batch_once() {
    let partition = TopicPartition::new(TopicId::new(1), LogicalPartitionId::new(0));
    let first = DurableSinkCheckpoint::initial(partition);
    let next = DurableSinkCheckpoint {
        next_placement_sequence: PlacementSequence::new(1),
        next_offset: LogicalOffset::new(4),
        ..first
    };
    let mut sink = BenchmarkSink::new(SinkMode::Noop);
    assert_eq!(sink.load_checkpoint(partition), None);
    assert_eq!(sink.apply(first, next), Ok(DurableSinkApply::Applied));
    assert_eq!(
        sink.apply(first, next),
        Ok(DurableSinkApply::CheckpointConflict(next))
    );
    assert_eq!(sink.load_checkpoint(partition), Some(next));
    let mut failing = BenchmarkSink::new(SinkMode::Failed);
    assert_eq!(
        failing.apply(first, next),
        Err(EngineError::DurableSinkUnavailable(
            "benchmark sink injected failure".into()
        ))
    );
    assert_eq!(
        benchmark_sink_options(SinkMode::Failed).lag_policy,
        DurableSinkLagPolicy::Availability
    );
    assert_eq!(
        benchmark_sink_options(SinkMode::Noop).lag_policy,
        DurableSinkLagPolicy::Backpressure
    );
}

fn pem(label: &str, body: &str) -> String {
    format!("-----BEGIN {label}-----\n{body}\n-----END {label}-----\n")
}

#[test]
fn certificate_chains_are_read_from_their_sections() {
    let text = format!(
        "{}{}{}",
        pem("CERTIFICATE", "AQID"),
        pem("CERTIFICATE REQUEST", "CQkJ"),
        pem("CERTIFICATE", "BAUG")
    );
    assert_eq!(
        certificate_chain(text.into_bytes()),
        Ok(vec![vec![1, 2, 3], vec![4, 5, 6]])
    );
}

#[test]
fn a_file_without_sections_is_one_certificate() {
    assert_eq!(
        certificate_chain(vec![0x30, 1, 2]),
        Ok(vec![vec![0x30, 1, 2]])
    );
    assert_eq!(certificate_chain(Vec::new()), Ok(vec![Vec::new()]));
    let other = pem("PUBLIC KEY", "AQID").into_bytes();
    assert_eq!(certificate_chain(other.clone()), Ok(vec![other]));
}

#[test]
fn damaged_certificates_are_refused() {
    let text = "-----BEGIN CERTIFICATE-----\nAQID\n";
    assert_eq!(
        certificate_chain(text.as_bytes().to_vec()),
        Err(H3Error(
            "failed to parse HTTP/3 certificate: section end \"CERTIFICATE\" missing".into()
        ))
    );
}

#[test]
fn private_keys_are_read_in_each_encoding() {
    let read = |label: &str| private_key(pem(label, "AQID").into_bytes());
    assert!(read("RSA PRIVATE KEY") == Ok(PrivateKey::Pkcs1(vec![1, 2, 3])));
    assert!(read("EC PRIVATE KEY") == Ok(PrivateKey::Sec1(vec![1, 2, 3])));
    assert!(read("PRIVATE KEY") == Ok(PrivateKey::Pkcs8(vec![1, 2, 3])));
    let several = format!(
        "{}{}{}",
        pem("CERTIFICATE", "AQID"),
        pem("EC PRIVATE KEY", "BAUG"),
        pem("PRIVATE KEY", "AQID")
    );
    assert!(private_key(several.into_bytes()) == Ok(PrivateKey::Sec1(vec![4, 5, 6])));
}

#[test]
fn a_file_without_sections_is_a_key() {
    let pkcs8 = vec![0x30, 5, 2, 1, 0, 0x30, 0];
    let pkcs1 = vec![0x30, 4, 2, 1, 0, 2];
    let sec1 = vec![0x30, 4, 2, 1, 1, 4];
    assert!(private_key(pkcs8.clone()) == Ok(PrivateKey::Pkcs8(pkcs8)));
    assert!(private_key(pkcs1.clone()) == Ok(PrivateKey::Pkcs1(pkcs1)));
    assert!(private_key(sec1.clone()) == Ok(PrivateKey::Sec1(sec1)));
    assert!(
        private_key(vec![1, 2, 3])
            == Err(H3Error(
                "invalid DER HTTP/3 private key: unknown or invalid key format".into()
            ))
    );
}

#[test]
fn damaged_private_keys_are_refused() {
    let text = format!("-----BEGIN {}-----\nAQID\n", "PRIVATE KEY");
    assert!(
        private_key(text.into_bytes())
            == Err(H3Error(
                "failed to parse HTTP/3 private key: section end \"PRIVATE KEY\" missing".into()
            ))
    );
}
