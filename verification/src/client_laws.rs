//! What users of the client may count on.
use vstd::prelude::*;

use crate::client::{
    accept_binding, api_error_shown, backoff_doubles, create_topic_request, decide_append,
    durability_name, fetch_mode_name, partition_path, query_views, retry_stale, topic_path,
    trim_slashes, validate_binding_partition, AppendPlan, AppendResponseBody, AppendStep,
    Client, ClientConfig, ClientError, ClientFault, Consumer, CreateTopicRequest,
    LogicalConsumer, LogicalTopicBinding, LogicalTopicCursor, PartitionWatermarks, Pause,
    ProblemBody, Producer, ProducerReceipt, ProducerTuning, TopicHaMode, WatermarksResponse,
};
use crate::http_route::trailing_slashes;
use crate::ids::{LogicalPartitionId, RecordId, ShardId, TopicId};
use crate::protocol::{Durability, FetchMode, ProducerIdentity};
use crate::text::{decimal, decimal_parses_back, decimal_string};

verus! {

/// An append is accepted exactly when the server says so, is sent anew to a topic that
/// has moved or after a wait where the server is busy, and in no case more often than
/// allowed.
pub proof fn appends_are_retried_within_bounds(
    status: u16,
    code: Option<&str>,
    retry_after: Option<&str>,
    attempt: u32,
    max_retries: u32,
    step: AppendStep,
)
    requires
        call_ensures(decide_append, (status, code, retry_after, attempt, max_retries), step),
    ensures
        step is Accept <==> 200 <= status < 300,
        step is Rebind <==> status == 409 && attempt < max_retries && code is Some && code->0@
            == "STALE_DATA_GENERATION"@,
        step is Wait <==> (status == 429 || status == 503) && attempt < max_retries,
        attempt >= max_retries ==> step is Accept || step is Fail,
{
}

/// The wait is the one that the server asks for; where it asks for none, it starts at
/// ten milliseconds, doubles with each attempt, and stays where it is after ten.
pub proof fn waits_double(
    status: u16,
    retry_after: Option<&str>,
    seconds: u64,
    attempt: u32,
    max_retries: u32,
    asked: AppendStep,
    step: AppendStep,
    next: AppendStep,
    first: AppendStep,
)
    requires
        status == 429 || status == 503,
        attempt + 1 < max_retries,
        retry_after is Some,
        retry_after->0@ == decimal(seconds as nat),
        call_ensures(
            decide_append,
            (status, None::<&str>, retry_after, attempt, max_retries),
            asked,
        ),
        call_ensures(
            decide_append,
            (status, None::<&str>, None::<&str>, 0u32, max_retries),
            first,
        ),
        call_ensures(
            decide_append,
            (status, None::<&str>, None::<&str>, attempt, max_retries),
            step,
        ),
        call_ensures(
            decide_append,
            (status, None::<&str>, None::<&str>, (attempt + 1) as u32, max_retries),
            next,
        ),
    ensures
        asked == AppendStep::Wait(Pause::Seconds(seconds)),
        first == AppendStep::Wait(Pause::Millis(10)),
        step matches AppendStep::Wait(Pause::Millis(wait)) && next matches AppendStep::Wait(
            Pause::Millis(longer),
        ) && (attempt < 10 ==> longer == wait + wait) && (attempt >= 10 ==> longer == wait && wait
            == 10_240),
{
    backoff_doubles(attempt);
    backoff_doubles((attempt + 1) as u32);
    decimal_parses_back(seconds as nat, u64::MAX as nat);
}

/// A fetch is sent again only to a topic that has moved, and only while attempts are left.
pub proof fn fetches_are_retried_within_bounds(
    code: Option<&str>,
    attempt: u32,
    max_retries: u32,
    retry: bool,
)
    requires
        call_ensures(retry_stale, (code, attempt, max_retries), retry),
    ensures
        retry <==> code is Some && code->0@ == "STALE_DATA_GENERATION"@ && attempt < max_retries,
{
}

/// An answer's receipt is read number by number: what the server wrote in decimals is
/// what the producer gets.
pub proof fn receipts_are_read_as_written(
    receipt: ProducerReceipt,
    body: AppendResponseBody,
    result: Result<ProducerReceipt, ClientError>,
)
    requires
        body.request_id@ == decimal(receipt.request_id as nat),
        body.batch_id@ == decimal(receipt.batch_id.0 as nat),
        body.record_id@ == decimal(receipt.record_id.0 as nat),
        body.first_offset@ == decimal(receipt.first_offset.0 as nat),
        body.last_offset@ == decimal(receipt.last_offset.0 as nat),
        body.visible_through@ == decimal(receipt.visible_through.0 as nat),
        body.shard_id == receipt.placement.virtual_lane_id.0,
        body.ring_epoch == receipt.placement.ring_epoch.0,
        body.leader_epoch == receipt.placement.leader_epoch.0,
        body.placement_sequence@ == decimal(receipt.placement.sequence.0 as nat),
        call_ensures(ProducerReceipt::try_from, (body,), result),
    ensures
        result == Ok::<ProducerReceipt, ClientError>(receipt),
{
    decimal_parses_back(receipt.request_id as nat, u128::MAX as nat);
    decimal_parses_back(receipt.batch_id.0 as nat, u128::MAX as nat);
    decimal_parses_back(receipt.record_id.0 as nat, u128::MAX as nat);
    decimal_parses_back(receipt.first_offset.0 as nat, u64::MAX as nat);
    decimal_parses_back(receipt.last_offset.0 as nat, u64::MAX as nat);
    decimal_parses_back(receipt.visible_through.0 as nat, u64::MAX as nat);
    decimal_parses_back(receipt.placement.sequence.0 as nat, u64::MAX as nat);
}

/// An answer's marks are read number by number.
pub proof fn watermarks_are_read_as_written(
    marks: PartitionWatermarks,
    body: WatermarksResponse,
    result: Result<PartitionWatermarks, ClientError>,
)
    requires
        body.log_start@ == decimal(marks.log_start.0 as nat),
        body.allocated_end@ == decimal(marks.allocated_end.0 as nat),
        body.contiguous_log_end@ == decimal(marks.contiguous_log_end.0 as nat),
        body.replicated_high_watermark@ == decimal(marks.replicated_high_watermark.0 as nat),
        body.last_stable_offset@ == decimal(marks.last_stable_offset.0 as nat),
        call_ensures(PartitionWatermarks::try_from, (body,), result),
    ensures
        result == Ok::<PartitionWatermarks, ClientError>(marks),
{
    decimal_parses_back(marks.log_start.0 as nat, u64::MAX as nat);
    decimal_parses_back(marks.allocated_end.0 as nat, u64::MAX as nat);
    decimal_parses_back(marks.contiguous_log_end.0 as nat, u64::MAX as nat);
    decimal_parses_back(marks.replicated_high_watermark.0 as nat, u64::MAX as nat);
    decimal_parses_back(marks.last_stable_offset.0 as nat, u64::MAX as nat);
}

/// An append takes as many sequence numbers as it has records, from the producer's next
/// one on; it is refused exactly when it has no records, is too large, or the numbers
/// run out.
pub proof fn appends_take_their_sequences(
    producer: Producer,
    payload_len: usize,
    record_count: u32,
    result: Result<AppendPlan, ClientError>,
)
    requires
        call_ensures(Producer::plan_append, (&producer, payload_len, record_count), result),
    ensures
        result is Ok <==> record_count > 0 && payload_len <= producer.tuning.max_request_size
            && producer.next_sequence + record_count <= u64::MAX,
        result matches Ok(plan) ==> plan.first_sequence == producer.next_sequence
            && plan.next_sequence == producer.next_sequence + record_count,
        result is Err ==> result->Err_0@ is InvalidConfig,
{
}

/// An append's query tells who sends it, what it is and what it expects of the topic.
pub proof fn append_queries_tell_everything(
    producer: Producer,
    plan: AppendPlan,
    request_id: u128,
    record_count: u32,
    durability: Durability,
    event_id: RecordId,
    data_generation: u64,
    query: Vec<(&'static str, String)>,
)
    requires
        call_ensures(
            Producer::append_query,
            (&producer, plan, request_id, record_count, durability, event_id, data_generation),
            query,
        ),
    ensures
        ({
            let pairs = query_views(query@);
            &&& pairs.contains(("request_id"@, decimal(request_id as nat)))
            &&& pairs.contains(("record_count"@, decimal(record_count as nat)))
            &&& pairs.contains(("producer_id"@, decimal(producer.producer_id as nat)))
            &&& pairs.contains(("producer_epoch"@, decimal(producer.epoch as nat)))
            &&& pairs.contains(("first_sequence"@, decimal(plan.first_sequence as nat)))
            &&& pairs.contains(("event_id"@, decimal(event_id.0 as nat)))
            &&& pairs.contains(("expected_data_generation"@, decimal(data_generation as nat)))
            &&& producer.leader_epoch is Some ==> pairs.contains(
                ("leader_epoch"@, decimal(producer.leader_epoch->0 as nat)),
            )
            &&& producer.leader_epoch is None ==> query@.len() == 8
            &&& producer.leader_epoch is Some ==> query@.len() == 9
        }),
{
    let pairs = query_views(query@);
    assert(pairs[0] == ("request_id"@, decimal(request_id as nat)));
    assert(pairs[1] == ("record_count"@, decimal(record_count as nat)));
    assert(pairs[3] == ("producer_id"@, decimal(producer.producer_id as nat)));
    assert(pairs[4] == ("producer_epoch"@, decimal(producer.epoch as nat)));
    assert(pairs[5] == ("first_sequence"@, decimal(plan.first_sequence as nat)));
    assert(pairs[6] == ("event_id"@, decimal(event_id.0 as nat)));
    assert(pairs[7] == ("expected_data_generation"@, decimal(data_generation as nat)));
    if producer.leader_epoch is Some {
        assert(pairs[8] == ("leader_epoch"@, decimal(producer.leader_epoch->0 as nat)));
    }
    assert(pairs.len() == query@.len());
}

/// A logical fetch's query sends the cursor's own text and what it expects of the topic;
/// a cursor without a text is not sent.
pub proof fn logical_queries_tell_everything(
    cursor: LogicalTopicCursor,
    max_bytes: u32,
    mode: FetchMode,
    request_id: u128,
    result: Result<Vec<(&'static str, String)>, ClientError>,
)
    requires
        call_ensures(
            LogicalConsumer::fetch_query,
            (&cursor, max_bytes, mode, request_id),
            result,
        ),
    ensures
        result is Ok <==> cursor.encoded is Ok,
        result matches Ok(query) ==> {
            let pairs = query_views(query@);
            &&& pairs.contains(("cursor"@, cursor.encoded->Ok_0@))
            &&& pairs.contains(("max_bytes"@, decimal(max_bytes as nat)))
            &&& pairs.contains(("request_id"@, decimal(request_id as nat)))
            &&& pairs.contains(
                ("expected_data_generation"@, decimal(cursor.data_generation as nat)),
            )
            &&& query@.len() == 5
        },
{
    if let Ok(query) = result {
        let pairs = query_views(query@);
        assert(pairs[0] == ("cursor"@, cursor.encoded->Ok_0@));
        assert(pairs[1] == ("max_bytes"@, decimal(max_bytes as nat)));
        assert(pairs[3] == ("request_id"@, decimal(request_id as nat)));
        assert(pairs[4] == ("expected_data_generation"@, decimal(cursor.data_generation as nat)));
        assert(pairs.len() == query@.len());
    }
}

/// Durabilities and modes have their names in queries, each its own.
pub proof fn names_say_what_they_mean(
    durability: Durability,
    name: &'static str,
    mode: FetchMode,
    name_of_mode: &'static str,
)
    requires
        call_ensures(durability_name, (durability,), name),
        call_ensures(fetch_mode_name, (mode,), name_of_mode),
    ensures
        durability == Durability::Leader ==> name@ == "leader"@,
        durability == Durability::Quorum ==> name@ == "quorum"@,
        durability == Durability::AllReplicas ==> name@ == "all_replicas"@,
        durability == Durability::Object ==> name@ == "object"@,
        mode == FetchMode::Ordered ==> name_of_mode@ == "ordered"@,
        mode == FetchMode::Replicated ==> name_of_mode@ == "replicated"@,
        mode == FetchMode::AsAvailable ==> name_of_mode@ == "as_available"@,
{
}

/// Paths name the topic, then the partition, then what is asked for.
pub proof fn paths_name_their_topic(
    topic_id: TopicId,
    partition_id: LogicalPartitionId,
    leaf: &str,
    topic: String,
    partition: String,
    path: String,
    path_of_partition: String,
)
    requires
        call_ensures(decimal_string, (topic_id.0,), topic),
        call_ensures(decimal_string, (partition_id.0 as u128,), partition),
        call_ensures(topic_path, (topic_id, leaf), path),
        call_ensures(partition_path, (topic_id, partition_id, leaf), path_of_partition),
    ensures
        path@ == "v1/topics/"@ + topic@ + "/"@ + leaf@,
        path_of_partition@ == "v1/topics/"@ + topic@ + "/partitions/"@ + partition@ + "/"@ + leaf@,
{
}

/// A request for a topic asks for what was asked: the topic, its partitions and the
/// shards in their order.
pub proof fn topics_are_requested_whole(
    topic_id: TopicId,
    partitions: u32,
    shards: Option<Vec<ShardId>>,
    request: CreateTopicRequest,
    topic: String,
    index: int,
)
    requires
        call_ensures(create_topic_request, (topic_id, partitions, shards), request),
        call_ensures(decimal_string, (topic_id.0,), topic),
    ensures
        request.topic_id@ == topic@,
        request.partitions == partitions,
        request.shards is Some <==> shards is Some,
        shards is Some ==> request.shards->0@.len() == shards->0@.len(),
        shards is Some && 0 <= index < shards->0@.len() ==> request.shards->0@[index]
            == shards->0@[index].0,
{
}

/// A binding is taken up exactly when its own check passed and it is that topic's.
pub proof fn bindings_are_of_their_topic(
    binding: LogicalTopicBinding,
    checked: Result<(), String>,
    topic_id: TopicId,
    result: Result<LogicalTopicBinding, ClientError>,
)
    requires
        call_ensures(accept_binding, (binding, checked, topic_id), result),
    ensures
        result is Ok <==> checked is Ok && binding.logical_topic_id == topic_id,
        result is Ok ==> result->Ok_0 == binding,
{
}

/// A topic has exactly the partitions below its count, and can be read by offset only
/// where one region serves its first generation.
pub proof fn offsets_are_read_where_they_last(
    binding: LogicalTopicBinding,
    consumer: Consumer,
    has: Result<(), ClientError>,
    reads: Result<(), ClientError>,
)
    requires
        call_ensures(validate_binding_partition, (&binding, consumer.partition_id), has),
        call_ensures(Consumer::check_binding, (&consumer, &binding), reads),
    ensures
        has is Ok <==> consumer.partition_id.0 < binding.partitions,
        reads is Ok <==> consumer.partition_id.0 < binding.partitions && binding.mode
            == TopicHaMode::ActivePassive && binding.data_generation == 1,
        has is Ok && reads is Err ==> reads->Err_0@ == ClientFault::SdkUpgradeRequired(binding),
{
}

/// Tuning is accepted exactly when both sizes are set, a batch fits a request, and the
/// wait is at most a minute.
pub proof fn tuning_is_accepted_when_it_fits(
    tuning: ProducerTuning,
    result: Result<(), ClientError>,
    buffered: usize,
    flush: bool,
)
    requires
        call_ensures(ProducerTuning::validate, (tuning,), result),
        call_ensures(ProducerTuning::should_flush, (tuning, buffered), flush),
    ensures
        result is Ok <==> 1 <= tuning.batch_size <= tuning.max_request_size && tuning.linger.nanos
            <= 60_000_000_000,
        flush <==> tuning.batch_size <= buffered,
{
}

/// Settings of the environment are the numbers that they spell, the wait in
/// milliseconds.
pub proof fn settings_are_the_numbers_they_spell(
    batch_size: usize,
    linger_ms: u64,
    max_request_size: usize,
    texts: (String, String, String),
    result: Result<ProducerTuning, ClientError>,
)
    requires
        texts.0@ == decimal(batch_size as nat),
        texts.1@ == decimal(linger_ms as nat),
        texts.2@ == decimal(max_request_size as nat),
        call_ensures(
            ProducerTuning::from_values,
            (Some(texts.0), Some(texts.1), Some(texts.2)),
            result,
        ),
    ensures
        result is Ok <==> 1 <= batch_size <= max_request_size && linger_ms <= 60_000,
        result matches Ok(tuning) ==> tuning.batch_size == batch_size && tuning.max_request_size
            == max_request_size && tuning.linger.nanos == linger_ms * 1_000_000,
{
    decimal_parses_back(batch_size as nat, usize::MAX as nat);
    decimal_parses_back(linger_ms as nat, u64::MAX as nat);
    decimal_parses_back(max_request_size as nat, usize::MAX as nat);
}

/// A client is made exactly when its frames and its tuning are bounded, its address is
/// one of the web, and its credential can be sent; it keeps what it was configured with.
pub proof fn clients_keep_their_settings(
    config: ClientConfig,
    scheme: String,
    address: String,
    tuned: Result<(), ClientError>,
    result: Result<Client, ClientError>,
)
    requires
        config.admin_token is None,
        call_ensures(ProducerTuning::validate, (config.producer,), tuned),
        call_ensures(
            Client::with_address,
            (config, Ok::<(String, String), String>((scheme, address))),
            result,
        ),
    ensures
        result is Ok <==> config.max_frame_bytes >= 1 && tuned is Ok && (scheme@ == "http"@
            || scheme@ == "https"@),
        result matches Ok(client) ==> {
            &&& client.endpoint@ == address@
            &&& client.max_retries == config.max_retries
            &&& client.max_frame_bytes == config.max_frame_bytes
            &&& client.producer == config.producer
        },
{
}

/// An empty credential is refused.
pub proof fn credentials_are_not_empty(
    config: ClientConfig,
    parsed: Result<(String, String), String>,
    result: Result<Client, ClientError>,
)
    requires
        config.admin_token is Some,
        config.admin_token->0@.len() == 0,
        call_ensures(Client::with_address, (config, parsed), result),
    ensures
        result is Err,
{
}

/// What may be shown of a credential does not depend on it.
pub proof fn credentials_are_not_shown(
    one: ClientConfig,
    other: ClientConfig,
    shown: Option<&'static str>,
    shown_other: Option<&'static str>,
)
    requires
        one.admin_token is Some,
        other.admin_token is Some,
        call_ensures(ClientConfig::shown_token, (&one,), shown),
        call_ensures(ClientConfig::shown_token, (&other,), shown_other),
    ensures
        shown is Some,
        shown_other is Some,
        shown->0@ == shown_other->0@,
{
}

/// A producer starts at sequence zero of its epoch, for the partition and under the
/// identity that it was made for.
pub proof fn producers_start_at_zero(
    client: Client,
    topic_id: TopicId,
    partition_id: LogicalPartitionId,
    producer_id: u128,
    epoch: u32,
    producer: Producer,
    first_sequence: u64,
    event_id: RecordId,
    identity: ProducerIdentity,
)
    requires
        call_ensures(
            Client::producer,
            (&client, topic_id, partition_id, producer_id, epoch),
            producer,
        ),
        call_ensures(Producer::identity, (&producer, first_sequence, event_id), identity),
    ensures
        producer.topic_id == topic_id,
        producer.partition_id == partition_id,
        producer.next_sequence == 0,
        producer.leader_epoch is None,
        producer.tuning == client.producer,
        producer.max_retries == client.max_retries,
        identity.producer_id == producer_id,
        identity.epoch == epoch,
        identity.first_sequence == first_sequence,
        identity.event_id == Some(event_id),
{
}

/// Resuming a producer and giving it a leader's epoch change just that.
pub proof fn producers_resume_where_told(
    producer: Producer,
    next_sequence: u64,
    leader_epoch: u64,
    resumed: Producer,
    led: Producer,
)
    requires
        call_ensures(Producer::resume_at, (producer, next_sequence), resumed),
        call_ensures(Producer::with_leader_epoch, (producer, leader_epoch), led),
    ensures
        resumed.next_sequence == next_sequence,
        resumed.producer_id == producer.producer_id,
        resumed.epoch == producer.epoch,
        resumed.leader_epoch == producer.leader_epoch,
        led.leader_epoch == Some(leader_epoch),
        led.next_sequence == producer.next_sequence,
        led.producer_id == producer.producer_id,
        led.epoch == producer.epoch,
{
}

/// A failure that the server explained is given back as it explained it.
pub proof fn failures_are_given_back(
    status: u16,
    shown: &str,
    problem: ProblemBody,
    error: ClientError,
)
    requires
        call_ensures(
            api_error_shown,
            (status, shown, Ok::<ProblemBody, String>(problem)),
            error,
        ),
    ensures
        error@ == (ClientFault::Api {
            status,
            code: problem.code@,
            message: problem.message@,
            retryable: problem.retryable,
        }),
{
}

/// Fetches ask for at least a byte, and those by cursor are in order.
pub proof fn fetches_ask_for_something(
    consumer: Consumer,
    logical: LogicalConsumer,
    max_bytes: u32,
    mode: FetchMode,
    result: Result<(), ClientError>,
    result_of_logical: Result<(), ClientError>,
)
    requires
        call_ensures(Consumer::plan_fetch, (&consumer, max_bytes), result),
        call_ensures(LogicalConsumer::plan_fetch, (&logical, max_bytes, mode), result_of_logical),
    ensures
        result is Ok <==> max_bytes > 0,
        result_of_logical is Ok <==> max_bytes > 0 && mode != FetchMode::AsAvailable,
{
}

/// A new consumer takes up exactly its own partition's cursor, once that passed its check.
pub proof fn first_cursors_are_of_their_partition(
    consumer: LogicalConsumer,
    cursor: LogicalTopicCursor,
    checked: Result<(), String>,
    result: Result<LogicalTopicCursor, ClientError>,
)
    requires
        call_ensures(LogicalConsumer::accept_initial, (&consumer, cursor, checked), result),
    ensures
        result is Ok <==> checked is Ok && cursor.topic_partition.topic_id == consumer.topic_id
            && cursor.topic_partition.partition_id == consumer.partition_id,
        result is Ok ==> result->Ok_0 == cursor,
{
}

/// A text loses the slashes at its end and nothing else.
pub proof fn only_slashes_are_trimmed(text: &str, trimmed: &str, index: int)
    requires
        call_ensures(trim_slashes, (text,), trimmed),
    ensures
        trimmed@.len() <= text@.len(),
        trimmed@ == text@.take(trimmed@.len() as int),
        trimmed@.len() > 0 ==> trimmed@.last() != '/',
        trimmed@.len() <= index < text@.len() ==> text@[index] == '/',
{
    lemma_trailing_slashes(text@);
    assert(trimmed@ =~= text@.take(trimmed@.len() as int));
}

proof fn lemma_trailing_slashes(s: Seq<char>)
    ensures
        trailing_slashes(s) <= s.len(),
        trailing_slashes(s) < s.len() ==> s[s.len() - trailing_slashes(s) - 1] != '/',
        forall|i: int| s.len() - trailing_slashes(s) <= i < s.len() ==> s[i] == '/',
    decreases s.len(),
{
    if s.len() > 0 && s.last() == '/' {
        let rest = s.drop_last();
        lemma_trailing_slashes(rest);
        assert forall|i: int| s.len() - trailing_slashes(s) <= i < s.len() implies s[i] == '/' by {
            if i < rest.len() {
                assert(rest[i] == s[i]);
            }
        }
        if trailing_slashes(s) < s.len() {
            let at = rest.len() - trailing_slashes(rest) - 1;
            assert(rest[at] == s[at]);
        }
    }
}

} // verus!
