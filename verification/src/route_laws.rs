//! What callers over HTTP and RPC are told, and where their requests go.
use vstd::prelude::*;

use crate::bytes::le_bytes;
use crate::dispatch::coordinator_index;
use crate::error::EngineError;
use crate::http_route::{
    append_from_query, certificate_chain, fetch_from_query, find_route, grow_body, output_limit,
    pair_views, parse_durability, parse_fetch_mode, parse_producer, parse_u128, parse_u32,
    query_value, receipt_body, validate_limits, value_of, H3Error, HttpMethod, ReceiptBody,
    Route, RouteError, BATCH_ROOM_BYTES,
};
use crate::ids::{BrokerId, LeaderEpoch, LogicalPartitionId, ShardId, TopicId, TopicPartition};
use crate::maps::PairMap;
use crate::pool::{distribute, merge_partitions};
use crate::protocol::{
    AppendRequest, AppendResponse, Durability, FetchMode, FetchRequest, ProducerIdentity,
};
use crate::text::{decimal, decimal_parses_back, decimal_string};
use crate::topology::{
    broker_numbered, AssignmentProvider, BrokerDescriptor, PartitionAssignment,
    SingleNodeAssignment,
};
use crate::wire::{
    adopt_leader_epoch, encode_u128, engine_status, ensure_local, generation_status, join_u128,
    Status, StatusCode, TopicRouteError, TopicRouteErrorCode, UInt128,
};

verus! {

/// A number is sent as its upper and its lower half, and is read as it was sent.
pub proof fn numbers_are_sent_in_halves(value: u128, halves: UInt128, joined: u128)
    requires
        call_ensures(encode_u128, (value,), halves),
        call_ensures(join_u128, (halves,), joined),
    ensures
        value == halves.high * 0x1_0000_0000_0000_0000 + halves.low,
        joined == value,
{
}

/// Both surfaces answer a failure alike: with the same text, in the same class, and
/// HTTP calls it worth a retry exactly when RPC calls it unavailable.
pub proof fn surfaces_answer_alike(error: EngineError, answer: RouteError, status: Status)
    requires
        call_ensures(RouteError::from_engine, (&error,), answer),
        call_ensures(engine_status, (&error,), status),
    ensures
        answer.message@ == status.message@,
        answer.status == 400 <==> status.code == StatusCode::InvalidArgument,
        answer.status == 404 <==> status.code == StatusCode::NotFound,
        answer.status == 409 <==> status.code == StatusCode::FailedPrecondition,
        answer.status == 416 <==> status.code == StatusCode::OutOfRange,
        answer.status == 500 <==> status.code == StatusCode::Internal,
        answer.status == 501 <==> status.code == StatusCode::Unimplemented,
        answer.status == 429 || answer.status == 503 <==> status.code == StatusCode::Unavailable,
        answer.retryable <==> status.code == StatusCode::Unavailable,
{
}

/// A refused request is the caller's fault where it was malformed or named what does not
/// exist, the server's where its state is damaged, and worth a retry where something is
/// missing for the moment.
pub proof fn failures_are_classed_by_their_cause(error: EngineError, answer: RouteError)
    requires
        call_ensures(RouteError::from_engine, (&error,), answer),
    ensures
        error is InvalidConfig ==> answer.status == 400 && !answer.retryable,
        error is UnknownPartition || error is UnknownShard || error is UnknownAtomicGroup
            ==> answer.status == 404 && !answer.retryable,
        error is OffsetOutOfRange ==> answer.status == 416 && !answer.retryable,
        error is UnsupportedDurability ==> answer.status == 501 && !answer.retryable,
        error is CorruptState || error is Storage ==> answer.status == 500 && !answer.retryable,
        error is AdmissionLimited ==> answer.status == 429 && answer.retryable,
        error is DurabilityUnavailable || error is ObjectDurabilityUnavailable || error
            is WorkerStopped || error is ReplicaInFlight || error is ReplicaReorderLimited || error
            is ReplicaBufferLimited || error is DurableSinkCheckpoint || error
            is DurableSinkUnavailable ==> answer.status == 503 && answer.retryable,
        error is ProducerSequenceOutOfOrder || error is ProducerRequiresNewEpoch || error
            is DuplicateSequenceMismatch || error is AtomicGroupFinalized || error
            is AtomicGroupSequenceOutOfOrder || error is AtomicGroupChunkMismatch || error
            is TopicAlreadyExists || error is Fenced ==> answer.status == 409
            && !answer.retryable,
{
}

/// A name that could not be resolved is answered with its own text; only a pause or an
/// outage is called unavailable.
pub proof fn unresolved_names_are_answered(error: TopicRouteError, status: Status)
    requires
        call_ensures(generation_status, (error,), status),
    ensures
        status.message@ == error.message@,
        status.code == StatusCode::Unavailable <==> error.code == TopicRouteErrorCode::WritePaused
            || error.code == TopicRouteErrorCode::Unavailable,
        status.code == StatusCode::NotFound <==> error.code == TopicRouteErrorCode::NotFound,
        status.code == StatusCode::InvalidArgument <==> error.code
            == TopicRouteErrorCode::InvalidInput,
        status.code == StatusCode::FailedPrecondition <==> error.code
            == TopicRouteErrorCode::SdkUpgradeRequired || error.code
            == TopicRouteErrorCode::StaleGeneration || error.code == TopicRouteErrorCode::Corrupt,
{
}

/// An append keeps the epoch that it names; one that names none gets its assignment's.
pub proof fn appends_keep_their_epoch(
    named: Option<LeaderEpoch>,
    assignment: Option<PartitionAssignment>,
    epoch: Option<LeaderEpoch>,
)
    requires
        call_ensures(adopt_leader_epoch, (named, assignment), epoch),
    ensures
        named is Some ==> epoch == named,
        named is None && assignment is Some ==> epoch == Some(assignment->0.leader_epoch),
        named is None && assignment is None ==> epoch is None,
{
}

/// A broker serves a partition exactly when it leads it; otherwise it names the broker
/// that does, where that is known.
pub proof fn partitions_are_served_by_their_leader<A: AssignmentProvider>(
    assignments: A,
    topic_partition: TopicPartition,
    result: Result<(), Status>,
)
    requires
        call_ensures(ensure_local::<A>, (&assignments, topic_partition), result),
    ensures
        result is Ok <==> assignments.spec_leader(topic_partition) == Some(
            assignments.spec_local(),
        ),
        assignments.spec_leader(topic_partition) is None ==> result is Err && result->Err_0.code
            == StatusCode::NotFound,
        result is Err && assignments.spec_leader(topic_partition) is Some && broker_numbered(
            assignments.published(),
            assignments.spec_leader(topic_partition)->0,
        ) is Some ==> result->Err_0.code == StatusCode::FailedPrecondition
            && result->Err_0.message@ == "not partition coordinator; retry "@ + broker_numbered(
            assignments.published(),
            assignments.spec_leader(topic_partition)->0,
        )->0.advertised_grpc@,
{
}

/// A broker is found by its number exactly when one of that number is known, and it is
/// one of the known ones.
pub proof fn brokers_are_found_by_number(
    brokers: Seq<BrokerDescriptor>,
    broker_id: BrokerId,
    index: int,
)
    ensures
        broker_numbered(brokers, broker_id) matches Some(found) ==> found.broker_id == broker_id
            && brokers.contains(found),
        0 <= index < brokers.len() && brokers[index].broker_id == broker_id ==> broker_numbered(
            brokers,
            broker_id,
        ) is Some,
    decreases brokers.len(),
{
    if brokers.len() > 0 && brokers[0].broker_id != broker_id {
        let rest = brokers.skip(1);
        brokers_are_found_by_number(rest, broker_id, index - 1);
        if broker_numbered(rest, broker_id) is Some {
            let found = broker_numbered(rest, broker_id)->0;
            let i = choose|i: int| 0 <= i < rest.len() && rest[i] == found;
            assert(brokers[i + 1] == found);
        }
    } else if brokers.len() > 0 {
        assert(brokers[0].broker_id == broker_id);
    }
}

/// An assignment is accepted exactly when its leader and its preferred follower are
/// different replicas of it, no replica comes twice, and it has lanes and a quorum that
/// its replicas can make up.
pub proof fn assignments_are_accepted_when_they_fit(
    assignment: PartitionAssignment,
    result: Result<(), String>,
)
    requires
        call_ensures(PartitionAssignment::validate, (&assignment,), result),
    ensures
        result is Ok <==> {
            &&& assignment.virtual_lane_count >= 1
            &&& 1 <= assignment.min_in_sync_replicas <= assignment.replicas@.len()
            &&& assignment.replicas@.contains(assignment.leader)
            &&& assignment.preferred_follower is Some ==> assignment.preferred_follower->0
                != assignment.leader && assignment.replicas@.contains(
                assignment.preferred_follower->0,
            )
            &&& forall|i: int, j: int|
                0 <= i < j < assignment.replicas@.len() ==> #[trigger] assignment.replicas@[i]
                    != #[trigger] assignment.replicas@[j]
        },
{
}

/// The lanes of an assignment are numbered from zero, each once.
pub proof fn assignment_lanes_are_numbered(
    assignment: PartitionAssignment,
    lanes: Vec<ShardId>,
    index: int,
)
    requires
        call_ensures(PartitionAssignment::virtual_lanes, (&assignment,), lanes),
        0 <= index < assignment.virtual_lane_count,
    ensures
        lanes@.len() == assignment.virtual_lane_count,
        lanes@[index].0 == index,
{
}

/// A single node takes every broker whose number fits, whose host and port come
/// together, and that has lanes; and it keeps what it was given.
pub proof fn single_nodes_are_what_they_were_given(
    broker: BrokerDescriptor,
    lanes: u32,
    result: Result<SingleNodeAssignment, String>,
)
    requires
        call_ensures(SingleNodeAssignment::new, (broker, lanes), result),
    ensures
        result is Ok <==> broker.broker_id.0 <= 0x7fff_ffff && lanes >= 1 && (
        broker.kafka_host@.len() == 0 <==> broker.kafka_port == 0),
        result is Ok ==> result->Ok_0.spec_broker() == broker && result->Ok_0.spec_lanes()
            == lanes,
{
}

/// A recovered partition is with the worker that requests about it go to, unchanged, and
/// with no other.
pub proof fn partitions_are_where_requests_go<V>(
    worker_count: usize,
    recovered: PairMap<V>,
    states: Vec<PairMap<V>>,
    topic_partition: TopicPartition,
    index: usize,
    other: int,
)
    requires
        worker_count > 0,
        call_ensures(distribute::<V>, (worker_count, recovered), states),
        call_ensures(coordinator_index, (topic_partition, worker_count), index),
        recovered@.contains_key(
            (topic_partition.topic_id.0, topic_partition.partition_id.0 as u128),
        ),
        0 <= other < worker_count,
        other != index,
    ensures
        ({
            let key = (topic_partition.topic_id.0, topic_partition.partition_id.0 as u128);
            &&& states@.len() == worker_count
            &&& index < worker_count
            &&& states@[index as int]@.contains_key(key)
            &&& states@[index as int]@[key] == recovered@[key]
            &&& !states@[other]@.contains_key(key)
        }),
{
    let key = (topic_partition.topic_id.0, topic_partition.partition_id.0 as u128);
    assert(crate::pool::keyed_partition(key) == topic_partition);
    assert(states@[index as int]@.contains_key(key));
    assert(!states@[other]@.contains_key(key));
}

/// The partitions of all workers come out in the order of topics and numbers, none lost
/// and none added.
pub proof fn merged_partitions_are_in_order(
    lists: Vec<Vec<TopicPartition>>,
    partitions: Vec<TopicPartition>,
    one: int,
    other: int,
)
    requires
        call_ensures(merge_partitions, (lists,), partitions),
        0 <= one < other < partitions@.len(),
    ensures
        partitions@[one].topic_id.0 <= partitions@[other].topic_id.0,
        partitions@[one].topic_id.0 == partitions@[other].topic_id.0
            ==> partitions@[one].partition_id.0 <= partitions@[other].partition_id.0,
        partitions@.to_multiset() == crate::pool::joined(lists@).to_multiset(),
{
    assert(crate::pool::precedes(partitions@[one], partitions@[other]));
}

/// Numbers are written in base ten: one digit below ten, and otherwise the text of the
/// tenth part with the last digit behind it.
pub proof fn numbers_are_written_in_base_ten(
    number: u128,
    digit: u128,
    text: String,
    text_of_more: String,
    text_of_digit: String,
)
    requires
        0 < number,
        digit < 10,
        number * 10 + digit <= u128::MAX,
        call_ensures(decimal_string, (number,), text),
        call_ensures(decimal_string, ((number * 10 + digit) as u128,), text_of_more),
        call_ensures(decimal_string, (digit,), text_of_digit),
    ensures
        text_of_digit@.len() == 1,
        text_of_digit@[0] as u32 == '0' as u32 + digit,
        text_of_more@ == text@ + text_of_digit@,
{
    let more = (number * 10 + digit) as nat;
    assert(more / 10 == number && more % 10 == digit);
    assert(text_of_more@ =~= text@ + text_of_digit@);
}

/// Numbers are stored with their lowest byte first.
pub proof fn numbers_are_stored_lowest_byte_first(value: nat, len: nat)
    requires
        len > 0,
    ensures
        le_bytes(value, len)[0] == value % 256,
        le_bytes(value, len).skip(1) == le_bytes(value / 256, (len - 1) as nat),
{
    assert(le_bytes(value, len).skip(1) =~= le_bytes(value / 256, (len - 1) as nat));
}

/// The receipt of an append is read back from its answer, number by number.
pub proof fn receipts_read_back(
    response: AppendResponse,
    body: ReceiptBody,
    field: &str,
    request_id: Result<u128, RouteError>,
    batch_id: Result<u128, RouteError>,
    first_offset: Result<u128, RouteError>,
    last_offset: Result<u128, RouteError>,
    sequence: Result<u128, RouteError>,
    texts: (&str, &str, &str, &str, &str),
)
    requires
        call_ensures(receipt_body, (&response,), body),
        texts.0@ == body.request_id@,
        texts.1@ == body.batch_id@,
        texts.2@ == body.first_offset@,
        texts.3@ == body.last_offset@,
        texts.4@ == body.placement_sequence@,
        call_ensures(parse_u128, (field, texts.0), request_id),
        call_ensures(parse_u128, (field, texts.1), batch_id),
        call_ensures(parse_u128, (field, texts.2), first_offset),
        call_ensures(parse_u128, (field, texts.3), last_offset),
        call_ensures(parse_u128, (field, texts.4), sequence),
    ensures
        request_id == Ok::<u128, RouteError>(response.request_id),
        batch_id == Ok::<u128, RouteError>(response.batch_id.0),
        first_offset == Ok::<u128, RouteError>(response.first_offset.0 as u128),
        last_offset == Ok::<u128, RouteError>(response.last_offset.0 as u128),
        sequence == Ok::<u128, RouteError>(response.placement.sequence.0 as u128),
        body.shard_id == response.placement.virtual_lane_id.0,
        body.ring_epoch == response.placement.ring_epoch.0,
{
    decimal_parses_back(response.request_id as nat, u128::MAX as nat);
    decimal_parses_back(response.batch_id.0 as nat, u128::MAX as nat);
    decimal_parses_back(response.first_offset.0 as nat, u128::MAX as nat);
    decimal_parses_back(response.last_offset.0 as nat, u128::MAX as nat);
    decimal_parses_back(response.placement.sequence.0 as nat, u128::MAX as nat);
}

/// Every number that fits is read from its decimal text; one that does not fit is a
/// malformed request.
pub proof fn numbers_are_read_within_bounds(
    field: &str,
    text: &str,
    number: u128,
    wide: Result<u128, RouteError>,
    narrow: Result<u32, RouteError>,
)
    requires
        text@ == decimal(number as nat),
        call_ensures(parse_u128, (field, text), wide),
        call_ensures(parse_u32, (field, text), narrow),
    ensures
        wide == Ok::<u128, RouteError>(number),
        number <= u32::MAX ==> narrow == Ok::<u32, RouteError>(number as u32),
        number > u32::MAX ==> narrow is Err && narrow->Err_0.status == 400,
{
    decimal_parses_back(number as nat, u128::MAX as nat);
    if number <= u32::MAX {
        decimal_parses_back(number as nat, u32::MAX as nat);
    }
}

/// Of several values of a name, the last one counts; a name that does not occur has none.
pub proof fn last_values_count(
    pairs: Vec<(String, String)>,
    name: &str,
    value: Option<&str>,
    index: int,
)
    requires
        call_ensures(query_value, (&pairs, name), value),
        0 <= index < pairs@.len(),
        forall|i: int| index < i < pairs@.len() ==> (#[trigger] pairs@[i]).0@ != name@,
    ensures
        pairs@[index].0@ == name@ ==> value is Some && value->0@ == pairs@[index].1@,
{
    if pairs@[index].0@ == name@ {
        lemma_last_value(pair_views(pairs@), name@, index);
        assert(pair_views(pairs@)[index].1 == pairs@[index].1@);
    }
}

proof fn lemma_last_value(pairs: Seq<(Seq<char>, Seq<char>)>, name: Seq<char>, index: int)
    requires
        0 <= index < pairs.len(),
        pairs[index].0 == name,
        forall|i: int| index < i < pairs.len() ==> (#[trigger] pairs[i]).0 != name,
    ensures
        value_of(pairs, name) == Some(pairs[index].1),
    decreases pairs.len(),
{
    if index < pairs.len() - 1 {
        assert(pairs[pairs.len() - 1].0 != name);
        lemma_last_value(pairs.drop_last(), name, index);
    }
}

proof fn lemma_no_value(pairs: Seq<(Seq<char>, Seq<char>)>, name: Seq<char>)
    requires
        forall|i: int| 0 <= i < pairs.len() ==> (#[trigger] pairs[i]).0 != name,
    ensures
        value_of(pairs, name) is None,
    decreases pairs.len(),
{
    if pairs.len() > 0 {
        assert(pairs[pairs.len() - 1].0 != name);
        lemma_no_value(pairs.drop_last(), name);
    }
}

/// A name that no pair has is absent.
pub proof fn missing_names_have_no_value(
    pairs: Vec<(String, String)>,
    name: &str,
    value: Option<&str>,
)
    requires
        call_ensures(query_value, (&pairs, name), value),
        forall|i: int| 0 <= i < pairs@.len() ==> (#[trigger] pairs@[i]).0@ != name@,
    ensures
        value is None,
{
    let views = pair_views(pairs@);
    assert forall|i: int| 0 <= i < views.len() implies (#[trigger] views[i]).0 != name@ by {
        assert(pairs@[i].0@ != name@);
    }
    lemma_no_value(views, name@);
}

/// Durabilities and fetch modes have their names; without a name, an append waits for the
/// leader and a fetch is in order; any other name is refused.
pub proof fn names_mean_what_they_say(
    name: &str,
    durability: Result<Durability, RouteError>,
    default_durability: Result<Durability, RouteError>,
    mode: Result<FetchMode, RouteError>,
    default_mode: Result<FetchMode, RouteError>,
)
    requires
        call_ensures(parse_durability, (Some(name),), durability),
        call_ensures(parse_durability, (None::<&str>,), default_durability),
        call_ensures(parse_fetch_mode, (Some(name),), mode),
        call_ensures(parse_fetch_mode, (None::<&str>,), default_mode),
    ensures
        name@ == "leader"@ ==> durability == Ok::<Durability, RouteError>(Durability::Leader),
        name@ == "quorum"@ ==> durability == Ok::<Durability, RouteError>(Durability::Quorum),
        name@ == "object"@ ==> durability == Ok::<Durability, RouteError>(Durability::Object),
        name@ != "leader"@ && name@ != "quorum"@ && name@ != "object"@ ==> durability is Err
            && durability->Err_0.status == 400,
        default_durability == Ok::<Durability, RouteError>(Durability::Leader),
        name@ == "ordered"@ ==> mode == Ok::<FetchMode, RouteError>(FetchMode::Ordered),
        name@ == "as_available"@ ==> mode == Ok::<FetchMode, RouteError>(FetchMode::AsAvailable),
        name@ != "ordered"@ && name@ != "as_available"@ ==> mode is Err && mode->Err_0.status
            == 400,
        default_mode == Ok::<FetchMode, RouteError>(FetchMode::Ordered),
{
    reveal_strlit("leader");
    reveal_strlit("quorum");
    reveal_strlit("object");
    reveal_strlit("ordered");
    reveal_strlit("as_available");
    assert("leader"@[0] == 'l' && "quorum"@[0] == 'q' && "object"@[0] == 'o');
    assert("ordered"@.len() == 7 && "as_available"@.len() == 12);
}

/// A producer is named whole or not at all.
pub proof fn producers_are_named_whole(
    query: Vec<(String, String)>,
    id: Option<&str>,
    epoch: Option<&str>,
    sequence: Option<&str>,
    result: Result<Option<ProducerIdentity>, RouteError>,
    names: (&str, &str, &str),
)
    requires
        names.0@ == "producer_id"@,
        names.1@ == "producer_epoch"@,
        names.2@ == "first_sequence"@,
        call_ensures(query_value, (&query, names.0), id),
        call_ensures(query_value, (&query, names.1), epoch),
        call_ensures(query_value, (&query, names.2), sequence),
        call_ensures(parse_producer, (&query,), result),
    ensures
        id is None && epoch is None && sequence is None ==> result == Ok::<
            Option<ProducerIdentity>,
            RouteError,
        >(None),
        (id is Some || epoch is Some || sequence is Some) && (id is None || epoch is None
            || sequence is None) ==> result is Err && result->Err_0.status == 400,
        forall|producer_id: u128, number: u32, first: u64| #![trigger decimal(producer_id as nat), decimal(number as nat), decimal(first as nat)]
            id is Some && epoch is Some && sequence is Some && id->0@ == decimal(
                producer_id as nat,
            ) && epoch->0@ == decimal(number as nat) && sequence->0@ == decimal(first as nat)
                ==> result == Ok::<Option<ProducerIdentity>, RouteError>(
                Some(
                    ProducerIdentity {
                        producer_id,
                        epoch: number,
                        first_sequence: first,
                        event_id: None,
                    },
                ),
            ),
{
    assert forall|producer_id: u128, number: u32, first: u64|
        #![trigger decimal(producer_id as nat), decimal(number as nat), decimal(first as nat)]
        id is Some && epoch is Some && sequence is Some && id->0@ == decimal(producer_id as nat)
            && epoch->0@ == decimal(number as nat) && sequence->0@ == decimal(
            first as nat,
        ) implies result == Ok::<Option<ProducerIdentity>, RouteError>(
        Some(
            ProducerIdentity {
                producer_id,
                epoch: number,
                first_sequence: first,
                event_id: None,
            },
        ),
    ) by {
        decimal_parses_back(producer_id as nat, u128::MAX as nat);
        decimal_parses_back(number as nat, u32::MAX as nat);
        decimal_parses_back(first as nat, u64::MAX as nat);
    }
}

/// An append with an empty query is one record for the leader alone, under the server's
/// own number; and every append goes to the partition of its path with the bytes of its
/// body.
pub proof fn appends_have_defaults(
    topic_id: TopicId,
    partition_id: LogicalPartitionId,
    query: Vec<(String, String)>,
    payload: Vec<u8>,
    next_request_id: u128,
    result: Result<AppendRequest, RouteError>,
)
    requires
        call_ensures(
            append_from_query,
            (topic_id, partition_id, &query, payload, next_request_id),
            result,
        ),
    ensures
        result matches Ok(request) ==> {
            &&& request.topic_id == topic_id
            &&& request.partition_id == partition_id
            &&& request.payload@ == payload@
            &&& request.atomic_group is None
            &&& request.leader_epoch is None
            &&& request.extension_context is None
        },
        query@.len() == 0 ==> result is Ok && result->Ok_0.record_count == 1
            && result->Ok_0.durability == Durability::Leader && result->Ok_0.request_id
            == next_request_id && result->Ok_0.producer is None,
        result is Err ==> result->Err_0.status == 400,
{
}

/// A fetch with an empty query starts at zero, in order, with the server's budget; and
/// every fetch goes to the partition of its path.
pub proof fn fetches_have_defaults(
    topic_id: TopicId,
    partition_id: LogicalPartitionId,
    query: Vec<(String, String)>,
    max_fetch_bytes: usize,
    next_request_id: u128,
    result: Result<FetchRequest, RouteError>,
)
    requires
        call_ensures(
            fetch_from_query,
            (topic_id, partition_id, &query, max_fetch_bytes, next_request_id),
            result,
        ),
    ensures
        result matches Ok(request) ==> request.topic_id == topic_id && request.partition_id
            == partition_id,
        query@.len() == 0 ==> result is Ok && result->Ok_0.start_offset.0 == 0
            && result->Ok_0.mode == FetchMode::Ordered && result->Ok_0.request_id
            == next_request_id && result->Ok_0.max_bytes <= max_fetch_bytes && (
        result->Ok_0.max_bytes == max_fetch_bytes || result->Ok_0.max_bytes == u32::MAX),
        result is Err ==> result->Err_0.status == 400,
{
}

/// What is posted to a partition's records is appended and what is got from them is
/// fetched, for the same partition; other methods are refused, and so are other paths.
pub proof fn methods_choose_the_route(
    path: &str,
    posted: Result<Route, RouteError>,
    got: Result<Route, RouteError>,
    other: Result<Route, RouteError>,
)
    requires
        call_ensures(find_route, (HttpMethod::Post, path), posted),
        call_ensures(find_route, (HttpMethod::Get, path), got),
        call_ensures(find_route, (HttpMethod::Other, path), other),
    ensures
        path@ == "/healthz"@ ==> got == Ok::<Route, RouteError>(Route::Health),
        path@ != "/healthz"@ && posted is Ok ==> posted->Ok_0 is Append && got == Ok::<
            Route,
            RouteError,
        >(Route::Fetch(posted->Ok_0->Append_0, posted->Ok_0->Append_1)),
        path@ != "/healthz"@ && got is Ok ==> posted is Ok,
        other is Err,
        posted is Ok ==> other->Err_0.status == 405,
        posted is Err ==> other->Err_0.status == posted->Err_0.status,
{
}

/// A body grows by its chunks up to the limit, and never past it.
pub proof fn bodies_stay_within_their_limit(
    length: usize,
    chunk: usize,
    max_bytes: usize,
    result: Result<usize, RouteError>,
)
    requires
        call_ensures(grow_body, (length, chunk, max_bytes), result),
    ensures
        result is Ok <==> length + chunk <= max_bytes,
        result is Ok ==> result->Ok_0 == length + chunk,
        result is Err ==> result->Err_0.status == 413 && !result->Err_0.retryable,
{
}

/// An answer has room for what was fetched and for each batch besides, as far as a
/// counter goes.
pub proof fn answers_have_room(
    max_fetch_bytes: usize,
    batches: usize,
    limit: usize,
    limit_of_more: usize,
    limit_of_none: usize,
)
    requires
        batches < usize::MAX,
        call_ensures(output_limit, (max_fetch_bytes, batches), limit),
        call_ensures(output_limit, (max_fetch_bytes, (batches + 1) as usize), limit_of_more),
        call_ensures(output_limit, (max_fetch_bytes, 0usize), limit_of_none),
    ensures
        limit_of_none == max_fetch_bytes,
        limit_of_more == limit + BATCH_ROOM_BYTES || limit_of_more == usize::MAX,
        limit <= limit_of_more,
{
}

/// A listener needs room for a batch and for a fetch.
pub proof fn listeners_need_limits(
    max_batch_bytes: usize,
    max_fetch_bytes: usize,
    result: Result<(), H3Error>,
)
    requires
        call_ensures(validate_limits, (max_batch_bytes, max_fetch_bytes), result),
    ensures
        result is Ok <==> max_batch_bytes >= 1 && max_fetch_bytes >= 1,
{
}

/// A chain of certificates that was read is never empty.
pub proof fn certificate_chains_are_not_empty(
    bytes: Vec<u8>,
    result: Result<Vec<Vec<u8>>, H3Error>,
)
    requires
        call_ensures(certificate_chain, (bytes,), result),
        result is Ok,
    ensures
        result->Ok_0@.len() > 0,
{
    assert(crate::http_route::byte_views(result->Ok_0@).len() == result->Ok_0@.len());
}

} // verus!
