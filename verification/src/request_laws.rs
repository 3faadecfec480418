//! What a request over HTTP asks for is what its path and its query say.
use vstd::prelude::*;

use crate::client::partition_path;
use crate::http_route::{
    append_from_query, fetch_from_query, leading_slashes, parse_durability, parse_fetch_mode,
    parse_producer, parse_records_path, parse_u128, parse_u32, query_value, segments,
    trailing_slashes, trimmed, RouteError,
};
use crate::ids::{LogicalPartitionId, TopicId};
use crate::protocol::{AppendRequest, Durability, FetchMode, FetchRequest, ProducerIdentity};
use crate::text::{decimal, decimal_parses_back, is_digit, lemma_decimal_digits};

verus! {

/// A value of a query spells a number; an absent one leaves the number as it would be
/// without it.
pub open spec fn spells(value: Option<&str>, number: nat, otherwise: nat) -> bool {
    match value {
        Some(text) => text@ == decimal(number),
        None => number == otherwise,
    }
}

/// An append has the number, the count of records, the durability and the producer that
/// its query gives it; it is refused only for a durability or a producer that cannot be
/// read.
pub proof fn appends_are_read_from_their_query(
    topic_id: TopicId,
    partition_id: LogicalPartitionId,
    query: Vec<(String, String)>,
    payload: Vec<u8>,
    next_request_id: u128,
    result: Result<AppendRequest, RouteError>,
    names: (&str, &str, &str),
    values: (Option<&str>, Option<&str>, Option<&str>),
    request_id: u128,
    record_count: u32,
    durability: Result<Durability, RouteError>,
    producer: Result<Option<ProducerIdentity>, RouteError>,
)
    requires
        names.0@ == "request_id"@,
        names.1@ == "record_count"@,
        names.2@ == "durability"@,
        call_ensures(query_value, (&query, names.0), values.0),
        call_ensures(query_value, (&query, names.1), values.1),
        call_ensures(query_value, (&query, names.2), values.2),
        spells(values.0, request_id as nat, next_request_id as nat),
        spells(values.1, record_count as nat, 1),
        call_ensures(parse_durability, (values.2,), durability),
        call_ensures(parse_producer, (&query,), producer),
        call_ensures(
            append_from_query,
            (topic_id, partition_id, &query, payload, next_request_id),
            result,
        ),
    ensures
        result is Ok <==> durability is Ok && producer is Ok,
        result matches Ok(request) ==> {
            &&& request.request_id == request_id
            &&& request.record_count == record_count
            &&& request.durability == durability->Ok_0
            &&& request.producer == producer->Ok_0
            &&& request.topic_id == topic_id
            &&& request.partition_id == partition_id
            &&& request.payload == payload
        },
{
    decimal_parses_back(request_id as nat, u128::MAX as nat);
    decimal_parses_back(record_count as nat, u32::MAX as nat);
}

/// A fetch has the number, the offset, the budget and the mode that its query gives it;
/// it is refused only for a mode that cannot be read.
pub proof fn fetches_are_read_from_their_query(
    topic_id: TopicId,
    partition_id: LogicalPartitionId,
    query: Vec<(String, String)>,
    max_fetch_bytes: usize,
    next_request_id: u128,
    result: Result<FetchRequest, RouteError>,
    names: (&str, &str, &str, &str),
    values: (Option<&str>, Option<&str>, Option<&str>, Option<&str>),
    request_id: u128,
    max_bytes: u32,
    offset: u64,
    mode: Result<FetchMode, RouteError>,
)
    requires
        names.0@ == "request_id"@,
        names.1@ == "max_bytes"@,
        names.2@ == "offset"@,
        names.3@ == "mode"@,
        call_ensures(query_value, (&query, names.0), values.0),
        call_ensures(query_value, (&query, names.1), values.1),
        call_ensures(query_value, (&query, names.2), values.2),
        call_ensures(query_value, (&query, names.3), values.3),
        spells(values.0, request_id as nat, next_request_id as nat),
        spells(
            values.1,
            max_bytes as nat,
            if max_fetch_bytes < u32::MAX {
                max_fetch_bytes as nat
            } else {
                u32::MAX as nat
            },
        ),
        spells(values.2, offset as nat, 0),
        call_ensures(parse_fetch_mode, (values.3,), mode),
        call_ensures(
            fetch_from_query,
            (topic_id, partition_id, &query, max_fetch_bytes, next_request_id),
            result,
        ),
    ensures
        result is Ok <==> mode is Ok,
        result matches Ok(request) ==> {
            &&& request.request_id == request_id
            &&& request.max_bytes == max_bytes
            &&& request.start_offset.0 == offset
            &&& request.mode == mode->Ok_0
            &&& request.topic_id == topic_id
            &&& request.partition_id == partition_id
        },
{
    decimal_parses_back(request_id as nat, u128::MAX as nat);
    decimal_parses_back(max_bytes as nat, u32::MAX as nat);
    decimal_parses_back(offset as nat, u64::MAX as nat);
}

/// A number that cannot be read is never replaced by another one: the request is refused.
pub proof fn unreadable_numbers_are_refused(
    topic_id: TopicId,
    partition_id: LogicalPartitionId,
    query: Vec<(String, String)>,
    payload: Vec<u8>,
    next_request_id: u128,
    append: Result<AppendRequest, RouteError>,
    names: (&str, &str),
    request_id: &str,
    record_count: &str,
    wide: Result<u128, RouteError>,
    narrow: Result<u32, RouteError>,
)
    requires
        names.0@ == "request_id"@,
        names.1@ == "record_count"@,
        call_ensures(query_value, (&query, names.0), Some(request_id)),
        call_ensures(query_value, (&query, names.1), Some(record_count)),
        call_ensures(parse_u128, (names.0, request_id), wide),
        call_ensures(parse_u32, (names.1, record_count), narrow),
        call_ensures(
            append_from_query,
            (topic_id, partition_id, &query, payload, next_request_id),
            append,
        ),
    ensures
        wide is Err || narrow is Err ==> append is Err && append->Err_0.status == 400
            && !append->Err_0.retryable,
{
}

proof fn lemma_one_segment(part: Seq<char>)
    requires
        !part.contains('/'),
    ensures
        segments(part) == seq![part],
    decreases part.len(),
{
    if part.len() > 0 {
        assert(part.contains(part.last()));
        assert forall|c: char| part.drop_last().contains(c) implies part.contains(c) by {
            let i = choose|i: int| 0 <= i < part.drop_last().len() && part.drop_last()[i] == c;
            assert(part[i] == c);
        }
        lemma_one_segment(part.drop_last());
        assert(part.drop_last().push(part.last()) =~= part);
        assert(segments(part) =~= seq![part]);
    } else {
        assert(part =~= Seq::empty());
    }
}

proof fn lemma_next_segment(before: Seq<char>, part: Seq<char>)
    requires
        !part.contains('/'),
    ensures
        segments(before + "/"@ + part) == segments(before).push(part),
    decreases part.len(),
{
    reveal_strlit("/");
    let whole = before + "/"@ + part;
    if part.len() > 0 {
        assert(part.contains(part.last()));
        assert forall|c: char| part.drop_last().contains(c) implies part.contains(c) by {
            let i = choose|i: int| 0 <= i < part.drop_last().len() && part.drop_last()[i] == c;
            assert(part[i] == c);
        }
        lemma_next_segment(before, part.drop_last());
        assert(whole.drop_last() =~= before + "/"@ + part.drop_last());
        assert(whole.last() == part.last());
        assert(part.drop_last().push(part.last()) =~= part);
        assert(segments(whole) =~= segments(before).push(part));
    } else {
        assert(part =~= Seq::empty());
        assert(whole.drop_last() =~= before);
        assert(whole.last() == '/');
    }
}

proof fn lemma_digits_hold_no_slash(n: nat)
    ensures
        !decimal(n).contains('/'),
{
    lemma_decimal_digits(n);
    if decimal(n).contains('/') {
        let i = choose|i: int| 0 <= i < decimal(n).len() && decimal(n)[i] == '/';
        assert(is_digit(decimal(n)[i]));
    }
}

proof fn lemma_trimmed(core: Seq<char>, path: Seq<char>)
    requires
        core.len() > 0,
        core[0] != '/',
        core.last() != '/',
        path == core || path == "/"@ + core,
    ensures
        trimmed(path) == core,
{
    reveal_strlit("/");
    reveal_with_fuel(leading_slashes, 2);
    if path != core {
        assert(path[0] == '/');
        assert(path.skip(1) =~= core);
    }
    assert(path.skip(leading_slashes(path) as int) =~= core);
    assert(trailing_slashes(core) == 0);
    assert(core.take(core.len() as int) =~= core);
}

/// The path that a client sends for the records of a partition, with a slash in front of
/// it or without, is read as that partition of that topic.
pub proof fn partitions_are_read_from_their_path(
    topic_id: TopicId,
    partition_id: LogicalPartitionId,
    leaf: &str,
    path: String,
    received: &str,
    result: Result<(TopicId, LogicalPartitionId), RouteError>,
)
    requires
        leaf@ == "records"@,
        call_ensures(partition_path, (topic_id, partition_id, leaf), path),
        received@ == path@ || received@ == "/"@ + path@,
        call_ensures(parse_records_path, (received,), result),
    ensures
        result == Ok::<(TopicId, LogicalPartitionId), RouteError>((topic_id, partition_id)),
{
    let topic = decimal(topic_id.0 as nat);
    let partition = decimal(partition_id.0 as nat);
    reveal_strlit("/");
    reveal_strlit("v1");
    reveal_strlit("topics");
    reveal_strlit("partitions");
    reveal_strlit("records");
    reveal_strlit("v1/topics/");
    reveal_strlit("/partitions/");
    let first = "v1"@ + "/"@ + "topics"@;
    let second = first + "/"@ + topic;
    let third = second + "/"@ + "partitions"@;
    let fourth = third + "/"@ + partition;
    let core = fourth + "/"@ + "records"@;
    assert(path@ =~= core);
    lemma_trimmed(core, received@);
    lemma_digits_hold_no_slash(topic_id.0 as nat);
    lemma_digits_hold_no_slash(partition_id.0 as nat);
    assert(!"v1"@.contains('/'));
    assert(!"topics"@.contains('/'));
    assert(!"partitions"@.contains('/'));
    assert(!"records"@.contains('/'));
    lemma_one_segment("v1"@);
    lemma_next_segment("v1"@, "topics"@);
    lemma_next_segment(first, topic);
    lemma_next_segment(second, "partitions"@);
    lemma_next_segment(third, partition);
    lemma_next_segment(fourth, "records"@);
    decimal_parses_back(topic_id.0 as nat, u128::MAX as nat);
    decimal_parses_back(partition_id.0 as nat, u32::MAX as nat);
}

/// A path that does not lead to the records of a partition is not found, and a topic or a
/// partition that is no number is refused.
pub proof fn other_paths_are_not_found(
    received: &str,
    result: Result<(TopicId, LogicalPartitionId), RouteError>,
)
    requires
        call_ensures(parse_records_path, (received,), result),
        result is Err,
    ensures
        ({
            let parts = segments(trimmed(received@));
            if parts.len() == 6 && parts[0] == "v1"@ && parts[1] == "topics"@ && parts[3]
                == "partitions"@ && parts[5] == "records"@ {
                result->Err_0.status == 400
            } else {
                result->Err_0.status == 404
            }
        }),
        !result->Err_0.retryable,
{
}

} // verus!
