//! HTTP routes of the stream: paths, query strings, requests and error answers.
use vstd::prelude::*;

use crate::error::EngineError;
use crate::ids::{LogicalOffset, LogicalPartitionId, TopicId};
use crate::protocol::{
    AppendRequest, AppendResponse, Durability, FetchMode, FetchRequest, ProducerIdentity,
};
use crate::text::{
    collect_chars, decimal, decimal_string, parse_chars, parse_decimal, parsed_decimal, part_is, same_text,
};

verus! {

/// A refused or failed request, as it is answered.
#[derive(Debug, Clone, PartialEq, Eq)]
pub struct RouteError {
    pub status: u16,
    pub code: &'static str,
    pub message: String,
    pub retryable: bool,
}

/// An error answer with its texts taken by their views.
pub ghost struct RouteFault {
    pub status: u16,
    pub code: Seq<char>,
    pub message: Seq<char>,
    pub retryable: bool,
}

impl View for RouteError {
    type V = RouteFault;

    open spec fn view(&self) -> RouteFault {
        RouteFault {
            status: self.status,
            code: self.code@,
            message: self.message@,
            retryable: self.retryable,
        }
    }
}

/// A result is the one that a model predicts.
pub open spec fn routes_as<T>(result: Result<T, RouteError>, expected: Result<T, RouteFault>) -> bool {
    match (result, expected) {
        (Ok(one), Ok(other)) => one == other,
        (Err(error), Err(fault)) => error@ == fault,
        _ => false,
    }
}

/// The answer to a malformed request.
pub open spec fn bad_request(message: Seq<char>) -> RouteFault {
    RouteFault { status: 400, code: "INVALID_REQUEST"@, message, retryable: false }
}

impl RouteError {
    pub fn new(status: u16, code: &'static str, message: String, retryable: bool) -> (error: Self)
        ensures
            error == (RouteError { status, code, message, retryable }),
    {
        RouteError { status, code, message, retryable }
    }

    pub fn bad_request(message: String) -> (error: Self)
        ensures
            error@ == bad_request(message@),
    {
        RouteError::new(400, "INVALID_REQUEST", message, false)
    }

    pub fn internal(message: String) -> (error: Self)
        ensures
            error@ == (RouteFault {
                status: 500,
                code: "INTERNAL"@,
                message: message@,
                retryable: false,
            }),
    {
        RouteError::new(500, "INTERNAL", message, false)
    }

    /// The answer to a request that the engine refused or could not finish.
    pub open spec fn answers(error: EngineError) -> RouteFault {
        let message = error.describes();
        let (status, code, retryable) = match error {
            EngineError::InvalidConfig(_) => (400u16, "INVALID_REQUEST"@, false),
            EngineError::UnknownPartition { .. } => (404u16, "NOT_FOUND"@, false),
            EngineError::UnknownShard(_) => (404u16, "NOT_FOUND"@, false),
            EngineError::UnknownAtomicGroup(_) => (404u16, "NOT_FOUND"@, false),
            EngineError::AdmissionLimited { .. } => (429u16, "ADMISSION_LIMITED"@, true),
            EngineError::WorkerStopped(_) => (503u16, "DURABILITY_UNAVAILABLE"@, true),
            EngineError::DurabilityUnavailable { .. } => (503u16, "DURABILITY_UNAVAILABLE"@, true),
            EngineError::ObjectDurabilityUnavailable => (503u16, "DURABILITY_UNAVAILABLE"@, true),
            EngineError::ReplicaReorderLimited { .. } => (503u16, "DURABILITY_UNAVAILABLE"@, true),
            EngineError::ReplicaBufferLimited { .. } => (503u16, "DURABILITY_UNAVAILABLE"@, true),
            EngineError::ReplicaInFlight(_) => (503u16, "DURABILITY_UNAVAILABLE"@, true),
            EngineError::DurableSinkCheckpoint(_) => (503u16, "DURABILITY_UNAVAILABLE"@, true),
            EngineError::DurableSinkUnavailable(_) => (503u16, "DURABILITY_UNAVAILABLE"@, true),
            EngineError::OffsetOutOfRange { .. } => (416u16, "OFFSET_OUT_OF_RANGE"@, false),
            EngineError::UnsupportedDurability(_) => (501u16, "DURABILITY_UNAVAILABLE"@, false),
            EngineError::CorruptState(_) => (500u16, "INTERNAL"@, false),
            EngineError::Storage(_) => (500u16, "INTERNAL"@, false),
            _ => (409u16, "CONFLICT"@, false),
        };
        RouteFault { status, code, message, retryable }
    }

    /// Answers a request that the engine refused or could not finish.
    pub fn from_engine(error: &EngineError) -> (answer: Self)
        ensures
            answer@ == Self::answers(*error),
    {
        let message = error.message();
        match error {
            EngineError::InvalidConfig(_) => RouteError::bad_request(message),
            EngineError::UnknownPartition { .. }
            | EngineError::UnknownShard(_)
            | EngineError::UnknownAtomicGroup(_) => RouteError::new(
                404,
                "NOT_FOUND",
                message,
                false,
            ),
            EngineError::AdmissionLimited { .. } => RouteError::new(
                429,
                "ADMISSION_LIMITED",
                message,
                true,
            ),
            EngineError::WorkerStopped(_)
            | EngineError::DurabilityUnavailable { .. }
            | EngineError::ObjectDurabilityUnavailable
            | EngineError::ReplicaReorderLimited { .. }
            | EngineError::ReplicaBufferLimited { .. }
            | EngineError::ReplicaInFlight(_)
            | EngineError::DurableSinkCheckpoint(_)
            | EngineError::DurableSinkUnavailable(_) => RouteError::new(
                503,
                "DURABILITY_UNAVAILABLE",
                message,
                true,
            ),
            EngineError::OffsetOutOfRange { .. } => RouteError::new(
                416,
                "OFFSET_OUT_OF_RANGE",
                message,
                false,
            ),
            EngineError::UnsupportedDurability(_) => RouteError::new(
                501,
                "DURABILITY_UNAVAILABLE",
                message,
                false,
            ),
            EngineError::CorruptState(_) | EngineError::Storage(_) => RouteError::internal(message),
            _ => RouteError::new(409, "CONFLICT", message, false),
        }
    }
}

/// How many slashes a text starts with.
pub open spec fn leading_slashes(s: Seq<char>) -> nat
    decreases s.len(),
{
    if s.len() > 0 && s[0] == '/' {
        1 + leading_slashes(s.skip(1))
    } else {
        0
    }
}

/// How many slashes a text ends with.
pub open spec fn trailing_slashes(s: Seq<char>) -> nat
    decreases s.len(),
{
    if s.len() > 0 && s.last() == '/' {
        1 + trailing_slashes(s.drop_last())
    } else {
        0
    }
}

/// A path without the slashes around it.
pub open spec fn trimmed(s: Seq<char>) -> Seq<char> {
    let rest = s.skip(leading_slashes(s) as int);
    rest.take(rest.len() - trailing_slashes(rest))
}

/// The parts of a path between its slashes.
pub open spec fn segments(s: Seq<char>) -> Seq<Seq<char>>
    decreases s.len(),
{
    if s.len() == 0 {
        seq![Seq::empty()]
    } else {
        let earlier = segments(s.drop_last());
        if s.last() == '/' {
            earlier.push(Seq::empty())
        } else {
            earlier.update(earlier.len() - 1, earlier.last().push(s.last()))
        }
    }
}

proof fn lemma_segments_nonempty(s: Seq<char>)
    ensures
        segments(s).len() > 0,
    decreases s.len(),
{
    if s.len() > 0 {
        lemma_segments_nonempty(s.drop_last());
    }
}

/// Splits a path at its slashes: the bounds of each part.
fn split_path(chars: &Vec<char>, from: usize, to: usize) -> (parts: Vec<(usize, usize)>)
    requires
        from <= to <= chars@.len(),
    ensures
        ({
            let split = segments(chars@.subrange(from as int, to as int));
            &&& parts@.len() == split.len()
            &&& forall|i: int|
                0 <= i < parts@.len() ==> from <= (#[trigger] parts@[i]).0 <= parts@[i].1 <= to
                    && split[i] == chars@.subrange(parts@[i].0 as int, parts@[i].1 as int)
        }),
{
    let mut parts: Vec<(usize, usize)> = Vec::new();
    let mut start: usize = from;
    let mut at: usize = from;
    let ghost whole = chars@.subrange(from as int, to as int);
    proof {
        assert(whole.take(0) =~= Seq::<char>::empty());
        assert(chars@.subrange(from as int, from as int) =~= Seq::<char>::empty());
    }
    while at < to
        invariant
            from <= start <= at <= to <= chars@.len(),
            whole == chars@.subrange(from as int, to as int),
            ({
                let split = segments(whole.take(at - from));
                &&& split.len() == parts@.len() + 1
                &&& forall|i: int|
                    0 <= i < parts@.len() ==> from <= (#[trigger] parts@[i]).0 <= parts@[i].1
                        <= to && split[i] == chars@.subrange(
                        parts@[i].0 as int,
                        parts@[i].1 as int,
                    )
                &&& split.last() == chars@.subrange(start as int, at as int)
            }),
        decreases to - at,
    {
        let ghost before = whole.take(at - from);
        let ghost after = whole.take(at - from + 1);
        proof {
            assert(after.drop_last() =~= before);
            assert(after.last() == chars@[at as int]);
            lemma_segments_nonempty(before);
        }
        if chars[at] == '/' {
            parts.push((start, at));
            start = at + 1;
            proof {
                assert(chars@.subrange(start as int, at + 1) =~= Seq::<char>::empty());
                let split = segments(after);
                assert forall|i: int| 0 <= i < parts@.len() implies from <= (#[trigger] parts@[i]).0
                    <= parts@[i].1 <= to && split[i] == chars@.subrange(
                    parts@[i].0 as int,
                    parts@[i].1 as int,
                ) by {
                    assert(split[i] == segments(before)[i]);
                }
            }
        } else {
            proof {
                assert(chars@.subrange(start as int, at + 1) =~= chars@.subrange(
                    start as int,
                    at as int,
                ).push(chars@[at as int]));
                let split = segments(after);
                assert forall|i: int| 0 <= i < parts@.len() implies from <= (#[trigger] parts@[i]).0
                    <= parts@[i].1 <= to && split[i] == chars@.subrange(
                    parts@[i].0 as int,
                    parts@[i].1 as int,
                ) by {
                    assert(split[i] == segments(before)[i]);
                }
            }
        }
        at += 1;
    }
    proof {
        assert(whole.take(at - from) =~= whole);
    }
    let ghost before = parts@;
    parts.push((start, to));
    proof {
        let split = segments(whole);
        assert forall|i: int| 0 <= i < parts@.len() implies from <= (#[trigger] parts@[i]).0
            <= parts@[i].1 <= to && split[i] == chars@.subrange(
            parts@[i].0 as int,
            parts@[i].1 as int,
        ) by {
            if i < before.len() {
                assert(parts@[i] == before[i]);
            }
        }
    }
    parts
}

/// The bounds of a path without the slashes around it.
fn trim_path(chars: &Vec<char>) -> (bounds: (usize, usize))
    ensures
        bounds.0 <= bounds.1 <= chars@.len(),
        chars@.subrange(bounds.0 as int, bounds.1 as int) == trimmed(chars@),
{
    let mut from: usize = 0;
    proof {
        assert(chars@.skip(0) =~= chars@);
    }
    while from < chars.len() && chars[from] == '/'
        invariant
            from <= chars@.len(),
            leading_slashes(chars@) == from + leading_slashes(chars@.skip(from as int)),
        decreases chars@.len() - from,
    {
        proof {
            assert(chars@.skip(from as int).skip(1) =~= chars@.skip(from + 1));
        }
        from += 1;
    }
    let ghost rest = chars@.skip(from as int);
    let mut to: usize = chars.len();
    proof {
        assert(rest.take(rest.len() as int) =~= rest);
    }
    while to > from && chars[to - 1] == '/'
        invariant
            from <= to <= chars@.len(),
            rest == chars@.skip(from as int),
            trailing_slashes(rest) == chars@.len() - to + trailing_slashes(
                rest.take(to - from),
            ),
        decreases to,
    {
        proof {
            let part = rest.take(to - from);
            assert(part.last() == chars@[to - 1]);
            assert(part.drop_last() =~= rest.take(to - from - 1));
        }
        to -= 1;
    }
    proof {
        if to > from {
            assert(rest.take(to - from).last() == chars@[to - 1]);
        }
        assert(chars@.subrange(from as int, to as int) =~= trimmed(chars@));
    }
    (from, to)
}

/// A number in a request.
pub open spec fn number_field(
    field: Seq<char>,
    text: Seq<char>,
    max: nat,
    kind: Seq<char>,
) -> Result<nat, RouteFault> {
    match parsed_decimal(text, max) {
        Some(value) => Ok(value),
        None => Err(bad_request(field + " must be an unsigned "@ + kind)),
    }
}

fn number_error(field: &str, kind: &str) -> (error: RouteError)
    ensures
        error@ == bad_request(field@ + " must be an unsigned "@ + kind@),
{
    let mut text = field.to_string();
    text.append(" must be an unsigned ");
    text.append(kind);
    RouteError::bad_request(text)
}

pub fn parse_u128(field: &str, value: &str) -> (result: Result<u128, RouteError>)
    ensures
        match (result, number_field(field@, value@, u128::MAX as nat, "u128"@)) {
            (Ok(n), Ok(expected)) => n == expected,
            (Err(error), Err(fault)) => error@ == fault,
            _ => false,
        },
{
    match parse_decimal(value, u128::MAX) {
        Some(n) => Ok(n),
        None => Err(number_error(field, "u128")),
    }
}

pub fn parse_u32(field: &str, value: &str) -> (result: Result<u32, RouteError>)
    ensures
        match (result, number_field(field@, value@, u32::MAX as nat, "u32"@)) {
            (Ok(n), Ok(expected)) => n == expected,
            (Err(error), Err(fault)) => error@ == fault,
            _ => false,
        },
{
    match parse_decimal(value, u32::MAX as u128) {
        Some(n) => Ok(n as u32),
        None => Err(number_error(field, "u32")),
    }
}

/// A path has the form of a partition's records.
pub open spec fn is_records_path(parts: Seq<Seq<char>>) -> bool {
    &&& parts.len() == 6
    &&& parts[0] == "v1"@
    &&& parts[1] == "topics"@
    &&& parts[3] == "partitions"@
    &&& parts[5] == "records"@
}

/// The partition that a path names.
pub open spec fn records_path(path: Seq<char>) -> Result<(TopicId, LogicalPartitionId), RouteFault> {
    let parts = segments(trimmed(path));
    if !is_records_path(parts) {
        Err(
            RouteFault {
                status: 404,
                code: "NOT_FOUND"@,
                message: "unknown HTTP/3 route"@,
                retryable: false,
            },
        )
    } else {
        match number_field("topic_id"@, parts[2], u128::MAX as nat, "u128"@) {
            Err(fault) => Err(fault),
            Ok(topic) => match number_field(
                "partition_id"@,
                parts[4],
                u32::MAX as nat,
                "u32"@,
            ) {
                Err(fault) => Err(fault),
                Ok(partition) => Ok(
                    (TopicId(topic as u128), LogicalPartitionId(partition as u32)),
                ),
            },
        }
    }
}

/// Reads the partition that a path names.
pub fn parse_records_path(path: &str) -> (result: Result<(TopicId, LogicalPartitionId), RouteError>)
    ensures
        routes_as(result, records_path(path@)),
{
    let chars = collect_chars(path);
    let (from, to) = trim_path(&chars);
    let parts = split_path(&chars, from, to);
    let ghost split = segments(trimmed(path@));
    if parts.len() != 6 || !part_is(&chars, parts[0].0, parts[0].1, "v1") || !part_is(
        &chars,
        parts[1].0,
        parts[1].1,
        "topics",
    ) || !part_is(&chars, parts[3].0, parts[3].1, "partitions") || !part_is(
        &chars,
        parts[5].0,
        parts[5].1,
        "records",
    ) {
        return Err(
            RouteError::new(404, "NOT_FOUND", "unknown HTTP/3 route".to_string(), false),
        );
    }
    let topic: u128 = match parse_chars(&chars, parts[2].0, parts[2].1, u128::MAX) {
        Some(topic) => topic,
        None => {
            return Err(number_error("topic_id", "u128"));
        },
    };
    let partition: u32 = match parse_chars(&chars, parts[4].0, parts[4].1, u32::MAX as u128) {
        Some(partition) => partition as u32,
        None => {
            return Err(number_error("partition_id", "u32"));
        },
    };
    Ok((TopicId(topic), LogicalPartitionId(partition)))
}

/// The names and values of a form-encoded text, or why it cannot be read.
pub uninterp spec fn urlencoded_pairs(text: Seq<char>) -> Result<
    Seq<(Seq<char>, Seq<char>)>,
    Seq<char>,
>;

/// The views of names and values.
pub open spec fn pair_views(pairs: Seq<(String, String)>) -> Seq<(Seq<char>, Seq<char>)> {
    pairs.map_values(|pair: (String, String)| (pair.0@, pair.1@))
}

/// Reads names and values with `serde_urlencoded::from_str`, whose result
/// depends on the text alone.
#[verifier::external_body]
fn read_pairs(text: &str) -> (result: Result<Vec<(String, String)>, String>)
    ensures
        match result {
            Ok(pairs) => urlencoded_pairs(text@) == Ok::<_, Seq<char>>(pair_views(pairs@)),
            Err(error) => urlencoded_pairs(text@) == Err::<Seq<(Seq<char>, Seq<char>)>, _>(
                error@,
            ),
        },
{
    serde_urlencoded::from_str::<Vec<(String, String)>>(text).map_err(|error| error.to_string())
}

/// Reads a query string; one that is absent has no names.
pub fn parse_query(query: Option<&str>) -> (result: Result<Vec<(String, String)>, RouteError>)
    ensures
        match query {
            None => result is Ok && result->Ok_0@.len() == 0,
            Some(text) => match (result, urlencoded_pairs(text@)) {
                (Ok(pairs), Ok(views)) => pair_views(pairs@) == views,
                (Err(error), Err(message)) => error@ == bad_request(
                    "invalid query string: "@ + message,
                ),
                _ => false,
            },
        },
{
    match query {
        None => Ok(Vec::new()),
        Some(text) => match read_pairs(text) {
            Ok(pairs) => Ok(pairs),
            Err(error) => {
                let mut message = "invalid query string: ".to_string();
                message.append(error.as_str());
                Err(RouteError::bad_request(message))
            },
        },
    }
}

/// The value of a name: the last one, where it occurs more than once.
pub open spec fn value_of(pairs: Seq<(Seq<char>, Seq<char>)>, name: Seq<char>) -> Option<Seq<char>>
    decreases pairs.len(),
{
    if pairs.len() == 0 {
        None
    } else if pairs.last().0 == name {
        Some(pairs.last().1)
    } else {
        value_of(pairs.drop_last(), name)
    }
}

pub open spec fn text_view(text: Option<&str>) -> Option<Seq<char>> {
    match text {
        Some(t) => Some(t@),
        None => None,
    }
}

/// Finds the value of a name.
pub fn query_value<'a>(pairs: &'a Vec<(String, String)>, name: &str) -> (value: Option<&'a str>)
    ensures
        text_view(value) == value_of(pair_views(pairs@), name@),
{
    let ghost views = pair_views(pairs@);
    let mut at: usize = pairs.len();
    proof {
        assert(views.take(at as int) =~= views);
    }
    while at > 0
        invariant
            at <= pairs@.len(),
            views == pair_views(pairs@),
            value_of(views, name@) == value_of(views.take(at as int), name@),
        decreases at,
    {
        proof {
            assert(views.take(at as int).last() == (pairs@[at - 1].0@, pairs@[at - 1].1@));
            assert(views.take(at as int).drop_last() =~= views.take(at - 1));
        }
        at -= 1;
        if same_text(pairs[at].0.as_str(), name) {
            return Some(pairs[at].1.as_str());
        }
    }
    None
}

pub open spec fn durability_named(value: Option<Seq<char>>) -> Result<Durability, RouteFault> {
    match value {
        None => Ok(Durability::Leader),
        Some(name) => if name == "leader"@ {
            Ok(Durability::Leader)
        } else if name == "quorum"@ {
            Ok(Durability::Quorum)
        } else if name == "object"@ {
            Ok(Durability::Object)
        } else {
            Err(bad_request("durability must be leader, quorum, or object"@))
        },
    }
}

/// Reads how many copies an append waits for; without a name, the leader's.
pub fn parse_durability(value: Option<&str>) -> (result: Result<Durability, RouteError>)
    ensures
        routes_as(result, durability_named(text_view(value))),
{
    let name = match value {
        None => {
            return Ok(Durability::Leader);
        },
        Some(name) => name,
    };
    if same_text(name, "leader") {
        Ok(Durability::Leader)
    } else if same_text(name, "quorum") {
        Ok(Durability::Quorum)
    } else if same_text(name, "object") {
        Ok(Durability::Object)
    } else {
        Err(
            RouteError::bad_request("durability must be leader, quorum, or object".to_string()),
        )
    }
}

pub open spec fn mode_named(value: Option<Seq<char>>) -> Result<FetchMode, RouteFault> {
    match value {
        None => Ok(FetchMode::Ordered),
        Some(name) => if name == "ordered"@ {
            Ok(FetchMode::Ordered)
        } else if name == "as_available"@ {
            Ok(FetchMode::AsAvailable)
        } else {
            Err(bad_request("mode must be ordered or as_available"@))
        },
    }
}

/// Reads which batches a fetch may return; without a name, those in order.
pub fn parse_fetch_mode(value: Option<&str>) -> (result: Result<FetchMode, RouteError>)
    ensures
        routes_as(result, mode_named(text_view(value))),
{
    let name = match value {
        None => {
            return Ok(FetchMode::Ordered);
        },
        Some(name) => name,
    };
    if same_text(name, "ordered") {
        Ok(FetchMode::Ordered)
    } else if same_text(name, "as_available") {
        Ok(FetchMode::AsAvailable)
    } else {
        Err(RouteError::bad_request("mode must be ordered or as_available".to_string()))
    }
}

/// The producer that a query names: all of it or none.
pub open spec fn producer_named(query: Seq<(Seq<char>, Seq<char>)>) -> Result<
    Option<ProducerIdentity>,
    RouteFault,
> {
    match (
        value_of(query, "producer_id"@),
        value_of(query, "producer_epoch"@),
        value_of(query, "first_sequence"@),
    ) {
        (None, None, None) => Ok(None),
        (Some(id), Some(epoch), Some(sequence)) => {
            match number_field("producer_id"@, id, u128::MAX as nat, "u128"@) {
                Err(fault) => Err(fault),
                Ok(producer_id) => match number_field(
                    "producer_epoch"@,
                    epoch,
                    u32::MAX as nat,
                    "u32"@,
                ) {
                    Err(fault) => Err(fault),
                    Ok(epoch) => match number_field(
                        "first_sequence"@,
                        sequence,
                        u64::MAX as nat,
                        "u64"@,
                    ) {
                        Err(fault) => Err(fault),
                        Ok(first_sequence) => Ok(
                            Some(
                                ProducerIdentity {
                                    producer_id: producer_id as u128,
                                    epoch: epoch as u32,
                                    first_sequence: first_sequence as u64,
                                    event_id: None,
                                },
                            ),
                        ),
                    },
                },
            }
        },
        _ => Err(
            bad_request(
                "producer_id, producer_epoch, and first_sequence must be supplied together"@,
            ),
        ),
    }
}

/// Reads the producer that a query names.
pub fn parse_producer(query: &Vec<(String, String)>) -> (result: Result<
    Option<ProducerIdentity>,
    RouteError,
>)
    ensures
        routes_as(result, producer_named(pair_views(query@))),
{
    match (
        query_value(query, "producer_id"),
        query_value(query, "producer_epoch"),
        query_value(query, "first_sequence"),
    ) {
        (None, None, None) => Ok(None),
        (Some(id), Some(epoch), Some(sequence)) => {
            let producer_id: u128 = match parse_u128("producer_id", id) {
                Err(error) => {
                    return Err(error);
                },
                Ok(value) => value,
            };
            let epoch: u32 = match parse_u32("producer_epoch", epoch) {
                Err(error) => {
                    return Err(error);
                },
                Ok(value) => value,
            };
            let first_sequence: u64 = match parse_decimal(sequence, u64::MAX as u128) {
                None => {
                    return Err(number_error("first_sequence", "u64"));
                },
                Some(value) => value as u64,
            };
            Ok(Some(ProducerIdentity { producer_id, epoch, first_sequence, event_id: None }))
        },
        _ => Err(
            RouteError::bad_request(
                "producer_id, producer_epoch, and first_sequence must be supplied together".to_string(),
            ),
        ),
    }
}

/// A number of a query, or what stands for it where it is absent.
pub open spec fn query_number(
    query: Seq<(Seq<char>, Seq<char>)>,
    name: Seq<char>,
    max: nat,
    kind: Seq<char>,
    default: nat,
) -> Result<nat, RouteFault> {
    match value_of(query, name) {
        None => Ok(default),
        Some(text) => number_field(name, text, max, kind),
    }
}

fn read_number(
    query: &Vec<(String, String)>,
    name: &str,
    max: u128,
    kind: &str,
    default: u128,
) -> (result: Result<u128, RouteError>)
    requires
        default <= max,
    ensures
        match (
            result,
            query_number(pair_views(query@), name@, max as nat, kind@, default as nat),
        ) {
            (Ok(n), Ok(expected)) => n == expected && n <= max,
            (Err(error), Err(fault)) => error@ == fault,
            _ => false,
        },
{
    match query_value(query, name) {
        None => Ok(default),
        Some(text) => match parse_decimal(text, max) {
            Some(n) => Ok(n),
            None => Err(number_error(name, kind)),
        },
    }
}

/// The append that a request asks for.
pub open spec fn routed_append(
    query: Seq<(Seq<char>, Seq<char>)>,
    next_request_id: u128,
) -> Result<(u128, u32, Durability, Option<ProducerIdentity>), RouteFault> {
    match query_number(
        query,
        "request_id"@,
        u128::MAX as nat,
        "u128"@,
        next_request_id as nat,
    ) {
        Err(fault) => Err(fault),
        Ok(request_id) => match query_number(
            query,
            "record_count"@,
            u32::MAX as nat,
            "u32"@,
            1,
        ) {
            Err(fault) => Err(fault),
            Ok(record_count) => match durability_named(value_of(query, "durability"@)) {
                Err(fault) => Err(fault),
                Ok(durability) => match producer_named(query) {
                    Err(fault) => Err(fault),
                    Ok(producer) => Ok(
                        (request_id as u128, record_count as u32, durability, producer),
                    ),
                },
            },
        },
    }
}

/// Builds the append that a request asks for.
pub fn append_from_query(
    topic_id: TopicId,
    partition_id: LogicalPartitionId,
    query: &Vec<(String, String)>,
    payload: Vec<u8>,
    next_request_id: u128,
) -> (result: Result<AppendRequest, RouteError>)
    ensures
        match (result, routed_append(pair_views(query@), next_request_id)) {
            (Ok(request), Ok((request_id, record_count, durability, producer))) => request == (
            AppendRequest {
                request_id,
                topic_id,
                partition_id,
                record_count,
                payload,
                durability,
                producer,
                atomic_group: None,
                leader_epoch: None,
                extension_context: None,
            }),
            (Err(error), Err(fault)) => error@ == fault,
            _ => false,
        },
{
    let request_id: u128 = match read_number(
        query,
        "request_id",
        u128::MAX,
        "u128",
        next_request_id,
    ) {
        Err(error) => {
            return Err(error);
        },
        Ok(value) => value,
    };
    let record_count: u32 = match read_number(query, "record_count", u32::MAX as u128, "u32", 1) {
        Err(error) => {
            return Err(error);
        },
        Ok(value) => value as u32,
    };
    let durability = match parse_durability(query_value(query, "durability")) {
        Err(error) => {
            return Err(error);
        },
        Ok(value) => value,
    };
    let producer = match parse_producer(query) {
        Err(error) => {
            return Err(error);
        },
        Ok(value) => value,
    };
    Ok(
        AppendRequest {
            request_id,
            topic_id,
            partition_id,
            record_count,
            payload,
            durability,
            producer,
            atomic_group: None,
            leader_epoch: None,
            extension_context: None,
        },
    )
}

/// The budget of a fetch that names none.
pub open spec fn default_budget(max_fetch_bytes: usize) -> u32 {
    if max_fetch_bytes > u32::MAX {
        u32::MAX
    } else {
        max_fetch_bytes as u32
    }
}

/// The fetch that a request asks for.
pub open spec fn routed_fetch(
    topic_id: TopicId,
    partition_id: LogicalPartitionId,
    query: Seq<(Seq<char>, Seq<char>)>,
    max_fetch_bytes: usize,
    next_request_id: u128,
) -> Result<FetchRequest, RouteFault> {
    match query_number(
        query,
        "request_id"@,
        u128::MAX as nat,
        "u128"@,
        next_request_id as nat,
    ) {
        Err(fault) => Err(fault),
        Ok(request_id) => match query_number(
            query,
            "max_bytes"@,
            u32::MAX as nat,
            "u32"@,
            default_budget(max_fetch_bytes) as nat,
        ) {
            Err(fault) => Err(fault),
            Ok(max_bytes) => match query_number(
                query,
                "offset"@,
                u64::MAX as nat,
                "u128"@,
                0,
            ) {
                Err(fault) => Err(fault),
                Ok(offset) => match mode_named(value_of(query, "mode"@)) {
                    Err(fault) => Err(fault),
                    Ok(mode) => Ok(
                        FetchRequest {
                            request_id: request_id as u128,
                            topic_id,
                            partition_id,
                            start_offset: LogicalOffset(offset as u64),
                            max_bytes: max_bytes as u32,
                            mode,
                        },
                    ),
                },
            },
        },
    }
}

/// Builds the fetch that a request asks for.
pub fn fetch_from_query(
    topic_id: TopicId,
    partition_id: LogicalPartitionId,
    query: &Vec<(String, String)>,
    max_fetch_bytes: usize,
    next_request_id: u128,
) -> (result: Result<FetchRequest, RouteError>)
    ensures
        routes_as(
            result,
            routed_fetch(
                topic_id,
                partition_id,
                pair_views(query@),
                max_fetch_bytes,
                next_request_id,
            ),
        ),
{
    let request_id: u128 = match read_number(
        query,
        "request_id",
        u128::MAX,
        "u128",
        next_request_id,
    ) {
        Err(error) => {
            return Err(error);
        },
        Ok(value) => value,
    };
    let default: u32 = if max_fetch_bytes as u128 > u32::MAX as u128 {
        u32::MAX
    } else {
        max_fetch_bytes as u32
    };
    let max_bytes: u32 = match read_number(
        query,
        "max_bytes",
        u32::MAX as u128,
        "u32",
        default as u128,
    ) {
        Err(error) => {
            return Err(error);
        },
        Ok(value) => value as u32,
    };
    let offset: u64 = match read_number(query, "offset", u64::MAX as u128, "u128", 0) {
        Err(error) => {
            return Err(error);
        },
        Ok(value) => value as u64,
    };
    let mode = match parse_fetch_mode(query_value(query, "mode")) {
        Err(error) => {
            return Err(error);
        },
        Ok(value) => value,
    };
    Ok(
        FetchRequest {
            request_id,
            topic_id,
            partition_id,
            start_offset: LogicalOffset(offset),
            max_bytes,
            mode,
        },
    )
}

/// The method of a request.
#[derive(Debug, Clone, Copy, PartialEq, Eq, Structural)]
pub enum HttpMethod {
    Get,
    Post,
    Other,
}

/// Where a request goes.
#[derive(Debug, Clone, Copy, PartialEq, Eq, Structural)]
pub enum Route {
    Health,
    Append(TopicId, LogicalPartitionId),
    Fetch(TopicId, LogicalPartitionId),
}

/// Finds where a request goes: the health check, or the records of a partition.
pub fn find_route(method: HttpMethod, path: &str) -> (result: Result<Route, RouteError>)
    ensures
        routes_as(
            result,
            if method == HttpMethod::Get && path@ == "/healthz"@ {
                Ok(Route::Health)
            } else {
                match records_path(path@) {
                    Err(fault) => Err(fault),
                    Ok((topic_id, partition_id)) => match method {
                        HttpMethod::Post => Ok(Route::Append(topic_id, partition_id)),
                        HttpMethod::Get => Ok(Route::Fetch(topic_id, partition_id)),
                        HttpMethod::Other => Err(
                            RouteFault {
                                status: 405,
                                code: "METHOD_NOT_ALLOWED"@,
                                message: "only GET and POST are supported"@,
                                retryable: false,
                            },
                        ),
                    },
                }
            },
        ),
{
    if method == HttpMethod::Get && same_text(path, "/healthz") {
        return Ok(Route::Health);
    }
    match parse_records_path(path) {
        Err(error) => Err(error),
        Ok((topic_id, partition_id)) => match method {
            HttpMethod::Post => Ok(Route::Append(topic_id, partition_id)),
            HttpMethod::Get => Ok(Route::Fetch(topic_id, partition_id)),
            HttpMethod::Other => Err(
                RouteError::new(
                    405,
                    "METHOD_NOT_ALLOWED",
                    "only GET and POST are supported".to_string(),
                    false,
                ),
            ),
        },
    }
}

/// Whether one more chunk of a body stays within the limit; gives the length with it.
pub fn grow_body(length: usize, chunk: usize, max_bytes: usize) -> (result: Result<usize, RouteError>)
    ensures
        routes_as(
            result,
            if length + chunk > max_bytes {
                Err(
                    RouteFault {
                        status: 413,
                        code: "BATCH_TOO_LARGE"@,
                        message: "request body exceeds the configured batch limit"@,
                        retryable: false,
                    },
                )
            } else {
                Ok((length + chunk) as usize)
            },
        ),
{
    match length.checked_add(chunk) {
        Some(total) if total <= max_bytes => Ok(total),
        _ => Err(
            RouteError::new(
                413,
                "BATCH_TOO_LARGE",
                "request body exceeds the configured batch limit".to_string(),
                false,
            ),
        ),
    }
}

/// Why an HTTP/3 listener cannot be served.
#[derive(Debug, PartialEq, Eq)]
pub struct H3Error(pub String);

/// A listener's failure, told with what was being done.
fn h3_error(context: &str, text: &str) -> (error: H3Error)
    ensures
        error.0@ == context@ + text@,
{
    let mut message = context.to_string();
    message.append(text);
    H3Error(message)
}

/// The contents of byte strings.
pub open spec fn byte_views(strings: Seq<Vec<u8>>) -> Seq<Seq<u8>> {
    strings.map_values(|bytes: Vec<u8>| bytes@)
}

/// The certificates in the PEM sections of a file, or why they cannot be read.
pub uninterp spec fn pem_certificates_of(bytes: Seq<u8>) -> Result<Seq<Seq<u8>>, Seq<char>>;

/// Reads the certificates of a file with `rustls_pemfile::certs`, up to the first
/// section that cannot be read. The result depends on the bytes alone.
#[verifier::external_body]
fn pem_certificates(bytes: &Vec<u8>) -> (result: Result<Vec<Vec<u8>>, String>)
    ensures
        match result {
            Ok(found) => pem_certificates_of(bytes@) == Ok::<_, Seq<char>>(byte_views(found@)),
            Err(error) => pem_certificates_of(bytes@) == Err::<Seq<Seq<u8>>, _>(error@),
        },
{
    let mut reader = bytes.as_slice();
    rustls_pemfile::certs(&mut reader)
        .map(|section| section.map(|certificate| certificate.to_vec()))
        .collect::<Result<Vec<Vec<u8>>, std::io::Error>>()
        .map_err(|error| error.to_string())
}

/// The chain of certificates that a file holds: those of its PEM sections, or, where
/// it has none, the whole file as one DER certificate.
pub fn certificate_chain(bytes: Vec<u8>) -> (result: Result<Vec<Vec<u8>>, H3Error>)
    ensures
        match (result, pem_certificates_of(bytes@)) {
            (Ok(chain), Ok(found)) => byte_views(chain@) == (if found.len() == 0 {
                seq![bytes@]
            } else {
                found
            }),
            (Err(error), Err(text)) => error.0@ == "failed to parse HTTP/3 certificate: "@ + text,
            _ => false,
        },
{
    match pem_certificates(&bytes) {
        Err(error) => Err(h3_error("failed to parse HTTP/3 certificate: ", error.as_str())),
        Ok(found) => {
            if found.len() > 0 {
                return Ok(found);
            }
            let ghost whole = bytes@;
            let mut chain: Vec<Vec<u8>> = Vec::new();
            chain.push(bytes);
            proof {
                assert(byte_views(chain@) =~= seq![whole]);
            }
            Ok(chain)
        },
    }
}

/// The encodings of a private key.
#[derive(Clone, Copy, PartialEq, Eq, Structural)]
pub enum PrivateKeyForm {
    Pkcs1,
    Sec1,
    Pkcs8,
}

/// A DER-encoded private key. It is not shown anywhere.
#[derive(PartialEq, Eq)]
pub enum PrivateKey {
    Pkcs1(Vec<u8>),
    Sec1(Vec<u8>),
    Pkcs8(Vec<u8>),
}

impl PrivateKey {
    /// The key's encoding and its bytes.
    pub open spec fn parts(self) -> (PrivateKeyForm, Seq<u8>) {
        match self {
            PrivateKey::Pkcs1(bytes) => (PrivateKeyForm::Pkcs1, bytes@),
            PrivateKey::Sec1(bytes) => (PrivateKeyForm::Sec1, bytes@),
            PrivateKey::Pkcs8(bytes) => (PrivateKeyForm::Pkcs8, bytes@),
        }
    }
}

/// The parts of a key, where there is one.
pub open spec fn key_parts(key: Option<PrivateKey>) -> Option<(PrivateKeyForm, Seq<u8>)> {
    match key {
        Some(key) => Some(key.parts()),
        None => None,
    }
}

/// The first private key in the PEM sections of a file, or why they cannot be read.
pub uninterp spec fn pem_private_key_of(bytes: Seq<u8>) -> Result<
    Option<(PrivateKeyForm, Seq<u8>)>,
    Seq<char>,
>;

/// Reads the first private key of a file with `rustls_pemfile::private_key`, whose
/// result depends on the bytes alone. The keys that it gives have one of three
/// encodings; its type leaves room for others, which would be told as an error.
#[verifier::external_body]
fn pem_private_key(bytes: &Vec<u8>) -> (result: Result<Option<PrivateKey>, String>)
    ensures
        match result {
            Ok(found) => pem_private_key_of(bytes@) == Ok::<_, Seq<char>>(key_parts(found)),
            Err(error) => pem_private_key_of(bytes@) == Err::<
                Option<(PrivateKeyForm, Seq<u8>)>,
                _,
            >(error@),
        },
{
    let mut reader = bytes.as_slice();
    match rustls_pemfile::private_key(&mut reader) {
        Err(error) => Err(error.to_string()),
        Ok(None) => Ok(None),
        Ok(Some(rustls::pki_types::PrivateKeyDer::Pkcs1(key))) => {
            Ok(Some(PrivateKey::Pkcs1(key.secret_pkcs1_der().to_vec())))
        },
        Ok(Some(rustls::pki_types::PrivateKeyDer::Sec1(key))) => {
            Ok(Some(PrivateKey::Sec1(key.secret_sec1_der().to_vec())))
        },
        Ok(Some(rustls::pki_types::PrivateKeyDer::Pkcs8(key))) => {
            Ok(Some(PrivateKey::Pkcs8(key.secret_pkcs8_der().to_vec())))
        },
        Ok(Some(_)) => Err("unknown private key encoding".to_string()),
    }
}

/// The encoding that a DER private key has, or why it has none.
pub uninterp spec fn der_private_key_of(bytes: Seq<u8>) -> Result<PrivateKeyForm, Seq<char>>;

/// Tells the encoding of a DER private key with `PrivateKeyDer::try_from`, which
/// goes by the first bytes and keeps them all. The result depends on the bytes
/// alone. The type leaves room for other encodings, which would be told as an error.
#[verifier::external_body]
fn der_private_key(bytes: &Vec<u8>) -> (result: Result<PrivateKeyForm, String>)
    ensures
        match result {
            Ok(form) => der_private_key_of(bytes@) == Ok::<_, Seq<char>>(form),
            Err(error) => der_private_key_of(bytes@) == Err::<PrivateKeyForm, _>(error@),
        },
{
    match rustls::pki_types::PrivateKeyDer::try_from(bytes.clone()) {
        Err(error) => Err(error.to_string()),
        Ok(rustls::pki_types::PrivateKeyDer::Pkcs1(_)) => Ok(PrivateKeyForm::Pkcs1),
        Ok(rustls::pki_types::PrivateKeyDer::Sec1(_)) => Ok(PrivateKeyForm::Sec1),
        Ok(rustls::pki_types::PrivateKeyDer::Pkcs8(_)) => Ok(PrivateKeyForm::Pkcs8),
        Ok(_) => Err("unknown private key encoding".to_string()),
    }
}

/// The private key that a file holds: the first one of its PEM sections, or, where
/// it has none, the whole file as a DER key.
pub fn private_key(bytes: Vec<u8>) -> (result: Result<PrivateKey, H3Error>)
    ensures
        match pem_private_key_of(bytes@) {
            Err(text) => result is Err && result->Err_0.0@
                == "failed to parse HTTP/3 private key: "@ + text,
            Ok(Some(parts)) => result is Ok && result->Ok_0.parts() == parts,
            Ok(None) => match der_private_key_of(bytes@) {
                Ok(form) => result is Ok && result->Ok_0.parts() == (form, bytes@),
                Err(text) => result is Err && result->Err_0.0@
                    == "invalid DER HTTP/3 private key: "@ + text,
            },
        },
{
    match pem_private_key(&bytes) {
        Err(error) => Err(h3_error("failed to parse HTTP/3 private key: ", error.as_str())),
        Ok(Some(key)) => Ok(key),
        Ok(None) => match der_private_key(&bytes) {
            Err(error) => Err(h3_error("invalid DER HTTP/3 private key: ", error.as_str())),
            Ok(PrivateKeyForm::Pkcs1) => Ok(PrivateKey::Pkcs1(bytes)),
            Ok(PrivateKeyForm::Sec1) => Ok(PrivateKey::Sec1(bytes)),
            Ok(PrivateKeyForm::Pkcs8) => Ok(PrivateKey::Pkcs8(bytes)),
        },
    }
}

/// Checks the limits of an HTTP/3 listener.
pub fn validate_limits(max_batch_bytes: usize, max_fetch_bytes: usize) -> (result: Result<
    (),
    H3Error,
>)
    ensures
        match result {
            Ok(()) => max_batch_bytes > 0 && max_fetch_bytes > 0,
            Err(error) => (max_batch_bytes == 0 || max_fetch_bytes == 0) && error.0@
                == "HTTP/3 batch and fetch byte limits must be nonzero"@,
        },
{
    if max_batch_bytes == 0 || max_fetch_bytes == 0 {
        return Err(
            H3Error("HTTP/3 batch and fetch byte limits must be nonzero".to_string()),
        );
    }
    Ok(())
}

/// The room that each batch is given besides its payload.
pub const BATCH_ROOM_BYTES: usize = 256;

/// The most bytes that the answer to a fetch of so many batches may take.
pub fn output_limit(max_fetch_bytes: usize, batches: usize) -> (limit: usize)
    ensures
        limit == (if max_fetch_bytes + batches * BATCH_ROOM_BYTES > usize::MAX {
            usize::MAX as int
        } else {
            max_fetch_bytes + batches * BATCH_ROOM_BYTES
        }),
{
    match batches.checked_mul(BATCH_ROOM_BYTES) {
        None => usize::MAX,
        Some(room) => match max_fetch_bytes.checked_add(room) {
            None => usize::MAX,
            Some(limit) => limit,
        },
    }
}

/// The receipt of an append as it is answered.
#[derive(Debug, PartialEq, Eq)]
pub struct ReceiptBody {
    pub request_id: String,
    pub batch_id: String,
    pub first_offset: String,
    pub last_offset: String,
    pub shard_id: u32,
    pub ring_epoch: u64,
    pub placement_sequence: String,
}

/// Writes the receipt of an append.
pub fn receipt_body(response: &AppendResponse) -> (body: ReceiptBody)
    ensures
        body.request_id@ == decimal(response.request_id as nat),
        body.batch_id@ == decimal(response.batch_id.0 as nat),
        body.first_offset@ == decimal(response.first_offset.0 as nat),
        body.last_offset@ == decimal(response.last_offset.0 as nat),
        body.shard_id == response.placement.virtual_lane_id.0,
        body.ring_epoch == response.placement.ring_epoch.0,
        body.placement_sequence@ == decimal(response.placement.sequence.0 as nat),
{
    ReceiptBody {
        request_id: decimal_string(response.request_id),
        batch_id: decimal_string(response.batch_id.0),
        first_offset: decimal_string(response.first_offset.0 as u128),
        last_offset: decimal_string(response.last_offset.0 as u128),
        shard_id: response.placement.virtual_lane_id.0,
        ring_epoch: response.placement.ring_epoch.0,
        placement_sequence: decimal_string(response.placement.sequence.0 as u128),
    }
}

} // verus!
