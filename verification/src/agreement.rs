//! What the client writes, the server reads.
use vstd::prelude::*;

use crate::client::{
    partition_path_of, AppendPlan, Consumer, Producer,
};
use crate::http_route::{
    leading_slashes, records_path, routed_append, routed_fetch, segments, trailing_slashes, trimmed,
    value_of, RouteFault,
};
use crate::ids::{LogicalOffset, LogicalPartitionId, RecordId, TopicId};
use crate::protocol::{Durability, FetchMode, FetchRequest, ProducerIdentity};
use crate::text::{decimal, decimal_parses_back, is_digit, lemma_decimal_digits};

verus! {

proof fn lemma_value_at(pairs: Seq<(Seq<char>, Seq<char>)>, at: int, name: Seq<char>)
    requires
        0 <= at < pairs.len(),
        pairs[at].0 == name,
        forall|j: int| at < j < pairs.len() ==> (#[trigger] pairs[j]).0 != name,
    ensures
        value_of(pairs, name) == Some(pairs[at].1),
    decreases pairs.len(),
{
    if at < pairs.len() - 1 {
        assert(pairs[pairs.len() - 1].0 != name);
        lemma_value_at(pairs.drop_last(), at, name);
    }
}

/// An append that the client writes into a query is the one that the server
/// reads out of it. (The server's route knows no durability of all replicas, and
/// takes no identity of the event.)
pub proof fn appends_are_read_as_written(
    producer: Producer,
    plan: AppendPlan,
    request_id: u128,
    record_count: u32,
    durability: Durability,
    event_id: RecordId,
    data_generation: u64,
    next_request_id: u128,
)
    requires
        durability != Durability::AllReplicas,
    ensures
        routed_append(
            producer.append_pairs(
                plan,
                request_id,
                record_count,
                durability,
                event_id,
                data_generation,
            ),
            next_request_id,
        ) == Ok::<_, RouteFault>(
            (
                request_id,
                record_count,
                durability,
                Some(
                    ProducerIdentity {
                        producer_id: producer.producer_id,
                        epoch: producer.epoch,
                        first_sequence: plan.first_sequence,
                        event_id: None,
                    },
                ),
            ),
        ),
{
    let pairs = producer.append_pairs(
        plan,
        request_id,
        record_count,
        durability,
        event_id,
        data_generation,
    );
    reveal_strlit("request_id");
    reveal_strlit("record_count");
    reveal_strlit("durability");
    reveal_strlit("producer_id");
    reveal_strlit("producer_epoch");
    reveal_strlit("first_sequence");
    reveal_strlit("event_id");
    reveal_strlit("expected_data_generation");
    reveal_strlit("leader_epoch");
    reveal_strlit("leader");
    reveal_strlit("quorum");
    reveal_strlit("object");
    assert("request_id"@[0] == 'r' && "durability"@[0] == 'd');
    assert("record_count"@[0] == 'r' && "leader_epoch"@[0] == 'l');
    assert("producer_epoch"@[0] == 'p' && "first_sequence"@[0] == 'f');
    assert("leader"@[0] == 'l' && "quorum"@[0] == 'q' && "object"@[0] == 'o');
    lemma_value_at(pairs, 0, "request_id"@);
    lemma_value_at(pairs, 1, "record_count"@);
    lemma_value_at(pairs, 2, "durability"@);
    lemma_value_at(pairs, 3, "producer_id"@);
    lemma_value_at(pairs, 4, "producer_epoch"@);
    lemma_value_at(pairs, 5, "first_sequence"@);
    decimal_parses_back(request_id as nat, u128::MAX as nat);
    decimal_parses_back(record_count as nat, u32::MAX as nat);
    decimal_parses_back(producer.producer_id as nat, u128::MAX as nat);
    decimal_parses_back(producer.epoch as nat, u32::MAX as nat);
    decimal_parses_back(plan.first_sequence as nat, u64::MAX as nat);
}

/// A fetch that the client writes into a query is the one that the server reads
/// out of it. (The server's route knows no replicated mode.)
pub proof fn fetches_are_read_as_written(
    topic_id: TopicId,
    partition_id: LogicalPartitionId,
    start_offset: LogicalOffset,
    max_bytes: u32,
    mode: FetchMode,
    request_id: u128,
    data_generation: u64,
    max_fetch_bytes: usize,
    next_request_id: u128,
)
    requires
        mode != FetchMode::Replicated,
    ensures
        routed_fetch(
            topic_id,
            partition_id,
            Consumer::fetch_pairs(start_offset, max_bytes, mode, request_id, data_generation),
            max_fetch_bytes,
            next_request_id,
        ) == Ok::<_, RouteFault>(
            FetchRequest { request_id, topic_id, partition_id, start_offset, max_bytes, mode },
        ),
{
    let pairs = Consumer::fetch_pairs(start_offset, max_bytes, mode, request_id, data_generation);
    reveal_strlit("offset");
    reveal_strlit("max_bytes");
    reveal_strlit("mode");
    reveal_strlit("request_id");
    reveal_strlit("expected_data_generation");
    reveal_strlit("ordered");
    reveal_strlit("as_available");
    assert("ordered"@.len() == 7 && "as_available"@.len() == 12);
    assert("offset"@.len() == 6 && "max_bytes"@.len() == 9 && "mode"@.len() == 4);
    assert("request_id"@.len() == 10 && "expected_data_generation"@.len() == 24);
    assert(crate::http_route::mode_named(Some(pairs[2].1)) == Ok::<_, RouteFault>(mode));
    lemma_value_at(pairs, 0, "offset"@);
    lemma_value_at(pairs, 1, "max_bytes"@);
    lemma_value_at(pairs, 2, "mode"@);
    lemma_value_at(pairs, 3, "request_id"@);
    decimal_parses_back(start_offset.0 as nat, u64::MAX as nat);
    decimal_parses_back(max_bytes as nat, u32::MAX as nat);
    decimal_parses_back(request_id as nat, u128::MAX as nat);
}

proof fn lemma_one_segment(s: Seq<char>)
    requires
        forall|i: int| 0 <= i < s.len() ==> s[i] != '/',
    ensures
        segments(s) == seq![s],
    decreases s.len(),
{
    if s.len() == 0 {
        assert(s =~= Seq::empty());
    } else {
        lemma_one_segment(s.drop_last());
        assert(s.drop_last().push(s.last()) =~= s);
        assert(segments(s) =~= seq![s]);
    }
}

proof fn lemma_segments_join(before: Seq<char>, after: Seq<char>)
    ensures
        segments(before + "/"@ + after) == segments(before) + segments(after),
        segments(after).len() > 0,
    decreases after.len(),
{
    reveal_strlit("/");
    let whole = before + "/"@ + after;
    if after.len() == 0 {
        assert(whole.last() == '/');
        assert(whole.drop_last() =~= before);
        assert(segments(whole) =~= segments(before) + segments(after));
    } else {
        lemma_segments_join(before, after.drop_last());
        assert(whole.last() == after.last());
        assert(whole.drop_last() =~= before + "/"@ + after.drop_last());
        assert(segments(whole) =~= segments(before) + segments(after));
    }
}

proof fn lemma_digits_have_no_slash(n: nat)
    ensures
        forall|i: int| 0 <= i < decimal(n).len() ==> decimal(n)[i] != '/',
{
    lemma_decimal_digits(n);
    assert forall|i: int| 0 <= i < decimal(n).len() implies decimal(n)[i] != '/' by {
        assert(is_digit(decimal(n)[i]));
    }
}

/// The path by which the client addresses a partition's records leads the server
/// to that partition.
pub proof fn paths_lead_to_their_partition(topic_id: TopicId, partition_id: LogicalPartitionId)
    ensures
        records_path("/"@ + partition_path_of(topic_id, partition_id, "records"@)) == Ok::<
            _,
            RouteFault,
        >((topic_id, partition_id)),
{
    let topic = decimal(topic_id.0 as nat);
    let partition = decimal(partition_id.0 as nat);
    let path = partition_path_of(topic_id, partition_id, "records"@);
    let full = "/"@ + path;
    reveal_strlit("/");
    reveal_strlit("v1");
    reveal_strlit("topics");
    reveal_strlit("partitions");
    reveal_strlit("records");
    reveal_strlit("v1/topics/");
    reveal_strlit("/partitions/");
    assert(path[0] == 'v');
    assert(path.last() == 's');
    assert(full.skip(1) =~= path);
    assert(leading_slashes(path) == 0);
    assert(leading_slashes(full) == 1);
    assert(trailing_slashes(path) == 0);
    assert(trimmed(full) =~= path);
    let tail4 = partition + "/"@ + "records"@;
    let tail3 = "partitions"@ + "/"@ + tail4;
    let tail2 = topic + "/"@ + tail3;
    let tail1 = "topics"@ + "/"@ + tail2;
    assert(path =~= "v1"@ + "/"@ + tail1);
    lemma_segments_join("v1"@, tail1);
    lemma_segments_join("topics"@, tail2);
    lemma_segments_join(topic, tail3);
    lemma_segments_join("partitions"@, tail4);
    lemma_segments_join(partition, "records"@);
    lemma_digits_have_no_slash(topic_id.0 as nat);
    lemma_digits_have_no_slash(partition_id.0 as nat);
    lemma_one_segment("v1"@);
    lemma_one_segment("topics"@);
    lemma_one_segment(topic);
    lemma_one_segment("partitions"@);
    lemma_one_segment(partition);
    lemma_one_segment("records"@);
    assert(segments(path) =~= seq!["v1"@, "topics"@, topic, "partitions"@, partition, "records"@]);
    decimal_parses_back(topic_id.0 as nat, u128::MAX as nat);
    decimal_parses_back(partition_id.0 as nat, u32::MAX as nat);
}

} // verus!
