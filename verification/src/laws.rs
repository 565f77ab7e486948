use crate::config::Grouping;
use crate::entry::{status_class, LogEntry};
use crate::group::{
    aggregate_key, class_count, distinct_keys, group, is_aggregation, key_of, keys_of,
    lemma_absent_key_has_no_records, lemma_classes_partition, lemma_distinct_keys_no_duplicates,
    lemma_group_members, lemma_group_push, mean_count, samples_of, Key,
};
use crate::summary::AggregatedLogEntry;
use crate::normalize::{
    is_first_applicable, lemma_first_match_wins, lemma_path_len_is_first_query, none_applies,
    normalized, path_of, rule_rewrite,
};
use crate::stats::lemma_percentiles_between_extremes;
use vstd::prelude::*;

verus! {

/// The sum of the counts of `aggregates`.
pub open spec fn total_count(aggregates: Seq<AggregatedLogEntry>) -> nat
    decreases aggregates.len(),
{
    if aggregates.len() == 0 {
        0
    } else {
        total_count(aggregates.drop_last()) + aggregates.last().count as nat
    }
}

/// The sum of the sizes of the groups `keys` of `logs`.
pub open spec fn group_sizes(keys: Seq<Key>, logs: Seq<LogEntry>, rules: Seq<Grouping>) -> nat
    decreases keys.len(),
{
    if keys.len() == 0 {
        0
    } else {
        group_sizes(keys.drop_last(), logs, rules) + group(logs, rules, keys.last()).len()
    }
}

/// One more record adds one to the sizes of distinct groups where its own
/// group is among them, and nothing where it is not.
proof fn lemma_group_sizes_push(
    keys: Seq<Key>,
    logs: Seq<LogEntry>,
    rules: Seq<Grouping>,
    entry: LogEntry,
)
    requires
        keys.no_duplicates(),
    ensures
        group_sizes(keys, logs.push(entry), rules) == group_sizes(keys, logs, rules) + (
        if keys.contains(key_of(entry, rules)) {
            1nat
        } else {
            0nat
        }),
    decreases keys.len(),
{
    if keys.len() > 0 {
        let rest = keys.drop_last();
        lemma_group_sizes_push(rest, logs, rules, entry);
        lemma_group_push(logs, rules, keys.last(), entry);
        let key = key_of(entry, rules);
        if keys.last() != key && keys.contains(key) {
            let i = choose|i: int| 0 <= i < keys.len() && keys[i] == key;
            assert(rest[i] == key);
        }
    }
}

/// The groups of the distinct keys of `logs` hold each record once.
proof fn lemma_groups_cover(logs: Seq<LogEntry>, rules: Seq<Grouping>)
    ensures
        group_sizes(distinct_keys(logs, rules), logs, rules) == logs.len(),
    decreases logs.len(),
{
    if logs.len() > 0 {
        let seen = logs.drop_last();
        let entry = logs.last();
        let key = key_of(entry, rules);
        let before = distinct_keys(seen, rules);
        assert(logs == seen.push(entry));
        lemma_groups_cover(seen, rules);
        lemma_distinct_keys_no_duplicates(seen, rules);
        lemma_group_sizes_push(before, seen, rules, entry);
        if !before.contains(key) {
            assert(before.push(key).drop_last() == before);
            lemma_absent_key_has_no_records(seen, rules, key);
            lemma_group_push(seen, rules, key, entry);
        }
    }
}

/// Counts that are group sizes add up to the sizes of the groups.
proof fn lemma_total_count_is_group_sizes(
    aggregates: Seq<AggregatedLogEntry>,
    logs: Seq<LogEntry>,
    rules: Seq<Grouping>,
)
    requires
        forall|j: int|
            0 <= j < aggregates.len() ==> (#[trigger] aggregates[j]).count == group(
                logs,
                rules,
                aggregate_key(aggregates[j]),
            ).len(),
    ensures
        total_count(aggregates) == group_sizes(keys_of(aggregates), logs, rules),
    decreases aggregates.len(),
{
    if aggregates.len() > 0 {
        lemma_total_count_is_group_sizes(aggregates.drop_last(), logs, rules);
        assert(keys_of(aggregates).drop_last() == keys_of(aggregates.drop_last()));
    }
}

/// Every record is counted once: the counts of an aggregation add up to the
/// number of records.
pub proof fn lemma_counts_add_up(
    aggregates: Seq<AggregatedLogEntry>,
    logs: Seq<LogEntry>,
    rules: Seq<Grouping>,
)
    requires
        is_aggregation(aggregates, logs, rules),
    ensures
        total_count(aggregates) == logs.len(),
{
    lemma_total_count_is_group_sizes(aggregates, logs, rules);
    lemma_groups_cover(logs, rules);
}

/// No record is of no class exactly where each record has a class.
proof fn lemma_unclassified_none(records: Seq<LogEntry>)
    ensures
        class_count(records, None) == 0 <==> forall|i: int|
            0 <= i < records.len() ==> status_class((#[trigger] records[i]).status@) is Some,
    decreases records.len(),
{
    reveal(Seq::filter);
    if records.len() > 0 {
        let rest = records.drop_last();
        lemma_unclassified_none(rest);
        if class_count(records, None) == 0 {
            assert forall|i: int| 0 <= i < records.len() implies status_class(
                (#[trigger] records[i]).status@,
            ) is Some by {
                if i < rest.len() {
                    assert(rest[i] == records[i]);
                }
            }
        }
    }
}

/// The status classes of a summary never count more records than its group
/// has: they fall short of the count by the records whose status is of no
/// class, and reach it exactly where every record of the group has a class.
pub proof fn lemma_histogram_within_count(
    aggregates: Seq<AggregatedLogEntry>,
    logs: Seq<LogEntry>,
    rules: Seq<Grouping>,
    j: int,
)
    requires
        is_aggregation(aggregates, logs, rules),
        0 <= j < aggregates.len(),
    ensures
        aggregates[j].status_code.total() <= aggregates[j].count,
        aggregates[j].status_code.total() + class_count(
            group(logs, rules, aggregate_key(aggregates[j])),
            None,
        ) == aggregates[j].count,
        aggregates[j].status_code.total() == aggregates[j].count <==> forall|i: int|
            0 <= i < logs.len() && key_of(#[trigger] logs[i], rules) == aggregate_key(aggregates[j])
                ==> status_class(logs[i].status@) is Some,
{
    let key = aggregate_key(aggregates[j]);
    let records = group(logs, rules, key);
    lemma_classes_partition(records);
    lemma_unclassified_none(records);
    lemma_group_members(logs, rules, key);
    if forall|i: int|
        0 <= i < logs.len() && key_of(#[trigger] logs[i], rules) == key ==> status_class(
            logs[i].status@,
        ) is Some {
        assert forall|i: int| 0 <= i < records.len() implies status_class(
            (#[trigger] records[i]).status@,
        ) is Some by {
            assert(records.contains(records[i]));
        }
    }
    if forall|i: int|
        0 <= i < records.len() ==> status_class((#[trigger] records[i]).status@) is Some {
        assert forall|i: int|
            0 <= i < logs.len() && key_of(#[trigger] logs[i], rules) == key implies status_class(
            logs[i].status@,
        ) is Some by {
            assert(records.contains(logs[i]));
        }
    }
}

/// For a group with at least one time, each figure is set and
/// `min <= p50 <= p75 <= p90 <= p95 <= p99 <= max`.
pub proof fn lemma_percentiles_ordered(
    aggregates: Seq<AggregatedLogEntry>,
    logs: Seq<LogEntry>,
    rules: Seq<Grouping>,
    j: int,
)
    requires
        is_aggregation(aggregates, logs, rules),
        0 <= j < aggregates.len(),
        aggregates[j].response_time.samples@.len() >= 1,
    ensures
        aggregates[j].response_time.min is Some,
        aggregates[j].response_time.p50 is Some,
        aggregates[j].response_time.p75 is Some,
        aggregates[j].response_time.p90 is Some,
        aggregates[j].response_time.p95 is Some,
        aggregates[j].response_time.p99 is Some,
        aggregates[j].response_time.max is Some,
        aggregates[j].response_time.min->0 <= aggregates[j].response_time.p50->0,
        aggregates[j].response_time.p50->0 <= aggregates[j].response_time.p75->0,
        aggregates[j].response_time.p75->0 <= aggregates[j].response_time.p90->0,
        aggregates[j].response_time.p90->0 <= aggregates[j].response_time.p95->0,
        aggregates[j].response_time.p95->0 <= aggregates[j].response_time.p99->0,
        aggregates[j].response_time.p99->0 <= aggregates[j].response_time.max->0,
{
    let samples = aggregates[j].response_time.samples@;
    lemma_percentiles_between_extremes(samples, 50, 75);
    lemma_percentiles_between_extremes(samples, 75, 90);
    lemma_percentiles_between_extremes(samples, 90, 95);
    lemma_percentiles_between_extremes(samples, 95, 99);
}

/// A record without a time adds to the count of its group and to nothing
/// that is made of the group's times: the times, and so their least, their
/// greatest, their sum and their percentiles, stay as they are, and so does
/// the count that the mean divides by.
pub proof fn lemma_untimed_record_adds_no_time(records: Seq<LogEntry>, entry: LogEntry)
    requires
        entry.response_time is None,
    ensures
        records.push(entry).len() == records.len() + 1,
        samples_of(records.push(entry)) == samples_of(records),
        mean_count(records.push(entry)) == mean_count(records),
{
    assert(records.push(entry).drop_last() == records);
}

/// Whether normalizing leaves `uri` as it is: the first rule that applies to
/// it rewrites it to itself, or none applies and it holds no `?`.
pub open spec fn is_settled(uri: Seq<char>, rules: Seq<Grouping>) -> bool {
    &&& forall|index: int| #[trigger]
        is_first_applicable(uri, rules, index) ==> rule_rewrite(rules[index], uri) == uri
    &&& none_applies(uri, rules) ==> !uri.contains('?')
}

/// Stripping the query string leaves exactly the URIs without a `?` as they
/// are.
pub proof fn lemma_path_of_keeps(uri: Seq<char>)
    ensures
        path_of(uri) == uri <==> !uri.contains('?'),
        !path_of(uri).contains('?'),
{
    lemma_path_len_is_first_query(uri);
    if !uri.contains('?') {
        assert(uri.take(uri.len() as int) == uri);
    }
    if path_of(uri).contains('?') {
        let i = choose|i: int| 0 <= i < path_of(uri).len() && path_of(uri)[i] == '?';
        assert(uri[i] == '?');
    }
}

/// A URI is its own group key exactly where it is settled.
pub proof fn lemma_settled_is_fixed(uri: Seq<char>, rules: Seq<Grouping>)
    ensures
        normalized(uri, rules) == uri <==> is_settled(uri, rules),
{
    lemma_first_match_wins(uri, rules);
    lemma_path_of_keeps(uri);
    if !none_applies(uri, rules) {
        let index = choose|index: int| is_first_applicable(uri, rules, index);
        assert forall|other: int| #[trigger]
            is_first_applicable(uri, rules, other) implies other == index by {}
    }
}

/// Normalizing a group key once more gives the same key, where that key is
/// settled. Without that it can fail: a rule may apply to the text that a
/// rewrite produced, and a rewrite may leave a `?` behind.
pub proof fn lemma_normalize_idempotent(uri: Seq<char>, rules: Seq<Grouping>)
    requires
        is_settled(normalized(uri, rules), rules),
    ensures
        normalized(normalized(uri, rules), rules) == normalized(uri, rules),
{
    lemma_settled_is_fixed(normalized(uri, rules), rules);
}

/// Without rules, normalizing a group key once more gives the same key.
pub proof fn lemma_strip_query_idempotent(uri: Seq<char>)
    ensures
        normalized(normalized(uri, Seq::empty()), Seq::empty()) == normalized(uri, Seq::empty()),
{
    lemma_path_of_keeps(uri);
    lemma_path_of_keeps(path_of(uri));
}

} // verus!
