use crate::config::Grouping;
use crate::entry::{status_class, LogEntry};
use crate::normalize::normalized;
use crate::stats::{highest, lowest};
use crate::summary::AggregatedLogEntry;
use vstd::prelude::*;

verus! {

/// What identifies a group: a method and a normalized URI.
pub type Key = (Seq<char>, Seq<char>);

/// The key of the group that `entry` belongs to under `rules`.
pub open spec fn key_of(entry: LogEntry, rules: Seq<Grouping>) -> Key {
    (entry.method@, normalized(entry.uri@, rules))
}

/// The key that `aggregate` is the summary of.
pub open spec fn aggregate_key(aggregate: AggregatedLogEntry) -> Key {
    (aggregate.method@, aggregate.uri@)
}

/// The keys of `aggregates`, in their order.
pub open spec fn keys_of(aggregates: Seq<AggregatedLogEntry>) -> Seq<Key> {
    Seq::new(aggregates.len(), |i: int| aggregate_key(aggregates[i]))
}

/// The test for membership in the group `key`.
pub open spec fn has_key(rules: Seq<Grouping>, key: Key) -> spec_fn(LogEntry) -> bool {
    |entry: LogEntry| key_of(entry, rules) == key
}

/// The records of `logs` that belong to the group `key`, in their order.
pub open spec fn group(logs: Seq<LogEntry>, rules: Seq<Grouping>, key: Key) -> Seq<LogEntry> {
    logs.filter(has_key(rules, key))
}

/// The keys that occur in `logs`, each once, in the order in which they
/// first occur.
pub open spec fn distinct_keys(logs: Seq<LogEntry>, rules: Seq<Grouping>) -> Seq<Key>
    decreases logs.len(),
{
    if logs.len() == 0 {
        Seq::empty()
    } else {
        let before = distinct_keys(logs.drop_last(), rules);
        let key = key_of(logs.last(), rules);
        if before.contains(key) {
            before
        } else {
            before.push(key)
        }
    }
}

/// The test for a status of class `class`; `None` is the test for a status
/// of no class.
pub open spec fn has_class(class: Option<nat>) -> spec_fn(LogEntry) -> bool {
    |entry: LogEntry| status_class(entry.status@) == class
}

/// The number of `records` whose status is of class `class`.
pub open spec fn class_count(records: Seq<LogEntry>, class: Option<nat>) -> nat {
    records.filter(has_class(class)).len()
}

/// The time of a record, where it has one.
pub open spec fn time_of() -> spec_fn(LogEntry) -> Option<u64> {
    |entry: LogEntry| entry.response_time
}

/// The times of `records`, in their order.
pub open spec fn samples_of(records: Seq<LogEntry>) -> Seq<u64> {
    records.filter_map(time_of())
}

/// The number of `records` up to and including the last one that has a
/// time; zero where none has.
pub open spec fn mean_count(records: Seq<LogEntry>) -> nat
    decreases records.len(),
{
    if records.len() == 0 {
        0
    } else if records.last().response_time is Some {
        records.len()
    } else {
        mean_count(records.drop_last())
    }
}

/// Whether the running fields of `aggregate` are those of `records`: the
/// count, the status classes, the times with their least and greatest, and
/// the count that the mean divides by.
pub open spec fn tallies(aggregate: AggregatedLogEntry, records: Seq<LogEntry>) -> bool {
    &&& aggregate.count == records.len()
    &&& aggregate.status_code.status_1xx == class_count(records, Some(1nat))
    &&& aggregate.status_code.status_2xx == class_count(records, Some(2nat))
    &&& aggregate.status_code.status_3xx == class_count(records, Some(3nat))
    &&& aggregate.status_code.status_4xx == class_count(records, Some(4nat))
    &&& aggregate.status_code.status_5xx == class_count(records, Some(5nat))
    &&& aggregate.response_time.samples@ == samples_of(records)
    &&& aggregate.response_time.mean_count == mean_count(records)
    &&& aggregate.response_time.min == lowest(samples_of(records))
    &&& aggregate.response_time.max == highest(samples_of(records))
}

/// Whether `aggregates` holds one summary for each key of `logs`, in the
/// order in which the keys first occur, with the running fields of the
/// key's group.
pub open spec fn tallies_groups(
    aggregates: Seq<AggregatedLogEntry>,
    logs: Seq<LogEntry>,
    rules: Seq<Grouping>,
) -> bool {
    &&& keys_of(aggregates) == distinct_keys(logs, rules)
    &&& forall|j: int|
        0 <= j < aggregates.len() ==> tallies(
            #[trigger] aggregates[j],
            group(logs, rules, aggregate_key(aggregates[j])),
        )
}

/// Whether `aggregates` is what the accumulation pass makes of `logs`: the
/// running fields of each group, and no percentile set.
pub open spec fn is_accumulation(
    aggregates: Seq<AggregatedLogEntry>,
    logs: Seq<LogEntry>,
    rules: Seq<Grouping>,
) -> bool {
    &&& tallies_groups(aggregates, logs, rules)
    &&& forall|j: int|
        0 <= j < aggregates.len() ==> (#[trigger] aggregates[j]).response_time.percentiles_unset()
}

/// Whether `aggregates` is the aggregation of `logs`: the running fields of
/// each group, and the percentiles of its times.
pub open spec fn is_aggregation(
    aggregates: Seq<AggregatedLogEntry>,
    logs: Seq<LogEntry>,
    rules: Seq<Grouping>,
) -> bool {
    &&& tallies_groups(aggregates, logs, rules)
    &&& forall|j: int|
        0 <= j < aggregates.len() ==> (#[trigger] aggregates[j]).response_time.percentiles_set()
}

/// One more record joins its own group and leaves the others as they are.
pub proof fn lemma_group_push(
    logs: Seq<LogEntry>,
    rules: Seq<Grouping>,
    key: Key,
    entry: LogEntry,
)
    ensures
        group(logs.push(entry), rules, key) == if key_of(entry, rules) == key {
            group(logs, rules, key).push(entry)
        } else {
            group(logs, rules, key)
        },
{
    logs.lemma_filter_push(entry, has_key(rules, key));
}

/// The group `key` holds the records of `logs` with that key, and no others.
pub proof fn lemma_group_members(logs: Seq<LogEntry>, rules: Seq<Grouping>, key: Key)
    ensures
        forall|entry: LogEntry| #[trigger]
            group(logs, rules, key).contains(entry) <==> logs.contains(entry) && key_of(
                entry,
                rules,
            ) == key,
{
    assert forall|entry: LogEntry| #[trigger]
        group(logs, rules, key).contains(entry) <==> logs.contains(entry) && key_of(entry, rules)
            == key by {
        if group(logs, rules, key).contains(entry) {
            logs.lemma_filter_contains_rev(has_key(rules, key), entry);
            let i = choose|i: int|
                0 <= i < group(logs, rules, key).len() && group(logs, rules, key)[i] == entry;
            logs.lemma_filter_pred(has_key(rules, key), i);
        }
        if logs.contains(entry) && key_of(entry, rules) == key {
            let k = choose|k: int| 0 <= k < logs.len() && logs[k] == entry;
            logs.lemma_filter_contains(has_key(rules, key), k);
        }
    }
}

/// A key that is not among the distinct keys has an empty group.
pub proof fn lemma_absent_key_has_no_records(logs: Seq<LogEntry>, rules: Seq<Grouping>, key: Key)
    requires
        !distinct_keys(logs, rules).contains(key),
    ensures
        group(logs, rules, key).len() == 0,
    decreases logs.len(),
{
    reveal(Seq::filter);
    if logs.len() > 0 {
        let before = distinct_keys(logs.drop_last(), rules);
        let last_key = key_of(logs.last(), rules);
        if !before.contains(last_key) {
            assert(before.push(last_key).last() == last_key);
            assert forall|i: int| 0 <= i < before.len() implies before[i] != key by {
                assert(before.push(last_key)[i] == before[i]);
            }
        }
        lemma_absent_key_has_no_records(logs.drop_last(), rules, key);
    }
}

/// The distinct keys are the keys of the records: each record's key is
/// among them, and each of them is the key of a record.
pub proof fn lemma_distinct_keys_are_the_keys(
    logs: Seq<LogEntry>,
    rules: Seq<Grouping>,
    key: Key,
)
    ensures
        distinct_keys(logs, rules).contains(key) <==> exists|i: int|
            0 <= i < logs.len() && key_of(#[trigger] logs[i], rules) == key,
    decreases logs.len(),
{
    if logs.len() > 0 {
        let seen = logs.drop_last();
        let before = distinct_keys(seen, rules);
        let last_key = key_of(logs.last(), rules);
        lemma_distinct_keys_are_the_keys(seen, rules, key);
        if distinct_keys(logs, rules).contains(key) {
            if before.contains(key) {
                let i = choose|i: int|
                    0 <= i < seen.len() && key_of(#[trigger] seen[i], rules) == key;
                assert(logs[i] == seen[i]);
            } else {
                assert(key_of(logs[logs.len() - 1], rules) == key);
            }
        }
        if exists|i: int| 0 <= i < logs.len() && key_of(#[trigger] logs[i], rules) == key {
            let i = choose|i: int| 0 <= i < logs.len() && key_of(#[trigger] logs[i], rules) == key;
            if i < seen.len() {
                assert(seen[i] == logs[i]);
                let p = choose|p: int| 0 <= p < before.len() && before[p] == key;
                if !before.contains(last_key) {
                    assert(before.push(last_key)[p] == key);
                }
            } else {
                if !before.contains(last_key) {
                    assert(before.push(last_key)[before.len() as int] == key);
                }
            }
        }
    }
}

/// No key occurs twice among the distinct keys.
pub proof fn lemma_distinct_keys_no_duplicates(logs: Seq<LogEntry>, rules: Seq<Grouping>)
    ensures
        distinct_keys(logs, rules).no_duplicates(),
    decreases logs.len(),
{
    if logs.len() > 0 {
        lemma_distinct_keys_no_duplicates(logs.drop_last(), rules);
    }
}

/// The running fields follow the group when one record is folded in.
pub proof fn lemma_tallies_push(
    before: AggregatedLogEntry,
    after: AggregatedLogEntry,
    records: Seq<LogEntry>,
    entry: LogEntry,
)
    requires
        tallies(before, records),
        after.folds_in(before, entry.status@, entry.response_time),
    ensures
        tallies(after, records.push(entry)),
{
    let longer = records.push(entry);
    assert(longer.drop_last() == records);
    records.lemma_filter_push(entry, has_class(Some(1nat)));
    records.lemma_filter_push(entry, has_class(Some(2nat)));
    records.lemma_filter_push(entry, has_class(Some(3nat)));
    records.lemma_filter_push(entry, has_class(Some(4nat)));
    records.lemma_filter_push(entry, has_class(Some(5nat)));
    if let Some(time) = entry.response_time {
        assert(samples_of(longer) == samples_of(records).push(time));
        assert(samples_of(longer).drop_last() == samples_of(records));
    }
}

/// A group holds no more times than records, and its mean divides by a
/// count that it reached: by zero exactly where it has no time.
pub proof fn lemma_samples_within(records: Seq<LogEntry>)
    ensures
        samples_of(records).len() <= records.len(),
        mean_count(records) <= records.len(),
        mean_count(records) == 0 <==> samples_of(records).len() == 0,
    decreases records.len(),
{
    if records.len() > 0 {
        lemma_samples_within(records.drop_last());
    }
}

/// The running fields of a group agree with each other.
pub proof fn lemma_tallies_wf(aggregate: AggregatedLogEntry, records: Seq<LogEntry>)
    requires
        tallies(aggregate, records),
    ensures
        aggregate.wf(),
{
    lemma_classes_partition(records);
    lemma_samples_within(records);
}

/// Each record is of one of the five classes or of none.
pub proof fn lemma_classes_partition(records: Seq<LogEntry>)
    ensures
        class_count(records, Some(1nat)) + class_count(records, Some(2nat)) + class_count(
            records,
            Some(3nat),
        ) + class_count(records, Some(4nat)) + class_count(records, Some(5nat)) + class_count(
            records,
            None,
        ) == records.len(),
    decreases records.len(),
{
    reveal(Seq::filter);
    if records.len() > 0 {
        lemma_classes_partition(records.drop_last());
    }
}

} // verus!
