use crate::config::Grouping;
use crate::group::{
    aggregate_key, distinct_keys, group, has_key, is_accumulation, is_aggregation, key_of, keys_of,
    lemma_absent_key_has_no_records, lemma_distinct_keys_no_duplicates, lemma_group_push,
    lemma_tallies_push, lemma_tallies_wf,
};
use crate::index::{indexes, GroupIndex};
use crate::laws::{lemma_counts_add_up, total_count};
use vstd::prelude::*;

pub use crate::entry::{classify_status, LogEntry};
pub use crate::normalize::{compile_groupings, normalize_uri};
pub use crate::summary::{AggregatedLogEntry, ResponseTime, StatusCode};

verus! {

/// The accumulation pass: folds each record of `logs`, in order, into the
/// summary of its group.
pub fn accumulate(logs: &Vec<LogEntry>, groupings: &[Grouping]) -> (r: Vec<AggregatedLogEntry>)
    ensures
        is_accumulation(r@, logs@, groupings@),
{
    let mut aggregates: Vec<AggregatedLogEntry> = Vec::new();
    let mut index = GroupIndex::new();
    let mut i: usize = 0;
    assert(keys_of(aggregates@) == distinct_keys(logs@.take(0), groupings@));
    while i < logs.len()
        invariant
            i <= logs@.len(),
            is_accumulation(aggregates@, logs@.take(i as int), groupings@),
            index.wf(),
            indexes(index@, keys_of(aggregates@)),
        decreases logs.len() - i,
    {
        let entry = &logs[i];
        let uri = normalize_uri(entry.uri.as_str(), groupings);
        let ghost seen = logs@.take(i as int);
        let ghost key = key_of(*entry, groupings@);
        let ghost before = aggregates@;
        proof {
            // The record joins the group of its key and leaves the other
            // groups as they were.
            assert(logs@.take(i as int + 1) == seen.push(*entry));
            assert(seen.push(*entry).drop_last() == seen);
            lemma_distinct_keys_no_duplicates(seen, groupings@);
            assert forall|j: int| 0 <= j < before.len() implies group(
                seen.push(*entry),
                groupings@,
                aggregate_key(#[trigger] before[j]),
            ) == if aggregate_key(before[j]) == key {
                group(seen, groupings@, key).push(*entry)
            } else {
                group(seen, groupings@, aggregate_key(before[j]))
            } by {
                lemma_group_push(seen, groupings@, aggregate_key(before[j]), *entry);
            }
        }
        match index.get(entry.method.as_str(), uri.as_str()) {
            Some(j) => {
                proof {
                    let records = group(seen, groupings@, key);
                    seen.lemma_filter_len(has_key(groupings@, key));
                    lemma_tallies_wf(before[j as int], records);
                }
                aggregates[j].record(entry.status.as_str(), entry.response_time);
                proof {
                    lemma_tallies_push(
                        before[j as int],
                        aggregates@[j as int],
                        group(seen, groupings@, key),
                        *entry,
                    );
                    assert(keys_of(aggregates@) =~= keys_of(before));
                    assert forall|k: int| 0 <= k < aggregates@.len() && k != j implies aggregate_key(
                        aggregates@[k],
                    ) != key by {
                        assert(keys_of(before)[k] == aggregate_key(before[k]));
                    }
                }
            },
            None => {
                proof {
                    assert forall|k: int| 0 <= k < before.len() implies aggregate_key(
                        #[trigger] before[k],
                    ) != key by {
                        assert(keys_of(before)[k] == aggregate_key(before[k]));
                    }
                }
                index.insert(entry.method.as_str(), uri.clone(), aggregates.len());
                let mut fresh = AggregatedLogEntry::new(entry.method.clone(), uri);
                let ghost empty = fresh;
                fresh.record(entry.status.as_str(), entry.response_time);
                proof {
                    // The record is the first of its group.
                    lemma_absent_key_has_no_records(seen, groupings@, key);
                    lemma_group_push(seen, groupings@, key, *entry);
                    let records = group(seen, groupings@, key);
                    reveal(Seq::filter);
                    lemma_tallies_push(empty, fresh, records, *entry);
                }
                aggregates.push(fresh);
                proof {
                    assert(keys_of(aggregates@) =~= keys_of(before).push(key));
                }
            },
        }
        i = i + 1;
    }
    assert(logs@.take(i as int) == logs@);
    aggregates
}

/// The finalization pass: sets the percentiles of each summary from the
/// times of its group.
pub fn finalize(aggregates: &mut Vec<AggregatedLogEntry>)
    ensures
        final(aggregates)@.len() == old(aggregates)@.len(),
        forall|j: int|
            0 <= j < old(aggregates)@.len() ==> {
                &&& (#[trigger] final(aggregates)@[j]).same_running_fields(old(aggregates)@[j])
                &&& final(aggregates)@[j].response_time.percentiles_set()
            },
{
    let mut j: usize = 0;
    while j < aggregates.len()
        invariant
            j <= aggregates@.len(),
            aggregates@.len() == old(aggregates)@.len(),
            forall|k: int|
                0 <= k < j ==> {
                    &&& (#[trigger] aggregates@[k]).same_running_fields(old(aggregates)@[k])
                    &&& aggregates@[k].response_time.percentiles_set()
                },
            forall|k: int| j <= k < aggregates@.len() ==> aggregates@[k] == old(aggregates)@[k],
        decreases aggregates.len() - j,
    {
        aggregates[j].finalize();
        j = j + 1;
    }
}

/// Groups `logs` by method and normalized URI and summarizes each group:
/// one summary for each key, in the order in which the keys first occur.
pub fn aggregate_logs(logs: Vec<LogEntry>, groupings: &[Grouping]) -> (r: Vec<AggregatedLogEntry>)
    ensures
        is_aggregation(r@, logs@, groupings@),
        total_count(r@) == logs@.len(),
{
    let mut aggregates = accumulate(&logs, groupings);
    let ghost accumulated = aggregates@;
    finalize(&mut aggregates);
    proof {
        assert(keys_of(aggregates@) =~= keys_of(accumulated));
        lemma_counts_add_up(aggregates@, logs@, groupings@);
    }
    aggregates
}

} // verus!
