use vstd::multiset::Multiset;
use vstd::prelude::*;
use vstd::seq_lib::{lemma_multiset_commutative, lemma_sorted_unique, to_multiset_build};

verus! {

/// The order of times.
pub open spec fn at_most() -> spec_fn(u64, u64) -> bool {
    |a: u64, b: u64| a <= b
}

/// `samples` in ascending order.
pub open spec fn ascending(samples: Seq<u64>) -> Seq<u64> {
    samples.sort_by(at_most())
}

/// The least of `samples`, as a running minimum over them.
pub open spec fn lowest(samples: Seq<u64>) -> Option<u64>
    decreases samples.len(),
{
    if samples.len() == 0 {
        None
    } else {
        lower_of(lowest(samples.drop_last()), samples.last())
    }
}

/// The greatest of `samples`, as a running maximum over them.
pub open spec fn highest(samples: Seq<u64>) -> Option<u64>
    decreases samples.len(),
{
    if samples.len() == 0 {
        None
    } else {
        higher_of(highest(samples.drop_last()), samples.last())
    }
}

/// The running minimum `least` after one more time: the new time if it is
/// smaller or the first.
pub open spec fn lower_of(least: Option<u64>, time: u64) -> Option<u64> {
    match least {
        Some(m) => if time < m {
            Some(time)
        } else {
            Some(m)
        },
        None => Some(time),
    }
}

/// The running maximum `most` after one more time: the new time if it is
/// larger or the first.
pub open spec fn higher_of(most: Option<u64>, time: u64) -> Option<u64> {
    match most {
        Some(m) => if time > m {
            Some(time)
        } else {
            Some(m)
        },
        None => Some(time),
    }
}

/// Position, among `len` times in ascending order, of the time that stands
/// for `percent` percent: `len * percent / 100` rounded down, and the last
/// position where that is past the end.
pub open spec fn percentile_index(len: nat, percent: nat) -> nat {
    let raw = len * percent / 100;
    if raw < len {
        raw
    } else if len > 0 {
        (len - 1) as nat
    } else {
        0
    }
}

/// The time that stands for `percent` percent of `samples`; `None` where
/// there are no samples.
pub open spec fn percentile(samples: Seq<u64>, percent: nat) -> Option<u64> {
    if samples.len() == 0 {
        None
    } else {
        Some(ascending(samples)[percentile_index(samples.len(), percent) as int])
    }
}

/// Whether `samples` is in ascending order.
pub open spec fn is_ascending(samples: Seq<u64>) -> bool {
    forall|i: int, j: int| 0 <= i <= j < samples.len() ==> samples[i] <= samples[j]
}

/// `ascending(samples)` holds the times of `samples`, each as often as
/// `samples` does, in ascending order.
pub proof fn lemma_ascending(samples: Seq<u64>)
    ensures
        is_ascending(ascending(samples)),
        ascending(samples).to_multiset() == samples.to_multiset(),
        ascending(samples).len() == samples.len(),
{
    samples.lemma_sort_by_ensures(at_most());
    let sorted = ascending(samples);
    assert forall|i: int, j: int| 0 <= i <= j < sorted.len() implies sorted[i] <= sorted[j] by {
        if i < j {
            assert(at_most()(sorted[i], sorted[j]));
        }
    }
    vstd::seq_lib::to_multiset_len(sorted);
    vstd::seq_lib::to_multiset_len(samples);
}

/// Only one sequence holds the times of `samples` in ascending order.
pub proof fn lemma_ascending_unique(sorted: Seq<u64>, samples: Seq<u64>)
    requires
        is_ascending(sorted),
        sorted.to_multiset() == samples.to_multiset(),
    ensures
        sorted == ascending(samples),
{
    lemma_ascending(samples);
    lemma_sorted_unique(sorted, ascending(samples), at_most());
}

/// The running minimum is the least of the times: one of them, and at most
/// each of them. There is one exactly where there is a time.
pub proof fn lemma_lowest_is_least(samples: Seq<u64>)
    ensures
        lowest(samples) is Some <==> samples.len() > 0,
        lowest(samples) matches Some(least) ==> {
            &&& samples.contains(least)
            &&& forall|i: int| 0 <= i < samples.len() ==> least <= samples[i]
        },
    decreases samples.len(),
{
    if samples.len() > 0 {
        let rest = samples.drop_last();
        lemma_lowest_is_least(rest);
        let least = lowest(samples)->0;
        if least != samples.last() {
            let i = choose|i: int| 0 <= i < rest.len() && rest[i] == least;
            assert(samples[i] == least);
        }
        assert forall|i: int| 0 <= i < samples.len() implies least <= samples[i] by {
            if i < rest.len() {
                assert(rest[i] == samples[i]);
            }
        }
    }
}

/// The running maximum is the greatest of the times: one of them, and at
/// least each of them. There is one exactly where there is a time.
pub proof fn lemma_highest_is_greatest(samples: Seq<u64>)
    ensures
        highest(samples) is Some <==> samples.len() > 0,
        highest(samples) matches Some(greatest) ==> {
            &&& samples.contains(greatest)
            &&& forall|i: int| 0 <= i < samples.len() ==> greatest >= samples[i]
        },
    decreases samples.len(),
{
    if samples.len() > 0 {
        let rest = samples.drop_last();
        lemma_highest_is_greatest(rest);
        let greatest = highest(samples)->0;
        if greatest != samples.last() {
            let i = choose|i: int| 0 <= i < rest.len() && rest[i] == greatest;
            assert(samples[i] == greatest);
        }
        assert forall|i: int| 0 <= i < samples.len() implies greatest >= samples[i] by {
            if i < rest.len() {
                assert(rest[i] == samples[i]);
            }
        }
    }
}

/// Below a hundred percent the position is `len * percent / 100` rounded
/// down as it stands: it is never past the end.
pub proof fn lemma_percentile_index_below_hundred(len: nat, percent: nat)
    requires
        len > 0,
        percent < 100,
    ensures
        percentile_index(len, percent) == len * percent / 100,
{
    assert(len * percent < len * 100) by (nonlinear_arith)
        requires
            len > 0,
            percent < 100,
    ;
}

/// A higher percentage stands at the same position or a later one, and
/// every position is one of a time.
pub proof fn lemma_percentile_index_monotone(len: nat, lower: nat, higher: nat)
    requires
        len > 0,
        lower <= higher,
    ensures
        percentile_index(len, lower) <= percentile_index(len, higher) < len,
{
    assert(len * lower <= len * higher) by (nonlinear_arith)
        requires
            lower <= higher,
    ;
    assert(len * lower / 100 <= len * higher / 100) by (nonlinear_arith)
        requires
            len * lower <= len * higher,
    ;
}

/// With at least one time, the percentiles are times of the group, rise with
/// the percentage, and lie between the least and the greatest time.
pub proof fn lemma_percentiles_between_extremes(samples: Seq<u64>, lower: nat, higher: nat)
    requires
        samples.len() > 0,
        lower <= higher,
    ensures
        lowest(samples) is Some,
        highest(samples) is Some,
        percentile(samples, lower) is Some,
        percentile(samples, higher) is Some,
        samples.contains(percentile(samples, lower)->0),
        samples.contains(percentile(samples, higher)->0),
        lowest(samples)->0 <= percentile(samples, lower)->0,
        percentile(samples, lower)->0 <= percentile(samples, higher)->0,
        percentile(samples, higher)->0 <= highest(samples)->0,
{
    lemma_lowest_is_least(samples);
    lemma_highest_is_greatest(samples);
    lemma_ascending(samples);
    lemma_percentile_index_monotone(samples.len(), lower, higher);
    let sorted = ascending(samples);
    let low = percentile_index(samples.len(), lower) as int;
    let high = percentile_index(samples.len(), higher) as int;
    vstd::seq_lib::to_multiset_contains(sorted, sorted[low]);
    vstd::seq_lib::to_multiset_contains(samples, sorted[low]);
    vstd::seq_lib::to_multiset_contains(sorted, sorted[high]);
    vstd::seq_lib::to_multiset_contains(samples, sorted[high]);
}

/// A sequence without times holds no time.
proof fn lemma_empty_multiset(samples: Seq<u64>)
    requires
        samples.len() == 0,
    ensures
        samples.to_multiset() == Multiset::<u64>::empty(),
{
    vstd::seq_lib::to_multiset_len(samples);
    vstd::multiset::lemma_multiset_empty_len(samples.to_multiset());
}

/// Merges two ascending runs into one.
fn merge(left: &Vec<u64>, right: &Vec<u64>) -> (r: Vec<u64>)
    requires
        is_ascending(left@),
        is_ascending(right@),
    ensures
        is_ascending(r@),
        r@.to_multiset() == left@.to_multiset().add(right@.to_multiset()),
{
    let mut out: Vec<u64> = Vec::new();
    let mut i: usize = 0;
    let mut j: usize = 0;
    proof {
        lemma_empty_multiset(out@);
        lemma_empty_multiset(left@.take(0));
        lemma_empty_multiset(right@.take(0));
    }
    while i < left.len() || j < right.len()
        invariant
            i <= left@.len(),
            j <= right@.len(),
            is_ascending(left@),
            is_ascending(right@),
            is_ascending(out@),
            out@.to_multiset() == left@.take(i as int).to_multiset().add(
                right@.take(j as int).to_multiset(),
            ),
            forall|k: int| 0 <= k < out@.len() && i < left@.len() ==> out@[k] <= left@[i as int],
            forall|k: int| 0 <= k < out@.len() && j < right@.len() ==> out@[k] <= right@[j as int],
        decreases left@.len() - i + right@.len() - j,
    {
        if j >= right.len() || (i < left.len() && left[i] <= right[j]) {
            proof {
                assert(left@.take(i as int + 1) == left@.take(i as int).push(left@[i as int]));
                to_multiset_build(left@.take(i as int), left@[i as int]);
                to_multiset_build(out@, left@[i as int]);
            }
            out.push(left[i]);
            i = i + 1;
        } else {
            proof {
                assert(right@.take(j as int + 1) == right@.take(j as int).push(right@[j as int]));
                to_multiset_build(right@.take(j as int), right@[j as int]);
                to_multiset_build(out@, right@[j as int]);
            }
            out.push(right[j]);
            j = j + 1;
        }
    }
    proof {
        assert(left@.take(i as int) == left@);
        assert(right@.take(j as int) == right@);
    }
    out
}

/// Sorts the times of `samples` from position `from` up to `to`.
fn sort_range(samples: &Vec<u64>, from: usize, to: usize) -> (r: Vec<u64>)
    requires
        from <= to <= samples@.len(),
    ensures
        is_ascending(r@),
        r@.to_multiset() == samples@.subrange(from as int, to as int).to_multiset(),
    decreases to - from,
{
    let mut out: Vec<u64> = Vec::new();
    if to - from == 0 {
        proof {
            lemma_empty_multiset(out@);
            lemma_empty_multiset(samples@.subrange(from as int, to as int));
        }
        out
    } else if to - from == 1 {
        proof {
            assert(samples@.subrange(from as int, to as int) == out@.push(samples@[from as int]));
        }
        out.push(samples[from]);
        out
    } else {
        let middle: usize = from + (to - from) / 2;
        let left = sort_range(samples, from, middle);
        let right = sort_range(samples, middle, to);
        proof {
            assert(samples@.subrange(from as int, to as int) == samples@.subrange(
                from as int,
                middle as int,
            ) + samples@.subrange(middle as int, to as int));
            lemma_multiset_commutative(
                samples@.subrange(from as int, middle as int),
                samples@.subrange(middle as int, to as int),
            );
        }
        merge(&left, &right)
    }
}

/// The times of `samples` in ascending order.
pub fn sort_samples(samples: &Vec<u64>) -> (r: Vec<u64>)
    ensures
        r@ == ascending(samples@),
{
    let sorted = sort_range(samples, 0, samples.len());
    proof {
        assert(samples@.subrange(0, samples@.len() as int) == samples@);
        lemma_ascending_unique(sorted@, samples@);
    }
    sorted
}

/// Position of the `percent` percent time among `len` times in ascending
/// order.
pub fn percentile_position(len: usize, percent: u8) -> (r: usize)
    requires
        len > 0,
    ensures
        r == percentile_index(len as nat, percent as nat),
        r < len,
{
    assert(len * percent <= 0xffff_ffff_ffff_ffff * 0xff) by (nonlinear_arith)
        requires
            len <= 0xffff_ffff_ffff_ffff,
            percent <= 0xff,
    ;
    let raw: u128 = (len as u128) * (percent as u128) / 100;
    if raw < len as u128 {
        raw as usize
    } else {
        len - 1
    }
}

} // verus!
