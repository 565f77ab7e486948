use crate::entry::{classify_status, status_class};
use crate::stats::{
    higher_of, highest, lemma_ascending, lower_of, lowest, percentile, percentile_position,
    sort_samples,
};
use vstd::prelude::*;

verus! {

/// How many records of a group fell into each status class.
#[derive(Debug, Clone, Copy, PartialEq, Eq, Structural)]
pub struct StatusCode {
    pub status_1xx: u64,
    pub status_2xx: u64,
    pub status_3xx: u64,
    pub status_4xx: u64,
    pub status_5xx: u64,
}

impl StatusCode {
    /// The number of records counted in any class.
    pub open spec fn total(self) -> nat {
        (self.status_1xx + self.status_2xx + self.status_3xx + self.status_4xx
            + self.status_5xx) as nat
    }

    /// The counts after one more record of class `class`; a record of no
    /// class changes nothing.
    pub open spec fn bumped(self, class: Option<nat>) -> StatusCode {
        if class == Some(1nat) {
            StatusCode { status_1xx: (self.status_1xx + 1) as u64, ..self }
        } else if class == Some(2nat) {
            StatusCode { status_2xx: (self.status_2xx + 1) as u64, ..self }
        } else if class == Some(3nat) {
            StatusCode { status_3xx: (self.status_3xx + 1) as u64, ..self }
        } else if class == Some(4nat) {
            StatusCode { status_4xx: (self.status_4xx + 1) as u64, ..self }
        } else if class == Some(5nat) {
            StatusCode { status_5xx: (self.status_5xx + 1) as u64, ..self }
        } else {
            self
        }
    }

    /// The counts of no records.
    pub open spec fn zero() -> StatusCode {
        StatusCode { status_1xx: 0, status_2xx: 0, status_3xx: 0, status_4xx: 0, status_5xx: 0 }
    }

    /// Counts one more record with status text `status`.
    pub fn count_status(&mut self, status: &str)
        requires
            old(self).total() < u64::MAX,
        ensures
            *final(self) == old(self).bumped(status_class(status@)),
    {
        match classify_status(status) {
            Some(1) => {
                self.status_1xx = self.status_1xx + 1;
            },
            Some(2) => {
                self.status_2xx = self.status_2xx + 1;
            },
            Some(3) => {
                self.status_3xx = self.status_3xx + 1;
            },
            Some(4) => {
                self.status_4xx = self.status_4xx + 1;
            },
            Some(5) => {
                self.status_5xx = self.status_5xx + 1;
            },
            _ => {},
        }
    }
}

impl Default for StatusCode {
    fn default() -> (r: Self)
        ensures
            r == StatusCode::zero(),
    {
        StatusCode { status_1xx: 0, status_2xx: 0, status_3xx: 0, status_4xx: 0, status_5xx: 0 }
    }
}

/// Response-time figures of a group. A time is an integer that orders as the
/// measured times do; a figure is `None` while the group has no time.
#[derive(Debug)]
pub struct ResponseTime {
    pub min: Option<u64>,
    pub max: Option<u64>,
    pub p50: Option<u64>,
    pub p75: Option<u64>,
    pub p90: Option<u64>,
    pub p95: Option<u64>,
    pub p99: Option<u64>,
    /// The times that were read, in the order of their records: the terms of
    /// the group's sum.
    pub samples: Vec<u64>,
    /// The group's record count at the last record whose time was read: what
    /// the sum is divided by for the group's mean. Zero while there is none.
    pub mean_count: u64,
}

/// The summary of the records that share a method and a normalized URI.
#[derive(Debug)]
pub struct AggregatedLogEntry {
    pub method: String,
    pub uri: String,
    pub count: u64,
    pub status_code: StatusCode,
    pub response_time: ResponseTime,
}

impl ResponseTime {
    /// Whether no percentile is set.
    pub open spec fn percentiles_unset(self) -> bool {
        &&& self.p50 is None
        &&& self.p75 is None
        &&& self.p90 is None
        &&& self.p95 is None
        &&& self.p99 is None
    }

    /// Whether each percentile is the one of `self.samples`.
    pub open spec fn percentiles_set(self) -> bool {
        &&& self.p50 == percentile(self.samples@, 50)
        &&& self.p75 == percentile(self.samples@, 75)
        &&& self.p90 == percentile(self.samples@, 90)
        &&& self.p95 == percentile(self.samples@, 95)
        &&& self.p99 == percentile(self.samples@, 99)
    }

    /// Whether these are the figures of a group without a time, before its
    /// percentiles are set.
    pub open spec fn is_empty(self) -> bool {
        &&& self.min is None
        &&& self.max is None
        &&& self.percentiles_unset()
        &&& self.samples@ == Seq::<u64>::empty()
        &&& self.mean_count == 0
    }

    /// Whether the least and the greatest time are those of the times taken
    /// in.
    pub open spec fn wf(self) -> bool {
        &&& self.min == lowest(self.samples@)
        &&& self.max == highest(self.samples@)
    }

    /// Whether `self` is `before` but for its percentiles.
    pub open spec fn same_running_fields(self, before: ResponseTime) -> bool {
        &&& self.min == before.min
        &&& self.max == before.max
        &&& self.samples@ == before.samples@
        &&& self.mean_count == before.mean_count
    }

    /// Sets each percentile from the times taken in so far.
    pub fn set_percentiles(&mut self)
        ensures
            final(self).same_running_fields(*old(self)),
            final(self).percentiles_set(),
            old(self).wf() ==> final(self).wf(),
    {
        let sorted = sort_samples(&self.samples);
        proof {
            lemma_ascending(self.samples@);
        }
        let len: usize = sorted.len();
        if len > 0 {
            self.p50 = Some(sorted[percentile_position(len, 50)]);
            self.p75 = Some(sorted[percentile_position(len, 75)]);
            self.p90 = Some(sorted[percentile_position(len, 90)]);
            self.p95 = Some(sorted[percentile_position(len, 95)]);
            self.p99 = Some(sorted[percentile_position(len, 99)]);
        } else {
            self.p50 = None;
            self.p75 = None;
            self.p90 = None;
            self.p95 = None;
            self.p99 = None;
        }
    }

    /// Whether `self` is `before` after one more record of the group, which
    /// brought its count to `count`: a time joins the times held, replaces
    /// the least where it is smaller or the first, the greatest where it is
    /// larger or the first, and makes `count` what the mean divides by. A
    /// record without a time leaves all of these as they are. Either way no
    /// percentile is set any more.
    pub open spec fn takes_in(
        self,
        before: ResponseTime,
        response_time: Option<u64>,
        count: u64,
    ) -> bool {
        &&& self.percentiles_unset()
        &&& match response_time {
            Some(time) => {
                &&& self.min == lower_of(before.min, time)
                &&& self.max == higher_of(before.max, time)
                &&& self.samples@ == before.samples@.push(time)
                &&& self.mean_count == count
            },
            None => self.same_running_fields(before),
        }
    }

    /// Takes in the time of one more record of the group, which brought the
    /// group's count to `count`.
    pub fn observe(&mut self, response_time: Option<u64>, count: u64)
        ensures
            final(self).takes_in(*old(self), response_time, count),
            old(self).wf() ==> final(self).wf(),
    {
        self.p50 = None;
        self.p75 = None;
        self.p90 = None;
        self.p95 = None;
        self.p99 = None;
        if let Some(time) = response_time {
            assert(self.samples@.push(time).drop_last() == self.samples@);
            self.min = match self.min {
                Some(m) => if time < m {
                    Some(time)
                } else {
                    Some(m)
                },
                None => Some(time),
            };
            self.max = match self.max {
                Some(m) => if time > m {
                    Some(time)
                } else {
                    Some(m)
                },
                None => Some(time),
            };
            self.samples.push(time);
            self.mean_count = count;
        }
    }
}

impl Default for ResponseTime {
    fn default() -> (r: Self)
        ensures
            r.is_empty(),
            r.wf(),
    {
        ResponseTime {
            min: None,
            max: None,
            p50: None,
            p75: None,
            p90: None,
            p95: None,
            p99: None,
            samples: Vec::new(),
            mean_count: 0,
        }
    }
}

impl Default for AggregatedLogEntry {
    fn default() -> (r: Self)
        ensures
            r.is_empty(),
            r.wf(),
            r.method@ == Seq::<char>::empty(),
            r.uri@ == Seq::<char>::empty(),
    {
        AggregatedLogEntry::new(String::new(), String::new())
    }
}

impl AggregatedLogEntry {
    /// Whether this is the summary of no records.
    pub open spec fn is_empty(self) -> bool {
        &&& self.count == 0
        &&& self.status_code == StatusCode::zero()
        &&& self.response_time.is_empty()
    }

    /// Whether the fields agree with each other: no more records are
    /// counted in the status classes than in all, no more times are held
    /// than records were counted, the mean divides by a count that was
    /// reached, and by zero only where there is no time, and the least and
    /// the greatest time are those of the times held.
    pub open spec fn wf(self) -> bool {
        &&& self.status_code.total() <= self.count
        &&& self.response_time.samples@.len() <= self.count
        &&& self.response_time.mean_count <= self.count
        &&& self.response_time.mean_count == 0 <==> self.response_time.samples@.len() == 0
        &&& self.response_time.wf()
    }

    /// The summary of no records under the key `(method, uri)`.
    pub fn new(method: String, uri: String) -> (r: Self)
        ensures
            r.method@ == method@,
            r.uri@ == uri@,
            r.is_empty(),
            r.wf(),
    {
        AggregatedLogEntry {
            method,
            uri,
            count: 0,
            status_code: StatusCode::default(),
            response_time: ResponseTime::default(),
        }
    }

    /// Whether `self` is `before` with one more record of its group folded
    /// in, of status text `status` and time `response_time`.
    pub open spec fn folds_in(
        self,
        before: AggregatedLogEntry,
        status: Seq<char>,
        response_time: Option<u64>,
    ) -> bool {
        &&& self.method@ == before.method@
        &&& self.uri@ == before.uri@
        &&& self.count == before.count + 1
        &&& self.status_code == before.status_code.bumped(status_class(status))
        &&& self.response_time.takes_in(before.response_time, response_time, self.count)
    }

    /// Whether `self` is `before` but for its percentiles.
    pub open spec fn same_running_fields(self, before: AggregatedLogEntry) -> bool {
        &&& self.method@ == before.method@
        &&& self.uri@ == before.uri@
        &&& self.count == before.count
        &&& self.status_code == before.status_code
        &&& self.response_time.same_running_fields(before.response_time)
    }

    /// Sets the percentiles of the group from its times.
    pub fn finalize(&mut self)
        ensures
            final(self).same_running_fields(*old(self)),
            final(self).response_time.percentiles_set(),
            old(self).wf() ==> final(self).wf(),
    {
        self.response_time.set_percentiles();
    }

    /// Folds one record of this group into the summary.
    pub fn record(&mut self, status: &str, response_time: Option<u64>)
        requires
            old(self).wf(),
            old(self).count < u64::MAX,
        ensures
            final(self).wf(),
            final(self).folds_in(*old(self), status@, response_time),
    {
        self.count = self.count + 1;
        self.status_code.count_status(status);
        self.response_time.observe(response_time, self.count);
    }
}

} // verus!
