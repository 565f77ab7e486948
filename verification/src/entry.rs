use vstd::prelude::*;
use vstd::string::StrSliceExecFns;

verus! {

/// One access-log record as it is handed to the aggregator.
#[derive(Debug)]
pub struct LogEntry {
    pub method: String,
    /// The request URI as logged, with its query string.
    pub uri: String,
    /// The status field as text; only its first character is looked at.
    pub status: String,
    /// The response time, where the record's field could be read as a
    /// number: an integer that orders as the measured times do (see
    /// `timekey`). `None` where the field is no number.
    pub response_time: Option<u64>,
}

/// The class of a status text: the digit `1` to `5` that it starts with.
pub open spec fn status_class(status: Seq<char>) -> Option<nat> {
    if status.len() == 0 {
        None
    } else if status[0] == '1' {
        Some(1)
    } else if status[0] == '2' {
        Some(2)
    } else if status[0] == '3' {
        Some(3)
    } else if status[0] == '4' {
        Some(4)
    } else if status[0] == '5' {
        Some(5)
    } else {
        None
    }
}

/// The status class of `status`, where it has one.
pub fn classify_status(status: &str) -> (r: Option<u8>)
    ensures
        match r {
            Some(class) => status_class(status@) == Some(class as nat),
            None => status_class(status@) is None,
        },
{
    if status.is_empty() {
        return None;
    }
    let first: char = status.get_char(0);
    if first == '1' {
        Some(1)
    } else if first == '2' {
        Some(2)
    } else if first == '3' {
        Some(3)
    } else if first == '4' {
        Some(4)
    } else if first == '5' {
        Some(5)
    } else {
        None
    }
}

} // verus!
