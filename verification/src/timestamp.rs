//! Points in time, and how one is read from the fixed-position prefix of a
//! log line.

use chrono::DateTime;
use vstd::prelude::*;
use vstd::string::StrSliceExecFns;

verus! {

/// Number of characters a line must have for its timestamp to be looked for.
pub const MIN_LINE_CHARS: usize = 25;

/// Index of the first character of the timestamp within a line.
pub const STAMP_START: usize = 1;

/// Index just past the last character of the timestamp within a line.
pub const STAMP_END: usize = 25;

/// A point in time, independent of the UTC offset it was written with:
/// whole seconds since the Unix epoch, and nanoseconds since the last second
/// boundary (which may exceed 999,999,999 during a leap second).
#[derive(Clone, Copy, Debug, PartialEq, Eq, Structural)]
pub struct Timestamp {
    pub seconds: i64,
    pub nanos: u32,
}

impl Timestamp {
    /// The position of this instant on a single integer axis: instants are
    /// ordered by seconds first and by nanoseconds among equal seconds.
    pub open spec fn instant(self) -> int {
        self.seconds * 0x1_0000_0000 + self.nanos
    }

    /// Whether `self` is strictly earlier than `other`.
    pub fn is_before(&self, other: &Timestamp) -> (earlier: bool)
        ensures
            earlier == (self.instant() < other.instant()),
    {
        self.seconds < other.seconds || (self.seconds == other.seconds && self.nanos < other.nanos)
    }
}

/// What `chrono`'s `DateTime::parse_from_str` makes of `text` under the
/// format string `format`: nothing if the text does not parse, otherwise the
/// parsed instant as seconds since the Unix epoch (`DateTime::timestamp`)
/// and nanoseconds within the second (`DateTime::timestamp_subsec_nanos`).
pub uninterp spec fn parsed_instant(text: Seq<char>, format: Seq<char>) -> Option<(i64, u32)>;

/// Calls `chrono::DateTime::parse_from_str`, which parses `text` as a date
/// and time with an explicit UTC offset under `format` and reports malformed
/// text or an unusable format as an error. The parse depends on the two
/// strings alone; the instant of a successful parse is handed back through
/// `timestamp` and `timestamp_subsec_nanos`.
#[verifier::external_body]
fn parse_instant(text: &str, format: &str) -> (parsed: Option<(i64, u32)>)
    ensures
        parsed == parsed_instant(text@, format@),
{
    match DateTime::parse_from_str(text, format) {
        Ok(moment) => Some((moment.timestamp(), moment.timestamp_subsec_nanos())),
        Err(_) => None,
    }
}

/// The timestamp carried by `line` under `format`, if any: the line must
/// have at least 25 characters, and the 24 characters behind its first one
/// must parse.
pub open spec fn timestamp_of(line: Seq<char>, format: Seq<char>) -> Option<Timestamp> {
    if line.len() >= MIN_LINE_CHARS {
        match parsed_instant(line.subrange(STAMP_START as int, STAMP_END as int), format) {
            Some((seconds, nanos)) => Some(Timestamp { seconds, nanos }),
            None => None,
        }
    } else {
        None
    }
}

/// Reads the timestamp of a raw log line. Lengths and positions count
/// characters, not bytes. A line that is too short, or whose timestamp
/// columns do not parse under `format`, has no timestamp.
pub fn parse_date(line: &str, format: &str) -> (stamp: Option<Timestamp>)
    ensures
        stamp == timestamp_of(line@, format@),
        line@.len() < MIN_LINE_CHARS ==> stamp is None,
{
    if line.unicode_len() >= MIN_LINE_CHARS {
        match parse_instant(line.substring_char(STAMP_START, STAMP_END), format) {
            Some((seconds, nanos)) => Some(Timestamp { seconds, nanos }),
            None => None,
        }
    } else {
        None
    }
}

} // verus!
