//! Timestamp parsing for the log's fixed date-time format.
//!
//! A log record carries its start and end moments as text shaped
//! `YYYY-MM-DD  HH:MM:SS` (two spaces between date and time). The crate
//! stores each moment as epoch seconds; parsing the fixed format is left to
//! the `chrono` crate behind one trusted wrapper.

use vstd::prelude::*;

verus! {

/// The epoch seconds a text in the log's date-time format denotes, or
/// `None` when the text does not parse. The value depends on the text
/// alone; this name is given meaning only by `parse_log_timestamp`.
pub uninterp spec fn log_timestamp(s: Seq<char>) -> Option<i64>;

/// Relies on `chrono::NaiveDateTime::parse_from_str` with the fixed format
/// `"%F  %T"`, and on `and_utc().timestamp()` to turn a successful parse
/// into epoch seconds: both are pure functions of the input text.
#[verifier::external_body]
pub fn parse_log_timestamp(s: &str) -> (r: Option<i64>)
    ensures
        r == log_timestamp(s@),
{
    match chrono::NaiveDateTime::parse_from_str(s, "%F  %T") {
        Ok(d) => Some(d.and_utc().timestamp()),
        Err(_) => None,
    }
}

} // verus!
