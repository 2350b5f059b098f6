//! The local calendar, which only the machine knows.

use vstd::prelude::*;

verus! {

/// The pattern for a date and a time of day to the minute.
pub open spec fn minute_pattern() -> Seq<char> {
    "%Y-%m-%d %H:%M"@
}

/// The pattern for a date and a time of day to the second.
pub open spec fn second_pattern() -> Seq<char> {
    "%Y-%m-%d %H:%M:%S"@
}

/// `chrono::TimeZone::timestamp_opt` on `chrono::Local`, then
/// `chrono::DateTime::format`: the local date and time of the instant `secs`
/// seconds after the epoch, written after `pattern`. There is a text exactly
/// where chrono's calendar reaches the instant: `timestamp_opt` gives a
/// single date and time wherever `chrono::DateTime::from_timestamp` gives
/// one, and that is for the years -262143 to 262142. What the text says
/// depends on the machine's time zone, so nothing is claimed of it. The two
/// patterns admitted are the ones known to be well formed.
#[verifier::external_body]
fn local_time_text(secs: i64, pattern: &str) -> (text: Option<String>)
    requires
        pattern@ == minute_pattern() || pattern@ == second_pattern(),
    ensures
        text is Some <==> calendar_reaches(secs),
{
    match chrono::TimeZone::timestamp_opt(&chrono::Local, secs, 0) {
        chrono::LocalResult::Single(at) => Some(at.format(pattern).to_string()),
        _ => None,
    }
}

/// The local date and time of day, to the minute, of the instant `secs`
/// seconds after the epoch; `None` where the calendar does not reach it.
pub(crate) fn local_minute(secs: i64) -> (text: Option<String>)
    ensures
        text is Some <==> calendar_reaches(secs),
{
    local_time_text(secs, "%Y-%m-%d %H:%M")
}

/// The local date and time of day, to the second, of the instant `secs`
/// seconds after the epoch; `None` where the calendar does not reach it.
pub(crate) fn local_second(secs: i64) -> (text: Option<String>)
    ensures
        text is Some <==> calendar_reaches(secs),
{
    local_time_text(secs, "%Y-%m-%d %H:%M:%S")
}

/// Whether the calendar reaches the instant `secs` seconds after the epoch:
/// it runs from the first second of the year -262143 to the last second of
/// the year 262142, both read in UTC.
pub open spec fn calendar_reaches(secs: i64) -> bool {
    -8_334_601_228_800 <= secs <= 8_210_266_876_799
}

} // verus!
