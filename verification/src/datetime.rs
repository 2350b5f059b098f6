//! Reading the date that an article gives for itself.

use vstd::prelude::*;

verus! {

/// What `chrono::NaiveDateTime::parse_from_str` makes of `text` under
/// `pattern`: the date and time of day read, counted in seconds since the
/// epoch as if it were read in UTC, or `None` where the text does not fit.
pub uninterp spec fn date_time_reading(text: Seq<char>, pattern: Seq<char>) -> Option<i64>;

/// What `chrono::NaiveDate::parse_from_str` makes of `text` under `pattern`:
/// the midnight that begins the date read, counted in seconds since the
/// epoch as if it were read in UTC, or `None` where the text does not fit.
pub uninterp spec fn date_reading(text: Seq<char>, pattern: Seq<char>) -> Option<i64>;

/// `chrono::NaiveDateTime::parse_from_str`, with the result counted in
/// seconds as `chrono::NaiveDateTime::and_utc` and
/// `chrono::DateTime::timestamp` count it. The result is a function of the
/// two texts alone.
#[verifier::external_body]
fn read_date_time(text: &str, pattern: &str) -> (secs: Option<i64>)
    ensures
        secs == date_time_reading(text@, pattern@),
{
    match chrono::NaiveDateTime::parse_from_str(text, pattern) {
        Ok(at) => Some(at.and_utc().timestamp()),
        Err(_) => None,
    }
}

/// `chrono::NaiveDate::parse_from_str`, with the midnight that begins the
/// date counted in seconds as `chrono::NaiveDateTime::and_utc` and
/// `chrono::DateTime::timestamp` count it. The result is a function of the
/// two texts alone.
#[verifier::external_body]
fn read_date(text: &str, pattern: &str) -> (secs: Option<i64>)
    ensures
        secs == date_reading(text@, pattern@),
{
    match chrono::NaiveDate::parse_from_str(text, pattern) {
        Ok(day) => Some(day.and_time(chrono::NaiveTime::MIN).and_utc().timestamp()),
        Err(_) => None,
    }
}

/// `chrono::TimeZone::from_local_datetime` on `chrono::Local`: the instant,
/// in seconds since the epoch, at which the local clock reads what a UTC
/// clock reads at `naive_secs`; `None` where the local clock reads it never
/// or twice. The answer depends on the machine's time zone, so nothing is
/// claimed of it.
#[verifier::external_body]
fn local_instant(naive_secs: i64) -> (secs: Option<i64>) {
    let naive = chrono::DateTime::from_timestamp(naive_secs, 0)?.naive_utc();
    match chrono::TimeZone::from_local_datetime(&chrono::Local, &naive) {
        chrono::LocalResult::Single(at) => Some(at.timestamp()),
        _ => None,
    }
}

/// Why a text gives no date.
#[derive(Debug, Clone, Copy, PartialEq, Eq, Structural)]
pub enum DateFault {
    /// The text fits none of the patterns.
    Unreadable,
    /// The local clock reads the date never or twice.
    Ambiguous,
}

/// The first of four readings that there is.
pub open spec fn first_reading(
    first: Option<i64>,
    second: Option<i64>,
    third: Option<i64>,
    fourth: Option<i64>,
) -> Option<i64> {
    if first is Some {
        first
    } else if second is Some {
        second
    } else if third is Some {
        third
    } else {
        fourth
    }
}

/// What `text` reads as: a date and a time of day, parted by dashes or by
/// slashes, or a date alone, which stands for its midnight.
pub open spec fn naive_reading(text: Seq<char>) -> Option<i64> {
    first_reading(
        date_time_reading(text, "%Y-%m-%d %H:%M:%S"@),
        date_time_reading(text, "%Y/%m/%d %H:%M:%S"@),
        date_reading(text, "%Y-%m-%d"@),
        date_reading(text, "%Y/%m/%d"@),
    )
}

/// The first of four readings that there is.
pub fn choose_reading(
    first: Option<i64>,
    second: Option<i64>,
    third: Option<i64>,
    fourth: Option<i64>,
) -> (reading: Option<i64>)
    ensures
        reading == first_reading(first, second, third, fourth),
{
    if first.is_some() {
        first
    } else if second.is_some() {
        second
    } else if third.is_some() {
        third
    } else {
        fourth
    }
}

/// What `text` reads as on a clock without a time zone.
pub fn parse_naive(text: &str) -> (reading: Option<i64>)
    ensures
        reading == naive_reading(text@),
{
    choose_reading(
        read_date_time(text, "%Y-%m-%d %H:%M:%S"),
        read_date_time(text, "%Y/%m/%d %H:%M:%S"),
        read_date(text, "%Y-%m-%d"),
        read_date(text, "%Y/%m/%d"),
    )
}

/// The instant that a reading stands for, given what the local clock makes
/// of it.
pub fn settle(reading: Option<i64>, local: Option<i64>) -> (instant: Result<i64, DateFault>)
    ensures
        instant == (match (reading, local) {
            (None, _) => Err::<i64, DateFault>(DateFault::Unreadable),
            (Some(_), None) => Err(DateFault::Ambiguous),
            (Some(_), Some(secs)) => Ok(secs),
        }),
{
    match (reading, local) {
        (None, _) => Err(DateFault::Unreadable),
        (Some(_), None) => Err(DateFault::Ambiguous),
        (Some(_), Some(secs)) => Ok(secs),
    }
}

/// The instant, in seconds since the epoch, that `text` names on the local
/// clock. A text that fits no pattern is unreadable; for one that fits, the
/// local clock decides between an instant and an ambiguity.
pub fn parse_to_local(text: &str) -> (instant: Result<i64, DateFault>)
    ensures
        naive_reading(text@) is None <==> instant == Err::<i64, DateFault>(DateFault::Unreadable),
{
    match parse_naive(text) {
        Some(naive) => settle(Some(naive), local_instant(naive)),
        None => Err(DateFault::Unreadable),
    }
}

} // verus!
