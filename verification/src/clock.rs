//! The system clock, read through `chrono`.

use vstd::prelude::*;

verus! {

/// `chrono::Utc::now`, turned into whole seconds since the Unix epoch by
/// `DateTime::timestamp`. Nothing is claimed of the value: it is whatever
/// the system clock says. `chrono` expects that clock to stand at or after
/// the epoch.
#[verifier::external_body]
pub(crate) fn unix_seconds() -> (seconds: i64) {
    chrono::Utc::now().timestamp()
}

/// `chrono::Local::now`, of which the month and the year in local time are
/// kept. `chrono` numbers the months from 1 to 12; nothing else is claimed.
#[verifier::external_body]
pub(crate) fn local_month() -> (today: (u32, i32))
    ensures
        1 <= today.0 <= 12,
{
    let now = chrono::Local::now();
    (chrono::Datelike::month(&now), chrono::Datelike::year(&now))
}

/// The pattern in which a time of writing is written out: year, month, day,
/// hour, minute and second.
pub const TIME_PATTERN: &'static str = "%Y-%m-%d %H:%M:%S";

/// What `chrono` writes for the moment that lies `seconds` after the Unix
/// epoch, in UTC and in the given pattern; nothing for a moment that its
/// calendar does not reach.
pub uninterp spec fn timestamp_text(seconds: i64, pattern: Seq<char>) -> Option<Seq<char>>;

/// `chrono::DateTime::from_timestamp` for whole seconds, written out by
/// `DateTime::format` in the given pattern. The result depends on the
/// number of seconds and the pattern alone: it is in UTC, and no locale
/// enters. `from_timestamp` gives nothing for a moment out of its range.
/// Writing out fails on a pattern that `chrono` does not know, so the one
/// pattern of the library is asked for.
#[verifier::external_body]
pub(crate) fn format_timestamp(seconds: i64, pattern: &str) -> (text: Option<String>)
    requires
        pattern@ == TIME_PATTERN@,
    ensures
        match text {
            Some(written) => timestamp_text(seconds, pattern@) == Some(written@),
            None => timestamp_text(seconds, pattern@) is None,
        },
{
    match chrono::DateTime::from_timestamp(seconds, 0) {
        Some(moment) => Some(moment.format(pattern).to_string()),
        None => None,
    }
}

} // verus!
