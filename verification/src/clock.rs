//! Trusted boundary to the system clock and calendar. Every function here
//! wraps one chrono call; all date arithmetic on the values they return is
//! done by verified code elsewhere in the crate.

use vstd::prelude::*;

verus! {

/// Relies on chrono::Local::now and the Timelike accessors: the hour is 0 to
/// 23, the minute and second 0 to 59.
#[verifier::external_body]
pub(crate) fn now_local_hms() -> (r: (u32, u32, u32))
    ensures
        r.0 < 24,
        r.1 < 60,
        r.2 < 60,
{
    let t = chrono::Local::now().time();
    (
        chrono::Timelike::hour(&t),
        chrono::Timelike::minute(&t),
        chrono::Timelike::second(&t),
    )
}

/// Relies on chrono::Datelike::ordinal0 on the current local date: the
/// zero-based day of the year, 0 to 365.
#[verifier::external_body]
pub(crate) fn now_local_ordinal0() -> (r: u32)
    ensures
        r < 366,
{
    chrono::Datelike::ordinal0(&chrono::Local::now())
}

/// Relies on chrono::Utc::now and DateTime::timestamp: the current whole
/// second since the Unix epoch. Nothing is promised of a clock reading.
#[verifier::external_body]
pub(crate) fn now_utc_secs() -> (r: i64) {
    chrono::Utc::now().timestamp()
}

/// Whether a string is a valid RFC 3339 timestamp and, if so, its epoch
/// second: a function of the characters alone.
pub uninterp spec fn rfc3339_epoch_of(s: Seq<char>) -> Option<i64>;

/// Relies on chrono::DateTime::parse_from_rfc3339 and DateTime::timestamp:
/// the parse accepts or rejects, and the epoch second of an accepted
/// timestamp, depend only on the input string.
#[verifier::external_body]
pub(crate) fn parse_rfc3339_epoch(s: &str) -> (r: Option<i64>)
    ensures
        r == rfc3339_epoch_of(s@),
{
    match chrono::DateTime::parse_from_rfc3339(s) {
        Ok(dt) => Some(dt.timestamp()),
        Err(_) => None,
    }
}

/// The RFC 3339 rendering of an epoch second in UTC: a function of that
/// second alone.
pub uninterp spec fn rfc3339_utc_of(secs: i64) -> Seq<char>;

/// Relies on chrono::DateTime::from_timestamp and DateTime::to_rfc3339.
/// from_timestamp yields a value for any second between the epoch and the
/// end of year 9999, far inside its documented range; the rendering of that
/// value depends on the second alone.
#[verifier::external_body]
pub(crate) fn format_rfc3339_utc(secs: i64) -> (r: String)
    requires
        0 <= secs <= 253402300799,
    ensures
        r@ == rfc3339_utc_of(secs),
{
    match chrono::DateTime::<chrono::Utc>::from_timestamp(secs, 0) {
        Some(dt) => dt.to_rfc3339(),
        None => String::new(),
    }
}

} // verus!
