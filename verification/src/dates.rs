//! Date bookkeeping: a strict `YYYY-MM-DD` parser, proleptic-Gregorian day
//! numbering, elapsed whole days between a start date and a given instant
//! (clamped at zero for future dates), and the lock-expiry computation.

use vstd::prelude::*;
use vstd::string::StrSliceExecFns;
use vstd::string::StringExecFns;
use crate::clock::rfc3339_epoch_of;
use crate::clock::rfc3339_utc_of;

verus! {

/// A leap year of the Gregorian calendar.
pub open spec fn is_leap_year(y: int) -> bool {
    y % 4 == 0 && (y % 100 != 0 || y % 400 == 0)
}

/// Days in a calendar year.
pub open spec fn days_in_year(y: int) -> int {
    if is_leap_year(y) {
        366
    } else {
        365
    }
}

/// Days from January 1 of year 0 to January 1 of year `y`.
pub open spec fn days_before_year(y: int) -> int
    decreases y,
{
    if y <= 0 {
        0
    } else {
        days_before_year(y - 1) + days_in_year(y - 1)
    }
}

/// Days in a calendar month; `m` runs from 1 to 12.
pub open spec fn days_in_month(y: int, m: int) -> int {
    if m == 2 {
        if is_leap_year(y) {
            29
        } else {
            28
        }
    } else if m == 4 || m == 6 || m == 9 || m == 11 {
        30
    } else {
        31
    }
}

/// Days from the first of January to the first of month `m` in year `y`.
pub open spec fn days_before_month(y: int, m: int) -> int
    decreases m,
{
    if m <= 1 {
        0
    } else {
        days_before_month(y, m - 1) + days_in_month(y, m - 1)
    }
}

/// Day index of a date in the proleptic Gregorian calendar; day 0 is
/// January 1 of year 0.
pub open spec fn day_number(y: int, m: int, d: int) -> int {
    days_before_year(y) + days_before_month(y, m) + d - 1
}

/// Day index of a date counted from the Unix epoch, January 1 of 1970.
pub open spec fn epoch_day_of(y: int, m: int, d: int) -> int {
    day_number(y, m, d) - day_number(1970, 1, 1)
}

/// A calendar-valid date with a four-digit year.
pub open spec fn valid_ymd(y: int, m: int, d: int) -> bool {
    0 <= y <= 9999 && 1 <= m <= 12 && 1 <= d <= days_in_month(y, m)
}

/// A decimal digit.
pub open spec fn is_digit(c: char) -> bool {
    48 <= c as u32 && c as u32 <= 57
}

/// The value of a decimal digit.
pub open spec fn digit_val(c: char) -> int {
    c as u32 - 48
}

/// The strict date shape: four digits, dash, two digits, dash, two digits.
pub open spec fn ymd_shape(s: Seq<char>) -> bool {
    s.len() == 10 && is_digit(s[0]) && is_digit(s[1]) && is_digit(s[2]) && is_digit(s[3]) && s[4]
        == '-' && is_digit(s[5]) && is_digit(s[6]) && s[7] == '-' && is_digit(s[8]) && is_digit(
        s[9],
    )
}

/// The year encoded in a date string of the strict shape.
pub open spec fn ymd_year(s: Seq<char>) -> int {
    digit_val(s[0]) * 1000 + digit_val(s[1]) * 100 + digit_val(s[2]) * 10 + digit_val(s[3])
}

/// The month encoded in a date string of the strict shape.
pub open spec fn ymd_month(s: Seq<char>) -> int {
    digit_val(s[5]) * 10 + digit_val(s[6])
}

/// The day encoded in a date string of the strict shape.
pub open spec fn ymd_day(s: Seq<char>) -> int {
    digit_val(s[8]) * 10 + digit_val(s[9])
}

/// A parseable date string: strict shape and a calendar-valid date.
pub open spec fn parse_ymd_ok(s: Seq<char>) -> bool {
    ymd_shape(s) && valid_ymd(ymd_year(s), ymd_month(s), ymd_day(s))
}

/// Whole days from an epoch second to a later epoch second, zero when the
/// start is not in the past.
pub open spec fn secs_elapsed_days(now: i64, start: i64) -> int {
    if now <= start {
        0
    } else {
        (now - start) / 86400
    }
}

/// Whole days from a date, given by its epoch day index, to the date of an
/// instant, zero when the date is not in the past. An instant before the
/// epoch counts as the epoch date itself.
pub open spec fn date_elapsed_days(now: i64, start_day: int) -> int {
    let today = if now <= 0 {
        0
    } else {
        now as int / 86400
    };
    if today <= start_day {
        0
    } else {
        today - start_day
    }
}

/// Elapsed whole days that a date string denotes at instant `now`: by the
/// timestamp when the string is RFC 3339, by the calendar date when it has
/// the strict date shape, and zero otherwise.
pub open spec fn elapsed_days_of(now: i64, s: Seq<char>) -> int {
    match rfc3339_epoch_of(s) {
        Some(t) => secs_elapsed_days(now, t),
        None => if parse_ymd_ok(s) {
            date_elapsed_days(now, epoch_day_of(ymd_year(s), ymd_month(s), ymd_day(s)))
        } else {
            0
        },
    }
}

/// A date string this module accepts: a valid RFC 3339 timestamp or a
/// calendar-valid strict date.
pub open spec fn date_string_ok(s: Seq<char>) -> bool {
    rfc3339_epoch_of(s) is Some || parse_ymd_ok(s)
}

/// The value of one decimal digit character.
fn digit(c: char) -> (r: Option<u32>)
    ensures
        r is Some <==> is_digit(c),
        r is Some ==> r->0 == digit_val(c),
{
    let u = c as u32;
    if 48 <= u && u <= 57 {
        Some(u - 48)
    } else {
        None
    }
}

/// Days in a calendar month.
fn days_in_month_exec(y: i64, m: i64) -> (r: i64)
    requires
        0 <= y,
        1 <= m <= 12,
    ensures
        r == days_in_month(y as int, m as int),
{
    if m == 2 {
        if y % 4 == 0 && (y % 100 != 0 || y % 400 == 0) {
            29
        } else {
            28
        }
    } else if m == 4 || m == 6 || m == 9 || m == 11 {
        30
    } else {
        31
    }
}

/// Parses a strict `YYYY-MM-DD` date string into a calendar-valid date.
pub fn parse_ymd(s: &str) -> (r: Option<(i64, i64, i64)>)
    ensures
        r is None <==> !parse_ymd_ok(s@),
        r matches Some(t) ==> t.0 == ymd_year(s@) && t.1 == ymd_month(s@) && t.2 == ymd_day(s@),
{
    if s.unicode_len() != 10 {
        return None;
    }
    let c4 = s.get_char(4);
    let c7 = s.get_char(7);
    if c4 != '-' || c7 != '-' {
        return None;
    }
    let d0 = digit(s.get_char(0));
    let d1 = digit(s.get_char(1));
    let d2 = digit(s.get_char(2));
    let d3 = digit(s.get_char(3));
    let d5 = digit(s.get_char(5));
    let d6 = digit(s.get_char(6));
    let d8 = digit(s.get_char(8));
    let d9 = digit(s.get_char(9));
    match (d0, d1, d2, d3, d5, d6, d8, d9) {
        (
            Some(v0),
            Some(v1),
            Some(v2),
            Some(v3),
            Some(v5),
            Some(v6),
            Some(v8),
            Some(v9),
        ) => {
            let y: i64 = v0 as i64 * 1000 + v1 as i64 * 100 + v2 as i64 * 10 + v3 as i64;
            let m: i64 = v5 as i64 * 10 + v6 as i64;
            let d: i64 = v8 as i64 * 10 + v9 as i64;
            if m < 1 || m > 12 {
                return None;
            }
            if d < 1 || d > days_in_month_exec(y, m) {
                return None;
            }
            Some((y, m, d))
        },
        _ => None,
    }
}

/// The day index of a valid date, counted from January 1 of year 0.
fn day_number_exec(y: i64, m: i64, d: i64) -> (r: i64)
    requires
        valid_ymd(y as int, m as int, d as int),
    ensures
        r == day_number(y as int, m as int, d as int),
        0 <= r <= 3700000,
{
    let mut acc: i64 = 0;
    let mut yy: i64 = 0;
    while yy < y
        invariant
            0 <= yy <= y <= 9999,
            acc == days_before_year(yy as int),
            0 <= acc <= 366 * yy,
        decreases y - yy,
    {
        if yy % 4 == 0 && (yy % 100 != 0 || yy % 400 == 0) {
            acc = acc + 366;
        } else {
            acc = acc + 365;
        }
        yy = yy + 1;
    }
    let mut mm: i64 = 1;
    let mut macc: i64 = 0;
    while mm < m
        invariant
            1 <= mm <= m <= 12,
            0 <= y <= 9999,
            macc == days_before_month(y as int, mm as int),
            0 <= macc <= 31 * mm,
        decreases m - mm,
    {
        macc = macc + days_in_month_exec(y, mm);
        mm = mm + 1;
    }
    acc + macc + d - 1
}

/// Elapsed whole days denoted by a date string at instant `now_secs`:
/// succeeds exactly on RFC 3339 timestamps and strict calendar dates, and
/// clamps dates in the future to zero.
pub fn elapsed_days_at(now_secs: i64, date_str: &str) -> (r: Result<u64, String>)
    ensures
        r is Ok <==> date_string_ok(date_str@),
        r matches Ok(n) ==> n == elapsed_days_of(now_secs, date_str@),
{
    match crate::clock::parse_rfc3339_epoch(date_str) {
        Some(t) => {
            if now_secs <= t {
                Ok(0u64)
            } else {
                let diff: i128 = now_secs as i128 - t as i128;
                let days: i128 = diff / 86400;
                proof {
                    assert(days < 0x8000_0000_0000_0000i128) by (nonlinear_arith)
                        requires
                            0 < diff < 0x2_0000_0000_0000_0000i128,
                            days == diff / 86400,
                    ;
                    assert(days >= 0);
                }
                Ok(days as u64)
            }
        },
        None => {
            match parse_ymd(date_str) {
                Some((y, m, d)) => {
                    let today: i64 = if now_secs <= 0 {
                        0
                    } else {
                        now_secs / 86400
                    };
                    let start_day: i64 = day_number_exec(y, m, d) - day_number_exec(1970, 1, 1);
                    if today <= start_day {
                        Ok(0u64)
                    } else {
                        proof {
                            assert(today >= 0);
                        }
                        Ok((today - start_day) as u64)
                    }
                },
                None => {
                    let mut msg = "Could not parse date: ".to_owned();
                    msg.append(date_str);
                    Err(msg)
                },
            }
        },
    }
}

/// Elapsed whole days since a date string, measured against the clock now.
/// Whatever the clock returned, the result is the elapsed-day count at that
/// instant, and parsing succeeds independently of it.
pub fn compute_days_since(date_str: &str) -> (r: Result<u64, String>)
    ensures
        r is Ok <==> date_string_ok(date_str@),
        r matches Ok(n) ==> exists|now: i64| n == elapsed_days_of(now, date_str@),
{
    let now = crate::clock::now_utc_secs();
    let r = elapsed_days_at(now, date_str);
    proof {
        if r is Ok {
            assert(r->Ok_0 == elapsed_days_of(now, date_str@));
        }
    }
    r
}

/// The last epoch second this module will format: the end of year 9999.
pub open spec fn max_expiry_secs() -> int {
    253402300799
}

/// An expiry window that stays inside the formattable range.
pub open spec fn expiry_in_range(now: int, hours: int) -> bool {
    0 <= now && now + hours * 3600 <= max_expiry_secs()
}

/// The epoch second `hours` hours after `now`, when that stays inside the
/// formattable range.
pub fn lock_expiry_secs(now: i64, hours: u64) -> (r: Option<i64>)
    ensures
        r is Some <==> expiry_in_range(now as int, hours as int),
        r matches Some(e) ==> e == now + hours * 3600,
{
    if now < 0 || now > 253402300799i64 {
        return None;
    }
    let cap: i64 = 253402300799i64 - now;
    let maxh: i64 = cap / 3600;
    if hours > maxh as u64 {
        proof {
            assert(!(now + hours * 3600 <= max_expiry_secs())) by (nonlinear_arith)
                requires
                    hours > maxh,
                    maxh == cap / 3600,
                    cap == max_expiry_secs() - now,
                    0 <= now <= max_expiry_secs(),
            ;
        }
        None
    } else {
        proof {
            assert(hours * 3600 <= cap) by (nonlinear_arith)
                requires
                    hours <= maxh,
                    0 <= hours,
                    maxh == cap / 3600,
                    0 <= cap,
            ;
        }
        let add: i64 = (hours as i64) * 3600;
        Some(now + add)
    }
}

/// Extends the lock by the given number of hours from the clock now and
/// returns the new expiry as an RFC 3339 timestamp. Fails only when the
/// clock reading puts the expiry outside the formattable range.
pub fn extend_lock(hours: u64) -> (r: Result<String, String>)
    ensures
        r matches Ok(s) ==> exists|now: i64|
            #[trigger] expiry_in_range(now as int, hours as int) && s@ == rfc3339_utc_of(
                (now + hours * 3600) as i64,
            ),
{
    let now = crate::clock::now_utc_secs();
    match lock_expiry_secs(now, hours) {
        Some(e) => {
            let s = crate::clock::format_rfc3339_utc(e);
            proof {
                assert(expiry_in_range(now as int, hours as int) && s@ == rfc3339_utc_of(
                    (now + hours * 3600) as i64,
                ));
            }
            Ok(s)
        },
        None => Err("Lock expiry out of range".to_owned()),
    }
}

} // verus!
