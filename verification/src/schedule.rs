//! Daily notification schedule arithmetic: the delay until the next
//! occurrence of a fixed local time of day, and the deterministic choice of
//! the day's quote.

use vstd::prelude::*;

verus! {

/// Seconds in one day.
pub const DAY_SECS: u64 = 86400;

/// Extra sleep after a notification fires, so clock jitter cannot re-fire
/// the notification within the same target minute.
pub const COOLDOWN_SECS: u64 = 61;

/// Default target time of day: 09:30 local.
pub const DEFAULT_HOUR: u32 = 9;

/// Default target minute.
pub const DEFAULT_MINUTE: u32 = 30;

/// Seconds from midnight to `h:m:s`.
pub open spec fn seconds_of_day(h: int, m: int, s: int) -> int {
    h * 3600 + m * 60 + s
}

/// Delay in seconds from the current time of day to the next occurrence of
/// the target time of day: later today if the target is still ahead, else
/// the same time tomorrow.
pub open spec fn sleep_secs(
    target_h: int,
    target_m: int,
    now_h: int,
    now_m: int,
    now_s: int,
) -> int {
    let now = seconds_of_day(now_h, now_m, now_s);
    let target = seconds_of_day(target_h, target_m, 0);
    if now < target {
        target - now
    } else {
        86400 - now + target
    }
}

/// Seconds to sleep until the target time of day next occurs, given the
/// current local time of day. A target outside the clock's range falls back
/// to the default 09:30.
pub fn sleep_duration_secs(
    target_hour: u32,
    target_minute: u32,
    now_hour: u32,
    now_minute: u32,
    now_second: u32,
) -> (r: u64)
    requires
        now_hour < 24,
        now_minute < 60,
        now_second < 60,
    ensures
        target_hour < 24 && target_minute < 60 ==> r == sleep_secs(
            target_hour as int,
            target_minute as int,
            now_hour as int,
            now_minute as int,
            now_second as int,
        ),
        !(target_hour < 24 && target_minute < 60) ==> r == sleep_secs(
            DEFAULT_HOUR as int,
            DEFAULT_MINUTE as int,
            now_hour as int,
            now_minute as int,
            now_second as int,
        ),
        1 <= r <= 86400,
{
    let (th, tm): (u32, u32) = if target_hour < 24 && target_minute < 60 {
        (target_hour, target_minute)
    } else {
        (DEFAULT_HOUR, DEFAULT_MINUTE)
    };
    let now: u64 = now_hour as u64 * 3600 + now_minute as u64 * 60 + now_second as u64;
    let target: u64 = th as u64 * 3600 + tm as u64 * 60;
    if now < target {
        target - now
    } else {
        86400 - now + target
    }
}

/// A valid local time of day.
pub open spec fn valid_hms(h: u32, m: u32, s: u32) -> bool {
    h < 24 && m < 60 && s < 60
}

/// Seconds to sleep until the next occurrence of the target time of day,
/// measured against the clock now. Whatever local time the clock returned,
/// the result is the delay from that time; a target outside the clock's
/// range falls back to the default 09:30.
pub fn calculate_sleep_duration(target_hour: u32, target_minute: u32) -> (r: u64)
    ensures
        1 <= r <= 86400,
        exists|h: u32, m: u32, s: u32|
            #[trigger] valid_hms(h, m, s) && r == (if target_hour < 24 && target_minute < 60 {
                sleep_secs(target_hour as int, target_minute as int, h as int, m as int, s as int)
            } else {
                sleep_secs(DEFAULT_HOUR as int, DEFAULT_MINUTE as int, h as int, m as int, s as int)
            }),
{
    let (h, m, s) = crate::clock::now_local_hms();
    let r = sleep_duration_secs(target_hour, target_minute, h, m, s);
    proof {
        assert(valid_hms(h, m, s));
    }
    r
}

/// The fixed ordered list of daily quotes.
pub open spec fn quote_list() -> Seq<Seq<char>> {
    seq![
        "Every day is a new beginning. Take a deep breath and start again."@,
        "You are stronger than you think. Keep going."@,
        "Progress, not perfection. One step at a time."@,
        "The best time to plant a tree was 20 years ago. The second best time is now."@,
        "Your future self will thank you for the choices you make today."@,
        "Discipline is choosing between what you want now and what you want most."@,
        "Small daily improvements are the key to staggering long-term results."@,
        "You don't have to be perfect. You just have to keep trying."@,
        "The only person you need to be better than is who you were yesterday."@,
        "Freedom is on the other side of discipline."@,
    ]
}

/// The number of quotes in the fixed list.
pub const QUOTE_COUNT: u64 = 10;

/// The quote index for a day: the zero-based day of the year modulo the
/// quote count. It depends on the day alone, never on the time of day.
pub fn quote_index(day_of_year: u64, count: u64) -> (r: u64)
    requires
        count > 0,
    ensures
        r == day_of_year % count,
{
    day_of_year % count
}

/// The quote for a day of the year: deterministic, the list entry at the
/// day's index modulo the list length.
pub fn pick_quote(day_of_year: u64) -> (r: String)
    ensures
        r@ == quote_list()[(day_of_year % QUOTE_COUNT) as int],
{
    let idx = quote_index(day_of_year, QUOTE_COUNT);
    let text: &str = if idx == 0 {
        "Every day is a new beginning. Take a deep breath and start again."
    } else if idx == 1 {
        "You are stronger than you think. Keep going."
    } else if idx == 2 {
        "Progress, not perfection. One step at a time."
    } else if idx == 3 {
        "The best time to plant a tree was 20 years ago. The second best time is now."
    } else if idx == 4 {
        "Your future self will thank you for the choices you make today."
    } else if idx == 5 {
        "Discipline is choosing between what you want now and what you want most."
    } else if idx == 6 {
        "Small daily improvements are the key to staggering long-term results."
    } else if idx == 7 {
        "You don't have to be perfect. You just have to keep trying."
    } else if idx == 8 {
        "The only person you need to be better than is who you were yesterday."
    } else {
        "Freedom is on the other side of discipline."
    };
    text.to_owned()
}

/// The quote belonging to a zero-based day of the year.
pub open spec fn quote_of_day(day: u32) -> Seq<char> {
    quote_list()[(day as int) % 10]
}

/// Today's quote, from the clock's local date: whatever day of the year the
/// clock returned, the result is that day's deterministic quote.
pub fn todays_quote() -> (r: String)
    ensures
        exists|day: u32| day < 366 && r@ == #[trigger] quote_of_day(day),
{
    let day = crate::clock::now_local_ordinal0();
    let r = pick_quote(day as u64);
    proof {
        assert(day < 366 && r@ == quote_of_day(day));
    }
    r
}

} // verus!
