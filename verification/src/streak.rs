//! Streak bookkeeping: the stored fields echo their inputs, and the current
//! streak length is the elapsed-day count of the start date, zero when no
//! start date is set or the stored date cannot be read.

use vstd::prelude::*;
use crate::dates::date_string_ok;
use crate::dates::elapsed_days_of;

verus! {

/// The user's streak information.
pub struct StreakData {
    /// Start of the current streak as a date string, or nothing when no
    /// streak is active.
    pub start_date: Option<String>,
    /// The best streak in days.
    pub best_streak: u64,
    /// Total number of streak resets.
    pub total_resets: u64,
    /// Current streak length in days, derived from the start date.
    pub current_days: u64,
}

/// What the current streak length must be at instant `now`: the elapsed
/// days of the start date, or zero when there is none or it cannot be read.
pub open spec fn current_days_at(now: i64, start: Option<String>) -> int {
    match start {
        Some(s) => if date_string_ok(s@) {
            elapsed_days_of(now, s@)
        } else {
            0
        },
        None => 0,
    }
}

/// Builds the streak data as of instant `now`.
pub fn streak_data_at(now: i64, start: Option<String>, best: u64, resets: u64) -> (r: StreakData)
    ensures
        r.start_date == start,
        r.best_streak == best,
        r.total_resets == resets,
        r.current_days == current_days_at(now, start),
{
    let current_days: u64 = match &start {
        Some(s) => {
            match crate::dates::elapsed_days_at(now, s.as_str()) {
                Ok(n) => n,
                Err(_) => 0u64,
            }
        },
        None => 0u64,
    };
    StreakData { start_date: start, best_streak: best, total_resets: resets, current_days }
}

/// Reads the streak data: absent best and reset counts default to zero, and
/// the current streak length is computed from the start date against the
/// clock. Never fails.
pub fn get_streak_data(start: Option<String>, best: Option<u64>, resets: Option<u64>) -> (r:
    Result<StreakData, String>)
    ensures
        r matches Ok(v) && v.start_date == start,
        r matches Ok(v) ==> v.best_streak == (match best {
            Some(b) => b,
            None => 0u64,
        }),
        r matches Ok(v) ==> v.total_resets == (match resets {
            Some(c) => c,
            None => 0u64,
        }),
        r matches Ok(v) ==> exists|now: i64| v.current_days == #[trigger] current_days_at(
            now,
            start,
        ),
{
    let b: u64 = match best {
        Some(v) => v,
        None => 0u64,
    };
    let c: u64 = match resets {
        Some(v) => v,
        None => 0u64,
    };
    let now = crate::clock::now_utc_secs();
    let data = streak_data_at(now, start, b, c);
    proof {
        assert(data.current_days == current_days_at(now, data.start_date));
    }
    Ok(data)
}

/// Saves the streak data, returning it with the current streak length
/// recomputed from the start date against the clock. Never fails.
pub fn save_streak_data(start: Option<String>, best: u64, resets: u64) -> (r: Result<
    StreakData,
    String,
>)
    ensures
        r matches Ok(v) && v.start_date == start,
        r matches Ok(v) ==> v.best_streak == best,
        r matches Ok(v) ==> v.total_resets == resets,
        r matches Ok(v) ==> exists|now: i64| v.current_days == #[trigger] current_days_at(
            now,
            start,
        ),
{
    let now = crate::clock::now_utc_secs();
    let data = streak_data_at(now, start, best, resets);
    proof {
        assert(data.current_days == current_days_at(now, data.start_date));
    }
    Ok(data)
}

} // verus!
