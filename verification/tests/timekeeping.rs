use tamashii::dates::compute_days_since;
use tamashii::dates::elapsed_days_at;
use tamashii::dates::extend_lock;
use tamashii::dates::lock_expiry_secs;
use tamashii::dates::parse_ymd;
use tamashii::schedule::pick_quote;
use tamashii::schedule::quote_index;
use tamashii::schedule::sleep_duration_secs;
use tamashii::streak::get_streak_data;
use tamashii::streak::save_streak_data;
use tamashii::streak::streak_data_at;

/// 2024-01-10T00:00:00Z as an epoch second.
const NOW_2024_01_10: i64 = 1704844800;

#[test]
fn sleep_before_target_is_the_difference() {
    assert_eq!(sleep_duration_secs(9, 30, 8, 0, 0), 5400);
}

#[test]
fn sleep_after_target_rolls_to_tomorrow() {
    let r = sleep_duration_secs(9, 30, 10, 0, 0);
    assert_eq!(r, 84600);
    assert!(r > 0);
}

#[test]
fn sleep_at_target_waits_a_full_day() {
    assert_eq!(sleep_duration_secs(9, 30, 9, 30, 0), 86400);
}

#[test]
fn sleep_invalid_target_falls_back_to_default() {
    assert_eq!(sleep_duration_secs(24, 99, 8, 0, 0), 5400);
}

#[test]
fn elapsed_days_date_only() {
    assert_eq!(elapsed_days_at(NOW_2024_01_10, "2024-01-01"), Ok(9));
}

#[test]
fn elapsed_days_future_is_clamped() {
    assert_eq!(elapsed_days_at(NOW_2024_01_10, "2030-06-15"), Ok(0));
}

#[test]
fn elapsed_days_rfc3339() {
    assert_eq!(elapsed_days_at(NOW_2024_01_10, "2024-01-01T00:00:00Z"), Ok(9));
    assert_eq!(elapsed_days_at(NOW_2024_01_10, "2024-01-01T12:00:00+00:00"), Ok(8));
}

#[test]
fn elapsed_days_rejects_garbage() {
    let r = elapsed_days_at(NOW_2024_01_10, "not a date");
    assert!(r.is_err());
    assert!(r.unwrap_err().contains("not a date"));
}

#[test]
fn elapsed_days_rejects_invalid_calendar_dates() {
    assert!(elapsed_days_at(NOW_2024_01_10, "2023-02-29").is_err());
    assert!(elapsed_days_at(NOW_2024_01_10, "2024-13-01").is_err());
    assert!(elapsed_days_at(NOW_2024_01_10, "2024-1-1").is_err());
}

#[test]
fn leap_day_is_accepted() {
    assert_eq!(parse_ymd("2024-02-29"), Some((2024, 2, 29)));
    assert_eq!(parse_ymd("2023-02-29"), None);
}

#[test]
fn elapsed_days_across_leap_day() {
    // 2024-03-01T00:00:00Z; 2024 is a leap year.
    let now = 1709251200;
    assert_eq!(elapsed_days_at(now, "2024-02-28"), Ok(2));
}

#[test]
fn compute_days_since_uses_the_clock() {
    let r = compute_days_since("1970-01-02").unwrap();
    assert!(r > 19000);
    assert!(compute_days_since("junk").is_err());
}

#[test]
fn lock_expiry_adds_hours() {
    assert_eq!(lock_expiry_secs(1000, 2), Some(8200));
    assert_eq!(lock_expiry_secs(-5, 1), None);
    assert_eq!(lock_expiry_secs(253402300799, 1), None);
}

#[test]
fn extend_lock_returns_a_timestamp_in_the_future() {
    let s = extend_lock(2).unwrap();
    let parsed = chrono::DateTime::parse_from_rfc3339(&s).unwrap();
    let now = chrono::Utc::now().timestamp();
    let diff = parsed.timestamp() - now;
    assert!(diff > 7100 && diff < 7300);
}

#[test]
fn quote_selection_is_day_mod_count() {
    assert_eq!(quote_index(367, 10), 7);
    assert_eq!(quote_index(0, 10), 0);
    assert_eq!(
        pick_quote(3),
        "The best time to plant a tree was 20 years ago. The second best time is now."
    );
    assert_eq!(pick_quote(10), pick_quote(0));
    assert_eq!(pick_quote(9), "Freedom is on the other side of discipline.");
}

#[test]
fn streak_data_counts_from_start_date() {
    let d = streak_data_at(NOW_2024_01_10, Some("2024-01-01".to_string()), 12, 3);
    assert_eq!(d.start_date, Some("2024-01-01".to_string()));
    assert_eq!(d.best_streak, 12);
    assert_eq!(d.total_resets, 3);
    assert_eq!(d.current_days, 9);
}

#[test]
fn streak_data_without_start_is_zero() {
    let d = streak_data_at(NOW_2024_01_10, None, 5, 1);
    assert_eq!(d.current_days, 0);
    let d2 = streak_data_at(NOW_2024_01_10, Some("bogus".to_string()), 5, 1);
    assert_eq!(d2.current_days, 0);
}

#[test]
fn get_streak_data_defaults_missing_counts() {
    let d = get_streak_data(None, None, None).unwrap();
    assert_eq!(d.best_streak, 0);
    assert_eq!(d.total_resets, 0);
    assert_eq!(d.current_days, 0);
    assert_eq!(d.start_date, None);
}

#[test]
fn save_streak_data_echoes_fields() {
    let d = save_streak_data(Some("1970-01-01".to_string()), 7, 2).unwrap();
    assert_eq!(d.best_streak, 7);
    assert_eq!(d.total_resets, 2);
    assert!(d.current_days > 19000);
}
