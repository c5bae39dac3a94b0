use zkbinfo::database::{select_ids_by_date, Store};
use zkbinfo::timestamp::{
    hour_of_text, is_timestamp_text, lookback_start, text_less, Day, HISTORY_DEPTH_DAYS, MAX_UTC_SECS,
    MIN_UTC_SECS,
};

#[test]
fn lookback_start_is_thirty_days_back() {
    // 2024-01-01T10:00:00Z
    let now = 1704103200;
    assert_eq!(lookback_start(now, HISTORY_DEPTH_DAYS), Some(String::from("2023-12-02T10:00:00Z")));
    assert_eq!(lookback_start(now, 0), Some(String::from("2024-01-01T10:00:00Z")));
    assert_eq!(lookback_start(i64::MIN, 1), None);
}

#[test]
fn timestamps_sort_as_text() {
    assert!(text_less("2023-11-30T23:59:59Z", "2023-12-01T00:00:00Z"));
    assert!(!text_less("2023-12-01T00:00:00Z", "2023-12-01T00:00:00Z"));
    assert!(text_less("2023-12-01", "2023-12-01T00:00:00Z"));
    assert!(!text_less("b", "a"));
}

#[test]
fn timestamp_shape_and_hour() {
    assert!(is_timestamp_text("2021-12-12T15:46:42Z"));
    assert!(is_timestamp_text("2021-12-12T15:46:42.123+00:00"));
    assert!(!is_timestamp_text("2021-12-12 15:46:42"));
    assert!(!is_timestamp_text("2021-00-12T15:46:42Z"));
    assert!(!is_timestamp_text("2021-12-12T15:46"));
    assert_eq!(hour_of_text("2021-12-12T15:46:42Z"), 15);
    assert_eq!(hour_of_text("2021-12-12T00:00:00Z"), 0);
}

#[test]
fn lookback_start_covers_chronos_whole_range() {
    assert!(lookback_start(MAX_UTC_SECS, 0).is_some());
    assert!(lookback_start(MIN_UTC_SECS, 0).is_some());
    assert!(lookback_start(MIN_UTC_SECS + 86400, 1).is_some());
    assert_eq!(lookback_start(MAX_UTC_SECS + 1, 0), None);
    assert_eq!(lookback_start(MIN_UTC_SECS - 1, 0), None);
}

#[test]
fn days_in_range_are_answered() {
    let store = Store::new();
    assert_eq!(select_ids_by_date(&store, &Day { start: MIN_UTC_SECS }).unwrap(), Vec::<i32>::new());
    let before_last = Day { start: MAX_UTC_SECS + 1 - 2 * 86400 };
    assert!(select_ids_by_date(&store, &before_last).is_ok());
    let last = Day { start: MAX_UTC_SECS + 1 - 86400 };
    assert!(select_ids_by_date(&store, &last).is_err());
}
