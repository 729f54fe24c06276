use todo_list::text::same_text;
use todo_list::time::{
    datetime_text, is_showable_timestamp, parse_period_part, period_can_be_counted, period_from_parts, start_time, StartTime, MAX_TIMESTAMP,
    MIN_TIMESTAMP,
};

#[test]
fn start_time_reads_answers() {
    assert_eq!(start_time("remove"), StartTime::Remove);
    assert_eq!(start_time("2024-05-01T09:30:00"), StartTime::Given);
    assert_eq!(start_time("now"), StartTime::Now);
    assert_eq!(start_time("2024-13-01T09:30:00"), StartTime::Now);
    assert_eq!(start_time("Remove"), StartTime::Now);
}

#[test]
fn datetime_text_pads_parts() {
    assert_eq!(datetime_text("2024", "5", "1", "9", "30"), "2024-05-01T09:30:00");
    assert_eq!(datetime_text("24", "12", "31", "23", "5"), "0024-12-31T23:05:00");
    assert_eq!(datetime_text("", "", "", "", ""), "0000-00-00T00:00:00");
    assert_eq!(datetime_text("12345", "123", "1", "1", "1"), "12345-123-01T01:01:00");
    assert_eq!(start_time(&datetime_text("2024", "5", "1", "9", "30")), StartTime::Given);
}

#[test]
fn period_counts_seconds() {
    assert_eq!(period_from_parts(1, 2, 3, 4), Some(86400 + 7200 + 180 + 4));
    assert_eq!(period_from_parts(0, 0, 0, 0), Some(0));
    assert_eq!(period_from_parts(-1, 0, 0, 0), None);
    assert_eq!(period_from_parts(0, 0, 0, -5), None);
    assert!(period_can_be_counted(1, 2, 3, 4));
    assert!(period_can_be_counted(-1, i64::MAX, 0, 0));
    assert!(!period_can_be_counted(i64::MAX / 86400 + 1, 0, 0, 0));
    assert!(period_can_be_counted(0, 0, 0, i64::MAX));
    assert!(!period_can_be_counted(0, 0, 1, i64::MAX));
}

#[test]
fn showable_timestamps_match_chrono_range() {
    assert!(is_showable_timestamp(0));
    assert!(is_showable_timestamp(MIN_TIMESTAMP));
    assert!(is_showable_timestamp(MAX_TIMESTAMP));
    assert!(!is_showable_timestamp(MIN_TIMESTAMP - 1));
    assert!(!is_showable_timestamp(MAX_TIMESTAMP + 1));
    assert!(!is_showable_timestamp(i64::MAX));
    assert!(!is_showable_timestamp(i64::MIN));
}

#[test]
fn same_text_compares_characters() {
    assert!(same_text("abc", "abc"));
    assert!(!same_text("abc", "abd"));
    assert!(!same_text("ab", "abc"));
    assert!(same_text("", ""));
}

#[test]
fn period_parts_default_to_zero() {
    assert_eq!(parse_period_part(""), Some(0));
    assert_eq!(parse_period_part("15"), Some(15));
    assert_eq!(parse_period_part("-2"), Some(-2));
    assert_eq!(parse_period_part(" "), None);
    assert_eq!(parse_period_part("1.5"), None);
}
