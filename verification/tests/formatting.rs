use tuitop::processes::{column_at, COLUMN_COUNT};
use tuitop::time_utils::{format_time, seconds_to_days};

#[test]
fn seconds_split_exactly() {
    assert_eq!(seconds_to_days(0), (0, 0, 0, 0));
    assert_eq!(seconds_to_days(59), (0, 0, 0, 59));
    assert_eq!(seconds_to_days(60), (0, 0, 1, 0));
    assert_eq!(seconds_to_days(3600), (0, 1, 0, 0));
    assert_eq!(seconds_to_days(86399), (0, 23, 59, 59));
    assert_eq!(seconds_to_days(86400), (1, 0, 0, 0));
    assert_eq!(seconds_to_days(90061), (1, 1, 1, 1));
}

#[test]
fn format_time_zero() {
    assert_eq!(format_time(0), "0 days, 00:00:00");
}

#[test]
fn format_time_singular_day() {
    assert_eq!(format_time(90061), "1 day, 01:01:01");
}

#[test]
fn format_time_plural_days() {
    let seconds = 2 * 86400 + 3 * 3600 + 25 * 60 + 9;
    assert_eq!(format_time(seconds), "2 days, 03:25:09");
}

#[test]
fn format_time_wide_fields() {
    let seconds = 12 * 86400 + 23 * 3600 + 59 * 60 + 59;
    assert_eq!(format_time(seconds), "12 days, 23:59:59");
}

#[test]
fn format_time_three_digit_days() {
    assert_eq!(format_time(100 * 86400), "100 days, 00:00:00");
}

#[test]
fn fixed_columns() {
    assert_eq!(COLUMN_COUNT, 4);
    assert_eq!(column_at(0).id, "pid");
    assert_eq!(column_at(0).title, "PID");
    assert_eq!(column_at(1).id, "name");
    assert_eq!(column_at(1).title, "NAME");
    assert_eq!(column_at(2).id, "cpu");
    assert_eq!(column_at(2).title, "CPU%");
    assert_eq!(column_at(3).id, "mem");
    assert_eq!(column_at(3).title, "MEM");
}
