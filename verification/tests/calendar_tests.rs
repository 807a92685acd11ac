use csv_audit_tool::csv::session::{days_to_ymd, format_timestamp, is_leap, Session};
use csv_audit_tool::text::{decimal_string, push_zero_padded};

#[test]
fn leap_years_follow_the_gregorian_rule() {
    assert!(is_leap(2000));
    assert!(is_leap(2024));
    assert!(!is_leap(1900));
    assert!(!is_leap(2023));
    assert!(!is_leap(2100));
}

#[test]
fn day_zero_is_the_epoch() {
    assert_eq!(days_to_ymd(0), (1970, 1, 1));
}

#[test]
fn days_map_to_calendar_dates() {
    assert_eq!(days_to_ymd(31), (1970, 2, 1));
    assert_eq!(days_to_ymd(59), (1970, 3, 1));
    assert_eq!(days_to_ymd(364), (1970, 12, 31));
    assert_eq!(days_to_ymd(365), (1971, 1, 1));
    assert_eq!(days_to_ymd(1154), (1973, 2, 28));
    assert_eq!(days_to_ymd(11016), (2000, 2, 29));
    assert_eq!(days_to_ymd(20088), (2024, 12, 31));
    assert_eq!(days_to_ymd(20259), (2025, 6, 20));
    assert_eq!(days_to_ymd(47482), (2100, 1, 1));
}

#[test]
fn consecutive_days_give_distinct_dates() {
    let mut prev = days_to_ymd(0);
    for d in 1..3000u64 {
        let cur = days_to_ymd(d);
        assert!(cur > prev);
        prev = cur;
    }
}

#[test]
fn timestamps_are_formatted_with_padding() {
    assert_eq!(format_timestamp(0), "1970-01-01_00-00-00");
    assert_eq!(format_timestamp(1750429800), "2025-06-20_14-30-00");
    assert_eq!(format_timestamp(951868799), "2000-02-29_23-59-59");
    assert_eq!(format_timestamp(4102444800), "2100-01-01_00-00-00");
}

#[test]
fn timestamp_now_has_the_documented_shape() {
    let t = Session::timestamp_now();
    assert_eq!(t.len(), 19);
    let b = t.as_bytes();
    assert_eq!(b[4], b'-');
    assert_eq!(b[7], b'-');
    assert_eq!(b[10], b'_');
    assert_eq!(b[13], b'-');
    assert_eq!(b[16], b'-');
    assert!(t.as_str() >= "2020-01-01_00-00-00");
}

#[test]
fn decimal_strings_have_no_leading_zeros() {
    assert_eq!(decimal_string(0), "0");
    assert_eq!(decimal_string(7), "7");
    assert_eq!(decimal_string(12345), "12345");
    assert_eq!(decimal_string(u64::MAX), "18446744073709551615");
}

#[test]
fn zero_padding_reaches_the_width() {
    let mut s = String::from("x");
    push_zero_padded(&mut s, 5, 2);
    assert_eq!(s, "x05");
    let mut s = String::new();
    push_zero_padded(&mut s, 12345, 4);
    assert_eq!(s, "12345");
    let mut s = String::new();
    push_zero_padded(&mut s, 0, 4);
    assert_eq!(s, "0000");
}

#[test]
fn timestamps_of_different_seconds_differ() {
    let mut seen = std::collections::HashSet::new();
    for secs in (0..200_000u64).step_by(37) {
        assert!(seen.insert(format_timestamp(secs)));
    }
    assert_ne!(format_timestamp(86399), format_timestamp(86400));
}

#[test]
fn timestamps_sort_as_time() {
    let mut prev = format_timestamp(0);
    let mut secs = 0u64;
    while secs < 4_200_000_000 {
        secs += 86_399 * 7 + 13;
        let cur = format_timestamp(secs);
        assert!(prev < cur, "{} !< {}", prev, cur);
        prev = cur;
    }
}
