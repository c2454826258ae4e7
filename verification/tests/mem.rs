use statusline::mem::read_usage_percentage;
use statusline::mem::Mem;
use statusline::mem::MemError;
use statusline::num::parse_u64_with_io_error;

#[test]
fn usage_is_seventy_percent_and_warns() {
    let content = b"MemTotal: 1000 kB\nMemFree: 100 kB\nMemAvailable: 300 kB\n";
    assert_eq!(read_usage_percentage(content), Ok(70));
    let m = Mem::open_from_content(content, 0).unwrap();
    assert_eq!(m.percentage, 70);
    assert!(m.is_warning());
}

#[test]
fn warning_threshold_is_seventy() {
    let content = b"MemTotal: 100 kB\nMemAvailable: 31 kB\n";
    let m = Mem::open_from_content(content, 0).unwrap();
    assert_eq!(m.percentage, 69);
    assert!(!m.is_warning());
}

#[test]
fn field_order_does_not_matter() {
    let content = b"MemAvailable: 250 kB\nMemTotal: 1000 kB\n";
    assert_eq!(read_usage_percentage(content), Ok(75));
}

#[test]
fn eof_before_both_fields_fails() {
    assert_eq!(
        read_usage_percentage(b"MemTotal: 1000 kB\n"),
        Err(MemError::UnexpectedEof)
    );
    assert_eq!(read_usage_percentage(b""), Err(MemError::UnexpectedEof));
}

#[test]
fn blank_line_is_missing_key() {
    assert_eq!(
        read_usage_percentage(b"   \nMemTotal: 10 kB\n"),
        Err(MemError::MissingKey)
    );
}

#[test]
fn lone_key_is_missing_value() {
    assert_eq!(
        read_usage_percentage(b"MemTotal:\n"),
        Err(MemError::MissingValue)
    );
}

#[test]
fn non_numeric_field_fails() {
    assert_eq!(
        read_usage_percentage(b"MemTotal: lots kB\n"),
        Err(MemError::InvalidNumber)
    );
}

#[test]
fn impossible_quantities_fail() {
    assert_eq!(
        read_usage_percentage(b"MemTotal: 100 kB\nMemAvailable: 200 kB\n"),
        Err(MemError::InvalidTotals)
    );
    assert_eq!(
        read_usage_percentage(b"MemTotal: 0 kB\nMemAvailable: 0 kB\n"),
        Err(MemError::InvalidTotals)
    );
}

#[test]
fn scan_stops_once_both_fields_are_found() {
    let content = b"MemTotal: 1000 kB\nMemAvailable: 500 kB\nGarbage\n";
    assert_eq!(read_usage_percentage(content), Ok(50));
}

#[test]
fn refresh_with_unchanged_content_is_not_dirty_twice() {
    let a = b"MemTotal: 1000 kB\nMemAvailable: 400 kB\n";
    let b = b"MemTotal: 1000 kB\nMemAvailable: 300 kB\n";
    let mut m = Mem::open_from_content(a, 0).unwrap();
    assert!(m.refresh_from_content(b, 10));
    assert_eq!(m.percentage, 70);
    assert!(!m.refresh_from_content(b, 20));
    assert!(!m.refresh_from_content(b, 30));
}

#[test]
fn failed_refresh_keeps_last_figure() {
    let mut m = Mem::open_from_content(b"MemTotal: 10 kB\nMemAvailable: 5 kB\n", 0).unwrap();
    assert!(!m.refresh_from_content(b"broken", 100));
    assert_eq!(m.percentage, 50);
    assert_eq!(m.deadline_ms, 60_100);
    assert!(!m.refresh_failed(200));
    assert_eq!(m.percentage, 50);
    assert_eq!(m.deadline_ms, 60_200);
}

#[test]
fn refresh_sets_next_deadline() {
    let mut m = Mem::open_from_content(b"MemTotal: 10 kB\nMemAvailable: 5 kB\n", 5).unwrap();
    assert_eq!(m.deadline_ms, 60_005);
    assert_eq!(m.timeout_ms(), Some(60_005));
    m.refresh_from_content(b"MemTotal: 10 kB\nMemAvailable: 5 kB\n", u64::MAX);
    assert_eq!(m.deadline_ms, u64::MAX);
}

#[test]
fn parse_u64_accepts_plain_decimals() {
    assert_eq!(parse_u64_with_io_error("123"), Ok(123));
    assert_eq!(parse_u64_with_io_error("0"), Ok(0));
    assert_eq!(
        parse_u64_with_io_error("18446744073709551615"),
        Ok(u64::MAX)
    );
}

#[test]
fn parse_u64_rejects_bad_input() {
    assert!(parse_u64_with_io_error("").is_err());
    assert!(parse_u64_with_io_error("12a").is_err());
    assert!(parse_u64_with_io_error("-1").is_err());
    assert!(parse_u64_with_io_error("18446744073709551616").is_err());
    assert!(parse_u64_with_io_error("99999999999999999999999999").is_err());
}
