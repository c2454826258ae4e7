use statusline::clock::Clock;
use statusline::clock::ClockTime;

fn at(hour: u8, minute: u8, second: u8, nanosecond: u32) -> ClockTime {
    ClockTime {
        hour,
        minute,
        second,
        nanosecond,
    }
}

#[test]
fn wait_spans_rest_of_minute_plus_margin() {
    let t = at(12, 30, 30, 500_000_000);
    assert_eq!(Clock::time_until_next_minute(&t), 30_500);
}

#[test]
fn wait_is_shortest_just_before_the_boundary() {
    let t = at(23, 59, 59, 999_999_999);
    assert_eq!(Clock::time_until_next_minute(&t), 1000);
}

#[test]
fn wait_is_longest_at_the_boundary() {
    let t = at(0, 0, 0, 0);
    assert_eq!(Clock::time_until_next_minute(&t), 61_000);
}

#[test]
fn observe_is_dirty_only_when_display_changes() {
    let mut c = Clock {
        deadline_ms: 0,
        hour: 10,
        minute: 30,
    };
    assert!(!c.observe(&at(10, 30, 45, 0), 100));
    assert!(c.observe(&at(10, 31, 0, 0), 200));
    assert_eq!((c.hour, c.minute), (10, 31));
    assert!(c.observe(&at(11, 31, 0, 0), 300));
    assert_eq!((c.hour, c.minute), (11, 31));
}

#[test]
fn observing_the_same_reading_twice_is_clean_the_second_time() {
    let mut c = Clock {
        deadline_ms: 0,
        hour: 0,
        minute: 0,
    };
    let t = at(7, 15, 20, 123_456_789);
    let _ = c.observe(&t, 0);
    assert!(!c.observe(&t, 1000));
}

#[test]
fn observe_schedules_just_after_the_next_minute() {
    let mut c = Clock {
        deadline_ms: 0,
        hour: 0,
        minute: 0,
    };
    c.observe(&at(0, 0, 59, 0), 1_000_000);
    assert_eq!(c.deadline_ms, 1_002_000);
    assert_eq!(c.timeout_ms(), Some(1_002_000));
    c.observe(&at(0, 0, 0, 0), u64::MAX - 10);
    assert_eq!(c.deadline_ms, u64::MAX);
}

#[test]
fn new_clock_reads_a_real_time() {
    let c = Clock::new(0);
    assert!(c.hour < 24);
    assert!(c.minute < 60);
    assert!(1000 <= c.deadline_ms && c.deadline_ms <= 61_000);
}

#[test]
fn update_reschedules() {
    let mut c = Clock::new(0);
    let _ = c.update(10_000);
    assert!(11_000 <= c.deadline_ms && c.deadline_ms <= 71_000);
    assert!(c.hour < 24 && c.minute < 60);
}
