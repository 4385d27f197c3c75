use kalshi_maker::rotation::{
    closing_time, rotation_due, should_rotate, should_rotate_at, UtcTime,
};

fn at(text: &str) -> UtcTime {
    closing_time(&Some(text.to_string())).unwrap()
}

#[test]
fn closing_time_is_read_in_utc() {
    assert_eq!(at("1970-01-01T00:00:10Z"), UtcTime { secs: 10, nanos: 0 });
    assert_eq!(at("2026-03-01T12:00:00.25+02:00"), UtcTime { secs: 1772359200, nanos: 250_000_000 });
    assert_eq!(at("2016-12-31T23:59:60Z"), UtcTime { secs: 1483228799, nanos: 1_000_000_000 });
}

#[test]
fn unreadable_closing_time_is_none() {
    assert_eq!(closing_time(&None), None);
    assert_eq!(closing_time(&Some("tomorrow".to_string())), None);
    assert_eq!(closing_time(&Some("2026-13-01T00:00:00Z".to_string())), None);
    assert_eq!(closing_time(&Some(String::new())), None);
}

#[test]
fn rotation_is_due_when_few_seconds_are_left() {
    assert!(!rotation_due(181, 180));
    assert!(rotation_due(180, 180));
    assert!(rotation_due(0, 180));
    assert!(rotation_due(-500, 180));
    assert!(rotation_due(-500, 0));
    assert!(!rotation_due(-500, -1));
}

#[test]
fn seconds_left_are_whole() {
    let close = Some(at("2026-03-01T12:00:00Z"));
    let now = |secs: i64, nanos: u32| UtcTime { secs: 1772366400 - secs, nanos };
    assert!(!should_rotate_at(&close, now(181, 0), 180));
    assert!(should_rotate_at(&close, now(181, 1), 180));
    assert!(should_rotate_at(&close, now(180, 0), 180));
    assert!(should_rotate_at(&close, now(-900, 5), 180));
    assert!(!should_rotate_at(&close, now(-900, 5), -1));
    assert!(!should_rotate_at(&None, now(0, 0), 180));
}

#[test]
fn leap_second_counts_as_time_left() {
    let close = Some(at("2016-12-31T23:59:60Z"));
    let now = UtcTime { secs: 1483228799, nanos: 0 };
    assert!(should_rotate_at(&close, now, 1));
    assert!(!should_rotate_at(&close, now, 0));
}

#[test]
fn leap_seconds_are_counted_as_chrono_counts_them() {
    let base = 1772366400i64 - 1772366400i64 % 86_400;
    let mut times: Vec<UtcTime> = Vec::new();
    for secs in [base + 59, base + 60, base + 119, base + 86_399, base + 86_400, base + 86_459, -1, 0] {
        times.push(UtcTime { secs, nanos: 0 });
        times.push(UtcTime { secs, nanos: 999_999_999 });
        if secs.rem_euclid(60) == 59 {
            times.push(UtcTime { secs, nanos: 1_000_000_000 });
            times.push(UtcTime { secs, nanos: 1_700_000_000 });
        }
    }
    let day = |t: UtcTime| t.secs.rem_euclid(86_400);
    for &close in &times {
        for &now in &times {
            let leap = if day(close) > day(now) && now.nanos >= 1_000_000_000 {
                1
            } else if day(close) < day(now) && close.nanos >= 1_000_000_000 {
                -1
            } else {
                0
            };
            let nanos = (close.secs - now.secs + leap) as i128 * 1_000_000_000 + close.nanos as i128
                - now.nanos as i128;
            let left = ((nanos / 1_000_000_000) as i64).max(0);
            assert!(should_rotate_at(&Some(close), now, left));
            assert!(!should_rotate_at(&Some(close), now, left - 1));
        }
    }
}

#[test]
fn clock_decides_now() {
    assert!(should_rotate(&Some(at("1999-01-01T00:00:00Z")), 180));
    assert!(!should_rotate(&Some(at("9999-01-01T00:00:00Z")), 180));
    assert!(!should_rotate(&None, 180));
}
