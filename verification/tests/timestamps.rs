//! Instants: reading, calendar fields, arithmetic and order.

use chrono::{DateTime, Datelike, Days, FixedOffset, Months, TimeDelta, Timelike};
use cel::common::types::timestamp::{timestamp, TimeField};
use cel::error::ExecutionError;
use cel::objects::{Duration, Timestamp, Value};
use std::cmp::Ordering;

fn read(s: &str) -> Timestamp {
    match timestamp(s) {
        Ok(Value::Timestamp(t)) => t,
        other => panic!("{:?}", other),
    }
}

fn field(s: &str, f: TimeField) -> i64 {
    match read(s).field(f) {
        Ok(Value::Int(i)) => i,
        other => panic!("{:?}", other),
    }
}

#[test]
fn an_instant_is_read() {
    let t = read("2023-05-28T01:02:03.456Z");
    assert_eq!(t.nanos, 1_685_235_723_456_000_000);
    assert_eq!(t.offset, 0);
    let u = read("2023-05-28T03:02:03.456+02:00");
    assert_eq!(u.nanos, t.nanos);
    assert_eq!(u.offset, 7200);
}

#[test]
fn a_text_that_is_no_instant_is_refused() {
    assert!(matches!(
        timestamp("yesterday"),
        Err(ExecutionError::FunctionError { .. })
    ));
}

#[test]
fn calendar_fields() {
    let s = "2024-03-01T23:59:58.789Z";
    assert_eq!(field(s, TimeField::FullYear), 2024);
    assert_eq!(field(s, TimeField::Month), 2);
    assert_eq!(field(s, TimeField::DayOfMonth), 0);
    assert_eq!(field(s, TimeField::Date), 1);
    assert_eq!(field(s, TimeField::DayOfWeek), 5);
    assert_eq!(field(s, TimeField::DayOfYear), 60);
    assert_eq!(field(s, TimeField::Hours), 23);
    assert_eq!(field(s, TimeField::Minutes), 59);
    assert_eq!(field(s, TimeField::Seconds), 58);
    assert_eq!(field(s, TimeField::Millis), 789);
}

#[test]
fn the_calendar_is_told_to_its_ends() {
    let first = DateTime::<chrono::Utc>::MIN_UTC.timestamp();
    let last = DateTime::<chrono::Utc>::MAX_UTC.timestamp();
    let mut untold = 0;
    for offset in [0, 3600, -3600, 86_399, -86_399] {
        for step in [0, 1, 3599, 3600, 86_399, 86_400, 31 * 86_400, 364 * 86_400, 366 * 86_400] {
            for secs in [first + step, last - step] {
                let t = Timestamp { nanos: secs as i128 * 1_000_000_000, offset, leap: false };
                let zone = FixedOffset::east_opt(offset).unwrap();
                let c = DateTime::from_timestamp(secs, 0).unwrap().with_timezone(&zone);
                let of = |f: TimeField| t.field(f);
                let told = |i: i64| Ok(Value::Int(i));
                assert_eq!(of(TimeField::FullYear), told(c.year() as i64));
                assert_eq!(of(TimeField::Month), told(c.month0() as i64));
                assert_eq!(of(TimeField::Date), told(c.day() as i64));
                assert_eq!(of(TimeField::DayOfMonth), told(c.day0() as i64));
                let weekday = c.weekday().num_days_from_sunday();
                assert_eq!(of(TimeField::DayOfWeek), told(weekday as i64));
                assert_eq!(of(TimeField::Hours), told(c.hour() as i64));
                assert_eq!(of(TimeField::Minutes), told(c.minute() as i64));
                assert_eq!(of(TimeField::Seconds), told(c.second() as i64));
                let start = c
                    .checked_sub_days(Days::new(c.day0() as u64))
                    .and_then(|d| d.checked_sub_months(Months::new(c.month0())));
                match start {
                    Some(s) => {
                        let days = c.signed_duration_since(s).num_days();
                        assert_eq!(of(TimeField::DayOfYear), told(days));
                        assert_eq!(days, c.ordinal0() as i64);
                    }
                    None => {
                        untold += 1;
                        assert!(of(TimeField::DayOfYear).is_err());
                    }
                }
            }
        }
    }
    assert!(untold > 0);
    let outside = Timestamp { nanos: (last as i128 + 1) * 1_000_000_000, offset: 0, leap: false };
    assert!(outside.field(TimeField::FullYear).is_err());
}

#[test]
fn calendar_fields_follow_the_offset() {
    let s = "2023-12-31T23:30:00-01:00";
    assert_eq!(field(s, TimeField::FullYear), 2023);
    assert_eq!(field(s, TimeField::Hours), 23);
    assert_eq!(field("2024-01-01T00:30:00Z", TimeField::FullYear), 2024);
    assert_eq!(read(s).nanos, read("2024-01-01T00:30:00Z").nanos);
    assert_eq!(field("1969-12-31T23:59:59.999Z", TimeField::Millis), 999);
    assert_eq!(field("1969-12-31T23:59:59.999Z", TimeField::FullYear), 1969);
}

#[test]
fn methods_and_fields_agree() {
    let t = read("2000-02-29T12:34:56Z");
    assert_eq!(t.full_year(), t.field(TimeField::FullYear));
    assert_eq!(t.month(), t.field(TimeField::Month));
    assert_eq!(t.date(), t.field(TimeField::Date));
    assert_eq!(t.day_of_month(), t.field(TimeField::DayOfMonth));
    assert_eq!(t.day_of_week(), t.field(TimeField::DayOfWeek));
    assert_eq!(t.day_of_year(), Ok(Value::Int(59)));
    assert_eq!(t.hours(), Ok(Value::Int(12)));
    assert_eq!(t.minutes(), Ok(Value::Int(34)));
    assert_eq!(t.seconds(), Ok(Value::Int(56)));
    assert_eq!(t.millis(), Ok(Value::Int(0)));
}

#[test]
fn moving_there_and_back_is_staying() {
    let t = read("2023-05-28T00:00:00Z");
    let day = Value::Duration(Duration { nanos: 86_400_000_000_000 });
    let later = match t.plus(&day) {
        Ok(Value::Timestamp(u)) => u,
        other => panic!("{:?}", other),
    };
    assert_eq!(later.nanos, read("2023-05-29T00:00:00Z").nanos);
    assert!(later.minus(&day) == Ok(Value::Timestamp(read("2023-05-28T00:00:00Z"))));
    assert_eq!(later.minus(&Value::Timestamp(t)), Ok(day));
}

#[test]
fn what_cannot_be_added() {
    let t = read("2023-05-28T00:00:00Z");
    assert!(matches!(
        t.plus(&Value::Int(1)),
        Err(ExecutionError::UnsupportedBinaryOperator("add", _, _))
    ));
    let far = Value::Duration(Duration { nanos: 9_000_000_000_000_000_000_000 });
    assert!(matches!(t.plus(&far), Err(ExecutionError::Overflow("add", _, _))));
    assert!(matches!(t.minus(&far), Err(ExecutionError::Overflow(_, _, _))));
}

#[test]
fn order_and_equality_go_by_the_instant() {
    let t = read("2023-05-28T00:00:00Z");
    let u = Value::Timestamp(read("2023-05-28T02:00:00+02:00"));
    assert_eq!(t.compare(&u), Ok(Ordering::Equal));
    assert!(t.equals(&u));
    assert_eq!(
        t.compare(&Value::Timestamp(read("2023-05-28T00:00:01Z"))),
        Ok(Ordering::Less)
    );
    assert!(t.compare(&Value::Null).is_err());
    assert!(!t.equals(&Value::Null));
    assert!(read("1970-01-01T00:00:00Z").is_zero_value());
    assert!(!t.is_zero_value());
}

#[test]
fn leap_seconds() {
    let s = "2016-12-31T23:59:60.250Z";
    let t = read(s);
    assert!(t.leap);
    assert_eq!(field(s, TimeField::FullYear), 2016);
    assert_eq!(field(s, TimeField::Minutes), 59);
    assert_eq!(field(s, TimeField::Seconds), 59);
    assert_eq!(field(s, TimeField::Millis), 1250);
    assert_eq!(field(s, TimeField::DayOfYear), 365);
    let before = read("2016-12-31T23:59:59.900Z");
    let after = read("2017-01-01T00:00:00Z");
    assert_eq!(t.compare(&Value::Timestamp(before)), Ok(std::cmp::Ordering::Greater));
    assert_eq!(t.compare(&Value::Timestamp(after)), Ok(std::cmp::Ordering::Less));
    assert!(!t.equals(&Value::Timestamp(after)));
    let lasting = |n: i128| Value::Duration(Duration { nanos: n });
    let half = 500_000_000;
    let moved = |u: &Timestamp, by: i128| u.plus(&lasting(by));
    assert_eq!(
        moved(&t, half),
        Ok(Value::Timestamp(read("2016-12-31T23:59:60.750Z")))
    );
    assert_eq!(moved(&t, 2 * half), Ok(Value::Timestamp(read("2017-01-01T00:00:00.250Z"))));
    assert_eq!(moved(&t, -half), Ok(Value::Timestamp(read("2016-12-31T23:59:59.750Z"))));
    assert_eq!(moved(&t, -2 * half), Ok(Value::Timestamp(read("2016-12-31T23:59:59.250Z"))));
    assert_eq!(t.minus(&lasting(half)), moved(&t, -half));
    assert_eq!(t.minus(&Value::Timestamp(before)), Ok(lasting(350_000_000)));
    assert_eq!(after.minus(&Value::Timestamp(t)), Ok(lasting(-250_000_000)));
    let noon = read("2016-12-31T12:00:00Z");
    assert_eq!(t.minus(&Value::Timestamp(noon)), Ok(lasting(43_200_250_000_000)));
    assert_eq!(noon.minus(&Value::Timestamp(t)), Ok(lasting(-43_200_250_000_000)));
}

#[test]
fn leap_seconds_move_as_the_calendar_has_it() {
    for (a, b) in [
        ("2016-12-31T23:59:60.25Z", "2017-01-01T00:00:00Z"),
        ("2016-12-31T23:59:60.25Z", "2016-12-30T23:59:59.5Z"),
        ("2015-06-30T23:59:60.5Z", "2016-12-31T23:59:60.25Z"),
        ("2015-06-30T23:59:60.5Z", "2016-07-02T13:59:58.25Z"),
        ("2024-02-29T10:00:00.5+02:00", "2015-06-30T23:59:60.5Z"),
    ] {
        let (x, y) = (DateTime::parse_from_rfc3339(a).unwrap(), DateTime::parse_from_rfc3339(b).unwrap());
        let d = x.signed_duration_since(y);
        let nanos = d.num_seconds() as i128 * 1_000_000_000 + d.subsec_nanos() as i128;
        assert_eq!(
            read(a).minus(&Value::Timestamp(read(b))),
            Ok(Value::Duration(Duration { nanos }))
        );
        for by in [0i64, 1, -1, 250_000_000, -250_000_001, 750_000_000, -1_000_000_000, 5_000_000_000, -86_400_000_000_000] {
            let want = x + TimeDelta::nanoseconds(by);
            let got = match read(a).plus(&Value::Duration(Duration { nanos: by as i128 })) {
                Ok(Value::Timestamp(t)) => t,
                other => panic!("{:?}", other),
            };
            let frac = want.timestamp_subsec_nanos() as i128;
            assert_eq!(got.leap, frac >= 1_000_000_000);
            let over = if got.leap { 1_000_000_000 } else { 0 };
            assert_eq!(got.nanos, want.timestamp() as i128 * 1_000_000_000 + frac - over);
        }
    }
}

#[test]
fn differences_reach_over_the_whole_calendar() {
    let first = DateTime::<chrono::Utc>::MIN_UTC;
    let last = DateTime::<chrono::Utc>::MAX_UTC;
    let at = |t: DateTime<chrono::Utc>| Timestamp {
        nanos: t.timestamp() as i128 * 1_000_000_000 + t.timestamp_subsec_nanos() as i128,
        offset: 0,
        leap: false,
    };
    let want = last.signed_duration_since(first);
    let nanos = want.num_seconds() as i128 * 1_000_000_000 + want.subsec_nanos() as i128;
    assert_eq!(
        at(last).minus(&Value::Timestamp(at(first))),
        Ok(Value::Duration(Duration { nanos }))
    );
    assert_eq!(
        at(first).minus(&Value::Timestamp(at(last))),
        Ok(Value::Duration(Duration { nanos: -nanos }))
    );
    let outside = Timestamp { nanos: at(last).nanos + 1, offset: 0, leap: false };
    assert!(matches!(
        outside.minus(&Value::Timestamp(at(first))),
        Err(ExecutionError::Overflow("sub", _, _))
    ));
}

#[test]
fn an_instant_outside_the_calendar_does_not_move() {
    let outside = Timestamp { nanos: 0, offset: 86_400, leap: false };
    let second = Value::Duration(Duration { nanos: 1_000_000_000 });
    assert!(matches!(outside.plus(&second), Err(ExecutionError::Overflow("add", _, _))));
    assert!(matches!(outside.minus(&second), Err(ExecutionError::Overflow("sub", _, _))));
    let long = Value::Duration(Duration { nanos: i64::MAX as i128 * 1_000_000 });
    assert!(matches!(
        read("2023-05-28T01:02:03Z").plus(&long),
        Err(ExecutionError::Overflow("add", _, _))
    ));
}

#[test]
fn a_leap_second_anywhere_in_a_minute_moves() {
    let t = Timestamp { nanos: 500_000_000, offset: 3600, leap: true };
    let by = |nanos: i128| Value::Duration(Duration { nanos });
    let plain = |nanos: i128| {
        Ok(Value::Timestamp(Timestamp { nanos, offset: 3600, leap: false }))
    };
    assert_eq!(t.plus(&by(500_000_000)), plain(1_000_000_000));
    assert_eq!(t.minus(&by(500_000_001)), plain(999_999_999));
    assert_eq!(
        t.plus(&by(1)),
        Ok(Value::Timestamp(Timestamp { nanos: 500_000_001, offset: 3600, leap: true }))
    );
}
