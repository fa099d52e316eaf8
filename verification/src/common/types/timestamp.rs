//! Instants: arithmetic, order, the calendar, and the functions of the language on them.
//!
//! An instant is told in a place with a fixed offset from UTC. Its date and time there, where
//! a duration leads from it, and the duration from one instant to another are computed by the
//! `chrono` crate.

use crate::error;
use crate::error::{ExecutionError, Fault, Outcome};
use crate::objects::{Duration, Timestamp, Val, Value};
use crate::ops::Order;
use chrono::{Datelike, Timelike};
use std::cmp::Ordering;
use vstd::prelude::*;
use vstd::string::*;

verus! {

/// Nanoseconds in a second.
pub const SECOND: i128 = 1_000_000_000;

/// Nanoseconds in a day.
pub const DAY: i128 = 86_400_000_000_000;

/// The last instant of the language, `9999-12-31T23:59:59.999999999Z`.
pub const MAX_TIMESTAMP: i128 = 253_402_300_799_999_999_999;

/// The first instant of the language, `0001-01-01T00:00:00Z`.
pub const MIN_TIMESTAMP: i128 = -62_135_596_800_000_000_000;

/// The second of the last instant.
pub const LAST_SECOND: i128 = 253_402_300_799;

/// The longest duration, `i64::MAX` milliseconds; the shortest is its negative.
pub const MAX_DURATION: i128 = 9_223_372_036_854_775_807_000_000;

/// The first second of the calendar: the start of the year -262143 in UTC.
pub const CALENDAR_MIN: i64 = -8_334_601_228_800;

/// The last second of the calendar: the end of the year 262142 in UTC.
pub const CALENDAR_MAX: i64 = 8_210_266_876_799;

/// An instant is inside the range of the language.
pub open spec fn instant_in_range(nanos: int) -> bool {
    MIN_TIMESTAMP <= nanos <= MAX_TIMESTAMP
}

/// A duration is inside the range of durations.
pub open spec fn duration_in_range(nanos: int) -> bool {
    -MAX_DURATION <= nanos <= MAX_DURATION
}

/// An instant that is no leap second.
pub open spec fn plain(nanos: int, offset: i32) -> Timestamp {
    Timestamp { nanos: nanos as i128, offset, leap: false }
}

/// The nanoseconds of an instant in its second.
pub open spec fn in_second(t: Timestamp) -> int {
    t.nanos as int % 1_000_000_000
}

/// Where a number of nanoseconds leads from an instant. From inside a leap second it can
/// stay there; what lies before is counted from the end of the second before, what lies
/// behind from its start.
pub open spec fn reached(t: Timestamp, by: int) -> (int, bool) {
    if t.leap && in_second(t) + by < 0 {
        (t.nanos + 1_000_000_000 + by, false)
    } else {
        (t.nanos + by, t.leap && in_second(t) + by < 1_000_000_000)
    }
}

/// An instant is inside the range of the language, whose last second is followed by no leap
/// second.
pub open spec fn in_language(nanos: int, leap: bool) -> bool {
    instant_in_range(nanos) && !(leap && nanos / 1_000_000_000 >= LAST_SECOND)
}

/// An instant that the calendar has; it ends with its last second.
pub open spec fn dated(t: Timestamp) -> bool {
    in_calendar(t) && !(t.leap && utc_second(t) == CALENDAR_MAX)
}

/// An instant moved by a duration, in nanoseconds: in the same place, if it stays in range.
pub open spec fn moved(t: Timestamp, by: int) -> Option<Timestamp> {
    let (n, leap) = reached(t, by);
    if dated(t) && duration_in_range(by) && in_language(n, leap) {
        Some(Timestamp { nanos: n as i128, offset: t.offset, leap })
    } else {
        None
    }
}

/// The nanoseconds from one instant to another. A leap second counts where it lies between
/// their times of day.
pub open spec fn difference(t: Timestamp, u: Timestamp) -> int {
    let a = utc_second(t) % 86_400;
    let b = utc_second(u) % 86_400;
    t.nanos - u.nanos + (if t.leap {
        1_000_000_000int
    } else {
        0
    }) - (if u.leap {
        1_000_000_000int
    } else {
        0
    }) + (if a > b && u.leap {
        1_000_000_000int
    } else if a < b && t.leap {
        -1_000_000_000int
    } else {
        0
    })
}

/// The duration from one instant to another.
pub open spec fn between(t: Timestamp, u: Timestamp) -> Option<Duration> {
    if dated(t) && dated(u) {
        Some(Duration { nanos: difference(t, u) as i128 })
    } else {
        None
    }
}

/// Which of two instants comes first: a leap second comes after the second before it.
pub open spec fn instant_order(t: Timestamp, u: Timestamp) -> Order {
    let a = utc_second(t);
    let b = utc_second(u);
    if a < b || (a == b && (t.leap == u.leap && t.nanos < u.nanos || !t.leap && u.leap)) {
        Order::Before
    } else if t.nanos == u.nanos && t.leap == u.leap {
        Order::Same
    } else {
        Order::After
    }
}

/// A duration of a number of nanoseconds, if it is in range.
pub open spec fn duration_of(nanos: int) -> Option<Duration> {
    if duration_in_range(nanos) {
        Some(Duration { nanos: nanos as i128 })
    } else {
        None
    }
}

/// The second that a number of nanoseconds lies in, and the nanoseconds in it.
fn second_of(nanos: i128) -> (r: (i128, i128))
    ensures
        r.0 == nanos as int / 1_000_000_000,
        r.1 == nanos as int % 1_000_000_000,
{
    match (nanos.checked_div_euclid(SECOND), nanos.checked_rem_euclid(SECOND)) {
        (Some(q), Some(m)) => (q, m),
        _ => {
            assert(false);
            (0, 0)
        },
    }
}

/// A second and the nanoseconds in it, which go on in a leap second, that the calendar of a
/// place has.
pub open spec fn dated_second(secs: int, nanos: int, offset: int) -> bool {
    &&& calendar_second(secs, 0, offset)
    &&& 0 <= nanos < 2_000_000_000
    &&& nanos >= 1_000_000_000 ==> secs < CALENDAR_MAX
}

/// The instant of a second and nanoseconds in a place. Nanoseconds beyond a second tell a
/// leap second.
pub open spec fn instant_at(secs: i64, nanos: u32, offset: i32) -> Timestamp {
    if nanos >= 1_000_000_000 {
        Timestamp {
            nanos: (secs * 1_000_000_000 + nanos - 1_000_000_000) as i128,
            offset,
            leap: true,
        }
    } else {
        plain(secs * 1_000_000_000 + nanos, offset)
    }
}

/// The second of an instant and the nanoseconds in it, which go on in a leap second, if the
/// calendar has it.
pub open spec fn second_in_calendar(nanos: int, leap: bool) -> Option<(i64, u32)> {
    let second = nanos / 1_000_000_000;
    let rest = nanos % 1_000_000_000;
    if CALENDAR_MIN <= second <= CALENDAR_MAX {
        Some(
            (
                second as i64,
                (if leap {
                    rest + 1_000_000_000
                } else {
                    rest
                }) as u32,
            ),
        )
    } else {
        None
    }
}

/// The length of whole seconds and nanoseconds.
pub open spec fn length(secs: int, nanos: int) -> int {
    secs * 1_000_000_000 + nanos
}

/// Moves an instant: `chrono::DateTime::checked_add_signed`, on which the sum of an instant and
/// a duration rests. Claimed: it leads where [`reached`] says, leap seconds included, and gives
/// nothing where the calendar ends.
#[verifier::external_body]
fn chrono_add(secs: i64, nanos: u32, offset: i32, by_secs: i64, by_nanos: u32) -> (r: Option<
    (i64, u32),
>)
    requires
        dated_second(secs as int, nanos as int, offset as int),
        by_nanos < 1_000_000_000,
        duration_in_range(length(by_secs as int, by_nanos as int)),
    ensures
        ({
            let t = instant_at(secs, nanos, offset);
            let (n, leap) = reached(t, length(by_secs as int, by_nanos as int));
            r == second_in_calendar(n, leap)
        }),
{
    let zone = chrono::FixedOffset::east_opt(offset).unwrap();
    let start = chrono::DateTime::from_timestamp(secs, 0).unwrap().with_nanosecond(nanos).unwrap();
    let by = chrono::TimeDelta::new(by_secs, by_nanos).unwrap();
    let end = start.with_timezone(&zone).checked_add_signed(by)?;
    Some((end.timestamp(), end.timestamp_subsec_nanos()))
}

/// Moves an instant back: `chrono::DateTime::checked_sub_signed`. The claim is that of
/// [`chrono_add`], with the duration negated.
#[verifier::external_body]
fn chrono_sub(secs: i64, nanos: u32, offset: i32, by_secs: i64, by_nanos: u32) -> (r: Option<
    (i64, u32),
>)
    requires
        dated_second(secs as int, nanos as int, offset as int),
        by_nanos < 1_000_000_000,
        duration_in_range(length(by_secs as int, by_nanos as int)),
    ensures
        ({
            let t = instant_at(secs, nanos, offset);
            let (n, leap) = reached(t, -length(by_secs as int, by_nanos as int));
            r == second_in_calendar(n, leap)
        }),
{
    let zone = chrono::FixedOffset::east_opt(offset).unwrap();
    let start = chrono::DateTime::from_timestamp(secs, 0).unwrap().with_nanosecond(nanos).unwrap();
    let by = chrono::TimeDelta::new(by_secs, by_nanos).unwrap();
    let end = start.with_timezone(&zone).checked_sub_signed(by)?;
    Some((end.timestamp(), end.timestamp_subsec_nanos()))
}

/// The duration from the second instant to the first, as whole seconds and the nanoseconds
/// beyond them, of the same sign: `chrono::DateTime::signed_duration_since`. Claimed: it is
/// their [`difference`], leap seconds included. The places do not matter.
#[verifier::external_body]
fn chrono_since(secs: i64, nanos: u32, from_secs: i64, from_nanos: u32) -> (r: (i64, i32))
    requires
        dated_second(secs as int, nanos as int, 0),
        dated_second(from_secs as int, from_nanos as int, 0),
    ensures
        length(r.0 as int, r.1 as int) == difference(
            instant_at(secs, nanos, 0),
            instant_at(from_secs, from_nanos, 0),
        ),
{
    let end = chrono::DateTime::from_timestamp(secs, 0).unwrap().with_nanosecond(nanos).unwrap();
    let start = chrono::DateTime::from_timestamp(from_secs, 0).unwrap();
    let start = start.with_nanosecond(from_nanos).unwrap();
    let length = end.signed_duration_since(start);
    (length.num_seconds(), length.subsec_nanos())
}

/// The second of an instant and the nanoseconds in it, which go on in a leap second, if the
/// calendar has it.
fn dated_parts(t: Timestamp) -> (r: Option<(i64, u32)>)
    ensures
        r is Some <==> dated(t),
        r matches Some(p) ==> dated_second(p.0 as int, p.1 as int, t.offset as int) && instant_at(
            p.0,
            p.1,
            t.offset,
        ) == t,
{
    let (second, rest) = second_of(t.nanos);
    if !(-86_400 < t.offset && t.offset < 86_400) {
        return None;
    }
    if second < CALENDAR_MIN as i128 || second > CALENDAR_MAX as i128 || (t.leap && second == CALENDAR_MAX as i128) {
        return None;
    }
    let nanos: u32 = if t.leap {
        rest as u32 + 1_000_000_000
    } else {
        rest as u32
    };
    Some((second as i64, nanos))
}

/// A duration as whole seconds and nanoseconds, if it is in range.
fn length_parts(by: i128) -> (r: Option<(i64, u32)>)
    ensures
        r is Some <==> duration_in_range(by as int),
        r matches Some(p) ==> p.1 < 1_000_000_000 && length(p.0 as int, p.1 as int) == by,
{
    if by < -MAX_DURATION || by > MAX_DURATION {
        return None;
    }
    let (second, rest) = second_of(by);
    Some((second as i64, rest as u32))
}

/// The instant of a second and the nanoseconds in it, if it is in the range of the language.
fn held(at: Option<(i64, u32)>, offset: i32, nanos: Ghost<int>, leap: Ghost<bool>) -> (r: Option<
    Timestamp,
>)
    requires
        at == second_in_calendar(nanos@, leap@),
    ensures
        r == (if in_language(nanos@, leap@) {
            Some(Timestamp { nanos: nanos@ as i128, offset, leap: leap@ })
        } else {
            None
        }),
{
    match at {
        Some((second, rest)) => {
            let late = rest >= 1_000_000_000;
            let inside: u32 = if late {
                rest - 1_000_000_000
            } else {
                rest
            };
            let n: i128 = second as i128 * SECOND + inside as i128;
            if MIN_TIMESTAMP <= n && n <= MAX_TIMESTAMP && !(late && second as i128 >= LAST_SECOND) {
                Some(Timestamp { nanos: n, offset, leap: late })
            } else {
                None
            }
        },
        None => None,
    }
}

/// Moves an instant.
pub fn move_by(t: Timestamp, by: i128) -> (r: Option<Timestamp>)
    ensures
        r == moved(t, by as int),
{
    match (dated_parts(t), length_parts(by)) {
        (Some((secs, nanos)), Some((by_secs, by_nanos))) => {
            let at = chrono_add(secs, nanos, t.offset, by_secs, by_nanos);
            let ghost end = reached(t, by as int);
            held(at, t.offset, Ghost(end.0), Ghost(end.1))
        },
        _ => None,
    }
}

/// Moves an instant back.
pub fn move_back(t: Timestamp, by: i128) -> (r: Option<Timestamp>)
    ensures
        r == moved(t, -(by as int)),
{
    match (dated_parts(t), length_parts(by)) {
        (Some((secs, nanos)), Some((by_secs, by_nanos))) => {
            let at = chrono_sub(secs, nanos, t.offset, by_secs, by_nanos);
            let ghost end = reached(t, -(by as int));
            held(at, t.offset, Ghost(end.0), Ghost(end.1))
        },
        _ => None,
    }
}

/// The duration from the second instant to the first.
fn apart(t: Timestamp, u: Timestamp) -> (r: Option<Duration>)
    ensures
        r == between(t, u),
{
    match (dated_parts(t), dated_parts(u)) {
        (Some((secs, nanos)), Some((from_secs, from_nanos))) => {
            let (s, n) = chrono_since(secs, nanos, from_secs, from_nanos);
            Some(Duration { nanos: s as i128 * SECOND + n as i128 })
        },
        _ => None,
    }
}

/// Which of two instants comes first.
pub fn order_instants(t: Timestamp, u: Timestamp) -> (r: Order)
    ensures
        r == instant_order(t, u),
{
    let (a, _) = second_of(t.nanos);
    let (b, _) = second_of(u.nanos);
    if a < b || (a == b && ((t.leap == u.leap && t.nanos < u.nanos) || (!t.leap && u.leap))) {
        Order::Before
    } else if t.nanos == u.nanos && t.leap == u.leap {
        Order::Same
    } else {
        Order::After
    }
}

/// The sum of two lengths, if it is in range.
pub fn add_lengths(a: i128, b: i128) -> (r: Option<Duration>)
    ensures
        r == duration_of(a + b),
{
    match a.checked_add(b) {
        Some(n) => if -MAX_DURATION <= n && n <= MAX_DURATION {
            Some(Duration { nanos: n })
        } else {
            None
        },
        None => None,
    }
}

/// The difference of two lengths, if it is in range.
pub fn sub_lengths(a: i128, b: i128) -> (r: Option<Duration>)
    ensures
        r == duration_of(a - b),
{
    match a.checked_sub(b) {
        Some(n) => if -MAX_DURATION <= n && n <= MAX_DURATION {
            Some(Duration { nanos: n })
        } else {
            None
        },
        None => None,
    }
}

/// Moving an instant and moving it back by the same length gives the instant again. An
/// instant in a leap second is left out: from outside there is no way back into one.
pub proof fn law_move_round_trip(t: Timestamp, by: int, u: Timestamp)
    requires
        instant_in_range(t.nanos as int),
        !t.leap,
        moved(t, by) == Some(u),
    ensures
        moved(u, -by) == Some(t),
{
}

/// The difference of two instants of the language, added to the second, gives the first.
/// Instants in leap seconds are left out, for the same reason.
pub proof fn law_difference_restores(t: Timestamp, u: Timestamp)
    requires
        instant_in_range(t.nanos as int),
        instant_in_range(u.nanos as int),
        dated(t),
        dated(u),
        !t.leap,
        !u.leap,
    ensures
        between(t, u) == Some(Duration { nanos: (t.nanos - u.nanos) as i128 }),
        moved(u, difference(t, u)) == Some(plain(t.nanos as int, u.offset)),
{
}

/// The difference of two instants of the calendar is always a duration.
pub proof fn law_differences_are_durations(t: Timestamp, u: Timestamp)
    requires
        dated(t),
        dated(u),
    ensures
        duration_in_range(difference(t, u)),
        between(t, u) == duration_of(difference(t, u)),
{
}

/// What adding a value to an instant gives.
pub open spec fn add_result(t: Timestamp, rhs: Val) -> Outcome {
    match rhs {
        Val::Duration(d) => match moved(t, d.nanos as int) {
            Some(u) => Ok(Val::Timestamp(u)),
            None => Err(Fault::Overflow("add"@, Val::Timestamp(t), rhs)),
        },
        _ => Err(Fault::UnsupportedBinaryOperator("add"@, Val::Timestamp(t), rhs)),
    }
}

/// What subtracting a value from an instant gives.
pub open spec fn sub_result(t: Timestamp, rhs: Val) -> Outcome {
    match rhs {
        Val::Duration(d) => match moved(t, -(d.nanos as int)) {
            Some(u) => Ok(Val::Timestamp(u)),
            None => Err(Fault::Overflow("sub"@, Val::Timestamp(t), rhs)),
        },
        Val::Timestamp(u) => match between(t, u) {
            Some(d) => Ok(Val::Duration(d)),
            None => Err(Fault::Overflow("sub"@, Val::Timestamp(t), rhs)),
        },
        _ => Err(Fault::UnsupportedBinaryOperator("sub"@, Val::Timestamp(t), rhs)),
    }
}

impl Timestamp {
    /// Adds a duration.
    pub fn plus(&self, rhs: &Value) -> (r: Result<Value, ExecutionError>)
        ensures
            error::outcome(r) == add_result(*self, rhs@),
    {
        match rhs {
            Value::Duration(d) => match move_by(*self, d.nanos) {
                Some(u) => Ok(Value::Timestamp(u)),
                None => Err(
                    ExecutionError::Overflow("add", Value::Timestamp(*self), rhs.clone()),
                ),
            },
            _ => Err(
                ExecutionError::UnsupportedBinaryOperator(
                    "add",
                    Value::Timestamp(*self),
                    rhs.clone(),
                ),
            ),
        }
    }

    /// Subtracts a duration, which gives an instant, or an instant, which gives a duration.
    pub fn minus(&self, rhs: &Value) -> (r: Result<Value, ExecutionError>)
        ensures
            error::outcome(r) == sub_result(*self, rhs@),
    {
        match rhs {
            Value::Duration(d) => match move_back(*self, d.nanos) {
                Some(u) => Ok(Value::Timestamp(u)),
                None => Err(
                    ExecutionError::Overflow("sub", Value::Timestamp(*self), rhs.clone()),
                ),
            },
            Value::Timestamp(u) => match apart(*self, *u) {
                Some(d) => Ok(Value::Duration(d)),
                None => Err(
                    ExecutionError::Overflow("sub", Value::Timestamp(*self), rhs.clone()),
                ),
            },
            _ => Err(
                ExecutionError::UnsupportedBinaryOperator(
                    "sub",
                    Value::Timestamp(*self),
                    rhs.clone(),
                ),
            ),
        }
    }

    /// Which of two instants comes first; another type cannot be compared.
    pub fn compare(&self, rhs: &Value) -> (r: Result<Ordering, ExecutionError>)
        ensures
            match rhs@ {
                Val::Timestamp(u) => r == Ok::<Ordering, ExecutionError>(
                    match instant_order(*self, u) {
                        Order::Before => Ordering::Less,
                        Order::Same => Ordering::Equal,
                        Order::After => Ordering::Greater,
                    },
                ),
                _ => r matches Err(e) && e@ == Fault::NoSuchOverload,
            },
    {
        match rhs {
            Value::Timestamp(u) => Ok(
                match order_instants(*self, *u) {
                    Order::Before => Ordering::Less,
                    Order::Same => Ordering::Equal,
                    Order::After => Ordering::Greater,
                },
            ),
            _ => Err(ExecutionError::NoSuchOverload),
        }
    }

    /// Whether a value is the same instant, wherever it is told.
    pub fn equals(&self, other: &Value) -> (r: bool)
        ensures
            r == (other@ matches Val::Timestamp(u) && self.nanos == u.nanos && self.leap
                == u.leap),
    {
        match other {
            Value::Timestamp(u) => self.nanos == u.nanos && self.leap == u.leap,
            _ => false,
        }
    }

    /// Whether the instant is the start of 1970 in UTC, or what would be the leap second
    /// before it, at its start.
    pub fn is_zero_value(&self) -> (r: bool)
        ensures
            r == (self.nanos == (if self.leap {
                -1_000_000_000int
            } else {
                0
            })),
    {
        if self.leap {
            self.nanos == -SECOND
        } else {
            self.nanos == 0
        }
    }
}

/// A date of the Gregorian calendar, extended to all years.
pub struct Date {
    pub year: int,
    pub month: int,
    pub day: int,
}

pub open spec fn is_leap(year: int) -> bool {
    year % 4 == 0 && (year % 100 != 0 || year % 400 == 0)
}

pub open spec fn month_len(year: int, month: int) -> int {
    if month == 2 {
        if is_leap(year) {
            29
        } else {
            28
        }
    } else if month == 4 || month == 6 || month == 9 || month == 11 {
        30
    } else {
        31
    }
}

/// The days of the year before a month.
pub open spec fn days_before_month(year: int, month: int) -> int
    decreases month,
{
    if month <= 1 {
        0
    } else {
        days_before_month(year, month - 1) + month_len(year, month - 1)
    }
}

/// The days from the start of 1970 to the start of a year.
pub open spec fn days_before_year(year: int) -> int {
    let y = year - 1;
    365 * y + y / 4 - y / 100 + y / 400 - 719_162
}

/// Day number `n`, counted from the start of 1970, has the date `d`.
pub open spec fn is_date(n: int, d: Date) -> bool {
    &&& 1 <= d.month <= 12
    &&& 1 <= d.day <= month_len(d.year, d.month)
    &&& n == day_number(d)
}

/// The day number of a date.
pub open spec fn day_number(d: Date) -> int {
    days_before_year(d.year) + days_before_month(d.year, d.month) + d.day - 1
}

/// The date of a day number.
pub open spec fn date_of(n: int) -> Date {
    choose|d: Date| is_date(n, d)
}

/// The day has a date, of this year.
pub open spec fn has_year(n: int, year: int) -> bool {
    exists|d: Date| #[trigger] is_date(n, d) && d.year == year
}

/// The day has a date, of this month.
pub open spec fn has_month(n: int, month: int) -> bool {
    exists|d: Date| #[trigger] is_date(n, d) && d.month == month
}

/// The day has a date, of this day of the month.
pub open spec fn has_day(n: int, day: int) -> bool {
    exists|d: Date| #[trigger] is_date(n, d) && d.day == day
}

/// The second that an instant is in.
pub open spec fn utc_second(t: Timestamp) -> int {
    t.nanos as int / 1_000_000_000
}

/// The day number of a second in a place.
pub open spec fn local_day(secs: int, offset: int) -> int {
    (secs + offset) / 86_400
}

/// The second of the day in a place.
pub open spec fn local_second(secs: int, offset: int) -> int {
    (secs + offset) % 86_400
}

/// The seconds and places whose calendar is told.
pub open spec fn calendar_second(secs: int, nanos: int, offset: int) -> bool {
    CALENDAR_MIN <= secs <= CALENDAR_MAX && 0 <= nanos < 1_000_000_000 && -86_400 < offset < 86_400
}

/// The instants whose calendar is told.
pub open spec fn in_calendar(t: Timestamp) -> bool {
    calendar_second(utc_second(t), t.nanos as int % 1_000_000_000, t.offset as int)
}

/// The year: `chrono::Datelike::year` of the instant in its place. Claimed: there is a date
/// for the day, of that year.
#[verifier::external_body]
fn chrono_year(secs: i64, nanos: u32, offset: i32) -> (r: i32)
    requires
        calendar_second(secs as int, nanos as int, offset as int),
    ensures
        has_year(local_day(secs as int, offset as int), r as int),
{
    let zone = chrono::FixedOffset::east_opt(offset).unwrap();
    chrono::DateTime::from_timestamp(secs, nanos).unwrap().with_timezone(&zone).year()
}

/// The month, counted from zero: `chrono::Datelike::month0` of the instant in its place.
#[verifier::external_body]
fn chrono_month0(secs: i64, nanos: u32, offset: i32) -> (r: u32)
    requires
        calendar_second(secs as int, nanos as int, offset as int),
    ensures
        has_month(local_day(secs as int, offset as int), r + 1),
{
    let zone = chrono::FixedOffset::east_opt(offset).unwrap();
    chrono::DateTime::from_timestamp(secs, nanos).unwrap().with_timezone(&zone).month0()
}

/// The day of the month, counted from one: `chrono::Datelike::day` of the instant in its
/// place.
#[verifier::external_body]
fn chrono_day(secs: i64, nanos: u32, offset: i32) -> (r: u32)
    requires
        calendar_second(secs as int, nanos as int, offset as int),
    ensures
        has_day(local_day(secs as int, offset as int), r as int),
{
    let zone = chrono::FixedOffset::east_opt(offset).unwrap();
    chrono::DateTime::from_timestamp(secs, nanos).unwrap().with_timezone(&zone).day()
}

/// The day of the month, counted from zero: `chrono::Datelike::day0` of the instant in its
/// place.
#[verifier::external_body]
fn chrono_day0(secs: i64, nanos: u32, offset: i32) -> (r: u32)
    requires
        calendar_second(secs as int, nanos as int, offset as int),
    ensures
        has_day(local_day(secs as int, offset as int), r + 1),
{
    let zone = chrono::FixedOffset::east_opt(offset).unwrap();
    chrono::DateTime::from_timestamp(secs, nanos).unwrap().with_timezone(&zone).day0()
}

/// The day of the week, counted from Sunday as zero: `chrono::Datelike::weekday` with
/// `chrono::Weekday::num_days_from_sunday`. Day zero was a Thursday.
#[verifier::external_body]
fn chrono_weekday(secs: i64, nanos: u32, offset: i32) -> (r: u32)
    requires
        calendar_second(secs as int, nanos as int, offset as int),
    ensures
        r == (local_day(secs as int, offset as int) + 4) % 7,
{
    let zone = chrono::FixedOffset::east_opt(offset).unwrap();
    let local = chrono::DateTime::from_timestamp(secs, nanos).unwrap().with_timezone(&zone);
    local.weekday().num_days_from_sunday()
}

/// The hour of the day: `chrono::Timelike::hour` of the instant in its place.
#[verifier::external_body]
fn chrono_hour(secs: i64, nanos: u32, offset: i32) -> (r: u32)
    requires
        calendar_second(secs as int, nanos as int, offset as int),
    ensures
        r == local_second(secs as int, offset as int) / 3600,
{
    let zone = chrono::FixedOffset::east_opt(offset).unwrap();
    chrono::DateTime::from_timestamp(secs, nanos).unwrap().with_timezone(&zone).hour()
}

/// The minute of the hour: `chrono::Timelike::minute` of the instant in its place.
#[verifier::external_body]
fn chrono_minute(secs: i64, nanos: u32, offset: i32) -> (r: u32)
    requires
        calendar_second(secs as int, nanos as int, offset as int),
    ensures
        r == local_second(secs as int, offset as int) / 60 % 60,
{
    let zone = chrono::FixedOffset::east_opt(offset).unwrap();
    chrono::DateTime::from_timestamp(secs, nanos).unwrap().with_timezone(&zone).minute()
}

/// The second of the minute: `chrono::Timelike::second` of the instant in its place.
#[verifier::external_body]
fn chrono_second(secs: i64, nanos: u32, offset: i32) -> (r: u32)
    requires
        calendar_second(secs as int, nanos as int, offset as int),
    ensures
        r == local_second(secs as int, offset as int) % 60,
{
    let zone = chrono::FixedOffset::east_opt(offset).unwrap();
    chrono::DateTime::from_timestamp(secs, nanos).unwrap().with_timezone(&zone).second()
}

/// The milliseconds of the second: `chrono::DateTime::timestamp_subsec_millis`.
#[verifier::external_body]
fn chrono_millis(secs: i64, nanos: u32, offset: i32) -> (r: u32)
    requires
        calendar_second(secs as int, nanos as int, offset as int),
    ensures
        r == nanos / 1_000_000,
{
    let zone = chrono::FixedOffset::east_opt(offset).unwrap();
    let local = chrono::DateTime::from_timestamp(secs, nanos).unwrap().with_timezone(&zone);
    local.timestamp_subsec_millis()
}

/// The day has a date, which is more than `days` days into its month.
pub open spec fn into_month(n: int, days: int) -> bool {
    exists|d: Date| #[trigger] is_date(n, d) && days < d.day
}

/// The day has a date, which is more than `months` months into its year.
pub open spec fn into_year(n: int, months: int) -> bool {
    exists|d: Date| #[trigger] is_date(n, d) && months < d.month
}

/// A second of the calendar; there is none before its first.
pub open spec fn from_start(second: int) -> Option<i64> {
    if second >= CALENDAR_MIN {
        Some(second as i64)
    } else {
        None
    }
}

/// The second a number of days earlier in the same month: `chrono::DateTime::checked_sub_days`,
/// which keeps the time of day. In a place with a fixed offset every day has the same length.
/// Nothing comes back where the calendar has not begun.
#[verifier::external_body]
fn chrono_sub_days(secs: i64, nanos: u32, offset: i32, days: u64) -> (r: Option<i64>)
    requires
        calendar_second(secs as int, nanos as int, offset as int),
        into_month(local_day(secs as int, offset as int), days as int),
    ensures
        r == from_start(secs - 86_400 * days),
{
    let zone = chrono::FixedOffset::east_opt(offset).unwrap();
    let local = chrono::DateTime::from_timestamp(secs, nanos).unwrap().with_timezone(&zone);
    Some(local.checked_sub_days(chrono::Days::new(days))?.timestamp())
}

/// The second a number of months earlier in the same year:
/// `chrono::DateTime::checked_sub_months`. The time of day stays, and so does the day of the
/// month where the other month has it, else it is the month's last. Nothing comes back where
/// the calendar has not begun.
#[verifier::external_body]
fn chrono_sub_months(secs: i64, nanos: u32, offset: i32, months: u32) -> (r: Option<i64>)
    requires
        calendar_second(secs as int, nanos as int, offset as int),
        into_year(local_day(secs as int, offset as int), months as int),
    ensures
        r == from_start(
            86_400 * day_number(
                months_back(date_of(local_day(secs as int, offset as int)), months as int),
            ) + local_second(secs as int, offset as int) - offset,
        ),
{
    let zone = chrono::FixedOffset::east_opt(offset).unwrap();
    let local = chrono::DateTime::from_timestamp(secs, nanos).unwrap().with_timezone(&zone);
    Some(local.checked_sub_months(chrono::Months::new(months))?.timestamp())
}

/// The date a number of months earlier, with the day held inside the month.
pub open spec fn months_back(d: Date, months: int) -> Date {
    let k = 12 * d.year + (d.month - 1) - months;
    let year = k / 12;
    let month = k % 12 + 1;
    Date {
        year,
        month,
        day: if d.day > month_len(year, month) {
            month_len(year, month)
        } else {
            d.day
        },
    }
}

/// The second, the nanoseconds in it and the offset that an RFC 3339 text writes, or why it
/// writes none, as `chrono::DateTime::parse_from_rfc3339` has it.
pub uninterp spec fn rfc3339(s: Seq<char>) -> Result<(i64, u32, i32), Seq<char>>;

/// Reads an RFC 3339 text: `chrono::DateTime::parse_from_rfc3339`, with the result given as
/// its second, its nanoseconds and its offset, and the error as its text. All of it is a
/// function of the input.
#[verifier::external_body]
fn chrono_parse(s: &str) -> (r: Result<(i64, u32, i32), String>)
    ensures
        match r {
            Ok(t) => rfc3339(s@) == Ok::<(i64, u32, i32), Seq<char>>(t),
            Err(m) => rfc3339(s@) == Err::<(i64, u32, i32), Seq<char>>(m@),
        },
{
    let t = chrono::DateTime::parse_from_rfc3339(s).map_err(|e| e.to_string())?;
    Ok((t.timestamp(), t.timestamp_subsec_nanos(), t.offset().local_minus_utc()))
}

proof fn lemma_year_step(y: int)
    ensures
        days_before_year(y + 1) == days_before_year(y) + (if is_leap(y) {
            366int
        } else {
            365int
        }),
{
    lemma_fours(y - 1);
    lemma_hundreds(y - 1);
    lemma_four_hundreds(y - 1);
    assert(y % 400 == 0 ==> y % 100 == 0);
    assert(y % 100 == 0 ==> y % 4 == 0);
}

proof fn lemma_fours(x: int)
    ensures
        (x + 1) / 4 == x / 4 + (if (x + 1) % 4 == 0 {
            1int
        } else {
            0
        }),
{
}

proof fn lemma_hundreds(x: int)
    ensures
        (x + 1) / 100 == x / 100 + (if (x + 1) % 100 == 0 {
            1int
        } else {
            0
        }),
{
}

proof fn lemma_four_hundreds(x: int)
    ensures
        (x + 1) / 400 == x / 400 + (if (x + 1) % 400 == 0 {
            1int
        } else {
            0
        }),
{
}

proof fn lemma_years_rise(y: int, z: int)
    requires
        y <= z,
    ensures
        days_before_year(y) + 365 * (z - y) <= days_before_year(z),
    decreases z - y,
{
    if y < z {
        lemma_years_rise(y, z - 1);
        lemma_year_step(z - 1);
    }
}

proof fn lemma_month_offsets(year: int)
    ensures
        days_before_month(year, 1) == 0,
        days_before_month(year, 2) == 31,
        days_before_month(year, 3) == 31 + month_len(year, 2),
        days_before_month(year, 4) == 62 + month_len(year, 2),
        days_before_month(year, 5) == 92 + month_len(year, 2),
        days_before_month(year, 6) == 123 + month_len(year, 2),
        days_before_month(year, 7) == 153 + month_len(year, 2),
        days_before_month(year, 8) == 184 + month_len(year, 2),
        days_before_month(year, 9) == 215 + month_len(year, 2),
        days_before_month(year, 10) == 245 + month_len(year, 2),
        days_before_month(year, 11) == 276 + month_len(year, 2),
        days_before_month(year, 12) == 306 + month_len(year, 2),
{
    reveal_with_fuel(days_before_month, 13);
}

proof fn lemma_date_inside_year(n: int, d: Date)
    requires
        is_date(n, d),
    ensures
        days_before_year(d.year) <= n < days_before_year(d.year + 1),
{
    lemma_month_offsets(d.year);
    lemma_year_step(d.year);
}

/// A day has one date.
pub proof fn law_date_unique(n: int, d: Date, e: Date)
    requires
        is_date(n, d),
        is_date(n, e),
    ensures
        d == e,
{
    lemma_date_inside_year(n, d);
    lemma_date_inside_year(n, e);
    if d.year < e.year {
        lemma_years_rise(d.year + 1, e.year);
    }
    if e.year < d.year {
        lemma_years_rise(e.year + 1, d.year);
    }
    lemma_month_offsets(d.year);
}

/// A day has the date that `date_of` gives, once it has one at all.
pub proof fn lemma_date_of(n: int, d: Date)
    requires
        is_date(n, d),
    ensures
        date_of(n) == d,
{
    law_date_unique(n, d, date_of(n));
}

/// Every day has a date, which is the one that `date_of` gives.
pub proof fn law_day_has_date(n: int)
    ensures
        is_date(n, date_of(n)),
    decreases
            if n < 0 {
                -n
            } else {
                n
            },
{
    if n == 0 {
        assert(is_date(0, Date { year: 1970, month: 1, day: 1 }));
    } else if n > 0 {
        law_day_has_date(n - 1);
        let p = date_of(n - 1);
        lemma_month_offsets(p.year);
        lemma_month_offsets(p.year + 1);
        lemma_year_step(p.year);
        let d = if p.day < month_len(p.year, p.month) {
            Date { year: p.year, month: p.month, day: p.day + 1 }
        } else if p.month < 12 {
            Date { year: p.year, month: p.month + 1, day: 1 }
        } else {
            Date { year: p.year + 1, month: 1, day: 1 }
        };
        assert(is_date(n, d));
    } else {
        law_day_has_date(n + 1);
        let p = date_of(n + 1);
        lemma_month_offsets(p.year);
        lemma_month_offsets(p.year - 1);
        lemma_year_step(p.year - 1);
        let d = if p.day > 1 {
            Date { year: p.year, month: p.month, day: p.day - 1 }
        } else if p.month > 1 {
            Date {
                year: p.year,
                month: p.month - 1,
                day: month_len(p.year, p.month - 1),
            }
        } else {
            Date { year: p.year - 1, month: 12, day: 31 }
        };
        assert(is_date(n, d));
    }
}

proof fn lemma_date_parts(n: int)
    ensures
        forall|y: int| has_year(n, y) ==> is_date(n, date_of(n)) && date_of(n).year == y,
        forall|m: int| has_month(n, m) ==> is_date(n, date_of(n)) && date_of(n).month == m,
        forall|k: int| has_day(n, k) ==> is_date(n, date_of(n)) && date_of(n).day == k,
{
    assert forall|d: Date| is_date(n, d) implies date_of(n) == d by {
        lemma_date_of(n, d);
    }
}

/// The fields of an instant that the language can ask for.
#[derive(Clone, Copy, Debug, PartialEq, Eq, Structural)]
pub enum TimeField {
    FullYear,
    Month,
    DayOfYear,
    DayOfMonth,
    Date,
    DayOfWeek,
    Hours,
    Minutes,
    Seconds,
    Millis,
}

/// A field of an instant whose calendar is told.
pub open spec fn field_value(f: TimeField, t: Timestamp) -> int {
    let secs = utc_second(t);
    let day = local_day(secs, t.offset as int);
    let second = local_second(secs, t.offset as int);
    match f {
        TimeField::FullYear => date_of(day).year,
        TimeField::Month => date_of(day).month - 1,
        TimeField::DayOfYear => day - days_before_year(date_of(day).year),
        TimeField::DayOfMonth => date_of(day).day - 1,
        TimeField::Date => date_of(day).day,
        TimeField::DayOfWeek => (day + 4) % 7,
        TimeField::Hours => second / 3600,
        TimeField::Minutes => second / 60 % 60,
        TimeField::Seconds => second % 60,
        TimeField::Millis => in_second(t) / 1_000_000 + (if t.leap {
            1000int
        } else {
            0
        }),
    }
}

/// The same time of day as the instant's on the first day of its year, in its place.
pub open spec fn year_start(t: Timestamp) -> int {
    utc_second(t) - 86_400 * field_value(TimeField::DayOfYear, t)
}

/// A field of an instant is told: its calendar is, and for the day of the year the first day
/// of that year is in the calendar as well.
pub open spec fn told(f: TimeField, t: Timestamp) -> bool {
    in_calendar(t) && (f == TimeField::DayOfYear ==> year_start(t) >= CALENDAR_MIN)
}

/// Every field is told of the instants of the language, wherever they are.
pub proof fn law_language_told(f: TimeField, t: Timestamp)
    requires
        instant_in_range(t.nanos as int),
        -86_400 < t.offset < 86_400,
    ensures
        told(f, t),
{
    let day = local_day(utc_second(t), t.offset as int);
    let d = date_of(day);
    law_day_has_date(day);
    lemma_date_inside_year(day, d);
    lemma_year_step(d.year);
}

/// What asking an instant for a field gives.
pub open spec fn field_result(f: TimeField, t: Timestamp) -> Outcome {
    if told(f, t) {
        Ok(Val::Int(field_value(f, t) as i64))
    } else {
        Err(Fault::InternalError("timestamp out of range"@))
    }
}

/// A field of an instant is an integer.
pub open spec fn has_field(t: Timestamp, f: TimeField, n: int) -> bool {
    field_result(f, t) matches Ok(Val::Int(i)) && i == n
}

/// An instant of the language in a place on earth.
pub open spec fn ordinary(t: Timestamp) -> bool {
    &&& -62_135_596_800_000_000_000 <= t.nanos <= 253_402_300_799_999_999_999
    &&& -86_400 < t.offset < 86_400
}

proof fn lemma_ordinary_year(t: Timestamp)
    requires
        ordinary(t),
    ensures
        ({
            let day = local_day(utc_second(t), t.offset as int);
            let d = date_of(day);
            &&& is_date(day, d)
            &&& -1 <= d.year <= 10_000
            &&& 0 <= day - days_before_year(d.year) < 366
        }),
{
    let day = local_day(utc_second(t), t.offset as int);
    let d = date_of(day);
    law_day_has_date(day);
    lemma_date_inside_year(day, d);
    lemma_year_step(d.year);
    if d.year > 10_000 {
        lemma_years_rise(10_001, d.year);
    }
    if d.year < -1 {
        lemma_years_rise(d.year + 1, -1);
    }
}

/// The hours, minutes and seconds of an instant are those of its time of day in its place:
/// counted together they are the seconds since midnight there. The milliseconds are those of
/// its second, which a leap second makes longer.
pub proof fn law_clock(t: Timestamp) -> (r: (int, int, int, int, int))
    requires
        ordinary(t),
    ensures
        ({
            let (day, h, m, s, ms) = r;
            &&& has_field(t, TimeField::Hours, h)
            &&& has_field(t, TimeField::Minutes, m)
            &&& has_field(t, TimeField::Seconds, s)
            &&& has_field(t, TimeField::Millis, ms)
            &&& 0 <= h < 24
            &&& 0 <= m < 60
            &&& 0 <= s < 60
            &&& !t.leap ==> 0 <= ms < 1000
            &&& t.leap ==> 1000 <= ms < 2000
            &&& 0 <= t.nanos - (86_400 * day + 3_600 * h + 60 * m + s - t.offset) * 1_000_000_000
                - (if t.leap {
                ms - 1000
            } else {
                ms
            }) * 1_000_000 < 1_000_000
        }),
{
    law_language_told(TimeField::Hours, t);
    law_language_told(TimeField::Minutes, t);
    law_language_told(TimeField::Seconds, t);
    law_language_told(TimeField::Millis, t);
    let secs = utc_second(t);
    let second = local_second(secs, t.offset as int);
    (
        local_day(secs, t.offset as int),
        second / 3600,
        second / 60 % 60,
        second % 60,
        field_value(TimeField::Millis, t),
    )
}

/// The day on which 1970 began, in whatever place, was the first of January, the first day of
/// its year, and a Thursday.
pub proof fn law_first_day(t: Timestamp)
    requires
        ordinary(t),
        0 <= t.nanos + t.offset * 1_000_000_000 < 86_400_000_000_000,
    ensures
        has_field(t, TimeField::FullYear, 1970),
        has_field(t, TimeField::Month, 0),
        has_field(t, TimeField::Date, 1),
        has_field(t, TimeField::DayOfMonth, 0),
        has_field(t, TimeField::DayOfYear, 0),
        has_field(t, TimeField::DayOfWeek, 4),
{
    law_language_told(TimeField::FullYear, t);
    law_language_told(TimeField::Month, t);
    law_language_told(TimeField::Date, t);
    law_language_told(TimeField::DayOfMonth, t);
    law_language_told(TimeField::DayOfYear, t);
    law_language_told(TimeField::DayOfWeek, t);
    assert(local_day(utc_second(t), t.offset as int) == 0);
    lemma_month_offsets(1970);
    lemma_date_of(0, Date { year: 1970, month: 1, day: 1 });
}

/// The date of the next day.
proof fn lemma_next_date(day: int)
    ensures
        ({
            let d = date_of(day);
            let next = if d.day < month_len(d.year, d.month) {
                Date { year: d.year, month: d.month, day: d.day + 1 }
            } else if d.month < 12 {
                Date { year: d.year, month: d.month + 1, day: 1 }
            } else {
                Date { year: d.year + 1, month: 1, day: 1 }
            };
            &&& date_of(day + 1) == next
            &&& d.month == 12 && d.day == 31 ==> day + 1 == days_before_year(d.year + 1)
        }),
{
    law_day_has_date(day);
    let d = date_of(day);
    lemma_month_offsets(d.year);
    lemma_month_offsets(d.year + 1);
    lemma_year_step(d.year);
    let next = if d.day < month_len(d.year, d.month) {
        Date { year: d.year, month: d.month, day: d.day + 1 }
    } else if d.month < 12 {
        Date { year: d.year, month: d.month + 1, day: 1 }
    } else {
        Date { year: d.year + 1, month: 1, day: 1 }
    };
    assert(is_date(day + 1, next));
    lemma_date_of(day + 1, next);
}

/// From one day to the next the calendar goes on: the day of the week by one, after Saturday
/// to Sunday; the date by one, after the last of a month to the first of the next; the day of
/// the year by one, after December to the first of the next year. The months have the lengths
/// that everyone knows, and February has 29 days in a year that four divides, unless it is one
/// of the three centuries of four.
#[verifier::rlimit(60)]
pub proof fn law_next_day(t: Timestamp, u: Timestamp) -> (r: (int, int, int, int, int))
    requires
        ordinary(t),
        ordinary(u),
        u.offset == t.offset,
        u.nanos == t.nanos + 86_400_000_000_000,
    ensures
        ({
            let (year, month, date, ordinal, weekday) = r;
            let leap = year % 4 == 0 && !(year % 100 == 0 && year % 400 != 0);
            let len: int = if month == 1 {
                if leap {
                    29
                } else {
                    28
                }
            } else if month == 3 || month == 5 || month == 8 || month == 10 {
                30
            } else {
                31
            };
            &&& 0 <= month < 12
            &&& 1 <= date <= len
            &&& 0 <= weekday < 7
            &&& has_field(t, TimeField::FullYear, year)
            &&& has_field(t, TimeField::Month, month)
            &&& has_field(t, TimeField::Date, date)
            &&& has_field(t, TimeField::DayOfMonth, date - 1)
            &&& has_field(t, TimeField::DayOfYear, ordinal)
            &&& has_field(t, TimeField::DayOfWeek, weekday)
            &&& has_field(
                u,
                TimeField::DayOfWeek,
                if weekday == 6 {
                    0
                } else {
                    weekday + 1
                },
            )
            &&& date < len ==> {
                &&& has_field(u, TimeField::FullYear, year)
                &&& has_field(u, TimeField::Month, month)
                &&& has_field(u, TimeField::Date, date + 1)
                &&& has_field(u, TimeField::DayOfMonth, date)
                &&& has_field(u, TimeField::DayOfYear, ordinal + 1)
            }
            &&& date == len && month < 11 ==> {
                &&& has_field(u, TimeField::FullYear, year)
                &&& has_field(u, TimeField::Month, month + 1)
                &&& has_field(u, TimeField::Date, 1)
                &&& has_field(u, TimeField::DayOfMonth, 0)
                &&& has_field(u, TimeField::DayOfYear, ordinal + 1)
            }
            &&& date == len && month == 11 ==> {
                &&& has_field(u, TimeField::FullYear, year + 1)
                &&& has_field(u, TimeField::Month, 0)
                &&& has_field(u, TimeField::Date, 1)
                &&& has_field(u, TimeField::DayOfMonth, 0)
                &&& has_field(u, TimeField::DayOfYear, 0)
            }
        }),
{
    let day = local_day(utc_second(t), t.offset as int);
    assert(utc_second(u) == utc_second(t) + 86_400);
    assert(local_day(utc_second(u), u.offset as int) == day + 1);
    lemma_ordinary_year(t);
    lemma_ordinary_year(u);
    law_language_told(TimeField::FullYear, t);
    law_language_told(TimeField::Month, t);
    law_language_told(TimeField::Date, t);
    law_language_told(TimeField::DayOfMonth, t);
    law_language_told(TimeField::DayOfYear, t);
    law_language_told(TimeField::DayOfWeek, t);
    law_language_told(TimeField::FullYear, u);
    law_language_told(TimeField::Month, u);
    law_language_told(TimeField::Date, u);
    law_language_told(TimeField::DayOfMonth, u);
    law_language_told(TimeField::DayOfYear, u);
    law_language_told(TimeField::DayOfWeek, u);
    let d = date_of(day);
    lemma_next_date(day);
    assert((day + 5) % 7 == (if (day + 4) % 7 == 6 {
        0
    } else {
        (day + 4) % 7 + 1
    }));
    (d.year, d.month - 1, d.day, day - days_before_year(d.year), (day + 4) % 7)
}

/// On one day, in one place, the fields of the calendar are the same at any time.
pub proof fn law_same_day(t: Timestamp, u: Timestamp, f: TimeField, midnight: int)
    requires
        ordinary(t),
        ordinary(u),
        u.offset == t.offset,
        (midnight + t.offset) % 86_400 == 0,
        0 <= t.nanos - midnight * 1_000_000_000 < 86_400_000_000_000,
        0 <= u.nanos - midnight * 1_000_000_000 < 86_400_000_000_000,
        f == TimeField::FullYear || f == TimeField::Month || f == TimeField::Date || f
            == TimeField::DayOfMonth || f == TimeField::DayOfYear || f == TimeField::DayOfWeek,
    ensures
        field_result(f, t) == field_result(f, u),
        field_result(f, t) is Ok,
{
    law_language_told(f, t);
    law_language_told(f, u);
    let day = (midnight + t.offset) / 86_400;
    assert(local_day(utc_second(t), t.offset as int) == day);
    assert(local_day(utc_second(u), u.offset as int) == day);
}

/// The second and the nanoseconds of an instant whose calendar is told.
fn split(t: Timestamp) -> (r: Option<(i64, u32)>)
    ensures
        match r {
            Some(p) => in_calendar(t) && p.0 == utc_second(t) && p.1 == t.nanos as int
                % 1_000_000_000,
            None => !in_calendar(t),
        },
{
    if t.offset <= -86_400 || t.offset >= 86_400 {
        return None;
    }
    if t.nanos < -8_334_601_228_800_000_000_000 || t.nanos > 8_210_266_876_799_999_999_999 {
        return None;
    }
    let base: i128 = 9_000_000_000_000_000_000_000;
    let shifted: u128 = (t.nanos + base) as u128;
    let s: u128 = shifted / 1_000_000_000;
    let n: u128 = shifted % 1_000_000_000;
    let secs: i64 = s as i64 - 9_000_000_000_000;
    Some((secs, n as u32))
}

impl Timestamp {
    /// The year in the instant's place.
    pub fn full_year(&self) -> (r: Result<Value, ExecutionError>)
        ensures
            error::outcome(r) == field_result(TimeField::FullYear, *self),
    {
        proof {
            lemma_date_parts(local_day(utc_second(*self), self.offset as int));
        }
        match split(*self) {
            Some((s, n)) => {
                let v = chrono_year(s, n, self.offset);
                Ok(Value::Int(v as i64))
            },
            None => Err(ExecutionError::internal("timestamp out of range")),
        }
    }

    /// The month, counted from zero.
    pub fn month(&self) -> (r: Result<Value, ExecutionError>)
        ensures
            error::outcome(r) == field_result(TimeField::Month, *self),
    {
        proof {
            lemma_date_parts(local_day(utc_second(*self), self.offset as int));
        }
        match split(*self) {
            Some((s, n)) => Ok(Value::Int(chrono_month0(s, n, self.offset) as i64)),
            None => Err(ExecutionError::internal("timestamp out of range")),
        }
    }

    /// The day of the month, counted from zero.
    pub fn day_of_month(&self) -> (r: Result<Value, ExecutionError>)
        ensures
            error::outcome(r) == field_result(TimeField::DayOfMonth, *self),
    {
        proof {
            lemma_date_parts(local_day(utc_second(*self), self.offset as int));
        }
        match split(*self) {
            Some((s, n)) => Ok(Value::Int(chrono_day0(s, n, self.offset) as i64)),
            None => Err(ExecutionError::internal("timestamp out of range")),
        }
    }

    /// The day of the month, counted from one.
    pub fn date(&self) -> (r: Result<Value, ExecutionError>)
        ensures
            error::outcome(r) == field_result(TimeField::Date, *self),
    {
        proof {
            lemma_date_parts(local_day(utc_second(*self), self.offset as int));
        }
        match split(*self) {
            Some((s, n)) => Ok(Value::Int(chrono_day(s, n, self.offset) as i64)),
            None => Err(ExecutionError::internal("timestamp out of range")),
        }
    }

    /// The day of the week, counted from Sunday as zero.
    pub fn day_of_week(&self) -> (r: Result<Value, ExecutionError>)
        ensures
            error::outcome(r) == field_result(TimeField::DayOfWeek, *self),
    {
        match split(*self) {
            Some((s, n)) => Ok(Value::Int(chrono_weekday(s, n, self.offset) as i64)),
            None => Err(ExecutionError::internal("timestamp out of range")),
        }
    }

    /// The hour of the day.
    pub fn hours(&self) -> (r: Result<Value, ExecutionError>)
        ensures
            error::outcome(r) == field_result(TimeField::Hours, *self),
    {
        match split(*self) {
            Some((s, n)) => Ok(Value::Int(chrono_hour(s, n, self.offset) as i64)),
            None => Err(ExecutionError::internal("timestamp out of range")),
        }
    }

    /// The minute of the hour.
    pub fn minutes(&self) -> (r: Result<Value, ExecutionError>)
        ensures
            error::outcome(r) == field_result(TimeField::Minutes, *self),
    {
        match split(*self) {
            Some((s, n)) => Ok(Value::Int(chrono_minute(s, n, self.offset) as i64)),
            None => Err(ExecutionError::internal("timestamp out of range")),
        }
    }

    /// The second of the minute.
    pub fn seconds(&self) -> (r: Result<Value, ExecutionError>)
        ensures
            error::outcome(r) == field_result(TimeField::Seconds, *self),
    {
        match split(*self) {
            Some((s, n)) => Ok(Value::Int(chrono_second(s, n, self.offset) as i64)),
            None => Err(ExecutionError::internal("timestamp out of range")),
        }
    }

    /// The milliseconds of the second; a leap second goes on where the second before it ends.
    pub fn millis(&self) -> (r: Result<Value, ExecutionError>)
        ensures
            error::outcome(r) == field_result(TimeField::Millis, *self),
    {
        match split(*self) {
            Some((s, n)) => {
                let v = chrono_millis(s, n, self.offset);
                Ok(
                    Value::Int(
                        if self.leap {
                            v as i64 + 1000
                        } else {
                            v as i64
                        },
                    ),
                )
            },
            None => Err(ExecutionError::internal("timestamp out of range")),
        }
    }

    /// The day of the year, counted from zero: the days since the same time of day on the
    /// first of January, which is reached by going back to the start of the month and then
    /// month by month.
    pub fn day_of_year(&self) -> (r: Result<Value, ExecutionError>)
        ensures
            error::outcome(r) == field_result(TimeField::DayOfYear, *self),
    {
        match split(*self) {
            Some((s, n)) => {
                let o = self.offset;
                let day0 = chrono_day0(s, n, o);
                let month0 = chrono_month0(s, n, o);
                let ghost day = local_day(s as int, o as int);
                let ghost d = date_of(day);
                proof {
                    lemma_date_parts(day);
                    lemma_month_offsets(d.year);
                    lemma_date_inside_year(day, d);
                }
                let ghost start = Date { year: d.year, month: d.month, day: 1 };
                let ghost begin = Date { year: d.year, month: 1, day: 1 };
                proof {
                    assert(is_date(day, d) && day0 < d.day && month0 < d.month);
                    assert(day_number(begin) == days_before_year(d.year));
                    assert(is_date(day - day0, start));
                    lemma_date_of(day - day0, start);
                    assert(months_back(start, month0 as int) == begin);
                    assert(year_start(*self) == 86_400 * days_before_year(d.year)
                        + local_second(s as int, o as int) - o);
                    lemma_year_step(d.year);
                }
                match chrono_sub_days(s, n, o, day0 as u64) {
                    Some(first) => {
                        proof {
                            assert(local_day(first as int, o as int) == day - day0);
                            assert(local_second(first as int, o as int) == local_second(
                                s as int,
                                o as int,
                            ));
                        }
                        match chrono_sub_months(first, n, o, month0) {
                            Some(start_of_year) => Ok(
                                Value::Int((s - start_of_year) / 86_400),
                            ),
                            None => Err(ExecutionError::internal("timestamp out of range")),
                        }
                    },
                    None => Err(ExecutionError::internal("timestamp out of range")),
                }
            },
            None => Err(ExecutionError::internal("timestamp out of range")),
        }
    }

    /// A field of the instant.
    pub fn field(&self, f: TimeField) -> (r: Result<Value, ExecutionError>)
        ensures
            error::outcome(r) == field_result(f, *self),
    {
        match f {
            TimeField::FullYear => self.full_year(),
            TimeField::Month => self.month(),
            TimeField::DayOfYear => self.day_of_year(),
            TimeField::DayOfMonth => self.day_of_month(),
            TimeField::Date => self.date(),
            TimeField::DayOfWeek => self.day_of_week(),
            TimeField::Hours => self.hours(),
            TimeField::Minutes => self.minutes(),
            TimeField::Seconds => self.seconds(),
            TimeField::Millis => self.millis(),
        }
    }
}

/// What reading an instant from a text gives.
pub open spec fn parse_result(s: Seq<char>) -> Outcome {
    parsed(rfc3339(s))
}

/// What a text that was read, or refused, becomes in the language.
pub open spec fn parsed(r: Result<(i64, u32, i32), Seq<char>>) -> Outcome {
    match r {
        Ok((secs, nanos, offset)) => Ok(Val::Timestamp(instant_at(secs, nanos, offset))),
        Err(m) => Err(Fault::FunctionError("timestamp"@, m)),
    }
}

/// Turns the result of reading a text into a value or an error of the language.
pub fn from_parsed(r: Result<(i64, u32, i32), String>) -> (v: Result<Value, ExecutionError>)
    ensures
        error::outcome(v) == parsed(
            match r {
                Ok(t) => Ok(t),
                Err(m) => Err(m@),
            },
        ),
{
    match r {
        Ok((secs, nanos, offset)) => {
            let n: i128 = secs as i128 * SECOND + nanos as i128;
            if nanos >= 1_000_000_000 {
                Ok(Value::Timestamp(Timestamp { nanos: n - SECOND, offset, leap: true }))
            } else {
                Ok(Value::Timestamp(Timestamp { nanos: n, offset, leap: false }))
            }
        },
        Err(m) => Err(ExecutionError::function_error("timestamp", m.as_str())),
    }
}

/// Reads an instant from an RFC 3339 text.
pub fn timestamp(s: &str) -> (r: Result<Value, ExecutionError>)
    ensures
        error::outcome(r) == parse_result(s@),
{
    from_parsed(chrono_parse(s))
}

} // verus!
