//! Stepping through the calendar: from an instant to the start of its minute, and to
//! the start of the next hour, day or month.
use vstd::prelude::*;

use crate::calendar;
use crate::calendar::Date;
use crate::timestamp;
use crate::timestamp::{
    utc_checked_add, utc_date, utc_with_hour, utc_with_minute, utc_with_nanosecond,
    utc_with_second, utc_with_ymd_and_hms, Timestamp, MAX_SECS, MIN_SECS,
};

verus! {

/// The first second of the month that follows the month of `secs`.
pub open spec fn next_month_secs(secs: int) -> int {
    let date = calendar::date_of(timestamp::day_of(secs));
    calendar::month_start(calendar::month_index(date) + 1) * 86_400
}

/// The first second of the day that follows the day of `secs`.
pub open spec fn next_day_secs(secs: int) -> int {
    secs - secs % 86_400 + 86_400
}

/// The first second of the hour that follows the hour of `secs`.
pub open spec fn next_hour_secs(secs: int) -> int {
    secs - secs % 3_600 + 3_600
}

/// The instant at the start of second `secs`, unless that lies past the last second that
/// `chrono` represents.
pub open spec fn instant_at(secs: int) -> Option<Timestamp> {
    if secs <= MAX_SECS {
        Some(Timestamp { secs: secs as i64, nanos: 0 })
    } else {
        None
    }
}

/// A month lies within `chrono`'s range exactly when its year does.
proof fn lemma_month_range(index: int)
    ensures
        index / 12 >= -262143 ==> MIN_SECS <= calendar::month_start(index) * 86_400,
        index / 12 <= 262142 ==> calendar::month_start(index + 1) * 86_400 <= MAX_SECS + 1,
        index / 12 > 262142 ==> calendar::month_start(index) * 86_400 > MAX_SECS,
{
    let first = -262143int * 12;
    let last = 262143int * 12;
    assert(calendar::month_start(first) == calendar::days_before_year(-262143)
        - calendar::epoch_offset());
    assert(calendar::month_start(last) == calendar::days_before_year(262143)
        - calendar::epoch_offset());
    if first < index {
        calendar::lemma_month_starts_ordered(first, index);
        calendar::lemma_month_length(first);
    }
    if index + 1 < last {
        calendar::lemma_month_starts_ordered(index + 1, last);
        calendar::lemma_month_length(index + 1);
    }
    if last < index {
        calendar::lemma_month_starts_ordered(last, index);
        calendar::lemma_month_length(last);
    }
}

/// Second `sec` of minute `min` of hour `hour` of day `day`.
pub open spec fn at(day: int, hour: int, min: int, sec: int) -> int {
    day * 86_400 + hour * 3_600 + min * 60 + sec
}

/// What is left of an instant after its whole days, hours and minutes.
pub proof fn lemma_at(day: int, hour: int, min: int, sec: int)
    requires
        0 <= hour < 24,
        0 <= min < 60,
        0 <= sec < 60,
    ensures
        at(day, hour, min, sec) / 86_400 == day,
        at(day, hour, min, sec) % 86_400 == hour * 3_600 + min * 60 + sec,
        at(day, hour, min, sec) % 3_600 == min * 60 + sec,
        at(day, hour, min, sec) % 60 == sec,
        timestamp::hour_of(at(day, hour, min, sec)) == hour,
        timestamp::minute_of(at(day, hour, min, sec)) == min,
{
    let x = at(day, hour, min, sec);
    vstd::arithmetic::div_mod::lemma_fundamental_div_mod_converse(
        x,
        86_400,
        day,
        hour * 3_600 + min * 60 + sec,
    );
    vstd::arithmetic::div_mod::lemma_fundamental_div_mod_converse(
        x,
        3_600,
        day * 24 + hour,
        min * 60 + sec,
    );
    vstd::arithmetic::div_mod::lemma_fundamental_div_mod_converse(
        x,
        60,
        day * 1_440 + hour * 60 + min,
        sec,
    );
    vstd::arithmetic::div_mod::lemma_fundamental_div_mod_converse(
        hour * 3_600 + min * 60 + sec,
        3_600,
        hour,
        min * 60 + sec,
    );
    vstd::arithmetic::div_mod::lemma_fundamental_div_mod_converse(
        min * 60 + sec,
        60,
        min,
        sec,
    );
}

/// Every second has a day, an hour, a minute and a second of the minute.
pub proof fn lemma_split(secs: int) -> (r: (int, int, int, int))
    ensures
        0 <= r.1 < 24,
        0 <= r.2 < 60,
        0 <= r.3 < 60,
        secs == at(r.0, r.1, r.2, r.3),
{
    let in_day = secs % 86_400;
    let in_hour = in_day % 3_600;
    (secs / 86_400, in_day / 3_600, in_hour / 60, in_hour % 60)
}

/// The start of the minute of `t`.
pub fn truncate_to_minute(t: Timestamp) -> (r: Timestamp)
    requires
        t.valid(),
    ensures
        r == (Timestamp { secs: (t.secs - t.secs % 60) as i64, nanos: 0 }),
        r.valid(),
{
    match utc_with_second(t, 0) {
        Some(d) => match utc_with_nanosecond(d, 0) {
            Some(d) => d,
            None => t,
        },
        None => t,
    }
}

/// The first instant of the month that follows the month of `t`.
pub fn start_of_next_month(t: Timestamp) -> (r: Option<Timestamp>)
    requires
        t.valid(),
    ensures
        r == instant_at(next_month_secs(t.secs as int)),
        r matches Some(n) ==> n.valid(),
        t.secs < next_month_secs(t.secs as int),
{
    let (y, m, d): (i32, u32, u32) = utc_date(t);
    let ghost date = Date { year: y as int, month: m as int, day: d as int };
    let ghost index = calendar::month_index(date);
    proof {
        calendar::lemma_date_of(date);
        calendar::lemma_date_in_month(date);
        lemma_month_range(index);
        lemma_month_range(index + 1);
        calendar::lemma_month_length(index + 1);
        if y < -262143 {
            calendar::lemma_month_starts_ordered(index, -262143 * 12);
            lemma_month_range(-262143 * 12);
        }
    }
    if m == 12 {
        assert((index + 1) / 12 == y + 1 && (index + 1) % 12 == 0);
        utc_with_ymd_and_hms(y + 1, 1, 1, 0, 0, 0)
    } else {
        assert((index + 1) / 12 == y && (index + 1) % 12 == m);
        utc_with_ymd_and_hms(y, m + 1, 1, 0, 0, 0)
    }
}

/// The first instant of the day that follows the day of `t`.
pub fn start_of_next_day(t: Timestamp) -> (r: Option<Timestamp>)
    requires
        t.valid(),
    ensures
        r == instant_at(next_day_secs(t.secs as int)),
        r matches Some(n) ==> n.valid(),
        t.secs < next_day_secs(t.secs as int),
{
    proof {
        let (day, hour, min, sec) = lemma_split(t.secs as int);
        lemma_at(day, hour, min, sec);
        lemma_at(day + 1, hour, min, sec);
        lemma_at(day + 1, 0, min, sec);
        lemma_at(day + 1, 0, 0, sec);
    }
    let next = utc_checked_add(t, 86_400, 0)?;
    assert(next.secs == t.secs + 86_400);
    let hour = utc_with_hour(next, 0)?;
    let minute = utc_with_minute(hour, 0)?;
    let second = utc_with_second(minute, 0)?;
    utc_with_nanosecond(second, 0)
}

/// The first instant of the hour that follows the hour of `t`.
pub fn start_of_next_hour(t: Timestamp) -> (r: Option<Timestamp>)
    requires
        t.valid(),
    ensures
        r == instant_at(next_hour_secs(t.secs as int)),
        r matches Some(n) ==> n.valid(),
        t.secs < next_hour_secs(t.secs as int),
{
    proof {
        let (day, hour, min, sec) = lemma_split(t.secs as int);
        lemma_at(day, hour, min, sec);
        if hour < 23 {
            lemma_at(day, hour + 1, min, sec);
            lemma_at(day, hour + 1, 0, sec);
        } else {
            lemma_at(day + 1, 0, min, sec);
            lemma_at(day + 1, 0, 0, sec);
        }
    }
    let next = utc_checked_add(t, 3_600, 0)?;
    assert(next.secs == t.secs + 3_600);
    let minute = utc_with_minute(next, 0)?;
    let second = utc_with_second(minute, 0)?;
    utc_with_nanosecond(second, 0)
}

} // verus!
