//! Instants of UTC time, and the calendar questions that `chrono` answers about them.
use chrono::{DateTime, Datelike, TimeDelta, TimeZone, Timelike, Utc};
use vstd::prelude::*;

use crate::calendar;
use crate::calendar::Date;

verus! {

/// The first second that `chrono` represents: the start of year -262143.
pub const MIN_SECS: i64 = -8_334_601_228_800;

/// The last second that `chrono` represents: the end of year 262142.
pub const MAX_SECS: i64 = 8_210_266_876_799;

/// An instant of UTC time: whole seconds since 1970-01-01T00:00:00Z, and nanoseconds
/// since that second. As in `chrono`, the nanoseconds of a leap second run on from
/// 1,000,000,000 to 1,999,999,999.
#[derive(Debug, Clone, Copy, PartialEq, Eq, Structural)]
pub struct Timestamp {
    pub secs: i64,
    pub nanos: u32,
}

impl Timestamp {
    /// Within the range of `chrono::DateTime<Utc>`.
    pub open spec fn valid(self) -> bool {
        &&& MIN_SECS <= self.secs <= MAX_SECS
        &&& self.nanos < 2_000_000_000
        &&& self.secs == MAX_SECS ==> self.nanos < 1_000_000_000
    }

    /// The order of time.
    pub open spec fn before_or_at(self, other: Timestamp) -> bool {
        self.secs < other.secs || (self.secs == other.secs && self.nanos <= other.nanos)
    }

    /// Builds an instant, or `None` where `chrono` has none.
    pub fn new(secs: i64, nanos: u32) -> (t: Option<Timestamp>)
        ensures
            t == (if (Timestamp { secs, nanos }).valid() {
                Some(Timestamp { secs, nanos })
            } else {
                None
            }),
    {
        if MIN_SECS <= secs && secs <= MAX_SECS && nanos < 2_000_000_000 && (secs < MAX_SECS || nanos
            < 1_000_000_000) {
            Some(Timestamp { secs, nanos })
        } else {
            None
        }
    }

    /// Whether this instant is not later than `other`.
    pub fn at_or_before(&self, other: &Timestamp) -> (r: bool)
        ensures
            r == self.before_or_at(*other),
    {
        self.secs < other.secs || (self.secs == other.secs && self.nanos <= other.nanos)
    }
}

/// Number of the day that holds second `secs`, counted from 1970-01-01.
pub open spec fn day_of(secs: int) -> int {
    secs / 86_400
}

/// Hour of the day, 0 to 23.
pub open spec fn hour_of(secs: int) -> int {
    secs % 86_400 / 3_600
}

/// Minute of the hour, 0 to 59.
pub open spec fn minute_of(secs: int) -> int {
    secs % 3_600 / 60
}

/// The instant `span` nanoseconds (not negative) after `t`, as seconds and nanoseconds. A
/// leap second is left behind as if it were the second it extends, unless the sum still
/// lies within it.
pub open spec fn after_nanos(t: Timestamp, span: int) -> (int, int) {
    if t.nanos >= 1_000_000_000 && t.nanos + span < 2_000_000_000 {
        (t.secs as int, t.nanos + span)
    } else {
        let nanos = span + t.nanos as int % 1_000_000_000;
        (t.secs + nanos / 1_000_000_000, nanos % 1_000_000_000)
    }
}

/// Nanoseconds in the longest span that a `chrono::TimeDelta` holds.
pub open spec fn longest_span() -> int {
    i64::MAX * 1_000_000
}

/// What the clock can show: an instant since 1970, and no leap second.
pub open spec fn on_clock(t: Timestamp) -> bool {
    t.valid() && 0 <= t.secs && t.nanos < 1_000_000_000
}

/// A clock, and the instants that it has shown so far.
pub struct Clock {
    shown: Ghost<Seq<Timestamp>>,
}

impl View for Clock {
    type V = Seq<Timestamp>;

    closed spec fn view(&self) -> Seq<Timestamp> {
        self.shown@
    }
}

impl Clock {
    /// A clock that has not been read yet.
    pub(crate) fn new() -> (clock: Clock)
        ensures
            clock@ == Seq::<Timestamp>::empty(),
    {
        Clock { shown: Ghost(Seq::empty()) }
    }
}

/// `chrono::Utc::now`: reads the clock. Any instant since 1970 may come back, but no leap
/// second; a clock set before 1970 makes the call panic. What comes back is what the clock
/// has shown last. A clock can be set back, so that nothing is said of how two readings
/// compare.
#[verifier::external_body]
pub(crate) fn utc_now(clock: &mut Clock) -> (t: Timestamp)
    ensures
        on_clock(t),
        final(clock)@ == old(clock)@.push(t),
{
    let now = Utc::now();
    Timestamp { secs: now.timestamp(), nanos: now.timestamp_subsec_nanos() }
}

/// `chrono::DateTime::date_naive`: the calendar date of an instant.
#[verifier::external_body]
pub(crate) fn utc_date(t: Timestamp) -> (r: (i32, u32, u32))
    requires
        t.valid(),
    ensures
        (Date { year: r.0 as int, month: r.1 as int, day: r.2 as int }).valid(),
        (Date { year: r.0 as int, month: r.1 as int, day: r.2 as int }).number() == day_of(
            t.secs as int,
        ),
{
    let date = DateTime::from_timestamp(t.secs, 0).unwrap().date_naive();
    (date.year(), date.month(), date.day())
}

/// `chrono::Datelike::weekday`, as the number of days since Sunday.
#[verifier::external_body]
pub(crate) fn utc_weekday(t: Timestamp) -> (r: u32)
    requires
        t.valid(),
    ensures
        r == calendar::weekday_of(day_of(t.secs as int)),
{
    DateTime::from_timestamp(t.secs, 0).unwrap().weekday().num_days_from_sunday()
}

/// `chrono::Timelike::hour`.
#[verifier::external_body]
pub(crate) fn utc_hour(t: Timestamp) -> (r: u32)
    requires
        t.valid(),
    ensures
        r == hour_of(t.secs as int),
{
    DateTime::from_timestamp(t.secs, 0).unwrap().hour()
}

/// `chrono::Timelike::minute`.
#[verifier::external_body]
pub(crate) fn utc_minute(t: Timestamp) -> (r: u32)
    requires
        t.valid(),
    ensures
        r == minute_of(t.secs as int),
{
    DateTime::from_timestamp(t.secs, 0).unwrap().minute()
}

/// `chrono::Timelike::with_hour`: the same minute and second in another hour of the day,
/// or `None` where there is no such hour.
#[verifier::external_body]
pub(crate) fn utc_with_hour(t: Timestamp, hour: u32) -> (r: Option<Timestamp>)
    requires
        t.valid(),
    ensures
        r == ({
            let moved = Timestamp {
                secs: (t.secs - t.secs % 86_400 + hour * 3_600 + t.secs % 3_600) as i64,
                nanos: t.nanos,
            };
            if hour < 24 && moved.valid() {
                Some(moved)
            } else {
                None
            }
        }),
{
    let start = DateTime::from_timestamp(t.secs, 0).unwrap().with_nanosecond(t.nanos).unwrap();
    let d = start.with_hour(hour)?;
    Some(Timestamp { secs: d.timestamp(), nanos: d.timestamp_subsec_nanos() })
}

/// `chrono::Timelike::with_minute`: the same second in another minute of the hour, or
/// `None` where there is no such minute.
#[verifier::external_body]
pub(crate) fn utc_with_minute(t: Timestamp, minute: u32) -> (r: Option<Timestamp>)
    requires
        t.valid(),
    ensures
        r == ({
            let moved = Timestamp {
                secs: (t.secs - t.secs % 3_600 + minute * 60 + t.secs % 60) as i64,
                nanos: t.nanos,
            };
            if minute < 60 && moved.valid() {
                Some(moved)
            } else {
                None
            }
        }),
{
    let start = DateTime::from_timestamp(t.secs, 0).unwrap().with_nanosecond(t.nanos).unwrap();
    let d = start.with_minute(minute)?;
    Some(Timestamp { secs: d.timestamp(), nanos: d.timestamp_subsec_nanos() })
}

/// `chrono::Timelike::with_second`: another second of the same minute, or `None` where
/// there is no such second.
#[verifier::external_body]
pub(crate) fn utc_with_second(t: Timestamp, second: u32) -> (r: Option<Timestamp>)
    requires
        t.valid(),
    ensures
        r == ({
            let moved = Timestamp {
                secs: (t.secs - t.secs % 60 + second) as i64,
                nanos: t.nanos,
            };
            if second < 60 && moved.valid() {
                Some(moved)
            } else {
                None
            }
        }),
{
    let start = DateTime::from_timestamp(t.secs, 0).unwrap().with_nanosecond(t.nanos).unwrap();
    let d = start.with_second(second)?;
    Some(Timestamp { secs: d.timestamp(), nanos: d.timestamp_subsec_nanos() })
}

/// `chrono::Timelike::with_nanosecond`: the same second with another fraction, or `None`
/// where the fraction is out of range.
#[verifier::external_body]
pub(crate) fn utc_with_nanosecond(t: Timestamp, nanos: u32) -> (r: Option<Timestamp>)
    requires
        t.valid(),
    ensures
        r == (if (Timestamp { secs: t.secs, nanos }).valid() {
            Some(Timestamp { secs: t.secs, nanos })
        } else {
            None
        }),
{
    let start = DateTime::from_timestamp(t.secs, 0).unwrap().with_nanosecond(t.nanos).unwrap();
    let d = start.with_nanosecond(nanos)?;
    Some(Timestamp { secs: d.timestamp(), nanos: d.timestamp_subsec_nanos() })
}

/// `chrono::TimeZone::with_ymd_and_hms` on `Utc`: the instant at which a clock shows this
/// date and time, or `None` where the date or the time does not exist or the year is out
/// of `chrono`'s range.
#[verifier::external_body]
pub(crate) fn utc_with_ymd_and_hms(
    year: i32,
    month: u32,
    day: u32,
    hour: u32,
    minute: u32,
    second: u32,
) -> (r: Option<Timestamp>)
    ensures
        r == ({
            let date = Date { year: year as int, month: month as int, day: day as int };
            if -262143 <= year <= 262142 && date.valid() && hour < 24 && minute < 60 && second
                < 60 {
                Some(
                    Timestamp {
                        secs: (date.number() * 86_400 + hour * 3_600 + minute * 60 + second) as i64,
                        nanos: 0,
                    },
                )
            } else {
                None
            }
        }),
{
    let d = Utc.with_ymd_and_hms(year, month, day, hour, minute, second).single()?;
    Some(Timestamp { secs: d.timestamp(), nanos: d.timestamp_subsec_nanos() })
}

/// `chrono::DateTime::checked_add_signed` with a span that is not negative, given as whole
/// seconds and nanoseconds; `None` where the sum leaves `chrono`'s range.
#[verifier::external_body]
pub(crate) fn utc_checked_add(t: Timestamp, secs: i64, nanos: u32) -> (r: Option<Timestamp>)
    requires
        t.valid(),
        0 <= secs,
        nanos < 1_000_000_000,
        secs * 1_000_000_000 + nanos <= longest_span(),
    ensures
        r == ({
            let (s, n) = after_nanos(t, secs * 1_000_000_000 + nanos);
            if s <= MAX_SECS {
                Some(Timestamp { secs: s as i64, nanos: n as u32 })
            } else {
                None
            }
        }),
{
    let start = DateTime::from_timestamp(t.secs, 0).unwrap().with_nanosecond(t.nanos).unwrap();
    let d = start.checked_add_signed(TimeDelta::new(secs, nanos).unwrap())?;
    Some(Timestamp { secs: d.timestamp(), nanos: d.timestamp_subsec_nanos() })
}

/// `chrono::TimeDelta::from_std`: the same span, as whole seconds and nanoseconds, or `None`
/// where that is more than a `TimeDelta` holds.
#[verifier::external_body]
pub(crate) fn span_from_std(secs: u64, nanos: u32) -> (r: Option<(i64, u32)>)
    requires
        nanos < 1_000_000_000,
    ensures
        r == (if secs * 1_000_000_000 + nanos <= longest_span() {
            Some((secs as i64, nanos))
        } else {
            None
        }),
{
    match TimeDelta::from_std(std::time::Duration::new(secs, nanos)) {
        Ok(span) => Some((span.num_seconds(), span.subsec_nanos() as u32)),
        Err(_) => None,
    }
}

} // verus!
