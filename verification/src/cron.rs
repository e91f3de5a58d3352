//! Five-field cron expressions (`minute hour day-of-month month day-of-week`) and the
//! next time at which one of them fires.
//!
//! Every field takes `*`, comma-separated lists (`1,15,30`), ranges (`9-17`) and steps
//! (`*/5`, `1-30/5`). Names of months and weekdays, `@daily`-style shorthands and seconds
//! are not supported. The day of the week is `0` to `6`, with `0` for Sunday.
use std::collections::BTreeSet;

use vstd::prelude::*;

use crate::calendar;
use crate::cron_error::{field_error, CronError, CronErrorKind, CronField};
use crate::cron_field;
use crate::cron_field::parse_field;
use crate::steps;
use crate::steps::{
    start_of_next_day, start_of_next_hour, start_of_next_month, truncate_to_minute,
};
use crate::text;
use crate::text::{same_text, split_words};
use crate::timestamp;
use crate::timestamp::{
    utc_checked_add, utc_date, utc_hour, utc_minute, utc_weekday, Timestamp, MAX_SECS,
};

verus! {

/// How far `CronSchedule::next_after` looks: five years of 366 days, in seconds.
pub const HORIZON_SECS: i64 = 158_112_000;

/// What a cron expression means: the allowed values of each field, and which of the two
/// day fields were written as `*`.
pub struct Schedule {
    pub minute: Set<u32>,
    pub hour: Set<u32>,
    pub day_of_month: Set<u32>,
    pub month: Set<u32>,
    pub day_of_week: Set<u32>,
    pub dom_is_wildcard: bool,
    pub dow_is_wildcard: bool,
    pub source: Seq<char>,
}

impl Schedule {
    /// When both day fields are restricted, a day that either of them names matches.
    pub open spec fn day_matches(self, day_of_month: u32, day_of_week: u32) -> bool {
        if self.dom_is_wildcard && self.dow_is_wildcard {
            true
        } else if self.dow_is_wildcard {
            self.day_of_month.contains(day_of_month)
        } else if self.dom_is_wildcard {
            self.day_of_week.contains(day_of_week)
        } else {
            self.day_of_month.contains(day_of_month) || self.day_of_week.contains(day_of_week)
        }
    }

    /// Whether day `day`, counted from 1970-01-01, is one on which the schedule fires.
    pub open spec fn fires_on(self, day: int) -> bool {
        &&& self.month.contains(calendar::date_of(day).month as u32)
        &&& self.day_matches(
            calendar::date_of(day).day as u32,
            calendar::weekday_of(day) as u32,
        )
    }

    /// Whether the schedule fires at second `secs` since 1970-01-01T00:00:00Z.
    pub open spec fn fires_at(self, secs: int) -> bool {
        &&& secs % 60 == 0
        &&& self.fires_on(timestamp::day_of(secs))
        &&& self.hour.contains(timestamp::hour_of(secs) as u32)
        &&& self.minute.contains(timestamp::minute_of(secs) as u32)
    }

    /// The schedule does not fire after second `from`, up to and including second `to`.
    pub open spec fn silent(self, from: int, to: int) -> bool {
        forall|s: int| from < s <= to ==> !#[trigger] self.fires_at(s)
    }

    /// `t` is the first time after second `from` at which the schedule fires.
    pub open spec fn is_next(self, from: int, t: int) -> bool {
        from < t && self.fires_at(t) && self.silent(from, t - 1)
    }
}

impl Schedule {
    /// The schedule fires on whole minutes only.
    proof fn lemma_silent_to_minute(self, from: int, next: int)
        requires
            next == from + 60 - (from + 60) % 60,
        ensures
            self.silent(from, next - 1),
    {
    }

    /// A month that the schedule does not name is silent to its end.
    proof fn lemma_skip_month(self, secs: int)
        requires
            calendar::date_of(timestamp::day_of(secs)).valid(),
            calendar::date_of(timestamp::day_of(secs)).number() == timestamp::day_of(secs),
            !self.month.contains(calendar::date_of(timestamp::day_of(secs)).month as u32),
        ensures
            self.silent(secs - 1, steps::next_month_secs(secs) - 1),
    {
        let date = calendar::date_of(timestamp::day_of(secs));
        calendar::lemma_date_in_month(date);
        assert forall|s: int| secs - 1 < s <= steps::next_month_secs(secs) - 1 implies !#[trigger]
        self.fires_at(s) by {
            assert(timestamp::day_of(secs) <= timestamp::day_of(s));
            assert(timestamp::day_of(s) < calendar::month_start(calendar::month_index(date) + 1));
            calendar::lemma_date_of_within_month(date, timestamp::day_of(s));
        }
    }

    /// A day that the schedule does not name is silent to its end.
    proof fn lemma_skip_day(self, secs: int)
        requires
            !self.fires_on(timestamp::day_of(secs)),
        ensures
            self.silent(secs - 1, steps::next_day_secs(secs) - 1),
    {
        assert forall|s: int| secs - 1 < s <= steps::next_day_secs(secs) - 1 implies !#[trigger]
        self.fires_at(s) by {
            assert(timestamp::day_of(s) == timestamp::day_of(secs));
        }
    }

    /// An hour that the schedule does not name is silent to its end.
    proof fn lemma_skip_hour(self, secs: int)
        requires
            !self.hour.contains(timestamp::hour_of(secs) as u32),
        ensures
            self.silent(secs - 1, steps::next_hour_secs(secs) - 1),
    {
        let (day, hour, min, sec) = steps::lemma_split(secs);
        steps::lemma_at(day, hour, min, sec);
        assert forall|s: int| secs - 1 < s <= steps::next_hour_secs(secs) - 1 implies !#[trigger]
        self.fires_at(s) by {
            let (d, h, m, c) = steps::lemma_split(s);
            steps::lemma_at(d, h, m, c);
            assert(d == day && h == hour);
        }
    }
}

/// The meaning of an expression, or why it has none. Of several bad fields the first
/// decides.
pub open spec fn meaning(expr: Seq<char>) -> Result<Schedule, (CronErrorKind, Seq<char>)> {
    let fields = text::words(expr);
    if fields.len() != 5 {
        Err((CronErrorKind::FieldCount { found: fields.len() as usize }, expr))
    } else {
        match cron_field::field_values(fields[0], 0, 59) {
            Err((problem, t)) => Err(
                (CronErrorKind::Field { field: CronField::Minute, problem }, t),
            ),
            Ok(minute) => match cron_field::field_values(fields[1], 0, 23) {
                Err((problem, t)) => Err(
                    (CronErrorKind::Field { field: CronField::Hour, problem }, t),
                ),
                Ok(hour) => match cron_field::field_values(fields[2], 1, 31) {
                    Err((problem, t)) => Err(
                        (CronErrorKind::Field { field: CronField::DayOfMonth, problem }, t),
                    ),
                    Ok(day_of_month) => match cron_field::field_values(fields[3], 1, 12) {
                        Err((problem, t)) => Err(
                            (CronErrorKind::Field { field: CronField::Month, problem }, t),
                        ),
                        Ok(month) => match cron_field::field_values(fields[4], 0, 6) {
                            Err((problem, t)) => Err(
                                (CronErrorKind::Field { field: CronField::DayOfWeek, problem }, t),
                            ),
                            Ok(day_of_week) => Ok(
                                Schedule {
                                    minute,
                                    hour,
                                    day_of_month,
                                    month,
                                    day_of_week,
                                    dom_is_wildcard: fields[2] == seq!['*'],
                                    dow_is_wildcard: fields[4] == seq!['*'],
                                    source: expr,
                                },
                            ),
                        },
                    },
                },
            },
        }
    }
}

/// A parsed cron expression, expanded into the allowed values of each field.
#[derive(Debug, Clone)]
pub struct CronSchedule {
    minute: BTreeSet<u32>,
    hour: BTreeSet<u32>,
    day_of_month: BTreeSet<u32>,
    month: BTreeSet<u32>,
    day_of_week: BTreeSet<u32>,
    // `1-31` and `*` name the same days, but only `*` leaves the choice of days to the
    // other day field.
    dom_is_wildcard: bool,
    dow_is_wildcard: bool,
    source: String,
}

impl View for CronSchedule {
    type V = Schedule;

    closed spec fn view(&self) -> Schedule {
        Schedule {
            minute: self.minute@,
            hour: self.hour@,
            day_of_month: self.day_of_month@,
            month: self.month@,
            day_of_week: self.day_of_week@,
            dom_is_wildcard: self.dom_is_wildcard,
            dow_is_wildcard: self.dow_is_wildcard,
            source: self.source@,
        }
    }
}

impl CronSchedule {
    /// Parses a five-field cron expression. An error names the offending field.
    pub fn parse(expr: &str) -> (r: Result<Self, CronError>)
        ensures
            match r {
                Ok(schedule) => meaning(expr@) == Ok::<_, (CronErrorKind, Seq<char>)>(schedule@),
                Err(e) => meaning(expr@) == Err::<Schedule, _>((e.kind, e.text@)),
            },
    {
        let fields = split_words(expr);
        let ghost texts = text::words(expr@);
        assert(texts == fields@.map_values(|w: &str| w@));
        if fields.len() != 5 {
            return Err(
                CronError {
                    kind: CronErrorKind::FieldCount { found: fields.len() },
                    text: expr.to_owned(),
                },
            );
        }
        assert(forall|i: int| 0 <= i < 5 ==> texts[i] == (#[trigger] fields@[i])@);
        let minute = match parse_field(fields[0], 0, 59) {
            Ok(values) => values,
            Err(e) => {
                return Err(field_error(CronField::Minute, e));
            },
        };
        let hour = match parse_field(fields[1], 0, 23) {
            Ok(values) => values,
            Err(e) => {
                return Err(field_error(CronField::Hour, e));
            },
        };
        let day_of_month = match parse_field(fields[2], 1, 31) {
            Ok(values) => values,
            Err(e) => {
                return Err(field_error(CronField::DayOfMonth, e));
            },
        };
        let month = match parse_field(fields[3], 1, 12) {
            Ok(values) => values,
            Err(e) => {
                return Err(field_error(CronField::Month, e));
            },
        };
        let day_of_week = match parse_field(fields[4], 0, 6) {
            Ok(values) => values,
            Err(e) => {
                return Err(field_error(CronField::DayOfWeek, e));
            },
        };
        proof {
            reveal_strlit("*");
            assert("*"@ == seq!['*']);
        }
        Ok(
            CronSchedule {
                dom_is_wildcard: same_text(fields[2], "*"),
                dow_is_wildcard: same_text(fields[4], "*"),
                minute,
                hour,
                day_of_month,
                month,
                day_of_week,
                source: expr.to_owned(),
            },
        )
    }

    /// The expression this was parsed from.
    pub fn source(&self) -> (r: &str)
        ensures
            r@ == self@.source,
    {
        self.source.as_str()
    }

    /// Whether the day fields allow this day.
    pub fn day_matches(&self, day_of_month: u32, day_of_week: u32) -> (r: bool)
        ensures
            r == self@.day_matches(day_of_month, day_of_week),
    {
        match (self.dom_is_wildcard, self.dow_is_wildcard) {
            (true, true) => true,
            (false, true) => self.day_of_month.contains(&day_of_month),
            (true, false) => self.day_of_week.contains(&day_of_week),
            (false, false) => {
                self.day_of_month.contains(&day_of_month) || self.day_of_week.contains(&day_of_week)
            },
        }
    }

    /// The next time strictly after `from` at which this schedule fires, to the minute.
    /// The search ends five years out, so that an expression that can never match
    /// (`0 0 30 2 *`: there is no 30th of February) gives an error.
    pub fn next_after(&self, from: Timestamp) -> (r: Result<Timestamp, CronError>)
        requires
            from.valid(),
            from.secs + HORIZON_SECS <= MAX_SECS,
        ensures
            match r {
                Ok(t) => {
                    &&& t.valid()
                    &&& t.nanos == 0
                    &&& t.secs <= from.secs + HORIZON_SECS
                    &&& self@.is_next(from.secs as int, t.secs as int)
                },
                Err(e) => {
                    &&& e.kind == CronErrorKind::NoRunTime
                    &&& e.text@ == self@.source
                    &&& self@.silent(from.secs as int, from.secs + HORIZON_SECS)
                },
            },
    {
        let none = CronError { kind: CronErrorKind::NoRunTime, text: self.source.clone() };
        let (soon, limit) = match (
            utc_checked_add(from, 60, 0),
            utc_checked_add(from, HORIZON_SECS, 0),
        ) {
            (Some(soon), Some(limit)) => (soon, limit),
            _ => {
                return Err(none);
            },
        };
        assert(limit.secs == from.secs + HORIZON_SECS);
        let mut candidate = truncate_to_minute(soon);
        proof {
            self@.lemma_silent_to_minute(from.secs as int, candidate.secs as int);
        }
        while candidate.at_or_before(&limit)
            invariant
                candidate.valid(),
                candidate.nanos == 0,
                candidate.secs % 60 == 0,
                from.secs < candidate.secs,
                limit.valid(),
                limit.secs == from.secs + HORIZON_SECS,
                limit.secs <= MAX_SECS,
                self@.silent(from.secs as int, candidate.secs - 1),
                none.kind == CronErrorKind::NoRunTime,
                none.text@ == self@.source,
            decreases MAX_SECS - candidate.secs,
        {
            let ghost now = candidate.secs as int;
            let (y, m, d): (i32, u32, u32) = utc_date(candidate);
            let ghost date = calendar::Date { year: y as int, month: m as int, day: d as int };
            proof {
                calendar::lemma_date_of(date);
            }
            let next: Option<Timestamp> = if !self.month.contains(&m) {
                proof {
                    self@.lemma_skip_month(now);
                }
                start_of_next_month(candidate)
            } else if !self.day_matches(d, utc_weekday(candidate)) {
                proof {
                    self@.lemma_skip_day(now);
                }
                start_of_next_day(candidate)
            } else if !self.hour.contains(&utc_hour(candidate)) {
                proof {
                    self@.lemma_skip_hour(now);
                }
                start_of_next_hour(candidate)
            } else if !self.minute.contains(&utc_minute(candidate)) {
                proof {
                    self@.lemma_silent_to_minute(now, now + 60);
                }
                utc_checked_add(candidate, 60, 0)
            } else {
                return Ok(candidate);
            };
            match next {
                Some(t) => {
                    candidate = t;
                },
                None => {
                    return Err(none);
                },
            }
        }
        Err(none)
    }
}

} // verus!
