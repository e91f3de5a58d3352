use chrono::{DateTime, Datelike, TimeZone, Timelike, Utc};
use pgqueue::cron::HORIZON_SECS;
use pgqueue::cron_error::{CronErrorKind, CronField};
use pgqueue::cron_field::{parse_field, FieldProblem};
use pgqueue::text::NumberProblem;
use pgqueue::timestamp::{MAX_SECS, MIN_SECS};
use pgqueue::{CronSchedule, Timestamp};

fn dt(y: i32, mo: u32, d: u32, h: u32, mi: u32) -> Timestamp {
    let t = Utc.with_ymd_and_hms(y, mo, d, h, mi, 0).unwrap();
    Timestamp::new(t.timestamp(), t.timestamp_subsec_nanos()).unwrap()
}

fn utc(t: Timestamp) -> DateTime<Utc> {
    DateTime::from_timestamp(t.secs, t.nanos).unwrap()
}

#[test]
fn every_minute() {
    let s = CronSchedule::parse("* * * * *").unwrap();
    let from = dt(2026, 1, 1, 12, 30);
    assert_eq!(s.next_after(from).unwrap(), dt(2026, 1, 1, 12, 31));
}

#[test]
fn every_15_minutes_step() {
    let s = CronSchedule::parse("*/15 * * * *").unwrap();
    assert_eq!(
        s.next_after(dt(2026, 1, 1, 12, 1)).unwrap(),
        dt(2026, 1, 1, 12, 15)
    );
    assert_eq!(
        s.next_after(dt(2026, 1, 1, 12, 45)).unwrap(),
        dt(2026, 1, 1, 13, 0),
        "step wraps into the next hour"
    );
}

#[test]
fn daily_at_specific_time() {
    let s = CronSchedule::parse("30 3 * * *").unwrap();
    assert_eq!(
        s.next_after(dt(2026, 1, 1, 12, 0)).unwrap(),
        dt(2026, 1, 2, 3, 30),
        "already past 3:30am today, so tomorrow"
    );
    assert_eq!(
        s.next_after(dt(2026, 1, 1, 1, 0)).unwrap(),
        dt(2026, 1, 1, 3, 30),
        "still before 3:30am today"
    );
}

#[test]
fn weekday_range_business_hours() {
    // 9am on weekdays (Mon-Fri = 1-5).
    let s = CronSchedule::parse("0 9 * * 1-5").unwrap();
    // 2026-01-02 is a Friday.
    assert_eq!(utc(dt(2026, 1, 2, 0, 0)).weekday(), chrono::Weekday::Fri);
    // From Friday 10am, next match should skip the weekend to Monday.
    let next = s.next_after(dt(2026, 1, 2, 10, 0)).unwrap();
    assert_eq!(utc(next).weekday(), chrono::Weekday::Mon);
    assert_eq!(next, dt(2026, 1, 5, 9, 0));
}

#[test]
fn day_of_month_and_day_of_week_are_ored_when_both_restricted() {
    // The 1st of the month OR any Sunday - cron's OR rule when both
    // fields are non-wildcard.
    let s = CronSchedule::parse("0 0 1 * 0").unwrap();
    // 2026-01-04 is a Sunday, before the 1st-of-month case in Feb.
    let next = s.next_after(dt(2026, 1, 2, 0, 0)).unwrap();
    assert_eq!(next, dt(2026, 1, 4, 0, 0), "hits Sunday the 4th, not just the 1st");
}

#[test]
fn list_of_specific_minutes() {
    let s = CronSchedule::parse("0,30 * * * *").unwrap();
    assert_eq!(
        s.next_after(dt(2026, 1, 1, 12, 10)).unwrap(),
        dt(2026, 1, 1, 12, 30)
    );
}

#[test]
fn rejects_wrong_field_count() {
    assert!(CronSchedule::parse("* * * *").is_err());
    assert!(CronSchedule::parse("* * * * * *").is_err());
}

#[test]
fn rejects_out_of_range_values() {
    assert!(CronSchedule::parse("60 * * * *").is_err(), "minute 60 is invalid");
    assert!(CronSchedule::parse("* 24 * * *").is_err(), "hour 24 is invalid");
    assert!(CronSchedule::parse("* * 32 * *").is_err(), "day 32 is invalid");
    assert!(CronSchedule::parse("* * * 13 *").is_err(), "month 13 is invalid");
    assert!(CronSchedule::parse("* * * * 7").is_err(), "day-of-week 7 is invalid (0-6 only)");
}

#[test]
fn rejects_impossible_date_instead_of_hanging() {
    // Day-of-month 30 combined with only February selected can never
    // match (Feb has at most 29 days) - must return an error quickly,
    // not loop for the full 5-year search bound silently forever.
    let s = CronSchedule::parse("0 0 30 2 *").unwrap();
    assert!(s.next_after(dt(2026, 1, 1, 0, 0)).is_err());
}

#[test]
fn leap_day_is_found() {
    let s = CronSchedule::parse("0 0 29 2 *").unwrap();
    let next = s.next_after(dt(2026, 1, 1, 0, 0)).unwrap();
    assert_eq!(next, dt(2028, 2, 29, 0, 0), "2028 is the next leap year after 2026");
}

fn kind_of(expr: &str) -> (CronErrorKind, String) {
    let e = CronSchedule::parse(expr).unwrap_err();
    (e.kind, e.text)
}

fn bad(field: CronField, problem: FieldProblem, text: &str) -> (CronErrorKind, String) {
    (CronErrorKind::Field { field, problem }, text.to_string())
}

#[test]
fn wrong_field_count_says_how_many_were_found() {
    assert_eq!(kind_of(""), (CronErrorKind::FieldCount { found: 0 }, "".to_string()));
    assert_eq!(
        kind_of(" * * * * "),
        (CronErrorKind::FieldCount { found: 4 }, " * * * * ".to_string())
    );
    let e = CronSchedule::parse("* * * * * *").unwrap_err();
    assert_eq!(
        e.message(),
        "cron expression '* * * * * *' must have exactly 5 space-separated fields \
         (minute hour day-of-month month day-of-week), found 6"
    );
    assert_eq!(e.cause(), None);
}

#[test]
fn errors_name_the_field_and_the_segment() {
    assert_eq!(
        kind_of("60 * * * *"),
        bad(CronField::Minute, FieldProblem::OutOfRange { min: 0, max: 59 }, "60")
    );
    assert_eq!(kind_of("* 1,,2 * * *"), bad(CronField::Hour, FieldProblem::EmptySegment, "1,,2"));
    let why = NumberProblem::InvalidDigit;
    assert_eq!(
        kind_of("* * 1-5/x * *"),
        bad(CronField::DayOfMonth, FieldProblem::InvalidStep { why }, "1-5/x")
    );
    assert_eq!(kind_of("* * * */0 *"), bad(CronField::Month, FieldProblem::ZeroStep, "*/0"));
    assert_eq!(
        kind_of("* * * * MON"),
        bad(CronField::DayOfWeek, FieldProblem::NotAValue { why }, "MON")
    );
    let why = NumberProblem::Empty;
    assert_eq!(
        kind_of("-5 * * * *"),
        bad(CronField::Minute, FieldProblem::InvalidRangeStart { why }, "-5")
    );
    assert_eq!(
        kind_of("5- * * * *"),
        bad(CronField::Minute, FieldProblem::InvalidRangeEnd { why }, "5-")
    );
    assert_eq!(kind_of("3,9-4 * * * *"), bad(CronField::Minute, FieldProblem::ReversedRange, "9-4"));
    assert_eq!(
        kind_of("* * 0 * *"),
        bad(CronField::DayOfMonth, FieldProblem::OutOfRange { min: 1, max: 31 }, "0")
    );
    assert_eq!(
        kind_of("99 99 99 99 99"),
        bad(CronField::Minute, FieldProblem::OutOfRange { min: 0, max: 59 }, "99"),
        "of several bad fields the first decides"
    );
    assert_eq!(
        kind_of("4294967296 * * * *"),
        bad(
            CronField::Minute,
            FieldProblem::NotAValue { why: NumberProblem::TooLarge },
            "4294967296"
        ),
        "more than 32 bits hold is no number"
    );
}

#[test]
fn error_messages() {
    let words = |expr: &str| {
        let e = CronSchedule::parse(expr).unwrap_err();
        (e.message(), e.cause().unwrap())
    };
    let expected = |a: &str, b: &str| (a.to_string(), b.to_string());
    assert_eq!(
        words("60 * * * *"),
        expected("minute field", "value(s) in '60' out of range 0..=59")
    );
    assert_eq!(words("* , * * *"), expected("hour field", "empty segment in field ','"));
    assert_eq!(
        words("* * */x/y * *"),
        expected("day-of-month field", "invalid step 'x/y' in '*/x/y'")
    );
    assert_eq!(words("* * * 1/0 *"), expected("month field", "step of 0 in '1/0' is not valid"));
    assert_eq!(
        words("* * * * x"),
        expected(
            "day-of-week field (0=Sunday)",
            "'x' is not '*', a number, a range, or a step"
        )
    );
    assert_eq!(words("a-b * * * *"), expected("minute field", "invalid range start in 'a-b'"));
    assert_eq!(words("1-b * * * *"), expected("minute field", "invalid range end in '1-b'"));
    assert_eq!(words("2-1 * * * *"), expected("minute field", "range '2-1' has start > end"));
    let e = parse_field("*", 5, 3).unwrap_err();
    assert_eq!(e.problem, FieldProblem::NoValues);
    assert_eq!(e.message(), "field '*' produced no valid values");
}

#[test]
fn bad_numbers_have_a_root_cause() {
    let root = |expr: &str| CronSchedule::parse(expr).unwrap_err().root_cause();
    let std = |s: &str| s.parse::<u32>().unwrap_err().to_string();
    assert_eq!(root("*/x * * * *"), Some(std("x").as_str()));
    assert_eq!(root("-5 * * * *"), Some(std("").as_str()));
    assert_eq!(root("1-99999999999 * * * *"), Some(std("99999999999").as_str()));
    assert_eq!(root("* MON * * *"), Some("invalid digit found in string"));
    assert_eq!(root("60 * * * *"), None);
    assert_eq!(root("* * * *"), None);
}

#[test]
fn a_list_reads_well_exactly_if_its_parts_do() {
    for (a, b) in [("1", "2-4"), ("x", "2"), ("2", "x"), ("*/0", "9-1"), ("", "1"), ("*", "*/7")] {
        let joined = parse_field(&format!("{a},{b}"), 0, 59);
        match (parse_field(a, 0, 59), parse_field(b, 0, 59)) {
            (Ok(x), Ok(y)) => assert_eq!(joined.unwrap(), x.union(&y).copied().collect()),
            _ => assert!(joined.is_err(), "{a},{b}"),
        }
    }
}

#[test]
fn no_run_time_is_an_error_with_the_expression() {
    let s = CronSchedule::parse("0 0 30 2 *").unwrap();
    let e = s.next_after(dt(2026, 1, 1, 0, 0)).unwrap_err();
    assert_eq!(e.kind, CronErrorKind::NoRunTime);
    assert_eq!(
        e.message(),
        "cron expression '0 0 30 2 *' has no matching run time in the next 5 years \
         (check for an impossible day, e.g. day-of-month 30 in February)"
    );
    assert_eq!(e.cause(), None);
}

#[test]
fn fields_are_sets_of_values() {
    let values = |field: &str| -> Vec<u32> {
        parse_field(field, 0, 59).unwrap().into_iter().collect()
    };
    assert_eq!(values("5"), vec![5]);
    assert_eq!(values("+5"), vec![5], "a plus sign is part of a number");
    assert_eq!(values("007"), vec![7]);
    assert_eq!(values("10-12"), vec![10, 11, 12]);
    assert_eq!(values("1-30/10"), vec![1, 11, 21]);
    assert_eq!(values("50/3"), vec![50], "a step does not extend a single value");
    assert_eq!(values("*/20,5,40"), vec![0, 5, 20, 40]);
    assert_eq!(values(" 3 , 4 "), vec![3, 4], "white space around a segment is free");
    assert_eq!(values("0-59/4294967295"), vec![0], "a step past the end is no error");
    assert_eq!(values("58-59/4294967295"), vec![58]);
    assert_eq!(values("*").len(), 60);
}

#[test]
fn spacing_is_free_and_the_source_is_kept() {
    let expr = "\u{3000}0\t3\n* *   *\u{a0}";
    let s = CronSchedule::parse(expr).unwrap();
    assert_eq!(s.source(), expr);
    assert_eq!(s.next_after(dt(2026, 1, 1, 12, 0)).unwrap(), dt(2026, 1, 2, 3, 0));
}

#[test]
fn a_full_range_is_not_a_wildcard() {
    let ored = CronSchedule::parse("0 0 1-31 * 1").unwrap();
    assert_eq!(ored.next_after(dt(2026, 1, 1, 0, 0)).unwrap(), dt(2026, 1, 2, 0, 0));
    let mondays = CronSchedule::parse("0 0 * * 1").unwrap();
    assert_eq!(mondays.next_after(dt(2026, 1, 1, 0, 0)).unwrap(), dt(2026, 1, 5, 0, 0));
    let by_date = CronSchedule::parse("0 0 10 * *").unwrap();
    assert_eq!(by_date.next_after(dt(2026, 1, 1, 0, 0)).unwrap(), dt(2026, 1, 10, 0, 0));
    assert!(mondays.day_matches(9, 1) && !mondays.day_matches(1, 2));
    assert!(by_date.day_matches(10, 3) && !by_date.day_matches(9, 1));
}

#[test]
fn the_next_run_lies_strictly_after_and_on_a_minute() {
    let s = CronSchedule::parse("* * * * *").unwrap();
    let t = dt(2026, 1, 1, 12, 0);
    let within = Timestamp::new(t.secs + 30, 500_000_000).unwrap();
    assert_eq!(s.next_after(within).unwrap(), dt(2026, 1, 1, 12, 1));
    let leap = Timestamp::new(t.secs + 59, 1_500_000_000).unwrap();
    assert_eq!(s.next_after(leap).unwrap(), dt(2026, 1, 1, 12, 1));
    let last = Timestamp::new(t.secs + 59, 999_999_999).unwrap();
    assert_eq!(s.next_after(last).unwrap(), dt(2026, 1, 1, 12, 1));
}

#[test]
fn the_search_ends_five_years_out() {
    let s = CronSchedule::parse("0 0 29 2 *").unwrap();
    assert!(s.next_after(dt(2096, 3, 1, 0, 0)).is_err(), "2100 is no leap year");
    assert_eq!(s.next_after(dt(2100, 3, 1, 0, 0)).unwrap(), dt(2104, 2, 29, 0, 0));
    let run = dt(2104, 2, 29, 0, 0);
    let edge = Timestamp::new(run.secs - HORIZON_SECS, 0).unwrap();
    assert_eq!(s.next_after(edge).unwrap(), run, "a run at the very end still counts");
    let too_far = Timestamp::new(run.secs - HORIZON_SECS - 1, 999_999_999).unwrap();
    assert!(s.next_after(too_far).is_err());
}

#[test]
fn the_ends_of_the_calendar() {
    let every = CronSchedule::parse("* * * * *").unwrap();
    let never = CronSchedule::parse("0 0 30 2 *").unwrap();
    let first = Timestamp::new(MIN_SECS, 0).unwrap();
    assert_eq!(utc(first), DateTime::<Utc>::MIN_UTC);
    assert_eq!(every.next_after(first).unwrap().secs, MIN_SECS + 60);
    let late = Timestamp::new(MAX_SECS - HORIZON_SECS, 0).unwrap();
    assert_eq!(every.next_after(late).unwrap().secs, late.secs + 1);
    assert!(never.next_after(late).is_err());
    assert_eq!(DateTime::<Utc>::MAX_UTC.timestamp(), MAX_SECS);
    assert_eq!(Timestamp::new(MAX_SECS + 1, 0), None);
    assert_eq!(Timestamp::new(MIN_SECS - 1, 0), None);
    assert_eq!(Timestamp::new(0, 2_000_000_000), None);
}

#[test]
fn every_step_agrees_with_a_walk_minute_by_minute() {
    let s = CronSchedule::parse("*/7 3,15 1-10 */2 1-5").unwrap();
    let fires = |d: DateTime<Utc>| {
        d.minute() % 7 == 0
            && (d.hour() == 3 || d.hour() == 15)
            && (d.month() - 1) % 2 == 0
            && (d.day() <= 10 || (1..=5).contains(&d.weekday().num_days_from_sunday()))
    };
    for from in [
        dt(2026, 1, 31, 23, 59),
        dt(2027, 12, 31, 23, 59),
        dt(2028, 2, 29, 12, 0),
        dt(1969, 12, 31, 23, 58),
        dt(1900, 2, 28, 0, 0),
        dt(2026, 7, 4, 15, 56),
    ] {
        let mut walk = utc(from) + chrono::Duration::minutes(1);
        while !fires(walk) {
            walk += chrono::Duration::minutes(1);
        }
        let next = s.next_after(from).unwrap();
        assert_eq!(utc(next), walk);
        let second = s.next_after(next).unwrap();
        let mut after = walk + chrono::Duration::minutes(1);
        while !fires(after) {
            after += chrono::Duration::minutes(1);
        }
        assert_eq!(utc(second), after, "no run is skipped");
    }
}

#[test]
fn later_starts_never_give_earlier_runs() {
    let s = CronSchedule::parse("5 */6 */3 * 2").unwrap();
    let mut last = dt(2026, 1, 1, 0, 0);
    for hours in 0..2_000 {
        let from = Timestamp::new(dt(2026, 1, 1, 0, 0).secs + hours * 3_599, 0).unwrap();
        let next = s.next_after(from).unwrap();
        assert!(last.at_or_before(&next) && from.secs < next.secs);
        last = next;
    }
}
