use chrono::{DateTime, Datelike, Duration as Span, TimeZone, Timelike, Utc};
use pgqueue::backoff::backoff_delay;
use pgqueue::retry::{fail_outcome, FailOutcome};
use pgqueue::scheduler::{scheduler_step, take_turn, SchedulerAction, SchedulerEvent, Turn};
use pgqueue::steps::{
    start_of_next_day, start_of_next_hour, start_of_next_month, truncate_to_minute,
};
use pgqueue::timestamp::{MAX_SECS, MIN_SECS};
use pgqueue::{Duration, Timestamp};

fn stamp(d: DateTime<Utc>) -> Timestamp {
    Timestamp::new(d.timestamp(), d.timestamp_subsec_nanos()).unwrap()
}

fn at(y: i32, mo: u32, d: u32, h: u32, mi: u32, s: u32) -> DateTime<Utc> {
    Utc.with_ymd_and_hms(y, mo, d, h, mi, s).unwrap()
}

#[test]
fn steps_agree_with_the_calendar() {
    let mut d = at(1895, 12, 30, 23, 59, 58) + Span::milliseconds(250);
    for _ in 0..4_000 {
        let t = stamp(d);
        assert_eq!(
            truncate_to_minute(t),
            stamp(d.with_second(0).unwrap().with_nanosecond(0).unwrap())
        );
        let (year, month) = if d.month() == 12 { (d.year() + 1, 1) } else { (d.year(), d.month() + 1) };
        assert_eq!(start_of_next_month(t), Some(stamp(at(year, month, 1, 0, 0, 0))));
        let tomorrow = d + Span::days(1);
        assert_eq!(
            start_of_next_day(t),
            Some(stamp(at(tomorrow.year(), tomorrow.month(), tomorrow.day(), 0, 0, 0)))
        );
        let soon = d + Span::hours(1);
        assert_eq!(
            start_of_next_hour(t),
            Some(stamp(at(soon.year(), soon.month(), soon.day(), soon.hour(), 0, 0)))
        );
        d += Span::seconds(1_234_577);
    }
}

#[test]
fn steps_past_the_calendar_are_none() {
    let last = Timestamp::new(MAX_SECS, 0).unwrap();
    assert_eq!(start_of_next_month(last), None);
    assert_eq!(start_of_next_day(last), None);
    assert_eq!(start_of_next_hour(last), None);
    assert_eq!(truncate_to_minute(last).secs, MAX_SECS - 59);
    let first = Timestamp::new(MIN_SECS, 7).unwrap();
    assert_eq!(truncate_to_minute(first).secs, MIN_SECS);
}

#[test]
fn truncation_drops_a_leap_second() {
    let t = stamp(at(2016, 12, 31, 23, 59, 59));
    let leap = Timestamp::new(t.secs, 1_700_000_000).unwrap();
    assert_eq!(truncate_to_minute(leap), stamp(at(2016, 12, 31, 23, 59, 0)));
}

#[test]
fn a_failed_attempt_is_retried_after_the_backoff() {
    let base = Duration::from_secs(2);
    let cap = Duration::from_secs(300);
    let now = stamp(at(2026, 1, 1, 0, 0, 0) + Span::milliseconds(700));
    for attempts in 1..20 {
        let delay = (backoff_delay(attempts, base, cap).as_nanos() / 1_000_000) as i64;
        let run_at = stamp(at(2026, 1, 1, 0, 0, 0) + Span::milliseconds(700 + delay));
        assert_eq!(
            fail_outcome(attempts as i32, 20, base, cap, now),
            Some(FailOutcome::Retry { run_at })
        );
    }
    assert_eq!(fail_outcome(20, 20, base, cap, now), Some(FailOutcome::Dead));
    assert_eq!(fail_outcome(21, 20, base, cap, now), Some(FailOutcome::Dead));
    assert_eq!(fail_outcome(1, 0, base, cap, now), Some(FailOutcome::Dead));
}

#[test]
fn fractions_of_a_second_carry_over() {
    let now = stamp(at(2026, 1, 1, 0, 0, 59) + Span::milliseconds(900));
    assert_eq!(
        fail_outcome(1, 2, Duration::from_millis(250), Duration::from_secs(9), now),
        Some(FailOutcome::Retry {
            run_at: stamp(at(2026, 1, 1, 0, 1, 0) + Span::milliseconds(150))
        })
    );
}

#[test]
fn a_retry_from_within_a_leap_second() {
    let t = stamp(at(2016, 12, 31, 23, 59, 59));
    let leap = Timestamp::new(t.secs, 1_500_000_000).unwrap();
    let retry = |millis: u64| {
        fail_outcome(1, 2, Duration::from_millis(millis), Duration::from_secs(9), leap).unwrap()
    };
    assert_eq!(
        retry(499),
        FailOutcome::Retry { run_at: Timestamp::new(t.secs, 1_999_000_000).unwrap() },
        "still in the leap second"
    );
    let start = DateTime::from_timestamp(t.secs, 1_500_000_000).unwrap();
    for millis in [0, 499, 500, 1_000, 1_500, 2_000] {
        assert_eq!(
            retry(millis),
            FailOutcome::Retry { run_at: stamp(start + Span::milliseconds(millis as i64)) }
        );
    }
}

#[test]
fn a_retry_keeps_the_nanoseconds_of_its_delay() {
    let now = stamp(at(2026, 1, 1, 0, 0, 0));
    let base = Duration::new(1, 999_999_999).unwrap();
    assert_eq!(
        fail_outcome(1, 3, base, Duration::from_secs(9), now),
        Some(FailOutcome::Retry { run_at: Timestamp::new(now.secs + 1, 999_999_999).unwrap() })
    );
    assert_eq!(
        fail_outcome(2, 3, base, Duration::from_secs(9), now),
        Some(FailOutcome::Retry { run_at: Timestamp::new(now.secs + 3, 999_999_998).unwrap() })
    );
    assert_eq!(
        fail_outcome(1, 3, Duration::zero(), Duration::from_secs(1), now),
        Some(FailOutcome::Retry { run_at: now }),
        "without a base the retry is due at once"
    );
}

#[test]
fn a_delay_that_no_span_holds_counts_as_none() {
    let now = stamp(at(2026, 1, 1, 0, 0, 0));
    let too_long = Duration::new(9_223_372_036_854_775, 807_000_001).unwrap();
    assert_eq!(
        fail_outcome(1, 2, too_long, too_long, now),
        Some(FailOutcome::Retry { run_at: now })
    );
    let longest = Duration::new(9_223_372_036_854_775, 807_000_000).unwrap();
    assert_eq!(fail_outcome(1, 2, longest, longest, now), None, "past the calendar");
}

#[test]
fn a_retry_past_the_calendar_is_refused() {
    let now = Timestamp::new(MAX_SECS, 0).unwrap();
    let second = Duration::from_secs(1);
    assert_eq!(fail_outcome(1, 2, second, second, now), None);
    assert_eq!(fail_outcome(2, 2, second, second, now), Some(FailOutcome::Dead));
    assert_eq!(
        fail_outcome(1, 2, Duration::from_millis(999), second, now),
        Some(FailOutcome::Retry { run_at: Timestamp::new(MAX_SECS, 999_000_000).unwrap() })
    );
}

#[test]
fn negative_attempt_counts_wrap_around() {
    let now = stamp(at(2026, 1, 1, 0, 0, 0));
    let cap = Duration::from_secs(10);
    assert_eq!(
        fail_outcome(-1, 2, Duration::from_secs(1), cap, now),
        Some(FailOutcome::Retry { run_at: stamp(at(2026, 1, 1, 0, 0, 10)) })
    );
}

#[test]
fn the_order_of_time() {
    let a = Timestamp::new(5, 10).unwrap();
    let b = Timestamp::new(5, 11).unwrap();
    let c = Timestamp::new(6, 0).unwrap();
    assert!(a.at_or_before(&a) && a.at_or_before(&b) && b.at_or_before(&c));
    assert!(!b.at_or_before(&a) && !c.at_or_before(&b));
}

#[test]
fn a_turn_reads_the_expression_anew() {
    let now = stamp(at(2026, 3, 1, 12, 0, 0));
    let fires = |cron: &str, next: DateTime<Utc>| {
        matches!(take_turn(cron, now), Turn::Fire { next_run_at } if next_run_at == stamp(next))
    };
    assert!(fires("0 3 * * *", at(2026, 3, 2, 3, 0, 0)));
    assert!(fires("*/15 * * * *", at(2026, 3, 1, 12, 15, 0)));
    assert!(matches!(take_turn("nonsense", now), Turn::Unreadable { error } if error.text == "nonsense"));
    assert!(matches!(take_turn("0 0 31 4 *", now), Turn::NoRunTime { error } if error.text == "0 0 31 4 *"));
    let end = Timestamp::new(MAX_SECS, 0).unwrap();
    assert!(matches!(take_turn("* * * * *", end), Turn::OutOfCalendar));
    assert!(matches!(take_turn("nonsense", end), Turn::Unreadable { .. }));
}

#[test]
fn the_scheduler_ticks_and_sleeps_in_turn() {
    assert_eq!(scheduler_step(SchedulerEvent::Started), SchedulerAction::Tick);
    assert_eq!(scheduler_step(SchedulerEvent::Ticked { enqueued: 0 }), SchedulerAction::Sleep);
    assert_eq!(scheduler_step(SchedulerEvent::Ticked { enqueued: 3 }), SchedulerAction::Sleep);
    assert_eq!(scheduler_step(SchedulerEvent::Slept), SchedulerAction::Tick);
    assert_eq!(
        scheduler_step(SchedulerEvent::TickFailed { recoverable: true }),
        SchedulerAction::Sleep,
        "a failed tick does not end the scheduler"
    );
    assert_eq!(
        scheduler_step(SchedulerEvent::TickFailed { recoverable: false }),
        SchedulerAction::Stop,
        "unless the database cannot recover"
    );
}

#[test]
fn durations() {
    assert_eq!(Duration::from_millis(1_234), Duration::new(1, 234_000_000).unwrap());
    assert_eq!(Duration::from_micros(1_500), Duration::new(0, 1_500_000).unwrap());
    assert_eq!(Duration::from_secs(u64::MAX).as_nanos(), u64::MAX as u128 * 1_000_000_000);
    assert_eq!(Duration::zero().as_nanos(), 0);
    assert_eq!(Duration::new(1, 1_000_000_000), None);
    let d = Duration::new(7, 89).unwrap();
    assert_eq!((d.as_secs(), d.subsec_nanos()), (7, 89));
}
