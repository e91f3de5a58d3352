//! Recurring jobs: when a definition is due next, and what the scheduler loop does.
use vstd::prelude::*;

use crate::cron;
use crate::cron::{CronSchedule, Schedule, HORIZON_SECS};
use crate::cron_error::{CronError, CronErrorKind};
use crate::cron_laws;
use crate::timestamp::{Timestamp, MAX_SECS};

verus! {

/// The whole search for the next run lies within `chrono`'s calendar.
pub open spec fn within_calendar(now: Timestamp) -> bool {
    now.valid() && now.secs + HORIZON_SECS <= MAX_SECS
}

/// The first run of `expr` strictly after `now`, or why there is none: the expression is
/// refused, or it does not fire within the horizon.
#[verifier::opaque]
pub open spec fn run_after(expr: Seq<char>, now: Timestamp) -> Result<
    Timestamp,
    (CronErrorKind, Seq<char>),
> {
    match cron::meaning(expr) {
        Err(e) => Err(e),
        Ok(schedule) => if schedule.silent(now.secs as int, now.secs + HORIZON_SECS) {
            Err((CronErrorKind::NoRunTime, expr))
        } else {
            Ok(Timestamp { secs: first_run(schedule, now.secs as int) as i64, nanos: 0 })
        },
    }
}

/// The first time after second `from` at which `schedule` fires.
pub open spec fn first_run(schedule: Schedule, from: int) -> int {
    choose|t: int| schedule.is_next(from, t)
}

/// Whether the whole search for the next run lies within `chrono`'s calendar.
fn in_calendar(now: &Timestamp) -> (r: bool)
    requires
        now.valid(),
    ensures
        r == within_calendar(*now),
{
    now.secs <= MAX_SECS - HORIZON_SECS
}

/// A run that is found lies after the moment it was asked for, within the horizon, and is
/// the first at which the expression fires.
pub proof fn law_run_after_is_next(expr: Seq<char>, now: Timestamp, t: Timestamp)
    requires
        within_calendar(now),
        run_after(expr, now) == Ok::<Timestamp, (CronErrorKind, Seq<char>)>(t),
    ensures
        now.secs < t.secs <= now.secs + HORIZON_SECS,
        t.nanos == 0,
        cron::meaning(expr)->Ok_0.is_next(now.secs as int, t.secs as int),
{
    reveal(run_after);
    let schedule = cron::meaning(expr)->Ok_0;
    let from = now.secs as int;
    let s = choose|s: int| from < s <= from + HORIZON_SECS && schedule.fires_at(s);
    let first = cron_laws::lemma_first_run(schedule, from, s);
    assert(schedule.is_next(from, first));
}

/// What a due definition does in a tick.
#[derive(Debug)]
pub enum Turn {
    /// It fires, and is due again at `next_run_at`.
    Fire { next_run_at: Timestamp },
    /// Its expression does not parse: it is passed over.
    Unreadable { error: CronError },
    /// Its expression does not fire within the horizon: it is passed over.
    NoRunTime { error: CronError },
    /// The search for its next run would leave `chrono`'s calendar.
    OutOfCalendar,
}

/// What a due definition with the expression `cron_expr` does in a tick at `now`. The
/// expression is read anew every time, so that an edited definition takes effect at once.
pub fn take_turn(cron_expr: &str, now: Timestamp) -> (r: Turn)
    requires
        now.valid(),
    ensures
        match r {
            Turn::Fire { next_run_at } => {
                &&& within_calendar(now)
                &&& run_after(cron_expr@, now) == Ok::<_, (CronErrorKind, Seq<char>)>(next_run_at)
                &&& next_run_at.valid()
            },
            Turn::Unreadable { error } => {
                &&& cron::meaning(cron_expr@) == Err::<Schedule, _>((error.kind, error.text@))
                &&& run_after(cron_expr@, now) == Err::<Timestamp, _>((error.kind, error.text@))
            },
            Turn::NoRunTime { error } => {
                &&& within_calendar(now)
                &&& cron::meaning(cron_expr@) is Ok
                &&& error.kind == CronErrorKind::NoRunTime
                &&& run_after(cron_expr@, now) == Err::<Timestamp, _>((error.kind, error.text@))
            },
            Turn::OutOfCalendar => !within_calendar(now) && cron::meaning(cron_expr@) is Ok,
        },
{
    proof {
        reveal(run_after);
    }
    let schedule = match CronSchedule::parse(cron_expr) {
        Ok(schedule) => schedule,
        Err(error) => {
            return Turn::Unreadable { error };
        },
    };
    if !in_calendar(&now) {
        return Turn::OutOfCalendar;
    }
    match schedule.next_after(now) {
        Ok(t) => {
            proof {
                let from = now.secs as int;
                assert(schedule@.is_next(from, t.secs as int));
                cron_laws::law_next_is_unique(
                    schedule@,
                    from,
                    t.secs as int,
                    first_run(schedule@, from),
                );
                assert(schedule@.fires_at(t.secs as int));
            }
            Turn::Fire { next_run_at: t }
        },
        Err(error) => Turn::NoRunTime { error },
    }
}

/// What the scheduler loop has just seen.
#[derive(Debug, Clone, Copy, PartialEq, Eq, Structural)]
pub enum SchedulerEvent {
    Started,
    /// A tick enqueued this many jobs.
    Ticked { enqueued: usize },
    /// A tick failed: the definitions it would have fired stay due. The database may
    /// recover from the failure, or not.
    TickFailed { recoverable: bool },
    /// The tick interval has passed.
    Slept,
}

/// What the scheduler loop does next.
#[derive(Debug, Clone, Copy, PartialEq, Eq, Structural)]
pub enum SchedulerAction {
    Tick,
    Sleep,
    /// End the loop, with the error of the tick that failed.
    Stop,
}

pub open spec fn scheduler_action(event: SchedulerEvent) -> SchedulerAction {
    match event {
        SchedulerEvent::Started | SchedulerEvent::Slept => SchedulerAction::Tick,
        SchedulerEvent::Ticked { .. } => SchedulerAction::Sleep,
        SchedulerEvent::TickFailed { recoverable } => if recoverable {
            SchedulerAction::Sleep
        } else {
            SchedulerAction::Stop
        },
    }
}

/// The scheduler ticks, sleeps for the tick interval, and ticks again. It ends only where
/// the database cannot recover.
pub fn scheduler_step(event: SchedulerEvent) -> (r: SchedulerAction)
    ensures
        r == scheduler_action(event),
{
    match event {
        SchedulerEvent::Started => SchedulerAction::Tick,
        SchedulerEvent::Slept => SchedulerAction::Tick,
        SchedulerEvent::Ticked { .. } => SchedulerAction::Sleep,
        SchedulerEvent::TickFailed { recoverable } => if recoverable {
            SchedulerAction::Sleep
        } else {
            SchedulerAction::Stop
        },
    }
}

/// `event` is what an action can lead to. Nothing follows the end.
pub open spec fn follows(done: SchedulerAction, event: SchedulerEvent) -> bool {
    match done {
        SchedulerAction::Tick => event is Ticked || event is TickFailed,
        SchedulerAction::Sleep => event is Slept,
        SchedulerAction::Stop => false,
    }
}

/// `events` is a run of the scheduler: it starts, and then every event is what the action
/// before it led to.
pub open spec fn is_run(events: Seq<SchedulerEvent>) -> bool {
    &&& events.len() > 0 ==> events[0] is Started
    &&& forall|n: int|
        0 <= n < events.len() - 1 ==> follows(
            scheduler_action(#[trigger] events[n]),
            events[n + 1],
        )
}

/// The scheduler ticks at once, and then again after every sleep; between two ticks it
/// sleeps once. It stops where a tick fails beyond recovery, and nowhere else.
pub proof fn law_scheduler_ticks_until_it_cannot(events: Seq<SchedulerEvent>, n: int)
    requires
        is_run(events),
        0 <= n < events.len(),
    ensures
        n % 2 == 0 ==> scheduler_action(events[n]) is Tick,
        n % 2 == 1 ==> scheduler_action(events[n]) == (if events[n]
            == (SchedulerEvent::TickFailed { recoverable: false }) {
            SchedulerAction::Stop
        } else {
            SchedulerAction::Sleep
        }),
        scheduler_action(events[n]) is Stop ==> n == events.len() - 1,
    decreases n,
{
    if n > 0 {
        law_scheduler_ticks_until_it_cannot(events, n - 1);
        assert(follows(scheduler_action(events[n - 1]), events[n]));
    }
    if n < events.len() - 1 {
        assert(follows(scheduler_action(events[n]), events[n + 1]));
    }
}

} // verus!
