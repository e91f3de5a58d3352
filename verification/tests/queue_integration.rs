use chrono::Utc;
use pgqueue::cron_error::CronErrorKind;
use pgqueue::queue::QueueError;
use pgqueue::scheduler::{scheduler_step, SchedulerAction, SchedulerEvent};
use pgqueue::timestamp::MAX_SECS;
use pgqueue::worker::{Worker, WorkerAction, WorkerEvent};
use pgqueue::{
    Duration, HandlerRegistry, Job, JobStatus, Queue, QueueStats, Timestamp, WorkerOptions,
};
use serde_json::Value;

fn json(text: &str) -> Value {
    serde_json::from_str(text).unwrap()
}

/// Seconds after some fixed moment.
fn at(secs: i64) -> Timestamp {
    Timestamp::new(1_767_225_600 + secs, 0).unwrap()
}

fn now() -> Timestamp {
    let now = Utc::now();
    Timestamp::new(now.timestamp(), now.timestamp_subsec_nanos()).unwrap()
}

fn queue_with(jobs: i64) -> Queue {
    let mut queue = Queue::new();
    for i in 0..jobs {
        let id = queue.enqueue_as_of("q", "noop", json("{}"), 3, at(i), at(0)).unwrap();
        assert_eq!(id, i + 1);
    }
    queue
}

fn job(queue: &Queue, id: i64) -> Job {
    queue.recent_jobs(None, i64::MAX).unwrap().into_iter().find(|j| j.id == id).unwrap()
}

#[test]
fn enqueue_claim_complete_round_trip() {
    let mut queue = Queue::new();

    let id = queue
        .enqueue("default", "greet", json(r#"{"name": "world"}"#), 3)
        .unwrap();

    // Nothing claims from a different queue name.
    assert!(queue.claim_next("other-queue", "w1").unwrap().is_none());

    let claimed = queue.claim_next("default", "w1").unwrap().unwrap();
    assert_eq!(claimed.id, id);
    assert_eq!(claimed.job_type, "greet");
    assert_eq!(claimed.payload, json(r#"{"name": "world"}"#));
    assert_eq!(claimed.status, "running");
    assert_eq!(claimed.attempts, 1);

    // Claimed already — a second worker gets nothing.
    assert!(queue.claim_next("default", "w2").unwrap().is_none());

    queue.complete(id);

    let stats = queue.stats(Some("default"));
    assert_eq!(stats.len(), 1);
    assert_eq!(stats[0].done, 1);
    assert_eq!(stats[0].queued, 0);
    assert_eq!(stats[0].running, 0);
}

#[test]
fn two_concurrent_workers_never_claim_the_same_job() {
    let mut queue = Queue::new();

    for i in 0..10 {
        queue
            .enqueue("concurrency", "noop", json(&format!(r#"{{"i": {i}}}"#)), 3)
            .unwrap();
    }

    // The workers take turns, in an uneven rhythm, until neither finds a job.
    let mut a = Vec::new();
    let mut b = Vec::new();
    let (mut a_idle, mut b_idle) = (false, false);
    let mut turn = 0;
    while !(a_idle && b_idle) {
        let (ids, idle, worker) = if turn % 3 == 0 {
            (&mut b, &mut b_idle, "w2")
        } else {
            (&mut a, &mut a_idle, "w1")
        };
        match queue.claim_next("concurrency", worker).unwrap() {
            Some(j) => ids.push(j.id),
            None => *idle = true,
        }
        turn += 1;
    }
    assert!(!a.is_empty() && !b.is_empty());

    let claims = a.len() + b.len();
    let mut all: Vec<i64> = a.into_iter().chain(b.into_iter()).collect();
    all.sort_unstable();
    all.dedup();
    assert_eq!(
        all.len(),
        10,
        "every job claimed exactly once across both workers"
    );
    assert_eq!(claims, 10);
}

#[test]
fn failed_job_retries_then_goes_dead_after_max_attempts() {
    let mut queue = Queue::new();

    let id = queue.enqueue("retries", "flaky", json("{}"), 2).unwrap();

    // Attempt 1: claim, fail. attempts=1 < max_attempts=2 -> requeued.
    let job = queue.claim_next("retries", "w1").unwrap().unwrap();
    assert_eq!(job.attempts, 1);
    queue
        .fail(id, "boom", Duration::from_millis(0), Duration::from_secs(1))
        .unwrap();

    let stats = queue.stats(Some("retries"));
    assert_eq!(stats[0].queued, 1, "requeued for another attempt");
    assert_eq!(stats[0].dead, 0);

    // Attempt 2: claim, fail again. attempts=2 >= max_attempts=2 -> dead.
    let job = queue.claim_next("retries", "w1").unwrap().unwrap();
    assert_eq!(job.attempts, 2);
    queue
        .fail(
            id,
            "boom again",
            Duration::from_millis(0),
            Duration::from_secs(1),
        )
        .unwrap();

    let stats = queue.stats(Some("retries"));
    assert_eq!(stats[0].dead, 1);
    assert_eq!(stats[0].queued, 0);

    // Dead jobs are not claimable...
    assert!(queue.claim_next("retries", "w1").unwrap().is_none());

    // ...until explicitly requeued.
    assert!(queue.requeue_dead(id));
    let job = queue.claim_next("retries", "w1").unwrap().unwrap();
    assert_eq!(job.id, id);
    assert_eq!(
        job.attempts, 1,
        "requeue_dead resets attempts to 0 before this claim increments it"
    );
}

#[test]
fn run_at_in_the_future_is_not_claimable_yet() {
    let mut queue = Queue::new();

    let later = Utc::now() + chrono::Duration::hours(1);
    queue
        .enqueue_at(
            "scheduled",
            "later",
            json("{}"),
            1,
            Timestamp::new(later.timestamp(), later.timestamp_subsec_nanos()).unwrap(),
        )
        .unwrap();

    assert!(queue.claim_next("scheduled", "w1").unwrap().is_none());

    let stats = queue.stats(Some("scheduled"));
    assert_eq!(stats[0].queued, 1, "still queued, just not due yet");
}

/// Runs the worker until it waits.
fn work(
    queue: &mut Queue,
    worker: &mut Worker,
    registry: &HandlerRegistry<fn(&Value) -> Result<(), String>>,
    opts: &WorkerOptions,
    first: WorkerEvent,
) -> WorkerAction {
    let mut event = first;
    loop {
        event = match worker.step(registry, opts, event) {
            WorkerAction::Claim => match queue.claim_next("listen", "listen-test-worker").unwrap() {
                Some(job) => WorkerEvent::Claimed { job },
                None => WorkerEvent::NothingDue,
            },
            WorkerAction::Run { job } => {
                let handler = registry.get(&job.job_type).unwrap();
                WorkerEvent::Finished { job_id: job.id, result: handler(&job.payload) }
            }
            WorkerAction::Complete { job_id } => {
                queue.complete(job_id);
                WorkerEvent::Recorded
            }
            WorkerAction::Fail { job_id, error, backoff_base, backoff_cap } => {
                queue.fail(job_id, &error, backoff_base, backoff_cap).unwrap();
                WorkerEvent::Recorded
            }
            wait => return wait,
        };
    }
}

#[test]
fn listen_notify_wakes_worker_before_poll_interval_elapses() {
    let mut queue = Queue::new();

    let mut registry: HandlerRegistry<fn(&Value) -> Result<(), String>> = HandlerRegistry::new();
    registry.register("noop", |_payload| Ok(()));

    let opts = WorkerOptions {
        poll_interval: Duration::from_secs(10),
        ..Default::default()
    };
    let mut worker = Worker::new();

    // Nothing is there yet: the worker waits for an announcement, for no more than the
    // poll interval.
    let wait = work(
        &mut queue,
        &mut worker,
        &registry,
        &opts,
        WorkerEvent::Started { listening: true },
    );
    assert!(matches!(wait, WorkerAction::Listen { at_most } if at_most == Duration::from_secs(10)));

    let id = queue.enqueue("listen", "noop", json("{}"), 1).unwrap();

    // The announcement wakes it, and it completes the job before it waits again.
    let wait = work(&mut queue, &mut worker, &registry, &opts, WorkerEvent::Notified);
    assert!(matches!(wait, WorkerAction::Listen { .. }));
    let jobs = queue.recent_jobs(Some("listen"), 5).unwrap();
    assert!(jobs.iter().any(|j| j.id == id && j.status == "done"));
}

#[test]
fn recurring_job_fires_repeatedly_via_running_scheduler() {
    let mut queue = Queue::new();

    queue
        .register_recurring(
            "recurring_test",
            "recurring",
            "log",
            json(r#"{"n": 1}"#),
            3,
            "* * * * *",
        )
        .unwrap();

    // The scheduler loop, with the clock put forward to the next run in place of sleeping.
    let mut fired = Vec::new();
    let mut clock = queue.get_recurring("recurring_test").unwrap().next_run_at;
    let mut event = SchedulerEvent::Started;
    while fired.len() < 2 {
        event = match scheduler_step(event) {
            SchedulerAction::Tick => match queue.tick_recurring_as_of(clock) {
                Ok(ids) => {
                    let enqueued = ids.len();
                    fired.extend(ids);
                    SchedulerEvent::Ticked { enqueued }
                }
                Err(_) => SchedulerEvent::TickFailed { recoverable: false },
            },
            SchedulerAction::Stop => panic!("a tick failed"),
            SchedulerAction::Sleep => {
                clock = queue.get_recurring("recurring_test").unwrap().next_run_at;
                SchedulerEvent::Slept
            }
        };
    }
    let (first_job_id, second_job_id) = (fired[0], fired[1]);

    assert_ne!(
        first_job_id, second_job_id,
        "each occurrence must be its own distinct pgqueue_jobs row"
    );

    let stats = queue.stats(Some("recurring"));
    assert_eq!(stats[0].queued, 2, "both occurrences materialized as real jobs");

    let def = queue
        .get_recurring("recurring_test")
        .expect("definition still exists");
    assert_eq!(
        def.last_enqueued_job_id,
        Some(second_job_id),
        "bookkeeping points at the most recently enqueued occurrence"
    );
    assert!(
        !def.next_run_at.at_or_before(&now()),
        "next_run_at was advanced into the future again, not left stuck in the past"
    );
}

#[test]
fn claims_go_by_due_time_then_by_age() {
    let mut queue = Queue::new();
    for (kind, due) in [("late", 5), ("early", 1), ("also early", 1), ("future", 100)] {
        queue.enqueue_as_of("q", kind, json("{}"), 1, at(due), at(0)).unwrap();
    }
    let mut order = Vec::new();
    while let Some(job) = queue.claim_next_as_of("q", "w", at(10)).unwrap() {
        assert_eq!(job.locked_by.as_deref(), Some("w"));
        assert_eq!(job.locked_at, Some(at(10)));
        order.push(job.job_type);
    }
    assert_eq!(order, vec!["early", "also early", "late"]);
}

#[test]
fn a_new_job_holds_what_was_given() {
    let mut queue = Queue::new();
    let payload = json(r#"{"a": [1, 2.5, null, "x"]}"#);
    let id = queue.enqueue_as_of("q", "t", payload.clone(), -3, at(7), at(1)).unwrap();
    let j = job(&queue, id);
    assert_eq!((j.queue.as_str(), j.job_type.as_str(), j.status.as_str()), ("q", "t", "queued"));
    assert_eq!(j.payload, payload);
    assert_eq!((j.attempts, j.max_attempts), (0, -3));
    assert_eq!((j.run_at, j.created_at), (at(7), at(1)));
    assert!(j.locked_at.is_none() && j.locked_by.is_none());
    assert!(j.last_error.is_none() && j.completed_at.is_none());
}

#[test]
fn completing_keeps_everything_but_the_status() {
    let mut queue = queue_with(2);
    queue.claim_next_as_of("q", "w", at(5)).unwrap();
    queue.complete_as_of(1, at(9));
    let j = job(&queue, 1);
    assert_eq!(j.status, "done");
    assert_eq!(j.completed_at, Some(at(9)));
    assert_eq!((j.attempts, j.locked_by.as_deref()), (1, Some("w")));
    assert_eq!(job(&queue, 2).status, "queued");
    queue.complete_as_of(99, at(10));
    assert_eq!(queue.recent_jobs(None, 10).unwrap().len(), 2, "an unknown id is no error");
}

#[test]
fn failing_backs_off_and_clears_the_lock() {
    let mut queue = queue_with(1);
    queue.claim_next_as_of("q", "w", at(0)).unwrap();
    let (base, cap) = (Duration::from_secs(2), Duration::from_secs(300));
    queue.fail_as_of(1, "boom", base, cap, at(10)).unwrap();
    let j = job(&queue, 1);
    assert_eq!((j.status.as_str(), j.run_at), ("queued", at(12)));
    assert_eq!(j.last_error.as_deref(), Some("boom"));
    assert!(j.locked_at.is_none() && j.locked_by.is_none());
    assert!(queue.claim_next_as_of("q", "w", at(11)).unwrap().is_none(), "not before the backoff");
    assert_eq!(queue.claim_next_as_of("q", "w", at(12)).unwrap().unwrap().attempts, 2);
    queue.fail_as_of(1, "again", base, cap, at(12)).unwrap();
    assert_eq!(job(&queue, 1).run_at, at(16), "the delay doubles");
    queue.claim_next_as_of("q", "w", at(16)).unwrap().unwrap();
    queue.fail_as_of(1, "at last", base, cap, at(17)).unwrap();
    let j = job(&queue, 1);
    assert_eq!((j.status.as_str(), j.attempts), ("dead", 3));
    assert_eq!(j.run_at, at(16), "a dead job keeps its due time");
    assert_eq!(j.last_error.as_deref(), Some("at last"));
}

#[test]
fn failing_can_be_refused() {
    let mut queue = queue_with(1);
    let second = Duration::from_secs(1);
    assert!(matches!(
        queue.fail_as_of(2, "x", second, second, at(0)),
        Err(QueueError::NoSuchJob)
    ));
    let end = Timestamp::new(MAX_SECS, 0).unwrap();
    queue.claim_next_as_of("q", "w", at(0)).unwrap();
    assert!(matches!(
        queue.fail_as_of(1, "x", second, second, end),
        Err(QueueError::OutOfCalendar)
    ));
    assert_eq!(job(&queue, 1).status, "running");
}

#[test]
fn only_dead_jobs_are_requeued() {
    let mut queue = queue_with(2);
    assert!(!queue.requeue_dead_as_of(1, at(1)), "queued");
    assert!(!queue.requeue_dead_as_of(7, at(1)), "unknown");
    queue.claim_next_as_of("q", "w", at(1)).unwrap();
    let zero = Duration::zero();
    for _ in 0..2 {
        queue.fail_as_of(1, "boom", zero, zero, at(2)).unwrap();
        queue.claim_next_as_of("q", "w", at(2)).unwrap();
        queue.claim_next_as_of("q", "w", at(2)).unwrap();
    }
    queue.fail_as_of(1, "boom", zero, zero, at(3)).unwrap();
    assert_eq!(job(&queue, 1).status, "dead");
    assert!(queue.requeue_dead_as_of(1, at(50)));
    let j = job(&queue, 1);
    assert_eq!((j.status.as_str(), j.attempts, j.run_at), ("queued", 0, at(50)));
    assert!(j.last_error.is_none());
    assert!(!queue.requeue_dead_as_of(1, at(51)), "no longer dead");
}

#[test]
fn stats_list_every_queue_by_name() {
    let mut queue = Queue::new();
    for name in ["mail", "b", "", "mail", "a"] {
        queue.enqueue_as_of(name, "t", json("{}"), 1, at(0), at(0)).unwrap();
    }
    queue.claim_next_as_of("mail", "w", at(0)).unwrap();
    let stats = queue.stats(None);
    let names: Vec<&str> = stats.iter().map(|s| s.queue.as_str()).collect();
    assert_eq!(names, vec!["", "a", "b", "mail"]);
    assert_eq!((stats[3].queued, stats[3].running), (1, 1));
    assert_eq!((stats[3].done, stats[3].failed, stats[3].dead), (0, 0, 0));
    assert_eq!(queue.stats(Some("a")).len(), 1);
    assert!(queue.stats(Some("nothing here")).is_empty());
    let total: i64 = stats.iter().map(|s| s.queued + s.running + s.done + s.failed + s.dead).sum();
    assert_eq!(total, 5, "the counts add up");
    assert_eq!(QueueStats::default().queued, 0);
}

#[test]
fn recent_jobs_are_the_newest_first() {
    let mut queue = queue_with(5);
    queue.enqueue_as_of("other", "t", json("{}"), 1, at(0), at(0)).unwrap();
    let ids = |q: Option<&str>, n: i64| -> Vec<i64> {
        queue.recent_jobs(q, n).unwrap().iter().map(|j| j.id).collect()
    };
    assert_eq!(ids(None, 3), vec![6, 5, 4]);
    assert_eq!(ids(Some("q"), 2), vec![5, 4]);
    assert_eq!(ids(Some("q"), 100), vec![5, 4, 3, 2, 1]);
    assert_eq!(ids(None, 0), Vec::<i64>::new());
    assert!(matches!(queue.recent_jobs(None, -1), Err(QueueError::NegativeLimit)));
}

#[test]
fn registering_again_keeps_the_next_run() {
    let mut queue = Queue::new();
    let register = |queue: &mut Queue, payload: &str, cron: &str, secs: i64| {
        queue.register_recurring_as_of("nightly", "q", "digest", json(payload), 3, cron, at(secs))
    };
    // The fixed moment is 2026-01-01T00:00:00Z.
    let id = register(&mut queue, "1", "0 3 * * *", 0).unwrap();
    assert_eq!(queue.get_recurring("nightly").unwrap().next_run_at, at(3 * 3_600));
    // A day later, with another payload and the same expression: changed in place.
    assert_eq!(register(&mut queue, "2", "0 3 * * *", 86_400).unwrap(), id);
    let def = queue.get_recurring("nightly").unwrap();
    assert_eq!(def.payload, json("2"));
    assert_eq!((def.next_run_at, def.created_at), (at(3 * 3_600), at(0)));
    assert_eq!(queue.list_recurring().len(), 1);
    // With another expression the next run is computed anew.
    assert_eq!(register(&mut queue, "2", "0 4 * * *", 86_400).unwrap(), id);
    assert_eq!(queue.get_recurring("nightly").unwrap().next_run_at, at(86_400 + 4 * 3_600));
}

#[test]
fn definitions_are_listed_by_name() {
    let mut queue = Queue::new();
    for name in ["m", "z", "a", "mm", ""] {
        queue
            .register_recurring_as_of(name, "q", "t", json("{}"), 1, "* * * * *", at(0))
            .unwrap();
    }
    let names: Vec<String> = queue.list_recurring().into_iter().map(|d| d.name).collect();
    assert_eq!(names, vec!["", "a", "m", "mm", "z"]);
    assert_eq!(queue.get_recurring("mm").unwrap().id, 4);
    assert!(queue.get_recurring("mmm").is_none());
}

#[test]
fn bad_expressions_are_not_registered() {
    let mut queue = Queue::new();
    let mut register = |cron: &str, now: Timestamp| {
        queue.register_recurring_as_of("n", "q", "t", json("{}"), 1, cron, now)
    };
    match register("* * * *", at(0)) {
        Err(QueueError::Cron(e)) => assert_eq!(e.kind, CronErrorKind::FieldCount { found: 4 }),
        _ => panic!("a bad expression was registered"),
    }
    match register("0 0 30 2 *", at(0)) {
        Err(QueueError::Cron(e)) => assert_eq!(e.kind, CronErrorKind::NoRunTime),
        _ => panic!("an impossible date was registered"),
    }
    let end = Timestamp::new(MAX_SECS, 0).unwrap();
    assert!(matches!(register("* * * * *", end), Err(QueueError::OutOfCalendar)));
    assert!(matches!(register("nonsense", end), Err(QueueError::Cron(_))));
    assert!(queue.list_recurring().is_empty());
}

#[test]
fn a_tick_fires_what_is_due_and_nothing_else() {
    let mut queue = Queue::new();
    for (name, cron) in [("a", "*/5 * * * *"), ("b", "0 12 * * *"), ("c", "* * * * *")] {
        queue
            .register_recurring_as_of(name, "q", name, json("{}"), 4, cron, at(0))
            .unwrap();
    }
    assert!(queue.tick_recurring_as_of(at(30)).unwrap().is_empty());
    // Seven minutes in: `a` was due once and `c` seven times, and each fires once.
    let ids = queue.tick_recurring_as_of(at(430)).unwrap();
    assert_eq!(ids, vec![1, 2]);
    let j = job(&queue, 1);
    assert_eq!((j.job_type.as_str(), j.max_attempts, j.run_at), ("a", 4, at(430)));
    assert_eq!(job(&queue, 2).job_type, "c");
    let next = |name: &str| queue.get_recurring(name).unwrap().next_run_at;
    assert_eq!((next("a"), next("b"), next("c")), (at(600), at(43_200), at(480)));
    assert_eq!(queue.get_recurring("b").unwrap().last_enqueued_job_id, None);
    assert!(queue.tick_recurring_as_of(at(430)).unwrap().is_empty(), "no occurrence fires twice");
    assert_eq!(queue.claim_next_as_of("q", "w", at(430)).unwrap().unwrap().id, 1);
    let end = Timestamp::new(MAX_SECS, 0).unwrap();
    assert!(matches!(queue.tick_recurring_as_of(end), Err(QueueError::OutOfCalendar)));
}

#[test]
fn a_tick_with_nothing_to_search_for_succeeds_at_any_time() {
    let mut queue = Queue::new();
    let end = Timestamp::new(MAX_SECS, 0).unwrap();
    assert!(queue.tick_recurring_as_of(end).unwrap().is_empty());
    assert!(queue.tick_recurring().unwrap().is_empty());
}

#[test]
fn two_schedulers_fire_each_occurrence_once() {
    let mut queue = Queue::new();
    for name in ["a", "b", "c"] {
        queue
            .register_recurring_as_of(name, "q", name, json("{}"), 1, "*/10 * * * *", at(0))
            .unwrap();
    }
    let first = queue.tick_recurring_as_of(at(605)).unwrap();
    let second = queue.tick_recurring_as_of(at(700)).unwrap();
    assert_eq!((first.len(), second.len()), (3, 0), "not due again before the next run");
    let third = queue.tick_recurring_as_of(at(1_200)).unwrap();
    assert_eq!(third.len(), 3);
    assert!(third.iter().all(|id| !first.contains(id)), "no id is given out twice");
}

#[test]
fn the_clock_forms_use_the_present() {
    let mut queue = Queue::new();
    let before = now();
    let id = queue.enqueue("q", "t", json("{}"), 1).unwrap();
    let after = now();
    let j = job(&queue, id);
    assert!(before.at_or_before(&j.run_at) && j.run_at.at_or_before(&after));
    assert_eq!(j.run_at, j.created_at);
    queue.register_recurring("n", "q", "t", json("{}"), 1, "* * * * *").unwrap();
    assert!(queue.tick_recurring().unwrap().is_empty());
    let run = queue.get_recurring("n").unwrap().next_run_at;
    assert!(before.secs < run.secs && run.secs <= now().secs + 60);
}

#[test]
fn statuses_are_written_and_read_back() {
    for (status, text) in [
        (JobStatus::Queued, "queued"),
        (JobStatus::Running, "running"),
        (JobStatus::Done, "done"),
        (JobStatus::Failed, "failed"),
        (JobStatus::Dead, "dead"),
    ] {
        assert_eq!(status.as_db_str(), text);
        assert_eq!(JobStatus::from_db_str(text), Some(status));
    }
    assert_eq!(JobStatus::from_db_str("Queued"), None);
    assert_eq!(JobStatus::from_db_str(""), None);
}
