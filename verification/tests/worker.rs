use pgqueue::dashboard::{index_page, retry_reply, RetryReply, LISTED_JOBS, PAGE_JOBS};
use pgqueue::payload::parse_payload;
use pgqueue::report::{
    enqueued_line, recurring_header, recurring_line, registered_line, retry_line, stats_header,
    stats_line,
};
use pgqueue::worker::{channel_name, dispatch, Worker, WorkerAction, WorkerEvent};
use pgqueue::{
    Duration, HandlerRegistry, Job, Queue, QueueStats, RecurringJob, Timestamp, WorkerOptions,
};
use serde_json::Value;

fn job(id: i64, job_type: &str) -> Job {
    let t = Timestamp::new(0, 0).unwrap();
    Job {
        id,
        queue: "mail".to_string(),
        job_type: job_type.to_string(),
        payload: Value::Null,
        status: "running".to_string(),
        attempts: 1,
        max_attempts: 3,
        run_at: t,
        locked_at: Some(t),
        locked_by: Some("w".to_string()),
        last_error: None,
        created_at: t,
        completed_at: None,
    }
}

#[test]
fn the_last_registered_handler_counts() {
    let mut registry: HandlerRegistry<u32> = HandlerRegistry::new();
    assert_eq!(registry.get("a"), None);
    registry.register("a", 1).register("b", 2).register("a", 3);
    assert_eq!(registry.get("a"), Some(&3));
    assert_eq!(registry.get("b"), Some(&2));
    assert_eq!(registry.get("c"), None);
    assert!(HandlerRegistry::<u32>::default().get("a").is_none());
}

#[test]
fn a_job_without_a_handler_fails_with_a_message() {
    let mut registry: HandlerRegistry<u32> = HandlerRegistry::new();
    registry.register("log", 1);
    assert_eq!(dispatch(&registry, &job(1, "log")), Ok(&1));
    assert_eq!(
        dispatch(&registry, &job(1, "welcome_email")),
        Err("no handler registered for job_type 'welcome_email'".to_string())
    );
    let opts = WorkerOptions::default();
    let mut worker = Worker::new();
    let action = worker.step(&registry, &opts, WorkerEvent::Claimed { job: job(7, "welcome_email") });
    match action {
        WorkerAction::Fail { job_id, error, backoff_base, backoff_cap } => {
            assert_eq!(job_id, 7);
            assert_eq!(error, "no handler registered for job_type 'welcome_email'");
            assert_eq!((backoff_base, backoff_cap), (opts.backoff_base, opts.backoff_cap));
        }
        other => panic!("{other:?}"),
    }
}

#[test]
fn default_options() {
    let opts = WorkerOptions::default();
    assert_eq!(opts.poll_interval, Duration::from_secs(1));
    assert_eq!(opts.backoff_base, Duration::from_secs(2));
    assert_eq!(opts.backoff_cap, Duration::from_secs(300));
}

#[test]
fn channels_are_named_after_queues() {
    assert_eq!(channel_name("emails"), "pgqueue_emails");
    assert_eq!(channel_name(""), "pgqueue_");
}

#[test]
fn the_worker_loop() {
    let mut registry: HandlerRegistry<u32> = HandlerRegistry::new();
    registry.register("log", 1);
    let opts = WorkerOptions::default();
    let mut worker = Worker::new();
    let mut step = |event| worker.step(&registry, &opts, event);
    assert!(matches!(step(WorkerEvent::Started { listening: true }), WorkerAction::Claim));
    assert!(matches!(
        step(WorkerEvent::Claimed { job: job(4, "log") }),
        WorkerAction::Run { job } if job.id == 4 && job.job_type == "log"
    ));
    assert!(matches!(
        step(WorkerEvent::Finished { job_id: 4, result: Ok(()) }),
        WorkerAction::Complete { job_id: 4 }
    ));
    assert!(matches!(step(WorkerEvent::Recorded), WorkerAction::Claim));
    assert!(matches!(
        step(WorkerEvent::Finished { job_id: 5, result: Err("boom".to_string()) }),
        WorkerAction::Fail { job_id: 5, error, .. } if error == "boom"
    ));
    assert!(matches!(step(WorkerEvent::NothingDue), WorkerAction::Listen { .. }));
    assert!(matches!(step(WorkerEvent::Notified), WorkerAction::Claim));
    assert!(matches!(step(WorkerEvent::PollElapsed), WorkerAction::Claim));
}

#[test]
fn a_broken_listener_means_polling_for_the_rest_of_the_run() {
    let registry: HandlerRegistry<u32> = HandlerRegistry::new();
    let opts = WorkerOptions::default();
    let mut worker = Worker::new();
    let mut step = |event| worker.step(&registry, &opts, event);
    step(WorkerEvent::Started { listening: true });
    assert!(matches!(step(WorkerEvent::ListenFailed), WorkerAction::Claim));
    for _ in 0..3 {
        assert!(matches!(
            step(WorkerEvent::NothingDue),
            WorkerAction::Sleep { interval } if interval == opts.poll_interval
        ));
        step(WorkerEvent::PollElapsed);
    }
    step(WorkerEvent::Started { listening: false });
    assert!(matches!(step(WorkerEvent::NothingDue), WorkerAction::Sleep { .. }));
}

fn stats() -> QueueStats {
    QueueStats { queue: "mail".to_string(), queued: 12, running: 0, done: 3, failed: 0, dead: 1 }
}

#[test]
fn the_page_shows_queues_and_jobs() {
    let mut dead = job(17, "digest");
    dead.status = "dead".to_string();
    dead.attempts = 3;
    dead.last_error = Some("boom".to_string());
    let page = index_page(&vec![stats()], &vec![dead, job(16, "welcome")]);
    let expected = r#"<!doctype html>
<html><head><title>pgqueue</title>
<style>
body { font-family: monospace; margin: 2rem; }
table { border-collapse: collapse; width: 100%; margin-bottom: 2rem; }
td, th { border: 1px solid #ccc; padding: 4px 8px; text-align: left; }
</style>
</head><body>
<h1>pgqueue</h1>
<h2>Queues</h2>
<table><tr><th>queue</th><th>queued</th><th>running</th><th>done</th><th>failed</th><th>dead</th></tr><tr><td>mail</td><td>12</td><td>0</td><td>3</td><td>0</td><td>1</td></tr></table>
<h2>Recent jobs (last 100)</h2>
<table><tr><th>id</th><th>queue</th><th>type</th><th>status</th><th>attempts</th><th>last_error</th><th></th></tr><tr><td>17</td><td>mail</td><td>digest</td><td>dead</td><td>3/3</td><td>boom</td><td><form method="post" action="/jobs/17/retry"><button type="submit">retry</button></form></td></tr><tr><td>16</td><td>mail</td><td>welcome</td><td>running</td><td>1/3</td><td></td><td></td></tr></table>
</body></html>"#;
    assert_eq!(page, expected);
    assert_eq!((PAGE_JOBS, LISTED_JOBS), (100, 200));
}

#[test]
fn an_empty_page_has_no_rows() {
    let page = index_page(&Queue::new().stats(None), &vec![]);
    assert!(page.contains("<th>dead</th></tr></table>"));
    assert!(page.ends_with("<th></th></tr></table>\n</body></html>"));
}

#[test]
fn retries_are_answered() {
    let yes = retry_reply(true);
    assert_eq!(yes, RetryReply::BackToPage);
    assert_eq!((yes.status(), yes.location(), yes.body()), (303, Some("/"), ""));
    let no = retry_reply(false);
    assert_eq!((no.status(), no.location(), no.body()), (404, None, "job not found or not dead"));
}

#[test]
fn lines_of_the_statistics() {
    assert_eq!(
        stats_header(),
        format!(
            "{:<15} {:>8} {:>8} {:>8} {:>8} {:>8}",
            "queue", "queued", "running", "done", "failed", "dead"
        )
    );
    let mut s = stats();
    assert_eq!(
        stats_line(&s),
        "mail                  12        0        3        0        1"
    );
    s.queue = "é queue with a long name".to_string();
    s.dead = -123_456_789;
    assert_eq!(
        stats_line(&s),
        format!(
            "{:<15} {:>8} {:>8} {:>8} {:>8} {:>8}",
            s.queue, s.queued, s.running, s.done, s.failed, s.dead
        )
    );
}

#[test]
fn lines_of_the_definitions() {
    assert_eq!(
        recurring_header(),
        format!(
            "{:<20} {:<12} {:<15} {:<18} {:<28}",
            "name", "queue", "job_type", "cron", "next_run_at"
        )
    );
    let t = Timestamp::new(0, 0).unwrap();
    let def = RecurringJob {
        id: 1,
        name: "nightly".to_string(),
        queue: "mail".to_string(),
        job_type: "digest".to_string(),
        payload: Value::Null,
        max_attempts: 3,
        cron_expr: "0 3 * * *".to_string(),
        next_run_at: t,
        last_enqueued_job_id: None,
        created_at: t,
    };
    assert_eq!(
        recurring_line(&def, "soon"),
        format!(
            "{:<20} {:<12} {:<15} {:<18} {}",
            "nightly", "mail", "digest", "0 3 * * *", "soon"
        )
    );
}

#[test]
fn other_lines() {
    assert_eq!(enqueued_line(5, "mail"), "enqueued job 5 on queue 'mail'");
    assert_eq!(retry_line(-1, true), "job -1 requeued");
    assert_eq!(retry_line(8, false), "job 8 not found or not dead");
    assert_eq!(
        registered_line("nightly", 2, "0 3 * * *"),
        "recurring job 'nightly' registered (id=2, cron='0 3 * * *')"
    );
}

#[test]
fn payloads_are_json() {
    let payload = parse_payload(r#"{"to": "a@b.com", "n": [1, 2]}"#).unwrap();
    assert_eq!(payload.get("to").and_then(|v| v.as_str()), Some("a@b.com"));
    assert_eq!(payload.get("n").and_then(|v| v.get(1)).and_then(|v| v.as_u64()), Some(2));
    assert_eq!(parse_payload("null").unwrap(), Value::Null);
    let e = parse_payload("{").unwrap_err();
    let expected = serde_json::from_str::<Value>("{").unwrap_err().to_string();
    assert_eq!(e.message, expected);
}
