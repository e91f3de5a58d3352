//! The rows of the queue: jobs, recurring-job definitions and per-queue counts.
use vstd::prelude::*;

use crate::text::same_text;
use crate::timestamp::Timestamp;

verus! {

#[derive(Debug, Clone, Copy, PartialEq, Eq, Structural)]
pub enum JobStatus {
    Queued,
    Running,
    Done,
    Failed,
    /// Every attempt failed: parked for inspection, and not picked up by a worker again
    /// until it is requeued by hand.
    Dead,
}

impl JobStatus {
    /// How the status is written in the `status` column.
    pub open spec fn db_str(self) -> Seq<char> {
        match self {
            JobStatus::Queued => "queued"@,
            JobStatus::Running => "running"@,
            JobStatus::Done => "done"@,
            JobStatus::Failed => "failed"@,
            JobStatus::Dead => "dead"@,
        }
    }

    pub fn as_db_str(&self) -> (r: &'static str)
        ensures
            r@ == self.db_str(),
    {
        match self {
            JobStatus::Queued => "queued",
            JobStatus::Running => "running",
            JobStatus::Done => "done",
            JobStatus::Failed => "failed",
            JobStatus::Dead => "dead",
        }
    }

    pub fn from_db_str(s: &str) -> (r: Option<Self>)
        ensures
            match r {
                Some(status) => s@ == status.db_str(),
                None => forall|status: JobStatus| s@ != #[trigger] status.db_str(),
            },
    {
        if same_text(s, "queued") {
            Some(JobStatus::Queued)
        } else if same_text(s, "running") {
            Some(JobStatus::Running)
        } else if same_text(s, "done") {
            Some(JobStatus::Done)
        } else if same_text(s, "failed") {
            Some(JobStatus::Failed)
        } else if same_text(s, "dead") {
            Some(JobStatus::Dead)
        } else {
            None
        }
    }
}

/// No two statuses are written alike, so that what is written reads back.
pub proof fn law_status_reads_back(a: JobStatus, b: JobStatus)
    ensures
        a.db_str() == b.db_str() <==> a == b,
{
    reveal_strlit("queued");
    reveal_strlit("running");
    reveal_strlit("done");
    reveal_strlit("failed");
    reveal_strlit("dead");
    assert("queued"@[0] == 'q' && "running"@[0] == 'r' && "failed"@[0] == 'f');
    assert("done"@[1] == 'o' && "dead"@[1] == 'e' && "done"@[0] == 'd' && "dead"@[0] == 'd');
}

/// `serde_json::Value`: the payload of a job. The queue stores it and hands it out, and
/// never looks inside.
#[verifier::external_type_specification]
#[verifier::external_body]
pub struct ExValue(serde_json::Value);

/// `serde_json::Value::clone`: a copy equal to the value.
#[verifier::external_body]
pub(crate) fn copy_payload(payload: &serde_json::Value) -> (r: serde_json::Value)
    ensures
        r == *payload,
{
    payload.clone()
}

/// A job, as a row of the jobs table.
#[derive(Debug)]
pub struct Job {
    pub id: i64,
    pub queue: String,
    pub job_type: String,
    pub payload: serde_json::Value,
    pub status: String,
    pub attempts: i32,
    pub max_attempts: i32,
    pub run_at: Timestamp,
    pub locked_at: Option<Timestamp>,
    pub locked_by: Option<String>,
    pub last_error: Option<String>,
    pub created_at: Timestamp,
    pub completed_at: Option<Timestamp>,
}

/// What a row of the jobs table holds.
pub struct JobRow {
    pub id: i64,
    pub queue: Seq<char>,
    pub job_type: Seq<char>,
    pub payload: serde_json::Value,
    pub status: Seq<char>,
    pub attempts: i32,
    pub max_attempts: i32,
    pub run_at: Timestamp,
    pub locked_at: Option<Timestamp>,
    pub locked_by: Option<Seq<char>>,
    pub last_error: Option<Seq<char>>,
    pub created_at: Timestamp,
    pub completed_at: Option<Timestamp>,
}

/// What an optional text holds.
pub open spec fn text_of(s: Option<String>) -> Option<Seq<char>> {
    match s {
        Some(s) => Some(s@),
        None => None,
    }
}

impl View for Job {
    type V = JobRow;

    open spec fn view(&self) -> JobRow {
        JobRow {
            id: self.id,
            queue: self.queue@,
            job_type: self.job_type@,
            payload: self.payload,
            status: self.status@,
            attempts: self.attempts,
            max_attempts: self.max_attempts,
            run_at: self.run_at,
            locked_at: self.locked_at,
            locked_by: text_of(self.locked_by),
            last_error: text_of(self.last_error),
            created_at: self.created_at,
            completed_at: self.completed_at,
        }
    }
}

impl Clone for Job {
    fn clone(&self) -> (r: Self)
        ensures
            r@ == self@,
    {
        Job {
            id: self.id,
            queue: self.queue.clone(),
            job_type: self.job_type.clone(),
            payload: copy_payload(&self.payload),
            status: self.status.clone(),
            attempts: self.attempts,
            max_attempts: self.max_attempts,
            run_at: self.run_at,
            locked_at: self.locked_at,
            locked_by: self.locked_by.clone(),
            last_error: self.last_error.clone(),
            created_at: self.created_at,
            completed_at: self.completed_at,
        }
    }
}

/// How many jobs of a queue have each status.
#[derive(Debug, Clone, Default)]
pub struct QueueStats {
    pub queue: String,
    pub queued: i64,
    pub running: i64,
    pub done: i64,
    pub failed: i64,
    pub dead: i64,
}

impl View for QueueStats {
    type V = StatsRow;

    open spec fn view(&self) -> StatsRow {
        StatsRow {
            queue: self.queue@,
            queued: self.queued as int,
            running: self.running as int,
            done: self.done as int,
            failed: self.failed as int,
            dead: self.dead as int,
        }
    }
}

/// The counts of one queue.
pub struct StatsRow {
    pub queue: Seq<char>,
    pub queued: int,
    pub running: int,
    pub done: int,
    pub failed: int,
    pub dead: int,
}

/// A recurring-job definition: a template that is turned into an ordinary job whenever
/// `next_run_at` is due.
#[derive(Debug)]
pub struct RecurringJob {
    pub id: i64,
    pub name: String,
    pub queue: String,
    pub job_type: String,
    pub payload: serde_json::Value,
    pub max_attempts: i32,
    pub cron_expr: String,
    pub next_run_at: Timestamp,
    pub last_enqueued_job_id: Option<i64>,
    pub created_at: Timestamp,
}

/// What a row of the recurring-jobs table holds.
pub struct RecurringRow {
    pub id: i64,
    pub name: Seq<char>,
    pub queue: Seq<char>,
    pub job_type: Seq<char>,
    pub payload: serde_json::Value,
    pub max_attempts: i32,
    pub cron_expr: Seq<char>,
    pub next_run_at: Timestamp,
    pub last_enqueued_job_id: Option<i64>,
    pub created_at: Timestamp,
}

impl View for RecurringJob {
    type V = RecurringRow;

    open spec fn view(&self) -> RecurringRow {
        RecurringRow {
            id: self.id,
            name: self.name@,
            queue: self.queue@,
            job_type: self.job_type@,
            payload: self.payload,
            max_attempts: self.max_attempts,
            cron_expr: self.cron_expr@,
            next_run_at: self.next_run_at,
            last_enqueued_job_id: self.last_enqueued_job_id,
            created_at: self.created_at,
        }
    }
}

impl Clone for RecurringJob {
    fn clone(&self) -> (r: Self)
        ensures
            r@ == self@,
    {
        RecurringJob {
            id: self.id,
            name: self.name.clone(),
            queue: self.queue.clone(),
            job_type: self.job_type.clone(),
            payload: copy_payload(&self.payload),
            max_attempts: self.max_attempts,
            cron_expr: self.cron_expr.clone(),
            next_run_at: self.next_run_at,
            last_enqueued_job_id: self.last_enqueued_job_id,
            created_at: self.created_at,
        }
    }
}

/// What a row holds is what its fields hold, each in its place.
pub proof fn law_rows_hold_their_fields(job: Job, def: RecurringJob, stats: QueueStats)
    ensures
        job@.id == job.id,
        job@.queue == job.queue@,
        job@.job_type == job.job_type@,
        job@.payload == job.payload,
        job@.status == job.status@,
        job@.attempts == job.attempts,
        job@.max_attempts == job.max_attempts,
        job@.run_at == job.run_at,
        job@.locked_at == job.locked_at,
        job.locked_by is Some <==> job@.locked_by is Some,
        job.locked_by is Some ==> job@.locked_by == Some(job.locked_by->Some_0@),
        job.last_error is Some <==> job@.last_error is Some,
        job.last_error is Some ==> job@.last_error == Some(job.last_error->Some_0@),
        job@.created_at == job.created_at,
        job@.completed_at == job.completed_at,
        def@.id == def.id,
        def@.name == def.name@,
        def@.queue == def.queue@,
        def@.job_type == def.job_type@,
        def@.payload == def.payload,
        def@.max_attempts == def.max_attempts,
        def@.cron_expr == def.cron_expr@,
        def@.next_run_at == def.next_run_at,
        def@.last_enqueued_job_id == def.last_enqueued_job_id,
        def@.created_at == def.created_at,
        stats@.queue == stats.queue@,
        stats@.queued == stats.queued,
        stats@.running == stats.running,
        stats@.done == stats.done,
        stats@.failed == stats.failed,
        stats@.dead == stats.dead,
{
}

} // verus!
