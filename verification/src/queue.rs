//! The queue: its jobs and recurring-job definitions, and the operations on them.
//!
//! Every operation reads the clock once and then does its work as of that moment; the
//! `_as_of` form of an operation takes the moment as an argument.
use vstd::prelude::*;

use crate::cron;
use crate::cron_error::CronError;
use crate::duration::Duration;
use crate::job::{
    copy_payload, Job, JobRow, JobStatus, QueueStats, RecurringJob, RecurringRow, StatsRow,
};
use crate::retry::{fail_outcome, FailOutcome};
use crate::scheduler;
use crate::scheduler::{take_turn, Turn};
use crate::tables;
use crate::tables::Tables;
use crate::text;
use crate::text::{comes_before, same_text};
use crate::timestamp;
use crate::timestamp::{utc_now, Clock, Timestamp};

verus! {

/// Why an operation was refused. The tables are then as they were.
#[derive(Debug)]
pub enum QueueError {
    /// There is no job with this id.
    NoSuchJob,
    /// The job has been attempted as often as its counter can count.
    AttemptsOverflow,
    /// The table has given out its last id.
    IdsExhausted,
    /// A negative number of rows was asked for.
    NegativeLimit,
    /// A point in time lies past the end of the calendar.
    OutOfCalendar,
    /// The cron expression is refused, or never fires.
    Cron(CronError),
}

/// The jobs and the recurring-job definitions.
pub struct Queue {
    jobs: Vec<Job>,
    recurring: Vec<RecurringJob>,
    next_job_id: i64,
    next_recurring_id: i64,
    clock: Clock,
}

/// What the rows of the jobs table hold.
pub open spec fn job_rows(jobs: Seq<Job>) -> Seq<JobRow> {
    jobs.map_values(|job: Job| job@)
}

/// What the rows of the recurring-jobs table hold.
pub open spec fn recurring_rows(defs: Seq<RecurringJob>) -> Seq<RecurringRow> {
    defs.map_values(|def: RecurringJob| def@)
}

/// What the rows of a statistics listing hold.
pub open spec fn stats_rows(stats: Seq<QueueStats>) -> Seq<StatsRow> {
    stats.map_values(|s: QueueStats| s@)
}

/// What texts hold.
pub open spec fn texts(strings: Seq<String>) -> Seq<Seq<char>> {
    strings.map_values(|s: String| s@)
}

/// The queue that a listing is narrowed to.
pub open spec fn filter_of(queue: Option<&str>) -> Option<Seq<char>> {
    match queue {
        Some(q) => Some(q@),
        None => None,
    }
}

/// What enqueueing a job at `now` does and gives back.
pub open spec fn enqueued(
    before: Tables,
    after: Tables,
    r: Result<i64, QueueError>,
    queue: Seq<char>,
    job_type: Seq<char>,
    payload: serde_json::Value,
    max_attempts: i32,
    run_at: Timestamp,
    now: Timestamp,
) -> bool {
    match r {
        Ok(id) => {
            &&& before.next_job_id < i64::MAX
            &&& id == before.next_job_id
            &&& after == before.enqueue(queue, job_type, payload, max_attempts, run_at, now)
        },
        Err(e) => e is IdsExhausted && before.next_job_id == i64::MAX && after == before,
    }
}

/// What claiming a job of `queue` for `worker` at `now` does and gives back.
pub open spec fn claimed(
    before: Tables,
    after: Tables,
    r: Result<Option<Job>, QueueError>,
    queue: Seq<char>,
    worker: Seq<char>,
    now: Timestamp,
) -> bool {
    match r {
        Ok(Some(job)) => exists|i: int|
            {
                &&& #[trigger] before.next_claim(i, queue, now)
                &&& before.jobs[i].attempts < i32::MAX
                &&& after == before.claim(i, worker, now)
                &&& job@ == after.jobs[i]
            },
        Ok(None) => before.nothing_due(queue, now) && after == before,
        Err(e) => {
            &&& e is AttemptsOverflow
            &&& after == before
            &&& exists|i: int|
                #[trigger] before.next_claim(i, queue, now) && before.jobs[i].attempts == i32::MAX
        },
    }
}

/// What recording a failed attempt at `now` does and gives back.
pub open spec fn failed(
    before: Tables,
    after: Tables,
    r: Result<(), QueueError>,
    job_id: i64,
    error: Seq<char>,
    base: Duration,
    cap: Duration,
    now: Timestamp,
) -> bool {
    match r {
        Ok(()) => {
            &&& before.has_job(job_id)
            &&& before.outcome(job_id, base, cap, now) matches Some(outcome)
            &&& after == before.fail(job_id, error, outcome)
        },
        Err(QueueError::NoSuchJob) => !before.has_job(job_id) && after == before,
        Err(QueueError::OutOfCalendar) => {
            &&& before.has_job(job_id)
            &&& before.outcome(job_id, base, cap, now) is None
            &&& after == before
        },
        Err(_) => false,
    }
}

/// What registering `def` at `now` does and gives back.
pub open spec fn registered(
    before: Tables,
    after: Tables,
    r: Result<i64, QueueError>,
    def: RecurringRow,
    now: Timestamp,
) -> bool {
    let run = scheduler::run_after(def.cron_expr, now);
    match r {
        Ok(id) => {
            &&& scheduler::within_calendar(now)
            &&& run is Ok
            &&& after == before.register(def)
            &&& if before.has_recurring(def.name) {
                id == before.definition(def.name).id
            } else {
                id == before.next_recurring_id && id < i64::MAX
            }
        },
        Err(e) => {
            &&& after == before
            &&& match e {
                QueueError::Cron(e) => {
                    &&& scheduler::within_calendar(now) || cron::meaning(def.cron_expr) is Err
                    &&& run == Err::<Timestamp, _>((e.kind, e.text@))
                },
                QueueError::OutOfCalendar => {
                    &&& !scheduler::within_calendar(now)
                    &&& cron::meaning(def.cron_expr) is Ok
                },
                QueueError::IdsExhausted => {
                    &&& scheduler::within_calendar(now)
                    &&& run is Ok
                    &&& !before.has_recurring(def.name)
                    &&& before.next_recurring_id == i64::MAX
                },
                _ => false,
            }
        },
    }
}

/// What a tick at `now` does and gives back.
pub open spec fn ticked(
    before: Tables,
    after: Tables,
    r: Result<Vec<i64>, QueueError>,
    now: Timestamp,
) -> bool {
    let ids_needed = before.next_job_id + tables::firing(before.recurring, now);
    match r {
        Ok(ids) => {
            &&& !tables::out_of_calendar(before.recurring, now)
            &&& ids_needed <= i64::MAX
            &&& (after, ids@) == before.tick(before.recurring.len() as int, now)
        },
        Err(e) => {
            &&& after == before
            &&& match e {
                QueueError::OutOfCalendar => tables::out_of_calendar(before.recurring, now),
                QueueError::IdsExhausted => {
                    &&& !tables::out_of_calendar(before.recurring, now)
                    &&& ids_needed > i64::MAX
                },
                _ => false,
            }
        },
    }
}

impl View for Queue {
    type V = Tables;

    closed spec fn view(&self) -> Tables {
        Tables {
            jobs: job_rows(self.jobs@),
            recurring: recurring_rows(self.recurring@),
            next_job_id: self.next_job_id,
            next_recurring_id: self.next_recurring_id,
        }
    }
}

fn has_status(job: &Job, status: JobStatus) -> (r: bool)
    ensures
        r == job@.has(status),
{
    same_text(job.status.as_str(), status.as_db_str())
}

fn is_due(job: &Job, queue: &str, now: &Timestamp) -> (r: bool)
    ensures
        r == job@.due(queue@, *now),
{
    same_text(job.queue.as_str(), queue) && has_status(job, JobStatus::Queued)
        && job.run_at.at_or_before(now)
}

impl Queue {
    /// The instants that the clock has shown to this queue, in the order in which it was
    /// read.
    pub closed spec fn readings(&self) -> Seq<Timestamp> {
        self.clock@
    }

    /// A queue without jobs and definitions.
    pub fn new() -> (r: Queue)
        ensures
            r@ == Tables::empty(),
            r@.valid(),
            r.readings() == Seq::<Timestamp>::empty(),
    {
        let r = Queue {
            jobs: Vec::new(),
            recurring: Vec::new(),
            next_job_id: 1,
            next_recurring_id: 1,
            clock: Clock::new(),
        };
        assert(r@.jobs == Seq::<JobRow>::empty());
        assert(r@.recurring == Seq::<RecurringRow>::empty());
        r
    }

    /// The position of job `id`.
    fn find_job(&self, id: i64) -> (r: Option<usize>)
        ensures
            match r {
                Some(i) => i < self.jobs@.len() && self.jobs@[i as int].id == id,
                None => forall|i: int|
                    0 <= i < self.jobs@.len() ==> (#[trigger] self.jobs@[i]).id != id,
            },
    {
        let mut i: usize = 0;
        while i < self.jobs.len()
            invariant
                i <= self.jobs@.len(),
                forall|j: int| 0 <= j < i ==> (#[trigger] self.jobs@[j]).id != id,
            decreases self.jobs@.len() - i,
        {
            if self.jobs[i].id == id {
                return Some(i);
            }
            i = i + 1;
        }
        None
    }

    /// Adds a job that is due at `run_at`, and gives its id.
    pub fn enqueue_as_of(
        &mut self,
        queue: &str,
        job_type: &str,
        payload: serde_json::Value,
        max_attempts: i32,
        run_at: Timestamp,
        now: Timestamp,
    ) -> (r: Result<i64, QueueError>)
        requires
            old(self)@.valid(),
        ensures
            final(self)@.valid(),
            final(self).readings() == old(self).readings(),
            enqueued(
                old(self)@,
                final(self)@,
                r,
                queue@,
                job_type@,
                payload,
                max_attempts,
                run_at,
                now,
            ),
    {
        if self.next_job_id == i64::MAX {
            return Err(QueueError::IdsExhausted);
        }
        let id = self.next_job_id;
        let job = Job {
            id,
            queue: queue.to_owned(),
            job_type: job_type.to_owned(),
            payload,
            status: JobStatus::Queued.as_db_str().to_owned(),
            attempts: 0,
            max_attempts,
            run_at,
            locked_at: None,
            locked_by: None,
            last_error: None,
            created_at: now,
            completed_at: None,
        };
        self.jobs.push(job);
        self.next_job_id = id + 1;
        proof {
            assert(job@.has(JobStatus::Queued));
            assert(self@.jobs == old(self)@.jobs.push(job@));
        }
        Ok(id)
    }

    /// Claims the earliest due job of `queue` for `worker_id`, or `None` if nothing is due.
    pub fn claim_next_as_of(&mut self, queue: &str, worker_id: &str, now: Timestamp) -> (r: Result<
        Option<Job>,
        QueueError,
    >)
        requires
            old(self)@.valid(),
        ensures
            final(self)@.valid(),
            final(self).readings() == old(self).readings(),
            claimed(old(self)@, final(self)@, r, queue@, worker_id@, now),
    {
        let mut best: Option<usize> = None;
        let mut i: usize = 0;
        while i < self.jobs.len()
            invariant
                *self == *old(self),
                i <= self.jobs@.len(),
                match best {
                    Some(b) => {
                        &&& b < i
                        &&& self@.jobs[b as int].due(queue@, now)
                        &&& forall|j: int|
                            0 <= j < i && (#[trigger] self@.jobs[j]).due(queue@, now) && j != b ==> {
                                &&& self@.jobs[b as int].run_at.before_or_at(self@.jobs[j].run_at)
                                &&& self@.jobs[j].run_at.before_or_at(self@.jobs[b as int].run_at)
                                    ==> b < j
                            }
                    },
                    None => forall|j: int|
                        0 <= j < i ==> !(#[trigger] self@.jobs[j]).due(queue@, now),
                },
            decreases self.jobs@.len() - i,
        {
            assert(self@.jobs[i as int] == self.jobs@[i as int]@);
            if is_due(&self.jobs[i], queue, &now) {
                let better: bool = match best {
                    Some(b) => !self.jobs[b].run_at.at_or_before(&self.jobs[i].run_at),
                    None => true,
                };
                if better {
                    best = Some(i);
                }
            }
            i = i + 1;
        }
        match best {
            None => Ok(None),
            Some(b) => {
                assert(self@.next_claim(b as int, queue@, now));
                assert(self@.jobs[b as int] == self.jobs@[b as int]@);
                if self.jobs[b].attempts == i32::MAX {
                    return Err(QueueError::AttemptsOverflow);
                }
                let mut job = self.jobs[b].clone();
                job.status = JobStatus::Running.as_db_str().to_owned();
                job.attempts = job.attempts + 1;
                job.locked_at = Some(now);
                job.locked_by = Some(worker_id.to_owned());
                let copy = job.clone();
                self.jobs.set(b, job);
                proof {
                    assert(job@.has(JobStatus::Running));
                    assert(self@.jobs == old(self)@.jobs.update(b as int, job@));
                }
                Ok(Some(copy))
            },
        }
    }

    /// Marks job `job_id` as done. There may be no such job.
    pub fn complete_as_of(&mut self, job_id: i64, now: Timestamp)
        requires
            old(self)@.valid(),
        ensures
            final(self)@.valid(),
            final(self).readings() == old(self).readings(),
            final(self)@ == old(self)@.complete(job_id, now),
    {
        match self.find_job(job_id) {
            Some(i) => {
                let mut job = self.jobs[i].clone();
                job.status = JobStatus::Done.as_db_str().to_owned();
                job.completed_at = Some(now);
                self.jobs.set(i, job);
                proof {
                    assert(job@.has(JobStatus::Done));
                    assert(self@.jobs == old(self)@.jobs.update(i as int, job@));
                    old(self)@.lemma_job_at(i as int);
                }
                assert(self@.jobs == old(self)@.complete(job_id, now).jobs);
            },
            None => {
                assert(self@.jobs == old(self)@.complete(job_id, now).jobs);
            },
        }
    }

    /// Records a failed attempt at job `job_id`: it goes back to the queue after an
    /// exponential backoff while attempts remain, and is parked as dead otherwise.
    pub fn fail_as_of(
        &mut self,
        job_id: i64,
        error: &str,
        backoff_base: Duration,
        backoff_cap: Duration,
        now: Timestamp,
    ) -> (r: Result<(), QueueError>)
        requires
            old(self)@.valid(),
            now.valid(),
        ensures
            final(self)@.valid(),
            final(self).readings() == old(self).readings(),
            failed(
                old(self)@,
                final(self)@,
                r,
                job_id,
                error@,
                backoff_base,
                backoff_cap,
                now,
            ),
    {
        let i = match self.find_job(job_id) {
            Some(i) => i,
            None => {
                assert forall|i: int| 0 <= i < self@.jobs.len() implies (#[trigger] self@.jobs[i]).id
                    != job_id by {
                    assert(self.jobs@[i].id != job_id);
                }
                return Err(QueueError::NoSuchJob);
            },
        };
        proof {
            self@.lemma_job_at(i as int);
        }
        let outcome = match fail_outcome(
            self.jobs[i].attempts,
            self.jobs[i].max_attempts,
            backoff_base,
            backoff_cap,
            now,
        ) {
            Some(outcome) => outcome,
            None => {
                return Err(QueueError::OutOfCalendar);
            },
        };
        let mut job = self.jobs[i].clone();
        match outcome {
            FailOutcome::Dead => {
                job.status = JobStatus::Dead.as_db_str().to_owned();
            },
            FailOutcome::Retry { run_at } => {
                job.status = JobStatus::Queued.as_db_str().to_owned();
                job.run_at = run_at;
            },
        }
        job.last_error = Some(error.to_owned());
        job.locked_at = None;
        job.locked_by = None;
        self.jobs.set(i, job);
        proof {
            assert(job@.has(JobStatus::Dead) || job@.has(JobStatus::Queued));
            assert(self@.jobs == old(self)@.jobs.update(i as int, job@));
            assert(self@.jobs == old(self)@.fail(job_id, error@, outcome).jobs);
        }
        Ok(())
    }

    /// Puts a dead job back in the queue for a fresh set of attempts. Tells whether there
    /// was such a job.
    pub fn requeue_dead_as_of(&mut self, job_id: i64, now: Timestamp) -> (r: bool)
        requires
            old(self)@.valid(),
        ensures
            final(self)@.valid(),
            final(self).readings() == old(self).readings(),
            r == old(self)@.is_dead(job_id),
            final(self)@ == old(self)@.requeue_dead(job_id, now),
    {
        match self.find_job(job_id) {
            Some(i) => {
                proof {
                    self@.lemma_job_at(i as int);
                }
                assert(self@.jobs[i as int] == self.jobs@[i as int]@);
                if !has_status(&self.jobs[i], JobStatus::Dead) {
                    assert(self@.jobs == self@.requeue_dead(job_id, now).jobs);
                    return false;
                }
                let mut job = self.jobs[i].clone();
                job.status = JobStatus::Queued.as_db_str().to_owned();
                job.attempts = 0;
                job.run_at = now;
                job.last_error = None;
                self.jobs.set(i, job);
                proof {
                    assert(job@.has(JobStatus::Queued));
                    assert(self@.jobs == old(self)@.jobs.update(i as int, job@));
                    assert(self@.jobs == old(self)@.requeue_dead(job_id, now).jobs);
                }
                true
            },
            None => {
                assert forall|i: int| 0 <= i < self@.jobs.len() implies (#[trigger] self@.jobs[i]).id
                    != job_id by {
                    assert(self.jobs@[i].id != job_id);
                }
                assert(self@.jobs == self@.requeue_dead(job_id, now).jobs);
                false
            },
        }
    }

    /// How many jobs of `queue` have `status`.
    fn count_status(&self, queue: &str, status: JobStatus) -> (r: i64)
        requires
            self@.valid(),
        ensures
            r == tables::count(self@.jobs, queue@, status),
    {
        let mut n: i64 = 0;
        let mut i: usize = 0;
        let ghost rows = self@.jobs;
        assert(rows.take(0) == Seq::<JobRow>::empty());
        while i < self.jobs.len()
            invariant
                self@.valid(),
                rows == self@.jobs,
                rows.len() == self.jobs@.len(),
                i <= self.jobs@.len(),
                n == tables::count(rows.take(i as int), queue@, status),
                0 <= n <= i,
            decreases self.jobs@.len() - i,
        {
            proof {
                assert(rows[i as int] == self.jobs@[i as int]@);
                assert(rows.take(i + 1).drop_last() == rows.take(i as int));
                self@.lemma_ids_bound_len(i as int);
            }
            if same_text(self.jobs[i].queue.as_str(), queue) && has_status(&self.jobs[i], status) {
                n = n + 1;
            }
            i = i + 1;
        }
        assert(rows.take(i as int) == rows);
        n
    }

    /// Counts the jobs of every queue, or of `queue` alone, by status.
    pub fn stats(&self, queue: Option<&str>) -> (r: Vec<QueueStats>)
        requires
            self@.valid(),
        ensures
            self@.is_stats(stats_rows(r@), filter_of(queue)),
    {
        let names = self.queue_names(queue);
        let mut r: Vec<QueueStats> = Vec::new();
        let mut i: usize = 0;
        while i < names.len()
            invariant
                self@.valid(),
                i <= names@.len(),
                r@.len() == i,
                forall|j: int| 0 <= j < i ==> (#[trigger] r@[j])@ == self@.stats_of(names@[j]@),
            decreases names@.len() - i,
        {
            let name = names[i].as_str();
            r.push(
                QueueStats {
                    queue: name.to_owned(),
                    queued: self.count_status(name, JobStatus::Queued),
                    running: self.count_status(name, JobStatus::Running),
                    done: self.count_status(name, JobStatus::Done),
                    failed: self.count_status(name, JobStatus::Failed),
                    dead: self.count_status(name, JobStatus::Dead),
                },
            );
            i = i + 1;
        }
        proof {
            let rows = stats_rows(r@);
            assert forall|i: int| 0 <= i < rows.len() implies (#[trigger] rows[i]) == self@.stats_of(
                rows[i].queue,
            ) by {
                assert(r@[i]@ == self@.stats_of(names@[i]@));
            }
            assert(rows.map_values(|row: StatsRow| row.queue) =~= texts(names@)) by {
                assert forall|i: int| 0 <= i < rows.len() implies (#[trigger] rows[i]).queue
                    == texts(names@)[i] by {
                    assert(r@[i]@ == self@.stats_of(names@[i]@));
                }
            }
        }
        r
    }

    /// The newest jobs of every queue, or of `queue` alone: at most `limit` of them, the
    /// newest first.
    pub fn recent_jobs(&self, queue: Option<&str>, limit: i64) -> (r: Result<Vec<Job>, QueueError>)
        ensures
            match r {
                Ok(jobs) => limit >= 0 && job_rows(jobs@) == tables::first(
                    tables::newest(self@.jobs, filter_of(queue)),
                    limit as int,
                ),
                Err(e) => limit < 0 && e is NegativeLimit,
            },
    {
        if limit < 0 {
            return Err(QueueError::NegativeLimit);
        }
        let ghost rows = self@.jobs;
        let ghost all = tables::newest(rows, filter_of(queue));
        let mut jobs: Vec<Job> = Vec::new();
        let mut i: usize = self.jobs.len();
        assert(rows.take(i as int) == rows);
        assert(job_rows(jobs@) == Seq::<JobRow>::empty());
        while i > 0 && (jobs.len() as u64) < limit as u64
            invariant
                limit >= 0,
                i <= self.jobs@.len(),
                rows == self@.jobs,
                rows.len() == self.jobs@.len(),
                jobs@.len() <= limit,
                job_rows(jobs@) + tables::newest(rows.take(i as int), filter_of(queue)) == all,
            decreases i,
        {
            i = i - 1;
            let ghost before = job_rows(jobs@);
            let ghost rest = tables::newest(rows.take(i as int), filter_of(queue));
            proof {
                assert(rows[i as int] == self.jobs@[i as int]@);
                assert(rows.take(i + 1).drop_last() == rows.take(i as int));
            }
            let wanted: bool = match queue {
                Some(q) => same_text(self.jobs[i].queue.as_str(), q),
                None => true,
            };
            if wanted {
                jobs.push(self.jobs[i].clone());
                assert(job_rows(jobs@) == before.push(rows[i as int]));
                assert(before + (seq![rows[i as int]] + rest) == before.push(rows[i as int]) + rest);
            }
        }
        assert(job_rows(jobs@) == tables::first(all, limit as int));
        Ok(jobs)
    }

    /// The names of the listed queues that have a job, in order.
    fn queue_names(&self, queue: Option<&str>) -> (names: Vec<String>)
        ensures
            tables::lists_queues(self@.jobs, texts(names@), filter_of(queue)),
    {
        let mut names: Vec<String> = Vec::new();
        let mut i: usize = 0;
        let ghost rows = self@.jobs;
        assert(texts(names@) == Seq::<Seq<char>>::empty());
        while i < self.jobs.len()
            invariant
                i <= self.jobs@.len(),
                rows == self@.jobs,
                rows.len() == self.jobs@.len(),
                tables::lists_queues(rows.take(i as int), texts(names@), filter_of(queue)),
            decreases self.jobs@.len() - i,
        {
            let name = self.jobs[i].queue.as_str();
            let ghost before = texts(names@);
            let mut p: usize = 0;
            let wanted: bool = match queue {
                Some(q) => same_text(name, q),
                None => true,
            };
            if wanted {
                p = insert_name(&mut names, name);
            }
            proof {
                assert(rows[i as int] == self.jobs@[i as int]@);
                assert(rows.take(i + 1) == rows.take(i as int).push(rows[i as int]));
                tables::lemma_lists_queues_push(
                    rows.take(i as int),
                    before,
                    filter_of(queue),
                    rows[i as int],
                    texts(names@),
                    p as int,
                );
            }
            i = i + 1;
        }
        assert(rows.take(i as int) == rows);
        names
    }

    /// The position of the first definition that does not come before `name`.
    fn find_definition(&self, name: &str) -> (p: usize)
        ensures
            p <= self@.recurring.len(),
            p == self@.rank(name@),
            forall|i: int|
                0 <= i < p ==> text::precedes((#[trigger] self@.recurring[i]).name, name@),
            p < self@.recurring.len() ==> !text::precedes(self@.recurring[p as int].name, name@),
    {
        let ghost rows = self@.recurring;
        let mut p: usize = 0;
        while p < self.recurring.len() && comes_before(self.recurring[p].name.as_str(), name)
            invariant
                rows == self@.recurring,
                rows.len() == self.recurring@.len(),
                p <= self.recurring@.len(),
                forall|i: int| 0 <= i < p ==> text::precedes((#[trigger] rows[i]).name, name@),
            decreases self.recurring@.len() - p,
        {
            assert(rows[p as int] == self.recurring@[p as int]@);
            p = p + 1;
        }
        proof {
            if p < rows.len() {
                assert(rows[p as int] == self.recurring@[p as int]@);
            }
            tables::lemma_rank(rows, name@, p as int);
        }
        p
    }

    /// Registers a definition, or changes the one of this name in place: from now on it
    /// enqueues `job_type` with `payload` on `queue` every time that `cron_expr` says so.
    /// A definition whose expression stays the same keeps its next run.
    pub fn register_recurring_as_of(
        &mut self,
        name: &str,
        queue: &str,
        job_type: &str,
        payload: serde_json::Value,
        max_attempts: i32,
        cron_expr: &str,
        now: Timestamp,
    ) -> (r: Result<i64, QueueError>)
        requires
            old(self)@.valid(),
            now.valid(),
        ensures
            final(self)@.valid(),
            final(self).readings() == old(self).readings(),
            registered(
                old(self)@,
                final(self)@,
                r,
                tables::new_definition(
                    name@,
                    queue@,
                    job_type@,
                    payload,
                    max_attempts,
                    cron_expr@,
                    scheduler::run_after(cron_expr@, now)->Ok_0,
                    now,
                ),
                now,
            ),
    {
        let next_run_at = match take_turn(cron_expr, now) {
            Turn::Fire { next_run_at } => next_run_at,
            Turn::OutOfCalendar => {
                return Err(QueueError::OutOfCalendar);
            },
            Turn::Unreadable { error } => {
                return Err(QueueError::Cron(error));
            },
            Turn::NoRunTime { error } => {
                return Err(QueueError::Cron(error));
            },
        };
        let ghost before = self@;
        let ghost def = tables::new_definition(
            name@,
            queue@,
            job_type@,
            payload,
            max_attempts,
            cron_expr@,
            next_run_at,
            now,
        );
        let p = self.find_definition(name);
        if p < self.recurring.len() {
            assert(before.recurring[p as int] == self.recurring@[p as int]@);
            if same_text(self.recurring[p].name.as_str(), name) {
                let old_def = self.recurring[p].clone();
                let kept: bool = same_text(old_def.cron_expr.as_str(), cron_expr);
                let changed = RecurringJob {
                    id: old_def.id,
                    name: old_def.name,
                    queue: queue.to_owned(),
                    job_type: job_type.to_owned(),
                    payload,
                    max_attempts,
                    cron_expr: cron_expr.to_owned(),
                    next_run_at: if kept {
                        old_def.next_run_at
                    } else {
                        next_run_at
                    },
                    last_enqueued_job_id: old_def.last_enqueued_job_id,
                    created_at: old_def.created_at,
                };
                self.recurring.set(p, changed);
                proof {
                    before.lemma_definition_at(p as int);
                    assert(changed@ == before.recurring[p as int].redefined(def));
                    assert(self@.recurring == before.recurring.update(p as int, changed@));
                    assert(self@.recurring == before.register(def).recurring);
                    assert(tables::def_names(self@.recurring) == tables::def_names(
                        before.recurring,
                    ));
                }
                return Ok(old_def.id);
            }
        }
        proof {
            let names = tables::def_names(before.recurring);
            assert forall|i: int| 0 <= i < p implies text::precedes(#[trigger] names[i], name@) by {
                assert(text::precedes(before.recurring[i].name, name@));
            }
            tables::lemma_insert_in_order(names, name@, p as int);
            assert forall|i: int| 0 <= i < before.recurring.len() implies (
            #[trigger] before.recurring[i]).name != name@ by {
                assert(names[i] == before.recurring[i].name);
            }
        }
        if self.next_recurring_id == i64::MAX {
            return Err(QueueError::IdsExhausted);
        }
        let id = self.next_recurring_id;
        let new_def = RecurringJob {
            id,
            name: name.to_owned(),
            queue: queue.to_owned(),
            job_type: job_type.to_owned(),
            payload,
            max_attempts,
            cron_expr: cron_expr.to_owned(),
            next_run_at,
            last_enqueued_job_id: None,
            created_at: now,
        };
        self.recurring.insert(p, new_def);
        self.next_recurring_id = id + 1;
        proof {
            assert(self@.recurring == before.recurring.insert(p as int, new_def@));
            assert(tables::def_names(self@.recurring) == tables::def_names(
                before.recurring,
            ).insert(p as int, name@));
            assert(self@.jobs == before.jobs);
        }
        Ok(id)
    }

    /// Every definition, in the order of the names.
    pub fn list_recurring(&self) -> (r: Vec<RecurringJob>)
        requires
            self@.valid(),
        ensures
            recurring_rows(r@) == self@.recurring,
            tables::in_order(tables::def_names(recurring_rows(r@))),
    {
        let mut r: Vec<RecurringJob> = Vec::new();
        let mut i: usize = 0;
        let ghost rows = self@.recurring;
        while i < self.recurring.len()
            invariant
                i <= self.recurring@.len(),
                rows == self@.recurring,
                rows.len() == self.recurring@.len(),
                recurring_rows(r@) == rows.take(i as int),
            decreases self.recurring@.len() - i,
        {
            assert(rows[i as int] == self.recurring@[i as int]@);
            let ghost before = recurring_rows(r@);
            r.push(self.recurring[i].clone());
            i = i + 1;
            assert(recurring_rows(r@) == before.push(rows[i - 1]));
            assert(rows.take(i as int) == rows.take(i - 1).push(rows[i - 1]));
        }
        r
    }

    /// The definition of this name.
    pub fn get_recurring(&self, name: &str) -> (r: Option<RecurringJob>)
        requires
            self@.valid(),
        ensures
            match r {
                Some(def) => self@.has_recurring(name@) && def@ == self@.definition(name@),
                None => !self@.has_recurring(name@),
            },
    {
        let mut i: usize = 0;
        while i < self.recurring.len()
            invariant
                self@.valid(),
                i <= self.recurring@.len(),
                forall|j: int| 0 <= j < i ==> (#[trigger] self@.recurring[j]).name != name@,
            decreases self.recurring@.len() - i,
        {
            assert(self@.recurring[i as int] == self.recurring@[i as int]@);
            if same_text(self.recurring[i].name.as_str(), name) {
                proof {
                    self@.lemma_definition_at(i as int);
                }
                return Some(self.recurring[i].clone());
            }
            i = i + 1;
        }
        None
    }

    /// The next run of every definition that fires at `now`, or `None` where the search for
    /// one of them would leave the calendar.
    fn runs(&self, now: Timestamp) -> (r: Option<Vec<Option<Timestamp>>>)
        requires
            now.valid(),
        ensures
            match r {
                Some(runs) => {
                    &&& !tables::out_of_calendar(self@.recurring, now)
                    &&& runs@.len() == self@.recurring.len()
                    &&& forall|i: int|
                        0 <= i < runs@.len() ==> (#[trigger] runs@[i]) == (
                        if self@.recurring[i].fires(now) {
                            Some(scheduler::run_after(self@.recurring[i].cron_expr, now)->Ok_0)
                        } else {
                            None
                        })
                },
                None => tables::out_of_calendar(self@.recurring, now),
            },
    {
        let ghost rows = self@.recurring;
        let mut r: Vec<Option<Timestamp>> = Vec::new();
        let mut i: usize = 0;
        while i < self.recurring.len()
            invariant
                now.valid(),
                i <= self.recurring@.len(),
                rows == self@.recurring,
                rows.len() == self.recurring@.len(),
                r@.len() == i,
                !scheduler::within_calendar(now) ==> forall|j: int|
                    0 <= j < i ==> !(#[trigger] rows[j]).due_and_readable(now),
                forall|j: int|
                    0 <= j < i ==> (#[trigger] r@[j]) == (if rows[j].fires(now) {
                        Some(scheduler::run_after(rows[j].cron_expr, now)->Ok_0)
                    } else {
                        None
                    }),
            decreases self.recurring@.len() - i,
        {
            assert(rows[i as int] == self.recurring@[i as int]@);
            let run: Option<Timestamp> = if self.recurring[i].next_run_at.at_or_before(&now) {
                match take_turn(self.recurring[i].cron_expr.as_str(), now) {
                    Turn::Fire { next_run_at } => Some(next_run_at),
                    Turn::OutOfCalendar => {
                        assert(rows[i as int].due_and_readable(now));
                        return None;
                    },
                    Turn::Unreadable { .. } => None,
                    Turn::NoRunTime { .. } => None,
                }
            } else {
                None
            };
            r.push(run);
            i = i + 1;
        }
        Some(r)
    }

    /// Whether there is an id for every definition that fires at `now`.
    fn ids_suffice(&self, runs: &Vec<Option<Timestamp>>, now: Timestamp) -> (r: bool)
        requires
            self@.next_job_id >= 1,
            runs@.len() == self@.recurring.len(),
            forall|i: int|
                0 <= i < runs@.len() ==> ((#[trigger] runs@[i]) is Some)
                    == self@.recurring[i].fires(now),
        ensures
            r == (self@.next_job_id + tables::firing(self@.recurring, now) <= i64::MAX),
    {
        let ghost defs = self@.recurring;
        let room: i64 = i64::MAX - self.next_job_id;
        let mut wanted: i64 = 0;
        let mut i: usize = 0;
        assert(defs.take(0) == Seq::<RecurringRow>::empty());
        while i < runs.len()
            invariant
                runs@.len() == defs.len(),
                forall|j: int|
                    0 <= j < runs@.len() ==> ((#[trigger] runs@[j]) is Some) == defs[j].fires(now),
                i <= runs@.len(),
                wanted == tables::firing(defs.take(i as int), now),
                0 <= wanted <= room,
                defs == self@.recurring,
                room == i64::MAX - self@.next_job_id,
            decreases runs@.len() - i,
        {
            proof {
                assert(defs.take(i + 1).drop_last() == defs.take(i as int));
                tables::lemma_firing_take(defs, now, i + 1);
            }
            if runs[i].is_some() {
                if wanted == room {
                    return false;
                }
                wanted = wanted + 1;
            }
            i = i + 1;
        }
        assert(defs.take(i as int) == defs);
        true
    }

    /// Enqueues a job for every definition that is due, and moves each of these on to its
    /// next run; gives the ids of the jobs. A definition whose expression does not parse,
    /// or never fires again, is passed over.
    pub fn tick_recurring_as_of(&mut self, now: Timestamp) -> (r: Result<Vec<i64>, QueueError>)
        requires
            old(self)@.valid(),
            now.valid(),
        ensures
            final(self)@.valid(),
            final(self).readings() == old(self).readings(),
            ticked(old(self)@, final(self)@, r, now),
    {
        let ghost before = self@;
        let ghost defs = before.recurring;
        let runs = match self.runs(now) {
            Some(runs) => runs,
            None => {
                return Err(QueueError::OutOfCalendar);
            },
        };
        if !self.ids_suffice(&runs, now) {
            return Err(QueueError::IdsExhausted);
        }
        let mut ids: Vec<i64> = Vec::new();
        let mut i: usize = 0;
        while i < runs.len()
            invariant
                self@.valid(),
                self.readings() == old(self).readings(),
                defs == before.recurring,
                runs@.len() == defs.len(),
                self@.recurring.len() == defs.len(),
                before.next_job_id + tables::firing(defs, now) <= i64::MAX,
                forall|j: int|
                    0 <= j < runs@.len() ==> (#[trigger] runs@[j]) == (if defs[j].fires(now) {
                        Some(scheduler::run_after(defs[j].cron_expr, now)->Ok_0)
                    } else {
                        None
                    }),
                i <= runs@.len(),
                self@ == before.tick(i as int, now).0,
                ids@ == before.tick(i as int, now).1,
            decreases runs@.len() - i,
        {
            let ghost tables = self@;
            proof {
                before.lemma_tick(i as int, now);
                before.lemma_tick(i + 1, now);
                tables::lemma_firing_take(defs, now, i + 1);
                assert(defs.take(i + 1).drop_last() == defs.take(i as int));
                assert(tables.recurring[i as int] == defs[i as int]);
            }
            match runs[i] {
                Some(t) => {
                    assert(self@.recurring[i as int] == self.recurring@[i as int]@);
                    let mut def = self.recurring[i].clone();
                    let id: i64 = match self.enqueue_as_of(
                        def.queue.as_str(),
                        def.job_type.as_str(),
                        copy_payload(&def.payload),
                        def.max_attempts,
                        now,
                        now,
                    ) {
                        Ok(id) => id,
                        Err(e) => {
                            return Err(e);
                        },
                    };
                    def.next_run_at = t;
                    def.last_enqueued_job_id = Some(id);
                    assert(self@.recurring == tables.recurring);
                    let ghost queued = self@;
                    self.recurring.set(i, def);
                    ids.push(id);
                    proof {
                        assert(def@ == defs[i as int].fired(id, now));
                        assert(self@.recurring == tables.recurring.update(i as int, def@));
                        assert(self@.jobs == queued.jobs);
                        assert(tables::def_names(self@.recurring) == tables::def_names(
                            tables.recurring,
                        ));
                        assert(self@ == tables.fire(i as int, now));
                    }
                },
                None => {},
            }
            i = i + 1;
        }
        Ok(ids)
    }

    /// Adds a job that is due at once, and gives its id.
    pub fn enqueue(
        &mut self,
        queue: &str,
        job_type: &str,
        payload: serde_json::Value,
        max_attempts: i32,
    ) -> (r: Result<i64, QueueError>)
        requires
            old(self)@.valid(),
        ensures
            final(self)@.valid(),
            timestamp::on_clock(final(self).readings().last()),
            final(self).readings() == old(self).readings().push(final(self).readings().last()),
            enqueued(
                old(self)@,
                final(self)@,
                r,
                queue@,
                job_type@,
                payload,
                max_attempts,
                final(self).readings().last(),
                final(self).readings().last(),
            ),
    {
        let now = utc_now(&mut self.clock);
        self.enqueue_as_of(queue, job_type, payload, max_attempts, now, now)
    }

    /// Adds a job that is due at `run_at`, and gives its id.
    pub fn enqueue_at(
        &mut self,
        queue: &str,
        job_type: &str,
        payload: serde_json::Value,
        max_attempts: i32,
        run_at: Timestamp,
    ) -> (r: Result<i64, QueueError>)
        requires
            old(self)@.valid(),
        ensures
            final(self)@.valid(),
            timestamp::on_clock(final(self).readings().last()),
            final(self).readings() == old(self).readings().push(final(self).readings().last()),
            enqueued(
                old(self)@,
                final(self)@,
                r,
                queue@,
                job_type@,
                payload,
                max_attempts,
                run_at,
                final(self).readings().last(),
            ),
    {
        let now = utc_now(&mut self.clock);
        self.enqueue_as_of(queue, job_type, payload, max_attempts, run_at, now)
    }

    /// Claims the earliest due job of `queue` for `worker_id`, or `None` if nothing is due.
    pub fn claim_next(&mut self, queue: &str, worker_id: &str) -> (r: Result<
        Option<Job>,
        QueueError,
    >)
        requires
            old(self)@.valid(),
        ensures
            final(self)@.valid(),
            timestamp::on_clock(final(self).readings().last()),
            final(self).readings() == old(self).readings().push(final(self).readings().last()),
            claimed(
                old(self)@,
                final(self)@,
                r,
                queue@,
                worker_id@,
                final(self).readings().last(),
            ),
    {
        let now = utc_now(&mut self.clock);
        self.claim_next_as_of(queue, worker_id, now)
    }

    /// Marks job `job_id` as done. There may be no such job.
    pub fn complete(&mut self, job_id: i64)
        requires
            old(self)@.valid(),
        ensures
            final(self)@.valid(),
            timestamp::on_clock(final(self).readings().last()),
            final(self).readings() == old(self).readings().push(final(self).readings().last()),
            final(self)@ == old(self)@.complete(job_id, final(self).readings().last()),
    {
        let now = utc_now(&mut self.clock);
        self.complete_as_of(job_id, now)
    }

    /// Records a failed attempt at job `job_id`: it goes back to the queue after an
    /// exponential backoff while attempts remain, and is parked as dead otherwise.
    pub fn fail(
        &mut self,
        job_id: i64,
        error: &str,
        backoff_base: Duration,
        backoff_cap: Duration,
    ) -> (r: Result<(), QueueError>)
        requires
            old(self)@.valid(),
        ensures
            final(self)@.valid(),
            timestamp::on_clock(final(self).readings().last()),
            final(self).readings() == old(self).readings().push(final(self).readings().last()),
            failed(
                old(self)@,
                final(self)@,
                r,
                job_id,
                error@,
                backoff_base,
                backoff_cap,
                final(self).readings().last(),
            ),
    {
        let now = utc_now(&mut self.clock);
        self.fail_as_of(job_id, error, backoff_base, backoff_cap, now)
    }

    /// Puts a dead job back in the queue for a fresh set of attempts. Tells whether there
    /// was such a job.
    pub fn requeue_dead(&mut self, job_id: i64) -> (r: bool)
        requires
            old(self)@.valid(),
        ensures
            final(self)@.valid(),
            timestamp::on_clock(final(self).readings().last()),
            final(self).readings() == old(self).readings().push(final(self).readings().last()),
            r == old(self)@.is_dead(job_id),
            final(self)@ == old(self)@.requeue_dead(job_id, final(self).readings().last()),
    {
        let now = utc_now(&mut self.clock);
        self.requeue_dead_as_of(job_id, now)
    }

    /// Registers a definition, or changes the one of this name in place. A definition whose
    /// expression stays the same keeps its next run, so that this can be called on every
    /// start of an application.
    pub fn register_recurring(
        &mut self,
        name: &str,
        queue: &str,
        job_type: &str,
        payload: serde_json::Value,
        max_attempts: i32,
        cron_expr: &str,
    ) -> (r: Result<i64, QueueError>)
        requires
            old(self)@.valid(),
        ensures
            final(self)@.valid(),
            timestamp::on_clock(final(self).readings().last()),
            final(self).readings() == old(self).readings().push(final(self).readings().last()),
            registered(
                old(self)@,
                final(self)@,
                r,
                tables::new_definition(
                    name@,
                    queue@,
                    job_type@,
                    payload,
                    max_attempts,
                    cron_expr@,
                    scheduler::run_after(cron_expr@, final(self).readings().last())->Ok_0,
                    final(self).readings().last(),
                ),
                final(self).readings().last(),
            ),
    {
        let now = utc_now(&mut self.clock);
        self.register_recurring_as_of(name, queue, job_type, payload, max_attempts, cron_expr, now)
    }

    /// Enqueues a job for every definition that is due, and moves each of these on to its
    /// next run; gives the ids of the jobs.
    pub fn tick_recurring(&mut self) -> (r: Result<Vec<i64>, QueueError>)
        requires
            old(self)@.valid(),
        ensures
            final(self)@.valid(),
            timestamp::on_clock(final(self).readings().last()),
            final(self).readings() == old(self).readings().push(final(self).readings().last()),
            ticked(old(self)@, final(self)@, r, final(self).readings().last()),
            tables::none_readable(old(self)@.recurring) ==> r is Ok && r->Ok_0@.len() == 0
                && final(self)@ == old(self)@,
    {
        let now = utc_now(&mut self.clock);
        proof {
            if tables::none_readable(self@.recurring) {
                self@.lemma_unreadable_tick(self@.recurring.len() as int, now);
            }
        }
        self.tick_recurring_as_of(now)
    }
}

/// Puts `name` in its place among `names`, unless it is there, and gives the place.
fn insert_name(names: &mut Vec<String>, name: &str) -> (p: usize)
    requires
        tables::in_order(texts(old(names)@)),
    ensures
        p <= old(names)@.len(),
        tables::in_order(texts(final(names)@)),
        texts(final(names)@) == (if texts(old(names)@).contains(name@) {
            texts(old(names)@)
        } else {
            texts(old(names)@).insert(p as int, name@)
        }),
{
    let ghost before = texts(names@);
    let mut p: usize = 0;
    while p < names.len() && comes_before(names[p].as_str(), name)
        invariant
            *names == *old(names),
            before == texts(names@),
            p <= names@.len(),
            forall|i: int| 0 <= i < p ==> text::precedes(#[trigger] before[i], name@),
        decreases names@.len() - p,
    {
        assert(before[p as int] == names@[p as int]@);
        p = p + 1;
    }
    if p < names.len() {
        assert(before[p as int] == names@[p as int]@);
        if same_text(names[p].as_str(), name) {
            return p;
        }
    }
    proof {
        tables::lemma_insert_in_order(before, name@, p as int);
    }
    let owned = name.to_owned();
    names.insert(p, owned);
    assert(texts(names@) =~= before.insert(p as int, name@));
    p
}

} // verus!
