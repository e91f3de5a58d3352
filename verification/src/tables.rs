//! What the jobs table and the recurring-jobs table hold, and what each operation of the
//! queue does to them.
use vstd::prelude::*;

use crate::cron;
use crate::duration::Duration;
use crate::job::{JobRow, JobStatus, RecurringRow, StatsRow};
use crate::retry;
use crate::retry::FailOutcome;
use crate::scheduler;
use crate::text;
use crate::timestamp::Timestamp;

verus! {

/// The two tables, and the ids that their next rows get.
pub struct Tables {
    pub jobs: Seq<JobRow>,
    pub recurring: Seq<RecurringRow>,
    pub next_job_id: i64,
    pub next_recurring_id: i64,
}

/// A job as it is inserted.
pub open spec fn new_job(
    id: i64,
    queue: Seq<char>,
    job_type: Seq<char>,
    payload: serde_json::Value,
    max_attempts: i32,
    run_at: Timestamp,
    now: Timestamp,
) -> JobRow {
    JobRow {
        id,
        queue,
        job_type,
        payload,
        status: JobStatus::Queued.db_str(),
        attempts: 0,
        max_attempts,
        run_at,
        locked_at: None,
        locked_by: None,
        last_error: None,
        created_at: now,
        completed_at: None,
    }
}

impl JobRow {
    pub open spec fn has(self, status: JobStatus) -> bool {
        self.status == status.db_str()
    }

    /// The status is one of the five.
    pub open spec fn known_status(self) -> bool {
        ||| self.has(JobStatus::Queued)
        ||| self.has(JobStatus::Running)
        ||| self.has(JobStatus::Done)
        ||| self.has(JobStatus::Failed)
        ||| self.has(JobStatus::Dead)
    }

    /// A worker of `queue` may claim this job at `now`.
    pub open spec fn due(self, queue: Seq<char>, now: Timestamp) -> bool {
        self.queue == queue && self.has(JobStatus::Queued) && self.run_at.before_or_at(now)
    }

    /// The job once `worker` has claimed it.
    pub open spec fn claimed(self, worker: Seq<char>, now: Timestamp) -> JobRow {
        JobRow {
            status: JobStatus::Running.db_str(),
            attempts: (self.attempts + 1) as i32,
            locked_at: Some(now),
            locked_by: Some(worker),
            ..self
        }
    }

    /// The job once it is finished.
    pub open spec fn completed(self, now: Timestamp) -> JobRow {
        JobRow { status: JobStatus::Done.db_str(), completed_at: Some(now), ..self }
    }

    /// The job once an attempt has failed with `error`.
    pub open spec fn failed(self, error: Seq<char>, outcome: FailOutcome) -> JobRow {
        match outcome {
            FailOutcome::Dead => JobRow {
                status: JobStatus::Dead.db_str(),
                last_error: Some(error),
                locked_at: None,
                locked_by: None,
                ..self
            },
            FailOutcome::Retry { run_at } => JobRow {
                status: JobStatus::Queued.db_str(),
                run_at,
                last_error: Some(error),
                locked_at: None,
                locked_by: None,
                ..self
            },
        }
    }

    /// The job, put back with a fresh set of attempts.
    pub open spec fn requeued(self, now: Timestamp) -> JobRow {
        JobRow {
            status: JobStatus::Queued.db_str(),
            attempts: 0,
            run_at: now,
            last_error: None,
            ..self
        }
    }
}

impl RecurringRow {
    pub open spec fn due(self, now: Timestamp) -> bool {
        self.next_run_at.before_or_at(now)
    }

    /// The definition is due at `now`, and its expression parses.
    pub open spec fn due_and_readable(self, now: Timestamp) -> bool {
        self.due(now) && cron::meaning(self.cron_expr) is Ok
    }

    /// The definition fires at `now`: it is due, and its expression has a next run.
    pub open spec fn fires(self, now: Timestamp) -> bool {
        self.due(now) && scheduler::run_after(self.cron_expr, now) is Ok
    }

    /// The definition once it is registered again as `def`.
    pub open spec fn redefined(self, def: RecurringRow) -> RecurringRow {
        RecurringRow {
            queue: def.queue,
            job_type: def.job_type,
            payload: def.payload,
            max_attempts: def.max_attempts,
            cron_expr: def.cron_expr,
            next_run_at: if self.cron_expr == def.cron_expr {
                self.next_run_at
            } else {
                def.next_run_at
            },
            ..self
        }
    }

    /// The definition once it has fired as job `job_id`.
    pub open spec fn fired(self, job_id: i64, now: Timestamp) -> RecurringRow {
        RecurringRow {
            next_run_at: scheduler::run_after(self.cron_expr, now)->Ok_0,
            last_enqueued_job_id: Some(job_id),
            ..self
        }
    }
}

/// Whether a listing of `filter`, or of all queues, takes in `queue`.
pub open spec fn listed(queue: Seq<char>, filter: Option<Seq<char>>) -> bool {
    match filter {
        Some(name) => queue == name,
        None => true,
    }
}

/// Some job belongs to `queue`.
pub open spec fn has_queue(jobs: Seq<JobRow>, queue: Seq<char>) -> bool {
    exists|i: int| 0 <= i < jobs.len() && (#[trigger] jobs[i]).queue == queue
}

/// The names are in the order of their characters' code points, and none occurs twice.
pub open spec fn in_order(names: Seq<Seq<char>>) -> bool {
    forall|i: int, j: int|
        0 <= i < j < names.len() ==> text::precedes(#[trigger] names[i], #[trigger] names[j])
}

/// `names` are the listed queues that have a job, in order.
pub open spec fn lists_queues(
    jobs: Seq<JobRow>,
    names: Seq<Seq<char>>,
    filter: Option<Seq<char>>,
) -> bool {
    &&& in_order(names)
    &&& forall|i: int|
        0 <= i < names.len() ==> listed(#[trigger] names[i], filter) && has_queue(jobs, names[i])
    &&& forall|j: int|
        0 <= j < jobs.len() && listed((#[trigger] jobs[j]).queue, filter) ==> names.contains(
            jobs[j].queue,
        )
}

/// One more job: its queue joins the list, if it is listed and not there yet.
pub proof fn lemma_lists_queues_push(
    jobs: Seq<JobRow>,
    names: Seq<Seq<char>>,
    filter: Option<Seq<char>>,
    job: JobRow,
    after: Seq<Seq<char>>,
    p: int,
)
    requires
        lists_queues(jobs, names, filter),
        in_order(after),
        if listed(job.queue, filter) {
            if names.contains(job.queue) {
                after == names
            } else {
                0 <= p <= names.len() && after == names.insert(p, job.queue)
            }
        } else {
            after == names
        },
    ensures
        lists_queues(jobs.push(job), after, filter),
{
    let more = jobs.push(job);
    assert forall|i: int| 0 <= i < after.len() implies listed(#[trigger] after[i], filter)
        && has_queue(more, after[i]) by {
        if names.contains(after[i]) {
            let k = choose|k: int| 0 <= k < names.len() && names[k] == after[i];
            assert(listed(names[k], filter) && has_queue(jobs, names[k]));
            let j = choose|j: int| 0 <= j < jobs.len() && (#[trigger] jobs[j]).queue == names[k];
            assert(more[j].queue == after[i]);
        } else {
            if i < p {
                assert(names[i] == after[i]);
            } else if i > p {
                assert(names[i - 1] == after[i]);
            }
            assert(more[jobs.len() as int].queue == after[i]);
        }
    }
    assert forall|j: int|
        0 <= j < more.len() && listed((#[trigger] more[j]).queue, filter) implies after.contains(
        more[j].queue,
    ) by {
        if j < jobs.len() {
            assert(more[j] == jobs[j]);
            let k = choose|k: int| 0 <= k < names.len() && names[k] == jobs[j].queue;
            if after != names {
                let m = if k < p {
                    k
                } else {
                    k + 1
                };
                assert(after[m] == names[k]);
            }
        } else if after != names {
            assert(after[p] == job.queue);
        }
    }
}

/// Put where those before it precede it and those after it do not, a new name keeps the
/// order.
pub proof fn lemma_insert_in_order(names: Seq<Seq<char>>, name: Seq<char>, p: int)
    requires
        in_order(names),
        0 <= p <= names.len(),
        forall|i: int| 0 <= i < p ==> text::precedes(#[trigger] names[i], name),
        p < names.len() ==> !text::precedes(names[p], name) && names[p] != name,
    ensures
        !names.contains(name),
        in_order(names.insert(p, name)),
{
    let after = names.insert(p, name);
    if p < names.len() {
        text::lemma_precedes_total(names[p], name);
    }
    assert forall|j: int| p <= j < names.len() implies text::precedes(name, #[trigger] names[j]) by {
        if j > p {
            text::lemma_precedes_transitive(name, names[p], names[j]);
        }
    }
    if names.contains(name) {
        let k = choose|k: int| 0 <= k < names.len() && names[k] == name;
        text::lemma_precedes_total(names[k], name);
        assert(k < p ==> text::precedes(names[k], name));
    }
    assert forall|i: int, j: int| 0 <= i < j < after.len() implies text::precedes(
        #[trigger] after[i],
        #[trigger] after[j],
    ) by {
        let a = if i < p {
            names[i]
        } else if i > p {
            names[i - 1]
        } else {
            name
        };
        assert(after[i] == a);
        let b = if j < p {
            names[j]
        } else if j > p {
            names[j - 1]
        } else {
            name
        };
        assert(after[j] == b);
    }
}

/// How many jobs of `queue` have `status`.
pub open spec fn count(jobs: Seq<JobRow>, queue: Seq<char>, status: JobStatus) -> int
    decreases jobs.len(),
{
    if jobs.len() == 0 {
        0
    } else {
        count(jobs.drop_last(), queue, status) + if jobs.last().queue == queue && jobs.last().has(
            status,
        ) {
            1int
        } else {
            0int
        }
    }
}

/// The listed jobs, the newest first.
pub open spec fn newest(jobs: Seq<JobRow>, filter: Option<Seq<char>>) -> Seq<JobRow>
    decreases jobs.len(),
{
    if jobs.len() == 0 {
        seq![]
    } else if listed(jobs.last().queue, filter) {
        seq![jobs.last()] + newest(jobs.drop_last(), filter)
    } else {
        newest(jobs.drop_last(), filter)
    }
}

/// The first `n` rows, or all if there are fewer.
pub open spec fn first(rows: Seq<JobRow>, n: int) -> Seq<JobRow> {
    if n <= rows.len() {
        rows.take(n)
    } else {
        rows
    }
}

/// The names of the definitions.
pub open spec fn def_names(defs: Seq<RecurringRow>) -> Seq<Seq<char>> {
    defs.map_values(|def: RecurringRow| def.name)
}

/// How many of `defs` fire at `now`.
pub open spec fn firing(defs: Seq<RecurringRow>, now: Timestamp) -> int
    decreases defs.len(),
{
    if defs.len() == 0 {
        0
    } else {
        firing(defs.drop_last(), now) + if defs.last().fires(now) {
            1int
        } else {
            0int
        }
    }
}

/// A tick at `now` would have to search for a next run past the end of the calendar.
pub open spec fn out_of_calendar(defs: Seq<RecurringRow>, now: Timestamp) -> bool {
    &&& !scheduler::within_calendar(now)
    &&& exists|i: int| 0 <= i < defs.len() && (#[trigger] defs[i]).due_and_readable(now)
}

/// No expression parses.
pub open spec fn none_readable(defs: Seq<RecurringRow>) -> bool {
    forall|i: int| 0 <= i < defs.len() ==> cron::meaning((#[trigger] defs[i]).cron_expr) is Err
}

/// No more of the first `n` definitions fire than of all of them.
pub proof fn lemma_firing_take(defs: Seq<RecurringRow>, now: Timestamp, n: int)
    requires
        0 <= n <= defs.len(),
    ensures
        0 <= firing(defs.take(n), now) <= n,
        firing(defs.take(n), now) <= firing(defs, now),
    decreases defs.len(),
{
    if n == defs.len() {
        assert(defs.take(n) == defs);
        if n > 0 {
            lemma_firing_take(defs.drop_last(), now, n - 1);
            assert(defs.drop_last().take(n - 1) == defs.drop_last());
        }
    } else {
        assert(defs.drop_last().take(n) == defs.take(n));
        lemma_firing_take(defs.drop_last(), now, n);
    }
}

/// How many of `defs`, in the order of their names, come before `name`.
pub open spec fn rank(defs: Seq<RecurringRow>, name: Seq<char>) -> int
    decreases defs.len(),
{
    if defs.len() > 0 && text::precedes(defs[0].name, name) {
        1 + rank(defs.skip(1), name)
    } else {
        0
    }
}

/// Names before the rank come before `name`, and the others do not.
pub proof fn lemma_rank(defs: Seq<RecurringRow>, name: Seq<char>, n: int)
    requires
        0 <= n <= defs.len(),
        forall|i: int| 0 <= i < n ==> text::precedes((#[trigger] defs[i]).name, name),
        n == defs.len() || !text::precedes(defs[n].name, name),
    ensures
        rank(defs, name) == n,
    decreases defs.len(),
{
    if n > 0 {
        assert(text::precedes(defs[0].name, name));
        assert forall|i: int| 0 <= i < n - 1 implies text::precedes(
            (#[trigger] defs.skip(1)[i]).name,
            name,
        ) by {
            assert(text::precedes(defs[i + 1].name, name));
        }
        lemma_rank(defs.skip(1), name, n - 1);
    }
}

/// A definition as it is registered; the id comes from the table.
pub open spec fn new_definition(
    name: Seq<char>,
    queue: Seq<char>,
    job_type: Seq<char>,
    payload: serde_json::Value,
    max_attempts: i32,
    cron_expr: Seq<char>,
    next_run_at: Timestamp,
    now: Timestamp,
) -> RecurringRow {
    RecurringRow {
        id: 0,
        name,
        queue,
        job_type,
        payload,
        max_attempts,
        cron_expr,
        next_run_at,
        last_enqueued_job_id: None,
        created_at: now,
    }
}

impl Tables {
    /// Every id is at least one more than the one before.
    pub proof fn lemma_ids_bound_len(self, n: int)
        requires
            self.valid(),
            0 <= n < self.jobs.len(),
        ensures
            n < self.jobs[n].id,
        decreases n,
    {
        if n > 0 {
            self.lemma_ids_bound_len(n - 1);
            assert(self.jobs[n - 1].id < self.jobs[n].id);
        }
    }

    /// The counts of one queue.
    pub open spec fn stats_of(self, queue: Seq<char>) -> StatsRow {
        StatsRow {
            queue,
            queued: count(self.jobs, queue, JobStatus::Queued),
            running: count(self.jobs, queue, JobStatus::Running),
            done: count(self.jobs, queue, JobStatus::Done),
            failed: count(self.jobs, queue, JobStatus::Failed),
            dead: count(self.jobs, queue, JobStatus::Dead),
        }
    }

    /// `rows` has one row for every listed queue that has a job, in the order of the names.
    pub open spec fn is_stats(self, rows: Seq<StatsRow>, filter: Option<Seq<char>>) -> bool {
        &&& lists_queues(self.jobs, rows.map_values(|row: StatsRow| row.queue), filter)
        &&& forall|i: int|
            0 <= i < rows.len() ==> (#[trigger] rows[i]) == self.stats_of(rows[i].queue)
    }

    /// Ids grow with every row, names are in order, and every status is one of the five.
    pub open spec fn valid(self) -> bool {
        &&& 1 <= self.next_job_id
        &&& 1 <= self.next_recurring_id
        &&& forall|i: int|
            0 <= i < self.jobs.len() ==> 1 <= (#[trigger] self.jobs[i]).id < self.next_job_id
        &&& forall|i: int, j: int|
            0 <= i < j < self.jobs.len() ==> (#[trigger] self.jobs[i]).id < (
            #[trigger] self.jobs[j]).id
        &&& forall|i: int| 0 <= i < self.jobs.len() ==> (#[trigger] self.jobs[i]).known_status()
        &&& forall|i: int|
            0 <= i < self.recurring.len() ==> 1 <= (#[trigger] self.recurring[i]).id
                < self.next_recurring_id
        &&& forall|i: int, j: int|
            0 <= i < j < self.recurring.len() ==> (#[trigger] self.recurring[i]).id != (
            #[trigger] self.recurring[j]).id
        &&& in_order(def_names(self.recurring))
    }

    pub open spec fn empty() -> Tables {
        Tables { jobs: seq![], recurring: seq![], next_job_id: 1, next_recurring_id: 1 }
    }

    pub open spec fn has_job(self, id: i64) -> bool {
        exists|i: int| 0 <= i < self.jobs.len() && (#[trigger] self.jobs[i]).id == id
    }

    /// The job with this id.
    pub open spec fn job(self, id: i64) -> JobRow {
        self.jobs[choose|i: int| 0 <= i < self.jobs.len() && (#[trigger] self.jobs[i]).id == id]
    }

    /// What becomes of job `id` if its attempt fails at `now`.
    pub open spec fn outcome(
        self,
        id: i64,
        base: Duration,
        cap: Duration,
        now: Timestamp,
    ) -> Option<FailOutcome> {
        retry::outcome(self.job(id).attempts, self.job(id).max_attempts, base, cap, now)
    }

    /// One more job.
    pub open spec fn enqueue(
        self,
        queue: Seq<char>,
        job_type: Seq<char>,
        payload: serde_json::Value,
        max_attempts: i32,
        run_at: Timestamp,
        now: Timestamp,
    ) -> Tables {
        Tables {
            jobs: self.jobs.push(
                new_job(self.next_job_id, queue, job_type, payload, max_attempts, run_at, now),
            ),
            next_job_id: (self.next_job_id + 1) as i64,
            ..self
        }
    }

    /// Job `i` is the one to claim from `queue` at `now`: of the jobs that are due the
    /// earliest, and of equally early ones the first inserted.
    pub open spec fn next_claim(self, i: int, queue: Seq<char>, now: Timestamp) -> bool {
        &&& 0 <= i < self.jobs.len()
        &&& self.jobs[i].due(queue, now)
        &&& forall|j: int|
            0 <= j < self.jobs.len() && (#[trigger] self.jobs[j]).due(queue, now) && j != i ==> {
                &&& self.jobs[i].run_at.before_or_at(self.jobs[j].run_at)
                &&& self.jobs[j].run_at.before_or_at(self.jobs[i].run_at) ==> i < j
            }
    }

    /// No job of `queue` is due at `now`.
    pub open spec fn nothing_due(self, queue: Seq<char>, now: Timestamp) -> bool {
        forall|i: int| 0 <= i < self.jobs.len() ==> !(#[trigger] self.jobs[i]).due(queue, now)
    }

    pub open spec fn claim(self, i: int, worker: Seq<char>, now: Timestamp) -> Tables {
        Tables { jobs: self.jobs.update(i, self.jobs[i].claimed(worker, now)), ..self }
    }

    pub open spec fn complete(self, id: i64, now: Timestamp) -> Tables {
        Tables {
            jobs: self.jobs.map_values(
                |job: JobRow|
                    if job.id == id {
                        job.completed(now)
                    } else {
                        job
                    },
            ),
            ..self
        }
    }

    pub open spec fn fail(self, id: i64, error: Seq<char>, outcome: FailOutcome) -> Tables {
        Tables {
            jobs: self.jobs.map_values(
                |job: JobRow|
                    if job.id == id {
                        job.failed(error, outcome)
                    } else {
                        job
                    },
            ),
            ..self
        }
    }

    /// Job `id` is dead.
    pub open spec fn is_dead(self, id: i64) -> bool {
        exists|i: int|
            0 <= i < self.jobs.len() && (#[trigger] self.jobs[i]).id == id && self.jobs[i].has(
                JobStatus::Dead,
            )
    }

    pub open spec fn requeue_dead(self, id: i64, now: Timestamp) -> Tables {
        Tables {
            jobs: self.jobs.map_values(
                |job: JobRow|
                    if job.id == id && job.has(JobStatus::Dead) {
                        job.requeued(now)
                    } else {
                        job
                    },
            ),
            ..self
        }
    }

    /// No other job has the id of job `i`.
    pub proof fn lemma_job_at(self, i: int)
        requires
            self.valid(),
            0 <= i < self.jobs.len(),
        ensures
            self.has_job(self.jobs[i].id),
            self.job(self.jobs[i].id) == self.jobs[i],
            forall|j: int|
                0 <= j < self.jobs.len() && (#[trigger] self.jobs[j]).id == self.jobs[i].id ==> j
                    == i,
    {
    }

    pub open spec fn has_recurring(self, name: Seq<char>) -> bool {
        exists|i: int| 0 <= i < self.recurring.len() && (#[trigger] self.recurring[i]).name == name
    }

    /// The definition with this name.
    pub open spec fn definition(self, name: Seq<char>) -> RecurringRow {
        self.recurring[choose|i: int|
            0 <= i < self.recurring.len() && (#[trigger] self.recurring[i]).name == name]
    }

    /// No other definition has the name of definition `i`.
    pub proof fn lemma_definition_at(self, i: int)
        requires
            self.valid(),
            0 <= i < self.recurring.len(),
        ensures
            self.has_recurring(self.recurring[i].name),
            self.definition(self.recurring[i].name) == self.recurring[i],
            forall|j: int|
                0 <= j < self.recurring.len() && (#[trigger] self.recurring[j]).name
                    == self.recurring[i].name ==> j == i,
    {
        let names = def_names(self.recurring);
        assert forall|j: int|
            0 <= j < self.recurring.len() && (#[trigger] self.recurring[j]).name
                == self.recurring[i].name implies j == i by {
            assert(names[j] == names[i]);
            text::lemma_precedes_total(names[j], names[i]);
        }
    }

    /// The tick has not reached the later definitions, and has enqueued one job for every
    /// one that fired.
    pub proof fn lemma_tick(self, n: int, now: Timestamp)
        requires
            0 <= n <= self.recurring.len(),
            self.next_job_id + firing(self.recurring, now) <= i64::MAX,
        ensures
            self.tick(n, now).0.recurring.len() == self.recurring.len(),
            forall|j: int|
                n <= j < self.recurring.len() ==> (#[trigger] self.tick(n, now).0.recurring[j])
                    == self.recurring[j],
            self.tick(n, now).0.next_job_id == self.next_job_id + firing(
                self.recurring.take(n),
                now,
            ),
        decreases n,
    {
        if n > 0 {
            self.lemma_tick(n - 1, now);
            assert(self.recurring.take(n).drop_last() == self.recurring.take(n - 1));
            lemma_firing_take(self.recurring, now, n);
        }
    }

    /// Where no definition fires, a tick does nothing.
    pub proof fn lemma_idle_tick(self, n: int, now: Timestamp)
        requires
            0 <= n <= self.recurring.len(),
            forall|i: int|
                0 <= i < self.recurring.len() ==> !(#[trigger] self.recurring[i]).fires(now),
        ensures
            self.tick(n, now) == (self, Seq::<i64>::empty()),
            firing(self.recurring.take(n), now) == 0,
        decreases n,
    {
        if n > 0 {
            self.lemma_idle_tick(n - 1, now);
            assert(!self.recurring[n - 1].fires(now));
            assert(self.recurring.take(n).drop_last() == self.recurring.take(n - 1));
        }
    }

    /// Where no expression parses, a tick does nothing, whatever the time.
    pub proof fn lemma_unreadable_tick(self, n: int, now: Timestamp)
        requires
            n == self.recurring.len(),
            none_readable(self.recurring),
        ensures
            self.tick(n, now) == (self, Seq::<i64>::empty()),
            firing(self.recurring, now) == 0,
            !out_of_calendar(self.recurring, now),
    {
        reveal(scheduler::run_after);
        assert forall|i: int| 0 <= i < self.recurring.len() implies !(
        #[trigger] self.recurring[i]).fires(now) by {
            assert(cron::meaning(self.recurring[i].cron_expr) is Err);
        }
        self.lemma_idle_tick(n, now);
        assert(self.recurring.take(n) == self.recurring);
    }

    /// How many definitions come before `name`.
    pub open spec fn rank(self, name: Seq<char>) -> int {
        rank(self.recurring, name)
    }

    /// A definition is registered under `name`. One that is there already is changed in
    /// place, and keeps its next run unless the cron expression is another.
    pub open spec fn register(self, def: RecurringRow) -> Tables {
        if self.has_recurring(def.name) {
            Tables {
                recurring: self.recurring.map_values(
                    |d: RecurringRow|
                        if d.name == def.name {
                            d.redefined(def)
                        } else {
                            d
                        },
                ),
                ..self
            }
        } else {
            Tables {
                recurring: self.recurring.insert(
                    self.rank(def.name),
                    RecurringRow { id: self.next_recurring_id, ..def },
                ),
                next_recurring_id: (self.next_recurring_id + 1) as i64,
                ..self
            }
        }
    }

    /// Definition `i` fires at `now`: an ordinary job, due at once, is inserted, and the
    /// definition moves on to its next run.
    pub open spec fn fire(self, i: int, now: Timestamp) -> Tables {
        let def = self.recurring[i];
        Tables {
            recurring: self.recurring.update(i, def.fired(self.next_job_id, now)),
            ..self.enqueue(def.queue, def.job_type, def.payload, def.max_attempts, now, now)
        }
    }

    /// The tables after the first `n` definitions have had their turn in a tick at `now`,
    /// and the ids of the jobs that they enqueued.
    pub open spec fn tick(self, n: int, now: Timestamp) -> (Tables, Seq<i64>)
        decreases n,
    {
        if n <= 0 {
            (self, seq![])
        } else {
            let (tables, ids) = self.tick(n - 1, now);
            if tables.recurring[n - 1].fires(now) {
                (tables.fire(n - 1, now), ids.push(tables.next_job_id))
            } else {
                (tables, ids)
            }
        }
    }
}

} // verus!
