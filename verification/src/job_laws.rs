//! What each operation on jobs does, row by row.
use vstd::prelude::*;

use crate::duration::Duration;
use crate::job;
use crate::job::{Job, JobRow, JobStatus, QueueStats, RecurringJob, StatsRow};
use crate::queue;
use crate::queue::QueueError;
use crate::queue_laws;
use crate::retry;
use crate::tables;
use crate::tables::Tables;
use crate::text;
use crate::timestamp::{Timestamp, MAX_SECS};

verus! {

/// The rows of a listing are those of its entries, one for one; a listing is narrowed to the
/// queue that is given, if any.
pub proof fn law_listings_show_their_entries(
    jobs: Seq<Job>,
    defs: Seq<RecurringJob>,
    stats: Seq<QueueStats>,
    name: &str,
)
    ensures
        queue::job_rows(jobs).len() == jobs.len(),
        forall|i: int|
            0 <= i < jobs.len() ==> (#[trigger] queue::job_rows(jobs)[i]) == jobs[i]@,
        queue::recurring_rows(defs).len() == defs.len(),
        forall|i: int|
            0 <= i < defs.len() ==> (#[trigger] queue::recurring_rows(defs)[i]) == defs[i]@,
        queue::stats_rows(stats).len() == stats.len(),
        forall|i: int|
            0 <= i < stats.len() ==> (#[trigger] queue::stats_rows(stats)[i]) == stats[i]@,
        queue::filter_of(Some(name)) == Some(name@),
        queue::filter_of(None) is None,
{
}

/// A new queue has no job and no definition, and its ids start at one.
pub proof fn law_new_queue_is_empty()
    ensures
        Tables::empty().jobs.len() == 0,
        Tables::empty().recurring.len() == 0,
        Tables::empty().next_job_id == 1,
        Tables::empty().next_recurring_id == 1,
{
}

/// Enqueueing adds one row, at the end, that holds what the call gave: the queue, the type,
/// the payload, the number of attempts and the moment from which the job may run. It fails
/// only when there is no id left.
pub proof fn law_enqueued_job_holds_what_was_given(
    before: Tables,
    after: Tables,
    r: Result<i64, QueueError>,
    queue: Seq<char>,
    job_type: Seq<char>,
    payload: serde_json::Value,
    max_attempts: i32,
    run_at: Timestamp,
    now: Timestamp,
)
    requires
        queue::enqueued(
            before,
            after,
            r,
            queue,
            job_type,
            payload,
            max_attempts,
            run_at,
            now,
        ),
    ensures
        r is Ok <==> before.next_job_id < i64::MAX,
        r matches Ok(id) ==> {
            let row = after.jobs[before.jobs.len() as int];
            &&& id == before.next_job_id
            &&& after.next_job_id == before.next_job_id + 1
            &&& after.jobs.len() == before.jobs.len() + 1
            &&& forall|j: int|
                0 <= j < before.jobs.len() ==> (#[trigger] after.jobs[j]) == before.jobs[j]
            &&& row.id == id
            &&& row.queue == queue
            &&& row.job_type == job_type
            &&& row.payload == payload
            &&& row.max_attempts == max_attempts
            &&& row.run_at == run_at
            &&& row.status == "queued"@
            &&& row.attempts == 0
            &&& row.created_at == now
            &&& row.locked_at is None && row.locked_by is None
            &&& row.last_error is None && row.completed_at is None
            &&& after.recurring == before.recurring
            &&& after.next_recurring_id == before.next_recurring_id
        },
        r matches Err(e) ==> e is IdsExhausted && after == before,
{
}

/// A job that was enqueued for `run_at`, alone in its queue, is handed out by a claim exactly
/// if that comes from its own queue and not before `run_at`.
pub proof fn law_enqueued_job_is_handed_out_from_run_at_on(
    before: Tables,
    mid: Tables,
    after: Tables,
    id: i64,
    queue: Seq<char>,
    job_type: Seq<char>,
    payload: serde_json::Value,
    max_attempts: i32,
    run_at: Timestamp,
    now: Timestamp,
    r: Result<Option<Job>, QueueError>,
    from: Seq<char>,
    worker: Seq<char>,
    later: Timestamp,
)
    requires
        before.valid(),
        queue::enqueued(
            before,
            mid,
            Ok(id),
            queue,
            job_type,
            payload,
            max_attempts,
            run_at,
            now,
        ),
        forall|j: int| 0 <= j < before.jobs.len() ==> (#[trigger] before.jobs[j]).queue != from,
        queue::claimed(mid, after, r, from, worker, later),
    ensures
        from == queue && (run_at.secs < later.secs || (run_at.secs == later.secs && run_at.nanos
            <= later.nanos)) ==> {
            &&& r matches Ok(Some(job))
            &&& job@.id == id
            &&& job@.job_type == job_type
            &&& job@.payload == payload
            &&& job@.attempts == 1
        },
        !(from == queue && (run_at.secs < later.secs || (run_at.secs == later.secs && run_at.nanos
            <= later.nanos))) ==> {
            &&& r matches Ok(None)
            &&& after == mid
        },
{
    let n = before.jobs.len() as int;
    assert forall|j: int| 0 <= j < n implies !(#[trigger] mid.jobs[j]).due(from, later) by {
        assert(mid.jobs[j] == before.jobs[j]);
    }
    if mid.jobs[n].due(from, later) {
        assert(mid.next_claim(n, from, later));
        assert forall|i: int| mid.next_claim(i, from, later) implies i == n by {}
    }
}

/// A claim hands out a job that is queued in the queue asked for and due, and of these none
/// that is due later than another. The row is then running, counts the attempt and names
/// the worker; the worker gets the row as it now is, and nothing else changes. Where no job
/// is queued and due, nothing is handed out. It fails only where the attempts of the job can
/// no longer be counted.
pub proof fn law_claim_hands_out_the_earliest_due_job(
    before: Tables,
    after: Tables,
    r: Result<Option<Job>, QueueError>,
    queue: Seq<char>,
    worker: Seq<char>,
    now: Timestamp,
)
    requires
        queue::claimed(before, after, r, queue, worker, now),
    ensures
        match r {
            Ok(Some(job)) => exists|i: int|
                {
                    let row = before.jobs[i];
                    &&& 0 <= i < before.jobs.len()
                    &&& #[trigger] before.jobs[i].queue == queue
                    &&& row.status == "queued"@
                    &&& row.run_at.before_or_at(now)
                    &&& row.attempts < i32::MAX
                    &&& forall|j: int|
                        0 <= j < before.jobs.len() && (#[trigger] before.jobs[j]).queue == queue
                            && before.jobs[j].status == "queued"@ && before.jobs[j].run_at
                            .before_or_at(now) ==> row.run_at.before_or_at(before.jobs[j].run_at)
                    &&& after == (Tables {
                        jobs: before.jobs.update(
                            i,
                            JobRow {
                                status: "running"@,
                                attempts: (row.attempts + 1) as i32,
                                locked_at: Some(now),
                                locked_by: Some(worker),
                                ..row
                            },
                        ),
                        ..before
                    })
                    &&& job@ == after.jobs[i]
                },
            Ok(None) => {
                &&& after == before
                &&& forall|j: int|
                    0 <= j < before.jobs.len() && (#[trigger] before.jobs[j]).queue == queue
                        && before.jobs[j].status == "queued"@ ==> !before.jobs[j].run_at
                        .before_or_at(now)
            },
            Err(e) => {
                &&& e is AttemptsOverflow
                &&& after == before
                &&& exists|i: int|
                    {
                        &&& 0 <= i < before.jobs.len()
                        &&& (#[trigger] before.jobs[i]).queue == queue
                        &&& before.jobs[i].status == "queued"@
                        &&& before.jobs[i].attempts == i32::MAX
                    }
            },
        },
{
    if let Ok(Some(job)) = r {
        let i = choose|i: int|
            {
                &&& #[trigger] before.next_claim(i, queue, now)
                &&& before.jobs[i].attempts < i32::MAX
                &&& after == before.claim(i, worker, now)
                &&& job@ == after.jobs[i]
            };
        let row = before.jobs[i];
        assert(before.jobs[i].queue == queue);
        assert forall|j: int|
            0 <= j < before.jobs.len() && (#[trigger] before.jobs[j]).queue == queue
                && before.jobs[j].status == "queued"@ && before.jobs[j].run_at.before_or_at(
                now,
            ) implies row.run_at.before_or_at(before.jobs[j].run_at) by {
            assert(before.jobs[j].due(queue, now));
        }
    }
    if r matches Ok(None) {
        assert forall|j: int|
            0 <= j < before.jobs.len() && (#[trigger] before.jobs[j]).queue == queue
                && before.jobs[j].status == "queued"@ implies !before.jobs[j].run_at.before_or_at(
            now,
        ) by {
            assert(!before.jobs[j].due(queue, now));
        }
    }
    if r is Err {
        let i = choose|i: int|
            #[trigger] before.next_claim(i, queue, now) && before.jobs[i].attempts == i32::MAX;
        assert(before.jobs[i].queue == queue);
    }
}

/// Completing a job marks the row with its id as done, and says when; every other row, and
/// everything else in that row, is as it was.
pub proof fn law_completing_marks_the_job_done(t: Tables, id: i64, now: Timestamp)
    ensures
        t.complete(id, now).jobs.len() == t.jobs.len(),
        forall|j: int|
            0 <= j < t.jobs.len() ==> (#[trigger] t.complete(id, now).jobs[j]) == (
            if t.jobs[j].id == id {
                JobRow { status: "done"@, completed_at: Some(now), ..t.jobs[j] }
            } else {
                t.jobs[j]
            }),
        t.complete(id, now).recurring == t.recurring,
        t.complete(id, now).next_job_id == t.next_job_id,
        t.complete(id, now).next_recurring_id == t.next_recurring_id,
{
}

/// Requeueing works on the row with the id if that is dead, and tells whether there was one:
/// it is queued, due at once, with no attempts counted and no error. Every other row, and
/// everything else in that row, is as it was.
pub proof fn law_requeueing_revives_a_dead_job(t: Tables, id: i64, now: Timestamp)
    ensures
        t.is_dead(id) <==> exists|j: int|
            0 <= j < t.jobs.len() && (#[trigger] t.jobs[j]).id == id && t.jobs[j].status
                == "dead"@,
        t.requeue_dead(id, now).jobs.len() == t.jobs.len(),
        forall|j: int|
            0 <= j < t.jobs.len() ==> (#[trigger] t.requeue_dead(id, now).jobs[j]) == (
            if t.jobs[j].id == id && t.jobs[j].status == "dead"@ {
                JobRow {
                    status: "queued"@,
                    attempts: 0,
                    run_at: now,
                    last_error: None,
                    ..t.jobs[j]
                }
            } else {
                t.jobs[j]
            }),
        t.requeue_dead(id, now).recurring == t.recurring,
        t.requeue_dead(id, now).next_job_id == t.next_job_id,
        t.requeue_dead(id, now).next_recurring_id == t.next_recurring_id,
{
    if t.is_dead(id) {
        let j = choose|j: int|
            0 <= j < t.jobs.len() && (#[trigger] t.jobs[j]).id == id && t.jobs[j].has(
                JobStatus::Dead,
            );
        assert(t.jobs[j].status == "dead"@);
    }
    if exists|j: int|
        0 <= j < t.jobs.len() && (#[trigger] t.jobs[j]).id == id && t.jobs[j].status == "dead"@ {
        let j = choose|j: int|
            0 <= j < t.jobs.len() && (#[trigger] t.jobs[j]).id == id && t.jobs[j].status
                == "dead"@;
        assert(t.jobs[j].has(JobStatus::Dead));
    }
}

/// Nanoseconds since 1970-01-01T00:00:00Z.
pub open spec fn nanos_since_1970(t: Timestamp) -> int {
    t.secs * 1_000_000_000 + t.nanos
}

/// The backoff before a job is tried again that has been tried `attempts` times: the base,
/// doubled with every attempt after the first, and no more than the cap.
pub open spec fn backoff_nanos(attempts: int, base: Duration, cap: Duration) -> int {
    let doubled = base.nanos_total() * vstd::arithmetic::power2::pow2((attempts - 1) as nat);
    if attempts <= 0 {
        0
    } else if doubled <= cap.nanos_total() {
        doubled as int
    } else {
        cap.nanos_total() as int
    }
}

/// A retry is due after the backoff, to the nanosecond.
proof fn lemma_retry_at(attempts: i32, base: Duration, cap: Duration, now: Timestamp)
    requires
        now.valid(),
        now.nanos < 1_000_000_000,
        0 <= attempts,
        backoff_nanos(attempts as int, base, cap) <= i64::MAX * 1_000_000,
    ensures
        match retry::retry_at(attempts, base, cap, now) {
            Some(run_at) => {
                &&& run_at.nanos < 1_000_000_000
                &&& nanos_since_1970(run_at) == nanos_since_1970(now) + backoff_nanos(
                    attempts as int,
                    base,
                    cap,
                )
            },
            None => nanos_since_1970(now) + backoff_nanos(attempts as int, base, cap) >= (MAX_SECS
                + 1) * 1_000_000_000,
        },
{
    let delay = retry::retry_nanos(attempts, base, cap);
    assert(delay == backoff_nanos(attempts as int, base, cap));
}

/// A failed attempt changes the row with the id, and no other. While attempts remain, the
/// job is queued again and may run after the backoff, counted from the moment of the
/// failure, to the nanosecond; otherwise it is dead. Either way it keeps the error and is
/// no longer locked, and everything else in the row is as it was. The call fails only where
/// there is no such job, or where the retry would lie past the end of the calendar.
pub proof fn law_failure_requeues_after_the_backoff_or_kills(
    before: Tables,
    after: Tables,
    r: Result<(), QueueError>,
    id: i64,
    error: Seq<char>,
    base: Duration,
    cap: Duration,
    now: Timestamp,
)
    requires
        before.valid(),
        now.valid(),
        now.nanos < 1_000_000_000,
        queue::failed(before, after, r, id, error, base, cap, now),
        forall|j: int|
            0 <= j < before.jobs.len() && (#[trigger] before.jobs[j]).id == id ==> {
                &&& before.jobs[j].attempts >= 0
                &&& backoff_nanos(before.jobs[j].attempts as int, base, cap) <= i64::MAX * 1_000_000
            },
    ensures
        match r {
            Ok(()) => exists|i: int|
                {
                    let job = before.jobs[i];
                    let row = after.jobs[i];
                    &&& 0 <= i < before.jobs.len()
                    &&& #[trigger] before.jobs[i].id == id
                    &&& after == (Tables { jobs: before.jobs.update(i, row), ..before })
                    &&& if job.attempts >= job.max_attempts {
                        row == (JobRow {
                            status: "dead"@,
                            last_error: Some(error),
                            locked_at: None,
                            locked_by: None,
                            ..job
                        })
                    } else {
                        &&& row == (JobRow {
                            status: "queued"@,
                            run_at: row.run_at,
                            last_error: Some(error),
                            locked_at: None,
                            locked_by: None,
                            ..job
                        })
                        &&& row.run_at.nanos < 1_000_000_000
                        &&& nanos_since_1970(row.run_at) == nanos_since_1970(now) + backoff_nanos(
                            job.attempts as int,
                            base,
                            cap,
                        )
                    }
                },
            Err(e) => {
                &&& after == before
                &&& match e {
                    QueueError::NoSuchJob => forall|j: int|
                        0 <= j < before.jobs.len() ==> (#[trigger] before.jobs[j]).id != id,
                    QueueError::OutOfCalendar => exists|i: int|
                        {
                            &&& 0 <= i < before.jobs.len()
                            &&& (#[trigger] before.jobs[i]).id == id
                            &&& before.jobs[i].attempts < before.jobs[i].max_attempts
                            &&& nanos_since_1970(now) + backoff_nanos(
                                before.jobs[i].attempts as int,
                                base,
                                cap,
                            ) >= (MAX_SECS + 1) * 1_000_000_000
                        },
                    _ => false,
                }
            },
        },
{
    if before.has_job(id) {
        let i = choose|i: int| 0 <= i < before.jobs.len() && (#[trigger] before.jobs[i]).id == id;
        before.lemma_job_at(i);
        let job = before.jobs[i];
        lemma_retry_at(job.attempts, base, cap, now);
        assert(before.jobs[i].id == id);
        if r is Ok {
            let row = after.jobs[i];
            assert(after.jobs == before.jobs.update(i, row));
        }
    }
}

/// A job that has failed is not handed out again before its backoff is over, counted from
/// the moment of the failure, and not at all once its attempts are used up.
pub proof fn law_failed_job_is_not_handed_out_before_its_backoff(
    before: Tables,
    mid: Tables,
    after: Tables,
    i: int,
    error: Seq<char>,
    base: Duration,
    cap: Duration,
    now: Timestamp,
    job: Job,
    queue: Seq<char>,
    worker: Seq<char>,
    later: Timestamp,
)
    requires
        before.valid(),
        now.valid(),
        now.nanos < 1_000_000_000,
        0 <= i < before.jobs.len(),
        before.jobs[i].attempts >= 0,
        backoff_nanos(before.jobs[i].attempts as int, base, cap) <= i64::MAX * 1_000_000,
        queue::failed(before, mid, Ok(()), before.jobs[i].id, error, base, cap, now),
        queue::claimed(mid, after, Ok(Some(job)), queue, worker, later),
        job@.id == before.jobs[i].id,
    ensures
        before.jobs[i].attempts < before.jobs[i].max_attempts,
        nanos_since_1970(later) >= nanos_since_1970(now) + backoff_nanos(
            before.jobs[i].attempts as int,
            base,
            cap,
        ),
{
    let id = before.jobs[i].id;
    before.lemma_job_at(i);
    assert forall|j: int| 0 <= j < before.jobs.len() && (#[trigger] before.jobs[j]).id
        == id implies j == i by {}
    law_failure_requeues_after_the_backoff_or_kills(
        before,
        mid,
        Ok(()),
        id,
        error,
        base,
        cap,
        now,
    );
    law_claim_hands_out_the_earliest_due_job(mid, after, Ok(Some(job)), queue, worker, later);
    let k = choose|k: int|
        {
            let row = mid.jobs[k];
            &&& 0 <= k < mid.jobs.len()
            &&& #[trigger] mid.jobs[k].queue == queue
            &&& row.status == "queued"@
            &&& row.run_at.before_or_at(later)
            &&& job@ == after.jobs[k]
            &&& after.jobs[k].id == row.id
        };
    if k != i {
        assert(mid.jobs[k] == before.jobs[k]);
        assert(before.jobs[k].id == id);
    }
    job::law_status_reads_back(JobStatus::Dead, JobStatus::Queued);
}

/// The counts of a queue are the numbers of its rows with each status.
pub proof fn law_counts_are_numbers_of_rows(t: Tables, queue: Seq<char>)
    ensures
        ({
            let counts = t.stats_of(queue);
            &&& counts.queue == queue
            &&& counts.queued == t.jobs.filter(
                |job: JobRow| job.queue == queue && job.status == "queued"@,
            ).len()
            &&& counts.running == t.jobs.filter(
                |job: JobRow| job.queue == queue && job.status == "running"@,
            ).len()
            &&& counts.done == t.jobs.filter(
                |job: JobRow| job.queue == queue && job.status == "done"@,
            ).len()
            &&& counts.failed == t.jobs.filter(
                |job: JobRow| job.queue == queue && job.status == "failed"@,
            ).len()
            &&& counts.dead == t.jobs.filter(
                |job: JobRow| job.queue == queue && job.status == "dead"@,
            ).len()
        }),
{
    lemma_count_filter(
        t.jobs,
        queue,
        JobStatus::Queued,
        |job: JobRow| job.queue == queue && job.status == "queued"@,
    );
    lemma_count_filter(
        t.jobs,
        queue,
        JobStatus::Running,
        |job: JobRow| job.queue == queue && job.status == "running"@,
    );
    lemma_count_filter(
        t.jobs,
        queue,
        JobStatus::Done,
        |job: JobRow| job.queue == queue && job.status == "done"@,
    );
    lemma_count_filter(
        t.jobs,
        queue,
        JobStatus::Failed,
        |job: JobRow| job.queue == queue && job.status == "failed"@,
    );
    lemma_count_filter(
        t.jobs,
        queue,
        JobStatus::Dead,
        |job: JobRow| job.queue == queue && job.status == "dead"@,
    );
}

proof fn lemma_count_filter(
    jobs: Seq<JobRow>,
    queue: Seq<char>,
    status: JobStatus,
    wanted: spec_fn(JobRow) -> bool,
)
    requires
        forall|job: JobRow| #[trigger] wanted(job) <==> job.queue == queue && job.has(status),
    ensures
        tables::count(jobs, queue, status) == jobs.filter(wanted).len(),
    decreases jobs.len(),
{
    reveal(Seq::filter);
    if jobs.len() > 0 {
        lemma_count_filter(jobs.drop_last(), queue, status, wanted);
        assert(wanted(jobs.last()) <==> jobs.last().queue == queue && jobs.last().has(status));
    }
}

/// The statistics have one row for every queue asked for that has a job, and no other row.
/// The rows are in the order of their names, and hold the counts of the queues.
pub proof fn law_statistics_have_a_row_for_every_queue(
    t: Tables,
    rows: Seq<StatsRow>,
    filter: Option<Seq<char>>,
    queue: Seq<char>,
)
    requires
        t.is_stats(rows, filter),
    ensures
        (exists|i: int| 0 <= i < rows.len() && (#[trigger] rows[i]).queue == queue) <==> {
            &&& filter is None || filter == Some(queue)
            &&& exists|j: int| 0 <= j < t.jobs.len() && (#[trigger] t.jobs[j]).queue == queue
        },
        forall|i: int|
            0 <= i < rows.len() ==> (#[trigger] rows[i]) == t.stats_of(rows[i].queue),
        forall|i: int, j: int|
            0 <= i < j < rows.len() ==> text::precedes(
                (#[trigger] rows[i]).queue,
                (#[trigger] rows[j]).queue,
            ),
{
    let names = rows.map_values(|row: StatsRow| row.queue);
    if exists|i: int| 0 <= i < rows.len() && (#[trigger] rows[i]).queue == queue {
        let i = choose|i: int| 0 <= i < rows.len() && (#[trigger] rows[i]).queue == queue;
        assert(names[i] == queue);
        assert(tables::listed(names[i], filter) && tables::has_queue(t.jobs, names[i]));
    }
    if (filter is None || filter == Some(queue)) && (exists|j: int|
        0 <= j < t.jobs.len() && (#[trigger] t.jobs[j]).queue == queue) {
        let j = choose|j: int| 0 <= j < t.jobs.len() && (#[trigger] t.jobs[j]).queue == queue;
        assert(tables::listed(t.jobs[j].queue, filter));
        assert(names.contains(queue));
        let i = choose|i: int| 0 <= i < names.len() && names[i] == queue;
        assert(rows[i].queue == queue);
    }
    assert forall|i: int, j: int| 0 <= i < j < rows.len() implies text::precedes(
        (#[trigger] rows[i]).queue,
        (#[trigger] rows[j]).queue,
    ) by {
        assert(text::precedes(names[i], names[j]));
    }
}

/// The recent jobs are rows of the queue asked for, or of any, the one with the highest id
/// first, and as many as asked for; where there are not that many, they are all. A row that
/// is left out has a lower id than any that is given.
pub proof fn law_recent_jobs_are_the_newest(t: Tables, filter: Option<Seq<char>>, limit: int)
    requires
        t.valid(),
        0 <= limit,
    ensures
        ({
            let rows = tables::first(tables::newest(t.jobs, filter), limit);
            &&& rows.len() <= limit
            &&& forall|i: int|
                0 <= i < rows.len() ==> {
                    &&& t.jobs.contains(#[trigger] rows[i])
                    &&& filter is None || filter == Some(rows[i].queue)
                }
            &&& forall|i: int, j: int|
                0 <= i < j < rows.len() ==> (#[trigger] rows[i]).id > (#[trigger] rows[j]).id
            &&& forall|j: int, i: int|
                0 <= j < t.jobs.len() && 0 <= i < rows.len() && (filter is None || filter == Some(
                    (#[trigger] t.jobs[j]).queue,
                )) && !rows.contains(t.jobs[j]) ==> t.jobs[j].id < (#[trigger] rows[i]).id
            &&& rows.len() < limit ==> forall|j: int|
                0 <= j < t.jobs.len() && (filter is None || filter == Some(
                    (#[trigger] t.jobs[j]).queue,
                )) ==> rows.contains(t.jobs[j])
        }),
{
    queue_laws::law_newest_jobs_come_first(t, filter);
    let all = tables::newest(t.jobs, filter);
    let rows = tables::first(all, limit);
    assert forall|i: int| 0 <= i < rows.len() implies {
        &&& t.jobs.contains(#[trigger] rows[i])
        &&& filter is None || filter == Some(rows[i].queue)
    } by {
        assert(all[i] == rows[i]);
        assert(all.contains(rows[i]));
    }
    assert forall|i: int, j: int| 0 <= i < j < rows.len() implies (#[trigger] rows[i]).id > (
    #[trigger] rows[j]).id by {
        assert(all[i].id > all[j].id);
    }
    assert forall|j: int|
        0 <= j < t.jobs.len() && (filter is None || filter == Some(
            (#[trigger] t.jobs[j]).queue,
        )) implies all.contains(t.jobs[j]) by {
        assert(t.jobs.contains(t.jobs[j]));
        assert(tables::listed(t.jobs[j].queue, filter));
    }
    assert forall|j: int, i: int|
        0 <= j < t.jobs.len() && 0 <= i < rows.len() && (filter is None || filter == Some(
            (#[trigger] t.jobs[j]).queue,
        )) && !rows.contains(t.jobs[j]) implies t.jobs[j].id < (#[trigger] rows[i]).id by {
        assert(all.contains(t.jobs[j]));
        let k = choose|k: int| 0 <= k < all.len() && all[k] == t.jobs[j];
        if k < rows.len() {
            assert(rows[k] == t.jobs[j]);
        }
        assert(all[i].id > all[k].id);
    }
}

} // verus!
