//! What becomes of a job that fails, from its first attempt to its last.
use vstd::prelude::*;

use crate::duration::Duration;
use crate::job;
use crate::job::{JobRow, JobStatus, StatsRow};
use crate::queue_laws;
use crate::queue_laws::FailedAttempt;
use crate::retry;
use crate::tables;
use crate::tables::Tables;
use crate::timestamp::Timestamp;

verus! {

impl Tables {
    /// The tables after a run of failed attempts at job `i`: each time a worker claims it,
    /// and then its failure is recorded.
    pub open spec fn attempted(
        self,
        i: int,
        tries: Seq<FailedAttempt>,
        base: Duration,
        cap: Duration,
    ) -> Tables
        decreases tries.len(),
    {
        if tries.len() == 0 {
            self
        } else {
            let last = tries.last();
            let running = self.attempted(i, tries.drop_last(), base, cap).claim(
                i,
                last.worker,
                last.claimed_at,
            );
            let id = running.jobs[i].id;
            running.fail(
                id,
                last.error,
                running.outcome(id, base, cap, last.failed_at)->Some_0,
            )
        }
    }
}

/// The counts of a queue whose one job has `status`.
pub open spec fn lone_job(queue: Seq<char>, status: JobStatus) -> StatsRow {
    StatsRow {
        queue,
        queued: if status == JobStatus::Queued {
            1
        } else {
            0
        },
        running: if status == JobStatus::Running {
            1
        } else {
            0
        },
        done: if status == JobStatus::Done {
            1
        } else {
            0
        },
        failed: if status == JobStatus::Failed {
            1
        } else {
            0
        },
        dead: if status == JobStatus::Dead {
            1
        } else {
            0
        },
    }
}

/// A job in place of another with the same id, and with one of the five statuses, leaves the
/// tables valid.
proof fn lemma_update_keeps_valid(t: Tables, i: int, row: JobRow)
    requires
        t.valid(),
        0 <= i < t.jobs.len(),
        row.id == t.jobs[i].id,
        row.known_status(),
    ensures
        (Tables { jobs: t.jobs.update(i, row), ..t }).valid(),
{
    let after = Tables { jobs: t.jobs.update(i, row), ..t };
    assert forall|j: int| 0 <= j < after.jobs.len() implies (#[trigger] after.jobs[j]).id
        == t.jobs[j].id && after.jobs[j].known_status() by {
        assert(t.jobs[j].known_status());
    }
    assert forall|j: int| 0 <= j < after.jobs.len() implies 1 <= (#[trigger] after.jobs[j]).id
        < after.next_job_id by {
        assert(1 <= t.jobs[j].id < t.next_job_id);
    }
    assert forall|j: int, k: int| 0 <= j < k < after.jobs.len() implies (
    #[trigger] after.jobs[j]).id < (#[trigger] after.jobs[k]).id by {
        assert(t.jobs[j].id < t.jobs[k].id);
    }
}

/// The attempts at one job change its row as they would change it alone, and nothing else.
proof fn lemma_attempted(
    t: Tables,
    i: int,
    tries: Seq<FailedAttempt>,
    base: Duration,
    cap: Duration,
)
    requires
        t.valid(),
        0 <= i < t.jobs.len(),
    ensures
        ({
            let after = t.attempted(i, tries, base, cap);
            &&& after.valid()
            &&& after.jobs.len() == t.jobs.len()
            &&& after.jobs[i] == t.jobs[i].tried(tries, base, cap)
            &&& after.jobs[i].id == t.jobs[i].id
            &&& after.jobs[i].queue == t.jobs[i].queue
            &&& forall|j: int|
                0 <= j < t.jobs.len() && j != i ==> (#[trigger] after.jobs[j]) == t.jobs[j]
        }),
    decreases tries.len(),
{
    if tries.len() > 0 {
        let init = tries.drop_last();
        let last = tries.last();
        lemma_attempted(t, i, init, base, cap);
        let before = t.attempted(i, init, base, cap);
        let row = before.jobs[i].claimed(last.worker, last.claimed_at);
        let running = before.claim(i, last.worker, last.claimed_at);
        assert(row.has(JobStatus::Running));
        lemma_update_keeps_valid(before, i, row);
        assert(running == (Tables { jobs: before.jobs.update(i, row), ..before }));
        running.lemma_job_at(i);
        let outcome = running.outcome(row.id, base, cap, last.failed_at)->Some_0;
        let failed = row.failed(last.error, outcome);
        assert(failed.has(JobStatus::Dead) || failed.has(JobStatus::Queued));
        lemma_update_keeps_valid(running, i, failed);
        assert(running.fail(row.id, last.error, outcome).jobs == running.jobs.update(i, failed));
    }
}

/// No job of the queue, no count.
proof fn lemma_count_none(jobs: Seq<JobRow>, queue: Seq<char>, status: JobStatus)
    requires
        forall|j: int| 0 <= j < jobs.len() ==> (#[trigger] jobs[j]).queue != queue,
    ensures
        tables::count(jobs, queue, status) == 0,
    decreases jobs.len(),
{
    if jobs.len() > 0 {
        assert(jobs[jobs.len() - 1].queue != queue);
        lemma_count_none(jobs.drop_last(), queue, status);
    }
}

/// The statistics of a queue whose one job is the last.
proof fn lemma_lone_job(t: Tables, queue: Seq<char>, status: JobStatus)
    requires
        t.jobs.len() > 0,
        t.jobs.last().queue == queue,
        t.jobs.last().has(status),
        forall|j: int| 0 <= j < t.jobs.len() - 1 ==> (#[trigger] t.jobs[j]).queue != queue,
    ensures
        t.is_stats(seq![lone_job(queue, status)], Some(queue)),
{
    let rows = seq![lone_job(queue, status)];
    let init = t.jobs.drop_last();
    assert forall|j: int| 0 <= j < init.len() implies (#[trigger] init[j]).queue != queue by {
        assert(t.jobs[j].queue != queue);
    }
    lemma_count_none(init, queue, JobStatus::Queued);
    lemma_count_none(init, queue, JobStatus::Running);
    lemma_count_none(init, queue, JobStatus::Done);
    lemma_count_none(init, queue, JobStatus::Failed);
    lemma_count_none(init, queue, JobStatus::Dead);
    job::law_status_reads_back(status, JobStatus::Queued);
    job::law_status_reads_back(status, JobStatus::Running);
    job::law_status_reads_back(status, JobStatus::Done);
    job::law_status_reads_back(status, JobStatus::Failed);
    job::law_status_reads_back(status, JobStatus::Dead);
    assert(rows[0] == t.stats_of(queue));
    let names = rows.map_values(|row: StatsRow| row.queue);
    assert(names == seq![queue]);
    assert(t.jobs[t.jobs.len() - 1].queue == queue);
    assert(names[0] == queue);
    assert(names.contains(queue));
}

/// The course of a job that fails, in a queue that was empty. After every failed attempt
/// but the last it is queued again, alone in the counts, with its attempts counted; it can
/// be claimed from the moment its backoff is over, and is then running. After
/// `max_attempts` failed attempts it is dead, and the queue has nothing due, ever. The
/// jobs of other queues are as they were.
pub proof fn law_course_of_a_failing_job(
    t: Tables,
    queue: Seq<char>,
    job_type: Seq<char>,
    payload: serde_json::Value,
    max_attempts: i32,
    run_at: Timestamp,
    now: Timestamp,
    tries: Seq<FailedAttempt>,
    base: Duration,
    cap: Duration,
    worker: Seq<char>,
    later: Timestamp,
)
    requires
        t.valid(),
        t.next_job_id < i64::MAX,
        !tables::has_queue(t.jobs, queue),
        tries.len() < i32::MAX,
        tries.len() <= 1 || tries.len() <= max_attempts,
        forall|k: int|
            0 <= k < tries.len() && k + 1 < max_attempts ==> retry::retry_at(
                (k + 1) as i32,
                base,
                cap,
                (#[trigger] tries[k]).failed_at,
            ) is Some,
    ensures
        ({
            let i = t.jobs.len() as int;
            let after = t.enqueue(
                queue,
                job_type,
                payload,
                max_attempts,
                run_at,
                now,
            ).attempted(i, tries, base, cap);
            let running = after.claim(i, worker, later);
            &&& after.valid()
            &&& after.jobs.len() == i + 1
            &&& forall|j: int| 0 <= j < i ==> (#[trigger] after.jobs[j]) == t.jobs[j]
            &&& after.jobs[i].id == t.next_job_id
            &&& after.jobs[i].attempts == tries.len()
            &&& if tries.len() == 0 || tries.len() < max_attempts {
                &&& after.is_stats(seq![lone_job(queue, JobStatus::Queued)], Some(queue))
                &&& after.next_claim(i, queue, later) <==> after.jobs[i].run_at.before_or_at(later)
                &&& running.jobs[i].attempts == tries.len() + 1
                &&& running.is_stats(seq![lone_job(queue, JobStatus::Running)], Some(queue))
            } else {
                &&& after.is_stats(seq![lone_job(queue, JobStatus::Dead)], Some(queue))
                &&& after.nothing_due(queue, later)
            }
        }),
{
    let i = t.jobs.len() as int;
    let start = t.enqueue(queue, job_type, payload, max_attempts, run_at, now);
    assert forall|j: int| 0 <= j < t.jobs.len() implies (#[trigger] t.jobs[j]).queue != queue by {
        if t.jobs[j].queue == queue {
            assert(tables::has_queue(t.jobs, queue));
        }
    }
    assert(start.jobs[i].has(JobStatus::Queued));
    assert(start.valid());
    lemma_attempted(start, i, tries, base, cap);
    let after = start.attempted(i, tries, base, cap);
    assert forall|j: int| 0 <= j < i implies (#[trigger] after.jobs[j]) == t.jobs[j] by {
        assert(start.jobs[j] == t.jobs[j]);
    }
    if tries.len() > 0 {
        queue_laws::law_dead_after_max_attempts(start.jobs[i], tries, base, cap);
    }
    if tries.len() == 0 || tries.len() < max_attempts {
        lemma_lone_job(after, queue, JobStatus::Queued);
        let running = after.claim(i, worker, later);
        assert(running.jobs[i].has(JobStatus::Running));
        assert forall|j: int| 0 <= j < running.jobs.len() - 1 implies (
        #[trigger] running.jobs[j]).queue != queue by {
            assert(running.jobs[j] == after.jobs[j]);
        }
        lemma_lone_job(running, queue, JobStatus::Running);
    } else {
        lemma_lone_job(after, queue, JobStatus::Dead);
        job::law_status_reads_back(JobStatus::Dead, JobStatus::Queued);
    }
}

} // verus!
