//! What holds of the queue over several operations.
use vstd::prelude::*;

use crate::duration::Duration;
use crate::job;
use crate::job::{Job, JobRow, JobStatus, StatsRow};
use crate::queue;
use crate::queue::QueueError;
use crate::retry;
use crate::tables;
use crate::tables::Tables;
use crate::text;
use crate::timestamp::Timestamp;

verus! {

/// One claim: a worker of `queue` takes job `job` at `now`.
pub struct Claim {
    pub job: int,
    pub queue: Seq<char>,
    pub worker: Seq<char>,
    pub now: Timestamp,
}

impl Tables {
    /// The tables after a run of claims.
    pub open spec fn claims(self, steps: Seq<Claim>) -> Tables
        decreases steps.len(),
    {
        if steps.len() == 0 {
            self
        } else {
            let last = steps.last();
            self.claims(steps.drop_last()).claim(last.job, last.worker, last.now)
        }
    }

    /// Every claim of the run takes the job that is next at that point. The claims may be
    /// made by any number of workers, in any order.
    pub open spec fn can_claim(self, steps: Seq<Claim>) -> bool
        decreases steps.len(),
    {
        steps.len() > 0 ==> {
            &&& self.can_claim(steps.drop_last())
            &&& self.claims(steps.drop_last()).next_claim(
                steps.last().job,
                steps.last().queue,
                steps.last().now,
            )
        }
    }
}

/// A job that a run of claims has taken is running, and every other job is as it was.
proof fn lemma_claims(t: Tables, steps: Seq<Claim>)
    requires
        t.can_claim(steps),
    ensures
        t.claims(steps).jobs.len() == t.jobs.len(),
        forall|k: int|
            0 <= k < steps.len() ==> 0 <= (#[trigger] steps[k]).job < t.jobs.len()
                && t.claims(steps).jobs[steps[k].job].has(JobStatus::Running),
        forall|i: int|
            0 <= i < t.jobs.len() && (forall|k: int|
                0 <= k < steps.len() ==> (#[trigger] steps[k]).job != i) ==> (
            #[trigger] t.claims(steps).jobs[i]) == t.jobs[i],
    decreases steps.len(),
{
    if steps.len() > 0 {
        let init = steps.drop_last();
        lemma_claims(t, init);
        assert forall|k: int| 0 <= k < steps.len() implies 0 <= (#[trigger] steps[k]).job
            < t.jobs.len() && t.claims(steps).jobs[steps[k].job].has(JobStatus::Running) by {
            if k < init.len() {
                assert(init[k] == steps[k]);
            }
        }
        assert forall|i: int|
            0 <= i < t.jobs.len() && (forall|k: int|
                0 <= k < steps.len() ==> (#[trigger] steps[k]).job != i) implies (
        #[trigger] t.claims(steps).jobs[i]) == t.jobs[i] by {
            assert forall|k: int| 0 <= k < init.len() implies (#[trigger] init[k]).job != i by {
                assert(init[k] == steps[k]);
            }
            assert(steps[steps.len() - 1].job != i);
        }
    }
}

/// Only queued jobs are claimed: no running, done, failed or dead job is ever due.
pub proof fn law_only_queued_jobs_are_claimed(
    t: Tables,
    i: int,
    status: JobStatus,
    queue: Seq<char>,
    now: Timestamp,
)
    requires
        0 <= i < t.jobs.len(),
        t.jobs[i].has(status),
        status != JobStatus::Queued,
    ensures
        !t.next_claim(i, queue, now),
{
    job::law_status_reads_back(status, JobStatus::Queued);
}

/// A job that is due in the future is not claimed yet.
pub proof fn law_future_job_is_not_claimed(t: Tables, i: int, queue: Seq<char>, now: Timestamp)
    requires
        0 <= i < t.jobs.len(),
        !t.jobs[i].run_at.before_or_at(now),
    ensures
        !t.next_claim(i, queue, now),
{
}

/// A completed job is done, and is not claimed again. Every other job is as it was.
pub proof fn law_completed_job_is_not_claimed(
    t: Tables,
    i: int,
    done_at: Timestamp,
    queue: Seq<char>,
    now: Timestamp,
)
    requires
        t.valid(),
        0 <= i < t.jobs.len(),
    ensures
        ({
            let after = t.complete(t.jobs[i].id, done_at);
            &&& after.jobs.len() == t.jobs.len()
            &&& after.jobs[i].has(JobStatus::Done)
            &&& after.jobs[i].completed_at == Some(done_at)
            &&& !after.next_claim(i, queue, now)
            &&& forall|j: int|
                0 <= j < t.jobs.len() && j != i ==> (#[trigger] after.jobs[j]) == t.jobs[j]
        }),
{
    t.lemma_job_at(i);
    law_only_queued_jobs_are_claimed(
        t.complete(t.jobs[i].id, done_at),
        i,
        JobStatus::Done,
        queue,
        now,
    );
}

/// Whatever the workers and whatever the order of their claims, no job is claimed twice.
pub proof fn law_no_job_is_claimed_twice(t: Tables, steps: Seq<Claim>, a: int, b: int)
    requires
        t.can_claim(steps),
        0 <= a < b < steps.len(),
    ensures
        steps[a].job != steps[b].job,
    decreases steps.len(),
{
    let init = steps.drop_last();
    if b < init.len() {
        law_no_job_is_claimed_twice(t, init, a, b);
    } else {
        lemma_claims(t, init);
        assert(init[a] == steps[a]);
        law_only_queued_jobs_are_claimed(
            t.claims(init),
            steps[a].job,
            JobStatus::Running,
            steps[b].queue,
            steps[b].now,
        );
    }
}

/// Once the workers of a queue find nothing due any more, every job that was due has been
/// claimed by one of them.
pub proof fn law_every_due_job_is_claimed(
    t: Tables,
    steps: Seq<Claim>,
    i: int,
    queue: Seq<char>,
    now: Timestamp,
)
    requires
        t.can_claim(steps),
        t.claims(steps).nothing_due(queue, now),
        0 <= i < t.jobs.len(),
        t.jobs[i].due(queue, now),
    ensures
        exists|k: int| 0 <= k < steps.len() && (#[trigger] steps[k]).job == i,
{
    lemma_claims(t, steps);
    if forall|k: int| 0 <= k < steps.len() ==> (#[trigger] steps[k]).job != i {
        assert(t.claims(steps).jobs[i] == t.jobs[i]);
    }
}

/// A call of `claim_next` continues the run of claims that led to the tables it found, or
/// tells that nothing is due there.
pub proof fn law_claim_call_continues_the_run(
    t: Tables,
    steps: Seq<Claim>,
    after: Tables,
    r: Result<Option<Job>, QueueError>,
    queue: Seq<char>,
    worker: Seq<char>,
    now: Timestamp,
)
    requires
        t.can_claim(steps),
        queue::claimed(t.claims(steps), after, r, queue, worker, now),
    ensures
        match r {
            Ok(Some(job)) => exists|step: Claim|
                {
                    &&& step.queue == queue && step.worker == worker && step.now == now
                    &&& #[trigger] t.can_claim(steps.push(step))
                    &&& after == t.claims(steps.push(step))
                    &&& job@.id == t.jobs[step.job].id
                },
            Ok(None) => t.claims(steps).nothing_due(queue, now) && after == t.claims(steps),
            Err(_) => after == t.claims(steps),
        },
{
    let before = t.claims(steps);
    if let Ok(Some(job)) = r {
        let i = choose|i: int|
            {
                &&& #[trigger] before.next_claim(i, queue, now)
                &&& before.jobs[i].attempts < i32::MAX
                &&& after == before.claim(i, worker, now)
                &&& job@ == after.jobs[i]
            };
        let step = Claim { job: i, queue, worker, now };
        assert(steps.push(step).drop_last() == steps);
        assert(steps.push(step).last() == step);
        assert(t.can_claim(steps.push(step)));
        lemma_claims_keep_ids(t, steps);
    }
}

/// Claims keep the ids.
proof fn lemma_claims_keep_ids(t: Tables, steps: Seq<Claim>)
    requires
        t.can_claim(steps),
    ensures
        t.claims(steps).jobs.len() == t.jobs.len(),
        forall|i: int|
            0 <= i < t.jobs.len() ==> (#[trigger] t.claims(steps).jobs[i]).id == t.jobs[i].id,
    decreases steps.len(),
{
    if steps.len() > 0 {
        lemma_claims_keep_ids(t, steps.drop_last());
    }
}

impl Tables {
    /// The ids of the jobs that `worker` claims in the run.
    pub open spec fn ids_claimed(self, steps: Seq<Claim>, worker: Seq<char>) -> Seq<i64>
        decreases steps.len(),
    {
        if steps.len() == 0 {
            seq![]
        } else {
            let ids = self.ids_claimed(steps.drop_last(), worker);
            if steps.last().worker == worker {
                ids.push(self.jobs[steps.last().job].id)
            } else {
                ids
            }
        }
    }
}

/// A worker has exactly the ids of the jobs that it claimed.
proof fn lemma_ids_claimed(t: Tables, steps: Seq<Claim>, worker: Seq<char>, id: i64)
    ensures
        t.ids_claimed(steps, worker).contains(id) <==> exists|k: int|
            0 <= k < steps.len() && (#[trigger] steps[k]).worker == worker
                && t.jobs[steps[k].job].id == id,
    decreases steps.len(),
{
    if steps.len() > 0 {
        let init = steps.drop_last();
        let ids = t.ids_claimed(init, worker);
        let all = t.ids_claimed(steps, worker);
        lemma_ids_claimed(t, init, worker, id);
        if all.contains(id) {
            let m = choose|m: int| 0 <= m < all.len() && all[m] == id;
            if m < ids.len() {
                assert(ids[m] == id);
                let k = choose|k: int|
                    0 <= k < init.len() && (#[trigger] init[k]).worker == worker
                        && t.jobs[init[k].job].id == id;
                assert(steps[k] == init[k]);
            } else {
                assert(steps[steps.len() - 1] == steps.last());
            }
        }
        if exists|k: int|
            0 <= k < steps.len() && (#[trigger] steps[k]).worker == worker
                && t.jobs[steps[k].job].id == id {
            let k = choose|k: int|
                0 <= k < steps.len() && (#[trigger] steps[k]).worker == worker
                    && t.jobs[steps[k].job].id == id;
            if k < init.len() {
                assert(init[k] == steps[k]);
                let m = choose|m: int| 0 <= m < ids.len() && ids[m] == id;
                assert(all[m] == id);
            } else {
                assert(all[ids.len() as int] == id);
            }
        }
    }
}

/// Two claims of one run never take jobs with the same id.
proof fn lemma_claimed_ids_differ(t: Tables, steps: Seq<Claim>, a: int, b: int)
    requires
        t.valid(),
        t.can_claim(steps),
        0 <= a < b < steps.len(),
    ensures
        t.jobs[steps[a].job].id != t.jobs[steps[b].job].id,
{
    law_no_job_is_claimed_twice(t, steps, a, b);
    lemma_claims(t, steps);
    assert(0 <= steps[a].job < t.jobs.len() && 0 <= steps[b].job < t.jobs.len());
    t.lemma_job_at(steps[a].job);
}

/// No worker claims a job twice, and no two workers claim the same job.
pub proof fn law_workers_claim_different_jobs(
    t: Tables,
    steps: Seq<Claim>,
    a: Seq<char>,
    b: Seq<char>,
    id: i64,
)
    requires
        t.valid(),
        t.can_claim(steps),
    ensures
        t.ids_claimed(steps, a).no_duplicates(),
        a != b ==> !(t.ids_claimed(steps, a).contains(id) && t.ids_claimed(steps, b).contains(id)),
    decreases steps.len(),
{
    lemma_ids_claimed(t, steps, a, id);
    lemma_ids_claimed(t, steps, b, id);
    if a != b && t.ids_claimed(steps, a).contains(id) && t.ids_claimed(steps, b).contains(id) {
        let k = choose|k: int|
            0 <= k < steps.len() && (#[trigger] steps[k]).worker == a && t.jobs[steps[k].job].id
                == id;
        let m = choose|m: int|
            0 <= m < steps.len() && (#[trigger] steps[m]).worker == b && t.jobs[steps[m].job].id
                == id;
        if k < m {
            lemma_claimed_ids_differ(t, steps, k, m);
        } else {
            lemma_claimed_ids_differ(t, steps, m, k);
        }
    }
    if steps.len() > 0 {
        let init = steps.drop_last();
        law_workers_claim_different_jobs(t, init, a, b, id);
        let last = t.jobs[steps.last().job].id;
        lemma_ids_claimed(t, init, a, last);
        if t.ids_claimed(init, a).contains(last) {
            let k = choose|k: int|
                0 <= k < init.len() && (#[trigger] init[k]).worker == a && t.jobs[init[k].job].id
                    == last;
            assert(steps[k] == init[k]);
            lemma_claimed_ids_differ(t, steps, k, steps.len() - 1);
        }
    }
}

/// Two workers that claim from a queue, by turns in any order, until nothing is due have
/// between them exactly the jobs that were due: each of these, and no other.
pub proof fn law_workers_claim_exactly_the_due_jobs(
    t: Tables,
    steps: Seq<Claim>,
    a: Seq<char>,
    b: Seq<char>,
    queue: Seq<char>,
    end: Timestamp,
    id: i64,
)
    requires
        t.valid(),
        t.can_claim(steps),
        forall|k: int|
            0 <= k < steps.len() ==> {
                &&& (#[trigger] steps[k]).queue == queue
                &&& steps[k].worker == a || steps[k].worker == b
                &&& steps[k].now.before_or_at(end)
            },
        t.claims(steps).nothing_due(queue, end),
    ensures
        t.ids_claimed(steps, a).contains(id) || t.ids_claimed(steps, b).contains(id)
            <==> exists|i: int|
            0 <= i < t.jobs.len() && (#[trigger] t.jobs[i]).id == id && t.jobs[i].due(queue, end),
{
    lemma_ids_claimed(t, steps, a, id);
    lemma_ids_claimed(t, steps, b, id);
    if t.ids_claimed(steps, a).contains(id) || t.ids_claimed(steps, b).contains(id) {
        let k = choose|k: int| 0 <= k < steps.len() && t.jobs[(#[trigger] steps[k]).job].id == id;
        lemma_claimed_job_was_due(t, steps, k);
        assert(t.jobs[steps[k].job].due(queue, end));
    }
    if exists|i: int|
        0 <= i < t.jobs.len() && (#[trigger] t.jobs[i]).id == id && t.jobs[i].due(queue, end) {
        let i = choose|i: int|
            0 <= i < t.jobs.len() && (#[trigger] t.jobs[i]).id == id && t.jobs[i].due(queue, end);
        law_every_due_job_is_claimed(t, steps, i, queue, end);
        let k = choose|k: int| 0 <= k < steps.len() && (#[trigger] steps[k]).job == i;
        assert(steps[k].worker == a || steps[k].worker == b);
    }
}

/// A job that a run claims was due from the start, by the moment it was claimed.
proof fn lemma_claimed_job_was_due(t: Tables, steps: Seq<Claim>, k: int)
    requires
        t.can_claim(steps),
        0 <= k < steps.len(),
    ensures
        0 <= steps[k].job < t.jobs.len(),
        t.jobs[steps[k].job].due(steps[k].queue, steps[k].now),
    decreases steps.len(),
{
    let init = steps.drop_last();
    if k < init.len() {
        lemma_claimed_job_was_due(t, init, k);
        assert(init[k] == steps[k]);
    } else {
        lemma_claims(t, init);
        assert forall|j: int| 0 <= j < init.len() implies (#[trigger] init[j]).job
            != steps[k].job by {
            law_no_job_is_claimed_twice(t, steps, j, k);
            assert(init[j] == steps[j]);
        }
        assert(t.claims(init).jobs[steps[k].job] == t.jobs[steps[k].job]);
    }
}

/// A claim finds a job exactly when one is due.
pub proof fn law_due_job_is_found(t: Tables, queue: Seq<char>, now: Timestamp)
    ensures
        (exists|i: int| t.next_claim(i, queue, now)) <==> !t.nothing_due(queue, now),
{
    if !t.nothing_due(queue, now) {
        let k = choose|k: int| 0 <= k < t.jobs.len() && (#[trigger] t.jobs[k]).due(queue, now);
        let i = lemma_first_due(t, queue, now, t.jobs.len() as int, k);
        assert(t.next_claim(i, queue, now));
    }
}

/// There is only one job that a claim can find.
pub proof fn law_next_claim_is_unique(t: Tables, a: int, b: int, queue: Seq<char>, now: Timestamp)
    requires
        t.next_claim(a, queue, now),
        t.next_claim(b, queue, now),
    ensures
        a == b,
{
}

/// Of the first `n` jobs, the one to claim.
proof fn lemma_first_due(t: Tables, queue: Seq<char>, now: Timestamp, n: int, k: int) -> (i: int)
    requires
        0 <= k < n <= t.jobs.len(),
        t.jobs[k].due(queue, now),
    ensures
        0 <= i < n,
        t.jobs[i].due(queue, now),
        forall|j: int|
            0 <= j < n && (#[trigger] t.jobs[j]).due(queue, now) && j != i ==> {
                &&& t.jobs[i].run_at.before_or_at(t.jobs[j].run_at)
                &&& t.jobs[j].run_at.before_or_at(t.jobs[i].run_at) ==> i < j
            },
    decreases n,
{
    if exists|m: int| 0 <= m < n - 1 && (#[trigger] t.jobs[m]).due(queue, now) {
        let m = choose|m: int| 0 <= m < n - 1 && (#[trigger] t.jobs[m]).due(queue, now);
        let i = lemma_first_due(t, queue, now, n - 1, m);
        if t.jobs[n - 1].due(queue, now) && !t.jobs[i].run_at.before_or_at(t.jobs[n - 1].run_at) {
            n - 1
        } else {
            i
        }
    } else {
        k
    }
}

/// A new job has an id that no job had, every other job is as it was, and a worker of its
/// queue may claim it from `run_at` on.
pub proof fn law_enqueued_job_is_new(
    t: Tables,
    queue: Seq<char>,
    job_type: Seq<char>,
    payload: serde_json::Value,
    max_attempts: i32,
    run_at: Timestamp,
    now: Timestamp,
    later: Timestamp,
)
    requires
        t.valid(),
        run_at.before_or_at(later),
    ensures
        ({
            let after = t.enqueue(queue, job_type, payload, max_attempts, run_at, now);
            &&& !t.has_job(t.next_job_id)
            &&& after.jobs.len() == t.jobs.len() + 1
            &&& after.jobs.last().id == t.next_job_id
            &&& after.jobs.last().due(queue, later)
            &&& forall|i: int| 0 <= i < t.jobs.len() ==> (#[trigger] after.jobs[i]) == t.jobs[i]
        }),
{
}

/// One failed attempt at a job: a worker claimed it and reported an error.
pub struct FailedAttempt {
    pub worker: Seq<char>,
    pub claimed_at: Timestamp,
    pub error: Seq<char>,
    pub failed_at: Timestamp,
}

impl JobRow {
    /// The job after a run of failed attempts.
    pub open spec fn tried(self, tries: Seq<FailedAttempt>, base: Duration, cap: Duration) -> JobRow
        decreases tries.len(),
    {
        if tries.len() == 0 {
            self
        } else {
            let last = tries.last();
            let job = self.tried(tries.drop_last(), base, cap).claimed(
                last.worker,
                last.claimed_at,
            );
            job.failed(
                last.error,
                retry::outcome(job.attempts, job.max_attempts, base, cap, last.failed_at)->Some_0,
            )
        }
    }
}

/// A job whose every attempt fails goes back to the queue as long as attempts are left,
/// with the attempts counted and the last error kept, and is dead after `max_attempts` of
/// them: no sooner, no later.
pub proof fn law_dead_after_max_attempts(
    job: JobRow,
    tries: Seq<FailedAttempt>,
    base: Duration,
    cap: Duration,
)
    requires
        job.attempts == 0,
        1 <= tries.len() <= i32::MAX,
        tries.len() == 1 || tries.len() <= job.max_attempts,
        forall|i: int|
            0 <= i < tries.len() && i + 1 < job.max_attempts ==> retry::retry_at(
                (i + 1) as i32,
                base,
                cap,
                (#[trigger] tries[i]).failed_at,
            ) is Some,
    ensures
        ({
            let after = job.tried(tries, base, cap);
            &&& after.attempts == tries.len()
            &&& after.max_attempts == job.max_attempts
            &&& after.last_error == Some(tries.last().error)
            &&& after.locked_by is None && after.locked_at is None
            &&& after.has(
                if tries.len() < job.max_attempts {
                    JobStatus::Queued
                } else {
                    JobStatus::Dead
                },
            )
        }),
    decreases tries.len(),
{
    let init = tries.drop_last();
    if init.len() > 0 {
        assert forall|i: int|
            0 <= i < init.len() && i + 1 < job.max_attempts implies retry::retry_at(
            (i + 1) as i32,
            base,
            cap,
            (#[trigger] init[i]).failed_at,
        ) is Some by {
            assert(init[i] == tries[i]);
        }
        law_dead_after_max_attempts(job, init, base, cap);
    }
    assert(tries[tries.len() - 1] == tries.last());
}

/// A failed attempt leaves the number of attempts and every other job as they were. While
/// attempts remain the job is queued again, to be claimed no sooner than the backoff says;
/// otherwise it is dead, and no worker claims it.
pub proof fn law_failed_job_waits_or_dies(
    t: Tables,
    i: int,
    error: Seq<char>,
    base: Duration,
    cap: Duration,
    now: Timestamp,
    later: Timestamp,
)
    requires
        t.valid(),
        0 <= i < t.jobs.len(),
        now.valid(),
        t.outcome(t.jobs[i].id, base, cap, now) is Some,
    ensures
        ({
            let job = t.jobs[i];
            let after = t.fail(job.id, error, t.outcome(job.id, base, cap, now)->Some_0);
            &&& after.jobs.len() == t.jobs.len()
            &&& after.jobs[i].attempts == job.attempts
            &&& after.jobs[i].last_error == Some(error)
            &&& if job.attempts < job.max_attempts {
                &&& after.jobs[i].has(JobStatus::Queued)
                &&& retry::retry_at(job.attempts, base, cap, now) == Some(after.jobs[i].run_at)
                &&& now.before_or_at(after.jobs[i].run_at)
                &&& after.jobs[i].due(job.queue, later) <==> after.jobs[i].run_at.before_or_at(
                    later,
                )
            } else {
                &&& after.jobs[i].has(JobStatus::Dead)
                &&& !after.next_claim(i, job.queue, later)
            }
            &&& forall|j: int|
                0 <= j < t.jobs.len() && j != i ==> (#[trigger] after.jobs[j]) == t.jobs[j]
        }),
{
    t.lemma_job_at(i);
    retry::law_retry_is_not_before_the_failure(t.jobs[i].attempts, base, cap, now);
    job::law_status_reads_back(JobStatus::Dead, JobStatus::Queued);
}

/// A dead job that is requeued has a fresh set of attempts, its error is gone, and a worker
/// of its queue may claim it from then on. Every other job is as it was.
pub proof fn law_requeued_job_is_claimable(t: Tables, i: int, now: Timestamp, later: Timestamp)
    requires
        t.valid(),
        0 <= i < t.jobs.len(),
        t.jobs[i].has(JobStatus::Dead),
        now.before_or_at(later),
    ensures
        ({
            let after = t.requeue_dead(t.jobs[i].id, now);
            &&& t.is_dead(t.jobs[i].id)
            &&& after.jobs.len() == t.jobs.len()
            &&& after.jobs[i].due(t.jobs[i].queue, later)
            &&& after.jobs[i].attempts == 0
            &&& after.jobs[i].last_error is None
            &&& !after.is_dead(t.jobs[i].id)
            &&& forall|j: int|
                0 <= j < t.jobs.len() && j != i ==> (#[trigger] after.jobs[j]) == t.jobs[j]
        }),
{
    t.lemma_job_at(i);
    job::law_status_reads_back(JobStatus::Dead, JobStatus::Queued);
}

/// How many jobs belong to `queue`.
pub open spec fn size(jobs: Seq<JobRow>, queue: Seq<char>) -> int
    decreases jobs.len(),
{
    if jobs.len() == 0 {
        0
    } else {
        size(jobs.drop_last(), queue) + if jobs.last().queue == queue {
            1int
        } else {
            0int
        }
    }
}

/// The five counts of a queue add up to the number of its jobs.
pub proof fn law_counts_add_up(jobs: Seq<JobRow>, queue: Seq<char>)
    requires
        forall|i: int| 0 <= i < jobs.len() ==> (#[trigger] jobs[i]).known_status(),
    ensures
        tables::count(jobs, queue, JobStatus::Queued) + tables::count(
            jobs,
            queue,
            JobStatus::Running,
        ) + tables::count(jobs, queue, JobStatus::Done) + tables::count(
            jobs,
            queue,
            JobStatus::Failed,
        ) + tables::count(jobs, queue, JobStatus::Dead) == size(jobs, queue),
    decreases jobs.len(),
{
    if jobs.len() > 0 {
        law_counts_add_up(jobs.drop_last(), queue);
        assert(jobs[jobs.len() - 1].known_status());
        job::law_status_reads_back(JobStatus::Queued, JobStatus::Running);
        job::law_status_reads_back(JobStatus::Queued, JobStatus::Done);
        job::law_status_reads_back(JobStatus::Queued, JobStatus::Failed);
        job::law_status_reads_back(JobStatus::Queued, JobStatus::Dead);
        job::law_status_reads_back(JobStatus::Running, JobStatus::Done);
        job::law_status_reads_back(JobStatus::Running, JobStatus::Failed);
        job::law_status_reads_back(JobStatus::Running, JobStatus::Dead);
        job::law_status_reads_back(JobStatus::Done, JobStatus::Failed);
        job::law_status_reads_back(JobStatus::Done, JobStatus::Dead);
        job::law_status_reads_back(JobStatus::Failed, JobStatus::Dead);
    }
}

/// Two lists in order that hold the same names are the same list.
proof fn lemma_in_order_unique(a: Seq<Seq<char>>, b: Seq<Seq<char>>)
    requires
        tables::in_order(a),
        tables::in_order(b),
        forall|name: Seq<char>| #[trigger] a.contains(name) <==> b.contains(name),
    ensures
        a == b,
    decreases a.len(),
{
    if a.len() == 0 {
        if b.len() > 0 {
            assert(b.contains(b[0]) && !a.contains(b[0]));
        }
    } else {
        assert(a.contains(a.last()));
        assert(b.len() > 0);
        assert(b.contains(b.last()));
        lemma_last_is_greatest(a, b.last());
        lemma_last_is_greatest(b, a.last());
        text::lemma_precedes_total(a.last(), b.last());
        assert(a.last() == b.last());
        let c = a.drop_last();
        let d = b.drop_last();
        assert forall|name: Seq<char>| #[trigger] c.contains(name) <==> d.contains(name) by {
            if c.contains(name) {
                let i = choose|i: int| 0 <= i < c.len() && c[i] == name;
                assert(a[i] == name);
                assert(a.contains(name));
                text::lemma_precedes_total(a[i], a.last());
                let j = choose|j: int| 0 <= j < b.len() && b[j] == name;
                assert(d[j] == name);
            }
            if d.contains(name) {
                let j = choose|j: int| 0 <= j < d.len() && d[j] == name;
                assert(b[j] == name);
                assert(b.contains(name));
                text::lemma_precedes_total(b[j], b.last());
                assert(a.contains(name));
                let i = choose|i: int| 0 <= i < a.len() && a[i] == name;
                assert(c[i] == name);
            }
        }
        lemma_in_order_unique(c, d);
        assert(a == c.push(a.last()));
        assert(b == d.push(b.last()));
    }
}

/// Every name in the list is its last or precedes that.
proof fn lemma_last_is_greatest(names: Seq<Seq<char>>, name: Seq<char>)
    requires
        tables::in_order(names),
        names.contains(name),
    ensures
        name == names.last() || text::precedes(name, names.last()),
{
    let i = choose|i: int| 0 <= i < names.len() && names[i] == name;
    assert(i < names.len() - 1 ==> text::precedes(names[i], names[names.len() - 1]));
}

/// The statistics are determined by the jobs: there is one listing of them.
pub proof fn law_stats_are_determined(
    t: Tables,
    a: Seq<StatsRow>,
    b: Seq<StatsRow>,
    filter: Option<Seq<char>>,
)
    requires
        t.is_stats(a, filter),
        t.is_stats(b, filter),
    ensures
        a == b,
{
    let x = a.map_values(|row: StatsRow| row.queue);
    let y = b.map_values(|row: StatsRow| row.queue);
    assert forall|name: Seq<char>| #[trigger] x.contains(name) <==> y.contains(name) by {
        if x.contains(name) {
            let i = choose|i: int| 0 <= i < x.len() && x[i] == name;
            assert(tables::listed(x[i], filter) && tables::has_queue(t.jobs, x[i]));
        }
        if y.contains(name) {
            let i = choose|i: int| 0 <= i < y.len() && y[i] == name;
            assert(tables::listed(y[i], filter) && tables::has_queue(t.jobs, y[i]));
        }
    }
    lemma_in_order_unique(x, y);
    assert forall|i: int| 0 <= i < a.len() implies #[trigger] a[i] == b[i] by {
        assert(x[i] == y[i]);
    }
}

/// The newest jobs are the jobs of the listed queues, all of them, and a later id comes
/// before an earlier one.
pub proof fn law_newest_jobs_come_first(t: Tables, filter: Option<Seq<char>>)
    requires
        t.valid(),
    ensures
        forall|job: JobRow|
            #[trigger] tables::newest(t.jobs, filter).contains(job) <==> t.jobs.contains(job)
                && tables::listed(job.queue, filter),
        forall|i: int, j: int|
            0 <= i < j < tables::newest(t.jobs, filter).len() ==> (#[trigger] tables::newest(
                t.jobs,
                filter,
            )[i]).id > (#[trigger] tables::newest(t.jobs, filter)[j]).id,
{
    lemma_newest(t.jobs, filter);
}

proof fn lemma_newest(jobs: Seq<JobRow>, filter: Option<Seq<char>>)
    requires
        forall|i: int, j: int|
            0 <= i < j < jobs.len() ==> (#[trigger] jobs[i]).id < (#[trigger] jobs[j]).id,
    ensures
        forall|job: JobRow|
            #[trigger] tables::newest(jobs, filter).contains(job) <==> jobs.contains(job)
                && tables::listed(job.queue, filter),
        forall|i: int, j: int|
            0 <= i < j < tables::newest(jobs, filter).len() ==> (#[trigger] tables::newest(
                jobs,
                filter,
            )[i]).id > (#[trigger] tables::newest(jobs, filter)[j]).id,
    decreases jobs.len(),
{
    let all = tables::newest(jobs, filter);
    if jobs.len() > 0 {
        let init = jobs.drop_last();
        let rest = tables::newest(init, filter);
        lemma_newest(init, filter);
        assert forall|job: JobRow| #[trigger] all.contains(job) <==> jobs.contains(job)
            && tables::listed(job.queue, filter) by {
            assert(jobs == init.push(jobs.last()));
            if all.contains(job) {
                let i = choose|i: int| 0 <= i < all.len() && all[i] == job;
                if job != jobs.last() {
                    let k = if tables::listed(jobs.last().queue, filter) {
                        i - 1
                    } else {
                        i
                    };
                    assert(rest[k] == job);
                    assert(rest.contains(job));
                    let m = choose|m: int| 0 <= m < init.len() && init[m] == job;
                    assert(jobs[m] == job);
                } else {
                    assert(jobs[jobs.len() - 1] == job);
                    if !tables::listed(job.queue, filter) {
                        assert(rest[i] == job);
                        assert(rest.contains(job));
                    }
                }
            }
            if jobs.contains(job) && tables::listed(job.queue, filter) {
                if job == jobs.last() {
                    assert(all[0] == job);
                } else {
                    let m = choose|m: int| 0 <= m < jobs.len() && jobs[m] == job;
                    assert(init[m] == job);
                    assert(rest.contains(job));
                    let k = choose|k: int| 0 <= k < rest.len() && rest[k] == job;
                    if tables::listed(jobs.last().queue, filter) {
                        assert(all[k + 1] == job);
                    }
                }
            }
        }
        assert forall|i: int, j: int| 0 <= i < j < all.len() implies (#[trigger] all[i]).id > (
        #[trigger] all[j]).id by {
            if tables::listed(jobs.last().queue, filter) {
                assert(all[j] == rest[j - 1]);
                if i > 0 {
                    assert(all[i] == rest[i - 1]);
                } else {
                    assert(rest.contains(rest[j - 1]));
                    let m = choose|m: int| 0 <= m < init.len() && init[m] == rest[j - 1];
                    assert(jobs[m] == all[j]);
                    assert(jobs[m].id < jobs[jobs.len() - 1].id);
                }
            }
        }
    }
}

} // verus!
