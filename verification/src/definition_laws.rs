//! What each operation on recurring-job definitions does, row by row.
use vstd::prelude::*;

use crate::cron;
use crate::cron_error::CronErrorKind;
use crate::expression_laws;
use crate::job::RecurringRow;
use crate::queue;
use crate::queue::QueueError;
use crate::recurring_laws;
use crate::scheduler;
use crate::tables;
use crate::tables::Tables;
use crate::timestamp::{Timestamp, MAX_SECS};

verus! {

/// The definition of a name is the row with that name; there is one exactly if some row has
/// the name, and never two.
pub proof fn law_definition_is_the_row_of_its_name(t: Tables, name: Seq<char>)
    requires
        t.valid(),
    ensures
        t.has_recurring(name) <==> exists|i: int|
            0 <= i < t.recurring.len() && (#[trigger] t.recurring[i]).name == name,
        t.has_recurring(name) ==> exists|i: int|
            {
                &&& 0 <= i < t.recurring.len()
                &&& #[trigger] t.recurring[i] == t.definition(name)
                &&& t.recurring[i].name == name
                &&& forall|j: int|
                    0 <= j < t.recurring.len() && j != i ==> (#[trigger] t.recurring[j]).name
                        != name
            },
{
    if t.has_recurring(name) {
        let i = choose|i: int| 0 <= i < t.recurring.len() && (#[trigger] t.recurring[i]).name == name;
        t.lemma_definition_at(i);
        assert(t.recurring[i] == t.definition(name));
    }
}

/// After registering, the definition of the name holds what the call gave, whether or not
/// there was one before: queue, type, payload, number of attempts and expression. Its next
/// run is kept where the expression was the same, and is otherwise the first after `now`.
/// A definition that was there keeps its id, its age and its last job. No other definition
/// and no job changes. The call fails only where the expression is refused or does not fire,
/// where the search for its run would leave the calendar, or where there is no id left.
pub proof fn law_registered_definition_holds_what_was_given(
    before: Tables,
    after: Tables,
    r: Result<i64, QueueError>,
    name: Seq<char>,
    queue: Seq<char>,
    job_type: Seq<char>,
    payload: serde_json::Value,
    max_attempts: i32,
    cron_expr: Seq<char>,
    now: Timestamp,
)
    requires
        before.valid(),
        now.valid(),
        queue::registered(
            before,
            after,
            r,
            tables::new_definition(
                name,
                queue,
                job_type,
                payload,
                max_attempts,
                cron_expr,
                scheduler::run_after(cron_expr, now)->Ok_0,
                now,
            ),
            now,
        ),
    ensures
        r is Ok <==> {
            &&& now.secs + 5 * 366 * 24 * 60 * 60 <= MAX_SECS
            &&& scheduler::run_after(cron_expr, now) is Ok
            &&& before.has_recurring(name) || before.next_recurring_id < i64::MAX
        },
        r matches Ok(id) ==> {
            let old_row = before.definition(name);
            let row = after.definition(name);
            &&& after.has_recurring(name)
            &&& row.name == name
            &&& row.id == id
            &&& row.queue == queue
            &&& row.job_type == job_type
            &&& row.payload == payload
            &&& row.max_attempts == max_attempts
            &&& row.cron_expr == cron_expr
            &&& if before.has_recurring(name) {
                &&& id == old_row.id
                &&& row.created_at == old_row.created_at
                &&& row.last_enqueued_job_id == old_row.last_enqueued_job_id
                &&& after.recurring.len() == before.recurring.len()
            } else {
                &&& id == before.next_recurring_id
                &&& row.created_at == now
                &&& row.last_enqueued_job_id is None
                &&& after.recurring.len() == before.recurring.len() + 1
            }
            &&& if before.has_recurring(name) && old_row.cron_expr == cron_expr {
                row.next_run_at == old_row.next_run_at
            } else {
                scheduler::run_after(cron_expr, now) == Ok::<_, (CronErrorKind, Seq<char>)>(
                    row.next_run_at,
                )
            }
            &&& forall|i: int|
                0 <= i < before.recurring.len() && (#[trigger] before.recurring[i]).name != name
                    ==> after.recurring.contains(before.recurring[i])
            &&& after.jobs == before.jobs
            &&& after.next_job_id == before.next_job_id
        },
        r matches Err(e) ==> {
            &&& after == before
            &&& match e {
                QueueError::Cron(e) => scheduler::run_after(cron_expr, now) == Err::<Timestamp, _>(
                    (e.kind, e.text@),
                ),
                QueueError::OutOfCalendar => {
                    &&& now.secs + 5 * 366 * 24 * 60 * 60 > MAX_SECS
                    &&& cron::meaning(cron_expr) is Ok
                },
                QueueError::IdsExhausted => {
                    &&& !before.has_recurring(name)
                    &&& before.next_recurring_id == i64::MAX
                },
                _ => false,
            }
        },
{
    let def = tables::new_definition(
        name,
        queue,
        job_type,
        payload,
        max_attempts,
        cron_expr,
        scheduler::run_after(cron_expr, now)->Ok_0,
        now,
    );
    if r is Ok {
        recurring_laws::law_registered_definition_is_there(before, def);
        law_definition_is_the_row_of_its_name(before, name);
        law_definition_is_the_row_of_its_name(after, name);
    }
    if cron::meaning(cron_expr) is Err {
        reveal(scheduler::run_after);
    }
}

/// A tick at `now` owes the definition a job: its next run is at or before `now`, and its
/// expression parses and fires within five years of 366 days.
pub open spec fn owes_a_job(def: RecurringRow, now: Timestamp) -> bool {
    &&& def.next_run_at.secs < now.secs || (def.next_run_at.secs == now.secs
        && def.next_run_at.nanos <= now.nanos)
    &&& cron::meaning(def.cron_expr) is Ok
    &&& exists|u: int|
        now.secs < u <= now.secs + 5 * 366 * 24 * 60 * 60
            && #[trigger] cron::meaning(def.cron_expr)->Ok_0.fires_at(u)
}

/// A definition fires exactly if the tick owes it a job.
proof fn lemma_fires_if_owed(defs: Seq<RecurringRow>, i: int, now: Timestamp)
    requires
        now.valid(),
        !tables::out_of_calendar(defs, now),
        0 <= i < defs.len(),
    ensures
        defs[i].fires(now) <==> owes_a_job(defs[i], now),
        defs[i].fires(now) ==> now.secs + 5 * 366 * 24 * 60 * 60 <= MAX_SECS,
{
    let def = defs[i];
    if scheduler::within_calendar(now) {
        expression_laws::law_run_is_the_first_to_fire(def.cron_expr, now);
        if def.fires(now) {
            let t = scheduler::run_after(def.cron_expr, now)->Ok_0;
            assert(cron::meaning(def.cron_expr)->Ok_0.fires_at(t.secs as int));
        }
    } else {
        reveal(scheduler::run_after);
        assert(!defs[i].due_and_readable(now));
    }
}

/// A tick gives every definition that is due, and whose expression fires again, its job: an
/// ordinary one, with the queue, type, payload and number of attempts of the definition,
/// due at once and under an id that the tick gives back. The definition names that job, and
/// its next run is the first after `now`: it is no longer due. A definition that is not due,
/// or whose expression is refused or does not fire again, is as it was. The jobs that were
/// there are as they were.
pub proof fn law_tick_gives_every_due_definition_its_job(
    before: Tables,
    after: Tables,
    r: Result<Vec<i64>, QueueError>,
    now: Timestamp,
    i: int,
)
    requires
        now.valid(),
        queue::ticked(before, after, r, now),
        r is Ok,
        0 <= i < before.recurring.len(),
    ensures
        after.recurring.len() == before.recurring.len(),
        after.jobs.len() == before.jobs.len() + r->Ok_0@.len(),
        forall|j: int| 0 <= j < before.jobs.len() ==> (#[trigger] after.jobs[j]) == before.jobs[j],
        !owes_a_job(before.recurring[i], now) ==> after.recurring[i] == before.recurring[i],
        owes_a_job(before.recurring[i], now) ==> {
            let def = before.recurring[i];
            let row = after.recurring[i];
            let s = cron::meaning(def.cron_expr)->Ok_0;
            &&& row == (RecurringRow {
                next_run_at: row.next_run_at,
                last_enqueued_job_id: row.last_enqueued_job_id,
                ..def
            })
            &&& row.next_run_at.secs > now.secs
            &&& row.next_run_at.nanos == 0
            &&& s.fires_at(row.next_run_at.secs as int)
            &&& forall|u: int| now.secs < u < row.next_run_at.secs ==> !#[trigger] s.fires_at(u)
            &&& exists|j: int|
                {
                    &&& before.jobs.len() <= j < after.jobs.len()
                    &&& row.last_enqueued_job_id == Some((#[trigger] after.jobs[j]).id)
                    &&& r->Ok_0@.contains(after.jobs[j].id)
                    &&& after.jobs[j].queue == def.queue
                    &&& after.jobs[j].job_type == def.job_type
                    &&& after.jobs[j].payload == def.payload
                    &&& after.jobs[j].max_attempts == def.max_attempts
                    &&& after.jobs[j].status == "queued"@
                    &&& after.jobs[j].attempts == 0
                    &&& after.jobs[j].run_at == now
                    &&& after.jobs[j].created_at == now
                    &&& after.jobs[j].locked_at is None && after.jobs[j].locked_by is None
                    &&& after.jobs[j].last_error is None && after.jobs[j].completed_at is None
                }
        },
{
    let ids = r->Ok_0@;
    lemma_fires_if_owed(before.recurring, i, now);
    recurring_laws::law_tick_fires_each_definition_once(before, i, now);
    let def = before.recurring[i];
    if owes_a_job(def, now) {
        let k = recurring_laws::turn(before.recurring, i, now);
        let j = before.jobs.len() + k;
        assert(after.jobs[j].id == ids[k]);
        expression_laws::law_run_is_the_first_to_fire(def.cron_expr, now);
        assert(after.recurring[i].last_enqueued_job_id == Some(after.jobs[j].id));
    }
}

/// A tick gives back one id for every definition that it owed a job, all different and all
/// new, and adds one row for each. It fails only where there are not that many ids left, or
/// where the search for the next run of a due definition would leave the calendar, and then
/// changes nothing.
pub proof fn law_tick_enqueues_one_job_per_due_definition(
    before: Tables,
    after: Tables,
    r: Result<Vec<i64>, QueueError>,
    now: Timestamp,
)
    requires
        before.valid(),
        now.valid(),
        queue::ticked(before, after, r, now),
    ensures
        r matches Ok(ids) ==> {
            &&& ids@.len() == before.recurring.filter(
                |def: RecurringRow| owes_a_job(def, now),
            ).len()
            &&& after.jobs.len() == before.jobs.len() + ids@.len()
            &&& forall|k: int|
                0 <= k < ids@.len() ==> {
                    &&& (#[trigger] ids@[k]) == before.next_job_id + k
                    &&& !before.has_job(ids@[k])
                }
        },
        r matches Err(e) ==> {
            &&& after == before
            &&& match e {
                QueueError::IdsExhausted => before.next_job_id + before.recurring.filter(
                    |def: RecurringRow| owes_a_job(def, now),
                ).len() > i64::MAX,
                QueueError::OutOfCalendar => {
                    &&& now.secs + 5 * 366 * 24 * 60 * 60 > MAX_SECS
                    &&& exists|i: int|
                        {
                            &&& 0 <= i < before.recurring.len()
                            &&& cron::meaning((#[trigger] before.recurring[i]).cron_expr) is Ok
                            &&& before.recurring[i].next_run_at.before_or_at(now)
                        }
                },
                _ => false,
            }
        },
{
    let n = before.recurring.len() as int;
    assert(before.recurring.take(n) == before.recurring);
    if !tables::out_of_calendar(before.recurring, now) {
        lemma_firing_filter(before.recurring, before.recurring, now);
    } else {
        let i = choose|i: int|
            0 <= i < before.recurring.len() && (#[trigger] before.recurring[i]).due_and_readable(now);
        assert(before.recurring[i].next_run_at.before_or_at(now));
    }
    if let Ok(ids) = r {
        recurring_laws::lemma_tick_adds(before, n, now);
        assert forall|k: int| 0 <= k < ids@.len() implies {
            &&& (#[trigger] ids@[k]) == before.next_job_id + k
            &&& !before.has_job(ids@[k])
        } by {
            assert(ids@[k] == before.tick(n, now).1[k]);
        }
    }
}

/// The definitions that fire are those that a tick owes a job.
proof fn lemma_firing_filter(all: Seq<RecurringRow>, defs: Seq<RecurringRow>, now: Timestamp)
    requires
        now.valid(),
        !tables::out_of_calendar(all, now),
        defs.len() <= all.len(),
        defs == all.take(defs.len() as int),
    ensures
        tables::firing(defs, now) == defs.filter(|def: RecurringRow| owes_a_job(def, now)).len(),
    decreases defs.len(),
{
    reveal(Seq::filter);
    if defs.len() > 0 {
        let init = defs.drop_last();
        assert(init == all.take(init.len() as int));
        lemma_firing_filter(all, init, now);
        assert(defs.last() == all[defs.len() - 1]);
        lemma_fires_if_owed(all, defs.len() - 1, now);
    }
}

/// The jobs that one tick enqueues for two definitions are two jobs.
pub proof fn law_tick_gives_different_definitions_different_jobs(
    before: Tables,
    after: Tables,
    r: Result<Vec<i64>, QueueError>,
    now: Timestamp,
    a: int,
    b: int,
)
    requires
        now.valid(),
        queue::ticked(before, after, r, now),
        r is Ok,
        0 <= a < b < before.recurring.len(),
        owes_a_job(before.recurring[a], now),
        owes_a_job(before.recurring[b], now),
    ensures
        after.recurring[a].last_enqueued_job_id != after.recurring[b].last_enqueued_job_id,
{
    lemma_fires_if_owed(before.recurring, a, now);
    lemma_fires_if_owed(before.recurring, b, now);
    recurring_laws::law_tick_fires_each_definition_once(before, a, now);
    recurring_laws::law_tick_fires_each_definition_once(before, b, now);
    let to_b = before.recurring.take(b);
    assert(before.recurring.take(a + 1).drop_last() == before.recurring.take(a));
    assert(to_b.take(a + 1) == before.recurring.take(a + 1));
    tables::lemma_firing_take(to_b, now, a + 1);
}

/// A definition that is registered again fires with what it was given last: the job that the
/// next tick owes it goes to the new queue, with the new type, payload and number of
/// attempts.
pub proof fn law_registered_definition_fires_with_what_was_given(
    before: Tables,
    mid: Tables,
    after: Tables,
    id: i64,
    name: Seq<char>,
    queue: Seq<char>,
    job_type: Seq<char>,
    payload: serde_json::Value,
    max_attempts: i32,
    cron_expr: Seq<char>,
    now: Timestamp,
    r: Result<Vec<i64>, QueueError>,
    later: Timestamp,
)
    requires
        before.valid(),
        mid.valid(),
        now.valid(),
        later.valid(),
        queue::registered(
            before,
            mid,
            Ok(id),
            tables::new_definition(
                name,
                queue,
                job_type,
                payload,
                max_attempts,
                cron_expr,
                scheduler::run_after(cron_expr, now)->Ok_0,
                now,
            ),
            now,
        ),
        queue::ticked(mid, after, r, later),
        r is Ok,
        owes_a_job(mid.definition(name), later),
    ensures
        exists|j: int|
            {
                &&& mid.jobs.len() <= j < after.jobs.len()
                &&& r->Ok_0@.contains((#[trigger] after.jobs[j]).id)
                &&& after.jobs[j].queue == queue
                &&& after.jobs[j].job_type == job_type
                &&& after.jobs[j].payload == payload
                &&& after.jobs[j].max_attempts == max_attempts
                &&& after.jobs[j].run_at == later
            },
{
    law_registered_definition_holds_what_was_given(
        before,
        mid,
        Ok(id),
        name,
        queue,
        job_type,
        payload,
        max_attempts,
        cron_expr,
        now,
    );
    law_definition_is_the_row_of_its_name(mid, name);
    let i = choose|i: int|
        0 <= i < mid.recurring.len() && #[trigger] mid.recurring[i] == mid.definition(name);
    law_tick_gives_every_due_definition_its_job(mid, after, r, later, i);
    let j = choose|j: int|
        {
            &&& mid.jobs.len() <= j < after.jobs.len()
            &&& after.recurring[i].last_enqueued_job_id == Some((#[trigger] after.jobs[j]).id)
            &&& r->Ok_0@.contains(after.jobs[j].id)
            &&& after.jobs[j].queue == mid.recurring[i].queue
            &&& after.jobs[j].job_type == mid.recurring[i].job_type
            &&& after.jobs[j].payload == mid.recurring[i].payload
            &&& after.jobs[j].max_attempts == mid.recurring[i].max_attempts
            &&& after.jobs[j].run_at == later
        };
    assert(r->Ok_0@.contains(after.jobs[j].id));
}

} // verus!
