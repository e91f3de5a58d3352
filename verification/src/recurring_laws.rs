//! What holds of recurring-job definitions over several operations.
use vstd::prelude::*;

use crate::cron;
use crate::job::RecurringRow;
use crate::scheduler;
use crate::tables;
use crate::tables::Tables;
use crate::text;
use crate::timestamp::Timestamp;

verus! {

/// The definition as another call registers it: with the same arguments, at another time.
pub open spec fn same_arguments(a: RecurringRow, b: RecurringRow) -> bool {
    &&& a.name == b.name
    &&& a.queue == b.queue
    &&& a.job_type == b.job_type
    &&& a.payload == b.payload
    &&& a.max_attempts == b.max_attempts
    &&& a.cron_expr == b.cron_expr
}

/// The definition of a name that is registered is there, once, and the other definitions
/// are as they were.
pub proof fn law_registered_definition_is_there(t: Tables, def: RecurringRow)
    requires
        t.valid(),
        t.has_recurring(def.name) || t.next_recurring_id < i64::MAX,
    ensures
        ({
            let after = t.register(def);
            &&& after.valid()
            &&& after.jobs == t.jobs
            &&& after.has_recurring(def.name)
            &&& after.definition(def.name) == (if t.has_recurring(def.name) {
                t.definition(def.name).redefined(def)
            } else {
                RecurringRow { id: t.next_recurring_id, ..def }
            })
            &&& after.recurring.len() == t.recurring.len() + if t.has_recurring(def.name) {
                0int
            } else {
                1int
            }
            &&& forall|i: int|
                0 <= i < t.recurring.len() && (#[trigger] t.recurring[i]).name != def.name
                    ==> after.recurring.contains(t.recurring[i])
        }),
{
    let after = t.register(def);
    if t.has_recurring(def.name) {
        let i = choose|i: int|
            0 <= i < t.recurring.len() && (#[trigger] t.recurring[i]).name == def.name;
        t.lemma_definition_at(i);
        assert(tables::def_names(after.recurring) == tables::def_names(t.recurring));
        after.lemma_definition_at(i);
        assert forall|j: int|
            0 <= j < t.recurring.len() && (#[trigger] t.recurring[j]).name
                != def.name implies after.recurring.contains(t.recurring[j]) by {
            assert(after.recurring[j] == t.recurring[j]);
        }
    } else {
        let p = lemma_rank_splits(t.recurring, def.name);
        let names = tables::def_names(t.recurring);
        assert forall|i: int| 0 <= i < p implies text::precedes(
            #[trigger] names[i],
            def.name,
        ) by {
            assert(text::precedes(t.recurring[i].name, def.name));
        }
        if p < names.len() {
            assert(t.recurring[p].name != def.name);
        }
        tables::lemma_insert_in_order(names, def.name, p);
        assert(tables::def_names(after.recurring) == names.insert(p, def.name));
        after.lemma_definition_at(p);
        assert forall|j: int|
            0 <= j < t.recurring.len() && (#[trigger] t.recurring[j]).name
                != def.name implies after.recurring.contains(t.recurring[j]) by {
            let k = if j < p {
                j
            } else {
                j + 1
            };
            assert(after.recurring[k] == t.recurring[j]);
        }
    }
}

/// The names before the rank come before `name`, and the one at the rank does not.
proof fn lemma_rank_splits(defs: Seq<RecurringRow>, name: Seq<char>) -> (p: int)
    ensures
        p == tables::rank(defs, name),
        0 <= p <= defs.len(),
        forall|i: int| 0 <= i < p ==> text::precedes((#[trigger] defs[i]).name, name),
        p < defs.len() ==> !text::precedes(defs[p].name, name),
    decreases defs.len(),
{
    if defs.len() > 0 && text::precedes(defs[0].name, name) {
        let p = lemma_rank_splits(defs.skip(1), name);
        assert forall|i: int| 0 <= i < p + 1 implies text::precedes(
            (#[trigger] defs[i]).name,
            name,
        ) by {
            if i > 0 {
                assert(defs[i] == defs.skip(1)[i - 1]);
            }
        }
        p + 1
    } else {
        0
    }
}

/// Registration is idempotent: registering a definition again with the same arguments, at
/// whatever time, changes nothing.
pub proof fn law_registering_again_changes_nothing(t: Tables, def: RecurringRow, again: RecurringRow)
    requires
        t.valid(),
        t.has_recurring(def.name) || t.next_recurring_id < i64::MAX,
        same_arguments(def, again),
    ensures
        t.register(def).register(again) == t.register(def),
{
    let after = t.register(def);
    law_registered_definition_is_there(t, def);
    let twice = after.register(again);
    assert forall|i: int| 0 <= i < after.recurring.len() implies (#[trigger] twice.recurring[i])
        == after.recurring[i] by {
        if after.recurring[i].name == def.name {
            after.lemma_definition_at(i);
        }
    }
    assert(twice.recurring == after.recurring);
}

/// A definition whose expression stays the same keeps its next run, its id and its history;
/// with another expression the next run is the new one.
pub proof fn law_unchanged_expression_keeps_next_run(t: Tables, def: RecurringRow)
    requires
        t.valid(),
        t.has_recurring(def.name),
    ensures
        ({
            let before = t.definition(def.name);
            let after = t.register(def).definition(def.name);
            &&& after.id == before.id
            &&& after.last_enqueued_job_id == before.last_enqueued_job_id
            &&& after.created_at == before.created_at
            &&& after.next_run_at == (if before.cron_expr == def.cron_expr {
                before.next_run_at
            } else {
                def.next_run_at
            })
        }),
{
    law_registered_definition_is_there(t, def);
    let i = choose|i: int| 0 <= i < t.recurring.len() && (#[trigger] t.recurring[i]).name == def.name;
    t.lemma_definition_at(i);
}

/// The position, among the ids that a tick gives back, of the job of definition `i`.
pub open spec fn turn(defs: Seq<RecurringRow>, i: int, now: Timestamp) -> int {
    tables::firing(defs.take(i), now)
}

/// A tick enqueues one ordinary job, due at once, for every definition that fires, and
/// only for those; the jobs that were there are as they were. A definition that fired
/// knows its job, and its next run lies after the tick; any other definition is as it was.
pub proof fn law_tick_fires_each_definition_once(t: Tables, i: int, now: Timestamp)
    requires
        !tables::out_of_calendar(t.recurring, now),
        t.next_job_id + tables::firing(t.recurring, now) <= i64::MAX,
        0 <= i < t.recurring.len(),
    ensures
        ({
            let (after, ids) = t.tick(t.recurring.len() as int, now);
            let def = t.recurring[i];
            let k = turn(t.recurring, i, now);
            &&& ids.len() == tables::firing(t.recurring, now)
            &&& after.jobs.len() == t.jobs.len() + ids.len()
            &&& after.recurring.len() == t.recurring.len()
            &&& forall|j: int| 0 <= j < t.jobs.len() ==> (#[trigger] after.jobs[j]) == t.jobs[j]
            &&& if def.fires(now) {
                &&& 0 <= k < ids.len()
                &&& ids[k] == t.next_job_id + k
                &&& after.jobs[t.jobs.len() + k] == tables::new_job(
                    ids[k],
                    def.queue,
                    def.job_type,
                    def.payload,
                    def.max_attempts,
                    now,
                    now,
                )
                &&& after.recurring[i] == def.fired(ids[k], now)
                &&& !after.recurring[i].due(now)
                &&& cron::meaning(def.cron_expr)->Ok_0.is_next(
                    now.secs as int,
                    after.recurring[i].next_run_at.secs as int,
                )
            } else {
                after.recurring[i] == def
            }
        }),
{
    lemma_tick_effect(t, t.recurring.len() as int, i, now);
    lemma_tick_adds(t, t.recurring.len() as int, now);
    t.lemma_tick(t.recurring.len() as int, now);
    assert(t.recurring.take(t.recurring.len() as int) == t.recurring);
    let def = t.recurring[i];
    if def.fires(now) {
        lemma_fires_in_calendar(t.recurring, i, now);
        scheduler::law_run_after_is_next(
            def.cron_expr,
            now,
            scheduler::run_after(def.cron_expr, now)->Ok_0,
        );
    }
}

/// Where a tick is possible, a definition that fires does so within the calendar.
proof fn lemma_fires_in_calendar(defs: Seq<RecurringRow>, i: int, now: Timestamp)
    requires
        !tables::out_of_calendar(defs, now),
        0 <= i < defs.len(),
        defs[i].fires(now),
    ensures
        scheduler::within_calendar(now),
{
    reveal(scheduler::run_after);
    assert(defs[i].due_and_readable(now));
}

/// The first `n` turns of a tick only add jobs, one for every id.
pub proof fn lemma_tick_adds(t: Tables, n: int, now: Timestamp)
    requires
        0 <= n <= t.recurring.len(),
        t.next_job_id + tables::firing(t.recurring, now) <= i64::MAX,
    ensures
        ({
            let (after, ids) = t.tick(n, now);
            &&& ids.len() == tables::firing(t.recurring.take(n), now)
            &&& forall|k: int| 0 <= k < ids.len() ==> (#[trigger] ids[k]) == t.next_job_id + k
            &&& after.jobs.len() == t.jobs.len() + ids.len()
            &&& forall|j: int| 0 <= j < t.jobs.len() ==> (#[trigger] after.jobs[j]) == t.jobs[j]
        }),
    decreases n,
{
    if n > 0 {
        lemma_tick_adds(t, n - 1, now);
        tables::lemma_firing_take(t.recurring, now, n - 1);
        t.lemma_tick(n - 1, now);
        assert(t.recurring.take(n).drop_last() == t.recurring.take(n - 1));
        assert(t.tick(n - 1, now).0.recurring[n - 1] == t.recurring[n - 1]);
    }
}

/// What a tick has done to a definition that fired, and what it has enqueued for it.
spec fn has_fired(t: Tables, after: Tables, ids: Seq<i64>, i: int, now: Timestamp) -> bool {
    let def = t.recurring[i];
    let k = turn(t.recurring, i, now);
    &&& 0 <= k < ids.len()
    &&& ids[k] == t.next_job_id + k
    &&& after.jobs[t.jobs.len() + k] == tables::new_job(
        ids[k],
        def.queue,
        def.job_type,
        def.payload,
        def.max_attempts,
        now,
        now,
    )
    &&& after.recurring[i] == def.fired(ids[k], now)
}

/// What the first `n` turns of a tick have done to definition `i`.
proof fn lemma_tick_effect(t: Tables, n: int, i: int, now: Timestamp)
    requires
        0 <= i < n <= t.recurring.len(),
        t.next_job_id + tables::firing(t.recurring, now) <= i64::MAX,
    ensures
        if t.recurring[i].fires(now) {
            has_fired(t, t.tick(n, now).0, t.tick(n, now).1, i, now)
        } else {
            t.tick(n, now).0.recurring[i] == t.recurring[i]
        },
    decreases n,
{
    let (before, ids) = t.tick(n - 1, now);
    let (after, all) = t.tick(n, now);
    let def = t.recurring[n - 1];
    t.lemma_tick(n - 1, now);
    lemma_tick_adds(t, n - 1, now);
    assert(before.recurring[n - 1] == def);
    tables::lemma_firing_take(t.recurring, now, n - 1);
    tables::lemma_firing_take(t.recurring, now, i);
    if i < n - 1 {
        lemma_tick_effect(t, n - 1, i, now);
        if def.fires(now) {
            assert(after == before.fire(n - 1, now));
            assert(after.recurring[i] == before.recurring[i]);
            if t.recurring[i].fires(now) {
                let k = turn(t.recurring, i, now);
                assert(all[k] == ids[k]);
                assert(after.jobs[t.jobs.len() + k] == before.jobs[t.jobs.len() + k]);
            }
        }
    } else if def.fires(now) {
        assert(after == before.fire(n - 1, now));
        assert(all == ids.push(before.next_job_id));
    }
}

/// A second tick at the same time enqueues nothing and changes nothing: whichever
/// scheduler comes second, no occurrence is enqueued twice.
pub proof fn law_second_tick_is_idle(t: Tables, now: Timestamp)
    requires
        !tables::out_of_calendar(t.recurring, now),
        t.next_job_id + tables::firing(t.recurring, now) <= i64::MAX,
    ensures
        ({
            let after = t.tick(t.recurring.len() as int, now).0;
            after.tick(after.recurring.len() as int, now) == (after, Seq::<i64>::empty())
        }),
{
    let after = t.tick(t.recurring.len() as int, now).0;
    t.lemma_tick(t.recurring.len() as int, now);
    assert forall|i: int| 0 <= i < after.recurring.len() implies !(
    #[trigger] after.recurring[i]).fires(now) by {
        law_tick_fires_each_definition_once(t, i, now);
    }
    after.lemma_idle_tick(after.recurring.len() as int, now);
}

/// The job of a definition is claimed like any other: it is due from the tick on.
pub proof fn law_fired_job_is_claimable(t: Tables, i: int, now: Timestamp, later: Timestamp)
    requires
        !tables::out_of_calendar(t.recurring, now),
        t.next_job_id + tables::firing(t.recurring, now) <= i64::MAX,
        0 <= i < t.recurring.len(),
        t.recurring[i].fires(now),
        now.before_or_at(later),
    ensures
        ({
            let after = t.tick(t.recurring.len() as int, now).0;
            after.jobs[t.jobs.len() + turn(t.recurring, i, now)].due(t.recurring[i].queue, later)
        }),
{
    law_tick_fires_each_definition_once(t, i, now);
}

/// A later tick leaves alone what an earlier one has fired, as long as it is not due again,
/// and never gives out the same id: whichever scheduler comes second, no occurrence is
/// enqueued twice.
pub proof fn law_later_tick_fires_nothing_again(t: Tables, i: int, now: Timestamp, later: Timestamp)
    requires
        !tables::out_of_calendar(t.recurring, now),
        t.next_job_id + tables::firing(t.recurring, now) <= i64::MAX,
        0 <= i < t.recurring.len(),
        t.recurring[i].fires(now),
        ({
            let after = t.tick(t.recurring.len() as int, now).0;
            &&& !tables::out_of_calendar(after.recurring, later)
            &&& after.next_job_id + tables::firing(after.recurring, later) <= i64::MAX
            &&& !after.recurring[i].due(later)
        }),
    ensures
        ({
            let (after, ids) = t.tick(t.recurring.len() as int, now);
            let (last, more) = after.tick(after.recurring.len() as int, later);
            &&& !after.recurring[i].fires(later)
            &&& last.recurring[i] == after.recurring[i]
            &&& forall|j: int| 0 <= j < after.jobs.len() ==> (#[trigger] last.jobs[j])
                == after.jobs[j]
            &&& forall|id: i64| !(#[trigger] ids.contains(id) && more.contains(id))
        }),
{
    let n = t.recurring.len() as int;
    let (after, ids) = t.tick(n, now);
    let (last, more) = after.tick(n, later);
    t.lemma_tick(n, now);
    lemma_tick_adds(t, n, now);
    assert(t.recurring.take(n) == t.recurring);
    law_tick_fires_each_definition_once(after, i, later);
    lemma_tick_adds(after, n, later);
    assert forall|id: i64| !(#[trigger] ids.contains(id) && more.contains(id)) by {
        if ids.contains(id) && more.contains(id) {
            let k = choose|k: int| 0 <= k < ids.len() && ids[k] == id;
            let m = choose|m: int| 0 <= m < more.len() && more[m] == id;
            assert(ids[k] == t.next_job_id + k);
            assert(more[m] == after.next_job_id + m);
        }
    }
}

/// The turn of one definition in the tick of one scheduler.
pub struct TickTurn {
    pub scheduler: int,
    pub definition: int,
    pub now: Timestamp,
}

impl Tables {
    /// The definition whose turn it is fires.
    pub open spec fn fires_in(self, step: TickTurn) -> bool {
        &&& 0 <= step.definition < self.recurring.len()
        &&& self.recurring[step.definition].fires(step.now)
    }

    /// The tables after one turn.
    pub open spec fn turn(self, step: TickTurn) -> Tables {
        if self.fires_in(step) {
            self.fire(step.definition, step.now)
        } else {
            self
        }
    }

    /// The tables after a run of turns. The turns of ticks that run side by side may come
    /// in any order.
    pub open spec fn turns(self, steps: Seq<TickTurn>) -> Tables
        decreases steps.len(),
    {
        if steps.len() == 0 {
            self
        } else {
            self.turns(steps.drop_last()).turn(steps.last())
        }
    }

    /// Turn `k` of the run fires.
    pub open spec fn turn_fires(self, steps: Seq<TickTurn>, k: int) -> bool {
        self.turns(steps.take(k)).fires_in(steps[k])
    }

    /// The id of the job that turn `k` enqueues if it fires.
    pub open spec fn turn_id(self, steps: Seq<TickTurn>, k: int) -> i64 {
        self.turns(steps.take(k)).next_job_id
    }

    /// The ids of the jobs that the turns of `scheduler` enqueue.
    pub open spec fn ids_of(self, steps: Seq<TickTurn>, scheduler: int) -> Seq<i64>
        decreases steps.len(),
    {
        if steps.len() == 0 {
            seq![]
        } else {
            let ids = self.ids_of(steps.drop_last(), scheduler);
            let before = self.turns(steps.drop_last());
            if steps.last().scheduler == scheduler && before.fires_in(steps.last()) {
                ids.push(before.next_job_id)
            } else {
                ids
            }
        }
    }
}

/// The turns of one tick: every definition, one after the other.
pub open spec fn tick_turns(scheduler: int, n: int, now: Timestamp) -> Seq<TickTurn> {
    Seq::new(n as nat, |i: int| TickTurn { scheduler, definition: i, now })
}

/// A tick is the run of the turns of all definitions.
pub proof fn law_tick_is_a_run_of_turns(t: Tables, scheduler: int, n: int, now: Timestamp)
    requires
        0 <= n <= t.recurring.len(),
        t.next_job_id + tables::firing(t.recurring, now) <= i64::MAX,
    ensures
        t.turns(tick_turns(scheduler, n, now)) == t.tick(n, now).0,
        t.ids_of(tick_turns(scheduler, n, now), scheduler) == t.tick(n, now).1,
    decreases n,
{
    let steps = tick_turns(scheduler, n, now);
    if n > 0 {
        law_tick_is_a_run_of_turns(t, scheduler, n - 1, now);
        t.lemma_tick(n - 1, now);
        assert(steps.drop_last() == tick_turns(scheduler, n - 1, now));
        assert(steps.last() == (TickTurn { scheduler, definition: n - 1, now }));
    }
}

/// A turn that fires adds one job, for its definition; one that does not adds none, and
/// changes nothing.
pub proof fn law_turn_adds_one_job_if_it_fires(t: Tables, steps: Seq<TickTurn>, k: int)
    requires
        0 <= k < steps.len(),
    ensures
        ({
            let before = t.turns(steps.take(k));
            let after = t.turns(steps.take(k + 1));
            let def = before.recurring[steps[k].definition];
            if t.turn_fires(steps, k) {
                after.jobs == before.jobs.push(
                    tables::new_job(
                        t.turn_id(steps, k),
                        def.queue,
                        def.job_type,
                        def.payload,
                        def.max_attempts,
                        steps[k].now,
                        steps[k].now,
                    ),
                )
            } else {
                after == before
            }
        }),
{
    assert(steps.take(k + 1).drop_last() == steps.take(k));
    assert(steps.take(k + 1).last() == steps[k]);
}

/// A run of turns gives out at most one id per turn, and never an id twice.
proof fn lemma_turn_ids(t: Tables, steps: Seq<TickTurn>, m: int)
    requires
        0 <= m <= steps.len(),
        t.next_job_id + steps.len() <= i64::MAX,
    ensures
        t.turns(steps.take(m)).recurring.len() == t.recurring.len(),
        t.next_job_id <= t.turns(steps.take(m)).next_job_id <= t.next_job_id + m,
        forall|k: int|
            0 <= k < m && #[trigger] t.turn_fires(steps, k) ==> t.turn_id(steps, k) < t.turns(
                steps.take(m),
            ).next_job_id,
    decreases m,
{
    if m > 0 {
        lemma_turn_ids(t, steps, m - 1);
        assert(steps.take(m).drop_last() == steps.take(m - 1));
        assert(steps.take(m).last() == steps[m - 1]);
    } else {
        assert(steps.take(0) == Seq::<TickTurn>::empty());
    }
}

/// No two turns enqueue a job under the same id, whichever scheduler they belong to.
pub proof fn law_turns_give_out_new_ids(t: Tables, steps: Seq<TickTurn>, a: int, b: int)
    requires
        t.next_job_id + steps.len() <= i64::MAX,
        0 <= a < b < steps.len(),
        t.turn_fires(steps, a),
        t.turn_fires(steps, b),
    ensures
        t.turn_id(steps, a) < t.turn_id(steps, b),
{
    lemma_turn_ids(t, steps, b);
}

/// Every id that a scheduler has given out is that of one of its turns.
proof fn lemma_id_has_a_turn(t: Tables, steps: Seq<TickTurn>, scheduler: int, id: i64) -> (k: int)
    requires
        t.ids_of(steps, scheduler).contains(id),
    ensures
        0 <= k < steps.len(),
        steps[k].scheduler == scheduler,
        t.turn_fires(steps, k),
        t.turn_id(steps, k) == id,
    decreases steps.len(),
{
    let init = steps.drop_last();
    let ids = t.ids_of(init, scheduler);
    assert(steps.take(steps.len() - 1) == init);
    if ids.contains(id) {
        let k = lemma_id_has_a_turn(t, init, scheduler, id);
        assert(steps.take(k) == init.take(k));
        assert(steps[k] == init[k]);
        k
    } else {
        steps.len() - 1
    }
}

/// The ids that two schedulers give out side by side are disjoint.
pub proof fn law_schedulers_give_out_different_ids(
    t: Tables,
    steps: Seq<TickTurn>,
    a: int,
    b: int,
    id: i64,
)
    requires
        t.next_job_id + steps.len() <= i64::MAX,
        a != b,
    ensures
        !(t.ids_of(steps, a).contains(id) && t.ids_of(steps, b).contains(id)),
{
    if t.ids_of(steps, a).contains(id) && t.ids_of(steps, b).contains(id) {
        let k = lemma_id_has_a_turn(t, steps, a, id);
        let m = lemma_id_has_a_turn(t, steps, b, id);
        if k < m {
            law_turns_give_out_new_ids(t, steps, k, m);
        } else {
            law_turns_give_out_new_ids(t, steps, m, k);
        }
    }
}

/// The run that a definition with the expression `expr` is given when it fires at `now`.
pub open spec fn given_run(expr: Seq<char>, now: Timestamp) -> Timestamp {
    scheduler::run_after(expr, now)->Ok_0
}

/// Once a definition has fired, its next run is never before the one that it was given.
proof fn lemma_given_run_stays(t: Tables, steps: Seq<TickTurn>, a: int, m: int)
    requires
        t.next_job_id + steps.len() <= i64::MAX,
        forall|k: int|
            0 <= k < steps.len() ==> scheduler::within_calendar((#[trigger] steps[k]).now),
        0 <= a < m <= steps.len(),
        t.turn_fires(steps, a),
    ensures
        ({
            let d = steps[a].definition;
            let def = t.turns(steps.take(m)).recurring[d];
            &&& 0 <= d < t.recurring.len()
            &&& given_run(t.recurring[d].cron_expr, steps[a].now).before_or_at(def.next_run_at)
        }),
    decreases m,
{
    let d = steps[a].definition;
    let step = steps[m - 1];
    let before = t.turns(steps.take(m - 1));
    lemma_turn_ids(t, steps, a);
    lemma_turn_ids(t, steps, m - 1);
    lemma_expressions_stay(t, steps.take(m - 1), d);
    assert(steps.take(m).drop_last() == steps.take(m - 1));
    assert(steps.take(m).last() == step);
    if a < m - 1 {
        lemma_given_run_stays(t, steps, a, m - 1);
        if before.fires_in(step) && step.definition == d {
            let expr = before.recurring[d].cron_expr;
            scheduler::law_run_after_is_next(expr, step.now, given_run(expr, step.now));
        }
    }
}

/// No turn changes an expression.
proof fn lemma_expressions_stay(t: Tables, steps: Seq<TickTurn>, d: int)
    requires
        0 <= d < t.recurring.len(),
    ensures
        t.turns(steps).recurring.len() == t.recurring.len(),
        t.turns(steps).recurring[d].cron_expr == t.recurring[d].cron_expr,
    decreases steps.len(),
{
    if steps.len() > 0 {
        lemma_expressions_stay(t, steps.drop_last(), d);
    }
}

/// However the turns of the schedulers come, a definition that has fired does not fire
/// again before the run that it was given then is due.
pub proof fn law_no_occurrence_fires_twice(t: Tables, steps: Seq<TickTurn>, a: int, b: int)
    requires
        t.next_job_id + steps.len() <= i64::MAX,
        forall|k: int|
            0 <= k < steps.len() ==> scheduler::within_calendar((#[trigger] steps[k]).now),
        0 <= a < b < steps.len(),
        steps[a].definition == steps[b].definition,
        t.turn_fires(steps, a),
        t.turn_fires(steps, b),
    ensures
        given_run(t.recurring[steps[a].definition].cron_expr, steps[a].now).before_or_at(
            steps[b].now,
        ),
{
    lemma_given_run_stays(t, steps, a, b);
}

/// A definition that has not had its turn is as it was.
proof fn lemma_untouched(t: Tables, steps: Seq<TickTurn>, d: int)
    requires
        0 <= d < t.recurring.len(),
        forall|k: int| 0 <= k < steps.len() ==> (#[trigger] steps[k]).definition != d,
    ensures
        t.turns(steps).recurring.len() == t.recurring.len(),
        t.turns(steps).recurring[d] == t.recurring[d],
    decreases steps.len(),
{
    if steps.len() > 0 {
        let init = steps.drop_last();
        assert forall|k: int| 0 <= k < init.len() implies (#[trigger] init[k]).definition
            != d by {
            assert(init[k] == steps[k]);
        }
        lemma_untouched(t, init, d);
        assert(steps[steps.len() - 1].definition != d);
    }
}

/// The first turn of definition `d` in the run.
proof fn lemma_first_turn(steps: Seq<TickTurn>, d: int, k: int) -> (first: int)
    requires
        0 <= k < steps.len(),
        steps[k].definition == d,
    ensures
        0 <= first <= k,
        steps[first].definition == d,
        forall|j: int| 0 <= j < first ==> (#[trigger] steps[j]).definition != d,
    decreases k,
{
    if exists|j: int| 0 <= j < k && (#[trigger] steps[j]).definition == d {
        let j = choose|j: int| 0 <= j < k && (#[trigger] steps[j]).definition == d;
        lemma_first_turn(steps, d, j)
    } else {
        k
    }
}

/// Ticks side by side fire a due definition exactly once: of the turns that it gets, one
/// fires, and enqueues a job for it under the id of that turn, and no other does, as long
/// as the run that it is given has not come due.
pub proof fn law_due_definition_fires_exactly_once(t: Tables, steps: Seq<TickTurn>, d: int) -> (k:
    int)
    requires
        t.next_job_id + steps.len() <= i64::MAX,
        0 <= d < t.recurring.len(),
        exists|m: int| 0 <= m < steps.len() && (#[trigger] steps[m]).definition == d,
        forall|m: int|
            0 <= m < steps.len() ==> scheduler::within_calendar((#[trigger] steps[m]).now),
        forall|m: int|
            0 <= m < steps.len() && (#[trigger] steps[m]).definition == d ==> t.recurring[d].fires(
                steps[m].now,
            ),
        forall|m: int, n: int|
            #![trigger steps[m], steps[n]]
            0 <= m < steps.len() && 0 <= n < steps.len() && steps[m].definition == d
                && steps[n].definition == d ==> !given_run(
                t.recurring[d].cron_expr,
                steps[m].now,
            ).before_or_at(steps[n].now),
    ensures
        0 <= k < steps.len(),
        steps[k].definition == d,
        t.turn_fires(steps, k),
        forall|m: int|
            0 <= m < steps.len() && m != k && steps[m].definition == d ==> !#[trigger] t.turn_fires(
                steps,
                m,
            ),
        t.turns(steps).jobs.contains(
            tables::new_job(
                t.turn_id(steps, k),
                t.recurring[d].queue,
                t.recurring[d].job_type,
                t.recurring[d].payload,
                t.recurring[d].max_attempts,
                steps[k].now,
                steps[k].now,
            ),
        ),
{
    let some = choose|m: int| 0 <= m < steps.len() && (#[trigger] steps[m]).definition == d;
    let k = lemma_first_turn(steps, d, some);
    let seen = steps.take(k);
    assert forall|j: int| 0 <= j < seen.len() implies (#[trigger] seen[j]).definition != d by {
        assert(seen[j] == steps[j]);
    }
    lemma_untouched(t, seen, d);
    assert(t.turn_fires(steps, k));
    assert forall|m: int|
        0 <= m < steps.len() && m != k && steps[m].definition == d implies !#[trigger] t.turn_fires(
        steps,
        m,
    ) by {
        if t.turn_fires(steps, m) {
            if m < k {
                assert(steps[m].definition != d);
            } else {
                law_no_occurrence_fires_twice(t, steps, k, m);
            }
        }
    }
    let before = t.turns(seen);
    let after = t.turns(steps.take(k + 1));
    assert(steps.take(k + 1).drop_last() == seen);
    assert(steps.take(k + 1).last() == steps[k]);
    assert(after.jobs[before.jobs.len() as int] == after.jobs.last());
    lemma_jobs_stay(t, steps, k + 1, steps.len() as int, before.jobs.len() as int);
    assert(steps.take(steps.len() as int) == steps);
    k
}

/// What a turn has enqueued stays through the later ones.
proof fn lemma_jobs_stay(t: Tables, steps: Seq<TickTurn>, m: int, n: int, j: int)
    requires
        0 <= m <= n <= steps.len(),
        0 <= j < t.turns(steps.take(m)).jobs.len(),
    ensures
        j < t.turns(steps.take(n)).jobs.len(),
        t.turns(steps.take(n)).jobs[j] == t.turns(steps.take(m)).jobs[j],
    decreases n - m,
{
    if m < n {
        lemma_jobs_stay(t, steps, m, n - 1, j);
        assert(steps.take(n).drop_last() == steps.take(n - 1));
    }
}

} // verus!
