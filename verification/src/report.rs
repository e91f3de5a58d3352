//! The lines that the command line prints.
use vstd::prelude::*;

use crate::job::{QueueStats, RecurringJob, StatsRow};
use crate::text;
use crate::text::push_integer;

verus! {

/// `n` spaces.
pub open spec fn spaces(n: int) -> Seq<char> {
    Seq::new(
        if n > 0 {
            n as nat
        } else {
            0
        },
        |i: int| ' ',
    )
}

/// `s` in a column of `width` characters, at its left edge. A longer text is not cut.
pub open spec fn left(s: Seq<char>, width: int) -> Seq<char> {
    s + spaces(width - s.len())
}

/// `s` in a column of `width` characters, at its right edge. A longer text is not cut.
pub open spec fn right(s: Seq<char>, width: int) -> Seq<char> {
    spaces(width - s.len()) + s
}

/// One line of the statistics: the name of a queue and five columns.
pub open spec fn stats_columns(
    queue: Seq<char>,
    queued: Seq<char>,
    running: Seq<char>,
    done: Seq<char>,
    failed: Seq<char>,
    dead: Seq<char>,
) -> Seq<char> {
    left(queue, 15) + " "@ + right(queued, 8) + " "@ + right(running, 8) + " "@ + right(done, 8)
        + " "@ + right(failed, 8) + " "@ + right(dead, 8)
}

/// The counts of one queue, as a line.
pub open spec fn stats_text(s: StatsRow) -> Seq<char> {
    stats_columns(
        s.queue,
        text::integer(s.queued),
        text::integer(s.running),
        text::integer(s.done),
        text::integer(s.failed),
        text::integer(s.dead),
    )
}

/// One line of the list of definitions. The last column comes as it is printed.
pub open spec fn recurring_columns(
    name: Seq<char>,
    queue: Seq<char>,
    job_type: Seq<char>,
    cron: Seq<char>,
    next_run_at: Seq<char>,
) -> Seq<char> {
    left(name, 20) + " "@ + left(queue, 12) + " "@ + left(job_type, 15) + " "@ + left(cron, 18)
        + " "@ + next_run_at
}

fn push_spaces(out: &mut String, n: usize)
    ensures
        final(out)@ == old(out)@ + spaces(n as int),
{
    let ghost before = out@;
    let mut i: usize = 0;
    assert(before + spaces(0) =~= before);
    while i < n
        invariant
            i <= n,
            out@ == before + spaces(i as int),
        decreases n - i,
    {
        out.append(" ");
        i = i + 1;
        proof {
            reveal_strlit(" ");
            assert(" "@ =~= seq![' ']);
            assert(out@ =~= before + spaces(i as int));
        }
    }
}

/// How many columns a text of `s` leaves free.
fn room(s: &str, width: usize) -> (r: usize)
    ensures
        r == (if s@.len() < width {
            width - s@.len()
        } else {
            0
        }),
{
    let n: usize = s.unicode_len();
    if n < width {
        width - n
    } else {
        0
    }
}

fn push_left(out: &mut String, s: &str, width: usize)
    ensures
        final(out)@ == old(out)@ + left(s@, width as int),
{
    let ghost before = out@;
    out.append(s);
    push_spaces(out, room(s, width));
    assert(out@ =~= before + left(s@, width as int));
}

fn push_right(out: &mut String, s: &str, width: usize)
    ensures
        final(out)@ == old(out)@ + right(s@, width as int),
{
    let ghost before = out@;
    push_spaces(out, room(s, width));
    out.append(s);
    assert(out@ =~= before + right(s@, width as int));
}

/// One line of the statistics.
fn stats_row(queue: &str, queued: &str, running: &str, done: &str, failed: &str, dead: &str) -> (r:
    String)
    ensures
        r@ == stats_columns(queue@, queued@, running@, done@, failed@, dead@),
{
    let mut r = String::new();
    push_left(&mut r, queue, 15);
    r.append(" ");
    push_right(&mut r, queued, 8);
    r.append(" ");
    push_right(&mut r, running, 8);
    r.append(" ");
    push_right(&mut r, done, 8);
    r.append(" ");
    push_right(&mut r, failed, 8);
    r.append(" ");
    push_right(&mut r, dead, 8);
    assert(r@ =~= stats_columns(queue@, queued@, running@, done@, failed@, dead@));
    r
}

fn integer_text(i: i64) -> (r: String)
    ensures
        r@ == text::integer(i as int),
{
    let mut r = String::new();
    push_integer(&mut r, i);
    assert(r@ =~= text::integer(i as int));
    r
}

/// The head of the statistics.
pub fn stats_header() -> (r: String)
    ensures
        r@ == stats_columns("queue"@, "queued"@, "running"@, "done"@, "failed"@, "dead"@),
{
    stats_row("queue", "queued", "running", "done", "failed", "dead")
}

/// The counts of one queue.
pub fn stats_line(s: &QueueStats) -> (r: String)
    ensures
        r@ == stats_text(s@),
{
    let queued = integer_text(s.queued);
    let running = integer_text(s.running);
    let done = integer_text(s.done);
    let failed = integer_text(s.failed);
    let dead = integer_text(s.dead);
    stats_row(
        s.queue.as_str(),
        queued.as_str(),
        running.as_str(),
        done.as_str(),
        failed.as_str(),
        dead.as_str(),
    )
}

fn recurring_row(name: &str, queue: &str, job_type: &str, cron: &str, next_run_at: &str) -> (r:
    String)
    ensures
        r@ == recurring_columns(name@, queue@, job_type@, cron@, next_run_at@),
{
    let mut r = String::new();
    push_left(&mut r, name, 20);
    r.append(" ");
    push_left(&mut r, queue, 12);
    r.append(" ");
    push_left(&mut r, job_type, 15);
    r.append(" ");
    push_left(&mut r, cron, 18);
    r.append(" ");
    r.append(next_run_at);
    assert(r@ =~= recurring_columns(name@, queue@, job_type@, cron@, next_run_at@));
    r
}

/// The head of the list of definitions.
pub fn recurring_header() -> (r: String)
    ensures
        r@ == recurring_columns(
            "name"@,
            "queue"@,
            "job_type"@,
            "cron"@,
            left("next_run_at"@, 28),
        ),
{
    let mut last = String::new();
    push_left(&mut last, "next_run_at", 28);
    assert(last@ =~= left("next_run_at"@, 28));
    recurring_row("name", "queue", "job_type", "cron", last.as_str())
}

/// One definition; `next_run_at` is its next run as it is printed.
pub fn recurring_line(def: &RecurringJob, next_run_at: &str) -> (r: String)
    ensures
        r@ == recurring_columns(
            def.name@,
            def.queue@,
            def.job_type@,
            def.cron_expr@,
            next_run_at@,
        ),
{
    recurring_row(
        def.name.as_str(),
        def.queue.as_str(),
        def.job_type.as_str(),
        def.cron_expr.as_str(),
        next_run_at,
    )
}

/// A job was enqueued.
pub fn enqueued_line(id: i64, queue: &str) -> (r: String)
    ensures
        r@ == "enqueued job "@ + text::integer(id as int) + " on queue '"@ + queue@ + "'"@,
{
    let mut r = "enqueued job ".to_owned();
    push_integer(&mut r, id);
    r.append(" on queue '");
    r.append(queue);
    r.append("'");
    r
}

/// A retry was asked for; `requeued` tells whether there was a dead job.
pub fn retry_line(job_id: i64, requeued: bool) -> (r: String)
    ensures
        r@ == "job "@ + text::integer(job_id as int) + (if requeued {
            " requeued"@
        } else {
            " not found or not dead"@
        }),
{
    let mut r = "job ".to_owned();
    push_integer(&mut r, job_id);
    if requeued {
        r.append(" requeued");
    } else {
        r.append(" not found or not dead");
    }
    r
}

/// A definition was registered.
pub fn registered_line(name: &str, id: i64, cron: &str) -> (r: String)
    ensures
        r@ == "recurring job '"@ + name@ + "' registered (id="@ + text::integer(id as int)
            + ", cron='"@ + cron@ + "')"@,
{
    let mut r = "recurring job '".to_owned();
    r.append(name);
    r.append("' registered (id=");
    push_integer(&mut r, id);
    r.append(", cron='");
    r.append(cron);
    r.append("')");
    r
}

/// A column holds the text whole, at its edge, filled up with spaces to the width; a text
/// that is longer than the column is left as it is.
pub proof fn law_columns_are_filled_up(s: Seq<char>, width: int)
    ensures
        left(s, width).len() == (if s.len() < width {
            width
        } else {
            s.len() as int
        }),
        right(s, width).len() == left(s, width).len(),
        left(s, width).take(s.len() as int) == s,
        right(s, width).skip(right(s, width).len() - s.len()) == s,
        forall|i: int| s.len() <= i < left(s, width).len() ==> #[trigger] left(s, width)[i] == ' ',
        forall|i: int|
            0 <= i < right(s, width).len() - s.len() ==> #[trigger] right(s, width)[i] == ' ',
{
    assert(left(s, width).take(s.len() as int) =~= s);
    assert(right(s, width).skip(right(s, width).len() - s.len()) =~= s);
}

/// The columns of a line, with one space between each two.
pub open spec fn joined(columns: Seq<Seq<char>>) -> Seq<char>
    decreases columns.len(),
{
    if columns.len() == 0 {
        seq![]
    } else if columns.len() == 1 {
        columns[0]
    } else {
        joined(columns.drop_last()) + seq![' '] + columns.last()
    }
}

/// A line of the statistics is the name of the queue in fifteen columns, and its five counts
/// in eight columns each, at the right.
pub proof fn law_stats_line_shows_the_counts(s: StatsRow)
    ensures
        stats_text(s) == joined(
            seq![
                left(s.queue, 15),
                right(text::integer(s.queued), 8),
                right(text::integer(s.running), 8),
                right(text::integer(s.done), 8),
                right(text::integer(s.failed), 8),
                right(text::integer(s.dead), 8),
            ],
        ),
{
    reveal_strlit(" ");
    assert(" "@ =~= seq![' ']);
    reveal_with_fuel(joined, 7);
    let a = seq![left(s.queue, 15)];
    let b = a.push(right(text::integer(s.queued), 8));
    let c = b.push(right(text::integer(s.running), 8));
    let d = c.push(right(text::integer(s.done), 8));
    let e = d.push(right(text::integer(s.failed), 8));
    let f = e.push(right(text::integer(s.dead), 8));
    assert(f.drop_last() == e && e.drop_last() == d && d.drop_last() == c);
    assert(c.drop_last() == b && b.drop_last() == a);
    assert(f == seq![
        left(s.queue, 15),
        right(text::integer(s.queued), 8),
        right(text::integer(s.running), 8),
        right(text::integer(s.done), 8),
        right(text::integer(s.failed), 8),
        right(text::integer(s.dead), 8),
    ]);
    assert(stats_text(s) =~= joined(f));
}

/// A line of the list of definitions is the name in twenty columns, the queue in twelve, the
/// type in fifteen, the expression in eighteen, and the next run.
pub proof fn law_definition_line_shows_the_definition(
    name: Seq<char>,
    queue: Seq<char>,
    job_type: Seq<char>,
    cron: Seq<char>,
    next_run_at: Seq<char>,
)
    ensures
        recurring_columns(name, queue, job_type, cron, next_run_at) == joined(
            seq![
                left(name, 20),
                left(queue, 12),
                left(job_type, 15),
                left(cron, 18),
                next_run_at,
            ],
        ),
{
    reveal_strlit(" ");
    assert(" "@ =~= seq![' ']);
    reveal_with_fuel(joined, 6);
    let a = seq![left(name, 20)];
    let b = a.push(left(queue, 12));
    let c = b.push(left(job_type, 15));
    let d = c.push(left(cron, 18));
    let e = d.push(next_run_at);
    assert(e.drop_last() == d && d.drop_last() == c && c.drop_last() == b && b.drop_last() == a);
    assert(e == seq![
        left(name, 20),
        left(queue, 12),
        left(job_type, 15),
        left(cron, 18),
        next_run_at,
    ]);
    assert(recurring_columns(name, queue, job_type, cron, next_run_at) =~= joined(e));
}

} // verus!
