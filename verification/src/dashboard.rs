//! The dashboard: the page that shows the queues and the newest jobs, and the answer to a
//! retry.
use vstd::prelude::*;

use crate::job::{Job, JobRow, JobStatus, QueueStats, StatsRow};
use crate::queue;
use crate::text;
use crate::text::{push_integer, same_text};

verus! {

/// How many jobs the page shows.
pub const PAGE_JOBS: i64 = 100;

/// How many jobs the JSON listing holds.
pub const LISTED_JOBS: i64 = 200;

/// The page up to the rows of the queues.
pub const HEAD: &'static str = "<!doctype html>\n\
<html><head><title>pgqueue</title>\n\
<style>\n\
body { font-family: monospace; margin: 2rem; }\n\
table { border-collapse: collapse; width: 100%; margin-bottom: 2rem; }\n\
td, th { border: 1px solid #ccc; padding: 4px 8px; text-align: left; }\n\
</style>\n\
</head><body>\n\
<h1>pgqueue</h1>\n\
<h2>Queues</h2>\n\
<table><tr><th>queue</th><th>queued</th><th>running</th><th>done</th><th>failed</th>\
<th>dead</th></tr>";

/// The page between the rows of the queues and those of the jobs.
pub const MIDDLE: &'static str = "</table>\n\
<h2>Recent jobs (last 100)</h2>\n\
<table><tr><th>id</th><th>queue</th><th>type</th><th>status</th><th>attempts</th>\
<th>last_error</th><th></th></tr>";

/// The page after the rows of the jobs.
pub const FOOT: &'static str = "</table>\n\
</body></html>";

/// The row of one queue.
pub open spec fn stats_html(s: StatsRow) -> Seq<char> {
    "<tr><td>"@ + s.queue + "</td><td>"@ + text::integer(s.queued) + "</td><td>"@ + text::integer(
        s.running,
    ) + "</td><td>"@ + text::integer(s.done) + "</td><td>"@ + text::integer(s.failed)
        + "</td><td>"@ + text::integer(s.dead) + "</td></tr>"@
}

/// The rows of the queues.
pub open spec fn all_stats_html(rows: Seq<StatsRow>) -> Seq<char>
    decreases rows.len(),
{
    if rows.len() == 0 {
        seq![]
    } else {
        all_stats_html(rows.drop_last()) + stats_html(rows.last())
    }
}

/// The button that requeues a dead job; other jobs have none.
pub open spec fn retry_html(job: JobRow) -> Seq<char> {
    if job.has(JobStatus::Dead) {
        "<form method=\"post\" action=\"/jobs/"@ + text::integer(job.id as int)
            + "/retry\"><button type=\"submit\">retry</button></form>"@
    } else {
        seq![]
    }
}

/// The last error of a job; nothing if it has none.
pub open spec fn error_html(job: JobRow) -> Seq<char> {
    match job.last_error {
        Some(error) => error,
        None => seq![],
    }
}

/// The row of one job.
pub open spec fn job_html(job: JobRow) -> Seq<char> {
    "<tr><td>"@ + text::integer(job.id as int) + "</td><td>"@ + job.queue + "</td><td>"@
        + job.job_type + "</td><td>"@ + job.status + "</td><td>"@ + text::integer(
        job.attempts as int,
    ) + "/"@ + text::integer(job.max_attempts as int) + "</td><td>"@ + error_html(job)
        + "</td><td>"@ + retry_html(job) + "</td></tr>"@
}

/// The rows of the jobs.
pub open spec fn all_jobs_html(rows: Seq<JobRow>) -> Seq<char>
    decreases rows.len(),
{
    if rows.len() == 0 {
        seq![]
    } else {
        all_jobs_html(rows.drop_last()) + job_html(rows.last())
    }
}

/// The whole page.
pub open spec fn page_html(stats: Seq<StatsRow>, jobs: Seq<JobRow>) -> Seq<char> {
    HEAD@ + all_stats_html(stats) + MIDDLE@ + all_jobs_html(jobs) + FOOT@
}

fn push_stats(out: &mut String, s: &QueueStats)
    ensures
        final(out)@ == old(out)@ + stats_html(s@),
{
    let ghost before = out@;
    out.append("<tr><td>");
    out.append(s.queue.as_str());
    out.append("</td><td>");
    push_integer(out, s.queued);
    out.append("</td><td>");
    push_integer(out, s.running);
    out.append("</td><td>");
    push_integer(out, s.done);
    out.append("</td><td>");
    push_integer(out, s.failed);
    out.append("</td><td>");
    push_integer(out, s.dead);
    out.append("</td></tr>");
    assert(out@ =~= before + stats_html(s@));
}

fn push_retry(out: &mut String, job: &Job)
    ensures
        final(out)@ == old(out)@ + retry_html(job@),
{
    let ghost before = out@;
    if same_text(job.status.as_str(), JobStatus::Dead.as_db_str()) {
        out.append("<form method=\"post\" action=\"/jobs/");
        push_integer(out, job.id);
        out.append("/retry\"><button type=\"submit\">retry</button></form>");
    }
    assert(out@ =~= before + retry_html(job@));
}

fn push_job(out: &mut String, job: &Job)
    ensures
        final(out)@ == old(out)@ + job_html(job@),
{
    let ghost before = out@;
    out.append("<tr><td>");
    push_integer(out, job.id);
    out.append("</td><td>");
    out.append(job.queue.as_str());
    out.append("</td><td>");
    out.append(job.job_type.as_str());
    out.append("</td><td>");
    out.append(job.status.as_str());
    out.append("</td><td>");
    push_integer(out, job.attempts as i64);
    out.append("/");
    push_integer(out, job.max_attempts as i64);
    out.append("</td><td>");
    let ghost before_error = out@;
    match &job.last_error {
        Some(error) => {
            out.append(error.as_str());
        },
        None => {},
    }
    assert(out@ =~= before_error + error_html(job@));
    out.append("</td><td>");
    push_retry(out, job);
    out.append("</td></tr>");
    assert(out@ =~= before + job_html(job@));
}

/// Renders the page.
pub fn index_page(stats: &Vec<QueueStats>, jobs: &Vec<Job>) -> (r: String)
    ensures
        r@ == page_html(queue::stats_rows(stats@), queue::job_rows(jobs@)),
{
    let ghost stats_rows = queue::stats_rows(stats@);
    let ghost job_rows = queue::job_rows(jobs@);
    let mut r = HEAD.to_owned();
    let mut i: usize = 0;
    assert(HEAD@ + all_stats_html(stats_rows.take(0)) =~= HEAD@);
    while i < stats.len()
        invariant
            i <= stats@.len(),
            stats_rows == queue::stats_rows(stats@),
            r@ == HEAD@ + all_stats_html(stats_rows.take(i as int)),
        decreases stats@.len() - i,
    {
        proof {
            assert(stats_rows.take(i + 1).drop_last() == stats_rows.take(i as int));
            assert(stats_rows.take(i + 1).last() == stats@[i as int]@);
        }
        push_stats(&mut r, &stats[i]);
        i = i + 1;
        assert(r@ =~= HEAD@ + all_stats_html(stats_rows.take(i as int)));
    }
    assert(stats_rows.take(i as int) == stats_rows);
    r.append(MIDDLE);
    let ghost above = r@;
    i = 0;
    assert(above + all_jobs_html(job_rows.take(0)) =~= above);
    while i < jobs.len()
        invariant
            i <= jobs@.len(),
            job_rows == queue::job_rows(jobs@),
            r@ == above + all_jobs_html(job_rows.take(i as int)),
        decreases jobs@.len() - i,
    {
        proof {
            assert(job_rows.take(i + 1).drop_last() == job_rows.take(i as int));
            assert(job_rows.take(i + 1).last() == jobs@[i as int]@);
        }
        push_job(&mut r, &jobs[i]);
        i = i + 1;
        assert(r@ =~= above + all_jobs_html(job_rows.take(i as int)));
    }
    assert(job_rows.take(i as int) == job_rows);
    r.append(FOOT);
    r
}

/// The answer to a retry: back to the page if a dead job was requeued, or a message.
#[derive(Debug, Clone, Copy, PartialEq, Eq, Structural)]
pub enum RetryReply {
    /// Status 303, to the page.
    BackToPage,
    /// Status 404.
    NotFound,
}

impl RetryReply {
    pub open spec fn of(requeued: bool) -> RetryReply {
        if requeued {
            RetryReply::BackToPage
        } else {
            RetryReply::NotFound
        }
    }

    /// The status code.
    pub fn status(&self) -> (r: u16)
        ensures
            r == (match self {
                RetryReply::BackToPage => 303u16,
                RetryReply::NotFound => 404u16,
            }),
    {
        match self {
            RetryReply::BackToPage => 303,
            RetryReply::NotFound => 404,
        }
    }

    /// Where the browser goes next.
    pub fn location(&self) -> (r: Option<&'static str>)
        ensures
            match r {
                Some(path) => *self is BackToPage && path@ == "/"@,
                None => *self is NotFound,
            },
    {
        match self {
            RetryReply::BackToPage => Some("/"),
            RetryReply::NotFound => None,
        }
    }

    /// The body of the answer.
    pub fn body(&self) -> (r: &'static str)
        ensures
            r@ == (match self {
                RetryReply::BackToPage => ""@,
                RetryReply::NotFound => "job not found or not dead"@,
            }),
    {
        match self {
            RetryReply::BackToPage => "",
            RetryReply::NotFound => "job not found or not dead",
        }
    }
}

/// What a retry is answered, by whether a dead job was requeued.
pub fn retry_reply(requeued: bool) -> (r: RetryReply)
    ensures
        r == RetryReply::of(requeued),
{
    if requeued {
        RetryReply::BackToPage
    } else {
        RetryReply::NotFound
    }
}

/// A row of a table: the cells, each in its own pair of tags.
pub open spec fn table_row(cells: Seq<Seq<char>>) -> Seq<char> {
    "<tr>"@ + table_cells(cells) + "</tr>"@
}

/// The cells of a row.
pub open spec fn table_cells(cells: Seq<Seq<char>>) -> Seq<char>
    decreases cells.len(),
{
    if cells.len() == 0 {
        seq![]
    } else {
        table_cells(cells.drop_last()) + "<td>"@ + cells.last() + "</td>"@
    }
}

/// The tags between two cells, and around a row.
proof fn lemma_tags()
    ensures
        "<tr><td>"@ == "<tr>"@ + "<td>"@,
        "</td><td>"@ == "</td>"@ + "<td>"@,
        "</td></tr>"@ == "</td>"@ + "</tr>"@,
{
    reveal_strlit("<tr><td>");
    reveal_strlit("<tr>");
    reveal_strlit("<td>");
    reveal_strlit("</td><td>");
    reveal_strlit("</td>");
    reveal_strlit("</td></tr>");
    reveal_strlit("</tr>");
    assert("<tr><td>"@ =~= "<tr>"@ + "<td>"@);
    assert("</td><td>"@ =~= "</td>"@ + "<td>"@);
    assert("</td></tr>"@ =~= "</td>"@ + "</tr>"@);
}

/// One more cell: a row written so far, and closed, goes on with the tags between two cells.
proof fn lemma_next_cell(written: Seq<char>, cells: Seq<Seq<char>>, cell: Seq<char>)
    requires
        "<tr>"@ + table_cells(cells) == written + "</td>"@,
    ensures
        "<tr>"@ + table_cells(cells.push(cell)) == written + "</td><td>"@ + cell + "</td>"@,
{
    lemma_tags();
    let (tr, td, end) = ("<tr>"@, "<td>"@, "</td>"@);
    let t = table_cells(cells);
    assert(cells.push(cell).drop_last() == cells);
    assert(table_cells(cells.push(cell)) == t + td + cell + end);
    assert(tr + (t + td + cell + end) =~= (tr + t) + td + cell + end);
    assert((written + end) + td + cell + end =~= written + (end + td) + cell + end);
}

/// The first cell of a row.
proof fn lemma_first_cell(cell: Seq<char>)
    ensures
        "<tr>"@ + table_cells(seq![cell]) == "<tr><td>"@ + cell + "</td>"@,
{
    lemma_tags();
    let (tr, td, end) = ("<tr>"@, "<td>"@, "</td>"@);
    let none = Seq::<Seq<char>>::empty();
    assert(seq![cell].drop_last() == none);
    assert(table_cells(none) == Seq::<char>::empty());
    assert(table_cells(seq![cell]) == Seq::<char>::empty() + td + cell + end);
    assert(tr + (Seq::<char>::empty() + td + cell + end) =~= (tr + td) + cell + end);
}

/// The end of a row.
proof fn lemma_row_end(written: Seq<char>, cells: Seq<Seq<char>>)
    requires
        "<tr>"@ + table_cells(cells) == written + "</td>"@,
    ensures
        table_row(cells) == written + "</td></tr>"@,
{
    lemma_tags();
    assert((written + "</td>"@) + "</tr>"@ =~= written + ("</td>"@ + "</tr>"@));
}

/// The row of a queue has its name and its five counts as cells.
pub proof fn law_queue_row_shows_its_counts(s: StatsRow)
    ensures
        stats_html(s) == table_row(
            seq![
                s.queue,
                text::integer(s.queued),
                text::integer(s.running),
                text::integer(s.done),
                text::integer(s.failed),
                text::integer(s.dead),
            ],
        ),
{
    let next = "</td><td>"@;
    let a = seq![s.queue];
    let b = a.push(text::integer(s.queued));
    let c = b.push(text::integer(s.running));
    let d = c.push(text::integer(s.done));
    let e = d.push(text::integer(s.failed));
    let f = e.push(text::integer(s.dead));
    let t = "<tr><td>"@ + s.queue;
    let u = t + next + text::integer(s.queued);
    let v = u + next + text::integer(s.running);
    let w = v + next + text::integer(s.done);
    let x = w + next + text::integer(s.failed);
    let y = x + next + text::integer(s.dead);
    lemma_first_cell(s.queue);
    lemma_next_cell(t, a, text::integer(s.queued));
    lemma_next_cell(u, b, text::integer(s.running));
    lemma_next_cell(v, c, text::integer(s.done));
    lemma_next_cell(w, d, text::integer(s.failed));
    lemma_next_cell(x, e, text::integer(s.dead));
    lemma_row_end(y, f);
    assert(f == seq![
        s.queue,
        text::integer(s.queued),
        text::integer(s.running),
        text::integer(s.done),
        text::integer(s.failed),
        text::integer(s.dead),
    ]);
}

/// The row of a job has as cells its id, its queue, its type, its status, the attempts made
/// of those allowed, its last error, and a button that requeues it if it is dead.
pub proof fn law_job_row_shows_the_job(job: JobRow)
    ensures
        job_html(job) == table_row(
            seq![
                text::integer(job.id as int),
                job.queue,
                job.job_type,
                job.status,
                text::integer(job.attempts as int) + "/"@ + text::integer(job.max_attempts as int),
                error_html(job),
                retry_html(job),
            ],
        ),
        job.last_error matches Some(error) ==> error_html(job) == error,
        job.last_error is None ==> error_html(job).len() == 0,
        job.status == "dead"@ ==> retry_html(job)
            == "<form method=\"post\" action=\"/jobs/"@ + text::integer(job.id as int)
            + "/retry\"><button type=\"submit\">retry</button></form>"@,
        job.status != "dead"@ ==> retry_html(job).len() == 0,
{
    let next = "</td><td>"@;
    let made = text::integer(job.attempts as int);
    let allowed = text::integer(job.max_attempts as int);
    let tries = made + "/"@ + allowed;
    let a = seq![text::integer(job.id as int)];
    let b = a.push(job.queue);
    let c = b.push(job.job_type);
    let d = c.push(job.status);
    let e = d.push(tries);
    let f = e.push(error_html(job));
    let g = f.push(retry_html(job));
    let t = "<tr><td>"@ + text::integer(job.id as int);
    let u = t + next + job.queue;
    let v = u + next + job.job_type;
    let w = v + next + job.status;
    let x = w + next + tries;
    let y = x + next + error_html(job);
    let z = y + next + retry_html(job);
    lemma_first_cell(text::integer(job.id as int));
    lemma_next_cell(t, a, job.queue);
    lemma_next_cell(u, b, job.job_type);
    lemma_next_cell(v, c, job.status);
    lemma_next_cell(w, d, tries);
    lemma_next_cell(x, e, error_html(job));
    lemma_next_cell(y, f, retry_html(job));
    lemma_row_end(z, g);
    lemma_three_in_one(w + next, made, "/"@, allowed);
    assert(g == seq![
        text::integer(job.id as int),
        job.queue,
        job.job_type,
        job.status,
        tries,
        error_html(job),
        retry_html(job),
    ]);
}

proof fn lemma_three_in_one(s: Seq<char>, a: Seq<char>, b: Seq<char>, c: Seq<char>)
    ensures
        s + a + b + c == s + (a + b + c),
{
    assert(s + a + b + c =~= s + (a + b + c));
}

/// The rows of the page follow each other in the order given, with nothing between them and
/// none left out.
pub proof fn law_page_shows_every_row(
    stats: Seq<StatsRow>,
    s: StatsRow,
    jobs: Seq<JobRow>,
    job: JobRow,
)
    ensures
        all_stats_html(Seq::empty()).len() == 0,
        all_stats_html(stats.push(s)) == all_stats_html(stats) + stats_html(s),
        all_jobs_html(Seq::empty()).len() == 0,
        all_jobs_html(jobs.push(job)) == all_jobs_html(jobs) + job_html(job),
        page_html(stats, jobs) == HEAD@ + all_stats_html(stats) + MIDDLE@ + all_jobs_html(jobs)
            + FOOT@,
{
    assert(stats.push(s).drop_last() == stats);
    assert(jobs.push(job).drop_last() == jobs);
}

/// A retry is answered with a way back to the page exactly if a job was requeued.
pub proof fn law_retry_is_answered_by_what_happened(requeued: bool)
    ensures
        RetryReply::of(requeued) == (if requeued {
            RetryReply::BackToPage
        } else {
            RetryReply::NotFound
        }),
{
}

} // verus!
