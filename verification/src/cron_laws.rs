//! What holds of every cron expression.
use vstd::prelude::*;

use crate::calendar;
use crate::cron;
use crate::cron::Schedule;
use crate::cron_error::CronErrorKind;
use crate::cron_field;
use crate::cron_field::FieldProblem;
use crate::text;
use crate::text_laws;
use crate::timestamp;

verus! {

/// A schedule has at most one next time.
pub proof fn law_next_is_unique(s: Schedule, from: int, a: int, b: int)
    requires
        s.is_next(from, a),
        s.is_next(from, b),
    ensures
        a == b,
{
}

/// A schedule that fires at all after `from` has a first time at which it does.
pub proof fn lemma_first_run(s: Schedule, from: int, t: int) -> (first: int)
    requires
        from < t,
        s.fires_at(t),
    ensures
        s.is_next(from, first),
        first <= t,
    decreases t - from,
{
    if s.silent(from, t - 1) {
        t
    } else {
        let u = choose|u: int| from < u <= t - 1 && s.fires_at(u);
        lemma_first_run(s, from, u)
    }
}

/// Asked later, a schedule does not answer with an earlier time.
pub proof fn law_next_is_monotone(s: Schedule, from_a: int, from_b: int, a: int, b: int)
    requires
        from_a <= from_b,
        s.is_next(from_a, a),
        s.is_next(from_b, b),
    ensures
        a <= b,
{
}

/// Asking again from the time just given visits every time at which the schedule fires,
/// once and in order.
pub proof fn law_no_run_is_skipped(s: Schedule, from: int, first: int, second: int)
    requires
        s.is_next(from, first),
        s.is_next(first, second),
    ensures
        forall|t: int|
            from < t <= second ==> (#[trigger] s.fires_at(t) <==> t == first || t == second),
{
}

/// The expression that a schedule was read from reads as that schedule again.
pub proof fn law_source_reads_back(expr: Seq<char>, s: Schedule)
    requires
        cron::meaning(expr) == Ok::<Schedule, (CronErrorKind, Seq<char>)>(s),
    ensures
        s.source == expr,
        cron::meaning(s.source) == Ok::<Schedule, (CronErrorKind, Seq<char>)>(s),
{
}

/// White space only separates the fields: how much of it there is, and where, is all one.
pub proof fn law_spacing_is_free(a: Seq<char>, b: Seq<char>, s: Schedule)
    requires
        text::words(a) == text::words(b),
        cron::meaning(a) == Ok::<Schedule, (CronErrorKind, Seq<char>)>(s),
    ensures
        cron::meaning(b) == Ok::<Schedule, (CronErrorKind, Seq<char>)>(Schedule { source: b, ..s }),
{
}

/// When both day fields are restricted, a day fires if either names it; a day field
/// written as `*` leaves the choice to the other.
pub proof fn law_day_fields_are_ored(expr: Seq<char>, s: Schedule, day: int)
    requires
        cron::meaning(expr) == Ok::<Schedule, (CronErrorKind, Seq<char>)>(s),
    ensures
        s.fires_on(day) <==> ({
            let any_dom = text::words(expr)[2] == seq!['*'];
            let any_dow = text::words(expr)[4] == seq!['*'];
            let dom = s.day_of_month.contains(calendar::date_of(day).day as u32);
            let dow = s.day_of_week.contains(calendar::weekday_of(day) as u32);
            &&& s.month.contains(calendar::date_of(day).month as u32)
            &&& (any_dom || any_dow ==> (any_dom || dom) && (any_dow || dow))
            &&& (!any_dom && !any_dow ==> dom || dow)
        }),
{
}

/// No segment names a value out of range.
proof fn lemma_segments_range(parts: Seq<Seq<char>>, field: Seq<char>, min: u32, max: u32)
    ensures
        cron_field::segments(parts, field, min, max) matches Ok(values) ==> forall|v: u32|
            values.contains(v) ==> min <= v <= max,
    decreases parts.len(),
{
    if parts.len() > 0 {
        lemma_segments_range(parts.drop_last(), field, min, max);
    }
}

/// A field that reads well allows at least one value, and none out of its range.
pub proof fn law_field_values_are_in_range(field: Seq<char>, min: u32, max: u32)
    ensures
        cron_field::field_values(field, min, max) matches Ok(values) ==> {
            &&& exists|v: u32| values.contains(v)
            &&& forall|v: u32| values.contains(v) ==> min <= v <= max
        },
{
    lemma_segments_range(text::split(field, ','), field, min, max);
    if let Ok(values) = cron_field::field_values(field, min, max) {
        assert(!values.is_empty());
        if forall|v: u32| !values.contains(v) {
            assert(values == Set::<u32>::empty());
        }
    }
}

/// Splitting two texts joined by the separator gives the pieces of both.
proof fn lemma_split_join(a: Seq<char>, b: Seq<char>, sep: char)
    ensures
        text::split(a.push(sep) + b, sep) == text::split(a, sep) + text::split(b, sep),
{
    text_laws::law_separator_separates_pieces(a, b, sep);
}

proof fn lemma_segments_join(
    p: Seq<Seq<char>>,
    q: Seq<Seq<char>>,
    f: Seq<char>,
    g: Seq<char>,
    h: Seq<char>,
    min: u32,
    max: u32,
)
    requires
        cron_field::segments(p, f, min, max) is Ok,
        cron_field::segments(q, g, min, max) is Ok,
    ensures
        cron_field::segments(p + q, h, min, max) == Ok::<Set<u32>, (FieldProblem, Seq<char>)>(
            cron_field::segments(p, f, min, max)->Ok_0.union(
                cron_field::segments(q, g, min, max)->Ok_0,
            ),
        ),
    decreases p.len() + q.len(),
{
    let all = p + q;
    if q.len() > 0 {
        lemma_segments_join(p, q.drop_last(), f, g, h, min, max);
        assert(all.drop_last() == p + q.drop_last());
        let a = cron_field::segments(p, f, min, max)->Ok_0;
        let b = cron_field::segments(q.drop_last(), g, min, max)->Ok_0;
        let c = cron_field::segment(text::trim(q.last()), min, max)->Ok_0.values();
        assert(a.union(b).union(c) == a.union(b.union(c)));
    } else if p.len() > 0 {
        lemma_segments_join(p.drop_last(), q, f, g, h, min, max);
        assert(all.drop_last() == p.drop_last() + q);
        let a = cron_field::segments(p.drop_last(), f, min, max)->Ok_0;
        let c = cron_field::segment(text::trim(p.last()), min, max)->Ok_0.values();
        assert(a.union(Set::empty()) == a);
        assert(a.union(c).union(Set::empty()) == a.union(c));
    } else {
        assert(Set::<u32>::empty().union(Set::empty()) == Set::<u32>::empty());
    }
}

/// A segment that reads well names at least one value, if there is any to name.
pub proof fn lemma_segments_nonempty(parts: Seq<Seq<char>>, field: Seq<char>, min: u32, max: u32)
    requires
        min <= max,
        parts.len() > 0,
        cron_field::segments(parts, field, min, max) is Ok,
    ensures
        !cron_field::segments(parts, field, min, max)->Ok_0.is_empty(),
{
    let span = cron_field::segment(text::trim(parts.last()), min, max)->Ok_0;
    vstd::arithmetic::div_mod::lemma_small_mod(0, span.step as nat);
    assert(span.values().contains(span.start));
    assert(cron_field::segments(parts, field, min, max)->Ok_0.contains(span.start));
}

/// Segments that read well together read well by themselves.
proof fn lemma_segments_part(
    p: Seq<Seq<char>>,
    q: Seq<Seq<char>>,
    f: Seq<char>,
    g: Seq<char>,
    h: Seq<char>,
    min: u32,
    max: u32,
)
    requires
        cron_field::segments(p + q, h, min, max) is Ok,
    ensures
        cron_field::segments(p, f, min, max) is Ok,
        cron_field::segments(q, g, min, max) is Ok,
    decreases p.len() + q.len(),
{
    let all = p + q;
    if q.len() > 0 {
        assert(all.drop_last() == p + q.drop_last());
        lemma_segments_part(p, q.drop_last(), f, g, h, min, max);
    } else if p.len() > 0 {
        assert(all.drop_last() == p.drop_last() + q);
        lemma_segments_part(p.drop_last(), q, f, g, h, min, max);
    }
}

/// A comma joins two fields into one that allows what either allows, and reads well exactly
/// if both do.
pub proof fn law_list_is_union(a: Seq<char>, b: Seq<char>, min: u32, max: u32)
    ensures
        ({
            let first = cron_field::field_values(a, min, max);
            let second = cron_field::field_values(b, min, max);
            let joined = cron_field::field_values(a.push(',') + b, min, max);
            &&& joined is Ok <==> first is Ok && second is Ok
            &&& joined is Ok ==> joined->Ok_0 == first->Ok_0.union(second->Ok_0)
        }),
{
    let h = a.push(',') + b;
    let p = text::split(a, ',');
    let q = text::split(b, ',');
    lemma_split_join(a, b, ',');
    if cron_field::field_values(h, min, max) is Ok {
        lemma_segments_part(p, q, a, b, h, min, max);
        law_field_values_are_in_range(h, min, max);
        lemma_segments_nonempty(p, a, min, max);
        lemma_segments_nonempty(q, b, min, max);
    }
    if cron_field::segments(p, a, min, max) is Ok && cron_field::segments(q, b, min, max) is Ok {
        lemma_segments_join(p, q, a, b, h, min, max);
        let x = cron_field::segments(p, a, min, max)->Ok_0;
        let y = cron_field::segments(q, b, min, max)->Ok_0;
        if !x.is_empty() {
            let v = choose|v: u32| x.contains(v);
            if forall|v: u32| !x.contains(v) {
                assert(x == Set::<u32>::empty());
            }
            assert(x.union(y).contains(v));
        }
    }
}

/// A schedule that leaves the weekday open and names only days that none of its months
/// has never fires, whatever the year.
pub proof fn law_impossible_date_never_fires(s: Schedule, from: int, to: int)
    requires
        s.dow_is_wildcard,
        !s.dom_is_wildcard,
        forall|month: u32, day: u32|
            #![trigger s.month.contains(month), s.day_of_month.contains(day)]
            s.month.contains(month) && s.day_of_month.contains(day) ==> day
                > calendar::days_in_month(0, month as int),
    ensures
        s.silent(from, to),
{
    assert forall|t: int| from < t <= to implies !#[trigger] s.fires_at(t) by {
        calendar::law_every_day_has_a_date(timestamp::day_of(t));
        let date = calendar::date_of(timestamp::day_of(t));
        assert(calendar::days_in_month(date.year, date.month) <= calendar::days_in_month(
            0,
            date.month,
        ));
    }
}

} // verus!
