//! What cron expressions mean, stated on their text.
use vstd::prelude::*;

use crate::calendar;
use crate::calendar::Date;
use crate::cron;
use crate::cron::{Schedule, HORIZON_SECS};
use crate::cron_error::{CronErrorKind, CronField};
use crate::cron_field;
use crate::cron_field::FieldProblem;
use crate::cron_laws;
use crate::scheduler;
use crate::steps;
use crate::text;
use crate::text::NumberProblem;
use crate::text_laws;
use crate::timestamp;
use crate::timestamp::{Timestamp, MAX_SECS};

verus! {

/// A field of one segment reads as that segment.
proof fn lemma_one_segment(field: Seq<char>, min: u32, max: u32)
    requires
        field.len() > 0,
        !text::is_space(field[0]),
        !text::is_space(field.last()),
        forall|i: int| 0 <= i < field.len() ==> #[trigger] field[i] != ',',
    ensures
        match cron_field::segment(field, min, max) {
            Err(problem) => cron_field::field_values(field, min, max) == Err::<Set<u32>, _>(
                (problem, field),
            ),
            Ok(span) => (exists|v: u32| span.values().contains(v)) ==> cron_field::field_values(
                field,
                min,
                max,
            ) == Ok::<_, (FieldProblem, Seq<char>)>(span.values()),
        },
{
    text_laws::law_piece_alone(field, ',');
    text_laws::law_trimmed_text_stays(field);
    let parts = seq![field];
    assert(parts.drop_last() == Seq::<Seq<char>>::empty());
    assert(cron_field::segments(Seq::<Seq<char>>::empty(), field, min, max) == Ok::<
        Set<u32>,
        (FieldProblem, Seq<char>),
    >(Set::empty()));
    assert(parts.last() == field);
    if let Ok(span) = cron_field::segment(field, min, max) {
        assert(Set::<u32>::empty().union(span.values()) == span.values());
    }
}

/// A text that is read as a number holds no separator and no white space.
proof fn lemma_number_plain(s: Seq<char>)
    requires
        text::number(s) is Ok,
    ensures
        s.len() > 0,
        s != seq!['*'],
        forall|i: int|
            0 <= i < s.len() ==> {
                &&& #[trigger] s[i] != ','
                &&& s[i] != '/'
                &&& s[i] != '-'
                &&& !text::is_space(s[i])
            },
{
    text_laws::law_only_digits_are_numbers(s);
    assert(seq!['*'][0] == '*');
    assert forall|i: int| 0 <= i < s.len() implies {
        &&& #[trigger] s[i] != ','
        &&& s[i] != '/'
        &&& s[i] != '-'
        &&& !text::is_space(s[i])
    } by {
        assert(s[i] == '+' || '0' <= s[i] <= '9');
    }
}

/// What the bounds `x-y` are read as.
proof fn lemma_range_bounds(x: Seq<char>, y: Seq<char>, min: u32, max: u32)
    requires
        text::number(x) is Ok,
        text::number(y) is Ok,
    ensures
        ({
            let whole = x.push('-') + y;
            let a = text::number(x)->Ok_0;
            let b = text::number(y)->Ok_0;
            &&& cron_field::bounds(whole, min, max) == (if a > b {
                Err::<(u32, u32), _>(FieldProblem::ReversedRange)
            } else {
                Ok((a, b))
            })
            &&& whole.len() > 0
            &&& !text::is_space(whole[0])
            &&& !text::is_space(whole.last())
            &&& forall|i: int|
                0 <= i < whole.len() ==> {
                    &&& #[trigger] whole[i] != ','
                    &&& whole[i] != '/'
                }
        }),
{
    let whole = x.push('-') + y;
    lemma_number_plain(x);
    lemma_number_plain(y);
    assert forall|i: int| 0 <= i < whole.len() implies {
        &&& #[trigger] whole[i] != ','
        &&& whole[i] != '/'
    } by {
        if i < x.len() {
            assert(whole[i] == x[i]);
        } else if i > x.len() {
            assert(whole[i] == y[i - x.len() - 1]);
        }
    }
    assert(whole[0] == x[0]);
    assert(whole.last() == y.last());
    assert(y.last() == y[y.len() - 1]);
    assert(whole.len() > 1);
    text_laws::law_split_once_at_the_first(x, y, '-');
}

/// What a segment `range/z` is read as.
proof fn lemma_stepped(range: Seq<char>, z: Seq<char>, min: u32, max: u32)
    requires
        text::number(z) is Ok,
        range.len() > 0,
        !text::is_space(range[0]),
        forall|i: int|
            0 <= i < range.len() ==> {
                &&& #[trigger] range[i] != ','
                &&& range[i] != '/'
            },
    ensures
        ({
            let n = text::number(z)->Ok_0;
            let field = range.push('/') + z;
            let read = cron_field::field_values(field, min, max);
            if n == 0 {
                read == Err::<Set<u32>, _>((FieldProblem::ZeroStep, field))
            } else {
                match cron_field::bounds(range, min, max) {
                    Err(p) => read == Err::<Set<u32>, _>((p, field)),
                    Ok((start, end)) => if start < min || end > max {
                        read == Err::<Set<u32>, _>((FieldProblem::OutOfRange { min, max }, field))
                    } else {
                        start <= end ==> {
                            &&& read is Ok
                            &&& forall|v: u32|
                                read->Ok_0.contains(v) <==> start <= v <= end && (v - start)
                                    % n as int == 0
                        }
                    },
                }
            }
        }),
{
    let n = text::number(z)->Ok_0;
    let field = range.push('/') + z;
    lemma_number_plain(z);
    assert forall|i: int| 0 <= i < field.len() implies #[trigger] field[i] != ',' by {
        if i < range.len() {
            assert(field[i] == range[i]);
        } else if i > range.len() {
            assert(field[i] == z[i - range.len() - 1]);
        }
    }
    assert(field[0] == range[0]);
    assert(field.last() == z.last());
    assert(z.last() == z[z.len() - 1]);
    lemma_one_segment(field, min, max);
    text_laws::law_split_once_at_the_first(range, z, '/');
    if n > 0 {
        if let Ok((start, end)) = cron_field::bounds(range, min, max) {
            if !(start < min || end > max) && start <= end {
                let span = cron_field::segment(field, min, max)->Ok_0;
                vstd::arithmetic::div_mod::lemma_small_mod(0, n as nat);
                assert(span.values().contains(start));
            }
        }
    }
}

/// What a segment without a step is read as.
proof fn lemma_unstepped(range: Seq<char>, min: u32, max: u32)
    requires
        range.len() > 0,
        !text::is_space(range[0]),
        !text::is_space(range.last()),
        forall|i: int|
            0 <= i < range.len() ==> {
                &&& #[trigger] range[i] != ','
                &&& range[i] != '/'
            },
    ensures
        ({
            let read = cron_field::field_values(range, min, max);
            match cron_field::bounds(range, min, max) {
                Err(p) => read == Err::<Set<u32>, _>((p, range)),
                Ok((start, end)) => if start < min || end > max {
                    read == Err::<Set<u32>, _>((FieldProblem::OutOfRange { min, max }, range))
                } else {
                    start <= end ==> {
                        &&& read is Ok
                        &&& forall|v: u32| read->Ok_0.contains(v) <==> start <= v <= end
                    }
                },
            }
        }),
{
    lemma_one_segment(range, min, max);
    text_laws::law_piece_alone(range, '/');
    if let Ok((start, end)) = cron_field::bounds(range, min, max) {
        if !(start < min || end > max) && start <= end {
            let span = cron_field::segment(range, min, max)->Ok_0;
            assert(span.values().contains(start));
        }
    }
}

/// A range with a step, `x-y/z`, whose texts are read as the numbers `a`, `b` and `n`,
/// allows every `n`-th value from `a` on up to and including `b`, and nothing else. It is
/// refused where `n` is zero, where `a` is greater than `b`, and where a bound is out of
/// range.
pub proof fn law_stepped_range(
    x: Seq<char>,
    y: Seq<char>,
    z: Seq<char>,
    a: u32,
    b: u32,
    n: u32,
    min: u32,
    max: u32,
)
    requires
        text::number(x) == Ok::<u32, NumberProblem>(a),
        text::number(y) == Ok::<u32, NumberProblem>(b),
        text::number(z) == Ok::<u32, NumberProblem>(n),
    ensures
        ({
            let field = x.push('-') + y.push('/') + z;
            let read = cron_field::field_values(field, min, max);
            if n == 0 {
                read == Err::<Set<u32>, _>((FieldProblem::ZeroStep, field))
            } else if a > b {
                read == Err::<Set<u32>, _>((FieldProblem::ReversedRange, field))
            } else if a < min || b > max {
                read == Err::<Set<u32>, _>((FieldProblem::OutOfRange { min, max }, field))
            } else {
                &&& read is Ok
                &&& forall|v: u32|
                    read->Ok_0.contains(v) <==> a <= v <= b && (v - a) % n as int == 0
            }
        }),
{
    let range = x.push('-') + y;
    lemma_range_bounds(x, y, min, max);
    lemma_stepped(range, z, min, max);
    assert(x.push('-') + y.push('/') + z == range.push('/') + z);
}

/// A range `x-y` allows every value from `a` to `b`, both included, and nothing else.
pub proof fn law_range(x: Seq<char>, y: Seq<char>, a: u32, b: u32, min: u32, max: u32)
    requires
        text::number(x) == Ok::<u32, NumberProblem>(a),
        text::number(y) == Ok::<u32, NumberProblem>(b),
    ensures
        ({
            let field = x.push('-') + y;
            let read = cron_field::field_values(field, min, max);
            if a > b {
                read == Err::<Set<u32>, _>((FieldProblem::ReversedRange, field))
            } else if a < min || b > max {
                read == Err::<Set<u32>, _>((FieldProblem::OutOfRange { min, max }, field))
            } else {
                &&& read is Ok
                &&& forall|v: u32| read->Ok_0.contains(v) <==> a <= v <= b
            }
        }),
{
    lemma_range_bounds(x, y, min, max);
    lemma_unstepped(x.push('-') + y, min, max);
}

/// `*` allows every value of the field, and `*/z` every `n`-th from the lowest on.
pub proof fn law_star(z: Seq<char>, n: u32, min: u32, max: u32)
    requires
        text::number(z) == Ok::<u32, NumberProblem>(n),
        min <= max,
    ensures
        ({
            let all = cron_field::field_values(seq!['*'], min, max);
            let field = seq!['*', '/'] + z;
            let read = cron_field::field_values(field, min, max);
            &&& all is Ok
            &&& forall|v: u32| all->Ok_0.contains(v) <==> min <= v <= max
            &&& if n == 0 {
                read == Err::<Set<u32>, _>((FieldProblem::ZeroStep, field))
            } else {
                &&& read is Ok
                &&& forall|v: u32|
                    read->Ok_0.contains(v) <==> min <= v <= max && (v - min) % n as int == 0
            }
        }),
{
    let star = seq!['*'];
    lemma_unstepped(star, min, max);
    lemma_stepped(star, z, min, max);
    assert(star.push('/') + z == seq!['*', '/'] + z);
}

/// A number `x` allows itself, with a step or without, and nothing else.
pub proof fn law_single_value(x: Seq<char>, z: Seq<char>, a: u32, n: u32, min: u32, max: u32)
    requires
        text::number(x) == Ok::<u32, NumberProblem>(a),
        text::number(z) == Ok::<u32, NumberProblem>(n),
        n > 0,
    ensures
        ({
            let stepped = x.push('/') + z;
            let plain = cron_field::field_values(x, min, max);
            let read = cron_field::field_values(stepped, min, max);
            if a < min || a > max {
                &&& plain == Err::<Set<u32>, _>((FieldProblem::OutOfRange { min, max }, x))
                &&& read == Err::<Set<u32>, _>((FieldProblem::OutOfRange { min, max }, stepped))
            } else {
                &&& plain is Ok && read is Ok
                &&& forall|v: u32| plain->Ok_0.contains(v) <==> v == a
                &&& forall|v: u32| read->Ok_0.contains(v) <==> v == a
            }
        }),
{
    lemma_number_plain(x);
    assert(x.last() == x[x.len() - 1]);
    text_laws::law_piece_alone(x, '-');
    lemma_unstepped(x, min, max);
    lemma_stepped(x, z, min, max);
    vstd::arithmetic::div_mod::lemma_small_mod(0, n as nat);
}

/// The forms that a segment can have before its step: `*`, a number, or two numbers with a
/// dash between them, the first not greater than the second.
pub open spec fn is_range(range: Seq<char>) -> bool {
    ||| range == seq!['*']
    ||| text::number(range) is Ok
    ||| exists|x: Seq<char>, y: Seq<char>|
        {
            &&& range == #[trigger] (x.push('-') + y)
            &&& text::number(x) is Ok
            &&& text::number(y) is Ok
            &&& text::number(x)->Ok_0 <= text::number(y)->Ok_0
        }
}

/// Nothing else is read as a segment: a field of one segment that is not refused is a
/// range, or a range, a slash and a number that is not zero.
pub proof fn law_only_these_forms_are_read(field: Seq<char>, min: u32, max: u32)
    requires
        field.len() > 0,
        !text::is_space(field[0]),
        !text::is_space(field.last()),
        forall|i: int| 0 <= i < field.len() ==> #[trigger] field[i] != ',',
        cron_field::field_values(field, min, max) is Ok,
    ensures
        is_range(field) || exists|range: Seq<char>, z: Seq<char>|
            {
                &&& field == #[trigger] (range.push('/') + z)
                &&& is_range(range)
                &&& text::number(z) is Ok
                &&& text::number(z)->Ok_0 > 0
            },
{
    lemma_one_segment(field, min, max);
    text_laws::law_split_once_undoes_join(field, '/');
    match text::split_once(field, '/') {
        Some((range, z)) => {
            lemma_bounds_form(range, min, max);
            assert(field == range.push('/') + z);
        },
        None => {
            lemma_bounds_form(field, min, max);
        },
    }
}

proof fn lemma_bounds_form(range: Seq<char>, min: u32, max: u32)
    requires
        cron_field::bounds(range, min, max) is Ok,
    ensures
        is_range(range),
{
    text_laws::law_split_once_undoes_join(range, '-');
    if let Some((x, y)) = text::split_once(range, '-') {
        assert(range == x.push('-') + y);
    }
}

/// A field that holds nothing but white space is refused.
pub proof fn law_blank_field_is_refused(field: Seq<char>, min: u32, max: u32)
    requires
        forall|i: int| 0 <= i < field.len() ==> text::is_space(#[trigger] field[i]),
    ensures
        cron_field::field_values(field, min, max) == Err::<Set<u32>, _>(
            (FieldProblem::EmptySegment, field),
        ),
{
    assert forall|i: int| 0 <= i < field.len() implies #[trigger] field[i] != ',' by {
        assert(text::is_space(field[i]));
    }
    text_laws::law_piece_alone(field, ',');
    lemma_blank(field);
    let parts = seq![field];
    assert(parts.drop_last() == Seq::<Seq<char>>::empty());
    assert(cron_field::segments(Seq::<Seq<char>>::empty(), field, min, max) == Ok::<
        Set<u32>,
        (FieldProblem, Seq<char>),
    >(Set::empty()));
    assert(parts.last() == field);
}

proof fn lemma_blank(s: Seq<char>)
    requires
        forall|i: int| 0 <= i < s.len() ==> text::is_space(#[trigger] s[i]),
    ensures
        text::trim(s).len() == 0,
    decreases s.len(),
{
    if s.len() > 0 {
        let rest = s.skip(1);
        assert forall|i: int| 0 <= i < rest.len() implies text::is_space(#[trigger] rest[i]) by {
            assert(text::is_space(s[i + 1]));
        }
        lemma_blank(rest);
        assert(text::is_space(s[0]));
    }
}

/// White space around a segment changes nothing.
pub proof fn law_space_around_a_segment_is_free(field: Seq<char>, c: char, min: u32, max: u32)
    requires
        text::is_space(c),
        forall|i: int| 0 <= i < field.len() ==> #[trigger] field[i] != ',',
    ensures
        ({
            let read = cron_field::field_values(field, min, max);
            let before = cron_field::field_values(seq![c] + field, min, max);
            let after = cron_field::field_values(field.push(c), min, max);
            &&& read is Ok <==> before is Ok
            &&& read is Ok <==> after is Ok
            &&& read is Ok ==> before->Ok_0 == read->Ok_0 && after->Ok_0 == read->Ok_0
        }),
{
    text_laws::law_outer_space_is_trimmed(field, c);
    let before = seq![c] + field;
    let after = field.push(c);
    assert(c != ',');
    assert forall|i: int| 0 <= i < before.len() implies #[trigger] before[i] != ',' by {
        if i > 0 {
            assert(before[i] == field[i - 1]);
        }
    }
    assert forall|i: int| 0 <= i < after.len() implies #[trigger] after[i] != ',' by {
        if i < field.len() {
            assert(after[i] == field[i]);
        }
    }
    lemma_same_when_trimmed(field, before, min, max);
    lemma_same_when_trimmed(field, after, min, max);
}

proof fn lemma_same_when_trimmed(a: Seq<char>, b: Seq<char>, min: u32, max: u32)
    requires
        text::trim(a) == text::trim(b),
        forall|i: int| 0 <= i < a.len() ==> #[trigger] a[i] != ',',
        forall|i: int| 0 <= i < b.len() ==> #[trigger] b[i] != ',',
    ensures
        cron_field::field_values(a, min, max) is Ok <==> cron_field::field_values(b, min, max) is Ok,
        cron_field::field_values(a, min, max) is Ok ==> cron_field::field_values(a, min, max)->Ok_0
            == cron_field::field_values(b, min, max)->Ok_0,
{
    text_laws::law_piece_alone(a, ',');
    text_laws::law_piece_alone(b, ',');
    lemma_segments_of_one(a, min, max);
    lemma_segments_of_one(b, min, max);
}

proof fn lemma_segments_of_one(field: Seq<char>, min: u32, max: u32)
    ensures
        ({
            let read = cron_field::segments(seq![field], field, min, max);
            if text::trim(field).len() == 0 {
                read is Err
            } else {
                match cron_field::segment(text::trim(field), min, max) {
                    Err(_) => read is Err,
                    Ok(span) => read == Ok::<Set<u32>, (FieldProblem, Seq<char>)>(span.values()),
                }
            }
        }),
{
    let parts = seq![field];
    assert(parts.drop_last() == Seq::<Seq<char>>::empty());
    assert(cron_field::segments(Seq::<Seq<char>>::empty(), field, min, max) == Ok::<
        Set<u32>,
        (FieldProblem, Seq<char>),
    >(Set::empty()));
    assert(parts.last() == field);
    if let Ok(span) = cron_field::segment(text::trim(field), min, max) {
        assert(Set::<u32>::empty().union(span.values()) == span.values());
    }
}

/// Of the bad segments of a list the first decides the error. Only an empty segment is told
/// with the whole field; any other with the segment itself.
pub proof fn law_first_bad_segment_decides(a: Seq<char>, b: Seq<char>, min: u32, max: u32)
    requires
        min <= max,
    ensures
        ({
            let first = cron_field::field_values(a, min, max);
            let second = cron_field::field_values(b, min, max);
            let field = a.push(',') + b;
            let joined = cron_field::field_values(field, min, max);
            let bad = if first is Err {
                first
            } else {
                second
            };
            bad matches Err((problem, t)) ==> joined == Err::<Set<u32>, _>(
                (
                    problem,
                    if problem == FieldProblem::EmptySegment {
                        field
                    } else {
                        t
                    },
                ),
            )
        }),
{
    let p = text::split(a, ',');
    let q = text::split(b, ',');
    let h = a.push(',') + b;
    text_laws::law_separator_separates_pieces(a, b, ',');
    lemma_errors_join(p, q, a, b, h, min, max);
    assert(p + Seq::<Seq<char>>::empty() == p);
    if cron_field::segments(p, a, min, max) is Ok {
        cron_laws::lemma_segments_nonempty(p, a, min, max);
    }
    if cron_field::segments(q, b, min, max) is Ok {
        cron_laws::lemma_segments_nonempty(q, b, min, max);
    }
}

/// The error that an error in a list becomes when the list is part of the field `h`.
spec fn in_field(e: (FieldProblem, Seq<char>), h: Seq<char>) -> (FieldProblem, Seq<char>) {
    (
        e.0,
        if e.0 == FieldProblem::EmptySegment {
            h
        } else {
            e.1
        },
    )
}

proof fn lemma_errors_join(
    p: Seq<Seq<char>>,
    q: Seq<Seq<char>>,
    f: Seq<char>,
    g: Seq<char>,
    h: Seq<char>,
    min: u32,
    max: u32,
)
    ensures
        ({
            let first = cron_field::segments(p, f, min, max);
            let second = cron_field::segments(q, g, min, max);
            let joined = cron_field::segments(p + q, h, min, max);
            match (first, second) {
                (Err(e), _) => joined == Err::<Set<u32>, _>(in_field(e, h)),
                (Ok(_), Err(e)) => joined == Err::<Set<u32>, _>(in_field(e, h)),
                (Ok(_), Ok(_)) => joined is Ok,
            }
        }),
    decreases p.len() + q.len(),
{
    let all = p + q;
    if q.len() > 0 {
        lemma_errors_join(p, q.drop_last(), f, g, h, min, max);
        assert(all.drop_last() == p + q.drop_last());
        assert(all.last() == q.last());
    } else if p.len() > 0 {
        lemma_errors_join(p.drop_last(), q, f, g, h, min, max);
        assert(all.drop_last() == p.drop_last() + q);
        assert(all.last() == p.last());
    }
}

/// An expression of five words, with whatever white space around them, allows what its
/// fields allow: minute, hour, day of the month, month and day of the week, in this order
/// and each in its own range. It is refused exactly if a field is, with the error of the
/// first such field.
pub proof fn law_expression_means_its_fields(expr: Seq<char>)
    requires
        text::words(expr).len() == 5,
    ensures
        ({
            let fields = text::words(expr);
            let minute = cron_field::field_values(fields[0], 0, 59);
            let hour = cron_field::field_values(fields[1], 0, 23);
            let day_of_month = cron_field::field_values(fields[2], 1, 31);
            let month = cron_field::field_values(fields[3], 1, 12);
            let day_of_week = cron_field::field_values(fields[4], 0, 6);
            let read = cron::meaning(expr);
            &&& read is Ok <==> {
                &&& minute is Ok
                &&& hour is Ok
                &&& day_of_month is Ok
                &&& month is Ok
                &&& day_of_week is Ok
            }
            &&& read matches Ok(s) ==> {
                &&& s.minute == minute->Ok_0
                &&& s.hour == hour->Ok_0
                &&& s.day_of_month == day_of_month->Ok_0
                &&& s.month == month->Ok_0
                &&& s.day_of_week == day_of_week->Ok_0
                &&& s.dom_is_wildcard <==> fields[2] == seq!['*']
                &&& s.dow_is_wildcard <==> fields[4] == seq!['*']
                &&& s.source == expr
            }
            &&& read matches Err((kind, t)) ==> {
                let (field, e) = if minute is Err {
                    (CronField::Minute, minute->Err_0)
                } else if hour is Err {
                    (CronField::Hour, hour->Err_0)
                } else if day_of_month is Err {
                    (CronField::DayOfMonth, day_of_month->Err_0)
                } else if month is Err {
                    (CronField::Month, month->Err_0)
                } else {
                    (CronField::DayOfWeek, day_of_week->Err_0)
                };
                kind == (CronErrorKind::Field { field, problem: e.0 }) && t == e.1
            }
        }),
{
}

/// An expression of any other number of words is refused, with that number.
pub proof fn law_other_word_counts_are_refused(expr: Seq<char>)
    requires
        text::words(expr).len() != 5,
        text::words(expr).len() <= usize::MAX,
    ensures
        cron::meaning(expr) matches Err((kind, t)) && kind == (CronErrorKind::FieldCount {
            found: text::words(expr).len() as usize,
        }) && t == expr,
{
}

/// Five words with single spaces between them are the words of the expression.
pub proof fn law_five_words(
    minute: Seq<char>,
    hour: Seq<char>,
    day_of_month: Seq<char>,
    month: Seq<char>,
    day_of_week: Seq<char>,
)
    requires
        minute.len() > 0,
        hour.len() > 0,
        day_of_month.len() > 0,
        month.len() > 0,
        day_of_week.len() > 0,
        forall|i: int| 0 <= i < minute.len() ==> !text::is_space(#[trigger] minute[i]),
        forall|i: int| 0 <= i < hour.len() ==> !text::is_space(#[trigger] hour[i]),
        forall|i: int| 0 <= i < day_of_month.len() ==> !text::is_space(#[trigger] day_of_month[i]),
        forall|i: int| 0 <= i < month.len() ==> !text::is_space(#[trigger] month[i]),
        forall|i: int| 0 <= i < day_of_week.len() ==> !text::is_space(#[trigger] day_of_week[i]),
    ensures
        text::words(
            minute.push(' ') + (hour.push(' ') + (day_of_month.push(' ') + (month.push(' ')
                + day_of_week))),
        ) == seq![minute, hour, day_of_month, month, day_of_week],
{
    let d = month.push(' ') + day_of_week;
    let c = day_of_month.push(' ') + d;
    let b = hour.push(' ') + c;
    text_laws::law_space_separates_words(month, ' ', day_of_week);
    text_laws::law_space_separates_words(day_of_month, ' ', d);
    text_laws::law_space_separates_words(hour, ' ', c);
    text_laws::law_space_separates_words(minute, ' ', b);
    text_laws::law_word_alone(minute);
    text_laws::law_word_alone(hour);
    text_laws::law_word_alone(day_of_month);
    text_laws::law_word_alone(month);
    text_laws::law_word_alone(day_of_week);
    assert(seq![minute] + (seq![hour] + (seq![day_of_month] + (seq![month] + seq![day_of_week])))
        == seq![minute, hour, day_of_month, month, day_of_week]);
}

/// A schedule fires at the start of exactly those minutes whose month, hour and minute its
/// fields allow, on days that its day fields allow: both, where one of them is `*`, and
/// either, where neither is.
pub proof fn law_schedule_fires_by_its_fields(
    s: Schedule,
    date: Date,
    hour: int,
    minute: int,
    second: int,
)
    requires
        date.valid(),
        0 <= hour < 24,
        0 <= minute < 60,
        0 <= second < 60,
    ensures
        s.fires_at(date.number() * 86_400 + hour * 3_600 + minute * 60 + second) <==> ({
            let by_date = s.day_of_month.contains(date.day as u32);
            let by_weekday = s.day_of_week.contains(((date.number() + 4) % 7) as u32);
            &&& second == 0
            &&& s.minute.contains(minute as u32)
            &&& s.hour.contains(hour as u32)
            &&& s.month.contains(date.month as u32)
            &&& if s.dom_is_wildcard || s.dow_is_wildcard {
                (s.dom_is_wildcard || by_date) && (s.dow_is_wildcard || by_weekday)
            } else {
                by_date || by_weekday
            }
        }),
{
    steps::lemma_at(date.number(), hour, minute, second);
    calendar::lemma_date_of(date);
}

/// The next time after `from` is one at which the schedule fires, and at no second between
/// the two does it fire; no next time is found where it does not fire in five years of 366
/// days.
pub proof fn law_next_is_the_first_to_fire(s: Schedule, from: int, t: int)
    ensures
        s.is_next(from, t) <==> {
            &&& from < t
            &&& s.fires_at(t)
            &&& forall|u: int| from < u < t ==> !#[trigger] s.fires_at(u)
        },
        s.silent(from, from + HORIZON_SECS) <==> forall|u: int|
            from < u <= from + 5 * 366 * 24 * 60 * 60 ==> !#[trigger] s.fires_at(u),
{
}

/// The run that an expression has after `now` is the first second after it at which the
/// expression fires. There is none exactly where the expression is refused, or does not
/// fire in five years of 366 days.
pub proof fn law_run_is_the_first_to_fire(expr: Seq<char>, now: Timestamp)
    requires
        now.valid(),
        now.secs + 5 * 366 * 24 * 60 * 60 <= MAX_SECS,
    ensures
        ({
            let horizon = now.secs + 5 * 366 * 24 * 60 * 60;
            match (scheduler::run_after(expr, now), cron::meaning(expr)) {
                (Ok(t), Ok(s)) => {
                    &&& t.nanos == 0
                    &&& now.secs < t.secs <= horizon
                    &&& s.fires_at(t.secs as int)
                    &&& forall|u: int| now.secs < u < t.secs ==> !#[trigger] s.fires_at(u)
                },
                (Ok(_), Err(_)) => false,
                (Err((kind, t)), Ok(s)) => {
                    &&& kind == CronErrorKind::NoRunTime
                    &&& t == expr
                    &&& forall|u: int| now.secs < u <= horizon ==> !#[trigger] s.fires_at(u)
                },
                (Err(e), Err(f)) => e == f,
            }
        }),
{
    reveal(scheduler::run_after);
    if let Ok(t) = scheduler::run_after(expr, now) {
        scheduler::law_run_after_is_next(expr, now, t);
    }
}

/// The hour and the minute of a second, its day, and the day of the week go on with time:
/// a day has 24 hours of 60 minutes, and the seven weekdays follow each other, Sunday first.
pub proof fn law_time_of_day(secs: int)
    ensures
        ({
            let day = timestamp::day_of(secs);
            let hour = timestamp::hour_of(secs);
            let minute = timestamp::minute_of(secs);
            let second = secs - ((day * 24 + hour) * 60 + minute) * 60;
            &&& 0 <= hour < 24
            &&& 0 <= minute < 60
            &&& 0 <= second < 60
        }),
        calendar::weekday_of(timestamp::day_of(secs) + 1) == (if calendar::weekday_of(
            timestamp::day_of(secs),
        ) == 6 {
            0
        } else {
            calendar::weekday_of(timestamp::day_of(secs)) + 1
        }),
{
    let (day, hour, min, sec) = steps::lemma_split(secs);
    steps::lemma_at(day, hour, min, sec);
}

/// A second tick of the clock is later than the first exactly if its second is, or its
/// nanosecond within the same second.
pub proof fn law_time_is_ordered(a: Timestamp, b: Timestamp)
    requires
        a.valid(),
        b.valid(),
    ensures
        a.before_or_at(b) <==> a.secs * 2_000_000_000 + a.nanos <= b.secs * 2_000_000_000 + b.nanos,
{
}

} // verus!
