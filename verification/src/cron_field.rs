//! The grammar of one field of a cron expression: a comma-separated list of segments,
//! each `*`, a number, or a range `a-b`, with an optional step `/n`.
use std::collections::BTreeSet;

use vstd::prelude::*;

use crate::text;
use crate::text::{
    parse_u32, same_text, split_at_each, split_at_first, trim_spaces, NumberProblem,
};

verus! {

/// What is wrong with a field.
#[derive(Debug, Clone, Copy, PartialEq, Eq, Structural)]
pub enum FieldProblem {
    /// Nothing stands between two commas.
    EmptySegment,
    /// What follows the slash is not a number.
    InvalidStep { why: NumberProblem },
    /// The step is zero.
    ZeroStep,
    /// What stands before the dash is not a number.
    InvalidRangeStart { why: NumberProblem },
    /// What follows the dash is not a number.
    InvalidRangeEnd { why: NumberProblem },
    /// The range starts after its end.
    ReversedRange,
    /// Neither `*`, nor a number, nor a range.
    NotAValue { why: NumberProblem },
    /// A value lies outside `min..=max`.
    OutOfRange { min: u32, max: u32 },
    /// The range of the field itself is empty, so that `*` names nothing.
    NoValues,
}

/// A problem, and the text it was found in: the whole field for an empty segment or a field
/// without values, the segment otherwise.
#[derive(Debug, Clone)]
pub struct FieldError {
    pub problem: FieldProblem,
    pub text: String,
}

/// Every `step`-th value from `start` to `end`.
#[derive(Debug, Clone, Copy, PartialEq, Eq, Structural)]
pub struct Span {
    pub start: u32,
    pub end: u32,
    pub step: u32,
}

impl Span {
    pub open spec fn values(self) -> Set<u32> {
        Set::new(|v: u32| self.start <= v <= self.end && (v - self.start) % self.step as int == 0)
    }
}

/// The bounds that a segment names, before any step.
pub open spec fn bounds(range: Seq<char>, min: u32, max: u32) -> Result<(u32, u32), FieldProblem> {
    if range == seq!['*'] {
        Ok((min, max))
    } else {
        match text::split_once(range, '-') {
            Some((a, b)) => match text::number(a) {
                Err(why) => Err(FieldProblem::InvalidRangeStart { why }),
                Ok(start) => match text::number(b) {
                    Err(why) => Err(FieldProblem::InvalidRangeEnd { why }),
                    Ok(end) => if start > end {
                        Err(FieldProblem::ReversedRange)
                    } else {
                        Ok((start, end))
                    },
                },
            },
            None => match text::number(range) {
                Err(why) => Err(FieldProblem::NotAValue { why }),
                Ok(v) => Ok((v, v)),
            },
        }
    }
}

/// The values that a segment names.
pub open spec fn segment(part: Seq<char>, min: u32, max: u32) -> Result<Span, FieldProblem> {
    let (range, step) = match text::split_once(part, '/') {
        Some((r, s)) => (r, text::number(s)),
        None => (part, Ok(1u32)),
    };
    match step {
        Err(why) => Err(FieldProblem::InvalidStep { why }),
        Ok(step) => if step == 0 {
            Err(FieldProblem::ZeroStep)
        } else {
            match bounds(range, min, max) {
                Err(p) => Err(p),
                Ok((start, end)) => if start < min || end > max {
                    Err(FieldProblem::OutOfRange { min, max })
                } else {
                    Ok(Span { start, end, step })
                },
            }
        },
    }
}

/// The union of what the segments name; the first bad segment decides the error.
pub open spec fn segments(
    parts: Seq<Seq<char>>,
    field: Seq<char>,
    min: u32,
    max: u32,
) -> Result<Set<u32>, (FieldProblem, Seq<char>)>
    decreases parts.len(),
{
    if parts.len() == 0 {
        Ok(Set::empty())
    } else {
        match segments(parts.drop_last(), field, min, max) {
            Err(e) => Err(e),
            Ok(values) => {
                let part = text::trim(parts.last());
                if part.len() == 0 {
                    Err((FieldProblem::EmptySegment, field))
                } else {
                    match segment(part, min, max) {
                        Err(p) => Err((p, part)),
                        Ok(span) => Ok(values.union(span.values())),
                    }
                }
            },
        }
    }
}

/// The values that a field names.
pub open spec fn field_values(field: Seq<char>, min: u32, max: u32) -> Result<
    Set<u32>,
    (FieldProblem, Seq<char>),
> {
    match segments(text::split(field, ','), field, min, max) {
        Err(e) => Err(e),
        Ok(values) => if values.is_empty() {
            Err((FieldProblem::NoValues, field))
        } else {
            Ok(values)
        },
    }
}

/// An error in the first segments is the error of the field.
proof fn lemma_first_error(parts: Seq<Seq<char>>, n: int, field: Seq<char>, min: u32, max: u32)
    requires
        0 <= n <= parts.len(),
        segments(parts.take(n), field, min, max) is Err,
    ensures
        segments(parts, field, min, max) == segments(parts.take(n), field, min, max),
    decreases parts.len(),
{
    if n == parts.len() {
        assert(parts.take(n) == parts);
    } else {
        assert(parts.drop_last().take(n) == parts.take(n));
        lemma_first_error(parts.drop_last(), n, field, min, max);
    }
}

/// Nothing strictly between two neighbours of a span belongs to it.
proof fn lemma_no_value_between(span: Span, v: int, x: int)
    requires
        span.step > 0,
        span.start <= v,
        (v - span.start) % span.step as int == 0,
        v < x < v + span.step,
    ensures
        (x - span.start) % span.step as int != 0,
{
    let step = span.step as int;
    vstd::arithmetic::div_mod::lemma_fundamental_div_mod(v - span.start, step);
    vstd::arithmetic::mul::lemma_mul_is_commutative(step, (v - span.start) / step);
    vstd::arithmetic::div_mod::lemma_fundamental_div_mod_converse(
        x - span.start,
        step,
        (v - span.start) / step,
        x - v,
    );
}

/// The next neighbour belongs to the span.
proof fn lemma_next_value(span: Span, v: int)
    requires
        span.step > 0,
        (v - span.start) % span.step as int == 0,
    ensures
        (v + span.step - span.start) % span.step as int == 0,
{
    vstd::arithmetic::div_mod::lemma_mod_add_multiples_vanish(v - span.start, span.step as int);
}

/// Adds the values of `span` to `values`.
fn insert_span(values: &mut BTreeSet<u32>, span: Span)
    requires
        span.step > 0,
    ensures
        final(values)@ == old(values)@.union(span.values()),
{
    let mut v: u32 = span.start;
    let ghost before = values@;
    let mut done: bool = false;
    proof {
        vstd::arithmetic::div_mod::lemma_small_mod(0, span.step as nat);
    }
    while !done && v <= span.end
        invariant
            span.step > 0,
            span.start <= v,
            !done ==> (v - span.start) % span.step as int == 0,
            done ==> forall|x: u32| span.values().contains(x) ==> values@.contains(x),
            forall|x: u32|
                #![trigger values@.contains(x)]
                !done ==> (values@.contains(x) <==> before.contains(x) || (span.values().contains(x)
                    && x < v)),
            forall|x: u32| values@.contains(x) ==> before.contains(x) || span.values().contains(x),
            forall|x: u32| before.contains(x) ==> values@.contains(x),
        decreases u32::MAX - v + if done { 0int } else { 1int },
    {
        let ghost prior = values@;
        values.insert(v);
        proof {
            assert forall|x: u32| v < x < v + span.step implies !span.values().contains(x) by {
                lemma_no_value_between(span, v as int, x as int);
            }
            lemma_next_value(span, v as int);
        }
        match v.checked_add(span.step) {
            Some(next) => {
                v = next;
            },
            None => {
                done = true;
            },
        }
    }
    assert(values@ =~= before.union(span.values()));
}

/// Reads the bounds that a segment names.
fn parse_bounds(range: &str, min: u32, max: u32) -> (r: Result<(u32, u32), FieldProblem>)
    ensures
        r == bounds(range@, min, max),
{
    proof {
        reveal_strlit("*");
        assert("*"@ == seq!['*']);
    }
    if same_text(range, "*") {
        return Ok((min, max));
    }
    match split_at_first(range, '-') {
        Some((a, b)) => match parse_u32(a) {
            Err(why) => Err(FieldProblem::InvalidRangeStart { why }),
            Ok(start) => match parse_u32(b) {
                Err(why) => Err(FieldProblem::InvalidRangeEnd { why }),
                Ok(end) => if start > end {
                    Err(FieldProblem::ReversedRange)
                } else {
                    Ok((start, end))
                },
            },
        },
        None => match parse_u32(range) {
            Err(why) => Err(FieldProblem::NotAValue { why }),
            Ok(v) => Ok((v, v)),
        },
    }
}

/// Reads one segment.
fn parse_segment(part: &str, min: u32, max: u32) -> (r: Result<Span, FieldProblem>)
    ensures
        r == segment(part@, min, max),
{
    let (range, step): (&str, Result<u32, NumberProblem>) = match split_at_first(part, '/') {
        Some((r, s)) => (r, parse_u32(s)),
        None => (part, Ok(1)),
    };
    match step {
        Err(why) => Err(FieldProblem::InvalidStep { why }),
        Ok(step) => if step == 0 {
            Err(FieldProblem::ZeroStep)
        } else {
            match parse_bounds(range, min, max) {
                Err(p) => Err(p),
                Ok((start, end)) => if start < min || end > max {
                    Err(FieldProblem::OutOfRange { min, max })
                } else {
                    Ok(Span { start, end, step })
                },
            }
        },
    }
}

/// Reads a field whose values lie in `min..=max`.
pub fn parse_field(field: &str, min: u32, max: u32) -> (r: Result<BTreeSet<u32>, FieldError>)
    ensures
        match r {
            Ok(values) => field_values(field@, min, max) == Ok::<_, (FieldProblem, Seq<char>)>(
                values@,
            ),
            Err(e) => field_values(field@, min, max) == Err::<Set<u32>, _>((e.problem, e.text@)),
        },
{
    let parts = split_at_each(field, ',');
    let ghost texts = text::split(field@, ',');
    let mut values: BTreeSet<u32> = BTreeSet::new();
    let mut i: usize = 0;
    assert(texts.take(0) == Seq::<Seq<char>>::empty());
    while i < parts.len()
        invariant
            texts == parts@.map_values(|w: &str| w@),
            i <= parts.len(),
            texts == text::split(field@, ','),
            segments(texts.take(i as int), field@, min, max) == Ok::<_, (FieldProblem, Seq<char>)>(
                values@,
            ),
        decreases parts.len() - i,
    {
        let part = trim_spaces(parts[i]);
        proof {
            assert(texts.take(i + 1).drop_last() == texts.take(i as int));
            assert(text::trim(texts.take(i + 1).last()) == part@);
        }
        if part.is_empty() {
            proof {
                lemma_first_error(texts, i + 1, field@, min, max);
            }
            return Err(FieldError { problem: FieldProblem::EmptySegment, text: field.to_owned() });
        }
        match parse_segment(part, min, max) {
            Err(problem) => {
                proof {
                    lemma_first_error(texts, i + 1, field@, min, max);
                }
                return Err(FieldError { problem, text: part.to_owned() });
            },
            Ok(span) => {
                insert_span(&mut values, span);
            },
        }
        i = i + 1;
    }
    assert(texts.take(i as int) == texts);
    if values.is_empty() {
        return Err(FieldError { problem: FieldProblem::NoValues, text: field.to_owned() });
    }
    Ok(values)
}

} // verus!
