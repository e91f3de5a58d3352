//! Why a cron expression is refused, in words.
use vstd::prelude::*;

use crate::cron_field::{FieldError, FieldProblem};
use crate::text;
use crate::text::{push_decimal, split_at_first, wrap, NumberProblem};
use crate::text_laws;

verus! {

/// The fields of a cron expression, in order.
#[derive(Debug, Clone, Copy, PartialEq, Eq, Structural)]
pub enum CronField {
    Minute,
    Hour,
    DayOfMonth,
    Month,
    DayOfWeek,
}

#[derive(Debug, Clone, Copy, PartialEq, Eq, Structural)]
pub enum CronErrorKind {
    /// The expression does not have five fields, but `found`.
    FieldCount { found: usize },
    /// A field is malformed.
    Field { field: CronField, problem: FieldProblem },
    /// The schedule does not fire within the horizon.
    NoRunTime,
}

/// Why an expression was refused, or why it has no next time. `text` is what the kind
/// speaks of: the expression, the offending text within a field, or the expression again.
#[derive(Debug, Clone)]
pub struct CronError {
    pub kind: CronErrorKind,
    pub text: String,
}

/// The error of a bad field.
pub(crate) fn field_error(field: CronField, e: FieldError) -> (r: CronError)
    ensures
        r.kind == (CronErrorKind::Field { field, problem: e.problem }),
        r.text@ == e.text@,
{
    CronError { kind: CronErrorKind::Field { field, problem: e.problem }, text: e.text }
}

impl CronField {
    pub open spec fn name(self) -> Seq<char> {
        match self {
            CronField::Minute => "minute field"@,
            CronField::Hour => "hour field"@,
            CronField::DayOfMonth => "day-of-month field"@,
            CronField::Month => "month field"@,
            CronField::DayOfWeek => "day-of-week field (0=Sunday)"@,
        }
    }

    pub fn as_str(&self) -> (r: &'static str)
        ensures
            r@ == self.name(),
    {
        match self {
            CronField::Minute => "minute field",
            CronField::Hour => "hour field",
            CronField::DayOfMonth => "day-of-month field",
            CronField::Month => "month field",
            CronField::DayOfWeek => "day-of-week field (0=Sunday)",
        }
    }
}

/// The words for a problem found in `t`.
pub open spec fn problem_text(problem: FieldProblem, t: Seq<char>) -> Seq<char> {
    match problem {
        FieldProblem::EmptySegment => "empty segment in field '"@ + t + "'"@,
        FieldProblem::InvalidStep { .. } => "invalid step '"@ + (match text::split_once(t, '/') {
            Some((_, step)) => step,
            None => t,
        }) + "' in '"@ + t + "'"@,
        FieldProblem::ZeroStep => "step of 0 in '"@ + t + "' is not valid"@,
        FieldProblem::InvalidRangeStart { .. } => "invalid range start in '"@ + t + "'"@,
        FieldProblem::InvalidRangeEnd { .. } => "invalid range end in '"@ + t + "'"@,
        FieldProblem::ReversedRange => "range '"@ + t + "' has start > end"@,
        FieldProblem::NotAValue { .. } => "'"@ + t + "' is not '*', a number, a range, or a step"@,
        FieldProblem::OutOfRange { min, max } => "value(s) in '"@ + t + "' out of range "@
            + text::decimal(min as nat) + "..="@ + text::decimal(max as nat),
        FieldProblem::NoValues => "field '"@ + t + "' produced no valid values"@,
    }
}

/// Why a number in a bad field is none, if that is its problem.
pub open spec fn number_problem(problem: FieldProblem) -> Option<NumberProblem> {
    match problem {
        FieldProblem::InvalidStep { why } => Some(why),
        FieldProblem::InvalidRangeStart { why } => Some(why),
        FieldProblem::InvalidRangeEnd { why } => Some(why),
        FieldProblem::NotAValue { why } => Some(why),
        _ => None,
    }
}

/// The words for an error.
pub open spec fn error_text(kind: CronErrorKind, t: Seq<char>) -> Seq<char> {
    match kind {
        CronErrorKind::FieldCount { found } => "cron expression '"@ + t
            + "' must have exactly 5 space-separated fields \
             (minute hour day-of-month month day-of-week), found "@
            + text::decimal(found as nat),
        CronErrorKind::Field { field, .. } => field.name(),
        CronErrorKind::NoRunTime => "cron expression '"@ + t
            + "' has no matching run time in the next 5 years \
             (check for an impossible day, e.g. day-of-month 30 in February)"@,
    }
}

impl FieldError {
    /// The problem in words.
    pub fn message(&self) -> (r: String)
        ensures
            r@ == problem_text(self.problem, self.text@),
    {
        let t = self.text.as_str();
        match self.problem {
            FieldProblem::EmptySegment => wrap("empty segment in field '", t, "'"),
            FieldProblem::InvalidStep { .. } => {
                let step = match split_at_first(t, '/') {
                    Some((_, step)) => step,
                    None => t,
                };
                let mut r = wrap("invalid step '", step, "' in '");
                r.append(t);
                r.append("'");
                r
            },
            FieldProblem::ZeroStep => wrap("step of 0 in '", t, "' is not valid"),
            FieldProblem::InvalidRangeStart { .. } => wrap("invalid range start in '", t, "'"),
            FieldProblem::InvalidRangeEnd { .. } => wrap("invalid range end in '", t, "'"),
            FieldProblem::ReversedRange => wrap("range '", t, "' has start > end"),
            FieldProblem::NotAValue { .. } => {
                wrap("'", t, "' is not '*', a number, a range, or a step")
            },
            FieldProblem::OutOfRange { min, max } => {
                let mut r = wrap("value(s) in '", t, "' out of range ");
                push_decimal(&mut r, min as u64);
                r.append("..=");
                push_decimal(&mut r, max as u64);
                r
            },
            FieldProblem::NoValues => wrap("field '", t, "' produced no valid values"),
        }
    }
}

impl CronError {
    /// The error in words. Of a bad field it names the field; `cause` and `root_cause`
    /// say the rest.
    pub fn message(&self) -> (r: String)
        ensures
            r@ == error_text(self.kind, self.text@),
    {
        let t = self.text.as_str();
        match self.kind {
            CronErrorKind::FieldCount { found } => {
                let mut r = wrap(
                    "cron expression '",
                    t,
                    "' must have exactly 5 space-separated fields \
             (minute hour day-of-month month day-of-week), found ",
                );
                push_decimal(&mut r, found as u64);
                r
            },
            CronErrorKind::Field { field, .. } => field.as_str().to_owned(),
            CronErrorKind::NoRunTime => wrap(
                "cron expression '",
                t,
                "' has no matching run time in the next 5 years \
             (check for an impossible day, e.g. day-of-month 30 in February)",
            ),
        }
    }

    /// What is wrong with a bad field, in words.
    pub fn cause(&self) -> (r: Option<String>)
        ensures
            match self.kind {
                CronErrorKind::Field { problem, .. } => r matches Some(t) && t@ == problem_text(
                    problem,
                    self.text@,
                ),
                _ => r is None,
            },
    {
        match self.kind {
            CronErrorKind::Field { problem, .. } => Some(
                FieldError { problem, text: self.text.clone() }.message(),
            ),
            _ => None,
        }
    }

    /// Why a number in a bad field is none, in words.
    pub fn root_cause(&self) -> (r: Option<&'static str>)
        ensures
            match self.kind {
                CronErrorKind::Field { problem, .. } => match number_problem(problem) {
                    Some(why) => r matches Some(t) && t@ == text::number_text(why),
                    None => r is None,
                },
                _ => r is None,
            },
    {
        match self.kind {
            CronErrorKind::Field { problem, .. } => match problem {
                FieldProblem::InvalidStep { why } => Some(why.message()),
                FieldProblem::InvalidRangeStart { why } => Some(why.message()),
                FieldProblem::InvalidRangeEnd { why } => Some(why.message()),
                FieldProblem::NotAValue { why } => Some(why.message()),
                _ => None,
            },
            _ => None,
        }
    }
}

/// Every message quotes the text that it is about, whole, and says what is wrong with it.
pub proof fn law_messages_quote_the_text(
    t: Seq<char>,
    range: Seq<char>,
    step: Seq<char>,
    why: NumberProblem,
    min: u32,
    max: u32,
    found: usize,
    field: CronField,
    problem: FieldProblem,
)
    requires
        forall|i: int| 0 <= i < range.len() ==> #[trigger] range[i] != '/',
    ensures
        problem_text(FieldProblem::EmptySegment, t) == "empty segment in field '"@ + t + "'"@,
        problem_text(FieldProblem::InvalidStep { why }, range.push('/') + step)
            == "invalid step '"@ + step + "' in '"@ + (range.push('/') + step) + "'"@,
        problem_text(FieldProblem::ZeroStep, t) == "step of 0 in '"@ + t + "' is not valid"@,
        problem_text(FieldProblem::InvalidRangeStart { why }, t) == "invalid range start in '"@ + t
            + "'"@,
        problem_text(FieldProblem::InvalidRangeEnd { why }, t) == "invalid range end in '"@ + t
            + "'"@,
        problem_text(FieldProblem::ReversedRange, t) == "range '"@ + t + "' has start > end"@,
        problem_text(FieldProblem::NotAValue { why }, t) == "'"@ + t
            + "' is not '*', a number, a range, or a step"@,
        problem_text(FieldProblem::OutOfRange { min, max }, t) == "value(s) in '"@ + t
            + "' out of range "@ + text::decimal(min as nat) + "..="@ + text::decimal(max as nat),
        problem_text(FieldProblem::NoValues, t) == "field '"@ + t
            + "' produced no valid values"@,
        error_text(CronErrorKind::FieldCount { found }, t) == "cron expression '"@ + t
            + "' must have exactly 5 space-separated fields \
             (minute hour day-of-month month day-of-week), found "@
            + text::decimal(found as nat),
        error_text(CronErrorKind::NoRunTime, t) == "cron expression '"@ + t
            + "' has no matching run time in the next 5 years \
             (check for an impossible day, e.g. day-of-month 30 in February)"@,
        error_text(CronErrorKind::Field { field, problem }, t) == field.name(),
{
    text_laws::law_split_once_at_the_first(range, step, '/');
}

} // verus!
