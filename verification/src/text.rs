//! Text as sequences of characters: splitting, whole numbers, and writing numbers out.
use vstd::prelude::*;

verus! {

/// The characters with Unicode's `White_Space` property.
pub open spec fn is_space(c: char) -> bool {
    ||| '\u{9}' <= c <= '\u{d}'
    ||| c == ' '
    ||| c == '\u{85}'
    ||| c == '\u{a0}'
    ||| c == '\u{1680}'
    ||| '\u{2000}' <= c <= '\u{200a}'
    ||| c == '\u{2028}'
    ||| c == '\u{2029}'
    ||| c == '\u{202f}'
    ||| c == '\u{205f}'
    ||| c == '\u{3000}'
}

/// Length of the longest prefix of `s` without white space.
pub open spec fn word_len(s: Seq<char>) -> int
    decreases s.len(),
{
    if s.len() == 0 || is_space(s[0]) {
        0
    } else {
        1 + word_len(s.skip(1))
    }
}

/// The words of `s`: its longest runs of characters that are not white space.
pub open spec fn words(s: Seq<char>) -> Seq<Seq<char>>
    decreases s.len(),
{
    if s.len() == 0 {
        seq![]
    } else if is_space(s[0]) {
        words(s.skip(1))
    } else {
        proof {
            lemma_word_len(s);
        }
        seq![s.take(word_len(s))] + words(s.skip(word_len(s)))
    }
}

/// `s` without the white space it starts with.
pub open spec fn trim_start(s: Seq<char>) -> Seq<char>
    decreases s.len(),
{
    if s.len() > 0 && is_space(s[0]) {
        trim_start(s.skip(1))
    } else {
        s
    }
}

/// `s` without the white space it ends with.
pub open spec fn trim_end(s: Seq<char>) -> Seq<char>
    decreases s.len(),
{
    if s.len() > 0 && is_space(s.last()) {
        trim_end(s.drop_last())
    } else {
        s
    }
}

/// `s` without the white space around it.
pub open spec fn trim(s: Seq<char>) -> Seq<char> {
    trim_end(trim_start(s))
}

/// Position of the first `sep` in `s`, or the length of `s`.
pub open spec fn find(s: Seq<char>, sep: char) -> int
    decreases s.len(),
{
    if s.len() == 0 || s[0] == sep {
        0
    } else {
        1 + find(s.skip(1), sep)
    }
}

/// The pieces of `s` between the occurrences of `sep`; one more than there are of those.
pub open spec fn split(s: Seq<char>, sep: char) -> Seq<Seq<char>>
    decreases s.len(),
{
    if 0 <= find(s, sep) < s.len() {
        seq![s.take(find(s, sep))] + split(s.skip(find(s, sep) + 1), sep)
    } else {
        seq![s]
    }
}

/// What stands before and after the first `sep`.
pub open spec fn split_once(s: Seq<char>, sep: char) -> Option<(Seq<char>, Seq<char>)> {
    if find(s, sep) < s.len() {
        Some((s.take(find(s, sep)), s.skip(find(s, sep) + 1)))
    } else {
        None
    }
}

/// The order of texts: that of the first characters in which they differ, by code point;
/// a text comes after every text that it starts with.
pub open spec fn precedes(a: Seq<char>, b: Seq<char>) -> bool
    decreases a.len(),
{
    if b.len() == 0 {
        false
    } else if a.len() == 0 {
        true
    } else if a[0] == b[0] {
        precedes(a.skip(1), b.skip(1))
    } else {
        a[0] < b[0]
    }
}

pub open spec fn is_digit(c: char) -> bool {
    '0' <= c <= '9'
}

pub open spec fn all_digits(s: Seq<char>) -> bool {
    forall|i: int| 0 <= i < s.len() ==> is_digit(#[trigger] s[i])
}

/// The value of a decimal digit.
pub open spec fn digit_value(c: char) -> nat {
    if is_digit(c) {
        (c as int - '0' as int) as nat
    } else {
        0
    }
}

/// The number that a sequence of decimal digits writes.
pub open spec fn digits_value(s: Seq<char>) -> nat
    decreases s.len(),
{
    if s.len() == 0 {
        0
    } else {
        digits_value(s.drop_last()) * 10 + digit_value(s.last())
    }
}

/// Why a text is not a number.
#[derive(Debug, Clone, Copy, PartialEq, Eq, Structural)]
pub enum NumberProblem {
    /// There is nothing to read.
    Empty,
    /// A character is not a digit.
    InvalidDigit,
    /// The number does not fit in 32 bits.
    TooLarge,
}

/// How many digits `s` starts with.
pub open spec fn digit_run(s: Seq<char>) -> int
    decreases s.len(),
{
    if s.len() == 0 || !is_digit(s[0]) {
        0
    } else {
        1 + digit_run(s.skip(1))
    }
}

/// The `u32` that `s` writes: digits, after at most one plus sign. Of what is wrong with a
/// text, the first from the left counts.
pub open spec fn number(s: Seq<char>) -> Result<u32, NumberProblem> {
    let digits = if s.len() > 0 && s[0] == '+' {
        s.skip(1)
    } else {
        s
    };
    let run = digits.take(digit_run(digits));
    if s.len() == 0 {
        Err(NumberProblem::Empty)
    } else if digits_value(run) > u32::MAX {
        Err(NumberProblem::TooLarge)
    } else if run.len() == 0 || run.len() < digits.len() {
        Err(NumberProblem::InvalidDigit)
    } else {
        Ok(digits_value(digits) as u32)
    }
}

/// What the problem is, in words.
pub open spec fn number_text(problem: NumberProblem) -> Seq<char> {
    match problem {
        NumberProblem::Empty => "cannot parse integer from empty string"@,
        NumberProblem::InvalidDigit => "invalid digit found in string"@,
        NumberProblem::TooLarge => "number too large to fit in target type"@,
    }
}

impl NumberProblem {
    pub fn message(&self) -> (r: &'static str)
        ensures
            r@ == number_text(*self),
    {
        match self {
            NumberProblem::Empty => "cannot parse integer from empty string",
            NumberProblem::InvalidDigit => "invalid digit found in string",
            NumberProblem::TooLarge => "number too large to fit in target type",
        }
    }
}

/// The character of a decimal digit.
pub open spec fn digit_char(d: nat) -> char {
    ('0' as int + d) as char
}

/// `n` in decimal.
pub open spec fn decimal(n: nat) -> Seq<char>
    decreases n,
{
    if n < 10 {
        seq![digit_char(n)]
    } else {
        decimal(n / 10).push(digit_char(n % 10))
    }
}

/// `i` in decimal, with a minus sign where it is negative.
pub open spec fn integer(i: int) -> Seq<char> {
    if i < 0 {
        seq!['-'] + decimal((-i) as nat)
    } else {
        decimal(i as nat)
    }
}

pub fn is_white_space(c: char) -> (r: bool)
    ensures
        r == is_space(c),
{
    ('\u{9}' <= c && c <= '\u{d}') || c == ' ' || c == '\u{85}' || c == '\u{a0}' || c == '\u{1680}'
        || ('\u{2000}' <= c && c <= '\u{200a}') || c == '\u{2028}' || c == '\u{2029}' || c
        == '\u{202f}' || c == '\u{205f}' || c == '\u{3000}'
}

/// The characters of `s`.
pub fn chars_of(s: &str) -> (v: Vec<char>)
    ensures
        v@ == s@,
{
    let mut v: Vec<char> = Vec::new();
    for c in it: s.chars()
        invariant
            it.seq() == s@,
            v@ == s@.take(it.index() as int),
    {
        v.push(c);
        assert(s@.take(it.index() as int).push(c) == s@.take(it.index() + 1));
    }
    assert(s@.take(s@.len() as int) == s@);
    v
}

/// Whether two texts are the same.
pub fn same_text(a: &str, b: &str) -> (r: bool)
    ensures
        r == (a@ == b@),
{
    a.to_owned() == b.to_owned()
}

/// A word is no longer than what it is the start of.
pub proof fn lemma_word_len(s: Seq<char>)
    ensures
        0 <= word_len(s) <= s.len(),
        s.len() > 0 && !is_space(s[0]) ==> word_len(s) >= 1,
    decreases s.len(),
{
    if s.len() > 0 && !is_space(s[0]) {
        lemma_word_len(s.skip(1));
    }
}

/// A word ends at the first white space.
pub proof fn lemma_word_len_at(s: Seq<char>, n: int)
    requires
        0 <= n <= s.len(),
        forall|i: int| 0 <= i < n ==> !is_space(#[trigger] s[i]),
        n == s.len() || is_space(s[n]),
    ensures
        word_len(s) == n,
    decreases s.len(),
{
    if n > 0 {
        assert(s.skip(1).len() == s.len() - 1);
        assert forall|i: int| 0 <= i < n - 1 implies !is_space(#[trigger] s.skip(1)[i]) by {
            assert(!is_space(s[i + 1]));
        }
        lemma_word_len_at(s.skip(1), n - 1);
    }
}

/// What `find` gives: nothing before it is `sep`, and it is at a `sep` or at the end.
pub proof fn lemma_find(s: Seq<char>, sep: char) -> (n: int)
    ensures
        n == find(s, sep),
        0 <= n <= s.len(),
        forall|i: int| 0 <= i < n ==> #[trigger] s[i] != sep,
        n == s.len() || s[n] == sep,
    decreases s.len(),
{
    if s.len() > 0 && s[0] != sep {
        let n = lemma_find(s.skip(1), sep);
        assert forall|i: int| 0 <= i < n + 1 implies #[trigger] s[i] != sep by {
            if i > 0 {
                assert(s.skip(1)[i - 1] != sep);
            }
        }
        n + 1
    } else {
        0
    }
}

/// `find` stops at the first `sep`.
pub proof fn lemma_find_at(s: Seq<char>, sep: char, n: int)
    requires
        0 <= n <= s.len(),
        forall|i: int| 0 <= i < n ==> #[trigger] s[i] != sep,
        n == s.len() || s[n] == sep,
    ensures
        find(s, sep) == n,
    decreases s.len(),
{
    if n > 0 {
        assert(s[0] != sep);
        assert forall|i: int| 0 <= i < n - 1 implies #[trigger] s.skip(1)[i] != sep by {
            assert(s[i + 1] != sep);
        }
        lemma_find_at(s.skip(1), sep, n - 1);
    }
}

/// Takes the white space around `s` away.
pub fn trim_spaces<'a>(s: &'a str) -> (r: &'a str)
    ensures
        r@ == trim(s@),
{
    let chars = chars_of(s);
    let mut from: usize = 0;
    let mut to: usize = chars.len();
    assert(s@.skip(0) == s@);
    while from < chars.len() && is_white_space(chars[from])
        invariant
            chars@ == s@,
            from <= chars.len(),
            trim_start(s@.skip(from as int)) == trim_start(s@),
        decreases chars.len() - from,
    {
        assert(s@.skip(from as int).skip(1) == s@.skip(from + 1));
        from = from + 1;
    }
    let ghost rest = s@.skip(from as int);
    assert(rest == trim_start(s@));
    assert(s@.subrange(from as int, to as int) == rest);
    while from < to && is_white_space(chars[to - 1])
        invariant
            chars@ == s@,
            from <= to <= chars.len(),
            trim_end(s@.subrange(from as int, to as int)) == trim_end(rest),
        decreases to - from,
    {
        let ghost part = s@.subrange(from as int, to as int);
        assert(part.drop_last() == s@.subrange(from as int, to - 1));
        to = to - 1;
    }
    s.substring_char(from, to)
}

/// Splits `s` into its words.
pub fn split_words<'a>(s: &'a str) -> (r: Vec<&'a str>)
    ensures
        r@.map_values(|w: &str| w@) == words(s@),
{
    let chars = chars_of(s);
    let mut r: Vec<&'a str> = Vec::new();
    let mut i: usize = 0;
    let ghost view = |w: &str| w@;
    assert(s@.skip(0) == s@);
    assert(r@.map_values(view) == Seq::<Seq<char>>::empty());
    while i < chars.len()
        invariant
            chars@ == s@,
            i <= chars.len(),
            view == |w: &str| w@,
            r@.map_values(view) + words(s@.skip(i as int)) == words(s@),
        decreases chars.len() - i,
    {
        let ghost rest = s@.skip(i as int);
        assert(rest[0] == s@[i as int]);
        if is_white_space(chars[i]) {
            assert(rest.skip(1) == s@.skip(i + 1));
            i = i + 1;
        } else {
            let start = i;
            while i < chars.len() && !is_white_space(chars[i])
                invariant
                    chars@ == s@,
                    start <= i <= chars.len(),
                    forall|j: int| start <= j < i ==> !is_space(#[trigger] s@[j]),
                decreases chars.len() - i,
            {
                i = i + 1;
            }
            let word = s.substring_char(start, i);
            let ghost before = r@;
            proof {
                let n = i - start;
                assert forall|j: int| 0 <= j < n implies !is_space(#[trigger] rest[j]) by {
                    assert(!is_space(s@[start + j]));
                }
                lemma_word_len_at(rest, n);
                lemma_word_len(rest);
                assert(rest.take(n) == word@);
                assert(rest.skip(n) == s@.skip(i as int));
            }
            r.push(word);
            assert(r@.map_values(view) == before.map_values(view) + seq![word@]);
            assert(before.map_values(view) + (seq![word@] + words(s@.skip(i as int))) == r@.map_values(
                view,
            ) + words(s@.skip(i as int)));
        }
    }
    assert(s@.skip(i as int) == Seq::<char>::empty());
    assert(r@.map_values(view) + Seq::<Seq<char>>::empty() == r@.map_values(view));
    r
}

/// Splits `s` at every `sep`.
pub fn split_at_each<'a>(s: &'a str, sep: char) -> (r: Vec<&'a str>)
    ensures
        r@.map_values(|w: &str| w@) == split(s@, sep),
        r@.len() >= 1,
{
    let chars = chars_of(s);
    let mut r: Vec<&'a str> = Vec::new();
    let mut start: usize = 0;
    let mut i: usize = 0;
    let ghost view = |w: &str| w@;
    assert(s@.skip(0) == s@);
    assert(r@.map_values(view) == Seq::<Seq<char>>::empty());
    while i < chars.len()
        invariant
            chars@ == s@,
            start <= i <= chars.len(),
            view == |w: &str| w@,
            forall|j: int| start <= j < i ==> #[trigger] s@[j] != sep,
            r@.map_values(view) + split(s@.skip(start as int), sep) == split(s@, sep),
        decreases chars.len() - i,
    {
        if chars[i] == sep {
            let piece = s.substring_char(start, i);
            let ghost before = r@;
            let ghost rest = s@.skip(start as int);
            proof {
                let n = i - start;
                assert forall|j: int| 0 <= j < n implies #[trigger] rest[j] != sep by {
                    assert(s@[start + j] != sep);
                }
                lemma_find_at(rest, sep, n);
                assert(rest.take(n) == piece@);
                assert(rest.skip(n + 1) == s@.skip(i + 1));
            }
            r.push(piece);
            start = i + 1;
            assert(r@.map_values(view) == before.map_values(view) + seq![piece@]);
            assert(before.map_values(view) + (seq![piece@] + split(s@.skip(start as int), sep))
                == r@.map_values(view) + split(s@.skip(start as int), sep));
        }
        i = i + 1;
    }
    let piece = s.substring_char(start, i);
    let ghost before = r@;
    proof {
        let rest = s@.skip(start as int);
        assert forall|j: int| 0 <= j < rest.len() implies #[trigger] rest[j] != sep by {
            assert(s@[start + j] != sep);
        }
        lemma_find_at(rest, sep, rest.len() as int);
        assert(rest == piece@);
    }
    r.push(piece);
    assert(r@.map_values(view) == before.map_values(view) + seq![piece@]);
    r
}

/// Splits `s` at the first `sep`.
pub fn split_at_first<'a>(s: &'a str, sep: char) -> (r: Option<(&'a str, &'a str)>)
    ensures
        match r {
            Some((a, b)) => split_once(s@, sep) == Some((a@, b@)),
            None => split_once(s@, sep) is None,
        },
{
    let chars = chars_of(s);
    let mut i: usize = 0;
    while i < chars.len() && chars[i] != sep
        invariant
            chars@ == s@,
            i <= chars.len(),
            forall|j: int| 0 <= j < i ==> #[trigger] s@[j] != sep,
        decreases chars.len() - i,
    {
        i = i + 1;
    }
    proof {
        lemma_find_at(s@, sep, i as int);
    }
    if i < chars.len() {
        let a = s.substring_char(0, i);
        let b = s.substring_char(i + 1, chars.len());
        assert(a@ == s@.take(i as int));
        assert(b@ == s@.skip(i + 1));
        Some((a, b))
    } else {
        None
    }
}

/// More digits write a number that is not smaller.
proof fn lemma_digits_grow(s: Seq<char>, n: int)
    requires
        0 <= n <= s.len(),
    ensures
        digits_value(s.take(n)) <= digits_value(s),
    decreases s.len(),
{
    if n < s.len() {
        lemma_digits_grow(s.drop_last(), n);
        assert(s.drop_last().take(n) == s.take(n));
    } else {
        assert(s.take(n) == s);
    }
}

/// The digits that a text starts with, and what ends them.
pub proof fn lemma_digit_run(s: Seq<char>) -> (n: int)
    ensures
        n == digit_run(s),
        0 <= n <= s.len(),
        forall|i: int| 0 <= i < n ==> is_digit(#[trigger] s[i]),
        n == s.len() || !is_digit(s[n]),
    decreases s.len(),
{
    if s.len() > 0 && is_digit(s[0]) {
        let n = lemma_digit_run(s.skip(1));
        assert forall|i: int| 0 <= i < n + 1 implies is_digit(#[trigger] s[i]) by {
            if i > 0 {
                assert(is_digit(s.skip(1)[i - 1]));
            }
        }
        n + 1
    } else {
        0
    }
}

/// Reads the `u32` that `s` writes.
pub fn parse_u32(s: &str) -> (r: Result<u32, NumberProblem>)
    ensures
        r == number(s@),
{
    let chars = chars_of(s);
    if chars.len() == 0 {
        return Err(NumberProblem::Empty);
    }
    let from: usize = if chars[0] == '+' {
        1
    } else {
        0
    };
    let ghost digits = s@.skip(from as int);
    let ghost n = lemma_digit_run(digits);
    assert(s@.skip(0) == s@);
    let mut value: u32 = 0;
    let mut i: usize = from;
    assert(digits.take(0) == Seq::<char>::empty());
    while i < chars.len()
        invariant
            chars@ == s@,
            chars@.len() > 0,
            from <= i <= chars.len(),
            digits == s@.skip(from as int),
            digits == (if s@.len() > 0 && s@[0] == '+' {
                s@.skip(1)
            } else {
                s@
            }),
            n == digit_run(digits),
            0 <= n <= digits.len(),
            n == digits.len() || !is_digit(digits[n]),
            i - from <= n,
            forall|j: int| 0 <= j < n ==> is_digit(#[trigger] digits[j]),
            value == digits_value(digits.take(i - from)),
        decreases chars.len() - i,
    {
        let c = chars[i];
        assert(digits[i - from] == c);
        if !('0' <= c && c <= '9') {
            assert(!is_digit(digits[i - from]));
            assert(n == i - from);
            return Err(NumberProblem::InvalidDigit);
        }
        let d: u32 = c as u32 - '0' as u32;
        proof {
            assert(is_digit(digits[i - from]));
            assert(i - from < n);
            let run = digits.take(n);
            assert(digits.take(i - from + 1).drop_last() == digits.take(i - from));
            assert(digits.take(i - from + 1).last() == c);
            assert(digits_value(digits.take(i - from + 1)) == value * 10 + d);
            lemma_digits_grow(run, i - from + 1);
            assert(run.take(i - from + 1) == digits.take(i - from + 1));
        }
        let next: u64 = value as u64 * 10 + d as u64;
        if next > u32::MAX as u64 {
            return Err(NumberProblem::TooLarge);
        }
        value = next as u32;
        i = i + 1;
    }
    assert(n == digits.len());
    assert(digits.take(i - from) == digits);
    if from == chars.len() {
        return Err(NumberProblem::InvalidDigit);
    }
    Ok(value)
}

/// No text precedes itself, and of two different texts one precedes the other.
pub proof fn lemma_precedes_total(a: Seq<char>, b: Seq<char>)
    ensures
        a == b ==> !precedes(a, b),
        a != b ==> precedes(a, b) != precedes(b, a),
    decreases a.len(),
{
    if a.len() > 0 && b.len() > 0 {
        lemma_precedes_total(a.skip(1), b.skip(1));
        if a[0] == b[0] && a.skip(1) == b.skip(1) {
            assert(a == seq![a[0]] + a.skip(1));
            assert(b == seq![b[0]] + b.skip(1));
        }
    } else if a.len() == 0 && b.len() == 0 {
        assert(a == b);
    }
}

pub proof fn lemma_precedes_transitive(a: Seq<char>, b: Seq<char>, c: Seq<char>)
    requires
        precedes(a, b),
        precedes(b, c),
    ensures
        precedes(a, c),
    decreases a.len(),
{
    if a.len() > 0 && b.len() > 0 && c.len() > 0 && a[0] == b[0] && b[0] == c[0] {
        lemma_precedes_transitive(a.skip(1), b.skip(1), c.skip(1));
    }
}

/// Whether `a` comes before `b`.
pub fn comes_before(a: &str, b: &str) -> (r: bool)
    ensures
        r == precedes(a@, b@),
{
    let x = chars_of(a);
    let y = chars_of(b);
    let mut i: usize = 0;
    assert(a@.skip(0) == a@ && b@.skip(0) == b@);
    while i < x.len() && i < y.len() && x[i] == y[i]
        invariant
            x@ == a@,
            y@ == b@,
            i <= x.len(),
            i <= y.len(),
            precedes(a@, b@) == precedes(a@.skip(i as int), b@.skip(i as int)),
        decreases x.len() - i,
    {
        assert(a@.skip(i as int).skip(1) == a@.skip(i + 1));
        assert(b@.skip(i as int).skip(1) == b@.skip(i + 1));
        i = i + 1;
    }
    if i == y.len() {
        false
    } else if i == x.len() {
        true
    } else {
        x[i] < y[i]
    }
}

fn digit_str(d: u64) -> (r: &'static str)
    requires
        d < 10,
    ensures
        r@ == seq![digit_char(d as nat)],
{
    proof {
        reveal_strlit("0");
        reveal_strlit("1");
        reveal_strlit("2");
        reveal_strlit("3");
        reveal_strlit("4");
        reveal_strlit("5");
        reveal_strlit("6");
        reveal_strlit("7");
        reveal_strlit("8");
        reveal_strlit("9");
    }
    if d == 0 {
        "0"
    } else if d == 1 {
        "1"
    } else if d == 2 {
        "2"
    } else if d == 3 {
        "3"
    } else if d == 4 {
        "4"
    } else if d == 5 {
        "5"
    } else if d == 6 {
        "6"
    } else if d == 7 {
        "7"
    } else if d == 8 {
        "8"
    } else {
        "9"
    }
}

/// Writes `n` at the end of `out`.
pub fn push_decimal(out: &mut String, n: u64)
    ensures
        final(out)@ == old(out)@ + decimal(n as nat),
    decreases n,
{
    if n >= 10 {
        push_decimal(out, n / 10);
    }
    out.append(digit_str(n % 10));
}

/// Writes `i` at the end of `out`.
pub fn push_integer(out: &mut String, i: i64)
    ensures
        final(out)@ == old(out)@ + integer(i as int),
{
    if i < 0 {
        proof {
            reveal_strlit("-");
            assert("-"@ == seq!['-']);
        }
        out.append("-");
        push_decimal(out, (-(i + 1)) as u64 + 1);
    } else {
        push_decimal(out, i as u64);
    }
}

/// `before`, then `inner`, then `after`.
pub fn wrap(before: &str, inner: &str, after: &str) -> (r: String)
    ensures
        r@ == before@ + inner@ + after@,
{
    let mut r = before.to_owned();
    r.append(inner);
    r.append(after);
    r
}

/// What is written reads back.
pub proof fn law_decimal_reads_back(n: nat)
    ensures
        decimal(n).len() > 0,
        all_digits(decimal(n)),
        digits_value(decimal(n)) == n,
    decreases n,
{
    if n < 10 {
        assert(decimal(n).drop_last() == Seq::<char>::empty());
        assert(digits_value(Seq::<char>::empty()) == 0);
        assert(digit_value(decimal(n).last()) == n);
    } else {
        law_decimal_reads_back(n / 10);
        let s = decimal(n / 10);
        assert(decimal(n).drop_last() == s);
        assert(digit_value(decimal(n).last()) == n % 10);
        assert forall|i: int| 0 <= i < decimal(n).len() implies is_digit(#[trigger] decimal(n)[i]) by {
            if i < s.len() {
                assert(is_digit(s[i]));
            }
        }
    }
}

} // verus!
