//! What holds of words, pieces, numbers and the order of texts.
use vstd::prelude::*;

use crate::text;
use crate::text::NumberProblem;

verus! {

/// A text without white space is one word, and the empty text is none.
pub proof fn law_word_alone(w: Seq<char>)
    requires
        forall|i: int| 0 <= i < w.len() ==> !text::is_space(#[trigger] w[i]),
    ensures
        text::words(w) == (if w.len() == 0 {
            Seq::<Seq<char>>::empty()
        } else {
            seq![w]
        }),
{
    if w.len() > 0 {
        text::lemma_word_len_at(w, w.len() as int);
        assert(w.take(w.len() as int) == w);
        assert(w.skip(w.len() as int) == Seq::<char>::empty());
        assert(text::words(Seq::<char>::empty()) == Seq::<Seq<char>>::empty());
    }
}

/// White space between two texts keeps their words apart, and adds none.
pub proof fn law_space_separates_words(a: Seq<char>, c: char, b: Seq<char>)
    requires
        text::is_space(c),
    ensures
        text::words(a.push(c) + b) == text::words(a) + text::words(b),
    decreases a.len(),
{
    let whole = a.push(c) + b;
    if a.len() == 0 {
        assert(whole[0] == c);
        assert(whole.skip(1) == b);
        assert(text::words(whole) == text::words(whole.skip(1)));
        assert(text::words(a) + text::words(b) == text::words(b));
    } else if text::is_space(a[0]) {
        assert(whole[0] == a[0]);
        assert(whole.skip(1) == a.skip(1).push(c) + b);
        assert(text::words(whole) == text::words(whole.skip(1)));
        law_space_separates_words(a.skip(1), c, b);
    } else {
        text::lemma_word_len(a);
        let n = lemma_word_end(a);
        assert(whole[0] == a[0]);
        assert forall|i: int| 0 <= i < n implies !text::is_space(#[trigger] whole[i]) by {
            assert(!text::is_space(a[i]));
        }
        if n < a.len() {
            assert(whole[n] == a[n]);
        } else {
            assert(whole[n] == c);
        }
        text::lemma_word_len_at(whole, n);
        assert(whole.take(n) == a.take(n));
        let word = seq![a.take(n)];
        assert(text::words(whole) == word + text::words(whole.skip(n)));
        assert(text::words(a) == word + text::words(a.skip(n)));
        if n < a.len() {
            assert(whole.skip(n) == a.skip(n).push(c) + b);
            law_space_separates_words(a.skip(n), c, b);
            assert(word + (text::words(a.skip(n)) + text::words(b)) == word + text::words(a.skip(n))
                + text::words(b));
        } else {
            assert(whole.skip(n)[0] == c);
            assert(whole.skip(n).skip(1) == b);
            assert(text::words(whole.skip(n)) == text::words(b));
            assert(a.skip(n) == Seq::<char>::empty());
            assert(text::words(Seq::<char>::empty()) == Seq::<Seq<char>>::empty());
            assert(word + Seq::<Seq<char>>::empty() + text::words(b) == word + text::words(b));
        }
    }
}

/// Where the first word ends.
proof fn lemma_word_end(s: Seq<char>) -> (n: int)
    ensures
        n == text::word_len(s),
        0 <= n <= s.len(),
        forall|i: int| 0 <= i < n ==> !text::is_space(#[trigger] s[i]),
        n == s.len() || text::is_space(s[n]),
    decreases s.len(),
{
    if s.len() > 0 && !text::is_space(s[0]) {
        let n = lemma_word_end(s.skip(1));
        assert forall|i: int| 0 <= i < n + 1 implies !text::is_space(#[trigger] s[i]) by {
            if i > 0 {
                assert(!text::is_space(s.skip(1)[i - 1]));
            }
        }
        n + 1
    } else {
        0
    }
}

/// A text without the separator is one piece.
pub proof fn law_piece_alone(s: Seq<char>, sep: char)
    requires
        forall|i: int| 0 <= i < s.len() ==> #[trigger] s[i] != sep,
    ensures
        text::split(s, sep) == seq![s],
        text::split_once(s, sep) is None,
{
    text::lemma_find_at(s, sep, s.len() as int);
}

/// Splitting two texts joined by the separator gives the pieces of both.
pub proof fn law_separator_separates_pieces(a: Seq<char>, b: Seq<char>, sep: char)
    ensures
        text::split(a.push(sep) + b, sep) == text::split(a, sep) + text::split(b, sep),
    decreases a.len(),
{
    let whole = a.push(sep) + b;
    let n = text::lemma_find(a, sep);
    assert forall|i: int| 0 <= i < n implies #[trigger] whole[i] != sep by {
        assert(a[i] != sep);
    }
    assert(whole[n] == sep);
    text::lemma_find_at(whole, sep, n);
    assert(whole.take(n) == a.take(n));
    if n < a.len() {
        assert(whole.skip(n + 1) == a.skip(n + 1).push(sep) + b);
        law_separator_separates_pieces(a.skip(n + 1), b, sep);
        assert(seq![a.take(n)] + (text::split(a.skip(n + 1), sep) + text::split(b, sep))
            == text::split(a, sep) + text::split(b, sep));
    } else {
        assert(whole.skip(n + 1) == b);
        assert(a.take(n) == a);
    }
}

/// Splitting once takes apart what stands around the first separator.
pub proof fn law_split_once_at_the_first(a: Seq<char>, b: Seq<char>, sep: char)
    requires
        forall|i: int| 0 <= i < a.len() ==> #[trigger] a[i] != sep,
    ensures
        text::split_once(a.push(sep) + b, sep) == Some((a, b)),
{
    let whole = a.push(sep) + b;
    let n = a.len() as int;
    assert forall|i: int| 0 <= i < n implies #[trigger] whole[i] != sep by {
        assert(a[i] != sep);
    }
    assert(whole[n] == sep);
    text::lemma_find_at(whole, sep, n);
    assert(whole.take(n) == a);
    assert(whole.skip(n + 1) == b);
}

/// What splitting once gives is what stands around the first separator.
pub proof fn law_split_once_undoes_join(s: Seq<char>, sep: char)
    ensures
        match text::split_once(s, sep) {
            Some((a, b)) => {
                &&& s == a.push(sep) + b
                &&& forall|i: int| 0 <= i < a.len() ==> #[trigger] a[i] != sep
            },
            None => forall|i: int| 0 <= i < s.len() ==> #[trigger] s[i] != sep,
        },
{
    let n = text::lemma_find(s, sep);
    if n < s.len() {
        let a = s.take(n);
        let b = s.skip(n + 1);
        assert(s == a.push(sep) + b);
        assert forall|i: int| 0 <= i < a.len() implies #[trigger] a[i] != sep by {
            assert(s[i] != sep);
        }
    }
}

/// A text that neither starts nor ends with white space is left as it is.
pub proof fn law_trimmed_text_stays(s: Seq<char>)
    requires
        s.len() > 0 ==> !text::is_space(s[0]) && !text::is_space(s.last()),
    ensures
        text::trim(s) == s,
{
}

/// White space at either end is taken away.
pub proof fn law_outer_space_is_trimmed(s: Seq<char>, c: char)
    requires
        text::is_space(c),
    ensures
        text::trim(s.push(c)) == text::trim(s),
        text::trim(seq![c] + s) == text::trim(s),
{
    assert((seq![c] + s).skip(1) == s);
    assert((seq![c] + s)[0] == c);
    lemma_trim_start_push(s, c);
    assert(text::trim_start(s).push(c).drop_last() == text::trim_start(s));
}

proof fn lemma_trim_start_push(s: Seq<char>, c: char)
    requires
        text::is_space(c),
    ensures
        text::trim_start(s).len() == 0 ==> text::trim_start(s.push(c)).len() == 0,
        text::trim_start(s).len() > 0 ==> text::trim_start(s.push(c)) == text::trim_start(s).push(
            c,
        ),
    decreases s.len(),
{
    let whole = s.push(c);
    if s.len() > 0 {
        assert(whole[0] == s[0]);
        if text::is_space(s[0]) {
            assert(whole.skip(1) == s.skip(1).push(c));
            lemma_trim_start_push(s.skip(1), c);
        }
    } else {
        assert(whole.skip(1).len() == 0);
        assert(text::trim_start(whole) == text::trim_start(whole.skip(1)));
    }
}

/// A number written in decimal is read as that number.
pub proof fn law_number_reads_decimal(n: nat)
    ensures
        text::number(text::decimal(n)) == (if n <= u32::MAX {
            Ok::<u32, NumberProblem>(n as u32)
        } else {
            Err(NumberProblem::TooLarge)
        }),
{
    text::law_decimal_reads_back(n);
    let s = text::decimal(n);
    assert(text::is_digit(s[0]));
    lemma_all_digits_run(s);
}

proof fn lemma_all_digits_run(s: Seq<char>)
    requires
        text::all_digits(s),
    ensures
        text::digit_run(s) == s.len(),
        s.take(text::digit_run(s)) == s,
{
    let n = text::lemma_digit_run(s);
    assert(n < s.len() ==> text::is_digit(s[n]));
    assert(s.take(s.len() as int) == s);
}

/// A plus sign in front of digits, and a zero in front of digits, change nothing.
pub proof fn law_plus_and_zeros_are_free(s: Seq<char>)
    requires
        s.len() > 0,
        text::all_digits(s),
    ensures
        text::number(seq!['+'] + s) == text::number(s),
        text::number(seq!['0'] + s) == text::number(s),
{
    let plus = seq!['+'] + s;
    let zero = seq!['0'] + s;
    assert(plus.skip(1) == s);
    assert(plus[0] == '+');
    assert(zero[0] == '0');
    assert(text::is_digit(s[0]));
    assert forall|i: int| 0 <= i < zero.len() implies text::is_digit(#[trigger] zero[i]) by {
        if i > 0 {
            assert(zero[i] == s[i - 1]);
        }
    }
    lemma_all_digits_run(s);
    lemma_all_digits_run(zero);
    lemma_leading_zero(s);
}

proof fn lemma_leading_zero(s: Seq<char>)
    ensures
        text::digits_value(seq!['0'] + s) == text::digits_value(s),
    decreases s.len(),
{
    let zero = seq!['0'] + s;
    if s.len() > 0 {
        assert(zero.drop_last() == seq!['0'] + s.drop_last());
        assert(zero.last() == s.last());
        lemma_leading_zero(s.drop_last());
    } else {
        assert(zero.drop_last() == Seq::<char>::empty());
        assert(text::digits_value(zero.drop_last()) == 0);
        assert(zero.last() == '0');
    }
}

/// Nothing but digits, with at most a plus sign in front, is read as a number.
pub proof fn law_only_digits_are_numbers(s: Seq<char>)
    requires
        text::number(s) is Ok,
    ensures
        s.len() > 0,
        s[0] == '+' || ('0' <= s[0] <= '9'),
        s[0] == '+' ==> s.len() > 1,
        forall|i: int| 1 <= i < s.len() ==> '0' <= #[trigger] s[i] <= '9',
{
    let digits = if s[0] == '+' {
        s.skip(1)
    } else {
        s
    };
    let n = text::lemma_digit_run(digits);
    assert forall|i: int| 1 <= i < s.len() implies '0' <= #[trigger] s[i] <= '9' by {
        if s[0] == '+' {
            assert(text::is_digit(digits[i - 1]));
        } else {
            assert(text::is_digit(digits[i]));
        }
    }
    assert(text::is_digit(digits[0]));
}

/// Of two texts, that one comes first which is the shorter beginning of the other, or has the
/// lower character where they first differ.
pub proof fn law_texts_are_ordered_by_the_first_difference(
    common: Seq<char>,
    a: Seq<char>,
    b: Seq<char>,
)
    requires
        a.len() > 0 && b.len() > 0 ==> a[0] != b[0],
    ensures
        text::precedes(common + a, common + b) == (b.len() > 0 && (a.len() == 0 || a[0] < b[0])),
    decreases common.len(),
{
    if common.len() == 0 {
        assert(common + a == a);
        assert(common + b == b);
    } else {
        assert((common + a)[0] == common[0] && (common + b)[0] == common[0]);
        assert((common + a).skip(1) == common.skip(1) + a);
        assert((common + b).skip(1) == common.skip(1) + b);
        law_texts_are_ordered_by_the_first_difference(common.skip(1), a, b);
    }
}

/// An integer is written as its digits, with a minus sign where it is negative.
pub proof fn law_integer_reads_back(i: int)
    ensures
        i >= 0 ==> text::all_digits(text::integer(i)) && text::digits_value(text::integer(i)) == i,
        i < 0 ==> text::integer(i)[0] == '-' && text::digits_value(text::integer(i).skip(1)) == -i
            && text::all_digits(text::integer(i).skip(1)),
{
    if i < 0 {
        text::law_decimal_reads_back((-i) as nat);
        assert(text::integer(i).skip(1) == text::decimal((-i) as nat));
    } else {
        text::law_decimal_reads_back(i as nat);
    }
}

} // verus!
