//! The proleptic Gregorian calendar: which dates exist, how they are numbered,
//! and why a day number names exactly one of them.
use vstd::prelude::*;

verus! {

/// A calendar date. Year 0 is 1 BCE.
pub struct Date {
    pub year: int,
    pub month: int,
    pub day: int,
}

/// Days from 0001-01-01 to 1970-01-01.
pub open spec fn epoch_offset() -> int {
    719162
}

pub open spec fn is_leap_year(year: int) -> bool {
    year % 4 == 0 && (year % 100 != 0 || year % 400 == 0)
}

pub open spec fn days_in_month(year: int, month: int) -> int {
    if month == 2 {
        if is_leap_year(year) {
            29
        } else {
            28
        }
    } else if month == 4 || month == 6 || month == 9 || month == 11 {
        30
    } else {
        31
    }
}

/// Days from 0001-01-01 to the first of January of `year`.
pub open spec fn days_before_year(year: int) -> int {
    365 * (year - 1) + (year - 1) / 4 - (year - 1) / 100 + (year - 1) / 400
}

/// Days from the first of January to the first of `month`.
pub open spec fn days_before_month(year: int, month: int) -> int
    decreases month,
{
    if month <= 1 {
        0
    } else {
        days_before_month(year, month - 1) + days_in_month(year, month - 1)
    }
}

impl Date {
    pub open spec fn valid(self) -> bool {
        &&& 1 <= self.month <= 12
        &&& 1 <= self.day <= days_in_month(self.year, self.month)
    }

    /// Days since 1970-01-01.
    pub open spec fn number(self) -> int {
        days_before_year(self.year) + days_before_month(self.year, self.month) + self.day - 1
            - epoch_offset()
    }
}

/// The date with day number `number`.
pub open spec fn date_of(number: int) -> Date {
    choose|date: Date| date.valid() && #[trigger] date.number() == number
}

/// The day of the week with day number `number`, counted from Sunday:
/// 1970-01-01 was a Thursday.
pub open spec fn weekday_of(number: int) -> int {
    (number + 4) % 7
}

/// Number of the first day of the month that lies `index` months after January of year 0.
pub open spec fn month_start(index: int) -> int {
    Date { year: index / 12, month: index % 12 + 1, day: 1 }.number()
}

/// Months after January of year 0.
pub open spec fn month_index(date: Date) -> int {
    date.year * 12 + date.month - 1
}

/// Days from the first of January to the first of December.
proof fn lemma_days_before_december(year: int)
    ensures
        days_before_month(year, 12) == (if is_leap_year(year) {
            335int
        } else {
            334int
        }),
{
    assert(days_before_month(year, 1) == 0);
    assert(days_before_month(year, 2) == 31);
    let feb = days_in_month(year, 2);
    assert(days_before_month(year, 3) == 31 + feb);
    assert(days_before_month(year, 4) == 62 + feb);
    assert(days_before_month(year, 5) == 92 + feb);
    assert(days_before_month(year, 6) == 123 + feb);
    assert(days_before_month(year, 7) == 153 + feb);
    assert(days_before_month(year, 8) == 184 + feb);
    assert(days_before_month(year, 9) == 215 + feb);
    assert(days_before_month(year, 10) == 245 + feb);
    assert(days_before_month(year, 11) == 276 + feb);
    assert(days_before_month(year, 12) == 306 + feb);
}

/// `n / k` grows by one exactly at the multiples of `k`.
proof fn lemma_div_step(n: int, k: int)
    requires
        k == 4 || k == 100 || k == 400,
    ensures
        n / k - (n - 1) / k == (if n % k == 0 {
            1int
        } else {
            0int
        }),
{
}

/// A year has 365 days, a leap year 366.
pub proof fn lemma_year_length(year: int)
    ensures
        days_before_year(year + 1) - days_before_year(year) == (if is_leap_year(year) {
            366int
        } else {
            365int
        }),
        days_before_month(year, 12) + 31 == days_before_year(year + 1) - days_before_year(year),
{
    lemma_days_before_december(year);
    lemma_div_step(year, 4);
    lemma_div_step(year, 100);
    lemma_div_step(year, 400);
    assert(year % 400 == 0 ==> year % 100 == 0);
    assert(year % 100 == 0 ==> year % 4 == 0);
}

/// The first of a month follows the last of the month before.
pub proof fn lemma_month_length(index: int)
    ensures
        month_start(index + 1) == month_start(index) + days_in_month(index / 12, index % 12 + 1),
{
    let year = index / 12;
    let month = index % 12 + 1;
    if month == 12 {
        lemma_year_length(year);
        assert((index + 1) / 12 == year + 1 && (index + 1) % 12 == 0);
    } else {
        assert((index + 1) / 12 == year && (index + 1) % 12 == month);
    }
}

/// Months start in order, at least 28 days apart.
pub proof fn lemma_month_starts_ordered(i: int, j: int)
    requires
        i < j,
    ensures
        month_start(i + 1) <= month_start(j),
    decreases j - i,
{
    if i + 1 < j {
        lemma_month_starts_ordered(i, j - 1);
        lemma_month_length(j - 1);
    }
}

/// A date lies within its month.
pub proof fn lemma_date_in_month(date: Date)
    requires
        date.valid(),
    ensures
        month_index(date) / 12 == date.year,
        month_index(date) % 12 + 1 == date.month,
        date.number() == month_start(month_index(date)) + date.day - 1,
        month_start(month_index(date)) <= date.number() < month_start(month_index(date) + 1),
{
    lemma_month_length(month_index(date));
}

/// No two dates share a day number.
pub proof fn lemma_date_unique(a: Date, b: Date)
    requires
        a.valid(),
        b.valid(),
        a.number() == b.number(),
    ensures
        a == b,
{
    lemma_date_in_month(a);
    lemma_date_in_month(b);
    if month_index(a) < month_index(b) {
        lemma_month_starts_ordered(month_index(a), month_index(b));
    } else if month_index(b) < month_index(a) {
        lemma_month_starts_ordered(month_index(b), month_index(a));
    }
}

/// `date_of` undoes `number`.
pub proof fn lemma_date_of(date: Date)
    requires
        date.valid(),
    ensures
        date_of(date.number()) == date,
{
    lemma_date_unique(date, date_of(date.number()));
}

/// Every day that lies in a month has that month's date.
pub proof fn lemma_date_of_within_month(date: Date, number: int)
    requires
        date.valid(),
        month_start(month_index(date)) <= number < month_start(month_index(date) + 1),
    ensures
        date_of(number) == (Date {
            year: date.year,
            month: date.month,
            day: number - month_start(month_index(date)) + 1,
        }),
{
    lemma_date_in_month(date);
    lemma_month_length(month_index(date));
    let d = Date {
        year: date.year,
        month: date.month,
        day: number - month_start(month_index(date)) + 1,
    };
    assert(month_index(d) == month_index(date));
    lemma_date_in_month(d);
    lemma_date_of(d);
}

/// Going back `n` months goes back at least `n` days.
proof fn lemma_months_back(index: int, n: nat)
    ensures
        month_start(index - n) <= month_start(index) - n,
    decreases n,
{
    if n > 0 {
        lemma_months_back(index, (n - 1) as nat);
        lemma_month_length(index - n);
    }
}

/// A day at or after the start of some month lies in a month.
proof fn lemma_month_from(number: int, index: int) -> (r: int)
    requires
        month_start(index) <= number,
    ensures
        month_start(r) <= number < month_start(r + 1),
    decreases number - month_start(index),
{
    lemma_month_length(index);
    if number < month_start(index + 1) {
        index
    } else {
        lemma_month_from(number, index + 1)
    }
}

/// Every day number is that of a date of the calendar.
pub proof fn law_every_day_has_a_date(number: int)
    ensures
        date_of(number).valid(),
        date_of(number).number() == number,
{
    let back = if number < month_start(0) {
        (month_start(0) - number) as nat
    } else {
        0
    };
    lemma_months_back(0, back);
    let index = lemma_month_from(number, 0 - back);
    let date = Date {
        year: index / 12,
        month: index % 12 + 1,
        day: number - month_start(index) + 1,
    };
    lemma_month_length(index);
    assert(date.valid());
    assert(month_index(date) == index);
    lemma_date_in_month(date);
    assert(date.number() == number);
}

} // verus!
