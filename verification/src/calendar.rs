//! How the calendar runs on, and how moments are written.

use crate::date::{clock, days_before_month, month_len, two_digits, DateView, MinuteView};
use crate::fields::lemma_decimal;
use crate::text::{all_digits, decimal, digits_value, zero_padded};
use vstd::prelude::*;

verus! {

/// The date after a date: the next day of the month, else the first of the next month, else the first
/// of January.
pub open spec fn is_next_date(date: DateView, next: DateView) -> bool {
    let day = DateView { day: date.day + 1, ..date };
    let month = DateView { month: date.month + 1, day: 1, ..date };
    let year = DateView { year: date.year + 1, month: 1, day: 1 };
    next == if day.valid() {
        day
    } else if month.valid() {
        month
    } else {
        year
    }
}

proof fn lemma_year_len(year: int)
    ensures
        days_before_month(year, 12) + 31 == if month_len(year, 2) == 29 {
            366int
        } else {
            365
        },
{
    reveal_with_fuel(days_before_month, 13);
}

proof fn lemma_new_year(year: int)
    ensures
        crate::date::days_before_year(year + 1) == crate::date::days_before_year(year)
            + days_before_month(year, 12) + 31,
{
    lemma_year_len(year);
    let y = year - 1;
    assert((y + 1) / 4 == y / 4 + if year % 4 == 0 {
        1int
    } else {
        0
    });
    assert((y + 1) / 100 == y / 100 + if year % 100 == 0 {
        1int
    } else {
        0
    });
    assert((y + 1) / 400 == y / 400 + if year % 400 == 0 {
        1int
    } else {
        0
    });
}

/// Days are numbered one after the other through months and years, and so are the days of the week.
pub proof fn days_are_numbered_in_turn(date: DateView, next: DateView)
    requires
        date.valid(),
        is_next_date(date, next),
    ensures
        next.day_number() == date.day_number() + 1,
        next.weekday() == if date.weekday() == 6 {
            0
        } else {
            date.weekday() + 1
        },
{
    lemma_new_year(date.year);
    assert(days_before_month(date.year, 1) == 0);
    assert(days_before_month(date.year + 1, 1) == 0);
    assert(days_before_month(date.year, date.month + 1) == days_before_month(date.year, date.month)
        + month_len(date.year, date.month));
}

proof fn lemma_same_months(year: int, month: int)
    ensures
        days_before_month(year + 400, month) == days_before_month(year, month),
    decreases month,
{
    assert((year + 400) % 400 == year % 400 && (year + 400) % 100 == year % 100 && (year + 400) % 4
        == year % 4);
    if month > 1 {
        lemma_same_months(year, month - 1);
    }
}

/// The calendar begins again after 400 years, which have 146097 days, whole weeks.
pub proof fn calendar_begins_again_after_400_years(date: DateView)
    ensures
        ({
            let later = DateView { year: date.year + 400, ..date };
            &&& later.day_number() == date.day_number() + 146_097
            &&& later.weekday() == date.weekday()
        }),
{
    let y = date.year - 1;
    assert((y + 400) / 400 == y / 400 + 1 && (y + 400) / 100 == y / 100 + 4 && (y + 400) / 4 == y / 4
        + 100);
    lemma_same_months(date.year, date.month);
}

proof fn lemma_two_digits(n: int)
    requires
        0 <= n < 100,
    ensures
        two_digits(n).len() == 2,
        all_digits(two_digits(n)),
        digits_value(two_digits(n)) == n,
{
    lemma_decimal(n as nat);
    let digits = decimal(n as nat);
    reveal_with_fuel(decimal, 3);
    if n < 10 {
        let padded = zero_padded(digits, 2);
        let zero: Seq<char> = seq!['0'];
        assert(padded =~= zero + digits);
        assert(padded.drop_last() =~= zero);
        assert(zero.drop_last() =~= seq![]);
        assert(digits.drop_last() =~= seq![]);
        reveal_with_fuel(digits_value, 3);
    }
}

/// A moment is written as its hour and its minute in two digits each, with a colon between them.
pub proof fn clock_is_read_as_written(moment: MinuteView)
    requires
        0 <= moment.hour < 24,
        0 <= moment.minute < 60,
    ensures
        clock(moment).len() == 5,
        clock(moment)[2] == ':',
        all_digits(clock(moment).take(2)),
        digits_value(clock(moment).take(2)) == moment.hour,
        all_digits(clock(moment).skip(3)),
        digits_value(clock(moment).skip(3)) == moment.minute,
{
    reveal_strlit(":");
    lemma_two_digits(moment.hour);
    lemma_two_digits(moment.minute);
    assert(clock(moment).take(2) =~= two_digits(moment.hour));
    assert(clock(moment).skip(3) =~= two_digits(moment.minute));
}

} // verus!
