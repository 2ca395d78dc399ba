//! Calendar dates of the proleptic Gregorian calendar.

use crate::text::{concat3, decimal, decimal_text, zero_pad, zero_padded};
use chrono::{DateTime, Datelike, NaiveDate, TimeDelta, Timelike};
use vstd::prelude::*;

verus! {

/// The first year that a date can lie in.
pub const MIN_YEAR: i32 = -262_143;

/// The last year that a date can lie in.
pub const MAX_YEAR: i32 = 262_142;

/// The calendar fields of a date.
pub struct DateView {
    pub year: int,
    pub month: int,
    pub day: int,
}

/// Whether `year` has a 29 February.
pub open spec fn leap_year(year: int) -> bool {
    year % 4 == 0 && (year % 100 != 0 || year % 400 == 0)
}

/// Whether `year` has a 29 February.
#[verifier::spinoff_prover]
fn is_leap_year(year: i32) -> (r: bool)
    requires
        MIN_YEAR <= year <= MAX_YEAR,
    ensures
        r == leap_year(year as int),
{
    // A multiple of 400 years later the calendar is the same.
    let positive: i32 = year + 400_000;
    assert(400_000int == 400 * 1_000 && 400_000int == 100 * 4_000 && 400_000int == 4 * 100_000);
    assert((year + 400_000) % 4 == (year as int) % 4);
    assert((year + 400_000) % 100 == (year as int) % 100);
    assert((year + 400_000) % 400 == (year as int) % 400);
    positive % 4 == 0 && (positive % 100 != 0 || positive % 400 == 0)
}

/// How many days a month has.
pub open spec fn month_len(year: int, month: int) -> int {
    if month == 2 {
        if leap_year(year) {
            29
        } else {
            28
        }
    } else if month == 4 || month == 6 || month == 9 || month == 11 {
        30
    } else {
        31
    }
}

/// How many days of a year lie before the first of `month`.
pub open spec fn days_before_month(year: int, month: int) -> int
    decreases month,
{
    if month <= 1 {
        0
    } else {
        days_before_month(year, month - 1) + month_len(year, month - 1)
    }
}

/// How many days of the years 1 to `year - 1` lie before 1 January of `year`; negative before
/// year 1.
pub open spec fn days_before_year(year: int) -> int {
    365 * (year - 1) + (year - 1) / 4 - (year - 1) / 100 + (year - 1) / 400
}

impl DateView {
    /// Whether the fields name a day of the calendar.
    pub open spec fn valid(self) -> bool {
        &&& MIN_YEAR <= self.year <= MAX_YEAR
        &&& 1 <= self.month <= 12
        &&& 1 <= self.day <= month_len(self.year, self.month)
    }

    /// The number of the day, where 1 January of year 1 is day 1.
    pub open spec fn day_number(self) -> int {
        days_before_year(self.year) + days_before_month(self.year, self.month) + self.day
    }

    /// The days since the last Monday: 0 on Monday, 6 on Sunday.
    pub open spec fn weekday(self) -> int {
        (self.day_number() - 1) % 7
    }

    /// Whether this date comes before `other`.
    pub open spec fn before(self, other: DateView) -> bool {
        ||| self.year < other.year
        ||| self.year == other.year && self.month < other.month
        ||| self.year == other.year && self.month == other.month && self.day < other.day
    }
}

/// The number of the last day that a date can name.
pub open spec fn last_day_number() -> int {
    DateView { year: MAX_YEAR as int, month: 12, day: 31 }.day_number()
}

/// The number of the first day that a date can name.
pub open spec fn first_day_number() -> int {
    DateView { year: MIN_YEAR as int, month: 1, day: 1 }.day_number()
}

/// A calendar date.
#[derive(Clone, Copy, Debug, PartialEq, Eq, PartialOrd, Ord, Hash, Structural)]
pub struct Date {
    year: i32,
    month: u32,
    day: u32,
}

impl View for Date {
    type V = DateView;

    closed spec fn view(&self) -> DateView {
        DateView { year: self.year as int, month: self.month as int, day: self.day as int }
    }
}

impl Date {
    #[verifier::type_invariant]
    spec fn on_calendar(self) -> bool {
        self@.valid()
    }

    /// The date with these fields, where they name a day of the calendar.
    pub fn from_ymd_opt(year: i32, month: u32, day: u32) -> (r: Option<Date>)
        ensures
            match r {
                Some(date) => date@ == (DateView {
                    year: year as int,
                    month: month as int,
                    day: day as int,
                }) && date@.valid(),
                None => !(DateView { year: year as int, month: month as int, day: day as int }).valid(),
            },
    {
        if year < MIN_YEAR || MAX_YEAR < year || month < 1 || 12 < month || day < 1 {
            return None;
        }
        let len: u32 = if month == 2 {
            if is_leap_year(year) { 29 } else { 28 }
        } else if month == 4 || month == 6 || month == 9 || month == 11 {
            30
        } else {
            31
        };
        if len < day {
            return None;
        }
        Some(Date { year, month, day })
    }

    /// The year.
    pub fn year(&self) -> (r: i32)
        ensures
            r == self@.year,
    {
        self.year
    }

    /// The month, from 1 to 12.
    pub fn month(&self) -> (r: u32)
        ensures
            r == self@.month,
    {
        self.month
    }

    /// The day of the month, from 1.
    pub fn day(&self) -> (r: u32)
        ensures
            r == self@.day,
    {
        self.day
    }

    /// The fields of a date name a day of the calendar.
    pub fn check(&self)
        ensures
            self@.valid(),
    {
        proof {
            use_type_invariant(self);
        }
    }

    /// Whether the two dates are the same day.
    pub fn same(&self, other: &Date) -> (r: bool)
        ensures
            r == (self@ == other@),
    {
        self.year == other.year && self.month == other.month && self.day == other.day
    }

    /// Whether this date comes before `other`.
    pub fn is_before(&self, other: &Date) -> (r: bool)
        ensures
            r == self@.before(other@),
    {
        self.year < other.year || (self.year == other.year && (self.month < other.month || (
        self.month == other.month && self.day < other.day)))
    }
}

#[verifier::spinoff_prover]
proof fn lemma_year_len(year: int)
    ensures
        days_before_month(year, 13) == if leap_year(year) {
            366int
        } else {
            365
        },
{
    reveal_with_fuel(days_before_month, 14);
}

#[verifier::spinoff_prover]
proof fn lemma_quotient_step(n: int, d: int)
    requires
        d > 0,
    ensures
        n / d - (n - 1) / d == if n % d == 0 {
            1int
        } else {
            0
        },
{
    vstd::arithmetic::div_mod::lemma_fundamental_div_mod(n, d);
    let q = n / d;
    let r = n % d;
    if r == 0 {
        assert(n - 1 == (q - 1) * d + (d - 1)) by (nonlinear_arith)
            requires
                n == d * q,
        ;
        vstd::arithmetic::div_mod::lemma_fundamental_div_mod_converse(n - 1, d, q - 1, d - 1);
    } else {
        assert(n - 1 == q * d + (r - 1)) by (nonlinear_arith)
            requires
                n == d * q + r,
        ;
        vstd::arithmetic::div_mod::lemma_fundamental_div_mod_converse(n - 1, d, q, r - 1);
    }
}

#[verifier::spinoff_prover]
proof fn lemma_year_step(year: int)
    ensures
        days_before_year(year + 1) == days_before_year(year) + days_before_month(year, 13),
{
    lemma_year_len(year);
    lemma_quotient_step(year, 4);
    lemma_quotient_step(year, 100);
    lemma_quotient_step(year, 400);
    assert(year % 400 == 0 ==> year % 100 == 0);
    assert(year % 100 == 0 ==> year % 4 == 0);
}

proof fn lemma_years_grow(a: int, b: int)
    requires
        a <= b,
    ensures
        days_before_year(a) <= days_before_year(b),
    decreases b - a,
{
    if a < b {
        lemma_years_grow(a, b - 1);
        lemma_year_step(b - 1);
        lemma_months_grow(b - 1, 1, 13);
    }
}

proof fn lemma_months_grow(year: int, a: int, b: int)
    requires
        1 <= a <= b <= 13,
    ensures
        days_before_month(year, a) <= days_before_month(year, b),
        a < b ==> days_before_month(year, a) + month_len(year, a) <= days_before_month(year, b),
    decreases b - a,
{
    if a < b {
        lemma_months_grow(year, a, b - 1);
    }
}

proof fn lemma_before_in_numbers(a: DateView, b: DateView)
    requires
        a.valid(),
        b.valid(),
        a.before(b),
    ensures
        a.day_number() < b.day_number(),
{
    lemma_months_grow(a.year, a.month, 13);
    lemma_months_grow(b.year, 1, b.month);
    if a.year < b.year {
        lemma_year_step(a.year);
        lemma_years_grow(a.year + 1, b.year);
    } else if a.month < b.month {
        lemma_months_grow(a.year, a.month, b.month);
    }
}

/// Dates are ordered as their day numbers are, and a day number names one date.
pub proof fn dates_are_ordered_by_day_number(a: DateView, b: DateView)
    requires
        a.valid(),
        b.valid(),
    ensures
        a.before(b) <==> a.day_number() < b.day_number(),
        a == b <==> a.day_number() == b.day_number(),
{
    if a.before(b) {
        lemma_before_in_numbers(a, b);
    } else if b.before(a) {
        lemma_before_in_numbers(b, a);
    } else {
        assert(a == b);
    }
}

/// The number of a date lies between the first and the last day number.
pub proof fn lemma_day_number_range(date: DateView)
    requires
        date.valid(),
    ensures
        first_day_number() <= date.day_number() <= last_day_number(),
{
    dates_are_ordered_by_day_number(
        DateView { year: MIN_YEAR as int, month: 1, day: 1 },
        date,
    );
    dates_are_ordered_by_day_number(
        date,
        DateView { year: MAX_YEAR as int, month: 12, day: 31 },
    );
}

/// The order of dates is transitive.
pub proof fn lemma_before_transitive(a: DateView, b: DateView, c: DateView)
    requires
        a.before(b),
        b.before(c),
    ensures
        a.before(c),
{
}

/// `chrono::NaiveDate::checked_add_signed` with `chrono::TimeDelta::try_days`: the date that many
/// days later (earlier, for a negative number), or nothing where no date of the calendar's range
/// has that day number. A number of days that no `TimeDelta` holds leads out of that range from
/// every date.
#[verifier::external_body]
pub(crate) fn add_days(date: Date, days: i64) -> (r: Option<Date>)
    requires
        date@.valid(),
    ensures
        match r {
            Some(d) => d@.valid() && d@.day_number() == date@.day_number() + days,
            None => !(first_day_number() <= date@.day_number() + days <= last_day_number()),
        },
{
    let date = NaiveDate::from_ymd_opt(date.year, date.month, date.day).unwrap();
    let sum = date.checked_add_signed(TimeDelta::try_days(days)?)?;
    Some(Date { year: sum.year(), month: sum.month(), day: sum.day() })
}

/// `chrono::NaiveDate::weekday`, counted in days from Monday.
#[verifier::external_body]
pub(crate) fn weekday(date: Date) -> (r: u32)
    requires
        date@.valid(),
    ensures
        r == date@.weekday(),
{
    NaiveDate::from_ymd_opt(date.year, date.month, date.day).unwrap().weekday().num_days_from_monday()
}

/// The year, month and day that a text gives under a `strftime` pattern; nothing where the text
/// does not fit the pattern or names no day of the calendar.
pub uninterp spec fn parsed_date(text: Seq<char>, pattern: Seq<char>) -> Option<(int, int, int)>;

/// `chrono::NaiveDate::parse_from_str`: the result is a function of the text and the pattern,
/// named `parsed_date`, and a date that it gives lies on the calendar.
#[verifier::external_body]
pub(crate) fn parse_from_str(text: &str, pattern: &str) -> (r: Option<Date>)
    ensures
        match r {
            Some(d) => d@.valid() && parsed_date(text@, pattern@) == Some(
                (d@.year, d@.month, d@.day),
            ),
            None => parsed_date(text@, pattern@) is None,
        },
{
    let date = NaiveDate::parse_from_str(text, pattern).ok()?;
    Some(Date { year: date.year(), month: date.month(), day: date.day() })
}

/// The date that `parsed_date` gives.
pub open spec fn date_in(text: Seq<char>, pattern: Seq<char>) -> Option<DateView> {
    match parsed_date(text, pattern) {
        Some((year, month, day)) => Some(DateView { year, month, day }),
        None => None,
    }
}

/// The view of a date that may be missing.
pub open spec fn date_of(date: Option<Date>) -> Option<DateView> {
    match date {
        Some(date) => Some(date@),
        None => None,
    }
}

/// A number in at least two digits.
pub open spec fn two_digits(n: int) -> Seq<char> {
    zero_padded(decimal(n as nat), 2)
}

/// A year: four digits from year 0 to 9999, else a sign and at least four digits.
pub open spec fn year_text(year: int) -> Seq<char> {
    if 0 <= year <= 9999 {
        zero_padded(decimal(year as nat), 4)
    } else if year < 0 {
        seq!['-'] + zero_padded(decimal((-year) as nat), 4)
    } else {
        seq!['+'] + zero_padded(decimal(year as nat), 4)
    }
}

/// A date as day, month and year between dots.
pub open spec fn dotted(date: DateView) -> Seq<char> {
    two_digits(date.day) + seq!['.'] + two_digits(date.month) + seq!['.'] + year_text(date.year)
}

/// A date as day and month with a dot between them.
pub open spec fn dotted_short(date: DateView) -> Seq<char> {
    two_digits(date.day) + seq!['.'] + two_digits(date.month)
}

/// A date as year, month and day between hyphens.
pub open spec fn hyphenated(date: DateView) -> Seq<char> {
    year_text(date.year) + seq!['-'] + two_digits(date.month) + seq!['-'] + two_digits(date.day)
}

/// `chrono::NaiveDate::format` with the three patterns in use: `%d` and `%m` are two digits, and
/// `%Y` is the year in four digits, with a sign outside the years 0 to 9999.
#[verifier::external_body]
pub(crate) fn format_date(date: Date, pattern: &str) -> (r: String)
    requires
        date@.valid(),
        pattern@ == "%d.%m.%Y"@ || pattern@ == "%d.%m"@ || pattern@ == "%Y-%m-%d"@,
    ensures
        pattern@ == "%d.%m.%Y"@ ==> r@ == dotted(date@),
        pattern@ == "%d.%m"@ ==> r@ == dotted_short(date@),
        pattern@ == "%Y-%m-%d"@ ==> r@ == hyphenated(date@),
{
    let date = NaiveDate::from_ymd_opt(date.year, date.month, date.day).unwrap();
    date.format(pattern).to_string()
}

impl Date {
    /// The date as day, month and year between dots.
    pub fn dotted(&self) -> (r: String)
        ensures
            r@ == dotted(self@),
    {
        self.check();
        format_date(*self, "%d.%m.%Y")
    }

    /// The date as day and month with a dot between them.
    pub fn dotted_short(&self) -> (r: String)
        ensures
            r@ == dotted_short(self@),
    {
        self.check();
        format_date(*self, "%d.%m")
    }

    /// The date as year, month and day between hyphens.
    pub fn hyphenated(&self) -> (r: String)
        ensures
            r@ == hyphenated(self@),
    {
        self.check();
        format_date(*self, "%Y-%m-%d")
    }

    /// The days since the last Monday: 0 on Monday, 6 on Sunday.
    pub fn weekday(&self) -> (r: u32)
        ensures
            r == self@.weekday(),
            r < 7,
    {
        self.check();
        weekday(*self)
    }

    /// The date `days` later, where the calendar's range holds it.
    pub fn checked_add_days(&self, days: i64) -> (r: Option<Date>)
        ensures
            match r {
                Some(d) => d@.valid() && d@.day_number() == self@.day_number() + days,
                None => !(first_day_number() <= self@.day_number() + days <= last_day_number()),
            },
    {
        self.check();
        add_days(*self, days)
    }
}

/// A moment in UTC, to the minute.
#[derive(Clone, Copy, Debug)]
pub struct UtcMinute {
    pub date: Date,
    pub hour: u32,
    pub minute: u32,
}

/// The number of 1 January 1970.
pub const UNIX_EPOCH_DAY: i64 = 719_163;

/// `moment` is the minute that lies `seconds` after the start of 1970 in UTC.
pub open spec fn is_utc_minute(moment: UtcMinute, seconds: int) -> bool {
    &&& moment.date@.valid()
    &&& moment.date@.day_number() == UNIX_EPOCH_DAY + seconds / 86_400
    &&& moment.hour == (seconds % 86_400) / 3_600
    &&& moment.minute == (seconds % 3_600) / 60
}

/// `chrono::DateTime::from_timestamp` without nanoseconds: the UTC date and time of day that lie
/// that many seconds after the start of 1970, or nothing where the date is out of range.
#[verifier::external_body]
pub(crate) fn from_timestamp(seconds: i64) -> (r: Option<UtcMinute>)
    ensures
        match r {
            Some(moment) => is_utc_minute(moment, seconds as int),
            None => !(first_day_number() <= UNIX_EPOCH_DAY + (seconds as int) / 86_400
                <= last_day_number()),
        },
{
    let moment = DateTime::from_timestamp(seconds, 0)?;
    let date = Date { year: moment.year(), month: moment.month(), day: moment.day() };
    Some(UtcMinute { date, hour: moment.hour(), minute: moment.minute() })
}

/// A moment to the minute.
pub struct MinuteView {
    pub date: DateView,
    pub hour: int,
    pub minute: int,
}

impl View for UtcMinute {
    type V = MinuteView;

    open spec fn view(&self) -> MinuteView {
        MinuteView { date: self.date@, hour: self.hour as int, minute: self.minute as int }
    }
}

/// The date with a given day number.
pub open spec fn date_numbered(number: int) -> DateView {
    choose|date: DateView| date.valid() && date.day_number() == number
}

/// The minute in UTC that lies `seconds` after the start of 1970, where its date is in range.
pub open spec fn minute_at(seconds: int) -> Option<MinuteView> {
    let number = UNIX_EPOCH_DAY + seconds / 86_400;
    if first_day_number() <= number <= last_day_number() {
        Some(
            MinuteView {
                date: date_numbered(number),
                hour: (seconds % 86_400) / 3_600,
                minute: (seconds % 3_600) / 60,
            },
        )
    } else {
        None
    }
}

/// The contents of an optional moment.
pub open spec fn minute_of(moment: Option<UtcMinute>) -> Option<MinuteView> {
    match moment {
        Some(m) => Some(m@),
        None => None,
    }
}

/// A day number belongs to one date only.
pub proof fn day_number_names_one_date(date: DateView)
    requires
        date.valid(),
    ensures
        date_numbered(date.day_number()) == date,
{
    let other = date_numbered(date.day_number());
    assert(other.valid() && other.day_number() == date.day_number());
    dates_are_ordered_by_day_number(date, other);
    dates_are_ordered_by_day_number(other, date);
}

impl UtcMinute {
    /// The minute in UTC that lies `seconds` after the start of 1970, where its date is in range.
    pub fn from_timestamp(seconds: i64) -> (r: Option<UtcMinute>)
        ensures
            minute_of(r) == minute_at(seconds as int),
    {
        let r = from_timestamp(seconds);
        proof {
            if let Some(moment) = r {
                day_number_names_one_date(moment.date@);
                lemma_day_number_range(moment.date@);
            }
        }
        r
    }

    /// The hour and the minute in two digits each, with a colon between them.
    pub fn clock_text(&self) -> (r: String)
        ensures
            r@ == clock(self@),
    {
        let hour = two_digit_text(self.hour);
        let minute = two_digit_text(self.minute);
        concat3(hour.as_str(), ":", minute.as_str())
    }
}

/// The hour and the minute in two digits each, with a colon between them.
pub open spec fn clock(moment: MinuteView) -> Seq<char> {
    two_digits(moment.hour) + ":"@ + two_digits(moment.minute)
}

/// A number in at least two digits.
pub fn two_digit_text(n: u32) -> (r: String)
    ensures
        r@ == two_digits(n as int),
{
    let digits = decimal_text(n as u64);
    zero_pad(digits.as_str(), 2)
}

} // verus!
