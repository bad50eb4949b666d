//! Calendar dates and date-times of the proleptic Gregorian calendar.
//!
//! `Date` and `DateTime` hold as plain integers what the task logic reads of a
//! date. Their meaning is fixed by the spec functions below: `day_number`
//! counts days from 0001-01-01 (day 1), so that differences of day numbers are
//! differences in days, and the weekday of a date is a function of its day
//! number. Calendar arithmetic that chrono performs (adding days, weekdays,
//! parsing) is reached through the wrappers at the end of this file.
use vstd::prelude::*;
use vstd::arithmetic::div_mod::{
    lemma_fundamental_div_mod, lemma_fundamental_div_mod_converse,
};
use chrono::{Datelike, Timelike};
use crate::text::{decimal, zero_pad, push_decimal_padded};

verus! {

/// The smallest year chrono can represent.
pub const MIN_YEAR: i32 = -262143;

/// The largest year chrono can represent.
pub const MAX_YEAR: i32 = 262142;

/// A calendar date.
#[derive(Clone, Copy, Debug, PartialEq, Eq, Structural)]
pub struct Date {
    pub year: i32,
    pub month: u32,
    pub day: u32,
}

/// A calendar date with a time of day, to the second.
#[derive(Clone, Copy, Debug, PartialEq, Eq, Structural)]
pub struct DateTime {
    pub date: Date,
    pub hour: u32,
    pub minute: u32,
    pub second: u32,
}

pub open spec fn is_leap_year(y: int) -> bool {
    (y % 4 == 0 && y % 100 != 0) || y % 400 == 0
}

pub open spec fn days_in_month_spec(y: int, m: int) -> int {
    if m == 2 {
        if is_leap_year(y) { 29 } else { 28 }
    } else if m == 4 || m == 6 || m == 9 || m == 11 {
        30
    } else {
        31
    }
}

pub open spec fn valid_ymd(y: int, m: int, d: int) -> bool {
    &&& MIN_YEAR <= y <= MAX_YEAR
    &&& 1 <= m <= 12
    &&& 1 <= d <= days_in_month_spec(y, m)
}

/// Days in the years before year `y`, counted from year 1.
pub open spec fn days_before_year(y: int) -> int {
    365 * (y - 1) + (y - 1) / 4 - (y - 1) / 100 + (y - 1) / 400
}

/// Days in the months of year `y` before month `m`.
pub open spec fn days_before_month(y: int, m: int) -> int {
    let base = if m <= 1 { 0int }
        else if m == 2 { 31int }
        else if m == 3 { 59int }
        else if m == 4 { 90int }
        else if m == 5 { 120int }
        else if m == 6 { 151int }
        else if m == 7 { 181int }
        else if m == 8 { 212int }
        else if m == 9 { 243int }
        else if m == 10 { 273int }
        else if m == 11 { 304int }
        else { 334int };
    if m > 2 && is_leap_year(y) { base + 1 } else { base }
}

pub open spec fn ymd_day_number(y: int, m: int, d: int) -> int {
    days_before_year(y) + days_before_month(y, m) + d
}

/// Lexicographic order of (year, month, day).
pub open spec fn ymd_lt(y1: int, m1: int, d1: int, y2: int, m2: int, d2: int) -> bool {
    y1 < y2 || (y1 == y2 && (m1 < m2 || (m1 == m2 && d1 < d2)))
}

/// Day number of the smallest date chrono can represent, -262143-01-01.
pub open spec fn min_day_number() -> int {
    ymd_day_number(MIN_YEAR as int, 1, 1)
}

/// Day number of the largest date chrono can represent, 262142-12-31.
pub open spec fn max_day_number() -> int {
    ymd_day_number(MAX_YEAR as int, 12, 31)
}

impl Date {
    pub open spec fn wf(self) -> bool {
        valid_ymd(self.year as int, self.month as int, self.day as int)
    }

    pub open spec fn day_number(self) -> int {
        ymd_day_number(self.year as int, self.month as int, self.day as int)
    }

    /// Day of the week, counted from Monday = 0 (0001-01-01 was a Monday).
    pub open spec fn weekday(self) -> int {
        (self.day_number() - 1) % 7
    }

    pub open spec fn lt(self, other: Date) -> bool {
        ymd_lt(
            self.year as int,
            self.month as int,
            self.day as int,
            other.year as int,
            other.month as int,
            other.day as int,
        )
    }

    pub open spec fn le(self, other: Date) -> bool {
        self.lt(other) || self == other
    }

    /// The date with the given year, month and day, if there is one.
    pub fn new(year: i32, month: u32, day: u32) -> (r: Option<Date>)
        ensures
            r is Some <==> valid_ymd(year as int, month as int, day as int),
            r matches Some(d) ==> d.year == year && d.month == month && d.day == day,
    {
        if year < MIN_YEAR || year > MAX_YEAR || month < 1 || month > 12 || day < 1 {
            return None;
        }
        if day > days_in_month_of(year, month) {
            return None;
        }
        Some(Date { year, month, day })
    }

    /// Whether this is a valid date.
    pub fn is_valid(&self) -> (r: bool)
        ensures
            r == self.wf(),
    {
        Date::new(self.year, self.month, self.day).is_some()
    }

    /// `self` strictly before `other`.
    pub fn is_before(&self, other: &Date) -> (r: bool)
        ensures
            r == self.lt(*other),
    {
        self.year < other.year || (self.year == other.year && (self.month < other.month || (
        self.month == other.month && self.day < other.day)))
    }

    pub fn same_day(&self, other: &Date) -> (r: bool)
        ensures
            r == (*self == *other),
    {
        self.year == other.year && self.month == other.month && self.day == other.day
    }

    /// `self` before or on `other`.
    pub fn is_on_or_before(&self, other: &Date) -> (r: bool)
        ensures
            r == self.le(*other),
    {
        self.is_before(other) || self.same_day(other)
    }
}

impl DateTime {
    pub open spec fn wf(self) -> bool {
        &&& self.date.wf()
        &&& self.hour < 24
        &&& self.minute < 60
        &&& self.second < 60
    }

    /// Chronological order: by date, then hour, minute and second.
    pub open spec fn lt(self, other: DateTime) -> bool {
        ||| self.date.lt(other.date)
        ||| (self.date == other.date && (self.hour < other.hour || (self.hour == other.hour && (
        self.minute < other.minute || (self.minute == other.minute && self.second
            < other.second)))))
    }

    /// The date-time at the given time of day on `date`, if the time is valid.
    pub fn from_date_hms(date: Date, hour: u32, minute: u32, second: u32) -> (r: Option<DateTime>)
        ensures
            r is Some <==> (hour < 24 && minute < 60 && second < 60),
            r matches Some(t) ==> t.date == date && t.hour == hour && t.minute == minute
                && t.second == second,
    {
        if hour < 24 && minute < 60 && second < 60 {
            Some(DateTime { date, hour, minute, second })
        } else {
            None
        }
    }

    /// Whether this is a valid date-time.
    pub fn is_valid(&self) -> (r: bool)
        ensures
            r == self.wf(),
    {
        self.date.is_valid() && self.hour < 24 && self.minute < 60 && self.second < 60
    }

    pub fn is_before(&self, other: &DateTime) -> (r: bool)
        ensures
            r == self.lt(*other),
    {
        if self.date.is_before(&other.date) {
            true
        } else if self.date.same_day(&other.date) {
            self.hour < other.hour || (self.hour == other.hour && (self.minute < other.minute || (
            self.minute == other.minute && self.second < other.second)))
        } else {
            false
        }
    }
}

/// Number of days in `month` of `year`, by the calendar rule.
#[verifier::spinoff_prover]
pub fn days_in_month_of(year: i32, month: u32) -> (r: u32)
    requires
        1 <= month <= 12,
    ensures
        r == days_in_month_spec(year as int, month as int),
        28 <= r <= 31,
{
    if month == 2 {
        if (year % 4 == 0 && year % 100 != 0) || year % 400 == 0 {
            29
        } else {
            28
        }
    } else if month == 4 || month == 6 || month == 9 || month == 11 {
        30
    } else {
        31
    }
}

// ----- calendar lemmas -----

proof fn lemma_div_step(y: int, k: int)
    requires
        k > 0,
    ensures
        y / k - (y - 1) / k == (if y % k == 0 { 1int } else { 0int }),
{
    let q = (y - 1) / k;
    let r = (y - 1) % k;
    lemma_fundamental_div_mod(y - 1, k);
    assert(0 <= r < k) by {
        vstd::arithmetic::div_mod::lemma_mod_bound(y - 1, k);
    }
    if r == k - 1 {
        assert(y == (q + 1) * k + 0) by (nonlinear_arith)
            requires
                y - 1 == k * q + r,
                r == k - 1,
        ;
        lemma_fundamental_div_mod_converse(y, k, q + 1, 0);
    } else {
        assert(y == q * k + (r + 1)) by (nonlinear_arith)
            requires
                y - 1 == k * q + r,
        ;
        lemma_fundamental_div_mod_converse(y, k, q, r + 1);
    }
}

proof fn lemma_divides_down(y: int)
    ensures
        y % 400 == 0 ==> y % 100 == 0,
        y % 100 == 0 ==> y % 4 == 0,
{
    if y % 400 == 0 {
        lemma_fundamental_div_mod(y, 400);
        let q = y / 400;
        assert(y == (4 * q) * 100 + 0) by (nonlinear_arith)
            requires
                y == 400 * q + 0,
        ;
        lemma_fundamental_div_mod_converse(y, 100, 4 * q, 0);
    }
    if y % 100 == 0 {
        lemma_fundamental_div_mod(y, 100);
        let q = y / 100;
        assert(y == (25 * q) * 4 + 0) by (nonlinear_arith)
            requires
                y == 100 * q + 0,
        ;
        lemma_fundamental_div_mod_converse(y, 4, 25 * q, 0);
    }
}

/// A year has 366 days when it is a leap year, else 365.
pub proof fn lemma_year_length(y: int)
    ensures
        days_before_year(y + 1) - days_before_year(y) == (if is_leap_year(y) { 366int } else {
            365int
        }),
{
    lemma_div_step(y, 4);
    lemma_div_step(y, 100);
    lemma_div_step(y, 400);
    lemma_divides_down(y);
}

/// Within a valid date the day number stays inside its year.
pub proof fn lemma_day_number_in_year(y: int, m: int, d: int)
    requires
        1 <= m <= 12,
        1 <= d <= days_in_month_spec(y, m),
    ensures
        days_before_year(y) < ymd_day_number(y, m, d) <= days_before_year(y + 1),
        days_before_month(y, m) + days_in_month_spec(y, m) <= days_before_month(y, 13) || m == 12,
{
    lemma_year_length(y);
}

/// Day numbers follow the order of dates: the day number is strictly increasing.
pub proof fn lemma_day_number_monotone(y1: int, m1: int, d1: int, y2: int, m2: int, d2: int)
    requires
        1 <= m1 <= 12,
        1 <= d1 <= days_in_month_spec(y1, m1),
        1 <= m2 <= 12,
        1 <= d2 <= days_in_month_spec(y2, m2),
        ymd_lt(y1, m1, d1, y2, m2, d2),
    ensures
        ymd_day_number(y1, m1, d1) < ymd_day_number(y2, m2, d2),
    decreases y2 - y1,
{
    lemma_day_number_in_year(y1, m1, d1);
    lemma_day_number_in_year(y2, m2, d2);
    if y1 < y2 {
        lemma_days_before_year_monotone(y1 + 1, y2);
    }
}

/// `days_before_year` does not decrease.
pub proof fn lemma_days_before_year_monotone(a: int, b: int)
    requires
        a <= b,
    ensures
        days_before_year(a) <= days_before_year(b),
    decreases b - a,
{
    if a < b {
        lemma_year_length(a);
        lemma_days_before_year_monotone(a + 1, b);
    }
}

/// Two valid dates with the same day number are the same date.
pub proof fn lemma_day_number_injective(a: Date, b: Date)
    requires
        a.wf(),
        b.wf(),
        a.day_number() == b.day_number(),
    ensures
        a == b,
{
    if a.lt(b) {
        lemma_day_number_monotone(
            a.year as int,
            a.month as int,
            a.day as int,
            b.year as int,
            b.month as int,
            b.day as int,
        );
    } else if b.lt(a) {
        lemma_day_number_monotone(
            b.year as int,
            b.month as int,
            b.day as int,
            a.year as int,
            a.month as int,
            a.day as int,
        );
    }
}

/// The calendar order of valid dates is the order of their day numbers.
pub proof fn lemma_lt_iff_day_number(a: Date, b: Date)
    requires
        a.wf(),
        b.wf(),
    ensures
        a.lt(b) <==> a.day_number() < b.day_number(),
        a == b <==> a.day_number() == b.day_number(),
{
    if a.lt(b) {
        lemma_day_number_monotone(
            a.year as int,
            a.month as int,
            a.day as int,
            b.year as int,
            b.month as int,
            b.day as int,
        );
    } else if b.lt(a) {
        lemma_day_number_monotone(
            b.year as int,
            b.month as int,
            b.day as int,
            a.year as int,
            a.month as int,
            a.day as int,
        );
    }
}

/// The day before the first of month `m + 1` (or of next January) is the last
/// day of month `m`.
pub proof fn lemma_last_day_of_month(y: int, m: int)
    requires
        1 <= m <= 12,
    ensures
        m < 12 ==> ymd_day_number(y, m + 1, 1) - 1 == ymd_day_number(y, m, days_in_month_spec(
            y,
            m,
        )),
        m == 12 ==> ymd_day_number(y + 1, 1, 1) - 1 == ymd_day_number(y, 12, 31),
{
    lemma_year_length(y);
}

// ----- text -----

/// Two-digit zero-padded decimal.
pub open spec fn pad2(n: int) -> Seq<char> {
    zero_pad(decimal(n as nat), 2)
}

/// The year as chrono prints it with `%Y`: four digits for years 0..=9999,
/// otherwise an explicit sign followed by at least four digits.
pub open spec fn year_text(y: int) -> Seq<char> {
    if 0 <= y <= 9999 {
        zero_pad(decimal(y as nat), 4)
    } else if y < 0 {
        seq!['-'] + zero_pad(decimal((-y) as nat), 4)
    } else {
        seq!['+'] + zero_pad(decimal(y as nat), 4)
    }
}

/// A date as "YYYY-MM-DD" (chrono's `Display` and `%Y-%m-%d`).
pub open spec fn date_text(d: Date) -> Seq<char> {
    year_text(d.year as int) + seq!['-'] + pad2(d.month as int) + seq!['-'] + pad2(d.day as int)
}

/// A date-time as "YYYY-MM-DD HH:MM:SS" (chrono's `%Y-%m-%d %H:%M:%S`).
pub open spec fn datetime_text(t: DateTime) -> Seq<char> {
    date_text(t.date) + seq![' '] + pad2(t.hour as int) + seq![':'] + pad2(t.minute as int)
        + seq![':'] + pad2(t.second as int)
}

/// Appends the text of a date ("YYYY-MM-DD").
pub fn push_date_text(v: &mut Vec<char>, d: Date)
    ensures
        final(v)@ == old(v)@ + date_text(d),
{
    let ghost v0 = v@;
    if 0 <= d.year && d.year <= 9999 {
        push_decimal_padded(v, d.year as u64, 4);
    } else if d.year < 0 {
        v.push('-');
        let a: u64 = if d.year == i32::MIN { 2147483648u64 } else { (-d.year) as u64 };
        push_decimal_padded(v, a, 4);
        assert(v@ =~= v0 + (seq!['-'] + zero_pad(decimal((-d.year) as nat), 4)));
    } else {
        v.push('+');
        push_decimal_padded(v, d.year as u64, 4);
        assert(v@ =~= v0 + (seq!['+'] + zero_pad(decimal(d.year as nat), 4)));
    }
    let ghost v1 = v@;
    assert(v1 == v0 + year_text(d.year as int));
    v.push('-');
    push_decimal_padded(v, d.month as u64, 2);
    v.push('-');
    push_decimal_padded(v, d.day as u64, 2);
    assert(v@ =~= v0 + date_text(d));
}

/// Appends the text of a date-time ("YYYY-MM-DD HH:MM:SS").
pub fn push_datetime_text(v: &mut Vec<char>, t: DateTime)
    ensures
        final(v)@ == old(v)@ + datetime_text(t),
{
    let ghost v0 = v@;
    push_date_text(v, t.date);
    v.push(' ');
    push_decimal_padded(v, t.hour as u64, 2);
    v.push(':');
    push_decimal_padded(v, t.minute as u64, 2);
    v.push(':');
    push_decimal_padded(v, t.second as u64, 2);
    assert(v@ =~= v0 + datetime_text(t));
}

/// A date as text, as chrono's `to_string` prints it.
pub fn date_to_string(d: Date) -> (r: String)
    ensures
        r@ == date_text(d),
{
    let mut v: Vec<char> = Vec::new();
    push_date_text(&mut v, d);
    assert(v@ =~= date_text(d));
    crate::text::string_from_chars(v.as_slice())
}

/// A date-time as "YYYY-MM-DD HH:MM:SS".
pub fn datetime_to_string(t: DateTime) -> (r: String)
    ensures
        r@ == datetime_text(t),
{
    let mut v: Vec<char> = Vec::new();
    push_datetime_text(&mut v, t);
    assert(v@ =~= datetime_text(t));
    crate::text::string_from_chars(v.as_slice())
}

// ----- chrono -----

/// Result of chrono's `NaiveDate::parse_from_str(s, "%Y-%m-%d")`, as
/// (year, month, day), or `None` when chrono rejects the text.
pub uninterp spec fn chrono_parse_ymd(s: Seq<char>) -> Option<(i32, u32, u32)>;

/// Result of chrono's `NaiveDateTime::parse_from_str(s, "%Y-%m-%d %H:%M:%S")`,
/// as (year, month, day, hour, minute, second), or `None`.
pub uninterp spec fn chrono_parse_ymd_hms(s: Seq<char>) -> Option<(i32, u32, u32, u32, u32, u32)>;

pub open spec fn ymd_of(t: (i32, u32, u32)) -> Date {
    Date { year: t.0, month: t.1, day: t.2 }
}

pub open spec fn ymd_hms_of(t: (i32, u32, u32, u32, u32, u32)) -> DateTime {
    DateTime { date: Date { year: t.0, month: t.1, day: t.2 }, hour: t.3, minute: t.4, second: t.5 }
}

/// chrono's `NaiveDate::checked_add_days(Days::new(n))`: the date `n` days
/// after `d`, or `None` when that date is outside chrono's range. Nothing else
/// is claimed of chrono here than that the result lies `n` days after `d`.
#[verifier::external_body]
pub(crate) fn checked_add_days(d: Date, n: u64) -> (r: Option<Date>)
    requires
        d.wf(),
    ensures
        r matches Some(x) ==> x.wf() && x.day_number() == d.day_number() + n,
        r is None <==> d.day_number() + n > max_day_number(),
{
    let nd = chrono::NaiveDate::from_ymd_opt(d.year, d.month, d.day).unwrap();
    nd.checked_add_days(chrono::Days::new(n)).map(
        |x| Date { year: x.year(), month: x.month(), day: x.day() },
    )
}

/// chrono's `NaiveDate::pred_opt`: the day before `d`, or `None` at chrono's
/// smallest date.
#[verifier::external_body]
pub(crate) fn pred_day(d: Date) -> (r: Option<Date>)
    requires
        d.wf(),
    ensures
        r matches Some(x) ==> x.wf() && x.day_number() == d.day_number() - 1,
        r is None <==> d.day_number() == min_day_number(),
{
    let nd = chrono::NaiveDate::from_ymd_opt(d.year, d.month, d.day).unwrap();
    nd.pred_opt().map(|x| Date { year: x.year(), month: x.month(), day: x.day() })
}

/// chrono's `weekday().num_days_from_monday()`: Monday = 0, ..., Sunday = 6.
#[verifier::external_body]
pub(crate) fn weekday_from_monday(d: Date) -> (r: u32)
    requires
        d.wf(),
    ensures
        r == d.weekday(),
{
    let nd = chrono::NaiveDate::from_ymd_opt(d.year, d.month, d.day).unwrap();
    nd.weekday().num_days_from_monday()
}

/// chrono's `(a - b).num_days()` on dates: the signed number of days from `b`
/// to `a`.
#[verifier::external_body]
pub(crate) fn days_between(a: Date, b: Date) -> (r: i64)
    requires
        a.wf(),
        b.wf(),
    ensures
        r == a.day_number() - b.day_number(),
{
    let na = chrono::NaiveDate::from_ymd_opt(a.year, a.month, a.day).unwrap();
    let nb = chrono::NaiveDate::from_ymd_opt(b.year, b.month, b.day).unwrap();
    na.signed_duration_since(nb).num_days()
}

/// chrono's `NaiveDate::parse_from_str(s, "%Y-%m-%d")`. What chrono accepts is
/// not restated here; the result is named by `chrono_parse_ymd`. A result is
/// always a valid date, and the text that chrono prints for a date (see
/// `date_text`) is parsed back to that date, as chrono's documentation says.
#[verifier::external_body]
pub(crate) fn parse_ymd(s: &str) -> (r: Option<Date>)
    ensures
        r == (match chrono_parse_ymd(s@) {
            Some(t) => Some(ymd_of(t)),
            None => None::<Date>,
        }),
        r matches Some(x) ==> x.wf(),
        forall|x: Date| x.wf() && s@ == #[trigger] date_text(x) ==> r == Some(x),
{
    chrono::NaiveDate::parse_from_str(s, "%Y-%m-%d").ok().map(
        |x| Date { year: x.year(), month: x.month(), day: x.day() },
    )
}

/// chrono's `NaiveDateTime::parse_from_str(s, "%Y-%m-%d %H:%M:%S")`; the
/// result is named by `chrono_parse_ymd_hms`. A result is always a valid
/// date-time, and chrono's own printing of a date-time in that format is
/// parsed back to it.
#[verifier::external_body]
pub(crate) fn parse_ymd_hms(s: &str) -> (r: Option<DateTime>)
    ensures
        r == (match chrono_parse_ymd_hms(s@) {
            Some(t) => Some(ymd_hms_of(t)),
            None => None::<DateTime>,
        }),
        r matches Some(x) ==> x.wf(),
        forall|x: DateTime| x.wf() && s@ == #[trigger] datetime_text(x) ==> r == Some(x),
{
    chrono::NaiveDateTime::parse_from_str(s, "%Y-%m-%d %H:%M:%S").ok().map(
        |x| DateTime {
            date: Date { year: x.year(), month: x.month(), day: x.day() },
            hour: x.hour(),
            minute: x.minute(),
            second: x.second(),
        },
    )
}

/// chrono's `Local::now().date_naive()`: today's date in the local time zone.
/// Only that it is a valid date is claimed.
#[verifier::external_body]
pub(crate) fn local_today() -> (r: Date)
    ensures
        r.wf(),
{
    let x = chrono::Local::now().date_naive();
    Date { year: x.year(), month: x.month(), day: x.day() }
}

/// chrono's `Local::now().naive_local()`, to the second. Only that it is a
/// valid date-time is claimed.
#[verifier::external_body]
pub(crate) fn local_now() -> (r: DateTime)
    ensures
        r.wf(),
{
    let x = chrono::Local::now().naive_local();
    DateTime {
        date: Date { year: x.year(), month: x.month(), day: x.day() },
        hour: x.hour(),
        minute: x.minute(),
        second: x.second(),
    }
}

} // verus!
