//! Fuzzy due dates: "YYYY-MM-DD", today / tomorrow / next week / next month,
//! weekday names, in English and Japanese.
use vstd::prelude::*;
use crate::date::{
    Date, checked_add_days, pred_day, weekday_from_monday, parse_ymd, local_today,
    days_in_month_spec, valid_ymd, max_day_number, min_day_number, lemma_day_number_injective,
    lemma_last_day_of_month, lemma_day_number_in_year, lemma_days_before_year_monotone,
    days_before_year, ymd_day_number, MAX_YEAR, MIN_YEAR, chrono_parse_ymd, ymd_of,
};
use crate::text::{chars_of, trim_chars, string_from_chars, to_lowercase, str_eq, trimmed, lowercased};

verus! {

/// The valid date with day number `n`.
pub open spec fn date_at(n: int) -> Date {
    choose|d: Date| d.wf() && d.day_number() == n
}

/// A valid date is the date at its day number.
pub proof fn lemma_date_at(d: Date)
    requires
        d.wf(),
    ensures
        date_at(d.day_number()) == d,
{
    let c = date_at(d.day_number());
    assert(c.wf() && c.day_number() == d.day_number());
    lemma_day_number_injective(c, d);
}

/// Days from a day with weekday `current` to the next day with weekday
/// `target` (1 to 7; a whole week when they are the same).
pub open spec fn days_ahead(current: int, target: int) -> int {
    if target <= current {
        7 - (current - target)
    } else {
        target - current
    }
}

/// Number of days in a month, found as the day before the first of the next
/// month.
pub fn days_in_month(year: i32, month: u32) -> (r: u32)
    requires
        MIN_YEAR <= year <= MAX_YEAR,
        1 <= month <= 12,
        !(month == 12 && year == MAX_YEAR),
    ensures
        r == days_in_month_spec(year as int, month as int),
{
    let next = if month == 12 {
        Date::new(year + 1, 1, 1)
    } else {
        Date::new(year, month + 1, 1)
    };
    let first = next.unwrap();
    proof {
        lemma_last_day_of_month(year as int, month as int);
        // The first of a month after chrono's first day is not its first day.
        lemma_day_number_in_year(year as int, month as int, 1);
        lemma_day_number_in_year(MIN_YEAR as int, 1, 1);
        lemma_days_before_year_monotone(MIN_YEAR as int, year as int);
        lemma_day_number_in_year(first.year as int, first.month as int, 1);
        if month == 12 {
            lemma_days_before_year_monotone(MIN_YEAR as int + 1, year as int + 1);
            lemma_day_number_in_year(MIN_YEAR as int, 12, 31);
        }
    }
    let last = pred_day(first).unwrap();
    proof {
        let target = Date { year, month, day: days_in_month_spec(year as int, month as int) as u32 };
        lemma_day_number_injective(last, target);
    }
    last.day
}

/// The next day after `from` (exclusive) that falls on weekday `target`
/// (Monday = 0); a week later when `from` already falls on it.
pub fn next_weekday(from: Date, target: u32) -> (r: Date)
    requires
        from.wf(),
        target < 7,
        from.day_number() + 7 <= max_day_number(),
    ensures
        r.wf(),
        r.day_number() == from.day_number() + days_ahead(from.weekday(), target as int),
        r.weekday() == target,
        from.day_number() < r.day_number() <= from.day_number() + 7,
{
    let current = weekday_from_monday(from);
    let ahead: u32 = if target <= current {
        7 - (current - target)
    } else {
        target - current
    };
    let r = checked_add_days(from, ahead as u64).unwrap();
    proof {
        let n = from.day_number() - 1;
        assert(0 <= current < 7);
        assert(r.weekday() == (n + ahead) % 7);
        assert((n + ahead) % 7 == target) by (nonlinear_arith)
            requires
                current == n % 7,
                ahead == (if target <= current {
                    7 - (current - target)
                } else {
                    target - current
                }),
                0 <= target < 7,
                0 <= current < 7,
        {
            let q = n / 7;
            assert(n == 7 * q + current);
            if target <= current {
                assert(n + ahead == 7 * (q + 1) + target);
            } else {
                assert(n + ahead == 7 * q + target);
            }
        }
    }
    r
}

/// The weekday named by a keyword (Monday = 0), if it names one.
pub open spec fn weekday_keyword(s: Seq<char>) -> Option<u32> {
    if s == "月曜"@ || s == "月曜日"@ || s == "月"@ || s == "mon"@ || s == "monday"@ {
        Some(0)
    } else if s == "火曜"@ || s == "火曜日"@ || s == "火"@ || s == "tue"@ || s == "tuesday"@ {
        Some(1)
    } else if s == "水曜"@ || s == "水曜日"@ || s == "水"@ || s == "wed"@ || s == "wednesday"@ {
        Some(2)
    } else if s == "木曜"@ || s == "木曜日"@ || s == "木"@ || s == "thu"@ || s == "thursday"@ {
        Some(3)
    } else if s == "金曜"@ || s == "金曜日"@ || s == "金"@ || s == "fri"@ || s == "friday"@ {
        Some(4)
    } else if s == "土曜"@ || s == "土曜日"@ || s == "土"@ || s == "sat"@ || s == "saturday"@ {
        Some(5)
    } else if s == "日曜"@ || s == "日曜日"@ || s == "日"@ || s == "sun"@ || s == "sunday"@ {
        Some(6)
    } else {
        None
    }
}

/// The same day of the next month, moved back to that month's last day when
/// it has fewer days.
pub open spec fn next_month_date(today: Date) -> Option<Date> {
    let (y, m) = if today.month == 12 {
        (today.year + 1, 1int)
    } else {
        (today.year as int, today.month + 1)
    };
    let d = if today.day <= days_in_month_spec(y, m) {
        today.day as int
    } else {
        days_in_month_spec(y, m)
    };
    if valid_ymd(y, m, d) {
        Some(Date { year: y as i32, month: m as u32, day: d as u32 })
    } else {
        None
    }
}

/// The date `n` days after `today`, when chrono can hold it.
pub open spec fn days_later(today: Date, n: int) -> Option<Date> {
    if today.day_number() + n <= max_day_number() {
        Some(date_at(today.day_number() + n))
    } else {
        None
    }
}

/// The date a keyword stands for, relative to `today`; none when that date
/// lies past the end of chrono's range.
pub open spec fn keyword_date(s: Seq<char>, today: Date) -> Option<Date> {
    if s == "今日"@ || s == "today"@ {
        Some(today)
    } else if s == "明日"@ || s == "tomorrow"@ {
        days_later(today, 1)
    } else if s == "明後日"@ {
        days_later(today, 2)
    } else if s == "来週"@ || s == "next week"@ {
        days_later(today, 7)
    } else if s == "来月"@ || s == "next month"@ {
        next_month_date(today)
    } else if weekday_keyword(s) is Some {
        days_later(today, days_ahead(today.weekday(), weekday_keyword(s)->0 as int))
    } else {
        None
    }
}

/// The date a normalized (trimmed, lowercased) input stands for: the date
/// chrono read from it as "YYYY-MM-DD", else the keyword's date.
pub open spec fn fuzzy_date(s: Seq<char>, ymd: Option<Date>, today: Date) -> Option<Date> {
    match ymd {
        Some(d) => Some(d),
        None => keyword_date(s, today),
    }
}

/// `today` lies before the last two months of chrono's range, so that every
/// keyword names a date chrono can hold.
pub open spec fn room_for_keywords(today: Date) -> bool {
    today.year < MAX_YEAR || today.month < 11
}

/// The date `n` days after `today`, when chrono can hold it.
fn add_days(today: Date, n: u64) -> (r: Option<Date>)
    requires
        today.wf(),
    ensures
        r == days_later(today, n as int),
        r matches Some(x) ==> x.wf(),
{
    let r = checked_add_days(today, n);
    match r {
        Some(x) => {
            proof {
                lemma_date_at(x);
            }
        },
        None => {},
    }
    r
}

fn weekday_of_keyword(s: &str) -> (r: Option<u32>)
    ensures
        r == weekday_keyword(s@),
{
    if str_eq(s, "月曜") || str_eq(s, "月曜日") || str_eq(s, "月") || str_eq(s, "mon") || str_eq(
        s,
        "monday",
    ) {
        Some(0)
    } else if str_eq(s, "火曜") || str_eq(s, "火曜日") || str_eq(s, "火") || str_eq(s, "tue")
        || str_eq(s, "tuesday") {
        Some(1)
    } else if str_eq(s, "水曜") || str_eq(s, "水曜日") || str_eq(s, "水") || str_eq(s, "wed")
        || str_eq(s, "wednesday") {
        Some(2)
    } else if str_eq(s, "木曜") || str_eq(s, "木曜日") || str_eq(s, "木") || str_eq(s, "thu")
        || str_eq(s, "thursday") {
        Some(3)
    } else if str_eq(s, "金曜") || str_eq(s, "金曜日") || str_eq(s, "金") || str_eq(s, "fri")
        || str_eq(s, "friday") {
        Some(4)
    } else if str_eq(s, "土曜") || str_eq(s, "土曜日") || str_eq(s, "土") || str_eq(s, "sat")
        || str_eq(s, "saturday") {
        Some(5)
    } else if str_eq(s, "日曜") || str_eq(s, "日曜日") || str_eq(s, "日") || str_eq(s, "sun")
        || str_eq(s, "sunday") {
        Some(6)
    } else {
        None
    }
}

/// The same day of the next month, clamped to that month's last day; none
/// past the end of chrono's range.
pub fn next_month(today: Date) -> (r: Option<Date>)
    requires
        today.wf(),
    ensures
        r == next_month_date(today),
        room_for_keywords(today) ==> r is Some,
{
    if today.month == 12 && today.year == MAX_YEAR {
        return None;
    }
    let (y, m): (i32, u32) = if today.month == 12 {
        (today.year + 1, 1)
    } else {
        (today.year, today.month + 1)
    };
    let dim = if m == 12 && y == MAX_YEAR {
        crate::date::days_in_month_of(y, m)
    } else {
        days_in_month(y, m)
    };
    let d = if today.day <= dim {
        today.day
    } else {
        dim
    };
    Date::new(y, m, d)
}

/// The date a normalized input stands for, given what chrono read from it as
/// "YYYY-MM-DD".
pub fn resolve_fuzzy_date(s: &str, ymd: Option<Date>, today: Date) -> (r: Option<Date>)
    requires
        today.wf(),
    ensures
        r == fuzzy_date(s@, ymd, today),
        (ymd matches Some(d) ==> d.wf()) ==> (r matches Some(x) ==> x.wf()),
{
    if let Some(d) = ymd {
        return Some(d);
    }
    if str_eq(s, "今日") || str_eq(s, "today") {
        Some(today)
    } else if str_eq(s, "明日") || str_eq(s, "tomorrow") {
        add_days(today, 1)
    } else if str_eq(s, "明後日") {
        add_days(today, 2)
    } else if str_eq(s, "来週") || str_eq(s, "next week") {
        add_days(today, 7)
    } else if str_eq(s, "来月") || str_eq(s, "next month") {
        next_month(today)
    } else {
        match weekday_of_keyword(s) {
            Some(w) => {
                let current = weekday_from_monday(today);
                let ahead: u32 = if w <= current {
                    7 - (current - w)
                } else {
                    w - current
                };
                add_days(today, ahead as u64)
            },
            None => None,
        }
    }
}

/// The input with surrounding whitespace removed and then lowercased.
pub open spec fn normalized_input(input: Seq<char>) -> Seq<char> {
    lowercased(trimmed(input))
}

/// What chrono reads from a normalized input as "YYYY-MM-DD".
pub open spec fn chrono_ymd(s: Seq<char>) -> Option<Date> {
    match chrono_parse_ymd(s) {
        Some(t) => Some(ymd_of(t)),
        None => None,
    }
}

/// The date an input names relative to `today`.
pub open spec fn fuzzy_date_on(input: Seq<char>, today: Date) -> Option<Date> {
    fuzzy_date(normalized_input(input), chrono_ymd(normalized_input(input)), today)
}

/// Reads a fuzzy due date relative to `today`: the input is trimmed and
/// lowercased, then read as "YYYY-MM-DD" by chrono or else as a keyword.
pub fn parse_fuzzy_date_on(input: &str, today: Date) -> (r: Option<Date>)
    requires
        today.wf(),
    ensures
        r matches Some(d) ==> d.wf(),
        r == fuzzy_date_on(input@, today),
{
    let t = trim_chars(chars_of(input).as_slice());
    let ts = string_from_chars(t.as_slice());
    let s = to_lowercase(ts.as_str());
    let ymd = parse_ymd(s.as_str());
    resolve_fuzzy_date(s.as_str(), ymd, today)
}

/// Reads a fuzzy due date relative to the local date today (see
/// `fuzzy_date_on`).
pub fn parse_fuzzy_date(input: &str) -> (r: Option<Date>)
    ensures
        r matches Some(d) ==> d.wf(),
        exists|today: Date| today.wf() && r == fuzzy_date_on(input@, today),
{
    let today = local_today();
    parse_fuzzy_date_on(input, today)
}

} // verus!
