use chrono::{Datelike, Local, NaiveDate};
use my_task::date::Date;
use my_task::date_parser::{parse_fuzzy_date, parse_fuzzy_date_on, next_month};

fn to_naive(d: Date) -> NaiveDate {
    NaiveDate::from_ymd_opt(d.year, d.month, d.day).unwrap()
}

fn day(y: i32, m: u32, d: u32) -> Date {
    Date::new(y, m, d).unwrap()
}

#[test]
fn test_parse_yyyy_mm_dd() {
    let d = parse_fuzzy_date("2026-04-15").unwrap();
    assert_eq!(to_naive(d), NaiveDate::from_ymd_opt(2026, 4, 15).unwrap());
}

#[test]
fn test_parse_today() {
    let today = Local::now().date_naive();
    assert_eq!(to_naive(parse_fuzzy_date("今日").unwrap()), today);
    assert_eq!(to_naive(parse_fuzzy_date("today").unwrap()), today);
}

#[test]
fn test_parse_tomorrow() {
    let tomorrow = Local::now().date_naive() + chrono::Duration::days(1);
    assert_eq!(to_naive(parse_fuzzy_date("明日").unwrap()), tomorrow);
    assert_eq!(to_naive(parse_fuzzy_date("tomorrow").unwrap()), tomorrow);
}

#[test]
fn test_parse_day_after_tomorrow() {
    let dat = Local::now().date_naive() + chrono::Duration::days(2);
    assert_eq!(to_naive(parse_fuzzy_date("明後日").unwrap()), dat);
}

#[test]
fn test_parse_next_week() {
    let nw = Local::now().date_naive() + chrono::Duration::days(7);
    assert_eq!(to_naive(parse_fuzzy_date("来週").unwrap()), nw);
    assert_eq!(to_naive(parse_fuzzy_date("next week").unwrap()), nw);
}

#[test]
fn test_parse_next_month() {
    let today = Local::now().date_naive();
    let result = to_naive(parse_fuzzy_date("来月").unwrap());
    if today.month() == 12 {
        assert_eq!(result.year(), today.year() + 1);
        assert_eq!(result.month(), 1);
    } else {
        assert_eq!(result.month(), today.month() + 1);
    }
}

#[test]
fn test_parse_weekday() {
    let today = Local::now().date_naive();
    let fri = to_naive(parse_fuzzy_date("金曜").unwrap());
    assert_eq!(fri.weekday(), chrono::Weekday::Fri);
    assert!(fri > today);
    assert!((fri - today).num_days() <= 7);

    let mon = to_naive(parse_fuzzy_date("mon").unwrap());
    assert_eq!(mon.weekday(), chrono::Weekday::Mon);
    assert!(mon > today);
}

#[test]
fn test_parse_invalid() {
    assert!(parse_fuzzy_date("abc").is_none());
    assert!(parse_fuzzy_date("").is_none());
}

#[test]
fn test_parse_on_fixed_day() {
    // 2026-04-08 is a Wednesday.
    let today = day(2026, 4, 8);
    assert_eq!(parse_fuzzy_date_on("  Tomorrow ", today), Some(day(2026, 4, 9)));
    assert_eq!(parse_fuzzy_date_on("水曜日", today), Some(day(2026, 4, 15)));
    assert_eq!(parse_fuzzy_date_on("friday", today), Some(day(2026, 4, 10)));
    assert_eq!(parse_fuzzy_date_on("月", today), Some(day(2026, 4, 13)));
    assert_eq!(parse_fuzzy_date_on("next week", today), Some(day(2026, 4, 15)));
    assert_eq!(parse_fuzzy_date_on("2026-02-30", today), None);
}

#[test]
fn test_next_month_clamps_to_month_end() {
    assert_eq!(next_month(day(2026, 1, 31)), Some(day(2026, 2, 28)));
    assert_eq!(next_month(day(2024, 1, 31)), Some(day(2024, 2, 29)));
    assert_eq!(next_month(day(2026, 12, 15)), Some(day(2027, 1, 15)));
    assert_eq!(parse_fuzzy_date_on("来月", day(2026, 3, 31)), Some(day(2026, 4, 30)));
}

#[test]
fn test_parse_at_the_end_of_the_calendar() {
    let late = day(262142, 12, 15);
    assert_eq!(parse_fuzzy_date_on("2026-04-15", late), Some(day(2026, 4, 15)));
    assert_eq!(parse_fuzzy_date_on("今日", late), Some(late));
    assert_eq!(parse_fuzzy_date_on("明日", late), Some(day(262142, 12, 16)));
    assert_eq!(parse_fuzzy_date_on("来月", late), None);
    let last = day(262142, 12, 31);
    assert_eq!(parse_fuzzy_date_on("明日", last), None);
    assert_eq!(parse_fuzzy_date_on("today", last), Some(last));
    assert_eq!(next_month(day(262142, 11, 30)), Some(day(262142, 12, 30)));
}
