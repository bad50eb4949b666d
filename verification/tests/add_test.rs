use chrono::{Datelike, Timelike};
use my_task::commands::add::AddArgs;
use my_task::commands::{add, Report};
use my_task::date::{date_to_string, Date, DateTime};
use my_task::db::{find_task, get_reminds_for_task, TaskDb};

fn now() -> DateTime {
    let x = chrono::Local::now().naive_local();
    let d = Date::new(x.year(), x.month(), x.day()).unwrap();
    DateTime::from_date_hms(d, x.hour(), x.minute(), x.second()).unwrap()
}

fn add_args(title: &str) -> AddArgs {
    AddArgs { title: title.to_string(), project: None, due: None, remind: None, important: false }
}

fn add(db: &mut TaskDb, title: &str) -> Report {
    add::run(db, &add_args(title), now())
}

fn stdout(r: &Report) -> String {
    r.out.join("\n")
}

fn today_text() -> String {
    chrono::Local::now().format("%Y-%m-%d").to_string()
}

fn tomorrow_text() -> String {
    (chrono::Local::now().date_naive() + chrono::Duration::days(1)).to_string()
}

#[test]
fn test_add_with_options() {
    let mut db = TaskDb::new();
    let mut a = add_args("With opts");
    a.project = Some("myproj".to_string());
    a.due = Some("2026-04-15".to_string());
    let r = add::run(&mut db, &a, now());
    assert!(!r.failed);
    assert!(stdout(&r).contains("Added: #1 With opts"));
    let t = find_task(&db, 1).unwrap();
    assert_eq!(t.project, Some("myproj".to_string()));
    assert_eq!(t.due.map(date_to_string), Some("2026-04-15".to_string()));
}

#[test]
fn test_add_fuzzy_due_today() {
    let mut db = TaskDb::new();
    let mut a = add_args("Fuzzy task");
    a.due = Some("今日".to_string());
    let r = add::run(&mut db, &a, now());
    assert!(!r.failed);
    assert!(stdout(&r).contains("Added: #1"));
    let due = find_task(&db, 1).unwrap().due.map(date_to_string);
    assert_eq!(due, Some(today_text()));
}

#[test]
fn test_add_fuzzy_due_tomorrow() {
    let mut db = TaskDb::new();
    let mut a = add_args("Tomorrow task");
    a.due = Some("明日".to_string());
    let r = add::run(&mut db, &a, now());
    assert!(!r.failed);
    let due = find_task(&db, 1).unwrap().due.map(date_to_string);
    assert_eq!(due, Some(tomorrow_text()));
}

#[test]
fn test_add_with_remind() {
    let mut db = TaskDb::new();
    let mut a = add_args("Remind task");
    a.remind = Some("2026-04-10".to_string());
    let r = add::run(&mut db, &a, now());
    assert!(!r.failed);
    assert!(stdout(&r).contains("Added: #1 Remind task"));
    let reminds: Vec<String> = get_reminds_for_task(&db, 1).into_iter().map(date_to_string).collect();
    assert_eq!(reminds[0], "2026-04-10");
}

#[test]
fn test_add_with_remind_short_flag() {
    let mut db = TaskDb::new();
    let mut a = add_args("Short flag");
    a.remind = Some("2026-05-01".to_string());
    let r = add::run(&mut db, &a, now());
    assert!(!r.failed);
    assert!(stdout(&r).contains("Added: #1"));
    let reminds: Vec<String> = get_reminds_for_task(&db, 1).into_iter().map(date_to_string).collect();
    assert_eq!(reminds[0], "2026-05-01");
}

#[test]
fn test_add_with_important() {
    let mut db = TaskDb::new();
    let mut a = add_args("Important task");
    a.important = true;
    let r = add::run(&mut db, &a, now());
    assert!(!r.failed);
    assert!(stdout(&r).contains("Added: #1 Important task"));
    assert!(find_task(&db, 1).unwrap().important);
}

#[test]
fn test_add_without_important() {
    let mut db = TaskDb::new();
    let r = add(&mut db, "Normal task");
    assert!(!r.failed);
    assert!(stdout(&r).contains("Added: #1 Normal task"));
    assert!(!find_task(&db, 1).unwrap().important);
}
