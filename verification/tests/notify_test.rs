use my_task::table::TextStyle;
use chrono::{Datelike, Timelike};
use my_task::commands::notify::NotifyArgs;
use my_task::commands::{notify, Report};
use my_task::date::{Date, DateTime};
use my_task::db::{add_remind, add_task, close_task, complete_task, TaskDb};

fn date_of(x: chrono::NaiveDate) -> Date {
    Date::new(x.year(), x.month(), x.day()).unwrap()
}

fn now() -> DateTime {
    let x = chrono::Local::now().naive_local();
    DateTime::from_date_hms(date_of(x.date()), x.hour(), x.minute(), x.second()).unwrap()
}

fn today() -> Date {
    date_of(chrono::Local::now().date_naive())
}

fn days_ago(n: i64) -> Date {
    date_of(chrono::Local::now().date_naive() - chrono::Duration::days(n))
}

fn days_later(n: i64) -> Date {
    date_of(chrono::Local::now().date_naive() + chrono::Duration::days(n))
}

/// Adds a task with the given due date, status and project.
fn insert_task(db: &mut TaskDb, title: &str, due: Option<Date>, status: &str, project: Option<&str>) {
    let id = add_task(db, title, project, due, now(), false).unwrap();
    match status {
        "done" => complete_task(db, id, now()),
        "closed" => close_task(db, id, now()),
        _ => {}
    }
}

fn notify_days(db: &TaskDb, days: u32) -> Report {
    let r = notify::run(db, &NotifyArgs { days }, TextStyle::Plain);
    assert!(!r.failed);
    assert!(r.err.is_empty());
    r
}

fn stdout(db: &TaskDb) -> String {
    notify_days(db, 0).out.join("\n")
}

#[test]
fn test_notify_no_tasks_silent() {
    let db = TaskDb::new();
    assert!(notify_days(&db, 0).out.is_empty());
}

#[test]
fn test_notify_no_due_tasks_silent() {
    let mut db = TaskDb::new();
    insert_task(&mut db, "No due date", None, "open", None);
    insert_task(&mut db, "Future task", Some(days_later(30)), "open", None);
    assert!(notify_days(&db, 0).out.is_empty());
}

#[test]
fn test_notify_overdue_task() {
    let mut db = TaskDb::new();
    insert_task(&mut db, "Overdue report", Some(days_ago(3)), "open", None);
    let out = stdout(&db);
    assert!(out.contains("期限切れタスクがあります"));
    assert!(out.contains("Overdue report"));
    assert!(out.contains("3日超過"));
}

#[test]
fn test_notify_due_today() {
    let mut db = TaskDb::new();
    insert_task(&mut db, "Due today task", Some(today()), "open", None);
    let out = stdout(&db);
    assert!(out.contains("期限切れタスクがあります"));
    assert!(out.contains("Due today task"));
    assert!(out.contains("今日"));
}

#[test]
fn test_notify_days_option() {
    let mut db = TaskDb::new();
    insert_task(&mut db, "Due in 2 days", Some(days_later(2)), "open", None);
    insert_task(&mut db, "Due in 5 days", Some(days_later(5)), "open", None);
    assert!(notify_days(&db, 0).out.is_empty());
    let out = notify_days(&db, 3).out.join("\n");
    assert!(out.contains("Due in 2 days"));
    assert!(out.contains("あと2日"));
    assert!(!out.contains("Due in 5 days"));
}

#[test]
fn test_notify_excludes_done_and_closed() {
    let mut db = TaskDb::new();
    insert_task(&mut db, "Done task", Some(today()), "done", None);
    insert_task(&mut db, "Closed task", Some(today()), "closed", None);
    insert_task(&mut db, "Open task", Some(today()), "open", None);
    let out = stdout(&db);
    assert!(out.contains("Open task"));
    assert!(!out.contains("Done task"));
    assert!(!out.contains("Closed task"));
}

#[test]
fn test_notify_shows_project_column() {
    let mut db = TaskDb::new();
    insert_task(&mut db, "Project task", Some(today()), "open", Some("my-task"));
    let out = stdout(&db);
    assert!(out.contains("Project"));
    assert!(out.contains("my-task"));
    assert!(out.contains("Project task"));
}

#[test]
fn test_notify_days_short_flag() {
    let mut db = TaskDb::new();
    insert_task(&mut db, "Due in 2 days", Some(days_later(2)), "open", None);
    let out = notify_days(&db, 3).out.join("\n");
    assert!(out.contains("Due in 2 days"));
    assert!(out.contains("あと2日"));
}

#[test]
fn test_notify_mixed_projects() {
    let mut db = TaskDb::new();
    insert_task(&mut db, "API task", Some(today()), "open", Some("api"));
    insert_task(&mut db, "No project task", Some(days_ago(1)), "open", None);
    let out = stdout(&db);
    assert!(out.contains("api"));
    assert!(out.contains("API task"));
    assert!(out.contains("No project task"));
}

#[test]
fn test_notify_remind_today() {
    let mut db = TaskDb::new();
    insert_task(&mut db, "Remind me task", None, "open", Some("proj"));
    add_remind(&mut db, 1, today()).unwrap();
    let out = stdout(&db);
    assert!(out.contains("リマインドタスクがあります"));
    assert!(out.contains("Remind me task"));
    assert!(out.contains("proj"));
}

#[test]
fn test_notify_remind_tomorrow_no_output() {
    let mut db = TaskDb::new();
    insert_task(&mut db, "Remind tomorrow", None, "open", None);
    add_remind(&mut db, 1, days_later(1)).unwrap();
    assert!(notify_days(&db, 0).out.is_empty());
}

#[test]
fn test_notify_remind_excludes_done() {
    let mut db = TaskDb::new();
    insert_task(&mut db, "Done remind", None, "done", None);
    add_remind(&mut db, 1, today()).unwrap();
    assert!(notify_days(&db, 0).out.is_empty());
}

#[test]
fn test_notify_remind_excludes_closed() {
    let mut db = TaskDb::new();
    insert_task(&mut db, "Closed remind", None, "closed", None);
    add_remind(&mut db, 1, today()).unwrap();
    assert!(notify_days(&db, 0).out.is_empty());
}

#[test]
fn test_notify_both_due_and_remind() {
    let mut db = TaskDb::new();
    insert_task(&mut db, "Due task", Some(today()), "open", None);
    insert_task(&mut db, "Remind task", None, "open", None);
    add_remind(&mut db, 2, today()).unwrap();
    let out = stdout(&db);
    assert!(out.contains("期限切れタスクがあります"));
    assert!(out.contains("Due task"));
    assert!(out.contains("リマインドタスクがあります"));
    assert!(out.contains("Remind task"));
}
