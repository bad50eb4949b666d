use chrono::{Datelike, Timelike};
use my_task::commands::add::AddArgs;
use my_task::commands::close::CloseArgs;
use my_task::commands::done::DoneArgs;
use my_task::commands::edit::EditArgs;
use my_task::commands::json_output::TaskJson;
use my_task::commands::show::{find_task_with_reminds, ShowArgs};
use my_task::commands::{add, close, done, edit, show};
use my_task::date::{Date, DateTime};
use my_task::db::TaskDb;

fn now() -> DateTime {
    let x = chrono::Local::now().naive_local();
    let d = Date::new(x.year(), x.month(), x.day()).unwrap();
    DateTime::from_date_hms(d, x.hour(), x.minute(), x.second()).unwrap()
}

fn add_args(title: &str) -> AddArgs {
    AddArgs { title: title.to_string(), project: None, due: None, remind: None, important: false }
}

fn add_with(db: &mut TaskDb, a: AddArgs) {
    assert!(!add::run(db, &a, now()).failed);
}

fn show_stdout(db: &TaskDb, id: u32) -> String {
    let r = show::run(db, &ShowArgs { id, json: false });
    assert!(!r.failed);
    r.out.join("\n")
}

fn show_json(db: &TaskDb, id: u32) -> TaskJson {
    TaskJson::from(&find_task_with_reminds(db, id).unwrap())
}

fn add_remind(db: &mut TaskDb, id: u32, date: &str) {
    let e = EditArgs {
        id: Some(id),
        title: None,
        project: None,
        due: None,
        important: false,
        no_important: false,
        remind: Some(date.to_string()),
        remove_remind: None,
        no_remind: false,
        interactive: false,
        filter_project: None,
    };
    assert!(!edit::run_flag(db, &e, now()).failed);
}

/// True when `s` looks like a `HH:MM:SS` time token (e.g. "09:30:05").
fn looks_like_hms(s: &str) -> bool {
    let bytes = s.as_bytes();
    bytes.len() == 8
        && bytes[2] == b':'
        && bytes[5] == b':'
        && bytes.iter().enumerate().all(|(i, &b)| if i == 2 || i == 5 { b == b':' } else { b.is_ascii_digit() })
}

fn assert_date_and_time(what: &str, value: &str) {
    let (date_part, time_part) =
        value.split_once(' ').unwrap_or_else(|| panic!("{what} value lacks a time component: {value}"));
    assert_eq!(date_part.len(), 10, "{what} date part: {date_part}");
    assert!(looks_like_hms(time_part), "{what} time part is not HH:MM:SS: {time_part}");
}

#[test]
fn test_show_basic() {
    let mut db = TaskDb::new();
    add_with(&mut db, add_args("My task"));
    let out = show_stdout(&db, 1);
    assert!(out.contains("ID: 1"));
    assert!(out.contains("Title: My task"));
    assert!(out.contains("Status: open"));
    assert!(out.contains("Created:"));
    assert!(out.contains("Updated:"));
}

#[test]
fn test_show_not_found() {
    let mut db = TaskDb::new();
    add_with(&mut db, add_args("Exists"));
    let r = show::run(&db, &ShowArgs { id: 999, json: false });
    assert!(r.failed);
    assert!(r.err.join("\n").contains("Error: task #999 not found"));
}

#[test]
fn test_show_with_project_and_due() {
    let mut db = TaskDb::new();
    let mut a = add_args("Project task");
    a.project = Some("myproject".to_string());
    a.due = Some("2026-04-15".to_string());
    add_with(&mut db, a);
    let out = show_stdout(&db, 1);
    assert!(out.contains("Project: myproject"));
    assert!(out.contains("Due: 2026-04-15"));
}

#[test]
fn test_show_none_fields() {
    let mut db = TaskDb::new();
    add_with(&mut db, add_args("Simple task"));
    let out = show_stdout(&db, 1);
    assert!(out.contains("Project: (none)"));
    assert!(out.contains("Due: (none)"));
    assert!(out.contains("Remind: (none)"));
    assert!(out.contains("Important: no"));
}

#[test]
fn test_show_multiple_reminds() {
    let mut db = TaskDb::new();
    add_with(&mut db, add_args("Multi remind task"));
    add_remind(&mut db, 1, "2026-04-10");
    add_remind(&mut db, 1, "2026-04-15");
    assert!(show_stdout(&db, 1).contains("Remind: 2026-04-10, 2026-04-15"));
}

#[test]
fn test_show_important() {
    let mut db = TaskDb::new();
    let mut a = add_args("Important task");
    a.important = true;
    add_with(&mut db, a);
    assert!(show_stdout(&db, 1).contains("Important: yes"));
}

#[test]
fn test_show_done_status() {
    let mut db = TaskDb::new();
    add_with(&mut db, add_args("Done task"));
    assert!(!done::run(&mut db, &DoneArgs { ids: vec![1] }, now()).failed);
    assert!(show_stdout(&db, 1).contains("Status: done"));
}

#[test]
fn test_show_closed_status() {
    let mut db = TaskDb::new();
    add_with(&mut db, add_args("Closed task"));
    assert!(!close::run(&mut db, &CloseArgs { id: 1 }, now()).failed);
    assert!(show_stdout(&db, 1).contains("Status: closed"));
}

#[test]
fn test_show_with_remind() {
    let mut db = TaskDb::new();
    let mut a = add_args("Remind task");
    a.remind = Some("2026-04-10".to_string());
    add_with(&mut db, a);
    assert!(show_stdout(&db, 1).contains("Remind: 2026-04-10"));
}

#[test]
fn test_show_json() {
    let mut db = TaskDb::new();
    let mut a = add_args("JSON task");
    a.project = Some("myproj".to_string());
    a.due = Some("2026-05-01".to_string());
    a.important = true;
    add_with(&mut db, a);
    let j = show_json(&db, 1);
    assert_eq!(j.id, 1);
    assert_eq!(j.title, "JSON task");
    assert_eq!(j.status, "open");
    assert_eq!(j.project.as_deref(), Some("myproj"));
    assert_eq!(j.due.as_deref(), Some("2026-05-01"));
    assert!(j.important);
    assert!(j.reminds.is_empty());
}

#[test]
fn test_show_json_null_fields() {
    let mut db = TaskDb::new();
    add_with(&mut db, add_args("Simple"));
    let j = show_json(&db, 1);
    assert!(j.project.is_none());
    assert!(j.due.is_none());
    assert!(!j.important);
}

#[test]
fn test_show_text_created_updated_have_time_component() {
    let mut db = TaskDb::new();
    add_with(&mut db, add_args("Timed task"));
    let out = show_stdout(&db, 1);
    for prefix in ["Created:", "Updated:"] {
        let line = out.lines().find(|l| l.starts_with(prefix)).unwrap_or_else(|| panic!("{prefix} line present"));
        assert_date_and_time(prefix, line.trim_start_matches(prefix).trim());
    }
}

#[test]
fn test_show_json_created_updated_have_time_due_does_not() {
    let mut db = TaskDb::new();
    let mut a = add_args("JSON timed");
    a.due = Some("2026-05-01".to_string());
    add_with(&mut db, a);
    let j = show_json(&db, 1);
    assert_date_and_time("created", &j.created);
    assert_date_and_time("updated", &j.updated);
    assert_eq!(j.due.as_deref(), Some("2026-05-01"));
}
