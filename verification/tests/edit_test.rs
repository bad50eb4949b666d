use my_task::table::TextStyle;
use chrono::{Datelike, Timelike};
use my_task::commands::add::AddArgs;
use my_task::commands::edit::EditArgs;
use my_task::commands::list::ListArgs;
use my_task::commands::{add, edit, list, Report};
use my_task::date::{date_to_string, Date, DateTime};
use my_task::db::{find_task, get_reminds_for_task, TaskDb};

fn now() -> DateTime {
    let x = chrono::Local::now().naive_local();
    let d = Date::new(x.year(), x.month(), x.day()).unwrap();
    DateTime::from_date_hms(d, x.hour(), x.minute(), x.second()).unwrap()
}

fn add_task(db: &mut TaskDb, title: &str, project: Option<&str>, important: bool) {
    let a = AddArgs {
        title: title.to_string(),
        project: project.map(|p| p.to_string()),
        due: None,
        remind: None,
        important,
    };
    assert!(!add::run(db, &a, now()).failed);
}

fn edit_args(id: u32) -> EditArgs {
    EditArgs {
        id: Some(id),
        title: None,
        project: None,
        due: None,
        important: false,
        no_important: false,
        remind: None,
        remove_remind: None,
        no_remind: false,
        interactive: false,
        filter_project: None,
    }
}

fn run_edit(db: &mut TaskDb, e: &EditArgs) -> Report {
    edit::run_flag(db, e, now())
}

fn add_remind(db: &mut TaskDb, id: u32, date: &str) {
    let mut e = edit_args(id);
    e.remind = Some(date.to_string());
    assert!(!run_edit(db, &e).failed);
}

fn list_stdout(db: &TaskDb) -> String {
    let args = ListArgs {
        all: false,
        project: None,
        category: None,
        due: None,
        sort: vec!["id".to_string()],
        asc: false,
        desc: false,
        important_only: false,
        follow: false,
        interval: 2,
    };
    let r = list::run(db, &args, TextStyle::Plain);
    assert!(!r.failed);
    r.out.join("\n")
}

fn reminds(db: &TaskDb, id: u32) -> Vec<String> {
    get_reminds_for_task(db, id).into_iter().map(date_to_string).collect()
}

#[test]
fn test_edit_title() {
    let mut db = TaskDb::new();
    add_task(&mut db, "Original title", None, false);
    let mut e = edit_args(1);
    e.title = Some("New title".to_string());
    let r = run_edit(&mut db, &e);
    assert!(!r.failed);
    assert!(r.out.join("\n").contains("Updated: #1 New title"));
    assert!(list_stdout(&db).contains("New title"));
}

#[test]
fn test_edit_project() {
    let mut db = TaskDb::new();
    add_task(&mut db, "Task", Some("old-proj"), false);
    let mut e = edit_args(1);
    e.project = Some("new-proj".to_string());
    let r = run_edit(&mut db, &e);
    assert!(!r.failed);
    assert!(r.out.join("\n").contains("Updated: #1"));
    assert!(list_stdout(&db).contains("new-proj"));
}

#[test]
fn test_edit_due() {
    let mut db = TaskDb::new();
    add_task(&mut db, "Task", None, false);
    let mut e = edit_args(1);
    e.due = Some("2026-12-25".to_string());
    let r = run_edit(&mut db, &e);
    assert!(!r.failed);
    assert!(r.out.join("\n").contains("Updated: #1"));
    assert!(list_stdout(&db).contains("12/25"));
}

#[test]
fn test_edit_multiple_fields() {
    let mut db = TaskDb::new();
    add_task(&mut db, "Task", None, false);
    let mut e = edit_args(1);
    e.title = Some("Updated".to_string());
    e.project = Some("proj".to_string());
    e.due = Some("2026-06-01".to_string());
    let r = run_edit(&mut db, &e);
    assert!(!r.failed);
    assert!(r.out.join("\n").contains("Updated: #1 Updated"));
}

#[test]
fn test_edit_not_found() {
    let mut db = TaskDb::new();
    add_task(&mut db, "Task", None, false);
    let mut e = edit_args(999);
    e.title = Some("New".to_string());
    let r = run_edit(&mut db, &e);
    assert!(r.failed);
    assert!(r.err.join("\n").contains("Error: task #999 not found"));
}

#[test]
fn test_edit_empty_title() {
    let mut db = TaskDb::new();
    add_task(&mut db, "Task", None, false);
    let mut e = edit_args(1);
    e.title = Some(String::new());
    let r = run_edit(&mut db, &e);
    assert!(r.failed);
    assert!(r.err.join("\n").contains("title cannot be empty"));
}

#[test]
fn test_edit_add_remind() {
    let mut db = TaskDb::new();
    add_task(&mut db, "Task", None, false);
    let mut e = edit_args(1);
    e.remind = Some("2026-04-10".to_string());
    let r = run_edit(&mut db, &e);
    assert!(!r.failed);
    assert!(r.out.join("\n").contains("Updated: #1"));
    assert_eq!(reminds(&db, 1)[0], "2026-04-10");
}

#[test]
fn test_edit_add_multiple_reminds() {
    let mut db = TaskDb::new();
    add_task(&mut db, "Task", None, false);
    add_remind(&mut db, 1, "2026-04-10");
    add_remind(&mut db, 1, "2026-04-15");
    assert_eq!(reminds(&db, 1).len(), 2);
}

#[test]
fn test_edit_remind_only() {
    let mut db = TaskDb::new();
    add_task(&mut db, "Task", None, false);
    let mut e = edit_args(1);
    e.remind = Some("2026-04-10".to_string());
    let r = run_edit(&mut db, &e);
    assert!(!r.failed);
    assert!(r.out.join("\n").contains("Updated: #1"));
}

#[test]
fn test_edit_remind_short_flag() {
    let mut db = TaskDb::new();
    add_task(&mut db, "Task", None, false);
    let mut e = edit_args(1);
    e.remind = Some("2026-04-10".to_string());
    let r = run_edit(&mut db, &e);
    assert!(!r.failed);
    assert!(r.out.join("\n").contains("Updated: #1"));
}

#[test]
fn test_edit_no_flags() {
    let mut db = TaskDb::new();
    add_task(&mut db, "Task", None, false);
    let r = run_edit(&mut db, &edit_args(1));
    assert!(r.failed);
    assert!(r.err.join("\n").contains("specify at least one field to edit"));
}

#[test]
fn test_edit_set_important() {
    let mut db = TaskDb::new();
    add_task(&mut db, "Task", None, false);
    let mut e = edit_args(1);
    e.important = true;
    let r = run_edit(&mut db, &e);
    assert!(!r.failed);
    assert!(r.out.join("\n").contains("Updated: #1"));
    assert!(find_task(&db, 1).unwrap().important);
}

#[test]
fn test_edit_unset_important() {
    let mut db = TaskDb::new();
    add_task(&mut db, "Task", None, true);
    let mut e = edit_args(1);
    e.no_important = true;
    let r = run_edit(&mut db, &e);
    assert!(!r.failed);
    assert!(r.out.join("\n").contains("Updated: #1"));
    assert!(!find_task(&db, 1).unwrap().important);
}

#[test]
fn test_edit_important_conflict() {
    let mut db = TaskDb::new();
    add_task(&mut db, "Task", None, false);
    let mut e = edit_args(1);
    e.important = true;
    e.no_important = true;
    assert!(run_edit(&mut db, &e).failed);
}

#[test]
fn test_edit_no_remind_clears_all() {
    let mut db = TaskDb::new();
    add_task(&mut db, "Task", None, false);
    add_remind(&mut db, 1, "2026-04-10");
    add_remind(&mut db, 1, "2026-04-15");
    assert_eq!(reminds(&db, 1).len(), 2);
    let mut e = edit_args(1);
    e.no_remind = true;
    let r = run_edit(&mut db, &e);
    assert!(!r.failed);
    assert!(r.out.join("\n").contains("Updated: #1"));
    assert_eq!(reminds(&db, 1).len(), 0);
}

#[test]
fn test_edit_remove_remind_single() {
    let mut db = TaskDb::new();
    add_task(&mut db, "Task", None, false);
    add_remind(&mut db, 1, "2026-04-10");
    add_remind(&mut db, 1, "2026-04-15");
    let mut e = edit_args(1);
    e.remove_remind = Some("2026-04-10".to_string());
    let r = run_edit(&mut db, &e);
    assert!(!r.failed);
    assert!(r.out.join("\n").contains("Updated: #1"));
    assert_eq!(reminds(&db, 1), vec!["2026-04-15".to_string()]);
}

#[test]
fn test_edit_remove_remind_not_found() {
    let mut db = TaskDb::new();
    add_task(&mut db, "Task", None, false);
    add_remind(&mut db, 1, "2026-04-10");
    let mut e = edit_args(1);
    e.remove_remind = Some("2026-04-20".to_string());
    let r = run_edit(&mut db, &e);
    assert!(r.failed);
    assert!(r.err.join("\n").contains("Error: task #1 has no remind on 2026-04-20"));
    // The database is unchanged: the first reminder remains.
    assert_eq!(reminds(&db, 1), vec!["2026-04-10".to_string()]);
}

#[test]
fn test_edit_remove_remind_invalid_date() {
    let mut db = TaskDb::new();
    add_task(&mut db, "Task", None, false);
    let mut e = edit_args(1);
    e.remove_remind = Some("not-a-date".to_string());
    assert!(run_edit(&mut db, &e).failed);
}

#[test]
fn test_edit_no_remind_and_remove_remind_conflict() {
    let mut db = TaskDb::new();
    add_task(&mut db, "Task", None, false);
    let mut e = edit_args(1);
    e.no_remind = true;
    e.remove_remind = Some("2026-04-10".to_string());
    assert!(run_edit(&mut db, &e).failed);
}

#[test]
fn test_edit_remind_and_no_remind_conflict() {
    let mut db = TaskDb::new();
    add_task(&mut db, "Task", None, false);
    let mut e = edit_args(1);
    e.remind = Some("2026-04-10".to_string());
    e.no_remind = true;
    assert!(run_edit(&mut db, &e).failed);
}

#[test]
fn test_edit_no_remind_only() {
    let mut db = TaskDb::new();
    add_task(&mut db, "Task", None, false);
    let mut e = edit_args(1);
    e.no_remind = true;
    let r = run_edit(&mut db, &e);
    assert!(!r.failed);
    assert!(r.out.join("\n").contains("Updated: #1"));
}
