use my_task::table::TextStyle;
use chrono::{Datelike, Timelike};
use my_task::commands::add::AddArgs;
use my_task::commands::done::DoneArgs;
use my_task::commands::search::SearchArgs;
use my_task::commands::{add, done, search};
use my_task::date::{Date, DateTime};
use my_task::db::TaskDb;

fn now() -> DateTime {
    let x = chrono::Local::now().naive_local();
    let d = Date::new(x.year(), x.month(), x.day()).unwrap();
    DateTime::from_date_hms(d, x.hour(), x.minute(), x.second()).unwrap()
}

fn add_task(db: &mut TaskDb, title: &str, proj: Option<&str>) {
    let a = AddArgs {
        title: title.to_string(),
        project: proj.map(|p| p.to_string()),
        due: None,
        remind: None,
        important: false,
    };
    assert!(!add::run(db, &a, now()).failed);
}

fn mark_done(db: &mut TaskDb, id: u32) {
    assert!(!done::run(db, &DoneArgs { ids: vec![id] }, now()).failed);
}

fn search_stdout(db: &TaskDb, keyword: &str, all: bool, project: Option<&str>) -> String {
    let args = SearchArgs { keyword: keyword.to_string(), all, project: project.map(|p| p.to_string()) };
    let r = search::run(db, &args, TextStyle::Plain);
    assert!(!r.failed);
    r.out.join("\n")
}

#[test]
fn test_search_finds_matching_tasks() {
    let mut db = TaskDb::new();
    add_task(&mut db, "Buy groceries", None);
    add_task(&mut db, "Write report", None);
    add_task(&mut db, "Buy flowers", None);
    let stdout = search_stdout(&db, "Buy", false, None);
    assert!(stdout.contains("Buy groceries"));
    assert!(stdout.contains("Buy flowers"));
    assert!(!stdout.contains("Write report"));
    assert!(stdout.contains("2 tasks"));
}

#[test]
fn test_search_default_open_only() {
    let mut db = TaskDb::new();
    add_task(&mut db, "Open match task", None);
    add_task(&mut db, "Done match task", None);
    mark_done(&mut db, 2);
    let stdout = search_stdout(&db, "match", false, None);
    assert!(stdout.contains("Open match task"));
    assert!(!stdout.contains("Done match task"));
    assert!(stdout.contains("1 tasks"));
}

#[test]
fn test_search_all_flag() {
    let mut db = TaskDb::new();
    add_task(&mut db, "Open match task", None);
    add_task(&mut db, "Done match task", None);
    mark_done(&mut db, 2);
    let stdout = search_stdout(&db, "match", true, None);
    assert!(stdout.contains("Open match task"));
    assert!(stdout.contains("Done match task"));
    assert!(stdout.contains("2 tasks"));
}

#[test]
fn test_search_with_project_filter() {
    let mut db = TaskDb::new();
    add_task(&mut db, "Task alpha one", Some("alpha"));
    add_task(&mut db, "Task beta one", Some("beta"));
    add_task(&mut db, "Task alpha two", Some("alpha"));
    let stdout = search_stdout(&db, "Task", false, Some("alpha"));
    assert!(stdout.contains("Task alpha one"));
    assert!(stdout.contains("Task alpha two"));
    assert!(!stdout.contains("Task beta one"));
    assert!(stdout.contains("2 tasks"));
}

#[test]
fn test_search_no_results() {
    let mut db = TaskDb::new();
    add_task(&mut db, "Some task", None);
    assert!(search_stdout(&db, "nonexistent", false, None).contains("No tasks found"));
}

#[test]
fn test_search_table_format() {
    let mut db = TaskDb::new();
    add_task(&mut db, "Searchable task", None);
    let stdout = search_stdout(&db, "Searchable", false, None);
    assert!(stdout.contains("ID"));
    assert!(stdout.contains("Title"));
    assert!(stdout.contains("Status"));
}

#[test]
fn test_search_combined_all_and_project() {
    let mut db = TaskDb::new();
    add_task(&mut db, "Open alpha task", Some("alpha"));
    add_task(&mut db, "Done alpha task", Some("alpha"));
    mark_done(&mut db, 2);
    add_task(&mut db, "Open beta task", Some("beta"));
    let stdout = search_stdout(&db, "task", true, Some("alpha"));
    assert!(stdout.contains("Open alpha task"));
    assert!(stdout.contains("Done alpha task"));
    assert!(!stdout.contains("Open beta task"));
    assert!(stdout.contains("2 tasks"));
}
