use my_task::table::TextStyle;
use chrono::{Datelike, Timelike};
use my_task::commands::add::AddArgs;
use my_task::commands::done::DoneArgs;
use my_task::commands::edit::EditArgs;
use my_task::commands::follow::query_tasks_on;
use my_task::commands::json_output::tasks_json;
use my_task::commands::list::ListArgs;
use my_task::commands::project::ProjectArgs;
use my_task::commands::{add, done, edit, list, project, Report};
use my_task::date::{Date, DateTime};
use my_task::db::{close_task, TaskDb};

fn date_of(x: chrono::NaiveDate) -> Date {
    Date::new(x.year(), x.month(), x.day()).unwrap()
}

fn now() -> DateTime {
    let x = chrono::Local::now().naive_local();
    DateTime::from_date_hms(date_of(x.date()), x.hour(), x.minute(), x.second()).unwrap()
}

fn today() -> Date {
    date_of(chrono::Local::now().date_naive())
}

fn task(title: &str) -> AddArgs {
    AddArgs { title: title.to_string(), project: None, due: None, remind: None, important: false }
}

fn in_project(title: &str, project: &str) -> AddArgs {
    AddArgs { project: Some(project.to_string()), ..task(title) }
}

fn due_on(title: &str, due: &str) -> AddArgs {
    AddArgs { due: Some(due.to_string()), ..task(title) }
}

fn add_task(db: &mut TaskDb, a: AddArgs) {
    assert!(!add::run(db, &a, now()).failed);
}

fn mark_done(db: &mut TaskDb, id: u32) {
    assert!(!done::run(db, &DoneArgs { ids: vec![id] }, now()).failed);
}

fn set_category(db: &mut TaskDb, name: &str, cat: &str) {
    let a = ProjectArgs { name: name.to_string(), set_category: Some(cat.to_string()), clear_category: false };
    assert!(!project::run(db, &a).failed);
}

fn args() -> ListArgs {
    ListArgs {
        all: false,
        project: None,
        category: None,
        due: None,
        sort: vec!["id".to_string()],
        asc: false,
        desc: false,
        important_only: false,
        follow: false,
        interval: 2,
    }
}

fn sorted_by(keys: &[&str]) -> ListArgs {
    ListArgs { sort: keys.iter().map(|k| k.to_string()).collect(), ..args() }
}

fn run_list(db: &TaskDb, a: &ListArgs) -> Report {
    list::run(db, a, TextStyle::Plain)
}

/// What `list` prints when it succeeds.
fn stdout(db: &TaskDb, a: &ListArgs) -> String {
    let r = run_list(db, a);
    assert!(!r.failed, "list failed: {:?}", r.err);
    r.out.join("\n")
}

#[test]
fn test_list_empty() {
    let db = TaskDb::new();
    assert!(stdout(&db, &args()).contains("No tasks. Add one with: my-task add \"task title\""));
}

#[test]
fn test_list_shows_open() {
    let mut db = TaskDb::new();
    add_task(&mut db, task("Open one"));
    add_task(&mut db, task("Open two"));
    add_task(&mut db, task("To complete"));
    mark_done(&mut db, 3);
    let out = stdout(&db, &args());
    assert!(out.contains("Open one"));
    assert!(out.contains("Open two"));
    assert!(out.contains("OPEN"));
    assert!(!out.contains("To complete"));
    assert!(out.contains("2 tasks"));
}

#[test]
fn test_list_filter_project() {
    let mut db = TaskDb::new();
    add_task(&mut db, in_project("A task 1", "alpha"));
    add_task(&mut db, in_project("A task 2", "alpha"));
    add_task(&mut db, in_project("B task", "beta"));
    let out = stdout(&db, &ListArgs { project: Some("alpha".to_string()), ..args() });
    assert!(out.contains("A task 1"));
    assert!(out.contains("A task 2"));
    assert!(!out.contains("B task"));
    assert!(out.contains("2 tasks"));
}

#[test]
fn test_list_all_flag() {
    let mut db = TaskDb::new();
    add_task(&mut db, task("Open task"));
    add_task(&mut db, task("Done task"));
    mark_done(&mut db, 2);
    let out = stdout(&db, &ListArgs { all: true, ..args() });
    assert!(out.contains("Open task"));
    assert!(out.contains("OPEN"));
    assert!(out.contains("DONE"));
    assert!(out.contains("Done task"));
    assert!(!out.contains("\u{2713}"), "checkmark should no longer appear");
    assert!(out.contains("2 tasks (1 done)"));
}

#[test]
fn test_list_closed_hidden_by_default() {
    let mut db = TaskDb::new();
    add_task(&mut db, task("Will close"));
    add_task(&mut db, task("Stay open"));
    close_task(&mut db, 1, now());
    let out = stdout(&db, &args());
    assert!(!out.contains("Will close"));
    assert!(out.contains("Stay open"));
    assert!(out.contains("1 tasks"));
}

#[test]
fn test_list_closed_shown_with_all() {
    let mut db = TaskDb::new();
    add_task(&mut db, task("Will close"));
    add_task(&mut db, task("Stay open"));
    close_task(&mut db, 1, now());
    let out = stdout(&db, &ListArgs { all: true, ..args() });
    assert!(out.contains("Will close"));
    assert!(out.contains("CLOSED"));
    assert!(out.contains("Stay open"));
    assert!(out.contains("2 tasks (1 done)"));
}

#[test]
fn test_list_sort_by_project() {
    let mut db = TaskDb::new();
    add_task(&mut db, in_project("Zebra task", "z-proj"));
    add_task(&mut db, in_project("Alpha task", "a-proj"));
    let out = stdout(&db, &sorted_by(&["project"]));
    let pos_a = out.find("Alpha task").unwrap();
    let pos_z = out.find("Zebra task").unwrap();
    assert!(pos_a < pos_z, "a-proj should appear before z-proj");
}

#[test]
fn test_list_sort_desc_by_project() {
    let mut db = TaskDb::new();
    add_task(&mut db, in_project("Zebra task", "z-proj"));
    add_task(&mut db, in_project("Alpha task", "a-proj"));
    add_task(&mut db, in_project("Middle task", "m-proj"));
    let out = stdout(&db, &ListArgs { desc: true, ..sorted_by(&["project"]) });
    let pos_a = out.find("Alpha task").unwrap();
    let pos_m = out.find("Middle task").unwrap();
    let pos_z = out.find("Zebra task").unwrap();
    assert!(pos_z < pos_m && pos_m < pos_a, "z-proj should appear before m-proj before a-proj in descending order");
}

#[test]
fn test_list_sort_multiple_keys() {
    let mut db = TaskDb::new();
    add_task(&mut db, AddArgs { project: Some("beta".to_string()), ..due_on("A in beta", "2026-04-10") });
    add_task(&mut db, AddArgs { project: Some("alpha".to_string()), ..due_on("B in alpha", "2026-04-20") });
    add_task(&mut db, AddArgs { project: Some("alpha".to_string()), ..due_on("C in alpha", "2026-04-05") });
    let out = stdout(&db, &sorted_by(&["project", "due"]));
    let pos_c = out.find("C in alpha").unwrap();
    let pos_b = out.find("B in alpha").unwrap();
    let pos_a = out.find("A in beta").unwrap();
    assert!(pos_c < pos_b && pos_b < pos_a, "Should sort by project then due: C < B < A, got c={} b={} a={}", pos_c, pos_b, pos_a);
}

#[test]
fn test_list_sort_invalid() {
    let mut db = TaskDb::new();
    add_task(&mut db, task("Task"));
    let r = run_list(&db, &sorted_by(&["invalid"]));
    assert!(r.failed);
    assert!(r.err.join("\n").contains("unknown sort key"));
}

#[test]
fn test_list_sort_asc() {
    let mut db = TaskDb::new();
    add_task(&mut db, task("First"));
    add_task(&mut db, task("Second"));
    add_task(&mut db, task("Third"));
    let out = stdout(&db, &ListArgs { asc: true, ..sorted_by(&["id"]) });
    assert!(out.find("First").unwrap() < out.find("Third").unwrap(), "First should appear before Third in ascending order");
}

#[test]
fn test_list_sort_desc() {
    let mut db = TaskDb::new();
    add_task(&mut db, task("First"));
    add_task(&mut db, task("Second"));
    add_task(&mut db, task("Third"));
    let out = stdout(&db, &ListArgs { desc: true, ..sorted_by(&["id"]) });
    assert!(out.find("Third").unwrap() < out.find("First").unwrap(), "Third should appear before First in descending order");
}

#[test]
fn test_list_sort_default_order() {
    let mut db = TaskDb::new();
    add_task(&mut db, task("First"));
    add_task(&mut db, task("Second"));
    add_task(&mut db, task("Third"));
    let out = stdout(&db, &sorted_by(&["id"]));
    assert!(out.find("First").unwrap() < out.find("Third").unwrap(), "Default order should be ascending");
}

#[test]
fn test_ls_alias() {
    let mut db = TaskDb::new();
    add_task(&mut db, task("Alias test"));
    let out = stdout(&db, &args());
    assert!(out.contains("Alias test"));
    assert!(out.contains("1 tasks"));
}

#[test]
fn test_list_no_panic_in_pipe() {
    let mut db = TaskDb::new();
    add_task(&mut db, task("Task with a fairly long title for testing width handling"));
    add_task(&mut db, in_project("Short", "proj"));
    let out = stdout(&db, &args());
    assert!(out.contains("Task with a fairly long title"));
    assert!(out.contains("Short"));
}

#[test]
fn test_list_shows_remind_column() {
    let mut db = TaskDb::new();
    add_task(&mut db, AddArgs { remind: Some("2026-04-10".to_string()), ..task("Remind task") });
    let out = stdout(&db, &args());
    assert!(out.contains("Remind"));
    assert!(out.contains("4/10"));
}

#[test]
fn test_list_shows_multiple_reminds() {
    let mut db = TaskDb::new();
    add_task(&mut db, AddArgs { remind: Some("2026-04-10".to_string()), ..task("Multi remind") });
    let e = EditArgs {
        id: Some(1),
        title: None,
        project: None,
        due: None,
        important: false,
        no_important: false,
        remind: Some("2026-04-15".to_string()),
        remove_remind: None,
        no_remind: false,
        interactive: false,
        filter_project: None,
    };
    assert!(!edit::run_flag(&mut db, &e, now()).failed);
    let out = stdout(&db, &args());
    assert!(out.contains("4/10"));
    assert!(out.contains("4/15"));
}

#[test]
fn test_list_no_remind_empty() {
    let mut db = TaskDb::new();
    add_task(&mut db, task("No remind"));
    let out = stdout(&db, &args());
    assert!(out.contains("Remind"));
    assert!(out.contains("No remind"));
}

#[test]
fn test_list_many_tasks_no_panic() {
    let mut db = TaskDb::new();
    for i in 1..=20 {
        add_task(&mut db, task(&format!("Task number {}", i)));
    }
    assert!(stdout(&db, &args()).contains("20 tasks"));
}

#[test]
fn test_list_important_only() {
    let mut db = TaskDb::new();
    add_task(&mut db, task("Normal task"));
    add_task(&mut db, AddArgs { important: true, ..task("Important task") });
    add_task(&mut db, task("Another normal"));
    let out = stdout(&db, &ListArgs { important_only: true, ..args() });
    assert!(out.contains("Important task"));
    assert!(!out.contains("Normal task"));
    assert!(!out.contains("Another normal"));
    assert!(out.contains("1 tasks"));
}

#[test]
fn test_list_important_only_no_results() {
    let mut db = TaskDb::new();
    add_task(&mut db, task("Normal task"));
    let out = stdout(&db, &ListArgs { important_only: true, ..args() });
    assert!(out.contains("No tasks. Add one with: my-task add \"task title\""));
}

#[test]
fn test_follow_non_tty_falls_back_to_single_render() {
    // Without a terminal the follow view prints the list once.
    let mut db = TaskDb::new();
    add_task(&mut db, task("Follow fallback task"));
    let out = stdout(&db, &ListArgs { follow: true, ..args() });
    assert!(out.contains("Follow fallback task"));
    assert!(out.contains("1 tasks"));
}

#[test]
fn test_list_filter_due_exact_date() {
    let mut db = TaskDb::new();
    add_task(&mut db, due_on("Due on target", "2026-04-15"));
    add_task(&mut db, due_on("Due elsewhere", "2026-04-16"));
    let out = stdout(&db, &ListArgs { due: Some("2026-04-15".to_string()), ..args() });
    assert!(out.contains("Due on target"));
    assert!(!out.contains("Due elsewhere"));
    assert!(out.contains("1 tasks"));
}

#[test]
fn test_list_filter_due_relative_today() {
    let mut db = TaskDb::new();
    add_task(&mut db, due_on("Due today task", "today"));
    add_task(&mut db, task("No due task"));
    let out = stdout(&db, &ListArgs { due: Some("today".to_string()), ..args() });
    assert!(out.contains("Due today task"));
    assert!(!out.contains("No due task"));
    assert!(out.contains("1 tasks"));
}

#[test]
fn test_list_filter_due_short_flag() {
    let mut db = TaskDb::new();
    add_task(&mut db, due_on("Due on target", "2026-04-15"));
    add_task(&mut db, due_on("Due elsewhere", "2026-04-16"));
    let out = stdout(&db, &ListArgs { due: Some("2026-04-15".to_string()), ..args() });
    assert!(out.contains("Due on target"));
    assert!(!out.contains("Due elsewhere"));
    assert!(out.contains("1 tasks"));
}

#[test]
fn test_list_filter_due_with_project() {
    let mut db = TaskDb::new();
    add_task(&mut db, AddArgs { project: Some("alpha".to_string()), ..due_on("Alpha due", "2026-04-15") });
    add_task(&mut db, AddArgs { project: Some("beta".to_string()), ..due_on("Beta due", "2026-04-15") });
    let a = ListArgs { due: Some("2026-04-15".to_string()), project: Some("alpha".to_string()), ..args() };
    let out = stdout(&db, &a);
    assert!(out.contains("Alpha due"));
    assert!(!out.contains("Beta due"));
    assert!(out.contains("1 tasks"));
}

#[test]
fn test_list_filter_due_with_all() {
    let mut db = TaskDb::new();
    add_task(&mut db, due_on("Done due task", "2026-04-15"));
    mark_done(&mut db, 1);
    let out = stdout(&db, &ListArgs { due: Some("2026-04-15".to_string()), ..args() });
    assert!(!out.contains("Done due task"));
    let out = stdout(&db, &ListArgs { due: Some("2026-04-15".to_string()), all: true, ..args() });
    assert!(out.contains("Done due task"));
    assert!(out.contains("DONE"));
}

#[test]
fn test_list_filter_due_no_match() {
    let mut db = TaskDb::new();
    add_task(&mut db, due_on("Some task", "2026-04-15"));
    let out = stdout(&db, &ListArgs { due: Some("2026-12-31".to_string()), ..args() });
    assert!(out.contains("No tasks. Add one with: my-task add \"task title\""));
}

#[test]
fn test_list_filter_due_invalid() {
    let mut db = TaskDb::new();
    add_task(&mut db, task("Task"));
    let r = run_list(&db, &ListArgs { due: Some("not-a-date".to_string()), ..args() });
    assert!(r.failed);
    assert!(r.err.join("\n").contains("invalid due date"));
}

#[test]
fn test_follow_non_tty_empty_db() {
    let db = TaskDb::new();
    let out = stdout(&db, &ListArgs { follow: true, ..args() });
    assert!(out.contains("No tasks. Add one with: my-task add \"task title\""));
}

#[test]
fn test_list_filter_category() {
    let mut db = TaskDb::new();
    add_task(&mut db, in_project("Job task", "job"));
    add_task(&mut db, in_project("Hobby task", "hobby"));
    set_category(&mut db, "job", "work");
    set_category(&mut db, "hobby", "fun");
    let out = stdout(&db, &ListArgs { category: Some("work".to_string()), ..args() });
    assert!(out.contains("Job task"));
    assert!(!out.contains("Hobby task"));
}

#[test]
fn test_list_filter_category_no_match() {
    let mut db = TaskDb::new();
    add_task(&mut db, in_project("Job task", "job"));
    set_category(&mut db, "job", "work");
    let out = stdout(&db, &ListArgs { category: Some("nonexistent".to_string()), ..args() });
    assert!(out.contains("No tasks."));
}

#[test]
fn test_list_json_basic() {
    let mut db = TaskDb::new();
    add_task(&mut db, task("First task"));
    add_task(&mut db, task("Second task"));
    let arr = tasks_json(&query_tasks_on(&db, &args(), today()).unwrap());
    assert_eq!(arr.len(), 2);
    assert_eq!(arr[0].id, 1);
    assert_eq!(arr[0].title, "First task");
    assert_eq!(arr[0].status, "open");
    assert_eq!(arr[1].id, 2);
    assert_eq!(arr[1].title, "Second task");
}

#[test]
fn test_list_json_all_includes_done() {
    let mut db = TaskDb::new();
    add_task(&mut db, task("Open one"));
    add_task(&mut db, task("Done one"));
    mark_done(&mut db, 2);
    let arr = tasks_json(&query_tasks_on(&db, &args(), today()).unwrap());
    assert_eq!(arr.len(), 1);
    assert_eq!(arr[0].title, "Open one");
    let arr = tasks_json(&query_tasks_on(&db, &ListArgs { all: true, ..args() }, today()).unwrap());
    assert_eq!(arr.len(), 2);
    let done = arr.iter().find(|t| t.id == 2).unwrap();
    assert_eq!(done.status, "done");
    assert!(done.done_at.is_some());
}

#[test]
fn test_list_json_due_and_remind_values() {
    let mut db = TaskDb::new();
    add_task(&mut db, AddArgs { remind: Some("2026-07-08".to_string()), ..due_on("Dated task", "2026-07-10") });
    let arr = tasks_json(&query_tasks_on(&db, &args(), today()).unwrap());
    let t = &arr[0];
    assert_eq!(t.due.as_deref(), Some("2026-07-10"));
    assert_eq!(t.reminds.len(), 1);
    assert_eq!(t.reminds[0], "2026-07-08");
    assert_eq!(t.created.len(), 19);
    assert!(t.created.contains(':'));
}

#[test]
fn test_list_json_empty_is_bracket_pair() {
    let db = TaskDb::new();
    let tasks = query_tasks_on(&db, &args(), today()).unwrap();
    assert!(tasks_json(&tasks).is_empty());
}
