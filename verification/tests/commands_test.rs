use my_task::table::TextStyle;
use my_task::commands::add::AddArgs;
use my_task::commands::close::CloseArgs;
use my_task::commands::done::DoneArgs;
use my_task::commands::edit::yaml::{parse_yaml, tasks_to_yaml};
use my_task::commands::edit::{apply_edits, edit_targets, EditArgs};
use my_task::commands::list::{list_report_on, ListArgs};
use my_task::commands::notify::notify_report_on;
use my_task::commands::project::ProjectArgs;
use my_task::commands::projects::projects_report_on;
use my_task::commands::search::{search_report_on, SearchArgs};
use my_task::commands::show::{find_task_with_reminds, show_text, ShowArgs};
use my_task::commands::{add, close, done, edit, list, project, show, Report};
use my_task::date::{Date, DateTime};
use my_task::db::{add_remind, find_task, get_reminds_for_task, list_projects, row_to_task, TaskDb, TaskRecord};
use my_task::model::Status;

fn day(y: i32, m: u32, d: u32) -> Date {
    Date::new(y, m, d).unwrap()
}

fn now() -> DateTime {
    DateTime::from_date_hms(day(2026, 4, 8), 10, 0, 0).unwrap()
}

fn add_args(title: &str) -> AddArgs {
    AddArgs { title: title.to_string(), project: None, due: None, remind: None, important: false }
}

fn add(db: &mut TaskDb, title: &str) -> Report {
    add::run(db, &add_args(title), now())
}

fn edit_args(id: u32) -> EditArgs {
    EditArgs {
        id: Some(id),
        title: None,
        project: None,
        due: None,
        important: false,
        no_important: false,
        remind: None,
        remove_remind: None,
        no_remind: false,
        interactive: false,
        filter_project: None,
    }
}

fn list_args() -> ListArgs {
    ListArgs {
        all: false,
        project: None,
        category: None,
        due: None,
        sort: vec!["id".to_string()],
        asc: false,
        desc: false,
        important_only: false,
        follow: false,
        interval: 2,
    }
}

#[test]
fn test_add_basic() {
    let mut db = TaskDb::new();
    let r = add(&mut db, "Test task");
    assert!(!r.failed);
    assert_eq!(r.out, vec!["Added: #1 Test task"]);
    assert_eq!(find_task(&db, 1).unwrap().title, "Test task");
}

#[test]
fn test_add_auto_id() {
    let mut db = TaskDb::new();
    assert_eq!(add(&mut db, "First").out, vec!["Added: #1 First"]);
    assert_eq!(add(&mut db, "Second").out, vec!["Added: #2 Second"]);
}

#[test]
fn test_add_empty_title() {
    let mut db = TaskDb::new();
    let r = add(&mut db, "");
    assert!(r.failed);
    assert_eq!(r.err, vec!["Error: title cannot be empty"]);
    assert!(db.tasks.is_empty());
}

#[test]
fn test_add_invalid_due() {
    let mut db = TaskDb::new();
    let mut a = add_args("Bad due");
    a.due = Some("aaaa".to_string());
    let r = add::run(&mut db, &a, now());
    assert!(r.failed);
    assert!(r.err[0].contains("invalid due date"));
}

#[test]
fn test_add_with_remind_fuzzy() {
    let mut db = TaskDb::new();
    let mut a = add_args("Remind tomorrow");
    a.remind = Some("明日".to_string());
    let r = add::run(&mut db, &a, now());
    assert!(r.out[0].contains("Added: #1"));
    assert_eq!(get_reminds_for_task(&db, 1), vec![day(2026, 4, 9)]);
}

#[test]
fn test_add_with_every_option_fuzzy() {
    let mut db = TaskDb::new();
    let mut a = add_args("Remind tomorrow");
    a.remind = Some("明日".to_string());
    a.due = Some("来週".to_string());
    a.project = Some("home".to_string());
    a.important = true;
    let r = add::run(&mut db, &a, now());
    assert_eq!(r.out, vec!["Added: #1 Remind tomorrow"]);
    assert_eq!(get_reminds_for_task(&db, 1), vec![day(2026, 4, 9)]);
    let t = find_task(&db, 1).unwrap();
    assert_eq!(t.due, Some(day(2026, 4, 15)));
    assert_eq!(t.project.as_deref(), Some("home"));
    assert!(t.important);
}

#[test]
fn test_add_with_remind_invalid() {
    let mut db = TaskDb::new();
    let mut a = add_args("Bad remind");
    a.remind = Some("invalid".to_string());
    let r = add::run(&mut db, &a, now());
    assert!(r.failed);
    assert!(r.err[0].contains("invalid remind date"));
    assert!(db.tasks.is_empty());
}

#[test]
fn test_done_multiple_ids_partial_failure() {
    let mut db = TaskDb::new();
    add(&mut db, "Real task");
    add(&mut db, "Another real task");
    let r = done::run(&mut db, &DoneArgs { ids: vec![1, 999, 2] }, now());
    assert!(r.failed);
    assert_eq!(r.out, vec!["Done: #1 Real task", "Done: #2 Another real task"]);
    assert_eq!(r.err, vec!["Error: task #999 not found"]);
    // The tasks that were found are done: the list no longer shows them.
    let listed = list::run(&db, &list_args(), TextStyle::Plain).out.join("\n");
    assert!(!listed.contains("Real task"));
    assert!(!listed.contains("Another real task"));
}

#[test]
fn test_done_already_done() {
    let mut db = TaskDb::new();
    add(&mut db, "Double done");
    assert!(!done::run(&mut db, &DoneArgs { ids: vec![1] }, now()).failed);
    let r = done::run(&mut db, &DoneArgs { ids: vec![1] }, now());
    assert_eq!(r.err, vec!["Error: task #1 is already done"]);
}

#[test]
fn test_close_done_task() {
    let mut db = TaskDb::new();
    add(&mut db, "Done then close");
    done::run(&mut db, &DoneArgs { ids: vec![1] }, now());
    let r = close::run(&mut db, &CloseArgs { id: 1 }, now());
    assert_eq!(r.out, vec!["Closed: #1 Done then close"]);
    assert_eq!(find_task(&db, 1).unwrap().status, Status::Closed);
}

#[test]
fn test_close_already_closed() {
    let mut db = TaskDb::new();
    add(&mut db, "Double close");
    close::run(&mut db, &CloseArgs { id: 1 }, now());
    let r = close::run(&mut db, &CloseArgs { id: 1 }, now());
    assert_eq!(r.err, vec!["Error: task #1 is already closed"]);
}

#[test]
fn test_project_set_and_clear_category() {
    let mut db = TaskDb::new();
    let mut a = add_args("Task A");
    a.project = Some("job".to_string());
    add::run(&mut db, &a, now());
    let r = project::run(&mut db, &ProjectArgs { name: "job".to_string(), set_category: Some("work".to_string()), clear_category: false });
    assert_eq!(r.out, vec!["Set category 'work' for project 'job'"]);
    assert_eq!(list_projects(&db)[0].category.as_deref(), Some("work"));
    let r = project::run(&mut db, &ProjectArgs { name: "job".to_string(), set_category: None, clear_category: true });
    assert_eq!(r.out, vec!["Cleared category for project 'job'"]);
    let r = project::run(&mut db, &ProjectArgs { name: "ghost".to_string(), set_category: Some("x".to_string()), clear_category: false });
    assert_eq!(r.err, vec!["Error: project 'ghost' not found"]);
    let r = project::run(&mut db, &ProjectArgs { name: "job".to_string(), set_category: None, clear_category: false });
    assert_eq!(r.err, vec!["Error: specify --set-category <name> or --clear-category"]);
}

#[test]
fn test_show_lines() {
    let mut db = TaskDb::new();
    let mut a = add_args("Show me");
    a.due = Some("2026-04-20".to_string());
    add::run(&mut db, &a, now());
    add_remind(&mut db, 1, day(2026, 4, 12)).unwrap();
    add_remind(&mut db, 1, day(2026, 4, 10)).unwrap();
    let t = find_task_with_reminds(&db, 1).unwrap();
    assert_eq!(
        show_text(&t),
        vec![
            "ID: 1",
            "Title: Show me",
            "Status: open",
            "Project: (none)",
            "Due: 2026-04-20",
            "Remind: 2026-04-10, 2026-04-12",
            "Important: no",
            "Created: 2026-04-08 10:00:00",
            "Updated: 2026-04-08 10:00:00",
        ]
    );
    assert!(find_task_with_reminds(&db, 9).is_none());
}

#[test]
fn test_show_command_report() {
    let mut db = TaskDb::new();
    add(&mut db, "Shown");
    let r = show::run(&db, &ShowArgs { id: 1, json: false });
    assert!(!r.failed);
    assert_eq!(r.out[0], "ID: 1");
    assert_eq!(r.out[1], "Title: Shown");
    assert_eq!(r.out[5], "Remind: (none)");
    assert_eq!(r.out.len(), 9);
    let r = show::run(&db, &ShowArgs { id: 42, json: false });
    assert!(r.failed);
    assert_eq!(r.err, vec!["Error: task #42 not found"]);
}

#[test]
fn test_edit_flag_updates_and_reminds() {
    let mut db = TaskDb::new();
    add(&mut db, "Task");
    let mut e = edit_args(1);
    e.title = Some("New title".to_string());
    e.remind = Some("2026-04-10".to_string());
    let r = edit::run_flag(&mut db, &e, now());
    assert_eq!(r.out, vec!["Updated: #1 New title"]);
    assert_eq!(get_reminds_for_task(&db, 1), vec![day(2026, 4, 10)]);

    let mut e = edit_args(1);
    e.remove_remind = Some("2026-04-20".to_string());
    let r = edit::run_flag(&mut db, &e, now());
    assert_eq!(r.err, vec!["Error: task #1 has no remind on 2026-04-20"]);
    assert_eq!(get_reminds_for_task(&db, 1), vec![day(2026, 4, 10)]);

    let mut e = edit_args(1);
    e.no_remind = true;
    let r = edit::run_flag(&mut db, &e, now());
    assert!(!r.failed);
    assert!(get_reminds_for_task(&db, 1).is_empty());
}

#[test]
fn test_edit_flag_refusals() {
    let mut db = TaskDb::new();
    add(&mut db, "Task");
    let r = edit::run_flag(&mut db, &edit_args(1), now());
    assert!(r.err[0].contains("specify at least one field to edit"));
    let mut e = edit_args(1);
    e.important = true;
    e.no_important = true;
    assert!(edit::run_flag(&mut db, &e, now()).failed);
    let mut e = edit_args(999);
    e.title = Some("New".to_string());
    assert_eq!(edit::run_flag(&mut db, &e, now()).err, vec!["Error: task #999 not found"]);
    let mut e = edit_args(1);
    e.title = Some(String::new());
    assert!(edit::run_flag(&mut db, &e, now()).err[0].contains("title cannot be empty"));
    let mut e = edit_args(1);
    e.remind = Some("2026-04-10".to_string());
    e.no_remind = true;
    assert!(edit::run_flag(&mut db, &e, now()).failed);
}

#[test]
fn test_interactive_unchanged_file_changes_nothing() {
    let mut db = TaskDb::new();
    add(&mut db, "One");
    add(&mut db, "Two");
    let tasks = edit_targets(&db, None, None).unwrap();
    let yaml = tasks_to_yaml(&tasks);
    let entries = parse_yaml(&yaml).unwrap();
    let r = apply_edits(&mut db, &tasks, &entries, now());
    assert_eq!(r.out, vec!["No changes"]);
}

#[test]
fn test_interactive_edit_and_delete_block() {
    let mut db = TaskDb::new();
    add(&mut db, "One");
    add(&mut db, "Two");
    let tasks = edit_targets(&db, None, None).unwrap();
    let edited = "- id: 1\n  title: One renamed\n  project: p\n  due: 2026-05-01\n";
    let entries = parse_yaml(edited).unwrap();
    let r = apply_edits(&mut db, &tasks, &entries, now());
    assert_eq!(r.out, vec!["Updated 1 tasks, Closed 1 tasks"]);
    let one = find_task(&db, 1).unwrap();
    assert_eq!(one.title, "One renamed");
    assert_eq!(one.project.as_deref(), Some("p"));
    assert_eq!(one.due, Some(day(2026, 5, 1)));
    assert_eq!(find_task(&db, 2).unwrap().status, Status::Closed);
}

#[test]
fn test_interactive_emptied_due_is_cleared() {
    let mut db = TaskDb::new();
    let mut a = add_args("Dated");
    a.due = Some("2026-05-01".to_string());
    add::run(&mut db, &a, now());
    let tasks = edit_targets(&db, None, None).unwrap();
    let edited = "- id: 1\n  title: Dated\n  project:\n  due:\n";
    let entries = parse_yaml(edited).unwrap();
    let r = apply_edits(&mut db, &tasks, &entries, now());
    assert_eq!(r.out, vec!["Updated 1 tasks"]);
    assert_eq!(find_task(&db, 1).unwrap().due, None);
}

#[test]
fn test_interactive_empty_title_stops() {
    let mut db = TaskDb::new();
    add(&mut db, "One");
    let tasks = edit_targets(&db, Some(1), None).unwrap();
    let entries = parse_yaml("- id: 1\n  title:\n").unwrap();
    let r = apply_edits(&mut db, &tasks, &entries, now());
    assert_eq!(r.err, vec!["Error: title cannot be empty for task #1"]);
    assert!(edit_targets(&db, Some(5), None).is_err());
}

#[test]
fn test_list_report_messages() {
    let mut db = TaskDb::new();
    let r = list_report_on(&db, &list_args(), day(2026, 4, 8), 120, TextStyle::Plain);
    assert_eq!(r.out, vec!["No tasks. Add one with: my-task add \"task title\""]);
    add(&mut db, "Listed");
    let r = list_report_on(&db, &list_args(), day(2026, 4, 8), 120, TextStyle::Plain);
    assert!(r.out[0].contains("Listed"));
    assert!(r.out[0].ends_with("\n\n1 tasks"));
    let mut a = list_args();
    a.sort = vec!["age".to_string(), "bogus".to_string()];
    let r = list_report_on(&db, &a, day(2026, 4, 8), 120, TextStyle::Plain);
    assert_eq!(r.err, vec!["Error: unknown sort key 'bogus'. Use: id, due, project, created"]);
    let mut a = list_args();
    a.due = Some("someday".to_string());
    let r = list_report_on(&db, &a, day(2026, 4, 8), 120, TextStyle::Plain);
    assert!(r.err[0].starts_with("Error: invalid due date 'someday'"));
}

#[test]
fn test_search_report_messages() {
    let mut db = TaskDb::new();
    add(&mut db, "Fix login bug");
    let a = SearchArgs { keyword: "nothing".to_string(), all: false, project: None };
    let r = search_report_on(&db, &a, day(2026, 4, 8), 120, TextStyle::Plain);
    assert_eq!(r.out, vec!["No tasks found for keyword: \"nothing\""]);
    let a = SearchArgs { keyword: "LOGIN".to_string(), all: false, project: None };
    let r = search_report_on(&db, &a, day(2026, 4, 8), 120, TextStyle::Plain);
    assert!(r.out[0].contains("Fix login bug"));
}

#[test]
fn test_projects_report_lines() {
    let mut db = TaskDb::new();
    assert_eq!(projects_report_on(&db, 120, TextStyle::Plain).out, vec!["No projects."]);
    let mut a = add_args("Task A");
    a.project = Some("job".to_string());
    add::run(&mut db, &a, now());
    let r = projects_report_on(&db, 120, TextStyle::Plain);
    assert_eq!(r.out.len(), 3);
    assert!(r.out[0].contains("job"));
    assert_eq!(r.out[1], "");
    assert_eq!(r.out[2], "1 projects");
}

#[test]
fn test_notify_sections() {
    let mut db = TaskDb::new();
    let today = day(2026, 4, 8);
    assert!(notify_report_on(&db, 0, today, 120, TextStyle::Plain).out.is_empty());
    let mut a = add_args("Overdue");
    a.due = Some("2026-04-06".to_string());
    add::run(&mut db, &a, now());
    let mut b = add_args("Soon");
    b.due = Some("2026-04-10".to_string());
    add::run(&mut db, &b, now());
    add(&mut db, "Reminded");
    add_remind(&mut db, 3, today).unwrap();
    let r = notify_report_on(&db, 3, today, 120, TextStyle::Plain);
    assert_eq!(r.out.len(), 9);
    assert_eq!(r.out[0], "期限切れタスクがあります");
    assert!(r.out[1].contains("2日超過"));
    assert!(r.out[1].contains("あと2日"));
    assert_eq!(r.out[3], "2 tasks");
    assert_eq!(r.out[4], "");
    assert_eq!(r.out[5], "リマインドタスクがあります");
    assert!(r.out[6].contains("Reminded"));
    assert_eq!(r.out[8], "1 tasks");
}

#[test]
fn test_status_text_roundtrip() {
    for s in [Status::Open, Status::Done, Status::Closed] {
        assert_eq!(Status::from_str(s.as_str()), s);
    }
    assert_eq!(Status::from_str("anything else"), Status::Open);
}

#[test]
fn test_ids_exhausted_is_reported() {
    let mut db = TaskDb::from_rows(Vec::new(), Vec::new(), Vec::new(), u32::MAX, 1, 1).unwrap();
    let r = add(&mut db, "No room");
    assert!(r.failed);
    assert_eq!(r.err, vec!["Error: failed to write database"]);
    assert_eq!(
        my_task::db::add_task(&mut db, "x", None, None, now(), false),
        Err(my_task::db::DbError::IdsExhausted)
    );
}

#[test]
fn test_from_rows_refuses_unordered_ids() {
    let rec = |id: u32| TaskRecord {
        id,
        title: "t".to_string(),
        status: Status::Open,
        source: "private".to_string(),
        project_id: None,
        due: None,
        done_at: None,
        created: now(),
        updated: now(),
        important: false,
    };
    assert!(TaskDb::from_rows(vec![rec(2), rec(1)], Vec::new(), Vec::new(), 3, 1, 1).is_none());
    assert!(TaskDb::from_rows(vec![rec(1), rec(2)], Vec::new(), Vec::new(), 3, 1, 1).is_some());
    assert!(TaskDb::from_rows(vec![rec(1), rec(5)], Vec::new(), Vec::new(), 3, 1, 1).is_none());
}

#[test]
fn test_row_to_task_reads_stored_values() {
    let t = row_to_task(3, "Row".to_string(), "done", "private".to_string(), Some(2), Some("2026-04-01"), Some("2026-04-02"), "2026-03-01 08:00:00", "2026-03-02", 1).unwrap();
    assert_eq!(t.id, 3);
    assert_eq!(t.status, Status::Done);
    assert_eq!(t.project_id, Some(2));
    assert_eq!(t.due, Some(day(2026, 4, 1)));
    assert_eq!(t.done_at, Some(DateTime::from_date_hms(day(2026, 4, 2), 0, 0, 0).unwrap()));
    assert_eq!(t.updated, DateTime::from_date_hms(day(2026, 3, 2), 0, 0, 0).unwrap());
    assert!(t.important);
    assert!(row_to_task(3, "Row".to_string(), "open", "private".to_string(), None, Some("bad"), None, "2026-03-01", "2026-03-01", 0).is_none());
    assert!(row_to_task(-1, "Row".to_string(), "open", "private".to_string(), None, None, None, "2026-03-01", "2026-03-01", 0).is_none());
}
