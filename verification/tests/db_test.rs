use my_task::date::{Date, DateTime};
use my_task::db::{
    add_remind, add_task, close_task, complete_task, delete_remind, delete_reminds_for_task,
    find_task, get_due_tasks, get_reminds_for_task, get_tasks_with_remind_today, list_projects,
    list_tasks, parse_datetime, search_tasks, set_project_category, update_task, TaskDb,
};
use my_task::db::{legacy_important, migrate_legacy_projects, ProjectRecord};
use my_task::model::{SortKey, SortOrder, Status};

fn day(y: i32, m: u32, d: u32) -> Date {
    Date::new(y, m, d).unwrap()
}

fn today() -> Date {
    day(2026, 3, 31)
}

fn now() -> DateTime {
    DateTime::from_date_hms(day(2026, 3, 31), 9, 30, 0).unwrap()
}

fn ids(db: &TaskDb, all: bool, project: Option<&str>, category: Option<&str>, due: Option<Date>, important_only: bool) -> Vec<String> {
    list_tasks(db, all, project, category, due, &[SortKey::Id], SortOrder::Asc, important_only)
        .unwrap()
        .into_iter()
        .map(|t| t.title)
        .collect()
}

#[test]
fn test_add_and_find() {
    let mut db = TaskDb::new();
    let id = add_task(&mut db, "Test task", Some("myproject"), None, now(), false).unwrap();
    let task = find_task(&db, id).expect("task should exist");
    assert_eq!(task.title, "Test task");
    assert_eq!(task.project, Some("myproject".to_string()));
    assert_eq!(task.status, Status::Open);
    assert_eq!(task.created, now());
}

#[test]
fn test_add_task_preserves_second_precision() {
    let mut db = TaskDb::new();
    let id = add_task(&mut db, "Timed task", None, None, now(), false).unwrap();
    let task = find_task(&db, id).expect("task should exist");
    assert_eq!(task.created, now());
    assert_eq!(task.updated, now());
    assert_eq!(my_task::date::datetime_to_string(task.created), "2026-03-31 09:30:00");
}

#[test]
fn test_complete_task() {
    let mut db = TaskDb::new();
    let id = add_task(&mut db, "Complete me", None, None, now(), false).unwrap();
    complete_task(&mut db, id, now());
    let task = find_task(&db, id).expect("task should exist");
    assert_eq!(task.status, Status::Done);
    assert_eq!(task.done_at, Some(now()));
}

#[test]
fn test_complete_task_done_at_equals_updated() {
    let mut db = TaskDb::new();
    let id = add_task(&mut db, "Complete me", None, None, now(), false).unwrap();
    let done_time = DateTime::from_date_hms(day(2026, 4, 1), 14, 5, 6).unwrap();
    complete_task(&mut db, id, done_time);
    let task = find_task(&db, id).expect("task should exist");
    assert_eq!(task.done_at, Some(done_time));
    assert_eq!(task.updated, done_time);
    assert_eq!(task.done_at, Some(task.updated));
}

#[test]
fn test_update_task_title() {
    let mut db = TaskDb::new();
    let id = add_task(&mut db, "Old title", None, None, now(), false).unwrap();
    update_task(&mut db, id, Some("New title"), None, None, now(), None).unwrap();
    let task = find_task(&db, id).expect("task should exist");
    assert_eq!(task.title, "New title");
}

#[test]
fn test_update_task_multiple_fields() {
    let mut db = TaskDb::new();
    let due = day(2026, 5, 1);
    let id = add_task(&mut db, "Task", None, None, now(), false).unwrap();
    update_task(&mut db, id, Some("Updated"), Some("proj"), Some(due), now(), None).unwrap();
    let task = find_task(&db, id).expect("task should exist");
    assert_eq!(task.title, "Updated");
    assert_eq!(task.project, Some("proj".to_string()));
    assert_eq!(task.due, Some(due));
}

#[test]
fn test_close_task() {
    let mut db = TaskDb::new();
    let id = add_task(&mut db, "Close me", None, None, now(), false).unwrap();
    close_task(&mut db, id, now());
    let task = find_task(&db, id).expect("task should exist");
    assert_eq!(task.status, Status::Closed);
}

#[test]
fn test_find_task_not_found() {
    let db = TaskDb::new();
    assert!(find_task(&db, 999).is_none());
}

#[test]
fn test_get_due_tasks_returns_due_before_target() {
    let mut db = TaskDb::new();
    let t = today();
    add_task(&mut db, "Overdue", None, Some(day(2026, 3, 28)), now(), false).unwrap();
    add_task(&mut db, "Due today", None, Some(t), now(), false).unwrap();
    add_task(&mut db, "Future", None, Some(day(2026, 5, 1)), now(), false).unwrap();
    add_task(&mut db, "No due", None, None, now(), false).unwrap();

    let tasks = get_due_tasks(&db, t);
    assert_eq!(tasks.len(), 2);
    assert_eq!(tasks[0].title, "Overdue");
    assert_eq!(tasks[1].title, "Due today");
}

#[test]
fn test_get_due_tasks_excludes_non_open() {
    let mut db = TaskDb::new();
    let t = today();
    let id1 = add_task(&mut db, "Done task", None, Some(t), now(), false).unwrap();
    complete_task(&mut db, id1, now());
    let id2 = add_task(&mut db, "Closed task", None, Some(t), now(), false).unwrap();
    close_task(&mut db, id2, now());
    add_task(&mut db, "Open task", None, Some(t), now(), false).unwrap();

    let tasks = get_due_tasks(&db, t);
    assert_eq!(tasks.len(), 1);
    assert_eq!(tasks[0].title, "Open task");
}

#[test]
fn test_get_due_tasks_excludes_null_due() {
    let mut db = TaskDb::new();
    add_task(&mut db, "No due", None, None, now(), false).unwrap();
    assert!(get_due_tasks(&db, today()).is_empty());
}

#[test]
fn test_add_and_get_reminds() {
    let mut db = TaskDb::new();
    let id = add_task(&mut db, "Remind me", None, None, now(), false).unwrap();
    let r1 = day(2026, 4, 10);
    let r2 = day(2026, 4, 15);
    add_remind(&mut db, id, r1).unwrap();
    add_remind(&mut db, id, r2).unwrap();

    let reminds = get_reminds_for_task(&db, id);
    assert_eq!(reminds.len(), 2);
    assert_eq!(reminds[0], r1);
    assert_eq!(reminds[1], r2);
}

#[test]
fn test_get_reminds_empty() {
    let mut db = TaskDb::new();
    let id = add_task(&mut db, "No remind", None, None, now(), false).unwrap();
    assert!(get_reminds_for_task(&db, id).is_empty());
}

#[test]
fn test_get_tasks_with_remind_today() {
    let mut db = TaskDb::new();
    let t = today();
    let id1 = add_task(&mut db, "Remind today", None, None, now(), false).unwrap();
    add_remind(&mut db, id1, t).unwrap();
    let id2 = add_task(&mut db, "Remind tomorrow", None, None, now(), false).unwrap();
    add_remind(&mut db, id2, day(2026, 4, 1)).unwrap();
    let _id3 = add_task(&mut db, "No remind", None, None, now(), false).unwrap();

    let tasks = get_tasks_with_remind_today(&db, t);
    assert_eq!(tasks.len(), 1);
    assert_eq!(tasks[0].title, "Remind today");
}

#[test]
fn test_get_tasks_with_remind_today_excludes_done() {
    let mut db = TaskDb::new();
    let t = today();
    let id1 = add_task(&mut db, "Done task", None, None, now(), false).unwrap();
    add_remind(&mut db, id1, t).unwrap();
    complete_task(&mut db, id1, now());
    let id2 = add_task(&mut db, "Closed task", None, None, now(), false).unwrap();
    add_remind(&mut db, id2, t).unwrap();
    close_task(&mut db, id2, now());
    let id3 = add_task(&mut db, "Open task", None, None, now(), false).unwrap();
    add_remind(&mut db, id3, t).unwrap();

    let tasks = get_tasks_with_remind_today(&db, t);
    assert_eq!(tasks.len(), 1);
    assert_eq!(tasks[0].title, "Open task");
}

#[test]
fn test_delete_reminds_for_task() {
    let mut db = TaskDb::new();
    let id = add_task(&mut db, "Task", None, None, now(), false).unwrap();
    add_remind(&mut db, id, today()).unwrap();
    delete_reminds_for_task(&mut db, id);
    assert!(get_reminds_for_task(&db, id).is_empty());
}

#[test]
fn test_delete_remind_single() {
    let mut db = TaskDb::new();
    let id = add_task(&mut db, "Task", None, None, now(), false).unwrap();
    let r1 = day(2026, 4, 10);
    let r2 = day(2026, 4, 15);
    add_remind(&mut db, id, r1).unwrap();
    add_remind(&mut db, id, r2).unwrap();

    let deleted = delete_remind(&mut db, id, r1);
    assert_eq!(deleted, 1);

    let reminds = get_reminds_for_task(&db, id);
    assert_eq!(reminds.len(), 1);
    assert_eq!(reminds[0], r2);
    assert!(!reminds.contains(&r1));
}

#[test]
fn test_delete_remind_not_found() {
    let mut db = TaskDb::new();
    let id = add_task(&mut db, "Task", None, None, now(), false).unwrap();
    let r1 = day(2026, 4, 10);
    add_remind(&mut db, id, r1).unwrap();

    let deleted = delete_remind(&mut db, id, day(2026, 4, 20));
    assert_eq!(deleted, 0);

    let reminds = get_reminds_for_task(&db, id);
    assert_eq!(reminds.len(), 1);
    assert_eq!(reminds[0], r1);
}

#[test]
fn test_add_task_with_important_true() {
    let mut db = TaskDb::new();
    let id = add_task(&mut db, "Important task", None, None, now(), true).unwrap();
    assert!(find_task(&db, id).unwrap().important);
}

#[test]
fn test_add_task_with_important_false() {
    let mut db = TaskDb::new();
    let id = add_task(&mut db, "Normal task", None, None, now(), false).unwrap();
    assert!(!find_task(&db, id).unwrap().important);
}

#[test]
fn test_update_task_important() {
    let mut db = TaskDb::new();
    let id = add_task(&mut db, "Task", None, None, now(), false).unwrap();
    update_task(&mut db, id, None, None, None, now(), Some(true)).unwrap();
    assert!(find_task(&db, id).unwrap().important);
}

#[test]
fn test_update_task_remove_important() {
    let mut db = TaskDb::new();
    let id = add_task(&mut db, "Task", None, None, now(), true).unwrap();
    update_task(&mut db, id, None, None, None, now(), Some(false)).unwrap();
    assert!(!find_task(&db, id).unwrap().important);
}

#[test]
fn test_update_task_important_none_unchanged() {
    let mut db = TaskDb::new();
    let id = add_task(&mut db, "Task", None, None, now(), true).unwrap();
    update_task(&mut db, id, Some("New title"), None, None, now(), None).unwrap();
    let task = find_task(&db, id).unwrap();
    assert_eq!(task.title, "New title");
    assert!(task.important);
}

#[test]
fn test_list_tasks_important_only() {
    let mut db = TaskDb::new();
    add_task(&mut db, "Normal", None, None, now(), false).unwrap();
    add_task(&mut db, "Important", None, None, now(), true).unwrap();
    add_task(&mut db, "Also normal", None, None, now(), false).unwrap();

    let tasks = list_tasks(&db, false, None, None, None, &[SortKey::Id], SortOrder::Asc, true).unwrap();
    assert_eq!(tasks.len(), 1);
    assert_eq!(tasks[0].title, "Important");
    assert!(tasks[0].important);
}

#[test]
fn test_search_tasks_by_keyword() {
    let mut db = TaskDb::new();
    add_task(&mut db, "Buy groceries", None, None, now(), false).unwrap();
    add_task(&mut db, "Write report", None, None, now(), false).unwrap();
    add_task(&mut db, "Buy flowers", None, None, now(), false).unwrap();

    let tasks = search_tasks(&db, "Buy", false, None);
    assert_eq!(tasks.len(), 2);
    assert_eq!(tasks[0].title, "Buy groceries");
    assert_eq!(tasks[1].title, "Buy flowers");
}

#[test]
fn test_search_tasks_open_only() {
    let mut db = TaskDb::new();
    add_task(&mut db, "Open task match", None, None, now(), false).unwrap();
    let id2 = add_task(&mut db, "Done task match", None, None, now(), false).unwrap();
    complete_task(&mut db, id2, now());

    let tasks = search_tasks(&db, "match", false, None);
    assert_eq!(tasks.len(), 1);
    assert_eq!(tasks[0].title, "Open task match");
}

#[test]
fn test_search_tasks_all() {
    let mut db = TaskDb::new();
    add_task(&mut db, "Open task match", None, None, now(), false).unwrap();
    let id2 = add_task(&mut db, "Done task match", None, None, now(), false).unwrap();
    complete_task(&mut db, id2, now());

    assert_eq!(search_tasks(&db, "match", true, None).len(), 2);
}

#[test]
fn test_search_tasks_with_project() {
    let mut db = TaskDb::new();
    add_task(&mut db, "Task alpha", Some("alpha"), None, now(), false).unwrap();
    add_task(&mut db, "Task beta", Some("beta"), None, now(), false).unwrap();
    add_task(&mut db, "Task alpha2", Some("alpha"), None, now(), false).unwrap();

    let tasks = search_tasks(&db, "Task", false, Some("alpha"));
    assert_eq!(tasks.len(), 2);
    assert_eq!(tasks[0].title, "Task alpha");
    assert_eq!(tasks[1].title, "Task alpha2");
}

#[test]
fn test_search_tasks_no_match() {
    let mut db = TaskDb::new();
    add_task(&mut db, "Some task", None, None, now(), false).unwrap();
    assert!(search_tasks(&db, "nonexistent", false, None).is_empty());
}

#[test]
fn test_search_tasks_case_insensitive() {
    let mut db = TaskDb::new();
    add_task(&mut db, "Buy Milk", None, None, now(), false).unwrap();
    add_task(&mut db, "buy bread", None, None, now(), false).unwrap();
    assert_eq!(search_tasks(&db, "buy", false, None).len(), 2);
}

#[test]
fn test_list_tasks_important_only_false() {
    let mut db = TaskDb::new();
    add_task(&mut db, "Normal", None, None, now(), false).unwrap();
    add_task(&mut db, "Important", None, None, now(), true).unwrap();
    assert_eq!(ids(&db, false, None, None, None, false).len(), 2);
}

#[test]
fn test_list_tasks_filter_by_due() {
    let mut db = TaskDb::new();
    let target = day(2026, 4, 15);
    add_task(&mut db, "Due target", None, Some(target), now(), false).unwrap();
    add_task(&mut db, "Due other", None, Some(day(2026, 4, 16)), now(), false).unwrap();
    add_task(&mut db, "No due", None, None, now(), false).unwrap();

    let tasks = list_tasks(&db, false, None, None, Some(target), &[SortKey::Id], SortOrder::Asc, false).unwrap();
    assert_eq!(tasks.len(), 1);
    assert_eq!(tasks[0].title, "Due target");
    assert_eq!(tasks[0].due, Some(target));
}

#[test]
fn test_list_tasks_due_and_project() {
    let mut db = TaskDb::new();
    let target = day(2026, 4, 15);
    add_task(&mut db, "Alpha due", Some("alpha"), Some(target), now(), false).unwrap();
    add_task(&mut db, "Beta due", Some("beta"), Some(target), now(), false).unwrap();
    add_task(&mut db, "Alpha other", Some("alpha"), Some(day(2026, 4, 16)), now(), false).unwrap();

    assert_eq!(ids(&db, false, Some("alpha"), None, Some(target), false), vec!["Alpha due"]);
}

#[test]
fn test_list_tasks_due_with_all() {
    let mut db = TaskDb::new();
    let target = day(2026, 4, 15);
    let done_id = add_task(&mut db, "Done due", None, Some(target), now(), false).unwrap();
    complete_task(&mut db, done_id, now());
    let closed_id = add_task(&mut db, "Closed due", None, Some(target), now(), false).unwrap();
    close_task(&mut db, closed_id, now());
    add_task(&mut db, "Open due", None, Some(target), now(), false).unwrap();

    let open_only = ids(&db, false, None, None, Some(target), false);
    assert_eq!(open_only.len(), 1);
    assert_eq!(open_only[0], "Open due");

    let with_all = ids(&db, true, None, None, Some(target), false);
    assert_eq!(with_all.len(), 3);
}

#[test]
fn test_list_tasks_due_none_unfiltered() {
    let mut db = TaskDb::new();
    add_task(&mut db, "Has due", None, Some(day(2026, 4, 15)), now(), false).unwrap();
    add_task(&mut db, "No due", None, None, now(), false).unwrap();
    assert_eq!(ids(&db, false, None, None, None, false).len(), 2);
}

#[test]
fn test_list_tasks_due_no_match() {
    let mut db = TaskDb::new();
    add_task(&mut db, "Has due", None, Some(day(2026, 4, 15)), now(), false).unwrap();
    assert!(ids(&db, false, None, None, Some(day(2026, 12, 31)), false).is_empty());
}

#[test]
fn test_list_projects_empty() {
    let db = TaskDb::new();
    assert!(list_projects(&db).is_empty());
}

#[test]
fn test_list_projects_with_counts() {
    let mut db = TaskDb::new();
    add_task(&mut db, "Open 1", Some("alpha"), None, now(), false).unwrap();
    add_task(&mut db, "Open 2", Some("alpha"), None, now(), false).unwrap();
    let id3 = add_task(&mut db, "Done", Some("alpha"), None, now(), false).unwrap();
    complete_task(&mut db, id3, now());
    add_task(&mut db, "Beta task", Some("beta"), None, now(), false).unwrap();
    set_project_category(&mut db, "alpha", Some("work"));

    let projects = list_projects(&db);
    assert_eq!(projects.len(), 2);
    assert_eq!(projects[0].name, "alpha");
    assert_eq!(projects[0].category, Some("work".to_string()));
    assert_eq!(projects[1].category, None);
    assert_eq!(projects[0].open_count, 2);
    assert_eq!(projects[0].done_count, 1);
    assert_eq!(projects[0].closed_count, 0);
    assert_eq!(projects[1].name, "beta");
    assert_eq!(projects[1].open_count, 1);
    assert_eq!(projects[1].done_count, 0);
}

#[test]
fn test_list_projects_excludes_no_project_tasks() {
    let mut db = TaskDb::new();
    add_task(&mut db, "No project", None, None, now(), false).unwrap();
    add_task(&mut db, "Has project", Some("proj"), None, now(), false).unwrap();
    let projects = list_projects(&db);
    assert_eq!(projects.len(), 1);
    assert_eq!(projects[0].name, "proj");
}

#[test]
fn test_set_project_category_sets_and_lists() {
    let mut db = TaskDb::new();
    add_task(&mut db, "Task", Some("job"), None, now(), false).unwrap();
    assert!(set_project_category(&mut db, "job", Some("work")));
    let projects = list_projects(&db);
    assert_eq!(projects.len(), 1);
    assert_eq!(projects[0].name, "job");
    assert_eq!(projects[0].category, Some("work".to_string()));
}

#[test]
fn test_set_project_category_clears_with_none() {
    let mut db = TaskDb::new();
    add_task(&mut db, "Task", Some("job"), None, now(), false).unwrap();
    set_project_category(&mut db, "job", Some("work"));
    assert!(set_project_category(&mut db, "job", None));
    assert_eq!(list_projects(&db)[0].category, None);
}

#[test]
fn test_set_project_category_clears_with_empty_string() {
    let mut db = TaskDb::new();
    add_task(&mut db, "Task", Some("job"), None, now(), false).unwrap();
    set_project_category(&mut db, "job", Some("work"));
    assert!(set_project_category(&mut db, "job", Some("   ")));
    assert_eq!(list_projects(&db)[0].category, None);
}

#[test]
fn test_set_project_category_missing_project_returns_false() {
    let mut db = TaskDb::new();
    assert!(!set_project_category(&mut db, "ghost", Some("work")));
    assert!(list_projects(&db).is_empty());
}

#[test]
fn test_list_tasks_filter_by_category() {
    let mut db = TaskDb::new();
    add_task(&mut db, "Job task", Some("job"), None, now(), false).unwrap();
    add_task(&mut db, "Hobby task", Some("hobby"), None, now(), false).unwrap();
    set_project_category(&mut db, "job", Some("work"));
    set_project_category(&mut db, "hobby", Some("fun"));
    assert_eq!(ids(&db, false, None, Some("work"), None, false), vec!["Job task"]);
}

#[test]
fn test_list_tasks_category_and_project_and() {
    let mut db = TaskDb::new();
    add_task(&mut db, "Alpha task", Some("alpha"), None, now(), false).unwrap();
    add_task(&mut db, "Beta task", Some("beta"), None, now(), false).unwrap();
    set_project_category(&mut db, "alpha", Some("work"));
    set_project_category(&mut db, "beta", Some("work"));
    assert_eq!(ids(&db, false, Some("alpha"), Some("work"), None, false), vec!["Alpha task"]);
}

#[test]
fn test_list_tasks_category_none_returns_all() {
    let mut db = TaskDb::new();
    add_task(&mut db, "Job task", Some("job"), None, now(), false).unwrap();
    add_task(&mut db, "Plain task", None, None, now(), false).unwrap();
    set_project_category(&mut db, "job", Some("work"));
    assert_eq!(ids(&db, false, None, None, None, false).len(), 2);
}

#[test]
fn test_list_tasks_category_no_match() {
    let mut db = TaskDb::new();
    add_task(&mut db, "Job task", Some("job"), None, now(), false).unwrap();
    set_project_category(&mut db, "job", Some("work"));
    assert!(ids(&db, false, None, Some("nonexistent"), None, false).is_empty());
}

#[test]
fn test_list_tasks_category_and_due_and() {
    let mut db = TaskDb::new();
    let target = day(2026, 4, 15);
    add_task(&mut db, "Work due target", Some("job"), Some(target), now(), false).unwrap();
    add_task(&mut db, "Work due other", Some("job"), Some(day(2026, 4, 16)), now(), false).unwrap();
    add_task(&mut db, "Fun due target", Some("hobby"), Some(target), now(), false).unwrap();
    set_project_category(&mut db, "job", Some("work"));
    set_project_category(&mut db, "hobby", Some("fun"));
    assert_eq!(ids(&db, false, None, Some("work"), Some(target), false), vec!["Work due target"]);
}

#[test]
fn test_parse_datetime_full() {
    let dt = parse_datetime("2026-03-01 12:34:56");
    assert_eq!(dt, Some(DateTime::from_date_hms(day(2026, 3, 1), 12, 34, 56).unwrap()));
}

#[test]
fn test_parse_datetime_date_only_fallback() {
    let dt = parse_datetime("2026-03-01");
    assert_eq!(dt, Some(DateTime::from_date_hms(day(2026, 3, 1), 0, 0, 0).unwrap()));
}

#[test]
fn test_list_tasks_sorted_by_due_puts_missing_last() {
    let mut db = TaskDb::new();
    add_task(&mut db, "No due", None, None, now(), false).unwrap();
    add_task(&mut db, "Later", None, Some(day(2026, 5, 1)), now(), false).unwrap();
    add_task(&mut db, "Sooner", None, Some(day(2026, 4, 1)), now(), false).unwrap();
    let titles: Vec<String> = list_tasks(&db, false, None, None, None, &[SortKey::Due], SortOrder::Asc, false)
        .unwrap()
        .into_iter()
        .map(|t| t.title)
        .collect();
    assert_eq!(titles, vec!["Sooner", "Later", "No due"]);
}

#[test]
fn test_list_tasks_missing_due_and_project_last_when_descending() {
    let mut db = TaskDb::new();
    add_task(&mut db, "No due", None, None, now(), false).unwrap();
    add_task(&mut db, "Sooner", Some("a"), Some(day(2026, 4, 1)), now(), false).unwrap();
    add_task(&mut db, "Later", Some("b"), Some(day(2026, 5, 1)), now(), false).unwrap();
    let by = |k: SortKey| -> Vec<String> {
        list_tasks(&db, false, None, None, None, &[k], SortOrder::Desc, false)
            .unwrap()
            .into_iter()
            .map(|t| t.title)
            .collect()
    };
    assert_eq!(by(SortKey::Due), vec!["Later", "Sooner", "No due"]);
    assert_eq!(by(SortKey::Project), vec!["Later", "Sooner", "No due"]);
}

#[test]
fn test_list_tasks_without_sort_key_is_refused() {
    let db = TaskDb::new();
    assert!(list_tasks(&db, false, None, None, None, &[], SortOrder::Asc, false).is_err());
}

#[test]
fn test_find_after_add_and_remind_dates_law() {
    // A task read back right after adding it has the values it was added
    // with, and reminders come back earliest first.
    let mut db = TaskDb::new();
    let id = add_task(&mut db, "Check", Some("p"), Some(day(2026, 4, 2)), now(), true).unwrap();
    add_remind(&mut db, id, day(2026, 4, 9)).unwrap();
    add_remind(&mut db, id, day(2026, 4, 3)).unwrap();
    let t = find_task(&db, id).unwrap();
    assert_eq!(t.title, "Check");
    assert_eq!(t.project.as_deref(), Some("p"));
    assert_eq!(t.due, Some(day(2026, 4, 2)));
    assert!(t.important);
    assert_eq!(get_reminds_for_task(&db, id), vec![day(2026, 4, 3), day(2026, 4, 9)]);
}

#[test]
fn test_added_ids_are_new_and_increasing() {
    let mut db = TaskDb::new();
    let a = add_task(&mut db, "A", None, None, now(), false).unwrap();
    let b = add_task(&mut db, "B", None, None, now(), false).unwrap();
    complete_task(&mut db, a, now());
    close_task(&mut db, b, now());
    let c = add_task(&mut db, "C", None, None, now(), false).unwrap();
    assert!(a < b && b < c);
    assert_eq!(find_task(&db, c).unwrap().title, "C");
    assert_eq!(find_task(&db, a).unwrap().title, "A");
}

#[test]
fn test_tasks_select_sql_joins_project_names() {
    let sql = my_task::db::tasks_select_sql();
    assert!(sql.starts_with("SELECT t.id, t.title, t.status, t.source, p.name AS project,"));
    assert!(sql.ends_with("LEFT JOIN projects p ON t.project_id = p.id"));
}

#[test]
fn test_changes_to_one_task_leave_others_alone() {
    let mut db = TaskDb::new();
    let a = add_task(&mut db, "A", Some("p"), Some(day(2026, 4, 1)), now(), false).unwrap();
    let b = add_task(&mut db, "B", None, None, now(), true).unwrap();
    let later = DateTime::from_date_hms(day(2026, 4, 2), 8, 0, 0).unwrap();
    let before = find_task(&db, b).unwrap();
    complete_task(&mut db, a, later);
    close_task(&mut db, a, later);
    update_task(&mut db, a, Some("A2"), Some("q"), None, later, Some(true)).unwrap();
    let after = find_task(&db, b).unwrap();
    assert_eq!(after.title, before.title);
    assert_eq!(after.status, before.status);
    assert_eq!(after.project, before.project);
    assert_eq!(after.due, before.due);
    assert_eq!(after.updated, before.updated);
    assert_eq!(after.important, before.important);
    assert_eq!(find_task(&db, a).unwrap().project.as_deref(), Some("q"));
}

#[test]
fn test_search_keyword_is_literal_text() {
    let mut db = TaskDb::new();
    add_task(&mut db, "abc", None, None, now(), false).unwrap();
    add_task(&mut db, "xyz", None, None, now(), false).unwrap();
    add_task(&mut db, "100% done", None, None, now(), false).unwrap();
    add_task(&mut db, "a_b", None, None, now(), false).unwrap();
    let titles = |k: &str| -> Vec<String> { search_tasks(&db, k, false, None).into_iter().map(|t| t.title).collect() };
    assert_eq!(titles("%"), vec!["100% done"]);
    assert_eq!(titles("_"), vec!["a_b"]);
    assert_eq!(titles("a_c"), Vec::<String>::new());
    assert_eq!(titles("ABC"), vec!["abc"]);
}

#[test]
fn test_reminds_after_several_adds_are_sorted_with_duplicates() {
    let mut db = TaskDb::new();
    let a = add_task(&mut db, "A", None, None, now(), false).unwrap();
    let b = add_task(&mut db, "B", None, None, now(), false).unwrap();
    add_remind(&mut db, a, day(2026, 4, 15)).unwrap();
    add_remind(&mut db, b, day(2026, 4, 1)).unwrap();
    add_remind(&mut db, a, day(2026, 4, 10)).unwrap();
    add_remind(&mut db, a, day(2026, 4, 10)).unwrap();
    assert_eq!(get_reminds_for_task(&db, a), vec![day(2026, 4, 10), day(2026, 4, 10), day(2026, 4, 15)]);
    assert_eq!(get_reminds_for_task(&db, b), vec![day(2026, 4, 1)]);
}

#[test]
fn test_migrate_legacy_projects_moves_names() {
    let existing = vec![ProjectRecord { id: 3, name: "a".to_string(), category: Some("work".to_string()) }];
    let names = vec![
        Some("b".to_string()),
        None,
        Some(String::new()),
        Some("a".to_string()),
        Some("b".to_string()),
        Some("c".to_string()),
    ];
    let (projects, next, ids) = migrate_legacy_projects(existing, 7, &names).unwrap();
    let got: Vec<(u32, String)> = projects.iter().map(|p| (p.id, p.name.clone())).collect();
    assert_eq!(got, vec![(3, "a".to_string()), (7, "b".to_string()), (8, "c".to_string())]);
    assert_eq!(projects[0].category, Some("work".to_string()));
    assert_eq!(projects[1].category, None);
    assert_eq!(next, 9);
    assert_eq!(ids, vec![Some(7), None, None, Some(3), Some(7), Some(8)]);
}

#[test]
fn test_migrate_legacy_projects_runs_out_of_ids() {
    let names = vec![Some("x".to_string())];
    assert!(migrate_legacy_projects(Vec::new(), u32::MAX, &names).is_none());
    let (projects, next, ids) = migrate_legacy_projects(Vec::new(), u32::MAX - 1, &names).unwrap();
    assert_eq!(projects[0].id, u32::MAX - 1);
    assert_eq!(next, u32::MAX);
    assert_eq!(ids, vec![Some(u32::MAX - 1)]);
    let none: Vec<Option<String>> = vec![None, Some(String::new())];
    let (projects, next, ids) = migrate_legacy_projects(Vec::new(), u32::MAX, &none).unwrap();
    assert!(projects.is_empty());
    assert_eq!(next, u32::MAX);
    assert_eq!(ids, vec![None, None]);
}

#[test]
fn test_legacy_important_defaults_to_zero() {
    assert_eq!(legacy_important(false, Some(1)), 0);
    assert_eq!(legacy_important(true, None), 0);
    assert_eq!(legacy_important(true, Some(1)), 1);
}
