use my_task::date::{Date, DateTime};
use my_task::commands::edit::yaml::{parse_yaml, tasks_to_yaml};
use my_task::model::{Status, Task};

fn day(y: i32, m: u32, d: u32) -> Date {
    Date::new(y, m, d).unwrap()
}

#[test]
fn test_parse_yaml_single() {
    let input = "\n# comment\n- id: 5\n  title: Hello world\n  project: my-app\n  due: 2026-04-10\n";
    let entries = parse_yaml(input).unwrap();
    assert_eq!(entries.len(), 1);
    assert_eq!(entries[0].id, 5);
    assert_eq!(entries[0].title, "Hello world");
    assert_eq!(entries[0].project, Some("my-app".to_string()));
    assert_eq!(entries[0].due, Some(day(2026, 4, 10)));
}

#[test]
fn test_parse_yaml_multiple() {
    let input = "\n- id: 1\n  title: Task one\n  project: proj-a\n  due:\n\n- id: 2\n  title: Task two\n  project:\n  due: 2026-05-01\n";
    let entries = parse_yaml(input).unwrap();
    assert_eq!(entries.len(), 2);
    assert_eq!(entries[0].title, "Task one");
    assert_eq!(entries[0].project, Some("proj-a".to_string()));
    assert_eq!(entries[0].due, None);
    assert_eq!(entries[1].title, "Task two");
    assert_eq!(entries[1].project, None);
    assert_eq!(entries[1].due, Some(day(2026, 5, 1)));
}

#[test]
fn test_parse_yaml_deleted_block() {
    let input = "\n- id: 1\n  title: Task one\n  project:\n  due:\n";
    let entries = parse_yaml(input).unwrap();
    assert_eq!(entries.len(), 1);
    assert_eq!(entries[0].id, 1);
}

#[test]
fn test_parse_yaml_empty_input() {
    let entries = parse_yaml("# only comments\n\n").unwrap();
    assert_eq!(entries.len(), 0);
}

#[test]
fn test_tasks_to_yaml_roundtrip() {
    let tasks = vec![Task {
        id: 1,
        title: "Test task".to_string(),
        status: Status::Open,
        source: "private".to_string(),
        created: DateTime::from_date_hms(day(2026, 3, 31), 0, 0, 0).unwrap(),
        project: Some("my-proj".to_string()),
        due: Some(day(2026, 4, 10)),
        done_at: None,
        updated: DateTime::from_date_hms(day(2026, 3, 31), 0, 0, 0).unwrap(),
        reminds: Vec::new(),
        important: false,
    }];
    let yaml = tasks_to_yaml(&tasks);
    let entries = parse_yaml(&yaml).unwrap();
    assert_eq!(entries.len(), 1);
    assert_eq!(entries[0].id, 1);
    assert_eq!(entries[0].title, "Test task");
    assert_eq!(entries[0].project, Some("my-proj".to_string()));
    assert_eq!(entries[0].due, Some(day(2026, 4, 10)));
}

#[test]
fn test_tasks_to_yaml_exact_text() {
    let tasks = vec![Task {
        id: 7,
        title: "Pay rent".to_string(),
        status: Status::Open,
        source: "private".to_string(),
        created: DateTime::from_date_hms(day(2026, 3, 31), 0, 0, 0).unwrap(),
        project: None,
        due: None,
        done_at: None,
        updated: DateTime::from_date_hms(day(2026, 3, 31), 0, 0, 0).unwrap(),
        reminds: Vec::new(),
        important: false,
    }];
    assert_eq!(
        tasks_to_yaml(&tasks),
        "# my-task edit: 編集して保存してください\n# 行やブロックを削除するとタスクをクローズします\n# id は変更できません\n\n- id: 7\n  title: Pay rent\n  project: \n  due: \n"
    );
}

#[test]
fn test_parse_yaml_reports_bad_lines() {
    assert_eq!(parse_yaml("- id: x\n").unwrap_err(), 1);
    assert_eq!(parse_yaml("\n- id: 3\n  due: someday\n").unwrap_err(), 3);
    assert_eq!(parse_yaml("- id: 99999999999\n").unwrap_err(), 1);
}

#[test]
fn test_parse_yaml_accepts_crlf_and_plus_sign() {
    let entries = parse_yaml("- id: +4\r\n  title:  Spaced  \r\n").unwrap();
    assert_eq!(entries.len(), 1);
    assert_eq!(entries[0].id, 4);
    assert_eq!(entries[0].title, "Spaced");
}
