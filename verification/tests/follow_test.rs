use my_task::date::{Date, DateTime};
use my_task::commands::follow::{
    clamp_scroll_offset, follow_step, format_scroll_indicator, is_quit_key, layout_frame,
    normalize_interval, scroll_action, split_lines, visible_height_for, visible_range,
    FollowAction, FollowEvent, KeyCode, KeyInput, ScrollAction,
};

fn key(code: KeyCode) -> KeyInput {
    KeyInput::plain(code)
}

#[test]
fn test_normalize_interval_zero_becomes_one() {
    assert_eq!(normalize_interval(0), 1);
}

#[test]
fn test_normalize_interval_preserves_positive() {
    assert_eq!(normalize_interval(2), 2);
    assert_eq!(normalize_interval(5), 5);
}

#[test]
fn test_is_quit_key_q_lower() {
    assert!(is_quit_key(key(KeyCode::Char('q'))));
}

#[test]
fn test_is_quit_key_q_upper() {
    assert!(is_quit_key(key(KeyCode::Char('Q'))));
}

#[test]
fn test_is_quit_key_esc() {
    assert!(is_quit_key(key(KeyCode::Esc)));
}

#[test]
fn test_is_quit_key_ctrl_c() {
    assert!(is_quit_key(KeyInput::with_ctrl(KeyCode::Char('c'))));
}

#[test]
fn test_is_quit_key_plain_char_is_false() {
    assert!(!is_quit_key(key(KeyCode::Char('a'))));
}

#[test]
fn test_is_quit_key_plain_c_is_false() {
    // 'c' without the Ctrl modifier must not quit.
    assert!(!is_quit_key(key(KeyCode::Char('c'))));
}

#[test]
fn test_clamp_offset_within_range() {
    assert_eq!(clamp_scroll_offset(0, 100, 20), 0);
    assert_eq!(clamp_scroll_offset(30, 100, 20), 30);
}

#[test]
fn test_clamp_offset_beyond_max_pulls_to_max() {
    assert_eq!(clamp_scroll_offset(200, 100, 20), 80);
}

#[test]
fn test_clamp_offset_all_visible_is_zero() {
    assert_eq!(clamp_scroll_offset(50, 10, 20), 0);
    assert_eq!(clamp_scroll_offset(5, 20, 20), 0);
}

#[test]
fn test_clamp_offset_empty_no_panic() {
    assert_eq!(clamp_scroll_offset(0, 0, 20), 0);
}

#[test]
fn test_clamp_offset_zero_visible_no_panic() {
    assert_eq!(clamp_scroll_offset(5, 100, 0), 5);
    assert_eq!(clamp_scroll_offset(200, 100, 0), 100);
}

#[test]
fn test_visible_range_middle_window() {
    assert_eq!(visible_range(10, 2, 3), (2, 5));
}

#[test]
fn test_visible_range_from_top() {
    assert_eq!(visible_range(10, 0, 3), (0, 3));
}

#[test]
fn test_visible_range_at_max_includes_last() {
    assert_eq!(visible_range(10, 7, 3), (7, 10));
}

#[test]
fn test_visible_range_all_fits() {
    assert_eq!(visible_range(5, 0, 20), (0, 5));
}

#[test]
fn test_visible_range_empty_no_panic() {
    assert_eq!(visible_range(0, 0, 20), (0, 0));
}

#[test]
fn test_visible_range_offset_out_of_bounds_no_panic() {
    assert_eq!(visible_range(10, 50, 3), (10, 10));
}

#[test]
fn test_scroll_action_j_is_down() {
    assert_eq!(scroll_action(key(KeyCode::Char('j'))), ScrollAction::Down);
}

#[test]
fn test_scroll_action_arrow_down_is_down() {
    assert_eq!(scroll_action(key(KeyCode::Down)), ScrollAction::Down);
}

#[test]
fn test_scroll_action_k_is_up() {
    assert_eq!(scroll_action(key(KeyCode::Char('k'))), ScrollAction::Up);
}

#[test]
fn test_scroll_action_arrow_up_is_up() {
    assert_eq!(scroll_action(key(KeyCode::Up)), ScrollAction::Up);
}

#[test]
fn test_scroll_action_q_is_none() {
    assert_eq!(scroll_action(key(KeyCode::Char('q'))), ScrollAction::NoScroll);
}

#[test]
fn test_scroll_action_r_is_none() {
    assert_eq!(scroll_action(key(KeyCode::Char('r'))), ScrollAction::NoScroll);
}

#[test]
fn test_scroll_action_other_char_is_none() {
    assert_eq!(scroll_action(key(KeyCode::Char('a'))), ScrollAction::NoScroll);
}

#[test]
fn test_indicator_middle_window() {
    assert_eq!(format_scroll_indicator(11, 19, 45), "[12-30/45]");
}

#[test]
fn test_indicator_all_visible() {
    assert_eq!(format_scroll_indicator(0, 20, 8), "[1-8/8]");
}

#[test]
fn test_indicator_empty() {
    assert_eq!(format_scroll_indicator(0, 20, 0), "[0-0/0]");
}

#[test]
fn test_indicator_at_tail() {
    assert_eq!(format_scroll_indicator(26, 19, 45), "[27-45/45]");
}

#[test]
fn test_indicator_zero_visible_no_panic() {
    assert_eq!(format_scroll_indicator(0, 0, 10), "[0-0/10]");
}

#[test]
fn test_visible_height_for_reserves_header_and_indicator() {
    assert_eq!(visible_height_for(24), 21);
    assert_eq!(visible_height_for(3), 0);
    assert_eq!(visible_height_for(1), 0);
}

#[test]
fn test_split_lines_keeps_trailing_empty_line() {
    assert_eq!(split_lines("a\nb"), vec!["a".to_string(), "b".to_string()]);
    assert_eq!(split_lines("a\n"), vec!["a".to_string(), String::new()]);
    assert_eq!(split_lines(""), vec![String::new()]);
}

#[test]
fn test_split_lines_join_back() {
    let text = "one\n\ntwo\nthree\n";
    assert_eq!(split_lines(text).join("\n"), text);
}

#[test]
fn test_layout_frame_clamps_and_windows() {
    let body = "l0\nl1\nl2\nl3\nl4\nl5\nl6\nl7\nl8\nl9";
    // Terminal of 6 rows: 3 body rows.
    let frame = layout_frame("head", body, 100, 6);
    assert_eq!(frame.header, "head");
    assert_eq!(frame.rows, vec!["l7".to_string(), "l8".to_string(), "l9".to_string()]);
    assert_eq!(frame.indicator, "[8-10/10]");
    assert_eq!(frame.indicator_row, 5);
}

#[test]
fn test_follow_step_decisions() {
    assert_eq!(follow_step(3, FollowEvent::Timeout), FollowAction::Redraw(3));
    assert_eq!(follow_step(3, FollowEvent::Key(key(KeyCode::Char('q')))), FollowAction::Quit);
    assert_eq!(follow_step(3, FollowEvent::Key(key(KeyCode::Char('R')))), FollowAction::Redraw(3));
    assert_eq!(follow_step(3, FollowEvent::Key(key(KeyCode::Char('j')))), FollowAction::Redraw(4));
    assert_eq!(follow_step(0, FollowEvent::Key(key(KeyCode::Up))), FollowAction::Redraw(0));
    assert_eq!(follow_step(usize::MAX, FollowEvent::Key(key(KeyCode::Down))), FollowAction::Redraw(usize::MAX));
    assert_eq!(follow_step(3, FollowEvent::Key(key(KeyCode::Other))), FollowAction::Wait);
}

#[test]
fn test_format_header_pads_clock() {
    let now = DateTime::from_date_hms(Date::new(2026, 6, 1).unwrap(), 9, 5, 7).unwrap();
    assert_eq!(
        my_task::commands::follow::format_header(2, now),
        "my-task (follow) - q:quit r:refresh j/k:scroll  every 2s  09:05:07"
    );
}
