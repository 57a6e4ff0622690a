use host_bridge_mcp::console_log::{ConsoleLogEntry, ConsoleLogLevel};
use host_bridge_mcp::tui_render::{
    clipboard_sequence, logs_title, max_log_line_width, selection_line_count, short_id,
};
use host_bridge_mcp::tui_state::{Area, TuiAction, TuiInput, TuiKey, TuiState};

fn key(code: TuiKey) -> TuiInput {
    TuiInput::Key {
        code,
        press: true,
        modified: false,
    }
}

#[test]
fn page_up_from_tail_moves_one_page_back() {
    let mut state = TuiState {
        log_page_size: 10,
        follow_logs: true,
        ..TuiState::default()
    };

    state.page_up(100);
    assert_eq!(state.log_start_index, 81);
    assert!(!state.follow_logs);
}

#[test]
fn page_down_reaches_tail_and_restores_follow_mode() {
    let mut state = TuiState {
        log_page_size: 10,
        log_start_index: 81,
        follow_logs: false,
        ..TuiState::default()
    };

    state.page_down(100);
    assert_eq!(state.log_start_index, 90);
    assert!(state.follow_logs);
}

#[test]
fn modified_q_does_not_request_shutdown() {
    let mut state = TuiState::default();
    let action = state.handle_input(
        TuiInput::Key {
            code: TuiKey::Char('q'),
            press: true,
            modified: true,
        },
        0,
        0,
    );
    assert_ne!(action, TuiAction::Shutdown);
    assert_eq!(action, TuiAction::Nothing);
}

#[test]
fn plain_q_requests_shutdown() {
    let mut state = TuiState::default();
    assert_eq!(state.handle_input(key(TuiKey::Char('q')), 0, 0), TuiAction::Shutdown);
    let released = TuiInput::Key {
        code: TuiKey::Char('q'),
        press: false,
        modified: false,
    };
    assert_eq!(state.handle_input(released, 0, 0), TuiAction::Nothing);
}

#[test]
fn horizontal_scroll_is_clamped_to_visible_content() {
    let mut state = TuiState::default();
    state.set_visible_logs(
        Area {
            x: 0,
            y: 0,
            width: 20,
            height: 6,
        },
        0,
        3,
        40,
    );

    state.scroll_logs_right(64);
    assert_eq!(state.log_horizontal_offset_columns(), 20);

    state.scroll_logs_left(5);
    assert_eq!(state.log_horizontal_offset_columns(), 15);

    state.scroll_logs_left(64);
    assert_eq!(state.log_horizontal_offset_columns(), 0);
}

#[test]
fn log_selection_uses_content_area_coordinates() {
    let mut state = TuiState::default();
    state.set_visible_logs(
        Area {
            x: 10,
            y: 20,
            width: 5,
            height: 3,
        },
        7,
        3,
        32,
    );

    state.begin_log_selection(10, 20);
    state.extend_log_selection(14, 22);

    assert_eq!(state.selected_log_range(), Some((7, 9)));
}

#[test]
fn log_scroll_hit_uses_scrollable_area() {
    let mut state = TuiState::default();
    state.set_log_scroll_area(Area {
        x: 4,
        y: 5,
        width: 6,
        height: 3,
    });

    assert!(state.is_log_scroll_hit(4, 5));
    assert!(state.is_log_scroll_hit(9, 7));
    assert!(!state.is_log_scroll_hit(10, 7));
    assert!(!state.is_log_scroll_hit(9, 8));
}

#[test]
fn mouse_release_copies_the_selected_lines() {
    let mut state = TuiState::default();
    state.set_visible_logs(
        Area {
            x: 0,
            y: 0,
            width: 40,
            height: 6,
        },
        10,
        4,
        0,
    );
    assert_eq!(
        state.handle_input(TuiInput::MouseDown { column: 2, row: 3 }, 0, 50),
        TuiAction::Nothing
    );
    assert_eq!(
        state.handle_input(TuiInput::MouseUp { column: 2, row: 1 }, 0, 50),
        TuiAction::CopyLogs { start: 11, end: 13 }
    );
    assert_eq!(state.selected_log_range(), None);
    assert!(!state.is_log_line_selected(12));
}

#[test]
fn approval_keys_act_on_the_selected_approval() {
    let mut state = TuiState::default();
    assert_eq!(state.handle_input(key(TuiKey::Char('a')), 0, 0), TuiAction::Nothing);
    assert_eq!(state.handle_input(key(TuiKey::Down), 3, 0), TuiAction::Nothing);
    assert_eq!(state.handle_input(key(TuiKey::Down), 3, 0), TuiAction::Nothing);
    assert_eq!(state.handle_input(key(TuiKey::Down), 3, 0), TuiAction::Nothing);
    assert_eq!(state.selected_approval_index, 2);
    assert_eq!(state.handle_input(key(TuiKey::Char('a')), 3, 0), TuiAction::Approve(2));
    assert_eq!(state.handle_input(key(TuiKey::Up), 3, 0), TuiAction::Nothing);
    assert_eq!(state.handle_input(key(TuiKey::Char('r')), 3, 0), TuiAction::Reject(1));
    state.sync(1);
    assert_eq!(state.selected_approval_index, 0);
    state.sync(0);
    assert_eq!(state.selected_approval(0), None);
}

#[test]
fn wheel_and_home_end_move_the_log_view() {
    let mut state = TuiState {
        log_page_size: 10,
        follow_logs: true,
        ..TuiState::default()
    };
    state.handle_input(TuiInput::ScrollUp, 0, 100);
    assert_eq!(state.log_start_index, 87);
    assert!(!state.follow_logs);
    state.handle_input(key(TuiKey::Home), 0, 100);
    assert_eq!(state.log_start_index, 0);
    assert_eq!(state.log_start(100, 10), 0);
    state.handle_input(key(TuiKey::End), 0, 100);
    assert!(state.follow_logs);
    assert_eq!(state.log_start(100, 10), 90);
}

#[test]
fn more_pending_approvals_ring_the_bell() {
    let mut state = TuiState::default();
    assert!(state.note_pending_count(2));
    assert!(!state.note_pending_count(2));
    assert!(!state.note_pending_count(1));
    assert!(state.note_pending_count(3));
}

#[test]
fn logs_title_shows_range_scroll_and_path() {
    assert_eq!(logs_title(0, 0, 0, 0, "test.log"), "Logs 0..0 / 0 (test.log)");
    assert_eq!(logs_title(10, 5, 100, 0, "a.log"), "Logs 11..15 / 100 (a.log)");
    assert_eq!(logs_title(10, 5, 100, 8, "a.log"), "Logs 11..15 / 100 [x:8] (a.log)");
}

#[test]
fn short_id_keeps_eight_characters() {
    assert_eq!(short_id("123e4567-e89b-12d3-a456-426614174000"), "123e4567");
    assert_eq!(short_id("abc"), "abc");
}

#[test]
fn widest_log_line_counts_characters() {
    let entries = vec![
        ConsoleLogEntry {
            timestamp: "2026-03-09T16:16:21.751592Z".to_string(),
            level: ConsoleLogLevel::Info,
            message: "short".to_string(),
        },
        ConsoleLogEntry {
            timestamp: "2026-03-09T16:16:21.751592Z".to_string(),
            level: ConsoleLogLevel::Error,
            message: "é longer message".to_string(),
        },
    ];
    assert_eq!(max_log_line_width(&entries), 27 + 1 + 5 + 1 + 16);
    assert_eq!(max_log_line_width(&[]), 0);
}

#[test]
fn clipboard_sequence_wraps_base64_in_osc52() {
    assert_eq!(clipboard_sequence("hello"), "\u{1b}]52;c;aGVsbG8=\u{7}");
    assert_eq!(clipboard_sequence(""), "\u{1b}]52;c;\u{7}");
    assert_eq!(selection_line_count(3, 5), 3);
    assert_eq!(selection_line_count(5, 5), 1);
    assert_eq!(selection_line_count(0, usize::MAX), usize::MAX);
}
