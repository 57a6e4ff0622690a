use host_bridge_mcp::approvals::{
    ApprovalBook, ApprovalDecision, ConsoleApprovalError, RequestOutcome,
};
use host_bridge_mcp::console_log::{
    event_text, log_level_tag, parse_log_line, sanitize_archive_date, sanitize_console_text,
    serialize_log_entry, ConsoleLogEntry, ConsoleLogLevel,
};
use host_bridge_mcp::execution_service::ConfirmationRequest;

#[test]
fn serialize_log_entry_aligns_info_and_error_levels() {
    let info_entry = ConsoleLogEntry {
        timestamp: "2026-03-09T16:16:21.751592Z".to_string(),
        level: ConsoleLogLevel::Info,
        message: "submitted".to_string(),
    };
    let error_entry = ConsoleLogEntry {
        timestamp: "2026-03-09T16:16:21.751592Z".to_string(),
        level: ConsoleLogLevel::Error,
        message: "failed".to_string(),
    };

    assert_eq!(
        serialize_log_entry(&info_entry),
        "2026-03-09T16:16:21.751592Z  INFO submitted\n"
    );
    assert_eq!(
        serialize_log_entry(&error_entry),
        "2026-03-09T16:16:21.751592Z ERROR failed\n"
    );
}

#[test]
fn sanitize_archive_date_keeps_only_year_month_day() {
    assert_eq!(
        sanitize_archive_date("2026-03-15T09:13:41.123456Z"),
        "2026-03-15"
    );
    assert_eq!(sanitize_archive_date("20x26-03"), "2026-03");
}

#[test]
fn log_lines_read_back_what_was_written() {
    let entry = ConsoleLogEntry {
        timestamp: "2026-03-09T16:16:21Z".to_string(),
        level: ConsoleLogLevel::Warn,
        message: "two  spaces".to_string(),
    };
    let line = serialize_log_entry(&entry);
    let parsed = parse_log_line(line.trim_end_matches('\n')).expect("line should parse");
    assert_eq!(parsed.timestamp, entry.timestamp);
    assert_eq!(parsed.level, ConsoleLogLevel::Warn);
    assert_eq!(parsed.message, "two  spaces");
    assert!(parse_log_line("no-space").is_none());
    assert!(parse_log_line("t  BAD x").is_none());
    assert!(parse_log_line("t INFO").is_none());
    assert_eq!(log_level_tag(ConsoleLogLevel::Error), "ERROR");
}

#[test]
fn sanitize_removes_escape_sequences_and_controls() {
    assert_eq!(
        sanitize_console_text("\u{1b}[31mred\u{1b}[0m text\u{7}\ttab\n"),
        "red text\ttab\n"
    );
    assert_eq!(
        sanitize_console_text("a\u{1b}]0;title\u{7}b\u{1b}]8;;x\u{1b}\\c"),
        "abc"
    );
    assert_eq!(sanitize_console_text("x\u{85}y\u{1b}Pz"), "xyz");
}

fn request(command_line: &str) -> ConfirmationRequest {
    ConfirmationRequest {
        server: "host".to_string(),
        platform: "linux".to_string(),
        command_line: command_line.to_string(),
        executable: "cargo".to_string(),
        args: vec!["build".to_string()],
        working_directory: Some("/repo".to_string()),
        timeout_ms: 1_000,
        env: vec![("B".to_string(), "2".to_string()), ("A".to_string(), "1".to_string())],
        contains_shell_operator: false,
    }
}

#[test]
fn request_confirmation_requires_interactive_console() {
    let mut book = ApprovalBook::new();
    let outcome = book.request_confirmation(
        "a1".to_string(),
        "e1".to_string(),
        request("cargo build"),
        None,
        false,
        "t".to_string(),
    );
    assert!(matches!(outcome, RequestOutcome::Unavailable));
    assert_eq!(
        ConsoleApprovalError::Unavailable.message(),
        "interactive TUI is unavailable"
    );
}

fn sample_shell_request() -> ConfirmationRequest {
    ConfirmationRequest {
        server: "host".to_string(),
        platform: "linux".to_string(),
        command_line: "cargo build && cargo test".to_string(),
        executable: "cargo".to_string(),
        args: vec![
            "build".to_string(),
            "&&".to_string(),
            "cargo".to_string(),
            "test".to_string(),
        ],
        working_directory: Some("/workspace".to_string()),
        timeout_ms: 1_000,
        env: Vec::new(),
        contains_shell_operator: true,
    }
}

#[test]
fn session_approval_reuses_same_execution_scope_only_for_same_session() {
    let mut book = ApprovalBook::new();
    let outcome = book.request_confirmation(
        "a1".to_string(),
        "e1".to_string(),
        sample_shell_request(),
        Some("session-a".to_string()),
        true,
        "t".to_string(),
    );
    assert!(matches!(outcome, RequestOutcome::Pending { .. }));
    let approval_id = book.pending()[0].id.clone();
    let resolution = book
        .resolve_confirmation(&approval_id, ApprovalDecision::ApproveForSession)
        .expect("approval should be delivered");
    assert!(resolution.approved);

    let reused = book.request_confirmation(
        "a2".into(),
        "e2".into(),
        sample_shell_request(),
        Some("session-a".into()),
        true,
        "t".into(),
    );
    assert!(matches!(reused, RequestOutcome::Granted));
    assert!(book.pending().is_empty());

    let mut changed_timeout_request = sample_shell_request();
    changed_timeout_request.timeout_ms += 1_000;
    let timeout_reused = book.request_confirmation(
        "a3".into(),
        "e3".into(),
        changed_timeout_request,
        Some("session-a".into()),
        true,
        "t".into(),
    );
    assert!(matches!(timeout_reused, RequestOutcome::Granted));
    assert!(book.pending().is_empty());

    let mut changed_request = sample_shell_request();
    changed_request
        .env
        .push(("RUST_LOG".to_string(), "debug".to_string()));
    let changed = book.request_confirmation(
        "a4".into(),
        "e4".into(),
        changed_request,
        Some("session-a".into()),
        true,
        "t".into(),
    );
    assert!(matches!(changed, RequestOutcome::Pending { .. }));
    let changed_approval_id = book.pending()[0].id.clone();
    let changed_result = book
        .resolve_confirmation(&changed_approval_id, ApprovalDecision::Reject)
        .expect("changed request rejection should be delivered");
    assert!(!changed_result.approved);

    let other_session = book.request_confirmation(
        "a5".into(),
        "e5".into(),
        sample_shell_request(),
        Some("session-b".into()),
        true,
        "t".into(),
    );
    assert!(matches!(other_session, RequestOutcome::Pending { .. }));
    let other_approval_id = book.pending()[0].id.clone();
    let rejected = book
        .resolve_confirmation(&other_approval_id, ApprovalDecision::Reject)
        .expect("rejection should be delivered");
    assert!(!rejected.approved);
}

#[test]
fn session_grant_ignores_env_order_but_not_command_line() {
    let mut book = ApprovalBook::new();
    book.request_confirmation("a1".into(), "e1".into(), request("cargo build"), Some("s1".into()), true, "t".into());
    let resolution = book
        .resolve_confirmation("a1", ApprovalDecision::ApproveForSession)
        .expect("approval should exist");
    assert_eq!(resolution.log_message, "Approval approved for session [a1]: cargo build");
    let mut same = request("cargo build");
    same.timeout_ms = 99;
    same.env.reverse();
    assert!(matches!(
        book.request_confirmation("a2".into(), "e2".into(), same, Some("s1".into()), true, "t".into()),
        RequestOutcome::Granted
    ));
    assert!(matches!(
        book.request_confirmation("a3".into(), "e3".into(), request("cargo test"), Some("s1".into()), true, "t".into()),
        RequestOutcome::Pending { .. }
    ));
}

#[test]
fn session_approval_without_session_id_is_one_time_only() {
    let mut book = ApprovalBook::new();
    book.request_confirmation("a1".into(), "e1".into(), request("ls"), None, true, "t".into());
    let resolution = book
        .resolve_confirmation("a1", ApprovalDecision::ApproveForSession)
        .unwrap();
    assert!(resolution.approved);
    assert_eq!(resolution.log_message, "Approval approved [a1]: ls");
    assert!(matches!(
        book.request_confirmation("a2".into(), "e2".into(), request("ls"), None, true, "t".into()),
        RequestOutcome::Pending { .. }
    ));
    let rejected = book.resolve_confirmation("a2", ApprovalDecision::Reject).unwrap();
    assert!(!rejected.approved);
    assert_eq!(rejected.log_message, "Approval rejected [a2]: ls");
    assert!(book.resolve_confirmation("a2", ApprovalDecision::Reject).is_none());
}

#[test]
fn cancelled_approvals_leave_the_queue() {
    let mut book = ApprovalBook::new();
    book.request_confirmation("a1".into(), "e1".into(), request("ls"), None, true, "t".into());
    assert_eq!(
        book.cancel_pending_confirmation("a1").as_deref(),
        Some("Approval cancelled [a1]: ls")
    );
    assert!(book.cancel_pending_confirmation("a1").is_none());
    assert!(book.pending().is_empty());
}

#[test]
fn event_text_joins_message_and_fields() {
    let fields = vec!["path=a.yaml".to_string(), "error=boom".to_string()];
    assert_eq!(
        event_text(Some("Reload failed".to_string()), &fields),
        "Reload failed path=a.yaml error=boom"
    );
    assert_eq!(event_text(Some("Ready".to_string()), &Vec::new()), "Ready");
    assert_eq!(event_text(None, &fields), "path=a.yaml error=boom");
    assert_eq!(event_text(None, &Vec::new()), "");
}

#[test]
fn approval_error_messages() {
    assert_eq!(ConsoleApprovalError::Cancelled.message(), "approval request was cancelled");
    assert_eq!(ConsoleApprovalError::TimedOut.message(), "command confirmation timed out");
}
