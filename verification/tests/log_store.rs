use host_bridge_mcp::console_log::{ConsoleLogEntry, ConsoleLogLevel};
use host_bridge_mcp::log_store::{
    archive_expired, archived_log_file_name, is_archived_log_path, message_lines, plan_log_read,
    retention_change, should_rotate, LineRange, LogReadPlan, LogSegmentIndex, RecentLogs,
    RUNTIME_LOG_BUFFER_LIMIT,
};

fn entry(message: &str) -> ConsoleLogEntry {
    ConsoleLogEntry {
        timestamp: "2026-03-15T09:13:41.123456Z".to_string(),
        level: ConsoleLogLevel::Info,
        message: message.to_string(),
    }
}

#[test]
fn strips_ansi_sequences_from_logs() {
    let lines = message_lines("\u{1b}[15;12Hhello \u{1b}[31mworld\u{1b}[0m");
    assert_eq!(lines[0], "hello world");
    assert_eq!(lines.len(), 1);
}

#[test]
fn messages_split_into_lines_with_a_trailing_empty_line() {
    assert_eq!(message_lines("a\nb"), vec!["a".to_string(), "b".to_string()]);
    assert_eq!(message_lines("a\n"), vec!["a".to_string(), String::new()]);
    assert_eq!(message_lines("\n"), vec![String::new(), String::new()]);
    assert!(message_lines("").is_empty());
    assert_eq!(message_lines("x\r\ny"), vec!["x".to_string(), "y".to_string()]);
}

#[test]
fn archived_log_file_name_preserves_extension() {
    let archived_name = archived_log_file_name("/tmp/host-bridge-mcp.log", "2026-03-15", 2)
        .expect("archived log file name should be generated");

    assert_eq!(archived_name, "host-bridge-mcp.2026-03-15.2.log");
}

#[test]
fn archived_log_file_name_without_extension_or_file_name() {
    assert_eq!(
        archived_log_file_name("logs/runtime", "2026-03-15", 1).unwrap(),
        "runtime.2026-03-15.1"
    );
    assert_eq!(
        archived_log_file_name("logs/.hidden", "2026-03-15", 3).unwrap(),
        ".hidden.2026-03-15.3"
    );
    assert_eq!(
        archived_log_file_name("/", "2026-03-15", 1).unwrap_err(),
        "log path '/' must include a file name"
    );
}

#[test]
fn archived_log_paths_are_recognised() {
    let active = "/data/logs/host-bridge.log";
    assert!(is_archived_log_path(active, "/data/logs/host-bridge.2026-03-15.1.log"));
    assert!(is_archived_log_path(active, "/data/logs/host-bridge.2026-03-15.12.log"));
    assert!(!is_archived_log_path(active, "/data/logs/host-bridge.log"));
    assert!(!is_archived_log_path(active, "/data/logs/host-bridge.2026-03-15.log"));
    assert!(!is_archived_log_path(active, "/data/logs/host-bridge.2026-03-15.1.txt"));
    assert!(!is_archived_log_path(active, "/data/logs/other.2026-03-15.1.log"));
    assert!(!is_archived_log_path(active, "/data/logs/host-bridge.2026_03.1.log"));
    assert!(!is_archived_log_path(active, "/data/logs/host-bridge.2026.1.2.log"));
    assert!(is_archived_log_path("/data/logs/runtime", "/data/logs/runtime.2026-03-15.1"));
}

#[test]
fn recent_logs_keep_the_newest_entries() {
    let mut logs = RecentLogs::new();
    for i in 0..(RUNTIME_LOG_BUFFER_LIMIT + 5) {
        logs.push(entry(&format!("line-{i}")));
    }
    assert_eq!(logs.len(), RUNTIME_LOG_BUFFER_LIMIT);
    let first = logs.read(0, 2);
    assert_eq!(first[0].message, "line-5");
    assert_eq!(first[1].message, "line-6");
    let tail = logs.read(RUNTIME_LOG_BUFFER_LIMIT - 1, 10);
    assert_eq!(tail.len(), 1);
    assert_eq!(tail[0].message, format!("line-{}", RUNTIME_LOG_BUFFER_LIMIT + 4));
    assert!(logs.read(RUNTIME_LOG_BUFFER_LIMIT, 10).is_empty());
}

#[test]
fn reads_are_planned_across_files_and_memory() {
    assert_eq!(
        plan_log_read(3, 3, 0, 3),
        LogReadPlan {
            file_lines: None,
            buffered: Some(LineRange { start: 0, end: 3 })
        }
    );
    assert_eq!(
        plan_log_read(100, 10, 85, 10),
        LogReadPlan {
            file_lines: Some(LineRange { start: 85, end: 90 }),
            buffered: Some(LineRange { start: 0, end: 5 })
        }
    );
    assert_eq!(
        plan_log_read(100, 10, 10, 5),
        LogReadPlan {
            file_lines: Some(LineRange { start: 10, end: 15 }),
            buffered: None
        }
    );
    assert_eq!(
        plan_log_read(100, 10, 100, 5),
        LogReadPlan {
            file_lines: None,
            buffered: None
        }
    );
    assert_eq!(
        plan_log_read(100, 10, 5, 0),
        LogReadPlan {
            file_lines: None,
            buffered: None
        }
    );
}

#[test]
fn segment_index_tracks_line_offsets() {
    let mut index = LogSegmentIndex::new(10);
    index.record_line(40);
    index.record_line(25);
    assert_eq!(index.line_offsets, vec![0, 40]);
    assert_eq!(index.next_offset, 65);
    assert_eq!(index.line_span(10), Some((0, 40)));
    assert_eq!(index.line_span(11), Some((40, 25)));
    assert_eq!(index.line_span(12), None);
    assert_eq!(index.line_span(9), None);
    assert_eq!(index.overlap(0, 11), Some((10, 11)));
    assert_eq!(index.overlap(11, 50), Some((11, 12)));
    assert_eq!(index.overlap(12, 50), None);
}

#[test]
fn rotation_and_retention_decisions() {
    assert!(should_rotate(1, "2000-01-01", "2026-03-15"));
    assert!(!should_rotate(0, "2000-01-01", "2026-03-15"));
    assert!(!should_rotate(5, "2026-03-15", "2026-03-15"));
    assert_eq!(retention_change(30, 30), None);
    assert_eq!(retention_change(30, 0), Some(0));
    let now = 1_800_000_000;
    assert!(!archive_expired(0, 0, now));
    assert!(archive_expired(1, now - 86_401, now));
    assert!(!archive_expired(1, now - 86_400, now));
    assert!(!archive_expired(u64::MAX, 0, now));
}
