use host_bridge_mcp::config::HistoryConfig;
use host_bridge_mcp::execution_service::ExecutionState;
use host_bridge_mcp::history::{
    prune_entries, retention_cutoff, ExecutionHistoryEntry, ExecutionHistoryError,
    ExecutionHistoryStore, MILLIS_PER_DAY,
};

const NOW: u64 = 1_750_000_000_000;

fn history_config() -> HistoryConfig {
    HistoryConfig {
        retention_days: 30,
        max_records: 2,
    }
}

fn completed(id: &str, command_line: &str, started_at: u64) -> ExecutionHistoryEntry {
    ExecutionHistoryEntry {
        execution_id: id.to_string(),
        command_line: command_line.to_string(),
        server: "host".to_string(),
        state: ExecutionState::Completed,
        started_at,
        finished_at: Some(started_at),
        exit_code: Some(0),
        success: Some(true),
        timed_out: Some(false),
    }
}

fn running(id: &str, command_line: &str, started_at: u64) -> ExecutionHistoryEntry {
    ExecutionHistoryEntry {
        execution_id: id.to_string(),
        command_line: command_line.to_string(),
        server: "host".to_string(),
        state: ExecutionState::Running,
        started_at,
        finished_at: None,
        exit_code: None,
        success: None,
        timed_out: None,
    }
}

#[test]
fn prune_keeps_running_entries_and_newest_completed_entries() {
    let id_one = "0b6f0c3e-55c4-4a57-9d0e-1f1d2d3c4b5a";
    let id_two = "1c7a1d4f-66d5-4b68-8e1f-2a2e3e4d5c6b";
    let id_three = "2d8b2e5a-77e6-4c79-9f2a-3b3f4f5e6d7c";
    let id_four = "3e9c3f6b-88f7-4d8a-8a3b-4c4a5a6f7e8d";
    let mut entries = vec![
        completed(id_one, "one", NOW),
        completed(id_two, "two", NOW),
        completed(id_three, "three", NOW),
        running(id_four, "three", NOW),
    ];

    let removed = prune_entries(&mut entries, &history_config(), NOW);

    assert_eq!(entries.len(), 3);
    assert!(removed.contains(&id_one.to_string()));
    assert!(entries.iter().any(|entry| entry.execution_id == id_two));
    assert!(entries.iter().any(|entry| entry.execution_id == id_three));
    assert!(entries.iter().any(|entry| entry.execution_id == id_four));
}

#[test]
fn prune_removes_entries_older_than_retention_but_keeps_running_ones() {
    let old = NOW - 31 * MILLIS_PER_DAY;
    let mut entries = vec![
        completed("old", "a", old),
        running("old-running", "b", old),
        completed("fresh", "c", NOW - MILLIS_PER_DAY),
    ];
    let config = HistoryConfig {
        retention_days: 30,
        max_records: 10,
    };
    let removed = prune_entries(&mut entries, &config, NOW);
    assert_eq!(removed, vec!["old".to_string()]);
    let ids: Vec<&str> = entries.iter().map(|e| e.execution_id.as_str()).collect();
    assert_eq!(ids, vec!["old-running", "fresh"]);
}

#[test]
fn retention_cutoff_saturates() {
    assert_eq!(retention_cutoff(NOW, 1), NOW - MILLIS_PER_DAY);
    assert_eq!(retention_cutoff(1000, 1), 0);
    assert_eq!(retention_cutoff(NOW, u64::MAX), 0);
    assert_eq!(retention_cutoff(NOW, 0), NOW);
}

#[test]
fn store_records_lists_and_deletes_executions() {
    let (mut store, removed) = ExecutionHistoryStore::new(history_config(), Vec::new(), NOW);
    assert!(removed.is_empty());
    store.record_started("a".to_string(), "echo a".to_string(), "host".to_string(), NOW);
    store.record_started("b".to_string(), "echo b".to_string(), "host".to_string(), NOW + 1);

    let page = store.list(0, 10);
    assert_eq!(page.total, 2);
    let ids: Vec<&str> = page.records.iter().map(|e| e.execution_id.as_str()).collect();
    assert_eq!(ids, vec!["b", "a"]);
    let page = store.list(1, 10);
    assert_eq!(page.records.len(), 1);
    assert_eq!(page.records[0].execution_id, "a");
    assert!(store.list(5, 10).records.is_empty());

    assert_eq!(
        store.delete("a"),
        Err(ExecutionHistoryError::Running("a".to_string()))
    );
    let removed = store
        .record_finished("a", ExecutionState::Completed, Some(0), Some(true), Some(false), NOW + 5)
        .unwrap();
    assert!(removed.is_empty());
    let entry = store.get("a").unwrap();
    assert_eq!(entry.state, ExecutionState::Completed);
    assert_eq!(entry.finished_at, Some(NOW + 5));
    assert_eq!(entry.exit_code, Some(0));

    assert_eq!(store.delete("a"), Ok(true));
    assert_eq!(store.delete("a"), Ok(false));
    assert!(store.get("a").is_none());
    assert_eq!(store.entries().len(), 1);
}

#[test]
fn record_started_replaces_an_entry_with_the_same_id() {
    let (mut store, _) = ExecutionHistoryStore::new(
        history_config(),
        vec![completed("x", "old", NOW)],
        NOW,
    );
    store.record_started("x".to_string(), "new".to_string(), "host".to_string(), NOW + 1);
    assert_eq!(store.entries().len(), 1);
    let entry = store.get("x").unwrap();
    assert_eq!(entry.command_line, "new");
    assert_eq!(entry.state, ExecutionState::Running);
}

#[test]
fn record_finished_of_unknown_execution_fails() {
    let (mut store, _) = ExecutionHistoryStore::new(history_config(), Vec::new(), NOW);
    let error = store
        .record_finished("nope", ExecutionState::Failed, None, None, None, NOW)
        .unwrap_err();
    assert_eq!(error, ExecutionHistoryError::NotFound("nope".to_string()));
    assert_eq!(error.message(), "execution 'nope' is not in history");
    assert_eq!(
        ExecutionHistoryError::Running("r".to_string()).message(),
        "execution 'r' is still running"
    );
    assert_eq!(
        ExecutionHistoryError::Io("denied".to_string()).message(),
        "failed to access execution history: denied"
    );
    assert_eq!(
        ExecutionHistoryError::Json("bad".to_string()).message(),
        "failed to parse execution history: bad"
    );
}

#[test]
fn finishing_beyond_max_records_prunes_the_oldest_completed() {
    let (mut store, _) = ExecutionHistoryStore::new(history_config(), Vec::new(), NOW);
    for (i, id) in ["a", "b", "c"].iter().enumerate() {
        store.record_started(id.to_string(), "cmd".to_string(), "host".to_string(), NOW + i as u64);
    }
    assert!(store
        .record_finished("a", ExecutionState::Completed, Some(0), Some(true), Some(false), NOW + 10)
        .unwrap()
        .is_empty());
    assert!(store
        .record_finished("b", ExecutionState::Failed, Some(1), Some(false), Some(false), NOW + 11)
        .unwrap()
        .is_empty());
    let removed = store
        .record_finished("c", ExecutionState::Completed, Some(0), Some(true), Some(false), NOW + 12)
        .unwrap();
    assert_eq!(removed, vec!["a".to_string()]);
    let removed = store.set_config(
        HistoryConfig {
            retention_days: 30,
            max_records: 1,
        },
        NOW + 13,
    );
    assert_eq!(removed, vec!["b".to_string()]);
    assert_eq!(store.config().max_records, 1);
}
