use host_bridge_mcp::cli::format_bind_error;
use host_bridge_mcp::config::{AccessConfig, AppConfig, LoggingConfig};
use host_bridge_mcp::config_reload::{
    logging_equal, ConfigFileFingerprint, ConfigReloadContext, ConfigReloadParticipant,
    ConfigReloadState, PreparedReload, ReloadAction, ReloadDecision, ReloadStep,
};
use host_bridge_mcp::console_log::{log_line_text, ConsoleLogEntry, ConsoleLogLevel};
use host_bridge_mcp::data_dir::{
    encode_file_name_component, event_targets_config_path, execution_output_file_name,
    classify_data_dir, normalize_path_parts, ConfiguredDataDir, PathPartKind, ssh_password_file_name,
    temporary_log_file_name, watched_directory_for_config_path, DEFAULT_LOG_FILE_NAME,
};

#[test]
fn default_log_file_name_is_stable() {
    assert_eq!(DEFAULT_LOG_FILE_NAME, "host-bridge.log");
}

#[test]
fn execution_output_file_name_uses_execution_id() {
    assert_eq!(
        execution_output_file_name("123e4567-e89b-12d3-a456-426614174000"),
        "123e4567-e89b-12d3-a456-426614174000.log"
    );
}

#[test]
fn file_name_components_are_encoded() {
    assert_eq!(encode_file_name_component("prod-1_a"), "prod-1_a");
    assert_eq!(encode_file_name_component("a b/é"), "a-20b-2f-c3-a9");
    assert_eq!(encode_file_name_component(""), "target");
    assert_eq!(ssh_password_file_name("db:1"), "ssh-password-db-3a1.txt");
    assert_eq!(temporary_log_file_name("x"), "host-bridge-mcp-x.log");
}

#[test]
fn watched_directory_uses_parent_directory() {
    assert_eq!(
        watched_directory_for_config_path("configs/host-bridge.yaml"),
        "configs"
    );
    assert_eq!(watched_directory_for_config_path("host-bridge.yaml"), ".");
    assert_eq!(watched_directory_for_config_path("/"), ".");
    assert_eq!(watched_directory_for_config_path("/etc/hb.yaml"), "/etc");
}

#[test]
fn format_bind_error_highlights_addr_in_use() {
    let message = format_bind_error("127.0.0.1:8787", true, "address in use");
    assert!(message.contains("127.0.0.1:8787"));
    assert!(message.contains("already in use"));
    assert!(message.contains("server.address"));
    assert_eq!(
        format_bind_error("h:1", false, "denied"),
        "Failed to bind h:1: denied"
    );
}

#[test]
fn log_line_text_uses_timestamp_and_aligned_level() {
    let info_entry = ConsoleLogEntry {
        timestamp: "2026-03-09T16:16:21.751592Z".to_string(),
        level: ConsoleLogLevel::Info,
        message: "Execution submitted".to_string(),
    };
    let error_entry = ConsoleLogEntry {
        timestamp: "2026-03-09T16:16:21.751592Z".to_string(),
        level: ConsoleLogLevel::Error,
        message: "Execution failed".to_string(),
    };

    assert_eq!(
        log_line_text(&info_entry),
        "2026-03-09T16:16:21.751592Z  INFO Execution submitted"
    );
    assert_eq!(
        log_line_text(&error_entry),
        "2026-03-09T16:16:21.751592Z ERROR Execution failed"
    );
}

fn fp(hash: u64) -> ConfigFileFingerprint {
    ConfigFileFingerprint {
        exists: true,
        content_hash: Some(hash),
    }
}

fn all_participants() -> ConfigReloadContext {
    ConfigReloadContext::for_server(30)
}

fn config_with(address: &str, retention_days: u64, api_key_env: Option<&str>) -> AppConfig {
    let mut config = AppConfig::default();
    config.server.bind_address = address.to_string();
    config.logging.retention_days = retention_days;
    config.server.access = AccessConfig {
        api_key_env: api_key_env.map(|name| name.to_string()),
    };
    config
}

fn kept(decision: ReloadDecision) -> (bool, String) {
    match decision {
        ReloadDecision::Keep { report, error } => (report, error),
        ReloadDecision::Apply { .. } => panic!("reload should have been refused"),
    }
}

fn applied(decision: ReloadDecision) -> (AppConfig, Vec<ReloadAction>, bool) {
    match decision {
        ReloadDecision::Apply {
            config,
            actions,
            restart_needed,
        } => (config, actions, restart_needed),
        ReloadDecision::Keep { error, .. } => panic!("reload should have been applied: {error}"),
    }
}

fn action_names(actions: &[ReloadAction]) -> Vec<String> {
    actions
        .iter()
        .map(|action| match action {
            ReloadAction::Logging { retention_days } => format!("logging:{retention_days}"),
            ReloadAction::Auth(state) => format!("auth:{}", state.auth.is_some()),
            ReloadAction::Execution => "execution".to_string(),
        })
        .collect()
}

#[test]
fn reload_if_needed_clears_failed_fingerprint_when_config_returns_to_applied_state() {
    let mut state = ConfigReloadState::new(
        "127.0.0.1:8787".to_string(),
        LoggingConfig::default(),
        Some(fp(1)),
    );
    let context = all_participants();
    assert_eq!(state.reload_if_needed(Ok(fp(2))), ReloadStep::Prepare(fp(2)));
    assert_eq!(
        kept(state.finish_reload(&context, fp(2), Err("bad".to_string()), None)),
        (true, "bad".to_string())
    );
    assert_eq!(state.last_failed_fingerprint, Some(fp(2)));
    assert_eq!(state.reload_if_needed(Ok(fp(1))), ReloadStep::Unchanged);
    assert_eq!(state.last_failed_fingerprint, None);
    assert_eq!(state.reload_if_needed(Ok(fp(2))), ReloadStep::Prepare(fp(2)));
    assert_eq!(
        kept(state.finish_reload(&context, fp(2), Err("bad".to_string()), None)),
        (true, "bad".to_string())
    );
    assert_eq!(state.last_failed_fingerprint, Some(fp(2)));
    assert_eq!(
        state.reload_if_needed(Err("io".to_string())),
        ReloadStep::KeepCurrent
    );
}

#[test]
fn failed_reload_is_reported_once_per_version() {
    let mut state = ConfigReloadState::new("a:1".to_string(), LoggingConfig::default(), Some(fp(1)));
    let context = all_participants();
    assert!(kept(state.finish_reload(&context, fp(2), Err("bad".to_string()), None)).0);
    assert!(!kept(state.finish_reload(&context, fp(2), Err("bad".to_string()), None)).0);
    assert!(kept(state.finish_reload(&context, fp(3), Err("bad".to_string()), None)).0);
    assert_eq!(state.last_applied_fingerprint, fp(1));
}

#[test]
fn applied_reload_records_version_and_restart_need() {
    let mut state = ConfigReloadState::new("a:1".to_string(), LoggingConfig::default(), None);
    assert_eq!(state.last_applied_fingerprint, ConfigFileFingerprint::missing());
    let context = all_participants();
    let (config, actions, restart_needed) =
        applied(state.finish_reload(&context, fp(7), Ok(config_with("b:2", 3, None)), None));
    assert!(restart_needed);
    assert_eq!(config.server.bind_address, "b:2");
    assert_eq!(action_names(&actions), ["logging:3", "auth:false", "execution"]);
    assert_eq!(state.applied_logging.retention_days, 3);
    assert_eq!(state.last_applied_fingerprint, fp(7));
    assert_eq!(state.reload_if_needed(Ok(fp(7))), ReloadStep::Unchanged);
    let (_, actions, restart_needed) =
        applied(state.finish_reload(&context, fp(8), Ok(config_with("a:1", 3, None)), None));
    assert!(!restart_needed);
    assert_eq!(action_names(&actions), ["auth:false", "execution"]);
}

#[test]
fn failing_participant_applies_nothing() {
    let mut logging = LoggingConfig::default();
    logging.retention_days = 30;
    let mut state = ConfigReloadState::new("a:1".to_string(), logging, Some(fp(1)));
    let context = all_participants();
    let (report, error) = kept(state.finish_reload(
        &context,
        fp(2),
        Ok(config_with("a:1", 5, Some("HB_KEY"))),
        None,
    ));
    assert!(report);
    assert_eq!(
        error,
        "server.access.api-key-env 'HB_KEY' is set but the environment variable is missing"
    );
    assert_eq!(state.last_applied_fingerprint, fp(1));
    assert_eq!(state.last_failed_fingerprint, Some(fp(2)));
    assert_eq!(state.applied_logging.retention_days, 30);
    let (report, error) = kept(state.finish_reload(
        &context,
        fp(3),
        Ok(config_with("a:1", 5, Some("HB_KEY"))),
        Some("   "),
    ));
    assert!(report);
    assert_eq!(
        error,
        "server.access.api-key-env 'HB_KEY' resolved to an empty value"
    );
    let (_, actions, _) = applied(state.finish_reload(
        &context,
        fp(3),
        Ok(config_with("a:1", 5, Some("HB_KEY"))),
        Some("secret"),
    ));
    assert_eq!(action_names(&actions), ["logging:5", "auth:true", "execution"]);
    match &actions[1] {
        ReloadAction::Auth(state) => {
            assert_eq!(state.auth.as_ref().map(|a| a.api_key.clone()), Some(b"secret".to_vec()))
        }
        _ => panic!("second action should be authentication"),
    }
    assert_eq!(state.last_failed_fingerprint, None);
}

#[test]
fn reload_context_prepares_and_applies_participants_in_order() {
    let context = ConfigReloadContext::new(vec![
        ConfigReloadParticipant::Execution,
        ConfigReloadParticipant::Console { retention_days: 1 },
        ConfigReloadParticipant::Auth,
    ]);
    let mut prepared = context
        .prepare_reload(fp(4), Ok(config_with("a:1", 9, None)), &LoggingConfig::default(), None)
        .expect("reload preparation should succeed");
    assert_eq!(prepared.fingerprint, fp(4));
    let actions = prepared.apply_actions();
    assert_eq!(action_names(&actions), ["execution", "logging:9", "auth:false"]);
    assert!(prepared.apply_actions().is_empty());
}

#[test]
fn console_participant_acts_only_when_retention_changes() {
    let applied = LoggingConfig::default();
    let same = ConfigReloadParticipant::Console { retention_days: 30 };
    let unchanged = same
        .prepare(&config_with("a:1", 30, None), &applied, None)
        .expect("console never fails");
    assert!(unchanged.is_none());
    let mut other = config_with("a:1", 30, None);
    other.logging.memory_buffer_lines = 10;
    assert!(same.prepare(&other, &applied, None).expect("console never fails").is_none());
    let changed = same
        .prepare(&config_with("a:1", 2, None), &applied, None)
        .expect("console never fails");
    assert!(matches!(changed, Some(ReloadAction::Logging { retention_days: 2 })));
}

#[test]
fn prepare_stops_at_the_file_error() {
    let participants = vec![ConfigReloadParticipant::Execution];
    let result = PreparedReload::prepare(
        fp(5),
        Err("invalid config".to_string()),
        &LoggingConfig::default(),
        None,
        &participants,
    );
    assert_eq!(result.err(), Some("invalid config".to_string()));
}

#[test]
fn execution_output_file_is_named_from_execution_id() {
    let execution_id = host_bridge_mcp::api::parse_execution_id("123e4567-e89b-12d3-a456-426614174000")
        .expect("uuid should parse");
    let file_name = execution_output_file_name(&execution_id);

    assert_eq!(file_name, "123e4567-e89b-12d3-a456-426614174000.log");
}

#[test]
fn event_targets_config_path_matches_target_file_name_in_watched_directory() {
    let watched_directory = "configs";
    let config_path = "configs/host-bridge.yaml";
    let paths = vec!["configs/tmp.yaml".to_string(), config_path.to_string()];

    assert!(event_targets_config_path(&paths, config_path, watched_directory));
}

#[test]
fn event_targets_config_path_ignores_other_files() {
    let watched_directory = "configs";
    let config_path = "configs/host-bridge.yaml";
    let paths = vec!["configs/other.yaml".to_string()];

    assert!(!event_targets_config_path(&paths, config_path, watched_directory));
}

#[test]
fn event_for_same_name_in_watched_directory_targets_config() {
    let paths = vec!["/srv/cfg/host-bridge.yaml".to_string()];
    assert!(event_targets_config_path(&paths, "/other/host-bridge.yaml", "/srv/cfg"));
    assert!(!event_targets_config_path(&paths, "/other/host-bridge.yaml", "/srv"));
    assert!(!event_targets_config_path(&Vec::new(), "/srv/cfg/host-bridge.yaml", "/srv/cfg"));
}

#[test]
fn lexical_normalization_drops_dots_and_parents() {
    assert_eq!(
        normalize_path_parts(&vec![PathPartKind::Root, PathPartKind::Normal, PathPartKind::Current, PathPartKind::Normal, PathPartKind::Parent, PathPartKind::Normal]),
        vec![0, 1, 5]
    );
    assert_eq!(normalize_path_parts(&vec![PathPartKind::Current, PathPartKind::Normal, PathPartKind::Parent, PathPartKind::Normal]), vec![3]);
    assert_eq!(normalize_path_parts(&vec![PathPartKind::Root, PathPartKind::Parent, PathPartKind::Normal]), vec![0, 1, 2]);
    assert_eq!(normalize_path_parts(&vec![PathPartKind::Parent, PathPartKind::Parent]), Vec::<usize>::new());
    assert_eq!(normalize_path_parts(&vec![PathPartKind::Current]), Vec::<usize>::new());
}

#[test]
fn data_dir_tilde_forms() {
    assert_eq!(
        classify_data_dir(" ~ "),
        ConfiguredDataDir::Home { written: "~".to_string() }
    );
    assert_eq!(
        classify_data_dir("~/data/hb"),
        ConfiguredDataDir::UnderHome { rest: "data/hb".to_string(), written: "~/data/hb".to_string() }
    );
    assert_eq!(
        classify_data_dir("~user/x"),
        ConfiguredDataDir::AsWritten("~user/x".to_string())
    );
    assert_eq!(
        classify_data_dir("/var/lib/hb"),
        ConfiguredDataDir::AsWritten("/var/lib/hb".to_string())
    );
}
