use host_bridge_mcp::config::{AppConfig, ConfigError, ResolvedConfigPath};
use host_bridge_mcp::config_store::{
    apply_visual_patch, ConfigSnapshot, ConfigStore, ConfigStoreError, VisualConfigPatch,
};

fn value(yaml: &str) -> serde_yaml::Value {
    serde_yaml::from_str(yaml).expect("patched text should stay YAML")
}

fn get<'a>(root: &'a serde_yaml::Value, path: &[&str]) -> &'a serde_yaml::Value {
    let mut current = root;
    for key in path {
        current = current
            .get(*key)
            .unwrap_or_else(|| panic!("missing key {key}"));
    }
    current
}

const COMMANDS_YAML: &str = "- command: cargo\n  action: allow\n  targets: []\n  default-working-directory: null\n  rules: []\n";
const SERVERS_YAML: &str = "- transport: host\n  name: builder\n  target-platform: linux\n";

#[test]
fn visual_scalar_patch_preserves_comments_and_layout() {
    let raw = "# keep this\nserver:\n  # keep address note\n  address: 127.0.0.1:8787 # keep inline\nlogging:\n  retention-days: 30\n";
    let patched = apply_visual_patch(
        raw,
        &VisualConfigPatch {
            server_address: Some("0.0.0.0:9000".to_string()),
            ..VisualConfigPatch::default()
        },
    );

    assert!(patched.contains("# keep this"));
    assert!(patched.contains("# keep address note"));
    assert!(patched.contains("address: \"0.0.0.0:9000\" # keep inline"));
    assert!(patched.contains("retention-days: 30"));
}

#[test]
fn visual_scalar_patch_inserts_missing_fields_without_reformatting_existing_sections() {
    let raw = "# keep this\nserver:\n  address: 127.0.0.1:8787\nlogging:\n  retention-days: 30\nexecution:\n  default-action: confirm\n  default-server: host\n  target-platform: auto\n  default-timeout-ms: 1800000\n  max-timeout-ms: 7200000\n";
    let patched = apply_visual_patch(
        raw,
        &VisualConfigPatch {
            data_dir: Some("/tmp/host-bridge-data".to_string()),
            tui: Some(false),
            web: Some(false),
            api_key_env: Some("HOST_BRIDGE_API_KEY".to_string()),
            log_retention_days: Some(14),
            default_working_directory: Some("/workspace".to_string()),
            history_retention_days: Some(14),
            history_max_records: Some(250),
            ..VisualConfigPatch::default()
        },
    );

    let config = value(&patched);
    assert_eq!(
        get(&config, &["server", "access", "api-key-env"]).as_str(),
        Some("HOST_BRIDGE_API_KEY")
    );
    assert_eq!(get(&config, &["data-dir"]).as_str(), Some("/tmp/host-bridge-data"));
    assert_eq!(get(&config, &["tui"]).as_bool(), Some(false));
    assert_eq!(get(&config, &["web"]).as_bool(), Some(false));
    assert_eq!(get(&config, &["logging", "retention-days"]).as_u64(), Some(14));
    assert_eq!(
        get(&config, &["execution", "default-working-directory"]).as_str(),
        Some("/workspace")
    );
    assert_eq!(get(&config, &["history", "retention-days"]).as_u64(), Some(14));
    assert_eq!(get(&config, &["history", "max-records"]).as_u64(), Some(250));
    assert!(patched.starts_with("# keep this\nserver:\n"));
    assert!(patched.contains("retention-days: 14\n"));
}

#[test]
fn visual_patch_updates_command_policies_and_servers() {
    let raw = "server:\n  address: 127.0.0.1:8787\nexecution:\n  default-action: confirm\n  default-server: host\n  target-platform: auto\n  default-timeout-ms: 1800000\n  max-timeout-ms: 7200000\n";
    let patched = apply_visual_patch(
        raw,
        &VisualConfigPatch {
            commands_yaml: Some(COMMANDS_YAML.to_string()),
            servers_yaml: Some(SERVERS_YAML.to_string()),
            ..VisualConfigPatch::default()
        },
    );

    let config = value(&patched);
    let commands = get(&config, &["execution", "commands"]).as_sequence().unwrap();
    assert_eq!(commands.len(), 1);
    assert_eq!(commands[0].get("command").and_then(|v| v.as_str()), Some("cargo"));
    let servers = get(&config, &["execution", "servers"]).as_sequence().unwrap();
    assert_eq!(servers.len(), 1);
    assert_eq!(servers[0].get("name").and_then(|v| v.as_str()), Some("builder"));
}

#[test]
fn visual_patch_replaces_existing_collections_with_yaml_blocks() {
    let raw = "server:\n  address: 127.0.0.1:8787\nexecution:\n  default-action: confirm\n  default-server: host\n  target-platform: auto\n  default-timeout-ms: 1800000\n  max-timeout-ms: 7200000\n  commands:\n    - command: old\n      action: confirm\n      targets: []\n      default-working-directory: null\n      rules: []\n  servers:\n    - transport: host\n      name: old\n      target-platform: auto\n";
    let patched = apply_visual_patch(
        raw,
        &VisualConfigPatch {
            commands_yaml: Some(COMMANDS_YAML.to_string()),
            servers_yaml: Some(SERVERS_YAML.to_string()),
            ..VisualConfigPatch::default()
        },
    );

    let config = value(&patched);
    let commands = get(&config, &["execution", "commands"]).as_sequence().unwrap();
    assert_eq!(commands[0].get("command").and_then(|v| v.as_str()), Some("cargo"));
    let servers = get(&config, &["execution", "servers"]).as_sequence().unwrap();
    assert_eq!(servers[0].get("name").and_then(|v| v.as_str()), Some("builder"));
    assert!(patched.contains("  commands:\n    - command: cargo\n"));
    assert!(patched.contains("  servers:\n    - transport: host\n"));
    assert!(!patched.contains("command: old"));
    assert!(!patched.contains("name: old"));
    assert!(!patched.contains("commands: [{"));
    assert!(!patched.contains("servers: [{"));
}

#[test]
fn empty_patch_keeps_the_text() {
    let raw = "a: 1\r\n# note\nb:\n  c: x # y\n";
    assert_eq!(apply_visual_patch(raw, &VisualConfigPatch::default()), raw);
}

#[test]
fn empty_lists_and_crlf_files() {
    let raw = "execution:\r\n  default-action: confirm\r\n  commands:\r\n    - command: old\r\n";
    let patched = apply_visual_patch(
        raw,
        &VisualConfigPatch {
            commands_yaml: Some("[]\n".to_string()),
            max_timeout_ms: Some(5),
            ..VisualConfigPatch::default()
        },
    );
    assert_eq!(
        patched,
        "execution:\r\n  default-action: confirm\r\n  commands: []\r\n  max-timeout-ms: 5\r\n"
    );
}

#[test]
fn values_are_quoted_and_blank_optionals_become_null() {
    let patched = apply_visual_patch(
        "server:\n  address: x\n",
        &VisualConfigPatch {
            server_address: Some("a\"b\\c\n".to_string()),
            default_working_directory: Some("   ".to_string()),
            ..VisualConfigPatch::default()
        },
    );
    assert_eq!(
        patched,
        "server:\n  address: \"a\\\"b\\\\c\\n\"\nexecution:\n  default-working-directory: null\n"
    );
}

#[test]
fn store_snapshots_and_patches() {
    let store = ConfigStore::new(ResolvedConfigPath {
        path: "cfg.yaml".to_string(),
        explicit: true,
    });
    assert_eq!(store.path(), "cfg.yaml");
    let snap = store
        .save_raw("a: 1\n".to_string(), Ok(AppConfig::default()))
        .unwrap();
    assert_eq!(snap.path, "cfg.yaml");
    assert_eq!(snap.raw, "a: 1\n");
    let failed = store.save_raw(
        "x".to_string(),
        Err(ConfigError::Validation("bad".to_string())),
    );
    assert!(matches!(failed, Err(ConfigStoreError::Config(ConfigError::Validation(_)))));
    let current = ConfigSnapshot {
        path: "cfg.yaml".to_string(),
        raw: "tui: true\n".to_string(),
        config: AppConfig::default(),
    };
    let raw = store.save_visual(
        &current,
        &VisualConfigPatch {
            tui: Some(false),
            ..VisualConfigPatch::default()
        },
    );
    assert_eq!(raw, "tui: false\n");
    assert_eq!(
        ConfigStoreError::Serialize("x".into()).message(),
        "failed to serialize default configuration: x"
    );
}
