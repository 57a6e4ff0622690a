use host_bridge_mcp::config::{
    AccessConfig, AppConfig, CommandPolicyConfig, CommandRuleConfig, ExecutionConfig,
    ExecutionServerConfig, SshAuthConfig, SshAuthType,
};
use host_bridge_mcp::platform::TargetPlatform;

fn ssh_server(
    name: &str,
    host: &str,
    user: Option<&str>,
    target_platform: TargetPlatform,
    auth: SshAuthConfig,
    connection_idle_timeout_ms: u64,
) -> ExecutionServerConfig {
    ExecutionServerConfig::Ssh {
        name: name.to_string(),
        host: host.to_string(),
        port: 22,
        user: user.map(str::to_string),
        target_platform,
        enable_builtin_wsl_mapping: false,
        path_mappings: Vec::new(),
        identity_file: None,
        known_hosts_file: None,
        auth,
        verify_host_key: true,
        connection_idle_timeout_ms,
    }
}

fn with_execution(execution: ExecutionConfig) -> AppConfig {
    AppConfig {
        execution,
        ..AppConfig::default()
    }
}

fn validation_message(config: &AppConfig) -> String {
    config
        .validate()
        .expect_err("config should be invalid")
        .message()
}

fn empty_command_config() -> AppConfig {
    with_execution(ExecutionConfig {
        commands: vec![CommandPolicyConfig {
            command: "   ".to_string(),
            action: host_bridge_mcp::config::PolicyAction::Allow,
            targets: Vec::new(),
            default_working_directory: None,
            rules: Vec::new(),
        }],
        ..ExecutionConfig::default()
    })
}

fn rule_config(args_prefix: Vec<String>) -> AppConfig {
    with_execution(ExecutionConfig {
        commands: vec![CommandPolicyConfig {
            command: "cargo".to_string(),
            action: host_bridge_mcp::config::PolicyAction::Allow,
            targets: Vec::new(),
            default_working_directory: None,
            rules: vec![CommandRuleConfig {
                args_prefix,
                action: host_bridge_mcp::config::PolicyAction::Confirm,
                default_working_directory: None,
            }],
        }],
        ..ExecutionConfig::default()
    })
}

fn duplicate_host_servers() -> AppConfig {
    let host = || ExecutionServerConfig::Host {
        name: "build".to_string(),
        target_platform: TargetPlatform::Auto,
        enable_builtin_wsl_mapping: true,
        path_mappings: Vec::new(),
    };
    with_execution(ExecutionConfig {
        servers: vec![host(), host()],
        ..ExecutionConfig::default()
    })
}

#[test]
fn config_default_config_is_valid() {
    assert!(AppConfig::default().validate().is_ok());
}

#[test]
fn tests_default_config_is_valid() {
    assert!(AppConfig::default().validate().is_ok());
}

#[test]
fn config_reject_command_policy_with_empty_command() {
    let message = validation_message(&empty_command_config());
    assert!(message.contains("execution.commands[0].command"));
}

#[test]
fn tests_reject_command_policy_with_empty_command() {
    let message = validation_message(&empty_command_config());
    assert!(message.contains("execution.commands[0].command"));
}

#[test]
fn config_reject_nested_command_rule_without_args_prefix() {
    let message = validation_message(&rule_config(Vec::new()));
    assert!(message
        .contains("execution.commands[0].rules[0].args-prefix must contain at least one token"));
}

#[test]
fn tests_reject_nested_command_rule_without_args_prefix() {
    let message = validation_message(&rule_config(Vec::new()));
    assert!(message
        .contains("execution.commands[0].rules[0].args-prefix must contain at least one token"));
}

#[test]
fn config_reject_empty_nested_command_rule_token() {
    let message = validation_message(&rule_config(vec!["build".to_string(), "   ".to_string()]));
    assert!(message.contains("execution.commands[0].rules[0].args-prefix[1]"));
}

#[test]
fn tests_reject_empty_nested_command_rule_token() {
    let message = validation_message(&rule_config(vec!["build".to_string(), "   ".to_string()]));
    assert!(message.contains("execution.commands[0].rules[0].args-prefix[1]"));
}

#[test]
fn config_default_config_uses_single_server() {
    let config = AppConfig::default();

    assert_eq!(config.server.bind_address, "127.0.0.1:8787");
    assert_eq!(config.server.access, AccessConfig::default());
    assert_eq!(config.execution.default_server, "host");
    assert!(config.execution.servers.is_empty());
}

#[test]
fn tests_default_config_uses_single_server() {
    let config = AppConfig::default();

    assert_eq!(config.server.bind_address, "127.0.0.1:8787");
    assert_eq!(config.server.access, AccessConfig::default());
    assert_eq!(config.execution.default_server, "host");
    assert!(config.execution.servers.is_empty());
}

#[test]
fn config_reject_default_server_when_missing_from_configured_servers() {
    let config = with_execution(ExecutionConfig {
        default_server: "prod".to_string(),
        servers: vec![ssh_server(
            "staging",
            "staging.example.com",
            Some("deploy"),
            TargetPlatform::Linux,
            SshAuthConfig::default(),
            300_000,
        )],
        ..ExecutionConfig::default()
    });
    assert!(validation_message(&config).contains("execution.default-server 'prod'"));
}

#[test]
fn tests_reject_default_server_when_missing_from_configured_servers() {
    let config = with_execution(ExecutionConfig {
        default_server: "prod".to_string(),
        servers: vec![ssh_server(
            "staging",
            "staging.example.com",
            Some("deploy"),
            TargetPlatform::Linux,
            SshAuthConfig::default(),
            30_000,
        )],
        ..ExecutionConfig::default()
    });
    assert!(validation_message(&config).contains("execution.default-server 'prod'"));
}

#[test]
fn config_reject_duplicate_server_names() {
    assert!(validation_message(&duplicate_host_servers()).contains("duplicates server 'build'"));
}

#[test]
fn tests_reject_duplicate_server_names() {
    assert!(validation_message(&duplicate_host_servers()).contains("duplicates server 'build'"));
}

#[test]
fn tests_reject_ssh_server_with_auto_target_platform() {
    let config = with_execution(ExecutionConfig {
        servers: vec![ssh_server(
            "prod",
            "prod.example.com",
            Some("deploy"),
            TargetPlatform::Auto,
            SshAuthConfig::default(),
            30_000,
        )],
        ..ExecutionConfig::default()
    });
    assert!(validation_message(&config).contains("target-platform must be explicit for SSH servers"));
}

#[test]
fn config_reject_ssh_server_named_host() {
    let config = with_execution(ExecutionConfig {
        servers: vec![ssh_server(
            "host",
            "prod.example.com",
            None,
            TargetPlatform::Linux,
            SshAuthConfig::default(),
            300_000,
        )],
        ..ExecutionConfig::default()
    });
    assert!(validation_message(&config).contains("'host' is reserved"));
}

#[test]
fn tests_reject_ssh_server_named_host() {
    let config = with_execution(ExecutionConfig {
        servers: vec![ssh_server(
            "host",
            "prod.example.com",
            Some("deploy"),
            TargetPlatform::Linux,
            SshAuthConfig::default(),
            30_000,
        )],
        ..ExecutionConfig::default()
    });
    assert!(validation_message(&config).contains("'host' is reserved"));
}

#[test]
fn reject_missing_auth_ref_for_password_file() {
    let config = with_execution(ExecutionConfig {
        servers: vec![ssh_server(
            "prod",
            "prod.example.com",
            Some("deploy"),
            TargetPlatform::Linux,
            SshAuthConfig {
                kind: SshAuthType::PasswordFile,
                reference: None,
            },
            30_000,
        )],
        ..ExecutionConfig::default()
    });
    assert!(validation_message(&config).contains("auth.ref is required"));
}

#[test]
fn reject_auth_ref_for_agent_auth() {
    let config = with_execution(ExecutionConfig {
        servers: vec![ssh_server(
            "prod",
            "prod.example.com",
            Some("deploy"),
            TargetPlatform::Linux,
            SshAuthConfig {
                kind: SshAuthType::Agent,
                reference: Some("unexpected".to_string()),
            },
            30_000,
        )],
        ..ExecutionConfig::default()
    });
    assert!(validation_message(&config).contains("must be omitted when auth.type is agent"));
}

#[test]
fn reject_zero_ssh_connection_idle_timeout() {
    let config = with_execution(ExecutionConfig {
        servers: vec![ssh_server(
            "prod",
            "prod.example.com",
            Some("deploy"),
            TargetPlatform::Linux,
            SshAuthConfig::default(),
            0,
        )],
        ..ExecutionConfig::default()
    });
    assert!(validation_message(&config)
        .contains("connection-idle-timeout-ms must be greater than zero"));
}

#[test]
fn timeout_rules_are_checked_in_order() {
    let mut config = AppConfig::default();
    config.execution.default_timeout_ms = 0;
    assert_eq!(
        validation_message(&config),
        "invalid config: execution.default-timeout-ms must be greater than zero"
    );
    config.execution.default_timeout_ms = 10;
    config.execution.max_timeout_ms = 5;
    assert!(validation_message(&config).contains("must be greater than or equal to"));
}

#[test]
fn blank_bind_address_and_history_retention_are_rejected() {
    let mut config = AppConfig::default();
    config.server.bind_address = "  ".to_string();
    assert_eq!(
        validation_message(&config),
        "invalid config: server.address cannot be empty"
    );
    let mut config = AppConfig::default();
    config.history.retention_days = 0;
    assert!(validation_message(&config).contains("history.retention-days"));
}

fn execution_keys_of(yaml: &str) -> Vec<String> {
    let value: serde_yaml::Value = serde_yaml::from_str(yaml).expect("test yaml should parse");
    value
        .as_mapping()
        .and_then(|root| root.get(serde_yaml::Value::String("execution".to_string())))
        .and_then(serde_yaml::Value::as_mapping)
        .map(|execution| {
            execution
                .keys()
                .filter_map(|key| key.as_str().map(str::to_string))
                .collect()
        })
        .unwrap_or_default()
}

#[test]
fn reject_legacy_default_policy_key_when_loading() {
    let path = host_bridge_mcp::config::resolve_config_path(Some("legacy.yaml"), None);
    let loaded = host_bridge_mcp::config::LoadedConfig::Parsed {
        execution_keys: execution_keys_of(
            r#"execution:
  default_policy: allow
"#,
        ),
        config: Ok(AppConfig::default()),
    };
    let error = AppConfig::load(&path, loaded).expect_err("legacy default_policy should be rejected");
    assert!(error
        .message()
        .contains("execution.default-policy is no longer supported"));
}

#[test]
fn reject_legacy_rules_key_when_loading() {
    let path = host_bridge_mcp::config::resolve_config_path(Some("legacy.yaml"), None);
    let loaded = host_bridge_mcp::config::LoadedConfig::Parsed {
        execution_keys: execution_keys_of(
            r#"execution:
  default-action: confirm
  rules:
    - command: cargo
      action: deny
      args-prefix:
        - publish
"#,
        ),
        config: Ok(AppConfig::default()),
    };
    let error = AppConfig::load(&path, loaded).expect_err("legacy execution.rules should be rejected");
    assert!(error
        .message()
        .contains("execution.rules is no longer supported"));
}

#[test]
fn config_explicit_missing_config_path_fails_to_load() {
    let path = host_bridge_mcp::config::resolve_config_path(Some("definitely-missing-config.yaml"), None);
    let error = AppConfig::load(&path, host_bridge_mcp::config::LoadedConfig::Missing)
        .expect_err("missing explicit config should fail");

    assert!(matches!(error, host_bridge_mcp::config::ConfigError::Read { .. }));
}

#[test]
fn tests_explicit_missing_config_path_fails_to_load() {
    let path = host_bridge_mcp::config::resolve_config_path(Some("definitely-missing-config.yaml"), None);
    let error = AppConfig::load(&path, host_bridge_mcp::config::LoadedConfig::Missing)
        .expect_err("missing explicit config should fail");

    assert!(matches!(error, host_bridge_mcp::config::ConfigError::Read { .. }));
}

#[test]
fn missing_default_config_loads_defaults() {
    let path = host_bridge_mcp::config::resolve_config_path(None, None);
    assert!(!path.explicit);
    let config = AppConfig::load(&path, host_bridge_mcp::config::LoadedConfig::Missing)
        .expect("a missing default config falls back to defaults");
    assert_eq!(config.history.max_records, 1000);
}
