use host_bridge_mcp::config::{
    AppConfig, CommandPolicyConfig, CommandRuleConfig, ExecutionConfig, PolicyAction,
};
use host_bridge_mcp::policy::{glob_match, normalize_command, PolicyDecision, PolicyEngine};

fn test_config(execution: ExecutionConfig) -> AppConfig {
    let mut config = AppConfig::default();
    config.execution = execution;
    config
}

fn rule(prefix: &[&str], action: PolicyAction) -> CommandRuleConfig {
    CommandRuleConfig {
        args_prefix: prefix.iter().map(|value| value.to_string()).collect(),
        action,
        default_working_directory: None,
    }
}

#[test]
fn normalize_command_removes_windows_suffix() {
    assert_eq!(normalize_command("C:\\tools\\mvn.CMD"), "mvn");
}

#[test]
fn confirm_policy_requires_confirmation() {
    let config = test_config(ExecutionConfig {
        default_action: PolicyAction::Confirm,
        ..ExecutionConfig::default()
    });
    let engine = PolicyEngine::new(config);

    let result = engine.evaluate("mvn", &[]);
    assert_eq!(result.decision, PolicyDecision::RequireConfirmation);
}

#[test]
fn subcommand_policy_overrides_command_policy() {
    let config = test_config(ExecutionConfig {
        default_action: PolicyAction::Allow,
        commands: vec![CommandPolicyConfig {
            command: "mvn".to_string(),
            action: PolicyAction::Allow,
            targets: Vec::new(),
            default_working_directory: None,
            rules: vec![rule(&["clean", "install"], PolicyAction::Deny)],
        }],
        ..ExecutionConfig::default()
    });
    let engine = PolicyEngine::new(config);

    let result = engine.evaluate("mvn", &["clean".to_string(), "install".to_string()]);
    assert_eq!(result.decision, PolicyDecision::Deny);
}

#[test]
fn longest_subcommand_pattern_wins() {
    let config = test_config(ExecutionConfig {
        default_action: PolicyAction::Confirm,
        commands: vec![CommandPolicyConfig {
            command: "npm".to_string(),
            action: PolicyAction::Confirm,
            targets: Vec::new(),
            default_working_directory: None,
            rules: vec![
                rule(&["run"], PolicyAction::Allow),
                rule(&["run", "build"], PolicyAction::Deny),
            ],
        }],
        ..ExecutionConfig::default()
    });
    let engine = PolicyEngine::new(config);

    let result = engine.evaluate("npm", &["run".to_string(), "build".to_string()]);
    assert_eq!(result.decision, PolicyDecision::Deny);
}

#[test]
fn later_rule_wins_when_specificity_matches() {
    let config = test_config(ExecutionConfig {
        default_action: PolicyAction::Confirm,
        commands: vec![CommandPolicyConfig {
            command: "cargo".to_string(),
            action: PolicyAction::Confirm,
            targets: Vec::new(),
            default_working_directory: None,
            rules: vec![
                rule(&["build"], PolicyAction::Allow),
                rule(&["build"], PolicyAction::Deny),
            ],
        }],
        ..ExecutionConfig::default()
    });

    let engine = PolicyEngine::new(config);
    let result = engine.evaluate("cargo", &["build".to_string()]);
    assert_eq!(result.decision, PolicyDecision::Deny);
}

#[test]
fn grouped_command_policy_uses_command_action_and_nested_override() {
    let config = test_config(ExecutionConfig {
        default_action: PolicyAction::Confirm,
        commands: vec![CommandPolicyConfig {
            command: "npm".to_string(),
            action: PolicyAction::Allow,
            targets: Vec::new(),
            default_working_directory: Some("/workspace/frontend".to_string()),
            rules: vec![rule(&["publish"], PolicyAction::Deny)],
        }],
        ..ExecutionConfig::default()
    });

    let engine = PolicyEngine::new(config);

    let install_result = engine.evaluate("npm", &["install".to_string()]);
    assert_eq!(install_result.decision, PolicyDecision::Allow);
    assert_eq!(
        install_result.default_working_directory,
        Some("/workspace/frontend".to_string())
    );

    let publish_result = engine.evaluate("npm", &["publish".to_string()]);
    assert_eq!(publish_result.decision, PolicyDecision::Deny);
    assert_eq!(
        publish_result.default_working_directory,
        Some("/workspace/frontend".to_string())
    );
}

#[test]
fn command_names_and_arguments_are_normalised_before_matching() {
    let config = test_config(ExecutionConfig {
        default_action: PolicyAction::Allow,
        commands: vec![CommandPolicyConfig {
            command: "Cargo".to_string(),
            action: PolicyAction::Allow,
            targets: Vec::new(),
            default_working_directory: None,
            rules: vec![rule(&[" PUBLISH "], PolicyAction::Deny)],
        }],
        ..ExecutionConfig::default()
    });
    let engine = PolicyEngine::new(config);
    let result = engine.evaluate("/usr/bin/cargo.EXE", &["Publish".to_string()]);
    assert_eq!(result.decision, PolicyDecision::Deny);
    assert_eq!(normalize_command("   "), "");
    assert_eq!(normalize_command("tool.ps1"), "tool");
    assert_eq!(normalize_command("dir/"), "");
}

fn command(name: &str, action: PolicyAction, targets: &[&str], rules: Vec<CommandRuleConfig>) -> CommandPolicyConfig {
    CommandPolicyConfig {
        command: name.to_string(),
        action,
        targets: targets.iter().map(|value| value.to_string()).collect(),
        default_working_directory: None,
        rules,
    }
}

fn documented_example() -> PolicyEngine {
    PolicyEngine::new(test_config(ExecutionConfig {
        default_action: PolicyAction::Deny,
        commands: vec![
            command("*", PolicyAction::Allow, &[], Vec::new()),
            command("rm", PolicyAction::Deny, &[], Vec::new()),
            command("sudo*", PolicyAction::Confirm, &[], Vec::new()),
            command(
                "cargo",
                PolicyAction::Allow,
                &["host", "build-linux"],
                vec![rule(&["publish"], PolicyAction::Confirm)],
            ),
        ],
        ..ExecutionConfig::default()
    }))
}

#[test]
fn wildcard_commands_match_any_name_and_exact_commands_win() {
    let engine = documented_example();
    assert_eq!(engine.evaluate("ls", &[]).decision, PolicyDecision::Allow);
    assert_eq!(
        engine.evaluate("rm", &["-rf".to_string()]).decision,
        PolicyDecision::Deny
    );
    assert_eq!(engine.evaluate("sudo", &[]).decision, PolicyDecision::RequireConfirmation);
    assert_eq!(
        engine.evaluate("/usr/bin/sudoedit", &[]).decision,
        PolicyDecision::RequireConfirmation
    );
}

#[test]
fn target_scoped_policies_apply_only_on_their_targets() {
    let engine = documented_example();
    let publish = ["publish".to_string()];
    assert_eq!(
        engine.evaluate("cargo", &publish).decision,
        PolicyDecision::RequireConfirmation
    );
    assert_eq!(
        engine
            .evaluate_for_target("cargo", &publish, "build-linux")
            .decision,
        PolicyDecision::RequireConfirmation
    );
    assert_eq!(
        engine.evaluate_for_target("cargo", &publish, "staging").decision,
        PolicyDecision::Allow
    );
    assert_eq!(
        engine
            .evaluate_for_target("cargo", &["build".to_string()], "host")
            .decision,
        PolicyDecision::Allow
    );
}

#[test]
fn glob_patterns_match_runs_of_characters() {
    let chars = |s: &str| s.chars().collect::<Vec<char>>();
    assert!(glob_match(&chars("*"), &chars("")));
    assert!(glob_match(&chars("a*c"), &chars("abbbc")));
    assert!(glob_match(&chars("a*c"), &chars("ac")));
    assert!(!glob_match(&chars("a*c"), &chars("ab")));
    assert!(glob_match(&chars("*.sh"), &chars("run.sh")));
    assert!(!glob_match(&chars("git"), &chars("gitk")));
    assert!(glob_match(&chars("**"), &chars("x")));
}
