use host_bridge_mcp::console_log::ConsoleLogLevel;
use host_bridge_mcp::execution_service::{event_log_line, output_read_failed_event};
use host_bridge_mcp::command_parser::CommandParseError;
use host_bridge_mcp::config::{
    AppConfig, CommandPolicyConfig, CommandRuleConfig, ExecutionConfig, ExecutionServerConfig,
    PathMappingRule, PolicyAction, SshAuthConfig, SshAuthType,
};
use host_bridge_mcp::execution_service::{
    host_finished, resolve_timeout, selected_working_directory, ssh_finished, start_event,
    ExecuteCommandInput, ExecutionError, ExecutionEvent, ExecutionService, ExecutionState,
    LocalDirectory, LocalDirectoryRequest, PreparedExecution, RunExecutionBackend, WaitOutcome,
};
use host_bridge_mcp::platform::{HostPlatform, RuntimePlatform, TargetPlatform};
use host_bridge_mcp::ssh::{SshCommandResult, SshError};

fn service(execution: ExecutionConfig) -> ExecutionService {
    let mut config = AppConfig::default();
    config.execution = execution;
    ExecutionService::new(
        config,
        HostPlatform {
            platform: RuntimePlatform::Linux,
            inside_wsl: false,
        },
    )
}

fn input(command: &str) -> ExecuteCommandInput {
    ExecuteCommandInput {
        command: command.to_string(),
        server: None,
        working_directory: None,
        env: Vec::new(),
        timeout_ms: None,
    }
}

fn prepare(
    service: &ExecutionService,
    input: ExecuteCommandInput,
) -> Result<PreparedExecution, ExecutionError> {
    let plan = service.plan_command(&input)?;
    let local = match plan.local_directory_request() {
        LocalDirectoryRequest::NotNeeded => LocalDirectory::Unavailable(String::new()),
        LocalDirectoryRequest::Current => LocalDirectory::Resolved("/cwd".to_string()),
        LocalDirectoryRequest::Path(p) => LocalDirectory::Resolved(p),
    };
    service.prepare_command(plan, local)
}

#[test]
fn reject_zero_timeout() {
    let service = service(ExecutionConfig {
        default_action: PolicyAction::Allow,
        ..ExecutionConfig::default()
    });
    let mut request = input("cargo build");
    request.timeout_ms = Some(0);
    assert!(matches!(
        service.plan_command(&request),
        Err(ExecutionError::InvalidTimeout)
    ));
}

#[test]
fn prepare_command_marks_confirmation_when_policy_requires_it() {
    let service = service(ExecutionConfig {
        default_action: PolicyAction::Confirm,
        commands: vec![CommandPolicyConfig {
            command: "cargo".to_string(),
            action: PolicyAction::Confirm,
            targets: Vec::new(),
            default_working_directory: None,
            rules: vec![CommandRuleConfig {
                args_prefix: vec!["build".to_string()],
                action: PolicyAction::Confirm,
                default_working_directory: None,
            }],
        }],
        ..ExecutionConfig::default()
    });

    let prepared = prepare(&service, input("cargo build")).expect("command should prepare");
    let confirmation = prepared
        .confirmation_request()
        .expect("confirmation should exist");
    assert_eq!(confirmation.server, "host");
    assert_eq!(confirmation.platform, "linux");
    assert_eq!(confirmation.working_directory.as_deref(), Some("/cwd"));
    assert_eq!(confirmation.timeout_ms, 1_800_000);
}

#[test]
fn prepare_command_rejects_unknown_server() {
    let service = service(ExecutionConfig {
        default_action: PolicyAction::Allow,
        ..ExecutionConfig::default()
    });
    let mut request = input("cargo build");
    request.server = Some("missing".to_string());
    let error = service.plan_command(&request).err().expect("unknown server should fail");
    assert!(matches!(error, ExecutionError::UnknownServer(ref name) if name == "missing"));
    assert_eq!(error.message(), "unknown execution server 'missing'");
}

#[test]
fn prepare_command_builds_ssh_invocation_for_remote_server() {
    let service = service(ExecutionConfig {
        default_action: PolicyAction::Confirm,
        servers: vec![ExecutionServerConfig::Ssh {
            name: "prod".to_string(),
            host: "prod.example.com".to_string(),
            port: 2222,
            user: Some("deploy".to_string()),
            target_platform: TargetPlatform::Linux,
            enable_builtin_wsl_mapping: false,
            path_mappings: vec![PathMappingRule {
                from: "/workspace".to_string(),
                to: "/srv/workspace".to_string(),
                platforms: Vec::new(),
            }],
            identity_file: None,
            known_hosts_file: Some("/home/dev/.ssh/known_hosts".to_string()),
            auth: SshAuthConfig {
                kind: SshAuthType::PasswordEnv,
                reference: Some("SSH_PASSWORD".to_string()),
            },
            verify_host_key: true,
            connection_idle_timeout_ms: 90_000,
        }],
        ..ExecutionConfig::default()
    });

    let mut request = input("cargo build");
    request.server = Some("prod".to_string());
    request.working_directory = Some("/workspace/app".to_string());
    request.env = vec![("RUST_LOG".to_string(), "debug".to_string())];
    request.timeout_ms = Some(5_000);
    let prepared = prepare(&service, request).expect("remote command should prepare");

    let confirmation = prepared
        .confirmation_request()
        .expect("confirmation should exist");
    assert_eq!(confirmation.server, "prod");
    assert_eq!(confirmation.platform, "linux");
    assert_eq!(
        confirmation.working_directory.as_deref(),
        Some("/srv/workspace/app")
    );
    match &prepared.run().backend {
        RunExecutionBackend::Ssh(remote_run) => {
            assert_eq!(remote_run.target.host, "prod.example.com");
            assert_eq!(remote_run.target.port, 2222);
            assert_eq!(remote_run.target.user.as_deref(), Some("deploy"));
            assert_eq!(remote_run.target.connection_idle_timeout_ms, 90_000);
            assert_eq!(remote_run.target.auth.kind, SshAuthType::PasswordEnv);
            assert_eq!(remote_run.target.auth.reference.as_deref(), Some("SSH_PASSWORD"));
            assert_eq!(
                remote_run.request.working_directory.as_deref(),
                Some("/srv/workspace/app")
            );
            assert_eq!(remote_run.request.executable, "cargo");
            assert_eq!(remote_run.request.args, vec!["build".to_string()]);
            assert_eq!(remote_run.request.timeout_ms, 5_000);
            assert_eq!(
                remote_run.request.env,
                vec![("RUST_LOG".to_string(), "debug".to_string())]
            );
        }
        RunExecutionBackend::Host(_) => panic!("expected ssh backend"),
    }
}

#[test]
fn denied_and_unparsable_commands_are_refused() {
    let deny = service(ExecutionConfig {
        default_action: PolicyAction::Deny,
        ..ExecutionConfig::default()
    });
    assert!(matches!(
        deny.plan_command(&input("rm -rf /")),
        Err(ExecutionError::Denied)
    ));
    assert!(matches!(
        deny.plan_command(&input("echo 'open")),
        Err(ExecutionError::Parse(CommandParseError::UnclosedQuote))
    ));
}

#[test]
fn allowed_local_command_runs_without_confirmation() {
    let service = service(ExecutionConfig {
        default_action: PolicyAction::Allow,
        max_timeout_ms: 10,
        ..ExecutionConfig::default()
    });
    let mut request = input("ls -la");
    request.working_directory = Some("  /tmp  ".to_string());
    request.timeout_ms = Some(50);
    let plan = service.plan_command(&request).unwrap();
    assert_eq!(plan.timeout_ms, 10);
    match plan.local_directory_request() {
        LocalDirectoryRequest::Path(p) => assert_eq!(p, "/tmp"),
        _ => panic!("expected a path"),
    }
    let prepared = service
        .prepare_command(plan.clone(), LocalDirectory::Resolved("/tmp".to_string()))
        .unwrap();
    assert!(prepared.confirmation_request().is_none());
    match &prepared.run().backend {
        RunExecutionBackend::Host(h) => {
            assert_eq!(h.program, "ls");
            assert_eq!(h.working_directory, "/tmp");
        }
        _ => panic!("expected host backend"),
    }
    let missing = service
        .prepare_command(plan.clone(), LocalDirectory::Missing("/tmp".to_string()))
        .err()
        .unwrap();
    assert_eq!(
        missing.message(),
        "invalid working directory: path does not exist: /tmp"
    );
    let not_dir = service
        .prepare_command(plan, LocalDirectory::NotDirectory("/tmp".to_string()))
        .err()
        .unwrap();
    assert_eq!(
        not_dir,
        ExecutionError::InvalidWorkingDirectory("path is not a directory: /tmp".to_string())
    );
}

#[test]
fn timeout_and_working_directory_selection() {
    assert_eq!(resolve_timeout(None, 100, 50).unwrap(), 50);
    assert_eq!(resolve_timeout(Some(7), 100, 50).unwrap(), 7);
    assert_eq!(resolve_timeout(Some(0), 100, 50).unwrap_err(), ExecutionError::InvalidTimeout);
    assert_eq!(
        selected_working_directory(Some("  "), Some(" /d ")),
        Some("/d".to_string())
    );
    assert_eq!(selected_working_directory(None, Some("  ")), None);
    assert_eq!(
        selected_working_directory(Some(" /r"), Some("/d")),
        Some("/r".to_string())
    );
}

#[test]
fn runner_events_follow_the_process_outcome() {
    match start_event("host", "ls") {
        ExecutionEvent::Status { state, message } => {
            assert_eq!(state, ExecutionState::Running);
            assert_eq!(message.as_deref(), Some("Executing on host: ls"));
        }
        _ => panic!("expected status"),
    }
    let (state, events) = host_finished(
        &WaitOutcome::Exited {
            success: true,
            code: Some(0),
        },
        false,
    );
    assert_eq!(state, ExecutionState::Completed);
    assert!(matches!(events[0], ExecutionEvent::Exit { code: 0, success: true, timed_out: false }));
    let (state, events) = host_finished(
        &WaitOutcome::Exited {
            success: true,
            code: None,
        },
        true,
    );
    assert_eq!(state, ExecutionState::Failed);
    match &events[1] {
        ExecutionEvent::Status { message, .. } => {
            assert_eq!(message.as_deref(), Some("Process finished with code -1"))
        }
        _ => panic!("expected status"),
    }
    let (state, events) = ssh_finished(&Err(SshError::Timeout(5)));
    assert_eq!(state, ExecutionState::Failed);
    assert_eq!(events.len(), 3);
    assert!(matches!(events[1], ExecutionEvent::Exit { code: -1, success: false, timed_out: true }));
    let (state, _) = ssh_finished(&Ok(SshCommandResult {
        code: 3,
        success: false,
        timed_out: false,
    }));
    assert_eq!(state, ExecutionState::Failed);
}

#[test]
fn execution_events_become_console_log_lines() {

    assert_eq!(
        event_log_line(
            "123e4567",
            &ExecutionEvent::Output {
                text: "hello\r\n\n".to_string()
            }
        ),
        Some((ConsoleLogLevel::Info, "[123e4567] output | hello".to_string()))
    );
    assert_eq!(
        event_log_line(
            "abc",
            &ExecutionEvent::Exit {
                code: -1,
                success: false,
                timed_out: true
            }
        ),
        Some((
            ConsoleLogLevel::Warn,
            "[abc] exit code=-1 success=false timed_out=true".to_string()
        ))
    );
    assert_eq!(
        event_log_line(
            "abc",
            &ExecutionEvent::Exit {
                code: 0,
                success: true,
                timed_out: false
            }
        ),
        Some((
            ConsoleLogLevel::Info,
            "[abc] exit code=0 success=true timed_out=false".to_string()
        ))
    );
    assert_eq!(
        event_log_line(
            "abc",
            &ExecutionEvent::Status {
                state: ExecutionState::Running,
                message: None
            }
        ),
        None
    );
    assert_eq!(
        event_log_line(
            "abc",
            &ExecutionEvent::Error {
                message: "boom".to_string()
            }
        ),
        Some((ConsoleLogLevel::Error, "[abc] boom".to_string()))
    );
}

#[test]
fn shell_operators_need_approval_even_when_allowed() {
    let service = service(ExecutionConfig {
        default_action: PolicyAction::Allow,
        ..ExecutionConfig::default()
    });
    let prepared = prepare(&service, input("cargo build && cargo test")).unwrap();
    let request = prepared
        .confirmation_request()
        .expect("a shell operator requires approval");
    assert!(request.contains_shell_operator);
    assert_eq!(request.command_line, "cargo build && cargo test");

    let plain = prepare(&service, input("cargo build")).unwrap();
    assert!(plain.confirmation_request().is_none());

    let deny = service_with_deny();
    assert_eq!(
        deny.plan_command(&input("ls | grep x")).err(),
        Some(ExecutionError::Denied)
    );
}

fn service_with_deny() -> ExecutionService {
    service(ExecutionConfig {
        default_action: PolicyAction::Deny,
        ..ExecutionConfig::default()
    })
}

#[test]
fn output_read_failure_is_reported_as_error_event() {
    match output_read_failed_event("broken pipe") {
        ExecutionEvent::Error { message } => {
            assert_eq!(message, "Failed to read process output: broken pipe")
        }
        other => panic!("unexpected event {other:?}"),
    }
}

#[test]
fn available_environments_reports_named_environments() {
    let service = service(ExecutionConfig {
        default_server: "prod".to_string(),
        servers: vec![ExecutionServerConfig::Ssh {
            name: "prod".to_string(),
            host: "prod.example.com".to_string(),
            port: 22,
            user: Some("deploy".to_string()),
            target_platform: TargetPlatform::Linux,
            enable_builtin_wsl_mapping: false,
            path_mappings: Vec::new(),
            identity_file: None,
            known_hosts_file: None,
            auth: SshAuthConfig {
                kind: SshAuthType::Agent,
                reference: None,
            },
            verify_host_key: true,
            connection_idle_timeout_ms: 30_000,
        }],
        ..ExecutionConfig::default()
    });
    assert_eq!(service.default_server_name(), "prod");
    let environments = service.available_environments();
    assert_eq!(environments.len(), 2);
    assert_eq!(environments[0].name, "host");
    assert_eq!(environments[0].platform, RuntimePlatform::Linux);
    assert_eq!(environments[1].name, "prod");
    assert_eq!(environments[1].platform, RuntimePlatform::Linux);
}
