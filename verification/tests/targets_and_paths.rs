use host_bridge_mcp::config::{
    ExecutionConfig, ExecutionServerConfig, PathMappingRule, Platform, SshAuthConfig,
};
use host_bridge_mcp::execution_target::{ExecutionTargetRegistry, ExecutionTransport};
use host_bridge_mcp::path_mapping::{looks_like_path, PathMapper};
use host_bridge_mcp::platform::{HostPlatform, RuntimePlatform, TargetPlatform};

fn linux_host() -> HostPlatform {
    HostPlatform {
        platform: RuntimePlatform::Linux,
        inside_wsl: false,
    }
}

#[test]
fn registry_includes_implicit_host_target() {
    let registry = ExecutionTargetRegistry::from_config(&ExecutionConfig::default(), linux_host());

    assert_eq!(registry.default_target().name, "host");
    assert_eq!(registry.target_names(), vec!["host".to_string()]);
}

#[test]
fn explicit_host_target_overrides_implicit_host_settings() {
    let registry = ExecutionTargetRegistry::from_config(
        &ExecutionConfig {
            servers: vec![ExecutionServerConfig::Host {
                name: "host".to_string(),
                target_platform: TargetPlatform::Windows,
                enable_builtin_wsl_mapping: false,
                path_mappings: vec![PathMappingRule {
                    from: "/workspace/mnt/d".to_string(),
                    to: "D:\\".to_string(),
                    platforms: Vec::new(),
                }],
            }],
            ..ExecutionConfig::default()
        },
        linux_host(),
    );

    let target = registry
        .resolve(Some("host"))
        .expect("host target should exist");
    assert_eq!(target.target_platform, RuntimePlatform::Windows);
    assert_eq!(
        target.path_mapper.map_path("/workspace/mnt/d/repo"),
        "D:\\repo"
    );
}

#[test]
fn registry_resolves_named_ssh_target() {
    let registry = ExecutionTargetRegistry::from_config(
        &ExecutionConfig {
            default_server: "prod".to_string(),
            servers: vec![ExecutionServerConfig::Ssh {
                name: "prod".to_string(),
                host: "prod.example.com".to_string(),
                port: 22,
                user: Some("deploy".to_string()),
                target_platform: TargetPlatform::Linux,
                enable_builtin_wsl_mapping: false,
                path_mappings: Vec::new(),
                identity_file: Some("/home/dev/.ssh/id_ed25519".to_string()),
                known_hosts_file: Some("/home/dev/.ssh/known_hosts".to_string()),
                auth: SshAuthConfig::default(),
                verify_host_key: true,
                connection_idle_timeout_ms: 300_000,
            }],
            ..ExecutionConfig::default()
        },
        linux_host(),
    );

    let target = registry.default_target();
    match &target.transport {
        ExecutionTransport::Ssh(ssh) => {
            assert_eq!(ssh.host, "prod.example.com");
            assert_eq!(ssh.user.as_deref(), Some("deploy"));
        }
        ExecutionTransport::Host => panic!("expected ssh target"),
    }
    assert_eq!(
        registry.target_names(),
        vec!["host".to_string(), "prod".to_string()]
    );
    assert!(registry.resolve(Some("missing")).is_none());
}

#[test]
fn custom_mapping_rule_applies() {
    let mapper = PathMapper::new(
        vec![PathMappingRule {
            from: "/workspace/mnt/d".to_string(),
            to: "D:\\".to_string(),
            platforms: Vec::new(),
        }],
        TargetPlatform::Windows,
        linux_host(),
    );

    assert_eq!(
        mapper.map_path("/workspace/mnt/d/Code/repo"),
        "D:\\Code\\repo"
    );
}

#[test]
fn detects_windows_drive_path() {
    assert!(looks_like_path("C:\\Users\\dev"));
    assert!(!looks_like_path("mvn"));
}

#[test]
fn mapping_rules_respect_platforms_and_separators() {
    let rules = vec![
        PathMappingRule {
            from: "/data".to_string(),
            to: "E:\\data".to_string(),
            platforms: vec![Platform::Macos],
        },
        PathMappingRule {
            from: "C:\\work".to_string(),
            to: "/mnt/c/work".to_string(),
            platforms: vec![Platform::Linux],
        },
    ];
    let mapper = PathMapper::new(rules, TargetPlatform::Auto, linux_host());
    assert_eq!(mapper.map_path("  /data/x  "), "/data/x");
    assert_eq!(mapper.map_path("C:\\work\\src\\main.rs"), "/mnt/c/work/src/main.rs");
    assert_eq!(mapper.map_path("C:\\work"), "/mnt/c/work");
    assert_eq!(mapper.map_path("   "), "");
    assert_eq!(mapper.map_command_if_path("cargo"), "cargo");
    assert_eq!(mapper.map_argument_if_path("--release"), "--release");
}

#[test]
fn registry_knows_host_and_configured_servers_only() {
    let server = |name: &str, platform: TargetPlatform| ExecutionServerConfig::Host {
        name: name.to_string(),
        target_platform: platform,
        enable_builtin_wsl_mapping: false,
        path_mappings: Vec::new(),
    };
    let registry = ExecutionTargetRegistry::from_config(
        &ExecutionConfig {
            default_server: "build".to_string(),
            servers: vec![
                server("build", TargetPlatform::Windows),
                server("build", TargetPlatform::Macos),
                server("ci", TargetPlatform::Linux),
            ],
            ..ExecutionConfig::default()
        },
        linux_host(),
    );
    assert_eq!(registry.target_names(), vec!["build", "ci", "host"]);
    assert!(registry.resolve(Some("staging")).is_none());
    let by_default = registry.resolve(None).expect("default target should resolve");
    assert_eq!(by_default.name, "build");
    assert_eq!(by_default.target_platform, RuntimePlatform::Macos);
    assert_eq!(
        registry.resolve(Some("build")).expect("build should resolve").target_platform,
        RuntimePlatform::Macos
    );
}
