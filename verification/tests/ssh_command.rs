use host_bridge_mcp::base64::{base64_encode, encode_base64};
use host_bridge_mcp::platform::RuntimePlatform;
use host_bridge_mcp::ssh::{
    build_remote_command, is_connection_expired, keepalive_interval_for, quote_posix,
    quote_powershell, resolve_auth_env, resolve_auth_file, should_retry_with_fresh_session,
    sorted_env, CommandAttemptStage, SshCommandRequest, SshError,
};

fn request() -> SshCommandRequest {
    SshCommandRequest {
        executable: "cargo".to_string(),
        args: vec!["build".to_string(), "--release".to_string()],
        env: vec![("RUST_LOG".to_string(), "info debug".to_string())],
        working_directory: Some("/srv/app".to_string()),
        timeout_ms: 3_000,
    }
}

#[test]
fn posix_command_uses_shell_safe_wrapping() {
    let remote_command = build_remote_command(RuntimePlatform::Linux, &request());

    assert!(remote_command.contains("sh -lc"));
    assert!(remote_command.contains("/srv/app"));
    assert!(remote_command.contains("RUST_LOG=info debug"));
    assert!(remote_command.contains("cargo"));
    assert!(remote_command.contains("--release"));
}

#[test]
fn posix_command_has_exact_shape() {
    let remote_command = build_remote_command(RuntimePlatform::Linux, &request());
    assert_eq!(
        remote_command,
        "sh -lc 'cd -- '\\''/srv/app'\\'' && exec env '\\''RUST_LOG=info debug'\\'' '\\''cargo'\\'' '\\''build'\\'' '\\''--release'\\'''"
    );
}

#[test]
fn posix_command_without_env_or_directory() {
    let request = SshCommandRequest {
        executable: "ls".to_string(),
        args: Vec::new(),
        env: Vec::new(),
        working_directory: None,
        timeout_ms: 1,
    };
    assert_eq!(
        build_remote_command(RuntimePlatform::Macos, &request),
        "sh -lc 'exec '\\''ls'\\'''"
    );
}

#[test]
fn windows_command_uses_encoded_powershell() {
    let mut request = request();
    request.executable = "cargo.exe".to_string();
    request.working_directory = Some("C:\\repo".to_string());
    let remote_command = build_remote_command(RuntimePlatform::Windows, &request);

    assert!(remote_command.starts_with(
        "powershell -NoLogo -NoProfile -NonInteractive -ExecutionPolicy Bypass -EncodedCommand "
    ));
}

#[test]
fn windows_command_encodes_utf16le_script() {
    let request = SshCommandRequest {
        executable: "a".to_string(),
        args: Vec::new(),
        env: Vec::new(),
        working_directory: None,
        timeout_ms: 1,
    };
    let script = "$ErrorActionPreference = 'Stop'\n& 'a'\nexit $LASTEXITCODE";
    let mut bytes = Vec::new();
    for unit in script.encode_utf16() {
        bytes.extend_from_slice(&unit.to_le_bytes());
    }
    let expected = format!(
        "powershell -NoLogo -NoProfile -NonInteractive -ExecutionPolicy Bypass -EncodedCommand {}",
        encode_base64(&bytes)
    );
    assert_eq!(build_remote_command(RuntimePlatform::Windows, &request), expected);
}

#[test]
fn base64_encoder_matches_known_value() {
    assert_eq!(encode_base64(b"hello"), "aGVsbG8=");
}

#[test]
fn base64_encoder_matches_expected_padding() {
    assert_eq!(base64_encode(b""), "");
    assert_eq!(base64_encode(b"f"), "Zg==");
    assert_eq!(base64_encode(b"fo"), "Zm8=");
    assert_eq!(base64_encode(b"foo"), "Zm9v");
    assert_eq!(base64_encode(b"hello"), "aGVsbG8=");
}

#[test]
fn both_base64_encoders_agree() {
    let data: Vec<u8> = (0u8..=255).collect();
    assert_eq!(encode_base64(&data), base64_encode(&data));
    assert_eq!(encode_base64(&[0xff, 0xfe]), "//4=");
}

#[test]
fn quoting_escapes_single_quotes() {
    assert_eq!(quote_posix(""), "''");
    assert_eq!(quote_posix("it's"), "'it'\\''s'");
    assert_eq!(quote_powershell("it's"), "'it''s'");
    assert_eq!(quote_powershell(""), "''");
}

#[test]
fn env_entries_are_ordered_by_name() {
    let env = vec![
        ("b".to_string(), "2".to_string()),
        ("a".to_string(), "1".to_string()),
        ("c".to_string(), "3".to_string()),
    ];
    let sorted = sorted_env(&env);
    let names: Vec<&str> = sorted.iter().map(|(k, _)| k.as_str()).collect();
    assert_eq!(names, vec!["a", "b", "c"]);
}

#[test]
fn keepalive_interval_is_disabled_for_short_idle_timeout() {
    assert_eq!(keepalive_interval_for(3_000), None);
}

#[test]
fn keepalive_interval_scales_with_idle_timeout() {
    assert_eq!(keepalive_interval_for(12_000), Some(4_000_000_000));
    assert_eq!(keepalive_interval_for(600_000), Some(30_000_000_000));
    assert_eq!(keepalive_interval_for(4_000), Some(2_000_000_000));
    assert_eq!(keepalive_interval_for(10_000), Some(3_333_333_333));
}

#[test]
fn connection_expiration_uses_return_time_and_timeout() {
    let returned_at = 1_000_000;
    assert!(!is_connection_expired(returned_at, 10_000, returned_at + 9_000));
    assert!(is_connection_expired(returned_at, 10_000, returned_at + 10_000));
    assert!(!is_connection_expired(returned_at, 10_000, returned_at - 5));
}

#[test]
fn retry_policy_only_retries_reused_connection_setup_failures_once() {
    assert!(should_retry_with_fresh_session(
        true,
        true,
        CommandAttemptStage::ConnectionSetup
    ));
    assert!(!should_retry_with_fresh_session(
        false,
        true,
        CommandAttemptStage::ConnectionSetup
    ));
    assert!(!should_retry_with_fresh_session(
        true,
        false,
        CommandAttemptStage::ConnectionSetup
    ));
    assert!(!should_retry_with_fresh_session(
        true,
        true,
        CommandAttemptStage::Runtime
    ));
}

#[test]
fn auth_sources_yield_passwords_or_errors() {
    assert_eq!(
        resolve_auth_env("PW", Some("secret")).unwrap(),
        "secret"
    );
    assert_eq!(
        resolve_auth_env("PW", None).unwrap_err(),
        SshError::MissingAuthEnv("PW".to_string())
    );
    assert_eq!(
        resolve_auth_env("PW", Some("  ")).unwrap_err(),
        SshError::EmptyAuthEnv("PW".to_string())
    );
    assert_eq!(
        resolve_auth_file("/p", Ok("secret\r\n\n".to_string())).unwrap(),
        "secret"
    );
    assert_eq!(
        resolve_auth_file("/p", Ok("\n".to_string())).unwrap_err(),
        SshError::EmptyAuthFile("/p".to_string())
    );
    assert_eq!(
        resolve_auth_file("/p", Err("denied".to_string())).unwrap_err(),
        SshError::AuthFileRead("/p".to_string(), "denied".to_string())
    );
}

#[test]
fn ssh_error_messages() {
    assert_eq!(
        SshError::Timeout(3000).message(),
        "remote command timed out after 3000 ms"
    );
    assert_eq!(
        SshError::Authentication("u".into(), "h".into(), 22, "bad".into()).message(),
        "SSH authentication failed for u@h:22: bad"
    );
    assert_eq!(
        SshError::Connect("h".into(), 2222, "refused".into()).message(),
        "failed to connect to SSH server h:2222: refused"
    );
}

#[test]
fn base64_length_is_four_per_started_group() {
    for n in 0..10usize {
        let data: Vec<u8> = (0..n).map(|i| (i * 37) as u8).collect();
        assert_eq!(encode_base64(&data).len(), 4 * ((n + 2) / 3));
        assert_eq!(base64_encode(&data).len(), 4 * ((n + 2) / 3));
    }
}
