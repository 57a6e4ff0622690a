use host_bridge_mcp::auth::{
    authenticate_request, constant_time_equals, split_scheme_and_token, AuthReason,
    AuthorizationHeader, RequestAuth, RequestAuthController, TransportAuthError,
};
use host_bridge_mcp::config::AccessConfig;

#[test]
fn split_scheme_and_token_requires_both_parts() {
    assert_eq!(
        split_scheme_and_token("Bearer token"),
        Some(("Bearer".to_string(), "token".to_string()))
    );
    assert_eq!(split_scheme_and_token("Bearer"), None);
    assert_eq!(split_scheme_and_token("Bearer   "), None);
}

#[test]
fn constant_time_equals_checks_content_and_length() {
    assert!(constant_time_equals(b"secret", b"secret"));
    assert!(!constant_time_equals(b"secret", b"secret2"));
    assert!(!constant_time_equals(b"secret", b"SECRET"));
}

#[test]
fn authenticate_request_accepts_matching_authorization_header() {
    let auth = RequestAuth {
        api_key: b"test-key".to_vec(),
    };
    let outcome = authenticate_request(
        &AuthorizationHeader::Text("Bearer test-key".to_string()),
        &auth,
    );
    assert!(outcome.is_authorized);
}

#[test]
fn authenticate_request_reports_each_rejection() {
    let auth = RequestAuth {
        api_key: b"test-key".to_vec(),
    };
    let reason = |h: AuthorizationHeader| authenticate_request(&h, &auth);
    assert_eq!(reason(AuthorizationHeader::Missing).reason, AuthReason::MissingHeader);
    assert_eq!(
        reason(AuthorizationHeader::NotText).reason,
        AuthReason::InvalidHeaderEncoding
    );
    assert_eq!(
        reason(AuthorizationHeader::Text("Bearer".into())).reason,
        AuthReason::InvalidHeaderFormat
    );
    assert_eq!(
        reason(AuthorizationHeader::Text("Basic test-key".into())).reason,
        AuthReason::InvalidScheme
    );
    let wrong = reason(AuthorizationHeader::Text("Bearer nope".into()));
    assert!(!wrong.is_authorized);
    assert_eq!(wrong.reason.as_str(), "invalid_api_key");
    assert!(reason(AuthorizationHeader::Text("bEaReR   test-key  ".into())).is_authorized);
}

#[test]
fn resolve_request_auth_reads_secret_from_environment() {
    let access = AccessConfig {
        api_key_env: Some("HOST_BRIDGE_TEST_API_KEY".to_string()),
    };
    let controller =
        RequestAuthController::new(&access, Some("test-key")).expect("auth should resolve");
    assert!(controller.is_configured());
    let outcome = controller.authorize(&AuthorizationHeader::Text("Bearer test-key".into()));
    assert!(outcome.is_authorized);
}

#[test]
fn request_auth_errors_name_the_variable() {
    let access = AccessConfig {
        api_key_env: Some("KEY".to_string()),
    };
    let missing = RequestAuthController::new(&access, None).err().unwrap();
    assert_eq!(missing, TransportAuthError::MissingApiKeyEnv("KEY".to_string()));
    assert_eq!(
        missing.message(),
        "server.access.api-key-env 'KEY' is set but the environment variable is missing"
    );
    let empty = RequestAuthController::new(&access, Some(" ")).err().unwrap();
    assert_eq!(
        empty.message(),
        "server.access.api-key-env 'KEY' resolved to an empty value"
    );
    let open = RequestAuthController::new(&AccessConfig { api_key_env: None }, None).unwrap();
    assert!(!open.is_configured());
    assert!(open.authorize(&AuthorizationHeader::Missing).is_authorized);
}
