use host_bridge_mcp::api::{
    check_password_file_request, config_error_to_api, execution_error_to_api, parse_approval_id, parse_execution_id,
    parse_pagination, success, ApiError, BAD_REQUEST, CONFLICT, FORBIDDEN, INTERNAL_ERROR,
    METHOD_NOT_ALLOWED, NOT_FOUND, OK, UNAUTHORIZED,
};
use host_bridge_mcp::config::ConfigError;
use host_bridge_mcp::config_store::ConfigStoreError;
use host_bridge_mcp::execution_service::ExecutionError;
use host_bridge_mcp::platform::{is_wsl, release_is_wsl, RuntimePlatform};

fn bad_request_message(result: Result<(usize, usize), ApiError>) -> String {
    let error = result.unwrap_err();
    assert_eq!(error.http_status(), 400);
    assert_eq!(error.code(), BAD_REQUEST);
    error.message().clone()
}

#[test]
fn error_constructors_pair_status_and_code() {
    let cases = [
        (ApiError::bad_request("a".to_string()), 400, BAD_REQUEST),
        (ApiError::unauthorized("a".to_string()), 401, UNAUTHORIZED),
        (ApiError::forbidden("a".to_string()), 403, FORBIDDEN),
        (ApiError::not_found("a".to_string()), 404, NOT_FOUND),
        (ApiError::method_not_allowed("a".to_string()), 405, METHOD_NOT_ALLOWED),
        (ApiError::conflict("a".to_string()), 409, CONFLICT),
        (ApiError::internal("a".to_string()), 500, INTERNAL_ERROR),
    ];
    for (error, status, code) in cases {
        assert_eq!(error.http_status(), status);
        assert_eq!(error.code(), code);
        assert_eq!(error.message(), "a");
    }
    assert_eq!(BAD_REQUEST, 40001);
    assert_eq!(INTERNAL_ERROR, 50001);
    let reply = ApiError::not_found("route was not found".to_string()).to_response();
    assert_eq!(reply.status.code, 40401);
    assert_eq!(reply.status.message, "route was not found");
}

#[test]
fn success_wraps_data_with_ok_status() {
    let reply = success(42);
    assert_eq!(reply.status.code, OK);
    assert_eq!(reply.status.message, "OK");
    assert_eq!(reply.data, 42);
}

#[test]
fn pagination_defaults_and_overrides() {
    assert_eq!(parse_pagination(None).unwrap(), (0, 100));
    assert_eq!(parse_pagination(Some("")).unwrap(), (0, 100));
    assert_eq!(parse_pagination(Some("offset=5&limit=20")).unwrap(), (5, 20));
    assert_eq!(parse_pagination(Some("limit=7&&other=x&")).unwrap(), (0, 7));
    assert_eq!(parse_pagination(Some("offset=+3")).unwrap(), (3, 100));
    assert_eq!(parse_pagination(Some("limit=1000")).unwrap(), (0, 1000));
    assert_eq!(parse_pagination(Some("offset=1&offset=2")).unwrap(), (2, 100));
}

#[test]
fn pagination_errors_name_the_bad_parameter() {
    assert_eq!(
        bad_request_message(parse_pagination(Some("offset"))),
        "query parameters must use key=value format"
    );
    assert_eq!(
        bad_request_message(parse_pagination(Some("offset=-1"))),
        "offset must be a non-negative integer"
    );
    assert_eq!(
        bad_request_message(parse_pagination(Some("limit=ten"))),
        "limit must be a non-negative integer"
    );
    assert_eq!(
        bad_request_message(parse_pagination(Some("limit=1001"))),
        "limit must not exceed 1000"
    );
    assert_eq!(
        bad_request_message(parse_pagination(Some("limit=5&offset=x"))),
        "offset must be a non-negative integer"
    );
    assert_eq!(
        bad_request_message(parse_pagination(Some("offset=99999999999999999999999"))),
        "offset must be a non-negative integer"
    );
}

#[test]
fn execution_ids_are_read_in_canonical_form() {
    assert_eq!(
        parse_execution_id("123E4567-E89B-12D3-A456-426614174000").unwrap(),
        "123e4567-e89b-12d3-a456-426614174000"
    );
    assert_eq!(
        parse_execution_id("123e4567e89b12d3a456426614174000").unwrap(),
        "123e4567-e89b-12d3-a456-426614174000"
    );
    let error = parse_execution_id("not-a-uuid").unwrap_err();
    assert_eq!(error.http_status(), 400);
    assert_eq!(error.message(), "execution_id must be a valid UUID");
    let error = parse_approval_id("").unwrap_err();
    assert_eq!(error.message(), "approval_id must be a valid UUID");
}

#[test]
fn execution_errors_map_to_replies() {
    let e = execution_error_to_api(ExecutionError::NotFound("x".to_string()));
    assert_eq!((e.http_status(), e.code()), (404, NOT_FOUND));
    assert_eq!(e.message(), "execution was not found");
    let e = execution_error_to_api(ExecutionError::Denied);
    assert_eq!((e.http_status(), e.code()), (403, FORBIDDEN));
    assert_eq!(e.message(), "command execution is denied by policy");
    let e = execution_error_to_api(ExecutionError::OutputStore("disk full".to_string()));
    assert_eq!((e.http_status(), e.code()), (500, INTERNAL_ERROR));
    assert_eq!(e.message(), "disk full");
    let e = execution_error_to_api(ExecutionError::InvalidTimeout);
    assert_eq!((e.http_status(), e.code()), (400, BAD_REQUEST));
    assert_eq!(e.message(), "timeoutMs must be greater than zero");
}

#[test]
fn config_errors_map_to_replies() {
    let e = config_error_to_api(ConfigStoreError::Config(ConfigError::Validation(
        "bad".to_string(),
    )));
    assert_eq!((e.http_status(), e.code()), (400, BAD_REQUEST));
    let e = config_error_to_api(ConfigStoreError::Io("denied".to_string()));
    assert_eq!((e.http_status(), e.code()), (500, INTERNAL_ERROR));
    assert_eq!(e.message(), "denied");
    let e = config_error_to_api(ConfigStoreError::Config(ConfigError::Read {
        path: "a.yaml".to_string(),
        message: "gone".to_string(),
    }));
    assert_eq!((e.http_status(), e.code()), (500, INTERNAL_ERROR));
}

#[test]
fn wsl_is_recognised_from_the_kernel_release() {
    assert!(release_is_wsl("5.15.167.4-microsoft-standard-WSL2"));
    assert!(release_is_wsl("4.4.0-19041-Microsoft"));
    assert!(!release_is_wsl("6.8.0-45-generic"));
    assert!(is_wsl(RuntimePlatform::Linux, Some("5.15-MICROSOFT")));
    assert!(!is_wsl(RuntimePlatform::Windows, Some("microsoft")));
    assert!(!is_wsl(RuntimePlatform::Linux, None));
}

#[test]
fn password_file_requests_need_server_and_password() {
    let error = check_password_file_request("  ", "secret").expect_err("blank server");
    assert_eq!((error.http_status(), error.code()), (400, BAD_REQUEST));
    assert_eq!(error.message(), "server_name cannot be empty");
    let error = check_password_file_request("prod", "").expect_err("empty password");
    assert_eq!(error.message(), "password cannot be empty");
    assert!(check_password_file_request("prod", " ").is_ok());
}

#[test]
fn execution_ids_in_braced_and_urn_forms_are_read() {
    assert_eq!(
        parse_execution_id("{123E4567-e89b-12d3-A456-426614174000}").unwrap(),
        "123e4567-e89b-12d3-a456-426614174000"
    );
    assert_eq!(
        parse_execution_id("URN:uuid:123e4567-e89b-12d3-a456-426614174000").unwrap(),
        "123e4567-e89b-12d3-a456-426614174000"
    );
    assert!(parse_execution_id("{123e4567e89b12d3a456426614174000}").is_err());
    assert!(parse_execution_id("123e4567-e89b-12d3-a456-42661417400g").is_err());
}
