use host_bridge_mcp::cli::{parse_non_empty, parse_port, resolve_bind_address};

#[test]
fn bind_address_override_preserves_the_other_component() {
    assert_eq!(
        resolve_bind_address("127.0.0.1:8787", Some("0.0.0.0"), None).unwrap(),
        "0.0.0.0:8787"
    );
    assert_eq!(
        resolve_bind_address("127.0.0.1:8787", None, Some(9000)).unwrap(),
        "127.0.0.1:9000"
    );
    assert_eq!(
        resolve_bind_address("[::1]:8787", Some("::"), Some(9000)).unwrap(),
        "[::]:9000"
    );
}

#[test]
fn bind_address_without_overrides_is_kept_as_configured() {
    assert_eq!(resolve_bind_address("whatever", None, None).unwrap(), "whatever");
}

#[test]
fn bind_address_errors() {
    assert_eq!(
        resolve_bind_address("localhost", None, Some(1)).unwrap_err(),
        "configured server.address 'localhost' has no port"
    );
    assert_eq!(
        resolve_bind_address(":80", None, Some(1)).unwrap_err(),
        "configured server.address ':80' has no host"
    );
    assert_eq!(
        resolve_bind_address("h:0", Some("x"), None).unwrap_err(),
        "configured server.address 'h:0' has an invalid port"
    );
    assert_eq!(
        resolve_bind_address("[::1]", None, Some(1)).unwrap_err(),
        "configured server.address '[::1]' has no port"
    );
    assert_eq!(
        resolve_bind_address("h:80", Some("  "), None).unwrap_err(),
        "bind host must not be empty"
    );
}

#[test]
fn option_values_are_checked() {
    assert_eq!(parse_non_empty(" x ").unwrap(), " x ");
    assert_eq!(parse_non_empty("  ").unwrap_err(), "value must not be empty");
    assert_eq!(parse_port("8080"), Ok(8080));
    assert_eq!(parse_port("+80"), Ok(80));
    assert_eq!(parse_port("0").unwrap_err(), "port must be greater than zero");
    assert_eq!(
        parse_port("70000").unwrap_err(),
        "port must be an integer from 1 to 65535"
    );
    assert_eq!(
        parse_port("x").unwrap_err(),
        "port must be an integer from 1 to 65535"
    );
}

#[test]
fn overridden_bind_address_splits_back_into_kept_part() {
    let with_v6_host = resolve_bind_address("127.0.0.1:8787", Some("::1"), None).unwrap();
    assert_eq!(with_v6_host, "[::1]:8787");
    assert_eq!(
        resolve_bind_address(&with_v6_host, None, Some(9000)).unwrap(),
        "[::1]:9000"
    );
    assert_eq!(
        resolve_bind_address(&with_v6_host, Some("localhost"), None).unwrap(),
        "localhost:8787"
    );
    assert_eq!(
        resolve_bind_address("127.0.0.1:8787", None, None).unwrap(),
        "127.0.0.1:8787"
    );
}
