use host_bridge_mcp::session::{browser_endpoint, cookie_session, WebSessionController};

#[test]
fn wildcard_bind_addresses_open_on_loopback() {
    assert_eq!(browser_endpoint("0.0.0.0:9000"), "http://127.0.0.1:9000");
    assert_eq!(browser_endpoint("[::]:9000"), "http://127.0.0.1:9000");
    assert_eq!(browser_endpoint("[::1]:9000"), "http://[::1]:9000");
}

#[test]
fn unusable_bind_addresses_fall_back_to_default_endpoint() {
    assert_eq!(browser_endpoint("nonsense"), "http://127.0.0.1:8810");
    assert_eq!(browser_endpoint(":9000"), "http://127.0.0.1:8810");
    assert_eq!(browser_endpoint("[::1]"), "http://127.0.0.1:8810");
    assert_eq!(browser_endpoint("localhost:80"), "http://localhost:80");
}

#[test]
fn bootstrap_tokens_are_single_use() {
    let mut controller = WebSessionController::new();
    let fresh_token = uuid::Uuid::new_v4().simple().to_string();
    let url = controller.create_bootstrap_url_with("127.0.0.1:8787", 1_000, fresh_token.clone());
    let token = url
        .split_once("#bootstrap=")
        .expect("bootstrap fragment should exist")
        .1
        .to_string();
    assert!(url.starts_with("http://127.0.0.1:8787/#bootstrap="));
    assert_eq!(token.len(), 32);
    assert_eq!(token, fresh_token);

    let session = controller
        .exchange_bootstrap_with(&token, 2_000, uuid::Uuid::new_v4().simple().to_string())
        .expect("bootstrap token should exchange");
    assert!(controller
        .exchange_bootstrap_with(&token, 2_001, uuid::Uuid::new_v4().simple().to_string())
        .is_none());

    let cookie = format!("hb_ui_session={session}");
    assert!(controller.authenticate_headers(Some(&cookie), 3_000));
}

#[test]
fn expired_bootstrap_token_is_refused() {
    let mut controller = WebSessionController::new();
    controller.create_bootstrap_url_with("127.0.0.1:8787", 0, "tok".to_string());
    assert!(controller
        .exchange_bootstrap_with("tok", 60_000, "s1".to_string())
        .is_none());
}

#[test]
fn wrong_bootstrap_token_is_refused_and_right_one_still_works() {
    let mut controller = WebSessionController::new();
    controller.create_bootstrap_url_with("127.0.0.1:8787", 0, "tok".to_string());
    assert!(controller
        .exchange_bootstrap_with("other", 10, "s1".to_string())
        .is_none());
    assert_eq!(
        controller.exchange_bootstrap_with("tok", 20, "s2".to_string()),
        Some("s2".to_string())
    );
}

#[test]
fn sessions_expire_and_can_be_revoked() {
    let mut controller = WebSessionController::new();
    let session = controller.issue_session_with(0, "abc".to_string());
    let cookie = format!("theme=dark; hb_ui_session={session}");
    assert!(controller.authenticate_headers(Some(&cookie), 604_799_999));
    assert!(!controller.authenticate_headers(Some(&cookie), 604_800_000));

    let session = controller.issue_session_with(10, "def".to_string());
    let cookie = format!("hb_ui_session={session}");
    assert!(controller.authenticate_headers(Some(&cookie), 20));
    controller.revoke_headers(Some(&cookie));
    assert!(!controller.authenticate_headers(Some(&cookie), 21));
    assert!(!controller.authenticate_headers(None, 21));
}

#[test]
fn cookie_header_parsing_finds_the_session_part() {
    assert_eq!(
        cookie_session("a=1; hb_ui_session=xyz; b=2"),
        Some("xyz".to_string())
    );
    assert_eq!(cookie_session("hb_ui_session="), None);
    assert_eq!(cookie_session("hb_ui_session=; hb_ui_session=late"), Some("late".to_string()));
    assert_eq!(cookie_session("other=1"), None);
}

#[test]
fn session_cookie_headers() {
    assert_eq!(
        WebSessionController::session_cookie("abc"),
        "hb_ui_session=abc; Path=/; HttpOnly; SameSite=Strict; Max-Age=604800"
    );
    assert_eq!(
        WebSessionController::clear_session_cookie(),
        "hb_ui_session=; Path=/; HttpOnly; SameSite=Strict; Max-Age=0"
    );
}

#[test]
fn issued_random_sessions_are_hex_tokens() {
    let mut controller = WebSessionController::new();
    let session = controller.issue_session_with(5, uuid::Uuid::new_v4().simple().to_string());
    assert_eq!(session.len(), 32);
    assert!(session.chars().all(|c| c.is_ascii_hexdigit() && !c.is_ascii_uppercase()));
}

#[test]
fn refused_second_exchange_keeps_the_session_open() {
    let mut controller = WebSessionController::new();
    let token = uuid::Uuid::new_v4().simple().to_string();
    controller.create_bootstrap_url_with("127.0.0.1:8787", 0, token.clone());
    let session = controller
        .exchange_bootstrap_with(&token, 10, uuid::Uuid::new_v4().simple().to_string())
        .expect("bootstrap token should exchange");
    assert!(controller
        .exchange_bootstrap_with(&token, 20, uuid::Uuid::new_v4().simple().to_string())
        .is_none());
    let cookie = format!("theme=dark; hb_ui_session={session}");
    assert!(controller.authenticate_headers(Some(&cookie), 30));
    assert!(controller.authenticate_headers(Some(&cookie), 40));
}
