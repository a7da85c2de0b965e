use heart_portal::relay::{
    backoff_after_session, derive_relay_url, handshake_outcome, next_backoff, parse_loom_link,
    relay_handshake_json, relay_portal_name, HandshakeResponse, KeepaliveMode, LoomLinkError,
};

#[test]
fn parse_standard_loom_link() {
    let (host, being, token) = parse_loom_link("https://echo.beings.town/hex/?token=abc123").unwrap();
    assert_eq!(host, "echo.beings.town");
    assert_eq!(being, "hex");
    assert_eq!(token, "abc123");
}

#[test]
fn parse_loom_link_with_port() {
    let (host, being, token) =
        parse_loom_link("https://echo.beings.town:8443/hex/?token=abc123").unwrap();
    assert_eq!(host, "echo.beings.town:8443");
    assert_eq!(being, "hex");
    assert_eq!(token, "abc123");
}

#[test]
fn parse_loom_link_no_trailing_slash() {
    let (host, being, token) = parse_loom_link("https://echo.beings.town/hex?token=abc123").unwrap();
    assert_eq!(host, "echo.beings.town");
    assert_eq!(being, "hex");
    assert_eq!(token, "abc123");
}

#[test]
fn parse_loom_link_missing_token() {
    assert!(parse_loom_link("https://echo.beings.town/hex/").is_err());
}

#[test]
fn parse_loom_link_missing_being() {
    assert!(parse_loom_link("https://echo.beings.town/?token=abc").is_err());
}

#[test]
fn parse_loom_link_http() {
    let (host, being, token) = parse_loom_link("http://localhost:3100/alice/?token=test").unwrap();
    assert_eq!(host, "localhost:3100");
    assert_eq!(being, "alice");
    assert_eq!(token, "test");
}

#[test]
fn parse_loom_link_error_messages() {
    let e: LoomLinkError = parse_loom_link("https://echo.beings.town/hex/").unwrap_err();
    assert!(!e.message().is_empty());
}

#[test]
fn derive_relay_url_https() {
    let url = derive_relay_url("https://echo.beings.town/alice/?token=t", "echo.beings.town");
    assert_eq!(url, "wss://echo.beings.town/_relay");
}

#[test]
fn derive_relay_url_localhost() {
    let url = derive_relay_url("http://localhost:3100/alice/?token=t", "localhost:3100");
    assert_eq!(url, "ws://localhost:3100/_relay");
}

#[test]
fn relay_handshake_json_shape() {
    let text = relay_handshake_json("being1", "tok", "my-laptop");
    let v: serde_json::Value = serde_json::from_str(&text).unwrap();
    assert_eq!(v["being_id"], "being1");
    assert_eq!(v["loom_token"], "tok");
    assert_eq!(v["portal_name"], "my-laptop");
}

fn response_from(json: &str) -> HandshakeResponse {
    let v: serde_json::Value = serde_json::from_str(json).unwrap();
    HandshakeResponse {
        ok: v["ok"].as_bool().unwrap_or(false),
        relay_keepalive: v.get("relay_keepalive").and_then(|k| k.as_str()).map(|s| s.to_string()),
    }
}

#[test]
fn handshake_response_negotiates_text_keepalive() {
    let response = response_from(r#"{"ok":true,"being_id":"being1","relay_keepalive":"text-v1"}"#);
    assert!(response.ok);
    assert_eq!(response.relay_keepalive.as_deref(), Some("text-v1"));
    assert_eq!(handshake_outcome(&response), Some(KeepaliveMode::TextV1));
}

#[test]
fn handshake_response_without_capability_uses_fallback() {
    let response = response_from(r#"{"ok":true,"being_id":"being1"}"#);
    assert!(response.ok);
    assert_eq!(response.relay_keepalive, None);
    assert_eq!(handshake_outcome(&response), Some(KeepaliveMode::Ping));
}

#[test]
fn refused_handshake_has_no_session() {
    let response = HandshakeResponse { ok: false, relay_keepalive: Some("text-v1".to_string()) };
    assert_eq!(handshake_outcome(&response), None);
}

#[test]
fn next_backoff_doubles_and_caps() {
    assert_eq!(next_backoff(2), 4);
    assert_eq!(next_backoff(16), 30);
    assert_eq!(next_backoff(30), 30);
}

#[test]
fn next_backoff_never_below_floor() {
    assert_eq!(next_backoff(0), 2);
}

#[test]
fn next_backoff_stays_in_bounds_for_huge_values() {
    assert_eq!(next_backoff(u64::MAX), 30);
}

#[test]
fn backoff_resets_after_clean_session() {
    assert_eq!(backoff_after_session(true, 0, 16), 2);
    assert_eq!(backoff_after_session(false, 1, 16), 16);
}

#[test]
fn relay_portal_name_prefers_cli_name() {
    let name = relay_portal_name(Some("foo".to_string()), "cotton", || "host".to_string());
    assert_eq!(name, "foo");
}

#[test]
fn relay_portal_name_uses_non_generic_config_name() {
    let name = relay_portal_name(None, "cotton", || "host".to_string());
    assert_eq!(name, "cotton");
}

#[test]
fn relay_portal_name_skips_generic_config_name() {
    let name = relay_portal_name(None, "portal", || "host".to_string());
    assert_eq!(name, "host");
}

#[test]
fn relay_portal_name_skips_empty_config_name() {
    let name = relay_portal_name(None, "", || "host".to_string());
    assert_eq!(name, "host");
}
