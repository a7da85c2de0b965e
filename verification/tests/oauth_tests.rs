use heart_portal::oauth::{
    authorization_settings, build_authorize_url, callback_decision, callback_redirect_uri,
    default_token_type, format_token_error, generate_pkce_pair, handle_callback_request,
    header_read_step, html_escape, http_response, pkce_challenge, request_target,
    token_request_params, CallbackOutcome, CallbackUrl, HeaderRead, OAuthError, ProviderConfig,
    OPENAI_AUTHORIZE_URL, OPENAI_CLIENT_ID, OPENAI_SCOPE,
};
use std::collections::HashMap;

#[test]
fn generates_valid_pkce_pair() {
    let pkce = generate_pkce_pair();
    assert!((43..=128).contains(&pkce.verifier.len()));
    assert_eq!(pkce.challenge, pkce_challenge(&pkce.verifier));
    assert!(!pkce.verifier.contains('='));
    assert!(!pkce.challenge.contains('='));
}

#[test]
fn computes_rfc7636_pkce_challenge() {
    let verifier = "dBjftJeZ4CVP-mB92K27uhbUJU1p1r_wW1gFWFOEjXk";
    assert_eq!(pkce_challenge(verifier), "E9Melhoa2OwvFrEMTJguCHaoeK1t8URWbuGJSstw-cM");
}

#[test]
fn builds_openai_authorize_url() {
    let provider = ProviderConfig::openai();
    let redirect_uri = callback_redirect_uri(1455, provider.redirect_path);
    let url = build_authorize_url(provider, &redirect_uri, "challenge-value", "state-value").unwrap();
    let parsed = url::Url::parse(&url).unwrap();
    let query: HashMap<_, _> = parsed.query_pairs().into_owned().collect();

    assert_eq!(parsed.as_str().split('?').next().unwrap(), OPENAI_AUTHORIZE_URL);
    assert_eq!(query.get("client_id").unwrap(), OPENAI_CLIENT_ID);
    assert_eq!(query.get("response_type").unwrap(), "code");
    assert_eq!(query.get("redirect_uri").unwrap(), &redirect_uri);
    assert_eq!(query.get("scope").unwrap(), OPENAI_SCOPE);
    assert_eq!(query.get("code_challenge").unwrap(), "challenge-value");
    assert_eq!(query.get("code_challenge_method").unwrap(), "S256");
    assert_eq!(query.get("state").unwrap(), "state-value");
}

#[test]
fn redirect_uri_names_port_and_path() {
    assert_eq!(callback_redirect_uri(1457, "/auth/callback"), "http://localhost:1457/auth/callback");
}

#[test]
fn invalid_authorize_url_is_reported() {
    let mut provider = ProviderConfig::openai();
    provider.authorize_url = "not a url";
    match build_authorize_url(provider, "r", "c", "s") {
        Err(OAuthError::InvalidAuthorizeUrl(u)) => assert_eq!(u, "not a url"),
        other => panic!("unexpected: {:?}", other),
    }
}

#[test]
fn settings_require_a_known_provider_and_timeout() {
    assert!(matches!(authorization_settings(None, None), Err(OAuthError::MissingProvider)));
    let err = authorization_settings(Some("github"), None).unwrap_err();
    assert_eq!(err.message(), "Unsupported OAuth provider: github");
    assert!(matches!(authorization_settings(Some("openai"), Some(0)), Err(OAuthError::ZeroTimeout)));
    let (_, t) = authorization_settings(Some("openai"), None).unwrap();
    assert_eq!(t, 120);
}

#[test]
fn token_form_lists_the_grant() {
    let p = token_request_params(ProviderConfig::openai(), "http://localhost:1455/auth/callback", "c0de", "v");
    assert_eq!(p[0], ("grant_type".to_string(), "authorization_code".to_string()));
    assert_eq!(p[2], ("code".to_string(), "c0de".to_string()));
    assert_eq!(p[4], ("code_verifier".to_string(), "v".to_string()));
    assert_eq!(default_token_type(), "Bearer");
}

#[test]
fn request_target_reads_get_lines() {
    assert_eq!(
        request_target("GET /auth/callback?code=1 HTTP/1.1\r\nHost: x\r\n\r\n"),
        Some("/auth/callback?code=1".to_string())
    );
    assert_eq!(request_target("POST /auth/callback HTTP/1.1\r\n"), None);
    assert_eq!(request_target(""), None);
    assert_eq!(request_target("GET\r\n"), None);
}

#[test]
fn html_escape_covers_markup_characters() {
    assert_eq!(html_escape("<a href=\"x\">Tom & 'Jerry'</a>"),
        "&lt;a href=&quot;x&quot;&gt;Tom &amp; &#39;Jerry&#39;&lt;/a&gt;");
}

#[test]
fn http_response_counts_body_bytes() {
    let r = http_response("200 OK", "é");
    let body = "<!doctype html><html><body><p>é</p></body></html>";
    assert_eq!(
        r,
        format!(
            "HTTP/1.1 200 OK\r\nContent-Type: text/html; charset=utf-8\r\nContent-Length: {}\r\nConnection: close\r\n\r\n{}",
            body.len(),
            body
        )
    );
}

fn url(path: &str, pairs: &[(&str, &str)]) -> Option<CallbackUrl> {
    Some(CallbackUrl {
        path: path.to_string(),
        query: pairs.iter().map(|(k, v)| (k.to_string(), v.to_string())).collect(),
    })
}

#[test]
fn callback_decisions() {
    let (o, r) = callback_decision(None, "/auth/callback", "s");
    assert!(matches!(o, CallbackOutcome::Continue));
    assert_eq!(r.status, "400 Bad Request");

    let (o, r) = callback_decision(url("/other", &[]), "/auth/callback", "s");
    assert!(matches!(o, CallbackOutcome::Continue));
    assert_eq!(r.status, "404 Not Found");

    let (o, r) = callback_decision(url("/auth/callback", &[("state", "t"), ("code", "c")]), "/auth/callback", "s");
    assert!(matches!(o, CallbackOutcome::Continue));
    assert!(r.text.starts_with("State mismatch"));

    let (o, _) = callback_decision(
        url("/auth/callback", &[("state", "s"), ("error", "access_denied"), ("error_description", "no")]),
        "/auth/callback",
        "s",
    );
    match o {
        CallbackOutcome::Failed(m) => assert_eq!(m, "OAuth authorization failed: access_denied (no)"),
        other => panic!("unexpected: {:?}", other),
    }

    let (o, r) = callback_decision(url("/auth/callback", &[("state", "s"), ("code", "")]), "/auth/callback", "s");
    assert!(matches!(o, CallbackOutcome::Continue));
    assert_eq!(r.text, "Missing authorization code.");

    let (o, r) = callback_decision(
        url("/auth/callback", &[("code", "old"), ("state", "s"), ("code", "new")]),
        "/auth/callback",
        "s",
    );
    match o {
        CallbackOutcome::Authorized { code } => assert_eq!(code, "new"),
        other => panic!("unexpected: {:?}", other),
    }
    assert_eq!(r.status, "200 OK");
}

#[test]
fn callback_request_end_to_end() {
    let req = "GET /auth/callback?state=abc&code=x%20y HTTP/1.1\r\nHost: localhost\r\n\r\n";
    let (o, r) = handle_callback_request(req, "/auth/callback", "abc");
    match o {
        CallbackOutcome::Authorized { code } => assert_eq!(code, "x y"),
        other => panic!("unexpected: {:?}", other),
    }
    assert_eq!(r.status, "200 OK");
    let (o, r) = handle_callback_request("GET /favicon.ico HTTP/1.1\r\n\r\n", "/auth/callback", "abc");
    assert!(matches!(o, CallbackOutcome::Continue));
    assert_eq!(r.status, "404 Not Found");
}

#[test]
fn header_reading_stops_at_blank_line_or_limit() {
    assert!(matches!(header_read_step(&b"GET / HTTP/1.1\r\n\r\n".to_vec()), HeaderRead::Complete));
    assert!(matches!(header_read_step(&b"GET / HTTP/1.1\r\n".to_vec()), HeaderRead::More));
    assert!(matches!(header_read_step(&vec![b'a'; 16 * 1024 + 1]), HeaderRead::TooLarge));
}

#[test]
fn token_errors_prefer_description_then_message() {
    assert_eq!(format_token_error("{\"error\":\"bad\",\"error_description\":\"why\"}"), "bad: why");
    assert_eq!(format_token_error("{\"error\":\"bad\",\"message\":\"m\"}"), "bad: m");
    assert_eq!(format_token_error("{\"error\":\"bad\"}"), "bad");
    assert_eq!(format_token_error("{\"other\":1}"), "{\"other\":1}");
    assert_eq!(format_token_error("not json"), "not json");
}
