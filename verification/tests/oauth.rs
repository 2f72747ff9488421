use claw_runtime::json_node::JsonNode;
use claw_runtime::oauth::{
    callback_reply, device_token_error, read_device_token_body, read_device_token_error, DeviceTokenBody, read_device_token, request_target, CallbackOutcome, DeviceTokenWait,
    base64url_encode, code_challenge_s256, generate_pkce_pair, generate_state, html_escape,
    loopback_redirect_uri, parse_oauth_callback_query, parse_oauth_callback_request_target,
    percent_decode, percent_encode, OAuthAuthorizationRequest, OAuthConfig, OAuthRefreshRequest,
    OAuthTokenExchangeRequest, PkceChallengeMethod,
};

fn sample_config() -> OAuthConfig {
    OAuthConfig {
        client_id: "runtime-client".to_string(),
        authorize_url: "https://console.test/oauth/authorize".to_string(),
        token_url: "https://console.test/oauth/token".to_string(),
        callback_port: Some(4545),
        manual_redirect_url: Some("https://console.test/oauth/callback".to_string()),
        scopes: vec!["org:read".to_string(), "user:write".to_string()],
    }
}

#[test]
fn s256_challenge_matches_expected_vector() {
    assert_eq!(
        code_challenge_s256("dBjftJeZ4CVP-mB92K27uhbUJU1p1r_wW1gFWFOEjXk"),
        "E9Melhoa2OwvFrEMTJguCHaoeK1t8URWbuGJSstw-cM"
    );
}

#[test]
fn generates_pkce_pair_and_state() {
    let pair = generate_pkce_pair(&[7u8; 32]);
    let state = generate_state(&[9u8; 32]);
    assert!(!pair.verifier.is_empty());
    assert!(!pair.challenge.is_empty());
    assert!(!state.is_empty());
    assert_eq!(pair.verifier, base64url_encode(&[7u8; 32]));
    assert_eq!(pair.challenge, code_challenge_s256(&pair.verifier));
    assert_eq!(pair.challenge_method, PkceChallengeMethod::S256);
    assert_eq!(pair.challenge_method.as_str(), "S256");
    assert_eq!(state.len(), 43);
}

#[test]
fn builds_authorize_url_and_form_requests() {
    let config = sample_config();
    let pair = generate_pkce_pair(&[7u8; 32]);
    let url = OAuthAuthorizationRequest::from_config(
        &config,
        &loopback_redirect_uri(4545),
        "state-123",
        &pair,
    )
    .with_extra_param("login_hint", "user@example.com")
    .build_url();
    assert!(url.starts_with("https://console.test/oauth/authorize?"));
    assert!(url.contains("response_type=code"));
    assert!(url.contains("client_id=runtime-client"));
    assert!(url.contains("scope=org%3Aread%20user%3Awrite"));
    assert!(url.contains("login_hint=user%40example.com"));

    let exchange = OAuthTokenExchangeRequest::from_config(
        &config,
        "auth-code",
        "state-123",
        &pair.verifier,
        &loopback_redirect_uri(4545),
    );
    assert_eq!(
        exchange.form_params().get("grant_type").map(String::as_str),
        Some("authorization_code")
    );

    let refresh = OAuthRefreshRequest::from_config(&config, "refresh-token", None);
    assert_eq!(
        refresh.form_params().get("scope").map(String::as_str),
        Some("org:read user:write")
    );
}

#[test]
fn refresh_request_uses_explicit_scopes() {
    let config = sample_config();
    let refresh = OAuthRefreshRequest::from_config(
        &config,
        "refresh-token",
        Some(vec!["a".to_string(), "b".to_string()]),
    );
    let params = refresh.form_params();
    assert_eq!(params.get("scope").map(String::as_str), Some("a b"));
    assert_eq!(params.get("grant_type").map(String::as_str), Some("refresh_token"));
    assert_eq!(params.get("refresh_token").map(String::as_str), Some("refresh-token"));
    assert_eq!(params.get("missing"), None);
}

#[test]
fn loopback_uri_names_the_port() {
    assert_eq!(loopback_redirect_uri(4545), "http://localhost:4545/callback");
}

#[test]
fn parses_callback_query_and_target() {
    let params =
        parse_oauth_callback_query("code=abc123&state=state-1&error_description=needs%20login")
            .expect("parse query");
    assert_eq!(params.code.as_deref(), Some("abc123"));
    assert_eq!(params.state.as_deref(), Some("state-1"));
    assert_eq!(params.error_description.as_deref(), Some("needs login"));

    let params = parse_oauth_callback_request_target("/callback?code=abc&state=xyz")
        .expect("parse callback target");
    assert_eq!(params.code.as_deref(), Some("abc"));
    assert_eq!(params.state.as_deref(), Some("xyz"));
    assert!(parse_oauth_callback_request_target("/wrong?code=abc").is_err());
}

#[test]
fn percent_encoding_round_trips() {
    let original = "a b/c?d=é&x";
    let encoded = percent_encode(original);
    assert_eq!(encoded, "a%20b%2Fc%3Fd%3D%C3%A9%26x");
    assert_eq!(percent_decode(&encoded), Ok(original.to_string()));
    assert_eq!(percent_decode("a+b"), Ok("a b".to_string()));
    assert_eq!(percent_decode("%zz"), Err("invalid percent byte: 122".to_string()));
    assert_eq!(percent_decode("100%"), Ok("100%".to_string()));
}

#[test]
fn base64url_has_no_padding() {
    assert_eq!(base64url_encode(b""), "");
    assert_eq!(base64url_encode(b"f"), "Zg");
    assert_eq!(base64url_encode(b"fo"), "Zm8");
    assert_eq!(base64url_encode(b"foo"), "Zm9v");
    assert_eq!(base64url_encode(&[0xfb, 0xff]), "-_8");
}

#[test]
fn html_escape_works() {
    assert_eq!(
        html_escape("<script>alert('xss')</script>"),
        "&lt;script&gt;alert('xss')&lt;/script&gt;"
    );
    assert_eq!(html_escape("foo & bar"), "foo &amp; bar");
    assert_eq!(html_escape("\"quoted\""), "&quot;quoted&quot;");
}

fn node(value: &serde_json::Value) -> JsonNode {
    match value {
        serde_json::Value::Null => JsonNode::Null,
        serde_json::Value::Bool(b) => JsonNode::Bool(*b),
        serde_json::Value::Number(n) => JsonNode::Number(n.as_u64()),
        serde_json::Value::String(s) => JsonNode::Str(s.clone()),
        serde_json::Value::Array(items) => JsonNode::Array(items.iter().map(node).collect()),
        serde_json::Value::Object(map) => JsonNode::Object(map.iter().map(|(k, v)| (k.clone(), node(v))).collect()),
    }
}

fn json(text: &str) -> JsonNode {
    node(&serde_json::from_str(text).unwrap())
}

#[test]
fn device_token_response_grants_a_token() {
    let token = read_device_token(
        &json(r#"{"access_token":"at","refresh_token":"rt","expires_in":60,"scope":"read write"}"#),
        1_000,
    )
    .expect("access token present");
    assert_eq!(token.access_token, "at");
    assert_eq!(token.refresh_token.as_deref(), Some("rt"));
    assert_eq!(token.expires_at, Some(1_060));
    assert_eq!(token.scopes, vec!["read".to_string(), "write".to_string()]);

    let bare = read_device_token(&json(r#"{"access_token":"x"}"#), 5).unwrap();
    assert_eq!(bare.refresh_token, None);
    assert_eq!(bare.expires_at, None);
    assert!(bare.scopes.is_empty());
    assert!(read_device_token(&json(r#"{"token":"x"}"#), 5).is_none());
}

#[test]
fn device_token_errors_are_told_apart() {
    assert_eq!(device_token_error(&json(r#"{"error":"authorization_pending"}"#), ""), DeviceTokenWait::Pending);
    assert_eq!(device_token_error(&json(r#"{"error":"slow_down"}"#), ""), DeviceTokenWait::SlowDown);
    assert_eq!(device_token_error(&json(r#"{"error":"expired_token"}"#), ""), DeviceTokenWait::Expired);
    assert_eq!(device_token_error(&json(r#"{"error":"access_denied"}"#), ""), DeviceTokenWait::Denied);
    assert_eq!(
        device_token_error(&json(r#"{"error":"invalid_client"}"#), "{\"error\":\"invalid_client\"}"),
        DeviceTokenWait::Failed("Device token error: invalid_client: {\"error\":\"invalid_client\"}".to_string())
    );
    assert_eq!(
        device_token_error(&JsonNode::Null, "oops"),
        DeviceTokenWait::Failed("Device token error: unknown: oops".to_string())
    );
}


#[test]
fn request_line_target_is_its_second_word() {
    assert_eq!(request_target("GET /callback?code=a&state=b HTTP/1.1\r\n"), "/callback?code=a&state=b");
    assert_eq!(request_target("  GET\t/x  "), "/x");
    assert_eq!(request_target("GET"), "");
}

#[test]
fn callback_replies_follow_the_outcome() {
    let ok = callback_reply("/callback?code=abc&state=xyz");
    assert_eq!(
        ok.outcome,
        CallbackOutcome::Authorized(claw_runtime::oauth::OAuthCallbackResult { code: "abc".into(), state: "xyz".into() })
    );
    let response = ok.response.unwrap();
    assert!(response.starts_with("HTTP/1.1 200 OK\r\nContent-Type: text/html; charset=utf-8\r\nContent-Length: "));
    let (head, body) = response.split_once("\r\n\r\n").unwrap();
    assert!(head.ends_with(&format!("Content-Length: {}\r\nConnection: close", body.len())));
    assert!(body.contains("\u{2705} Authentication Successful"));

    let refused = callback_reply("/callback?error=access_denied&error_description=%3Cno%3E");
    assert_eq!(refused.outcome, CallbackOutcome::Refused("OAuth error: access_denied - <no>".into()));
    let response = refused.response.unwrap();
    assert!(response.starts_with("HTTP/1.1 400 Bad Request\r\n"));
    assert!(response.contains("<p>&lt;no&gt;</p>"));

    let bare = callback_reply("/callback?error=denied");
    assert_eq!(bare.outcome, CallbackOutcome::Refused("OAuth error: denied - denied".into()));

    let incomplete = callback_reply("/callback?code=only");
    assert_eq!(incomplete.outcome, CallbackOutcome::Incomplete);
    assert!(incomplete.response.is_none());

    let invalid = callback_reply("/elsewhere");
    assert_eq!(invalid.outcome, CallbackOutcome::Invalid("unexpected callback path: /elsewhere".into()));
    assert!(invalid.response.unwrap().contains("Invalid Callback"));
}

#[test]
fn device_token_bodies_are_read_from_text() {
    match read_device_token_body(r#"{"access_token":"at","expires_in":10,"scope":"a"}"#, 5) {
        DeviceTokenBody::Granted(t) => {
            assert_eq!(t.access_token, "at");
            assert_eq!(t.expires_at, Some(15));
            assert_eq!(t.scopes, vec!["a".to_string()]);
        }
        other => panic!("unexpected {other:?}"),
    }
    assert_eq!(read_device_token_body(r#"{"token_type":"bearer"}"#, 5), DeviceTokenBody::MissingAccessToken);
    assert!(matches!(read_device_token_body("not json", 5), DeviceTokenBody::Invalid(_)));
    assert_eq!(
        read_device_token_body(r#"{"access_token":"x","expires_in":18446744073709551615}"#, 1),
        DeviceTokenBody::ExpiryOverflow
    );
    assert_eq!(read_device_token_error(r#"{"error":"slow_down"}"#), DeviceTokenWait::SlowDown);
    assert_eq!(
        read_device_token_error("<html>"),
        DeviceTokenWait::Failed("Device token error: unknown: <html>".to_string())
    );
}
