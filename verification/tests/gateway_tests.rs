use rpc_gateway::config::Settings;
use rpc_gateway::forward::build_proxy_response;
use rpc_gateway::forward::forward_failure_reply;
use rpc_gateway::forward::ForwardError;
use rpc_gateway::gate::authorize_request;
use rpc_gateway::gate::GateError;
use rpc_gateway::state::AppState;
use rpc_gateway::token::issue_token;

#[test]
fn valid_request_is_relayed_with_upstream_reply() {
    let settings = Settings::new().unwrap();
    let secret = settings.app.secret_key.clone();
    let mut state = AppState::new(&settings);

    let token = issue_token(&secret, "alice", 5, 1_000);
    let auth = authorize_request(&mut state, Some(&token), 500, 0).unwrap();
    assert_eq!(auth.0.user, "alice");
    assert_eq!(auth.0.qps, 5);

    // the stub upstream answers 200 {"y":2} as application/json
    let reply = build_proxy_response(
        200,
        Some(String::from("application/json")),
        Some(b"{\"y\":2}".to_vec()),
    )
    .unwrap();
    assert_eq!(reply.status, 200);
    assert_eq!(reply.content_type, "application/json");
    assert_eq!(reply.body, b"{\"y\":2}".to_vec());
}

#[test]
fn missing_token_is_401_token_missing() {
    let settings = Settings::new().unwrap();
    let mut state = AppState::new(&settings);
    let e = authorize_request(&mut state, None, 0, 0).unwrap_err();
    assert_eq!(e, GateError::TokenMissing);
    assert_eq!(e.status_code(), 401);
    assert_eq!(e.error_body(), "{\"message\":\"token missing\"}");
}

#[test]
fn expired_token_is_401_token_expired() {
    let settings = Settings::new().unwrap();
    let secret = settings.app.secret_key.clone();
    let mut state = AppState::new(&settings);
    let token = issue_token(&secret, "alice", 5, 100);
    let e = authorize_request(&mut state, Some(&token), 101, 0).unwrap_err();
    assert_eq!(e, GateError::TokenExpired);
    assert_eq!(e.status_code(), 401);
    assert_eq!(e.error_body(), "{\"message\":\"token expired\"}");
}

#[test]
fn tampered_token_is_401_invalid_api_key() {
    let settings = Settings::new().unwrap();
    let mut state = AppState::new(&settings);
    let e = authorize_request(&mut state, Some("bogus"), 0, 0).unwrap_err();
    assert_eq!(e, GateError::InvalidApiKey);
    assert_eq!(e.status_code(), 401);
    assert_eq!(e.error_body(), "{\"message\":\"invalid api key provided\"}");
}

#[test]
fn over_quota_is_429_rate_limit_exceeded() {
    let settings = Settings::new().unwrap();
    let secret = settings.app.secret_key.clone();
    let mut state = AppState::new(&settings);
    let token = issue_token(&secret, "alice", 1, 1_000);
    assert!(authorize_request(&mut state, Some(&token), 0, 0).is_ok());
    let e = authorize_request(&mut state, Some(&token), 0, 1).unwrap_err();
    assert_eq!(e, GateError::RateLimited);
    assert_eq!(e.status_code(), 429);
    assert_eq!(e.error_body(), "{\"message\":\"rate limit exceeded\"}");
}

#[test]
fn missing_content_type_defaults_to_json() {
    let reply = build_proxy_response(204, None, Some(Vec::new())).unwrap();
    assert_eq!(reply.content_type, "application/json");
    assert_eq!(reply.status, 204);
    assert!(reply.body.is_empty());
}

#[test]
fn unread_body_and_failed_send_are_bad_gateway() {
    let e = build_proxy_response(200, None, None).unwrap_err();
    assert_eq!(e, ForwardError::BodyReadFailed);
    let (status, body) = forward_failure_reply(&e);
    assert_eq!(status, 502);
    assert_eq!(body, "Failed to read backend response");
    let (status, body) = forward_failure_reply(&ForwardError::SendFailed);
    assert_eq!(status, 502);
    assert_eq!(body, "Failed to forward request");
}
