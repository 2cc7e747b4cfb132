use homeassist::error::AppError;
use homeassist::json::{to_compact, Json};
use homeassist::ws::{
    auth_message, check_auth_reply, check_auth_required, command_message,
    command_with_data_message, read_frame, reply_for, ws_url, Frame,
};

fn conv(v: &serde_json::Value) -> Json {
    match v {
        serde_json::Value::Null => Json::Null,
        serde_json::Value::Bool(b) => Json::Bool(*b),
        serde_json::Value::Number(n) => match (n.as_u64(), n.as_i64()) {
            (Some(u), _) => Json::PosInt(u),
            (None, Some(i)) => Json::NegInt(i),
            _ => Json::Float(n.to_string()),
        },
        serde_json::Value::String(s) => Json::Str(s.clone()),
        serde_json::Value::Array(a) => Json::Array(a.iter().map(conv).collect()),
        serde_json::Value::Object(o) => Json::Object(o.iter().map(|(k, v)| (k.clone(), conv(v))).collect()),
    }
}

fn wire(text: &str) -> Json {
    conv(&serde_json::from_str::<serde_json::Value>(text).unwrap())
}

#[test]
fn websocket_address_follows_the_scheme() {
    assert_eq!(ws_url("http://ha.local:8123"), "ws://ha.local:8123/api/websocket");
    assert_eq!(ws_url("https://ha.example.com"), "wss://ha.example.com/api/websocket");
}

#[test]
fn handshake_accepts_the_server_greeting_and_auth_ok() {
    assert!(check_auth_required(&wire(r#"{"type": "auth_required", "ha_version": "2024.3.0"}"#)).is_ok());
    assert!(check_auth_required(&wire(r#"{"type": "auth_ok"}"#)).is_err());
    assert_eq!(to_compact(&auth_message("secret")), r#"{"access_token":"secret","type":"auth"}"#);
    assert!(check_auth_reply(&wire(r#"{"type": "auth_ok", "ha_version": "2024.3.0"}"#)).is_ok());
}

#[test]
fn rejected_token_is_an_auth_error() {
    match check_auth_reply(&wire(r#"{"type": "auth_invalid", "message": "Invalid access token"}"#)) {
        Err(AppError::Auth(m)) => assert_eq!(m, "Invalid access token"),
        _ => panic!("expected an authentication error"),
    }
    match check_auth_reply(&wire(r#"{"type": "auth_invalid"}"#)) {
        Err(AppError::Auth(m)) => assert_eq!(m, "invalid token"),
        _ => panic!("expected an authentication error"),
    }
    match check_auth_reply(&wire(r#"{"type": "result"}"#)) {
        Err(AppError::Other(m)) => assert_eq!(m, "Unexpected WebSocket auth response"),
        _ => panic!("expected an unexpected-response error"),
    }
}

#[test]
fn commands_carry_their_id_and_type() {
    assert_eq!(to_compact(&command_message(3, "get_config")), r#"{"id":3,"type":"get_config"}"#);
    let with_data = command_with_data_message(4, "get_config", wire(r#"{"extra": "field"}"#)).unwrap();
    assert_eq!(to_compact(&with_data), r#"{"extra":"field","id":4,"type":"get_config"}"#);
    match command_with_data_message(5, "x", Json::PosInt(1)) {
        Err(AppError::Other(m)) => assert_eq!(m, "data must be a JSON object"),
        _ => panic!("expected an error"),
    }
}

#[test]
fn replies_are_matched_by_id() {
    let reply = wire(r#"{"id": 2, "type": "result", "success": true, "result": {"version": "2024.3.0"}}"#);
    assert!(reply_for(&reply, 1).is_none());
    match reply_for(&reply, 2) {
        Some(Ok(v)) => assert_eq!(v.get_str("version"), Some("2024.3.0")),
        _ => panic!("expected the result"),
    }
    let failed = wire(r#"{"id": 2, "success": false, "error": {"message": "not allowed"}}"#);
    match reply_for(&failed, 2) {
        Some(Err(AppError::Other(m))) => assert_eq!(m, "WebSocket command failed: not allowed"),
        _ => panic!("expected the failure"),
    }
    let empty = wire(r#"{"id": 2, "success": true}"#);
    assert!(matches!(reply_for(&empty, 2), Some(Ok(Json::Null))));
}

#[test]
fn frames_are_read_or_skipped() {
    assert!(read_frame(Frame::Ping).is_none());
    assert!(read_frame(Frame::Pong).is_none());
    assert!(read_frame(Frame::Other).is_none());
    assert!(matches!(read_frame(Frame::Text(Ok(Json::Null))), Some(Ok(Json::Null))));
    match read_frame(Frame::TimedOut) {
        Some(Err(AppError::Other(m))) => assert_eq!(m, "WebSocket receive timed out"),
        _ => panic!("expected a timeout"),
    }
    match read_frame(Frame::Close) {
        Some(Err(AppError::Other(m))) => assert_eq!(m, "WebSocket closed by server"),
        _ => panic!("expected a close"),
    }
}
