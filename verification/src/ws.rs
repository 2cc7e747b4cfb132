//! The WebSocket protocol of Home Assistant: the address, the
//! authentication handshake, commands and the replies that answer them.
//! The connection itself is driven by the caller, which hands each frame
//! and message to these functions and does what they answer.
use vstd::prelude::*;
use crate::error::AppError;
use crate::json::{insert_entry, insert_sorted, jbool, jget, jget_str, ju64, Json, JsonV, entry_views};
use crate::text::{owned, push_str, replace, replaced, str_eq};

verus! {

/// The WebSocket address of the API at `base`: `http://` turned into
/// `ws://`, then `https://` into `wss://`, then `/api/websocket` added.
pub open spec fn ws_address(base: Seq<char>) -> Seq<char> {
    replaced(replaced(base, "http://"@, "ws://"@), "https://"@, "wss://"@) + "/api/websocket"@
}

/// The WebSocket address of the API.
pub fn ws_url(base_url: &str) -> (r: String)
    ensures
        r@ == ws_address(base_url@),
{
    proof {
        reveal_strlit("http://");
        reveal_strlit("https://");
    }
    let a = replace(base_url, "http://", "ws://");
    let mut b = replace(a.as_str(), "https://", "wss://");
    push_str(&mut b, "/api/websocket");
    b
}

/// The error when the connection cannot be opened.
pub fn connection_failed(reason: &str) -> (r: AppError)
    ensures
        r matches AppError::Other(m) && m@ == "WebSocket connection failed: "@ + reason@,
{
    let mut m = owned("WebSocket connection failed: ");
    push_str(&mut m, reason);
    AppError::Other(m)
}

/// The error when a message cannot be sent.
pub fn send_failed(reason: &str) -> (r: AppError)
    ensures
        r matches AppError::Other(m) && m@ == "WebSocket send failed: "@ + reason@,
{
    let mut m = owned("WebSocket send failed: ");
    push_str(&mut m, reason);
    AppError::Other(m)
}

/// Whether the `type` of a message is `t`.
fn type_is(msg: &Json, t: &str) -> (r: bool)
    ensures
        r == (jget_str(msg@, "type"@) == Some(t@)),
{
    match msg.get_str("type") {
        Some(x) => str_eq(x, t),
        None => false,
    }
}

// ---------------------------------------------------------------------
// Authentication
// ---------------------------------------------------------------------

/// The server's first message must ask for authentication.
pub fn check_auth_required(msg: &Json) -> (r: Result<(), AppError>)
    ensures
        r is Ok <==> jget_str(msg@, "type"@) == Some("auth_required"@),
        r matches Err(e) ==> e matches AppError::Other(m) && m@
            == "Unexpected WebSocket handshake"@,
{
    if type_is(msg, "auth_required") {
        Ok(())
    } else {
        Err(AppError::Other(owned("Unexpected WebSocket handshake")))
    }
}

/// The authentication message: the token and the type `auth`.
pub fn auth_message(token: &str) -> (r: Json)
    ensures
        r@ == JsonV::Object(
            seq![("access_token"@, JsonV::Str(token@)), ("type"@, JsonV::Str("auth"@))],
        ),
{
    let mut entries: Vec<(String, Json)> = Vec::new();
    entries.push((owned("access_token"), Json::string(token)));
    entries.push((owned("type"), Json::string("auth")));
    proof {
        crate::json::lemma_entry_views(entries@);
        assert(entry_views(entries@) =~= seq![
            ("access_token"@, JsonV::Str(token@)),
            ("type"@, JsonV::Str("auth"@)),
        ]);
    }
    Json::object(entries)
}

/// The reason given with a refused token.
pub open spec fn refusal_reason(msg: JsonV) -> Seq<char> {
    match jget_str(msg, "message"@) {
        Some(m) => m,
        None => "invalid token"@,
    }
}

/// Reads the answer to the authentication message: `auth_ok` lets the
/// connection be used, `auth_invalid` is a refused token, anything else a
/// broken handshake.
pub fn check_auth_reply(msg: &Json) -> (r: Result<(), AppError>)
    ensures
        jget_str(msg@, "type"@) == Some("auth_ok"@) ==> r is Ok,
        jget_str(msg@, "type"@) == Some("auth_invalid"@) ==> (r matches Err(AppError::Auth(m))
            && m@ == refusal_reason(msg@)),
        jget_str(msg@, "type"@) != Some("auth_ok"@) && jget_str(msg@, "type"@) != Some(
            "auth_invalid"@,
        ) ==> (r matches Err(AppError::Other(m)) && m@ == "Unexpected WebSocket auth response"@),
{
    proof {
        reveal_strlit("auth_ok");
        reveal_strlit("auth_invalid");
        assert("auth_ok"@.len() != "auth_invalid"@.len());
    }
    if type_is(msg, "auth_ok") {
        Ok(())
    } else if type_is(msg, "auth_invalid") {
        let reason = match msg.get_str("message") {
            Some(m) => owned(m),
            None => owned("invalid token"),
        };
        Err(AppError::Auth(reason))
    } else {
        Err(AppError::Other(owned("Unexpected WebSocket auth response")))
    }
}

// ---------------------------------------------------------------------
// Commands
// ---------------------------------------------------------------------

/// A command message: its id and its type.
pub fn command_message(id: u64, msg_type: &str) -> (r: Json)
    ensures
        r@ == JsonV::Object(
            seq![("id"@, JsonV::PosInt(id)), ("type"@, JsonV::Str(msg_type@))],
        ),
{
    let mut entries: Vec<(String, Json)> = Vec::new();
    entries.push((owned("id"), Json::PosInt(id)));
    entries.push((owned("type"), Json::string(msg_type)));
    proof {
        crate::json::lemma_entry_views(entries@);
        assert(entry_views(entries@) =~= seq![
            ("id"@, JsonV::PosInt(id)),
            ("type"@, JsonV::Str(msg_type@)),
        ]);
    }
    Json::object(entries)
}

/// A command message with data: the data object with its `id` and `type`
/// entries set; anything but an object is refused.
pub fn command_with_data_message(id: u64, msg_type: &str, data: Json) -> (r: Result<Json, AppError>)
    ensures
        match data@ {
            JsonV::Object(o) => r matches Ok(m) && m@ == JsonV::Object(
                insert_sorted(
                    insert_sorted(o, "id"@, JsonV::PosInt(id)),
                    "type"@,
                    JsonV::Str(msg_type@),
                ),
            ),
            _ => r matches Err(AppError::Other(m)) && m@ == "data must be a JSON object"@,
        },
{
    match data {
        Json::Object(mut entries) => {
            insert_entry(&mut entries, owned("id"), Json::PosInt(id));
            insert_entry(&mut entries, owned("type"), Json::string(msg_type));
            Ok(Json::object(entries))
        },
        _ => Err(AppError::Other(owned("data must be a JSON object"))),
    }
}

/// The answer a reply carries for the command `id`: none when it answers
/// another command; the `result` (null when absent) when `success` is
/// true; else the failure with the error's message, or `unknown error`.
pub open spec fn reply_outcome(msg: JsonV, id: u64) -> Option<Result<JsonV, Seq<char>>> {
    match jget(msg, "id"@) {
        Some(i) => if ju64(i) == Some(id) {
            let ok = match jget(msg, "success"@) {
                Some(s) => jbool(s) == Some(true),
                None => false,
            };
            if ok {
                Some(
                    Ok(
                        match jget(msg, "result"@) {
                            Some(v) => v,
                            None => JsonV::Null,
                        },
                    ),
                )
            } else {
                let detail = match jget(msg, "error"@) {
                    Some(e) => match jget_str(e, "message"@) {
                        Some(m) => m,
                        None => "unknown error"@,
                    },
                    None => "unknown error"@,
                };
                Some(Err("WebSocket command failed: "@ + detail))
            }
        } else {
            None
        },
        None => None,
    }
}

/// Reads a message received while waiting for the reply to command `id`:
/// none means the message answers something else and the wait goes on.
pub fn reply_for(msg: &Json, id: u64) -> (r: Option<Result<Json, AppError>>)
    ensures
        match reply_outcome(msg@, id) {
            None => r is None,
            Some(Ok(v)) => r matches Some(Ok(x)) && x@ == v,
            Some(Err(m)) => r matches Some(Err(AppError::Other(t))) && t@ == m,
        },
{
    let matches_id = match msg.get("id") {
        Some(i) => match i.as_u64() {
            Some(n) => n == id,
            None => false,
        },
        None => false,
    };
    if !matches_id {
        return None;
    }
    let ok = match msg.get("success") {
        Some(s) => match s.as_bool() {
            Some(b) => b,
            None => false,
        },
        None => false,
    };
    if ok {
        match msg.get("result") {
            Some(v) => Some(Ok(v.deep_copy())),
            None => Some(Ok(Json::Null)),
        }
    } else {
        let mut text = owned("WebSocket command failed: ");
        match msg.get("error") {
            Some(e) => match e.get_str("message") {
                Some(m) => push_str(&mut text, m),
                None => push_str(&mut text, "unknown error"),
            },
            None => push_str(&mut text, "unknown error"),
        }
        Some(Err(AppError::Other(text)))
    }
}

// ---------------------------------------------------------------------
// Frames
// ---------------------------------------------------------------------

/// What the connection delivered when the caller waited for a message.
pub enum Frame {
    /// A text frame, with its JSON content or why it is not JSON.
    Text(Result<Json, String>),
    Ping,
    Pong,
    Close,
    /// Another kind of frame (binary, raw).
    Other,
    /// The transport failed, with its description.
    Error(String),
    /// The stream ended.
    End,
    /// Nothing arrived in time.
    TimedOut,
}

/// What a frame means to a reader waiting for a message: none means wait
/// for the next frame.
pub open spec fn frame_outcome(f: Frame) -> Option<Result<JsonV, Seq<char>>> {
    match f {
        Frame::Text(Ok(v)) => Some(Ok(v@)),
        Frame::Text(Err(e)) => Some(Err("WebSocket JSON parse failed: "@ + e@)),
        Frame::Ping | Frame::Pong | Frame::Other => None,
        Frame::Close => Some(Err("WebSocket closed by server"@)),
        Frame::Error(e) => Some(Err("WebSocket error: "@ + e@)),
        Frame::End => Some(Err("WebSocket stream ended"@)),
        Frame::TimedOut => Some(Err("WebSocket receive timed out"@)),
    }
}

/// Reads a frame.
pub fn read_frame(f: Frame) -> (r: Option<Result<Json, AppError>>)
    ensures
        match frame_outcome(f) {
            None => r is None,
            Some(Ok(v)) => r matches Some(Ok(x)) && x@ == v,
            Some(Err(m)) => r matches Some(Err(AppError::Other(t))) && t@ == m,
        },
{
    match f {
        Frame::Text(Ok(v)) => Some(Ok(v)),
        Frame::Text(Err(e)) => {
            let mut t = owned("WebSocket JSON parse failed: ");
            push_str(&mut t, e.as_str());
            Some(Err(AppError::Other(t)))
        },
        Frame::Ping | Frame::Pong | Frame::Other => None,
        Frame::Close => Some(Err(AppError::Other(owned("WebSocket closed by server")))),
        Frame::Error(e) => {
            let mut t = owned("WebSocket error: ");
            push_str(&mut t, e.as_str());
            Some(Err(AppError::Other(t)))
        },
        Frame::End => Some(Err(AppError::Other(owned("WebSocket stream ended")))),
        Frame::TimedOut => Some(Err(AppError::Other(owned("WebSocket receive timed out")))),
    }
}

} // verus!
