//! Envelopes of the control protocol. Request ids and payloads are JSON
//! values that the daemon only carries.
use vstd::prelude::*;

verus! {

/// A JSON value (`serde_json::Value`), carried as it is.
#[verifier::external_type_specification]
#[verifier::external_body]
pub struct ExJsonValue(serde_json::Value);

/// A request: its id (echoed in the answer), the method and its parameters.
pub struct RpcRequest {
    pub id: serde_json::Value,
    pub action: String,
    pub params: serde_json::Value,
}

/// An answer: the request's id, a status code (0 for success), a message and
/// an optional payload.
pub struct RpcResponse {
    pub id: serde_json::Value,
    pub code: i32,
    pub msg: String,
    pub data: Option<serde_json::Value>,
}

impl RpcResponse {
    /// Success with a payload; the message is `OK`.
    pub fn success(id: serde_json::Value, data: serde_json::Value) -> (r: Self)
        ensures
            r.id == id,
            r.code == 0,
            r.msg@ == "OK"@,
            r.data == Some(data),
    {
        RpcResponse { id, code: 0, msg: String::from_str("OK"), data: Some(data) }
    }

    /// Success with a message and no payload.
    pub fn ok(id: serde_json::Value, msg: String) -> (r: Self)
        ensures
            r.id == id,
            r.code == 0,
            r.msg == msg,
            r.data is None,
    {
        RpcResponse { id, code: 0, msg, data: None }
    }

    /// Failure with a code and a message.
    pub fn error(id: serde_json::Value, code: i32, msg: String) -> (r: Self)
        ensures
            r.id == id,
            r.code == code,
            r.msg == msg,
            r.data is None,
    {
        RpcResponse { id, code, msg, data: None }
    }
}

/// An event pushed to subscribed clients: its name, when it happened (seconds
/// since the Unix epoch) and its payload.
pub struct EventFrame {
    pub event: String,
    pub timestamp: u64,
    pub data: serde_json::Value,
}

impl EventFrame {
    /// The frame of `event` at `timestamp`.
    pub fn new(event: &str, timestamp: u64, data: serde_json::Value) -> (r: Self)
        ensures
            r.event@ == event@,
            r.timestamp == timestamp,
            r.data == data,
    {
        EventFrame { event: String::from_str(event), timestamp, data }
    }
}

} // verus!
