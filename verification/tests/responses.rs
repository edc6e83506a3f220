use beava::net::response::GlueResponse;
use beava::wire::{
    Frame, CT_JSON, CT_MSGPACK, OP_ERROR_RESPONSE, OP_GET_RESPONSE, OP_PING, OP_PUSH, OP_REGISTER,
};
use bytes::Bytes;
use serde_json::Value;

fn json(text: &str) -> Value {
    serde_json::from_str(text).unwrap()
}

fn check(response: GlueResponse, op: u16, text: &str) {
    let frame = Frame::from(response);
    assert_eq!(frame.op, op);
    assert_eq!(frame.content_type, CT_JSON);
    assert_eq!(std::str::from_utf8(&frame.payload).unwrap(), text);
}

#[test]
fn pong() {
    check(
        GlueResponse::Pong { registry_version: 7 },
        OP_PING,
        r#"{"registry_version":7,"server_version":"0.1.0"}"#,
    );
}

#[test]
fn health_is_a_ping_too() {
    check(GlueResponse::HealthOk, OP_PING, r#"{"status":"ok"}"#);
}

#[test]
fn push_ack() {
    check(
        GlueResponse::PushAck { ack_lsn: u64::MAX, registry_version: 0 },
        OP_PUSH,
        r#"{"ack_lsn":18446744073709551615,"idempotent_replay":false,"registry_version":0}"#,
    );
}

#[test]
fn push_replay() {
    check(
        GlueResponse::PushReplay {
            registry_version: 2,
            ack_lsn: Some(41),
            cached_body: Bytes::from_static(b"not sent"),
        },
        OP_PUSH,
        r#"{"ack_lsn":41,"idempotent_replay":true,"registry_version":2}"#,
    );
    check(
        GlueResponse::PushReplay {
            registry_version: 2,
            ack_lsn: None,
            cached_body: Bytes::from_static(b"not sent"),
        },
        OP_PUSH,
        r#"{"idempotent_replay":true,"registry_version":2}"#,
    );
}

#[test]
fn register_is_passed_through() {
    check(
        GlueResponse::Register {
            body: Bytes::from_static(b"{\"registered\":1}"),
            tcp_op: OP_REGISTER,
            http_status: 200,
        },
        OP_REGISTER,
        r#"{"registered":1}"#,
    );
}

#[test]
fn push_error() {
    check(
        GlueResponse::PushError { code: "unknown_event".to_string(), registry_version: 5 },
        OP_ERROR_RESPONSE,
        r#"{"error":{"code":"unknown_event"},"registry_version":5}"#,
    );
}

#[test]
fn query_result_keeps_its_format() {
    let frame = Frame::from(GlueResponse::QueryResult {
        body: Bytes::from_static(b"\x93\x01\x02\x03"),
        format: CT_MSGPACK,
    });
    assert_eq!(
        frame,
        Frame::new(OP_GET_RESPONSE, CT_MSGPACK, Bytes::from_static(b"\x93\x01\x02\x03"))
    );
}

#[test]
fn query_not_found() {
    check(
        GlueResponse::QueryNotFound { code: "feature_\"not\"_found".to_string() },
        OP_ERROR_RESPONSE,
        r#"{"error":{"code":"feature_\"not\"_found"}}"#,
    );
}

#[test]
fn reset() {
    check(
        GlueResponse::ResetOk { registry_version: 9 },
        OP_GET_RESPONSE,
        r#"{"registry_version":9,"reset":true}"#,
    );
    check(
        GlueResponse::ResetForbidden,
        OP_ERROR_RESPONSE,
        r#"{"error":{"code":"reset_disabled_in_production","reason":"server is not in test mode"}}"#,
    );
}

#[test]
fn tcp_error_without_extras() {
    for extras in [Value::Null, json("[1]"), json("\"more\""), json("{}")] {
        check(
            GlueResponse::TcpError {
                code: "bad_request".to_string(),
                message: "no such op".to_string(),
                extras,
            },
            OP_ERROR_RESPONSE,
            r#"{"error":{"code":"bad_request","message":"no such op"}}"#,
        );
    }
}

#[test]
fn tcp_error_with_extras() {
    check(
        GlueResponse::TcpError {
            code: "frame_too_large".to_string(),
            message: "too large".to_string(),
            extras: json(r#"{"limit":16384,"declared":20000,"detail":{"a":[null,-1,2.5]}}"#),
        },
        OP_ERROR_RESPONSE,
        concat_all(&[
            r#"{"error":{"code":"frame_too_large","declared":20000,"#,
            r#""detail":{"a":[null,-1,2.5]},"limit":16384,"message":"too large"}}"#,
        ])
        .as_str(),
    );
}

#[test]
fn extras_win_over_code_and_message() {
    check(
        GlueResponse::TcpError {
            code: "a".to_string(),
            message: "b".to_string(),
            extras: json(r#"{"code":"c","message":false}"#),
        },
        OP_ERROR_RESPONSE,
        r#"{"error":{"code":"c","message":false}}"#,
    );
}

fn concat_all(parts: &[&str]) -> String {
    parts.concat()
}

#[test]
fn unsupported_request_shape() {
    check(
        GlueResponse::UnsupportedRequestShape { hint: "use op 0x0024".to_string() },
        OP_ERROR_RESPONSE,
        r#"{"error":{"code":"unsupported_request_shape","message":"use op 0x0024"}}"#,
    );
}

#[test]
fn internal_error() {
    check(
        GlueResponse::InternalError { reason: "wal".to_string() },
        OP_ERROR_RESPONSE,
        r#"{"error":{"code":"internal_error","reason":"wal"}}"#,
    );
}

#[test]
fn what_belongs_to_http_is_unsupported() {
    let responses = [
        GlueResponse::ReadyOk,
        GlueResponse::RegistrySnapshot { body: Bytes::from_static(b"{}") },
        GlueResponse::HttpRouteNotFound { path: "/nowhere".to_string() },
    ];
    for response in responses {
        check(response, OP_ERROR_RESPONSE, r#"{"error":{"code":"unsupported"}}"#);
    }
}
