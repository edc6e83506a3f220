use beava::wire::{
    Frame, CT_JSON, CT_MSGPACK, OP_BATCH_GET, OP_ERROR_RESPONSE, OP_GET, OP_GET_MULTI,
    OP_GET_RESPONSE, OP_MGET, OP_PING, OP_PUSH, OP_REGISTER, OP_RESET,
};
use beava::wire_request::{BodyFormat, Conversion, Envelope, PushPayload, WireRequest};
use bytes::Bytes;

#[test]
fn test_tcp_push_carries_body_format() {
    let body = Bytes::from_static(b"\x82\xa5event\xa3Txn\xa4body\x81\xa6amount\x63");
    let req = WireRequest::TcpPush {
        event_name: "Txn".to_string(),
        body: body.clone(),
        body_format: CT_MSGPACK,
    };
    match req {
        WireRequest::TcpPush {
            event_name,
            body: b,
            body_format,
        } => {
            assert_eq!(event_name, "Txn");
            assert_eq!(b, body);
            assert_eq!(body_format, CT_MSGPACK);
            assert_ne!(body_format, CT_JSON);
        }
        other => panic!("expected TcpPush, got {other:?}"),
    }
}

#[test]
fn test_http_push_carries_body_format() {
    let body = Bytes::from_static(b"{\"amount\":99}");
    let req = WireRequest::HttpPush {
        event_name: "Txn".to_string(),
        body: body.clone(),
        body_format: CT_JSON,
    };
    match req {
        WireRequest::HttpPush {
            event_name: _,
            body: _,
            body_format,
        } => {
            assert_eq!(body_format, CT_JSON);
        }
        other => panic!("expected HttpPush, got {other:?}"),
    }
}

#[test]
fn test_tcp_get_carries_body_format() {
    let body = Bytes::from_static(br#"{"feature":"cnt","key":"alice"}"#);
    let req = WireRequest::TcpGet {
        body: body.clone(),
        body_format: CT_JSON,
    };
    match req {
        WireRequest::TcpGet {
            body: b,
            body_format,
        } => {
            assert_eq!(b, body);
            assert_eq!(body_format, CT_JSON);
            assert_ne!(body_format, CT_MSGPACK);
        }
        other => panic!("expected TcpGet, got {other:?}"),
    }
}

#[test]
fn test_tcp_mget_carries_body_format() {
    let body = Bytes::from_static(b"\x82\xa7feature\xa3cnt\xa4keys\x91\xa5alice");
    let req = WireRequest::TcpMGet {
        body: body.clone(),
        body_format: CT_MSGPACK,
    };
    match req {
        WireRequest::TcpMGet {
            body: b,
            body_format,
        } => {
            assert_eq!(b, body);
            assert_eq!(body_format, CT_MSGPACK);
            assert_ne!(body_format, CT_JSON);
        }
        other => panic!("expected TcpMGet, got {other:?}"),
    }
}

#[test]
fn test_tcp_get_multi_carries_body_format() {
    let body = Bytes::from_static(br#"{"keys":["alice"],"features":["cnt"]}"#);
    let req = WireRequest::TcpGetMulti {
        body: body.clone(),
        body_format: CT_JSON,
    };
    match req {
        WireRequest::TcpGetMulti {
            body: b,
            body_format,
        } => {
            assert_eq!(b, body);
            assert_eq!(body_format, CT_JSON);
            assert_ne!(body_format, CT_MSGPACK);
        }
        other => panic!("expected TcpGetMulti, got {other:?}"),
    }
}

fn of(op: u16, content_type: u8, payload: &'static [u8]) -> Conversion {
    WireRequest::from(Frame::new(op, content_type, Bytes::from_static(payload)))
}

fn refused(reason: &str) -> Conversion {
    Conversion::Request(WireRequest::ParseError { reason: reason.to_string() })
}

#[test]
fn a_ping_takes_any_content_type() {
    for content_type in [CT_JSON, CT_MSGPACK, 0x00, 0xff] {
        assert_eq!(of(OP_PING, content_type, b"ignored"), Conversion::Request(WireRequest::Ping));
    }
}

#[test]
fn registration_takes_json_only() {
    assert_eq!(
        of(OP_REGISTER, CT_JSON, b"{}"),
        Conversion::Request(WireRequest::Register { payload: Bytes::from_static(b"{}") })
    );
    assert_eq!(
        of(OP_REGISTER, CT_MSGPACK, b"\x80"),
        refused("unsupported content_type for register: 0x02")
    );
}

#[test]
fn reads_and_resets_keep_body_and_format() {
    for format in [CT_JSON, CT_MSGPACK] {
        let body = Bytes::from_static(b"body");
        let body_format = format;
        assert_eq!(
            of(OP_GET, format, b"body"),
            Conversion::Request(WireRequest::TcpGet { body: body.clone(), body_format })
        );
        assert_eq!(
            of(OP_MGET, format, b"body"),
            Conversion::Request(WireRequest::TcpMGet { body: body.clone(), body_format })
        );
        assert_eq!(
            of(OP_GET_MULTI, format, b"body"),
            Conversion::Request(WireRequest::TcpGetMulti { body: body.clone(), body_format })
        );
        assert_eq!(
            of(OP_BATCH_GET, format, b"body"),
            Conversion::Request(WireRequest::TcpBatchGet { body: body.clone(), body_format })
        );
        assert_eq!(
            of(OP_RESET, format, b"body"),
            Conversion::Request(WireRequest::TcpReset { body, body_format })
        );
    }
}

#[test]
fn other_content_types_are_refused() {
    for op in [OP_PUSH, OP_GET, OP_MGET, OP_GET_MULTI, OP_BATCH_GET, OP_RESET] {
        assert_eq!(of(op, 0x00, b""), refused("unsupported content_type: 0x00"));
        assert_eq!(of(op, 0xaf, b""), refused("unsupported content_type: 0xaf"));
    }
    assert_eq!(
        of(OP_REGISTER, 0x7f, b""),
        refused("unsupported content_type for register: 0x7f")
    );
}

#[test]
fn other_opcodes_are_unknown() {
    for op in [0x0002, 0x0011, OP_GET_RESPONSE, 0x0041, OP_ERROR_RESPONSE] {
        for content_type in [CT_JSON, 0x33] {
            assert_eq!(
                of(op, content_type, b"x"),
                Conversion::Request(WireRequest::Unknown { op })
            );
        }
    }
}

#[test]
fn a_push_is_scanned_first() {
    let payload = b"{\"event\":\"Txn\",\"body\":{\"amount\":99}}";
    let push = match of(OP_PUSH, CT_JSON, payload) {
        Conversion::Push(push) => push,
        other => panic!("expected a push, got {other:?}"),
    };
    assert_eq!(
        push,
        PushPayload { format: BodyFormat::Json, payload: Bytes::from_static(payload) }
    );
    let body = b"{\"amount\":99}";
    let body_start = payload.len() - 1 - body.len();
    let request = push.resolve(Ok(Envelope {
        event_name: "Txn".to_string(),
        body_start,
        body_end: body_start + body.len(),
    }));
    assert_eq!(
        request,
        WireRequest::TcpPush {
            event_name: "Txn".to_string(),
            body: Bytes::from_static(body),
            body_format: CT_JSON,
        }
    );
}

#[test]
fn the_body_of_a_push_shares_the_payload() {
    let payload = Bytes::from_static(b"\x82\xa5event\xa3Txn\xa4body\x81\xa6amount\x63");
    let push = PushPayload { format: BodyFormat::Msgpack, payload: payload.clone() };
    let request = push.resolve(Ok(Envelope {
        event_name: "Txn".to_string(),
        body_start: 16,
        body_end: 25,
    }));
    match request {
        WireRequest::TcpPush { body, body_format, .. } => {
            assert_eq!(&body[..], b"\x81\xa6amount\x63");
            assert_eq!(body.as_ptr(), payload[16..].as_ptr());
            assert_eq!(body_format, CT_MSGPACK);
        }
        other => panic!("expected TcpPush, got {other:?}"),
    }
}

#[test]
fn a_bad_envelope_becomes_a_parse_error() {
    let json = PushPayload { format: BodyFormat::Json, payload: Bytes::from_static(b"[") };
    assert_eq!(
        json.resolve(Err("no event".to_string())),
        WireRequest::ParseError { reason: "no event".to_string() }
    );
    let msgpack = PushPayload { format: BodyFormat::Msgpack, payload: Bytes::from_static(b"\xc1") };
    assert_eq!(
        msgpack.resolve(Err("no map".to_string())),
        WireRequest::ParseError { reason: "msgpack envelope parse failed: no map".to_string() }
    );
}

#[test]
fn only_pushes_carry_a_row() {
    let body = Bytes::from_static(b"row");
    let event_name = "Txn".to_string();
    let pushes = [
        WireRequest::TcpPush {
            event_name: event_name.clone(),
            body: body.clone(),
            body_format: CT_MSGPACK,
        },
        WireRequest::HttpPush {
            event_name: event_name.clone(),
            body: body.clone(),
            body_format: CT_JSON,
        },
        WireRequest::HttpPushSync {
            event_name: event_name.clone(),
            body: body.clone(),
            body_format: CT_JSON,
        },
        WireRequest::HttpPushBatch { event_name, body: body.clone(), body_format: 0x77 },
    ];
    let formats = [BodyFormat::Msgpack, BodyFormat::Json, BodyFormat::Json, BodyFormat::Json];
    for (request, format) in pushes.iter().zip(formats) {
        let source = request.row_source().unwrap();
        assert_eq!(source.format, format);
        assert_eq!(source.body, &body);
    }
    assert!(WireRequest::Ping.row_source().is_none());
    assert!(WireRequest::TcpGet { body, body_format: CT_JSON }.row_source().is_none());
}
