use beava::net::response::GlueResponse;
use beava::net::server::{Backoff, Handler, HandlerAction, HandlerEvent};
use beava::net::{Error, IoError, IoErrorKind};
use beava::wire::{Frame, FrameError, CT_JSON, OP_GET, OP_PING, OP_PUSH};
use beava::wire_request::{Envelope, WireRequest};
use bytes::Bytes;

fn io_error() -> Error {
    Error::Io(IoError { kind: IoErrorKind::Other, message: "broken pipe".to_string() })
}

fn ping() -> HandlerEvent {
    HandlerEvent::FrameRead(Ok(Some(Frame::new(OP_PING, CT_JSON, Bytes::new()))))
}

fn reading() -> Handler {
    let mut handler = Handler::new();
    let action = handler.step(HandlerEvent::ShutdownFlag(false));
    assert!(matches!(action, HandlerAction::AwaitFrame));
    handler
}

fn awaiting() -> Handler {
    let mut handler = reading();
    let action = handler.step(ping());
    assert!(matches!(action, HandlerAction::Dispatch(WireRequest::Ping)));
    let action = handler.step(HandlerEvent::Dispatched(true));
    assert!(matches!(action, HandlerAction::AwaitReply));
    handler
}

#[test]
fn a_request_is_answered() {
    let mut handler = awaiting();
    let pong = GlueResponse::Pong { registry_version: 1 };
    match handler.step(HandlerEvent::Replied(Some(vec![pong]))) {
        HandlerAction::Write(frame) => {
            assert_eq!(frame, Frame::from(GlueResponse::Pong { registry_version: 1 }))
        }
        _ => panic!("expected a write"),
    }
    let action = handler.step(HandlerEvent::Written(Ok(())));
    assert!(matches!(action, HandlerAction::CheckShutdown));
    let action = handler.step(HandlerEvent::ShutdownFlag(false));
    assert!(matches!(action, HandlerAction::AwaitFrame));
}

#[test]
fn responses_are_written_in_order() {
    let mut handler = awaiting();
    let responses = vec![
        GlueResponse::HealthOk,
        GlueResponse::ResetForbidden,
        GlueResponse::Pong { registry_version: 3 },
    ];
    let expected = [
        Frame::from(GlueResponse::HealthOk),
        Frame::from(GlueResponse::ResetForbidden),
        Frame::from(GlueResponse::Pong { registry_version: 3 }),
    ];
    let mut action = handler.step(HandlerEvent::Replied(Some(responses)));
    for expected in expected {
        match action {
            HandlerAction::Write(frame) => assert_eq!(frame, expected),
            _ => panic!("expected a write"),
        }
        action = handler.step(HandlerEvent::Written(Ok(())));
    }
    assert!(matches!(action, HandlerAction::CheckShutdown));
}

#[test]
fn no_response_is_an_answer_too() {
    let mut handler = awaiting();
    let action = handler.step(HandlerEvent::Replied(Some(vec![])));
    assert!(matches!(action, HandlerAction::CheckShutdown));
}

#[test]
fn a_push_is_scanned_before_it_is_dispatched() {
    let mut handler = reading();
    let payload = Bytes::from_static(b"Txn{}");
    let frame = Frame::new(OP_PUSH, CT_JSON, payload.clone());
    let action = handler.step(HandlerEvent::FrameRead(Ok(Some(frame))));
    assert!(matches!(action, HandlerAction::ScanEnvelope));
    assert_eq!(handler.push().unwrap().payload, payload);
    let envelope = Envelope { event_name: "Txn".to_string(), body_start: 3, body_end: 5 };
    match handler.step(HandlerEvent::Scanned(Ok(envelope))) {
        HandlerAction::Dispatch(request) => assert_eq!(
            request,
            WireRequest::TcpPush {
                event_name: "Txn".to_string(),
                body: Bytes::from_static(b"{}"),
                body_format: CT_JSON,
            }
        ),
        _ => panic!("expected a dispatch"),
    }
    assert!(handler.push().is_none());
}

#[test]
fn malformed_requests_are_dispatched() {
    let mut handler = reading();
    let frame = Frame::new(OP_GET, 0x09, Bytes::new());
    match handler.step(HandlerEvent::FrameRead(Ok(Some(frame)))) {
        HandlerAction::Dispatch(request) => assert_eq!(
            request,
            WireRequest::ParseError { reason: "unsupported content_type: 0x09".to_string() }
        ),
        _ => panic!("expected a dispatch"),
    }
}

#[test]
fn shutdown_before_a_frame_ends_the_connection() {
    let mut handler = Handler::new();
    let action = handler.step(HandlerEvent::ShutdownFlag(true));
    assert!(matches!(action, HandlerAction::Finish(Ok(()))));
    let mut handler = reading();
    let action = handler.step(HandlerEvent::ShutdownSignal);
    assert!(matches!(action, HandlerAction::Finish(Ok(()))));
}

#[test]
fn a_closed_stream_ends_the_connection() {
    let mut handler = reading();
    let action = handler.step(HandlerEvent::FrameRead(Ok(None)));
    assert!(matches!(action, HandlerAction::Finish(Ok(()))));
}

#[test]
fn a_lost_apply_thread_ends_the_connection_without_error() {
    let mut handler = reading();
    handler.step(ping());
    let action = handler.step(HandlerEvent::Dispatched(false));
    assert!(matches!(action, HandlerAction::Finish(Ok(()))));
    let mut handler = awaiting();
    let action = handler.step(HandlerEvent::Replied(None));
    assert!(matches!(action, HandlerAction::Finish(Ok(()))));
}

#[test]
fn io_fails_the_connection() {
    let mut handler = reading();
    match handler.step(HandlerEvent::FrameRead(Err(io_error()))) {
        HandlerAction::Finish(Err(e)) => assert_eq!(e, io_error()),
        _ => panic!("expected an error"),
    }
    let mut handler = reading();
    let error = || Error::from(FrameError::TooLarge { declared_len: 9, limit: 8 });
    match handler.step(HandlerEvent::FrameRead(Err(error()))) {
        HandlerAction::Finish(Err(e)) => assert_eq!(e, error()),
        _ => panic!("expected an error"),
    }
    let mut handler = awaiting();
    handler.step(HandlerEvent::Replied(Some(vec![GlueResponse::HealthOk, GlueResponse::HealthOk])));
    match handler.step(HandlerEvent::Written(Err(io_error()))) {
        HandlerAction::Finish(Err(e)) => assert_eq!(e, io_error()),
        _ => panic!("expected an error"),
    }
}

#[test]
fn backoff_doubles_until_it_is_too_long() {
    let mut backoff = Backoff::new(125, 64000);
    let mut waits = Vec::new();
    while let Some(ms) = backoff.failed() {
        waits.push(ms);
    }
    assert_eq!(waits, [125, 250, 500, 1000, 2000, 4000, 8000, 16000, 32000, 64000]);
    assert_eq!(backoff.failed(), None);
}

#[test]
fn backoff_gives_up_at_once_where_the_first_wait_is_too_long() {
    assert_eq!(Backoff::new(10, 9).failed(), None);
    assert_eq!(Backoff::new(10, 10).failed(), Some(10));
}

#[test]
fn backoff_loses_its_highest_bit() {
    let mut backoff = Backoff::new(0x8000_0000_0000_0001, u64::MAX);
    assert_eq!(backoff.failed(), Some(0x8000_0000_0000_0001));
    assert_eq!(backoff.failed(), Some(2));
}
