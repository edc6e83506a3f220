use beava::io_thread_worker::{
    frame_too_large, FlushStep, HttpOutcome, NewClient, ParseErrorKind, ParsePass,
    PassAction, PassEvent, ReadOutcome, RingItem, WorkerClient, WorkerProto,
};
use beava::wire::{
    decode_frame, encode_frame, Frame, CT_JSON, CT_MSGPACK, OP_ERROR_RESPONSE, OP_GET, OP_PING,
    OP_PUSH,
};
use beava::wire_request::{BodyFormat, Envelope, WireRequest};
use bytes::{Bytes, BytesMut};

const LIMIT: u32 = 4 * 1024 * 1024;

type Row = u8;

fn client(proto: WorkerProto, sent: &[u8]) -> WorkerClient {
    let mut client = WorkerClient::new(proto);
    assert!(client.received(ReadOutcome::Bytes(sent)));
    client
}

fn wire(frames: &[Frame]) -> BytesMut {
    let mut out = BytesMut::new();
    for frame in frames {
        encode_frame(frame, &mut out);
    }
    out
}

/// Runs a pass; the apply thread takes the first `takes` items.
fn run(
    slot: u64,
    client: &mut WorkerClient,
    limit: u32,
    takes: usize,
    http: Vec<HttpOutcome>,
) -> (Vec<RingItem<Row>>, usize) {
    let mut http = http.into_iter();
    let mut items = Vec::new();
    let (mut pass, mut action) = ParsePass::start::<Row>(slot, client, limit);
    loop {
        let event = match action {
            PassAction::ParseHttp => PassEvent::HttpParsed(http.next().unwrap()),
            PassAction::ScanEnvelope => {
                let push = pass.push().unwrap();
                PassEvent::Scanned(match push.payload.iter().position(|b| *b == b'{') {
                    Some(start) => Ok(Envelope {
                        event_name: String::from_utf8(push.payload[..start].to_vec()).unwrap(),
                        body_start: start,
                        body_end: push.payload.len(),
                    }),
                    None => Err("no body".to_string()),
                })
            }
            PassAction::DecodeRow => PassEvent::RowDecoded(
                pass.request().unwrap().row_source().map(|source| match source.format {
                    BodyFormat::Json => source.body.len() as Row,
                    BodyFormat::Msgpack => 100 + source.body.len() as Row,
                }),
            ),
            PassAction::MakeRoom => {
                assert!(client.has_room(pass.answer().unwrap()));
                PassEvent::RoomMade
            }
            PassAction::Send(item) => {
                items.push(item);
                PassEvent::Sent(items.len() <= takes)
            }
            PassAction::Done => return (items, pass.items_sent()),
        };
        action = pass.step(client, limit, event);
    }
}

fn request(item: &RingItem<Row>) -> (u32, bool, &WireRequest, Option<Row>) {
    match item {
        RingItem::Request { slot_idx, keep_alive, request, parsed_row } => {
            (*slot_idx, *keep_alive, request, *parsed_row)
        }
        RingItem::ParseError { .. } => panic!("expected a request"),
    }
}

fn parse_error(item: &RingItem<Row>) -> (u32, ParseErrorKind) {
    match item {
        RingItem::ParseError { slot_idx, kind } => (*slot_idx, *kind),
        RingItem::Request { .. } => panic!("expected a parse error"),
    }
}

#[test]
fn a_new_client_is_handed_over_whole() {
    let new = NewClient { stream: "stream", slot_idx: 12, proto: WorkerProto::Http };
    assert_eq!((new.stream, new.slot_idx, new.proto), ("stream", 12, WorkerProto::Http));
    let client = WorkerClient::new(new.proto);
    assert_eq!(client.proto(), WorkerProto::Http);
    assert!(!client.is_closed());
    assert!(client.unparsed().is_empty());
    assert!(client.unwritten().is_empty());
}

#[test]
fn the_too_large_frame_in_full() {
    let frame = frame_too_large(5000, 4096);
    let text = [
        r#"{"error":{"code":"frame_too_large","declared":5000,"limit":4096,"#,
        r#""message":"declared frame length 5000 exceeds limit 4096"}}"#,
    ]
    .concat();
    assert_eq!(frame, Frame::new(OP_ERROR_RESPONSE, CT_JSON, Bytes::from(text)));
}

#[test]
fn requests_are_pushed_in_order() {
    let frames = [
        Frame::new(OP_PING, CT_JSON, Bytes::new()),
        Frame::new(OP_PUSH, CT_JSON, Bytes::from_static(b"Txn{1}")),
        Frame::new(OP_PUSH, CT_MSGPACK, Bytes::from_static(b"Click{22}")),
        Frame::new(OP_GET, CT_JSON, Bytes::from_static(b"key")),
    ];
    let mut sent = wire(&frames);
    sent.extend_from_slice(&[0, 0, 0, 9, 0]);
    let mut client = client(WorkerProto::Tcp, &sent);
    let (items, count) = run(0x7_0000_0005, &mut client, LIMIT, 9, vec![]);
    assert_eq!(count, 4);
    assert_eq!(items.len(), 4);
    assert_eq!(request(&items[0]), (5, false, &WireRequest::Ping, None));
    let txn = WireRequest::TcpPush {
        event_name: "Txn".to_string(),
        body: Bytes::from_static(b"{1}"),
        body_format: CT_JSON,
    };
    assert_eq!(request(&items[1]), (5, false, &txn, Some(3)));
    let click = WireRequest::TcpPush {
        event_name: "Click".to_string(),
        body: Bytes::from_static(b"{22}"),
        body_format: CT_MSGPACK,
    };
    assert_eq!(request(&items[2]), (5, false, &click, Some(104)));
    let get = WireRequest::TcpGet { body: Bytes::from_static(b"key"), body_format: CT_JSON };
    assert_eq!(request(&items[3]), (5, false, &get, None));
    assert_eq!(client.unparsed(), &[0, 0, 0, 9, 0]);
    assert!(!client.is_closed());
}

#[test]
fn where_a_stream_is_cut_does_not_matter() {
    let frames = [
        Frame::new(OP_PUSH, CT_JSON, Bytes::from_static(b"Txn{1}")),
        Frame::new(OP_PING, CT_JSON, Bytes::new()),
        Frame::new(OP_GET, 0x07, Bytes::from_static(b"key")),
        Frame::new(OP_PUSH, CT_MSGPACK, Bytes::from_static(b"none")),
    ];
    let mut sent = wire(&frames);
    sent.extend_from_slice(&[0, 0, 0]);
    let mut whole = client(WorkerProto::Tcp, &sent);
    let (expected, total) = run(6, &mut whole, LIMIT, 9, vec![]);
    assert_eq!(total, 4);
    for cut in 1..sent.len() {
        let mut client = client(WorkerProto::Tcp, &sent[..cut]);
        let (mut items, count1) = run(6, &mut client, LIMIT, 9, vec![]);
        assert!(client.received(ReadOutcome::Bytes(&sent[cut..])));
        let (more, count2) = run(6, &mut client, LIMIT, 9, vec![]);
        items.extend(more);
        assert_eq!(count1 + count2, total);
        assert_eq!(items.len(), expected.len());
        for (item, expected) in items.iter().zip(&expected) {
            assert_eq!(request(item), request(expected));
        }
        assert_eq!(client.unparsed(), whole.unparsed());
        assert!(!client.is_closed());
    }
}

#[test]
fn a_bad_envelope_is_pushed_as_a_request() {
    let frame = Frame::new(OP_PUSH, CT_MSGPACK, Bytes::from_static(b"Txn"));
    let mut client = client(WorkerProto::Tcp, &wire(&[frame]));
    let (items, _) = run(1, &mut client, LIMIT, 9, vec![]);
    let reason = "msgpack envelope parse failed: no body".to_string();
    assert_eq!(request(&items[0]), (1, false, &WireRequest::ParseError { reason }, None));
}

#[test]
fn too_large_is_pushed_and_answered() {
    let mut sent = wire(&[Frame::new(OP_PING, CT_JSON, Bytes::new())]);
    sent.extend_from_slice(&[0, 0, 0, 9, 1, 2, 3]);
    let mut client = client(WorkerProto::Tcp, &sent);
    client.write_buf().extend_from_slice(b"queued before");
    let (items, count) = run(3, &mut client, 8, 9, vec![]);
    assert_eq!(count, 2);
    assert_eq!(request(&items[0]).2, &WireRequest::Ping);
    let kind = ParseErrorKind::TcpFrameTooLarge { declared: 9, limit: 8 };
    assert_eq!(parse_error(&items[1]), (3, kind));
    assert!(client.is_closed());
    let mut answer = BytesMut::from(client.unwritten());
    assert_eq!(&answer.split_to(13)[..], b"queued before");
    let frame = decode_frame(&mut answer, LIMIT).unwrap().unwrap();
    assert_eq!(frame.op, OP_ERROR_RESPONSE);
    assert!(answer.is_empty());
    assert!(frame.payload.starts_with(b"{\"error\":{\"code\":\"frame_too_large\""));
}

#[test]
fn a_malformed_frame_closes_without_an_answer() {
    let mut client = client(WorkerProto::Tcp, &[0, 0, 0, 2, 0, 0]);
    let (items, count) = run(3, &mut client, LIMIT, 9, vec![]);
    assert_eq!(count, 1);
    assert_eq!(parse_error(&items[0]), (3, ParseErrorKind::TcpFrame));
    assert!(client.is_closed());
    assert!(client.unwritten().is_empty());
}

#[test]
fn an_error_closes_even_where_the_apply_thread_is_gone() {
    let mut client = client(WorkerProto::Tcp, &[0, 0, 0, 0]);
    let (items, count) = run(3, &mut client, LIMIT, 0, vec![]);
    assert_eq!((items.len(), count), (1, 0));
    assert!(client.is_closed());
}

#[test]
fn a_pass_stops_where_the_apply_thread_is_gone() {
    let ping = Frame::new(OP_PING, CT_JSON, Bytes::new());
    let sent = wire(&[ping.clone(), ping.clone(), ping]);
    let mut client = client(WorkerProto::Tcp, &sent);
    let (items, count) = run(3, &mut client, LIMIT, 1, vec![]);
    assert_eq!((items.len(), count), (2, 1));
    assert_eq!(client.unparsed().len(), 7);
    assert!(!client.is_closed());
}

#[test]
fn an_empty_buffer_gives_nothing_to_do() {
    for proto in [WorkerProto::Tcp, WorkerProto::Http] {
        let mut client = WorkerClient::new(proto);
        let (items, count) = run(3, &mut client, LIMIT, 9, vec![]);
        assert_eq!((items.len(), count), (0, 0));
    }
}

#[test]
fn http_requests_take_their_bytes_and_keep_alive() {
    let mut client = client(WorkerProto::Http, b"GET /healthPOST /push/Txn...rest");
    let push = WireRequest::HttpPush {
        event_name: "Txn".to_string(),
        body: Bytes::from_static(b"..."),
        body_format: CT_JSON,
    };
    let parsed = vec![
        HttpOutcome::Request { request: WireRequest::HttpHealth, keep_alive: true, consumed: 11 },
        HttpOutcome::Request { request: push.clone(), keep_alive: false, consumed: 17 },
        HttpOutcome::Incomplete,
    ];
    let (items, count) = run(8, &mut client, LIMIT, 9, parsed);
    assert_eq!(count, 2);
    assert_eq!(request(&items[0]), (8, true, &WireRequest::HttpHealth, None));
    assert_eq!(request(&items[1]), (8, false, &push, Some(3)));
    assert_eq!(client.unparsed(), b"rest");
    assert!(!client.is_closed());
}

#[test]
fn malformed_http_closes() {
    let mut client = client(WorkerProto::Http, b"\x00");
    let (items, count) = run(8, &mut client, LIMIT, 9, vec![HttpOutcome::Malformed]);
    assert_eq!(count, 1);
    assert_eq!(parse_error(&items[0]), (8, ParseErrorKind::HttpProtocol));
    assert!(client.is_closed());
    assert!(client.unwritten().is_empty());
}

#[test]
fn reads_add_up_until_the_end() {
    let mut client = client(WorkerProto::Tcp, b"ab");
    assert!(client.received(ReadOutcome::Bytes(b"c")));
    assert_eq!(client.unparsed(), b"abc");
    assert!(!client.received(ReadOutcome::Bytes(b"")));
    assert!(client.is_closed());
    assert_eq!(client.unparsed(), b"abc");
}

#[test]
fn a_failed_read_closes() {
    let mut client = WorkerClient::new(WorkerProto::Tcp);
    assert!(!client.received(ReadOutcome::Failed));
    assert!(client.is_closed());
}

#[test]
fn flushing_keeps_the_bytes() {
    let mut client = WorkerClient::new(WorkerProto::Tcp);
    assert_eq!(client.flush(), FlushStep::Disarm);
    client.write_buf().extend_from_slice(b"hello ");
    client.write_buf().extend_from_slice(b"world");
    assert_eq!(client.flush(), FlushStep::Write);
    let mut taken = Vec::new();
    for n in [4usize, 1, 6] {
        taken.extend_from_slice(&client.unwritten()[..n]);
        let step = client.wrote(Some(n));
        assert_eq!(step, if n == 6 { FlushStep::Disarm } else { FlushStep::Write });
        assert_eq!([&taken[..], client.unwritten()].concat(), b"hello world");
    }
    assert!(client.unwritten().is_empty());
}

#[test]
fn a_socket_that_takes_nothing_stops_the_flush() {
    let mut client = WorkerClient::new(WorkerProto::Tcp);
    client.write_buf().extend_from_slice(b"x");
    assert_eq!(client.wrote(Some(0)), FlushStep::Stop);
    assert!(!client.is_closed());
    assert_eq!(client.wrote(None), FlushStep::Stop);
    assert!(client.is_closed());
    assert_eq!(client.unwritten(), b"x");
}
