use beava::net::connection::{Connection, ReadStep};
use beava::net::{Error, IoError, IoErrorKind};
use beava::wire::{
    encode_frame, Frame, FrameError, CT_JSON, CT_MSGPACK, OP_ERROR_RESPONSE, OP_GET, OP_PING,
    OP_PUSH,
};
use bytes::{Bytes, BytesMut};

/// A peer that has sent these bytes and closed the stream.
struct Peer {
    sent: Vec<u8>,
    read: usize,
    at_once: usize,
}

impl Peer {
    fn new(sent: Vec<u8>) -> Peer {
        Peer { sent, read: 0, at_once: 8 * 1024 }
    }

    fn read(&mut self) -> Vec<u8> {
        let end = (self.read + self.at_once).min(self.sent.len());
        let bytes = self.sent[self.read..end].to_vec();
        self.read = end;
        bytes
    }
}

fn read_frame(conn: &mut Connection, peer: &mut Peer) -> Result<Option<Frame>, Error> {
    let mut step = conn.read_frame(None)?;
    loop {
        match step {
            ReadStep::Frame(frame) => return Ok(Some(frame)),
            ReadStep::Closed => return Ok(None),
            ReadStep::NeedBytes => {
                let bytes = peer.read();
                step = conn.read_frame(Some(&bytes))?;
            }
        }
    }
}

#[test]
fn write_frame_check_sent_buffer() {
    for (frame, expected_bytes) in get_test_cases() {
        assert_frame_write(frame, expected_bytes);
    }
}

#[test]
fn read_frame_check_received_frame() {
    for (expected_frame, wire_bytes) in get_test_cases() {
        assert_frame_read(wire_bytes, expected_frame);
    }
}

#[test]
fn read_frame_returns_none_on_clean_close() {
    let mut peer = Peer::new(Vec::new());
    let mut conn = Connection::new(4 * 1024 * 1024);
    let frame = read_frame(&mut conn, &mut peer).unwrap();
    assert!(frame.is_none());
}

#[test]
fn read_frame_returns_error_on_partial_close() {
    // Only the length prefix, then EOF: incomplete frame.
    let mut peer = Peer::new(vec![0u8, 0, 0, 5]);
    let mut conn = Connection::new(4 * 1024 * 1024);
    let err = read_frame(&mut conn, &mut peer).unwrap_err();
    assert!(
        matches!(err, Error::Io(ref e) if e.kind == IoErrorKind::ConnectionReset),
        "expected ConnectionReset, got {err:?}"
    );
}

#[test]
fn read_two_frames_from_single_buffer() {
    // Two complete frames concatenated.
    let mut wire = BytesMut::new();
    let f1 = Frame::new(OP_PING, CT_JSON, Bytes::new());
    let f2 = Frame::new(OP_PUSH, CT_JSON, Bytes::from_static(b"hello"));
    encode_frame(&f1, &mut wire);
    encode_frame(&f2, &mut wire);

    let mut peer = Peer::new(wire.to_vec());
    let mut conn = Connection::new(4 * 1024 * 1024);

    let got1 = read_frame(&mut conn, &mut peer).unwrap().unwrap();
    assert_eq!(got1, f1);
    let got2 = read_frame(&mut conn, &mut peer).unwrap().unwrap();
    assert_eq!(got2, f2);
    // stream drained
    assert!(read_frame(&mut conn, &mut peer).unwrap().is_none());
}

fn assert_frame_write(frame: Frame, expected_buffer: &[u8]) {
    let conn = Connection::new(4 * 1024 * 1024);
    assert_eq!(&conn.write_frame(&frame)[..], expected_buffer);
}

fn assert_frame_read(buf: &[u8], expected_frame: Frame) {
    let mut peer = Peer::new(Vec::from(buf));
    let mut conn = Connection::new(4 * 1024 * 1024);

    let frame = read_frame(&mut conn, &mut peer).unwrap();
    assert_eq!(frame, Some(expected_frame));
}

/// Test cases: (Frame, expected wire bytes).
///
/// Wire layout: `[u32 BE length][u16 BE op][u8 ct][payload]`
/// where `length = 3 + payload.len()`.
fn get_test_cases() -> Vec<(Frame, &'static [u8])> {
    vec![
        // Ping with empty payload
        (
            Frame::new(OP_PING, CT_JSON, Bytes::new()),
            // len=3, op=0x0000, ct=0x01
            &[0x00, 0x00, 0x00, 0x03, 0x00, 0x00, 0x01],
        ),
        // Push with JSON payload
        (
            Frame::new(OP_PUSH, CT_JSON, Bytes::from_static(b"{}")),
            // len=5, op=0x0010, ct=0x01, payload="{}"
            &[0x00, 0x00, 0x00, 0x05, 0x00, 0x10, 0x01, b'{', b'}'],
        ),
        // Get with JSON payload
        (
            Frame::new(OP_GET, CT_JSON, Bytes::from_static(b"key")),
            // len=6, op=0x0020, ct=0x01, payload="key"
            &[0x00, 0x00, 0x00, 0x06, 0x00, 0x20, 0x01, b'k', b'e', b'y'],
        ),
        // Error response
        (
            Frame::new(OP_ERROR_RESPONSE, CT_JSON, Bytes::from_static(b"err")),
            // len=6, op=0xFFFF, ct=0x01, payload="err"
            &[0x00, 0x00, 0x00, 0x06, 0xFF, 0xFF, 0x01, b'e', b'r', b'r'],
        ),
        // MsgPack content type with empty payload
        (
            Frame::new(OP_PING, CT_MSGPACK, Bytes::new()),
            // len=3, op=0x0000, ct=0x02
            &[0x00, 0x00, 0x00, 0x03, 0x00, 0x00, 0x02],
        ),
    ]
}

#[test]
fn the_size_of_the_reads_does_not_matter() {
    let mut wire = Vec::new();
    let mut frames = Vec::new();
    for (frame, bytes) in get_test_cases() {
        wire.extend_from_slice(bytes);
        frames.push(frame);
    }
    for at_once in 1..=wire.len() {
        let mut peer = Peer { sent: wire.clone(), read: 0, at_once };
        let mut conn = Connection::new(4 * 1024 * 1024);
        for frame in &frames {
            assert_eq!(read_frame(&mut conn, &mut peer).unwrap().as_ref(), Some(frame));
        }
        assert_eq!(read_frame(&mut conn, &mut peer), Ok(None));
    }
}

#[test]
fn a_close_in_the_middle_of_a_later_frame_is_an_error() {
    let mut peer = Peer::new(vec![0, 0, 0, 3, 0, 0, 1, 0, 0]);
    let mut conn = Connection::new(1024);
    assert!(read_frame(&mut conn, &mut peer).unwrap().is_some());
    let err = read_frame(&mut conn, &mut peer).unwrap_err();
    assert_eq!(
        err,
        Error::Io(IoError {
            kind: IoErrorKind::ConnectionReset,
            message: "connection reset by peer".to_string(),
        })
    );
    assert_eq!(err.message(), "I/O error - connection reset by peer");
}

#[test]
fn a_frame_over_the_limit_fails_the_connection() {
    let mut peer = Peer::new(vec![0, 0, 0x40, 0x01, 0, 0, 1]);
    let mut conn = Connection::new(1 << 14);
    let err = read_frame(&mut conn, &mut peer).unwrap_err();
    assert_eq!(err, Error::from(FrameError::TooLarge { declared_len: 16385, limit: 16384 }));
    assert_eq!(
        err.message(),
        "Frame error - declared frame length 16385 exceeds limit 16384"
    );
}

#[test]
fn written_frames_arrive() {
    let conn = Connection::new(3);
    let mut wire = Vec::new();
    let mut frames = Vec::new();
    for (frame, _) in get_test_cases() {
        wire.extend_from_slice(&conn.write_frame(&frame));
        frames.push(frame);
    }
    let mut peer = Peer::new(wire);
    let mut conn = Connection::new(6);
    assert!(conn.has_room(8 * 1024));
    assert!(!conn.has_room(usize::MAX));
    for frame in &frames {
        assert_eq!(read_frame(&mut conn, &mut peer).unwrap().as_ref(), Some(frame));
    }
    assert_eq!(read_frame(&mut conn, &mut peer), Ok(None));
}

#[test]
fn io_errors_convert() {
    let e = || IoError { kind: IoErrorKind::Other, message: "broken pipe".to_string() };
    assert_eq!(Error::from(e()), Error::Io(e()));
    assert_eq!(Error::from(e()).message(), "I/O error - broken pipe");
}
