use beava::wire::{
    decode_frame, encode_frame, too_large_message, Frame, FrameError, CT_JSON,
    CT_MSGPACK, OP_ERROR_RESPONSE, OP_GET, OP_PING, OP_PUSH,
};
use bytes::{Bytes, BytesMut};

const LIMIT: u32 = 4 * 1024 * 1024;

fn wire(frames: &[Frame]) -> BytesMut {
    let mut out = BytesMut::new();
    for frame in frames {
        encode_frame(frame, &mut out);
    }
    out
}

#[test]
fn a_frame_starts_with_its_length() {
    let frame = Frame::new(OP_PUSH, CT_MSGPACK, Bytes::from_static(b"abc"));
    let out = wire(&[frame]);
    assert_eq!(&out[..], &[0, 0, 0, 6, 0x00, 0x10, 0x02, b'a', b'b', b'c'][..]);
}

#[test]
fn a_long_frame_uses_the_whole_prefix() {
    let frame = Frame::new(0x1234, 0x56, Bytes::from(vec![7u8; 0x01_02_03 - 3]));
    let out = wire(&[frame]);
    assert_eq!(&out[..7], &[0, 1, 2, 3, 0x12, 0x34, 0x56][..]);
    assert_eq!(out.len(), 4 + 0x01_02_03);
}

#[test]
fn encoding_appends() {
    let mut out = BytesMut::from(&b"head"[..]);
    encode_frame(&Frame::new(OP_PING, CT_JSON, Bytes::new()), &mut out);
    assert_eq!(&out[..], &b"head\x00\x00\x00\x03\x00\x00\x01"[..]);
}

#[test]
fn decoding_undoes_encoding() {
    let frame = Frame::new(OP_GET, CT_MSGPACK, Bytes::from_static(b"key"));
    let mut buf = wire(&[frame.clone()]);
    buf.extend_from_slice(b"rest");
    assert_eq!(decode_frame(&mut buf, LIMIT), Ok(Some(frame)));
    assert_eq!(&buf[..], b"rest");
}

#[test]
fn encoding_undoes_decoding() {
    let bytes = b"\x00\x00\x00\x05\xff\xff\x01ok";
    let mut buf = BytesMut::from(&bytes[..]);
    let frame = decode_frame(&mut buf, LIMIT).unwrap().unwrap();
    assert_eq!(frame.op, OP_ERROR_RESPONSE);
    assert!(buf.is_empty());
    assert_eq!(&wire(&[frame])[..], &bytes[..]);
}

#[test]
fn no_part_of_a_frame_is_a_frame() {
    let whole = wire(&[Frame::new(OP_PUSH, CT_JSON, Bytes::from_static(b"{}"))]);
    for n in 0..whole.len() {
        let mut buf = BytesMut::from(&whole[..n]);
        assert_eq!(decode_frame(&mut buf, LIMIT), Ok(None));
        assert_eq!(&buf[..], &whole[..n]);
    }
}

#[test]
fn frames_come_out_in_order() {
    let frames = [
        Frame::new(OP_PING, CT_JSON, Bytes::new()),
        Frame::new(OP_PUSH, CT_JSON, Bytes::from_static(b"a")),
        Frame::new(OP_GET, CT_MSGPACK, Bytes::from_static(b"bc")),
    ];
    let mut buf = wire(&frames);
    buf.extend_from_slice(&[0, 0]);
    for frame in &frames {
        assert_eq!(decode_frame(&mut buf, LIMIT).unwrap().as_ref(), Some(frame));
    }
    assert_eq!(decode_frame(&mut buf, LIMIT), Ok(None));
    assert_eq!(&buf[..], &[0, 0][..]);
}

#[test]
fn later_bytes_do_not_change_the_first_frame() {
    let first = Frame::new(OP_PUSH, CT_JSON, Bytes::from_static(b"first"));
    let mut short = wire(&[first.clone()]);
    let mut long = wire(&[first, Frame::new(OP_PING, CT_JSON, Bytes::new())]);
    assert_eq!(decode_frame(&mut short, LIMIT), decode_frame(&mut long, LIMIT));
    assert_eq!(short.len(), 0);
    assert_eq!(long.len(), 7);
}

#[test]
fn a_stream_can_be_cut_anywhere() {
    let frames = [
        Frame::new(OP_PUSH, CT_JSON, Bytes::from_static(b"one")),
        Frame::new(OP_GET, CT_JSON, Bytes::from_static(b"two")),
    ];
    let whole = wire(&frames);
    for cut in 0..=whole.len() {
        let mut buf = BytesMut::new();
        let mut got = Vec::new();
        for part in [&whole[..cut], &whole[cut..]] {
            buf.extend_from_slice(part);
            while let Some(frame) = decode_frame(&mut buf, LIMIT).unwrap() {
                got.push(frame);
            }
        }
        assert_eq!(got, frames);
        assert!(buf.is_empty());
    }
}

#[test]
fn a_frame_over_the_limit_is_refused_at_once() {
    let mut buf = BytesMut::from(&[0u8, 0, 1, 1][..]);
    assert_eq!(
        decode_frame(&mut buf, 256),
        Err(FrameError::TooLarge { declared_len: 257, limit: 256 })
    );
    assert_eq!(buf.len(), 4);
}

#[test]
fn a_frame_at_the_limit_is_taken() {
    let frame = Frame::new(OP_PUSH, CT_JSON, Bytes::from(vec![1u8; 253]));
    let mut buf = wire(&[frame.clone()]);
    assert_eq!(decode_frame(&mut buf, 256), Ok(Some(frame)));
}

#[test]
fn a_frame_without_room_for_its_header_is_refused() {
    for declared_len in 0..3u32 {
        let mut buf = BytesMut::from(&[0u8, 0, 0, declared_len as u8, 9, 9, 9][..]);
        assert_eq!(decode_frame(&mut buf, LIMIT), Err(FrameError::TooShort { declared_len }));
        assert_eq!(buf.len(), 7);
    }
}

#[test]
fn errors_say_what_went_wrong() {
    assert_eq!(too_large_message(5000, 4096), "declared frame length 5000 exceeds limit 4096");
    assert_eq!(
        FrameError::TooLarge { declared_len: 4294967295, limit: 0 }.message(),
        "declared frame length 4294967295 exceeds limit 0"
    );
    assert_eq!(
        FrameError::TooShort { declared_len: 2 }.message(),
        "declared frame length 2 is shorter than the frame header"
    );
}
