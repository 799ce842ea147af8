use kaya_sync::error::{ConfigIssue, KayaError};
use kaya_sync::framing::{decode_frame, encode_frame, frame_length, MAX_MESSAGE_LEN};

#[test]
fn frame_round_trip() {
    let payload = br#"{"message":"config","id":3}"#.to_vec();
    let frame = encode_frame(&payload);
    assert_eq!(&frame[..4], &(payload.len() as u32).to_ne_bytes());
    let (p, used) = decode_frame(&frame).unwrap().unwrap();
    assert_eq!(p, payload);
    assert_eq!(used, frame.len());
}

#[test]
fn frame_followed_by_more_bytes() {
    let mut buf = encode_frame(b"ab");
    buf.extend(encode_frame(b"cde"));
    let (p, used) = decode_frame(&buf).unwrap().unwrap();
    assert_eq!(p, b"ab".to_vec());
    assert_eq!(used, 6);
    let (q, _) = decode_frame(&buf[used..]).unwrap().unwrap();
    assert_eq!(q, b"cde".to_vec());
}

#[test]
fn empty_stream_is_no_message() {
    assert_eq!(decode_frame(&[]), Ok(None));
}

#[test]
fn eof_inside_header_or_body() {
    assert_eq!(decode_frame(&[1, 0]), Err(KayaError::UnexpectedEof));
    let mut buf = 10u32.to_ne_bytes().to_vec();
    buf.extend_from_slice(b"abc");
    assert_eq!(decode_frame(&buf), Err(KayaError::UnexpectedEof));
}

#[test]
fn zero_and_oversized_lengths_are_rejected() {
    assert_eq!(
        frame_length(0u32.to_ne_bytes()),
        Err(KayaError::Config(ConfigIssue::InvalidMessageLength(0)))
    );
    let big = MAX_MESSAGE_LEN + 1;
    assert_eq!(
        decode_frame(&big.to_ne_bytes()),
        Err(KayaError::Config(ConfigIssue::InvalidMessageLength(big)))
    );
    assert_eq!(frame_length(MAX_MESSAGE_LEN.to_ne_bytes()), Ok(104857600));
    assert_eq!(frame_length(1u32.to_ne_bytes()), Ok(1));
}
