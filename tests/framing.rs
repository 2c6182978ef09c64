use net_channel::protocol::{
    decode_frame, encode_frame, frame_request, FORM_REQUEST, FORM_RESPONSE, MAX_PAYLOAD, V0,
};
use net_channel::{FrameError, Header};

#[test]
fn header_encodes_little_endian() {
    let h = Header::new(V0, FORM_RESPONSE, 0x1234, 0xabcd);
    assert_eq!(h.to_bytes(), vec![0, 1, 0x34, 0x12, 0xcd, 0xab]);
}

#[test]
fn header_round_trip() {
    let h = Header::new(V0, FORM_REQUEST, 65535, 7);
    let bytes = h.to_bytes();
    assert_eq!(bytes.len(), 6);
    assert_eq!(Header::from_bytes(&bytes), Ok(h));
}

#[test]
fn header_ignores_bytes_after_the_sixth() {
    let bytes = [0u8, 1, 4, 0, 0, 0, 42, 0, 0, 0];
    assert_eq!(Header::from_bytes(&bytes), Ok(Header::new(0, 1, 4, 0)));
}

#[test]
fn short_header_is_malformed() {
    for len in 0..6 {
        let bytes = vec![0u8; len];
        assert_eq!(Header::from_bytes(&bytes), Err(FrameError::MalformedHeader));
    }
}

#[test]
fn unknown_version_is_malformed() {
    let bytes = [1u8, 1, 0, 0, 0, 0];
    assert_eq!(Header::from_bytes(&bytes), Err(FrameError::MalformedHeader));
}

#[test]
fn request_frame_of_ping() {
    let payload = [4u8, 0, b'p', b'i', b'n', b'g'];
    let frame = frame_request(&payload).unwrap();
    assert_eq!(&frame[..6], &[0, 0, 6, 0, 0, 0]);
    assert_eq!(&frame[6..], &payload);
}

#[test]
fn largest_payload_is_framed() {
    let payload = vec![0x5au8; MAX_PAYLOAD];
    let frame = frame_request(&payload).unwrap();
    assert_eq!(frame.len(), 6 + 65535);
    assert_eq!(&frame[..6], &[0, 0, 0xff, 0xff, 0, 0]);
    let (h, p) = decode_frame(&frame).unwrap();
    assert_eq!(h.length, 65535);
    assert_eq!(p, payload);
}

#[test]
fn oversized_payload_is_refused() {
    let payload = vec![0u8; 65536];
    assert_eq!(frame_request(&payload), Err(FrameError::PayloadTooLarge));
}

#[test]
fn empty_payload_is_framed() {
    let frame = frame_request(&[]).unwrap();
    assert_eq!(frame, vec![0, 0, 0, 0, 0, 0]);
    let (h, p) = decode_frame(&frame).unwrap();
    assert_eq!(h, Header::new(0, 0, 0, 0));
    assert!(p.is_empty());
}

#[test]
fn encode_frame_checks_length() {
    let h = Header::new(V0, FORM_RESPONSE, 3, 0);
    assert_eq!(encode_frame(&h, &[1, 2]), Err(FrameError::ProtocolViolation));
    assert_eq!(encode_frame(&h, &[1, 2, 3]), Ok(vec![0, 1, 3, 0, 0, 0, 1, 2, 3]));
}

#[test]
fn decoded_frame_length_matches_payload() {
    let frame = [0u8, 1, 4, 0, 0, 0, 42, 0, 0, 0];
    let (h, p) = decode_frame(&frame).unwrap();
    assert_eq!(h, Header::new(0, 1, 4, 0));
    assert_eq!(h.length as usize, p.len());
    assert_eq!(p, vec![42, 0, 0, 0]);
}

#[test]
fn frame_with_missing_payload_is_a_violation() {
    let frame = [0u8, 1, 4, 0, 0, 0, 42, 0];
    assert_eq!(decode_frame(&frame), Err(FrameError::ProtocolViolation));
    let frame = [0u8, 1, 1, 0, 0, 0, 42, 0];
    assert_eq!(decode_frame(&frame), Err(FrameError::ProtocolViolation));
}

#[test]
fn frame_with_short_header_is_malformed() {
    assert_eq!(decode_frame(&[0u8, 1, 0]), Err(FrameError::MalformedHeader));
}
