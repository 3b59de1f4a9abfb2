use peerchat::frame::{decode_frame, encode_frame, MAX_FRAME_LEN};
use peerchat::endian::{push_u32_be, read_u32_be};
use peerchat::ChatError;

#[test]
fn u32_be_bytes_exact() {
    let mut v: Vec<u8> = Vec::new();
    push_u32_be(&mut v, 0x01020304);
    assert_eq!(v, vec![1, 2, 3, 4]);
    assert_eq!(read_u32_be(&v, 0), 0x01020304);
}

#[test]
fn frame_roundtrip_empty() {
    let f = encode_frame(&[]).unwrap();
    assert_eq!(f, vec![0, 0, 0, 0]);
    assert_eq!(decode_frame(&f), Ok(vec![]));
}

#[test]
fn frame_roundtrip_one() {
    let f = encode_frame(&[0xab]).unwrap();
    assert_eq!(f, vec![0, 0, 0, 1, 0xab]);
    assert_eq!(decode_frame(&f), Ok(vec![0xab]));
}

#[test]
fn frame_roundtrip_max() {
    let payload: Vec<u8> = (0..MAX_FRAME_LEN).map(|i| (i % 251) as u8).collect();
    let f = encode_frame(&payload).unwrap();
    assert_eq!(f.len(), MAX_FRAME_LEN + 4);
    assert_eq!(decode_frame(&f), Ok(payload));
}

#[test]
fn frame_encode_too_large() {
    let payload = vec![0u8; MAX_FRAME_LEN + 1];
    assert_eq!(encode_frame(&payload), Err(ChatError::FrameTooLarge));
}

#[test]
fn frame_decode_oversized_length_rejected_from_header_alone() {
    // A length field of MAX_FRAME_LEN + 1, with no payload behind it: the
    // header is enough for the rejection.
    let mut header: Vec<u8> = Vec::new();
    push_u32_be(&mut header, (MAX_FRAME_LEN + 1) as u32);
    assert_eq!(decode_frame(&header), Err(ChatError::FrameTooLarge));
}

#[test]
fn frame_decode_truncated() {
    assert_eq!(decode_frame(&[]), Err(ChatError::ConnectionClosed));
    assert_eq!(decode_frame(&[0, 0, 0]), Err(ChatError::ConnectionClosed));
    assert_eq!(decode_frame(&[0, 0, 0, 5, 1, 2]), Err(ChatError::ConnectionClosed));
    assert_eq!(decode_frame(&[0, 0, 0, 1, 7, 8]), Err(ChatError::ConnectionClosed));
}
