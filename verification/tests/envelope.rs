use peerchat::envelope::{Message, MessageBody, PeerId, ENVELOPE_OVERHEAD};
use peerchat::ChatError;

fn peer(fill: u8) -> PeerId {
    PeerId { bytes: [fill; 32] }
}

#[test]
fn announce_roundtrip() {
    let m = Message {
        body: MessageBody::AboutMe { from: peer(3), name: b"alice".to_vec() },
        token: [7; 16],
    };
    let bytes = m.to_vec();
    assert_eq!(bytes.len(), ENVELOPE_OVERHEAD + 5);
    assert_eq!(Message::from_bytes(&bytes), Ok(m));
}

#[test]
fn text_roundtrip() {
    let m = Message {
        body: MessageBody::Message { from: peer(0xfe), text: b"hello there".to_vec() },
        token: [0; 16],
    };
    assert_eq!(Message::from_bytes(&m.to_vec()), Ok(m));
}

#[test]
fn empty_string_field_roundtrip() {
    let m = Message {
        body: MessageBody::Message { from: peer(1), text: Vec::new() },
        token: [9; 16],
    };
    let bytes = m.to_vec();
    assert_eq!(bytes.len(), ENVELOPE_OVERHEAD);
    assert_eq!(Message::from_bytes(&bytes), Ok(m));
}

#[test]
fn malformed_envelopes_rejected() {
    // Too short to hold the fixed fields.
    assert_eq!(Message::from_bytes(&[]), Err(ChatError::MalformedEnvelope));
    assert_eq!(Message::from_bytes(&[1u8; 52]), Err(ChatError::MalformedEnvelope));
    // Unknown discriminant.
    let m = Message {
        body: MessageBody::AboutMe { from: peer(2), name: b"bob".to_vec() },
        token: [1; 16],
    };
    let mut bad = m.to_vec();
    bad[0] = 3;
    assert_eq!(Message::from_bytes(&bad), Err(ChatError::MalformedEnvelope));
    bad[0] = 0;
    assert_eq!(Message::from_bytes(&bad), Err(ChatError::MalformedEnvelope));
    // A length field that disagrees with the bytes present.
    let mut lying = m.to_vec();
    lying[36] = lying[36].wrapping_add(1);
    assert_eq!(Message::from_bytes(&lying), Err(ChatError::MalformedEnvelope));
    // Truncated behind a correct header.
    let whole = m.to_vec();
    assert_eq!(
        Message::from_bytes(&whole[..whole.len() - 1]),
        Err(ChatError::MalformedEnvelope)
    );
}

#[test]
fn token_distinguishes_equal_bodies() {
    let body = MessageBody::Message { from: peer(5), text: b"same words".to_vec() };
    let m1 = Message::new(body.clone());
    let m2 = Message::new(body);
    assert_ne!(m1.token, m2.token, "independently drawn tokens coincided");
    assert_ne!(m1.to_vec(), m2.to_vec());
    assert_ne!(m1, m2);
}

#[test]
fn new_keeps_body() {
    let body = MessageBody::AboutMe { from: peer(8), name: b"carol".to_vec() };
    let m = Message::new(body.clone());
    assert_eq!(m.body, body);
}
