use peerchat::chat::{handle_incoming, Outcome};
use peerchat::cipher::CipherSession;
use peerchat::envelope::{Message, MessageBody, PeerId};
use peerchat::registry::IdentityRegistry;
use peerchat::transport::{open_frame, seal_frame, MAX_PLAINTEXT_LEN};
use peerchat::ChatError;

fn peer(fill: u8) -> PeerId {
    PeerId { bytes: [fill; 32] }
}

// Direct mode: one peer seals a line under the shared key, the other
// deframes and decrypts it, and sees the plaintext only because the tag
// authenticated.
#[test]
fn direct_mode_hello() {
    let shared_key = [0x42u8; 32];
    let mut b = CipherSession::new(shared_key);
    let a = CipherSession::new(shared_key);

    let wire = seal_frame(&mut b, b"hello").unwrap();
    assert_eq!(open_frame(&a, &wire), Ok(b"hello".to_vec()));

    // The same frame, tampered anywhere past the header, never opens.
    for byte in 4..wire.len() {
        let mut bad = wire.clone();
        bad[byte] ^= 1;
        assert_eq!(open_frame(&a, &bad), Err(ChatError::AuthenticationFailed));
    }
}

#[test]
fn direct_mode_plaintext_bounds() {
    let shared_key = [1u8; 32];
    let mut b = CipherSession::new(shared_key);
    let a = CipherSession::new(shared_key);

    let longest = vec![0x5au8; MAX_PLAINTEXT_LEN];
    let wire = seal_frame(&mut b, &longest).unwrap();
    assert_eq!(open_frame(&a, &wire), Ok(longest));

    let too_long = vec![0u8; MAX_PLAINTEXT_LEN + 1];
    assert_eq!(seal_frame(&mut b, &too_long), Err(ChatError::FrameTooLarge));
}

// Gossip mode: after an announcement is received, later text from the
// same peer displays under the announced name.
#[test]
fn gossip_mode_announce_then_text() {
    let mut reg = IdentityRegistry::new();
    let alice = peer(0xa1);

    let announce = Message::new(MessageBody::AboutMe { from: alice, name: b"alice".to_vec() });
    match handle_incoming(&mut reg, &announce.to_vec()) {
        Outcome::Announced { who, name } => {
            assert_eq!(name, b"alice".to_vec());
            assert_eq!(who.len(), 10);
        },
        other => panic!("announcement handled as {other:?}"),
    }

    for line in [&b"hi"[..], &b"how are you"[..]] {
        let text = Message::new(MessageBody::Message { from: alice, text: line.to_vec() });
        match handle_incoming(&mut reg, &text.to_vec()) {
            Outcome::Chat { name, text } => {
                assert_eq!(name, b"alice".to_vec());
                assert_eq!(text, line.to_vec());
            },
            other => panic!("text handled as {other:?}"),
        }
    }
    assert_eq!(reg.resolve(&alice), b"alice".to_vec());
}

#[test]
fn gossip_mode_unknown_sender_falls_back() {
    let mut reg = IdentityRegistry::new();
    let stranger = peer(0x0f);
    let text = Message::new(MessageBody::Message { from: stranger, text: b"psst".to_vec() });
    match handle_incoming(&mut reg, &text.to_vec()) {
        Outcome::Chat { name, text } => {
            assert!(!name.is_empty());
            assert_eq!(name, reg.resolve(&stranger));
            assert_eq!(text, b"psst".to_vec());
        },
        other => panic!("text handled as {other:?}"),
    }
}

#[test]
fn gossip_mode_malformed_is_dropped_and_loop_survives() {
    let mut reg = IdentityRegistry::new();
    let alice = peer(0xa1);
    let announce = Message::new(MessageBody::AboutMe { from: alice, name: b"alice".to_vec() });
    handle_incoming(&mut reg, &announce.to_vec());

    // Garbage neither crashes nor disturbs what the registry knows.
    match handle_incoming(&mut reg, b"not an envelope") {
        Outcome::Dropped { reason } => assert_eq!(reason, ChatError::MalformedEnvelope),
        other => panic!("garbage handled as {other:?}"),
    }
    assert_eq!(reg.resolve(&alice), b"alice".to_vec());
}
