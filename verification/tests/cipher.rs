use peerchat::cipher::{CipherSession, NONCE_LEN, TAG_LEN};
use peerchat::ChatError;

fn key() -> [u8; 32] {
    let mut k = [0u8; 32];
    for (i, b) in k.iter_mut().enumerate() {
        *b = (i as u8).wrapping_mul(37).wrapping_add(11);
    }
    k
}

#[test]
fn encrypt_decrypt_roundtrip() {
    let mut sender = CipherSession::new(key());
    let receiver = CipherSession::new(key());
    for pt in [&b""[..], &b"h"[..], &b"hello world"[..], &[0u8; 300][..]] {
        let (nonce, sealed) = sender.encrypt(pt);
        assert_eq!(nonce.len(), NONCE_LEN);
        assert_eq!(sealed.len(), pt.len() + TAG_LEN);
        assert_eq!(receiver.decrypt(&nonce, &sealed), Ok(pt.to_vec()));
    }
}

#[test]
fn tamper_detection_every_bit() {
    let mut sender = CipherSession::new(key());
    let receiver = CipherSession::new(key());
    for pt in [&b"a"[..], &b"attack at dawn"[..]] {
        let (nonce, sealed) = sender.encrypt(pt);
        for byte in 0..sealed.len() {
            for bit in 0..8 {
                let mut bad = sealed.clone();
                bad[byte] ^= 1u8 << bit;
                assert_eq!(
                    receiver.decrypt(&nonce, &bad),
                    Err(ChatError::AuthenticationFailed),
                    "flipping bit {bit} of byte {byte} went undetected"
                );
            }
        }
    }
}

#[test]
fn tampered_nonce_rejected() {
    let mut sender = CipherSession::new(key());
    let receiver = CipherSession::new(key());
    let (nonce, sealed) = sender.encrypt(b"hello");
    for byte in 0..nonce.len() {
        let mut bad = nonce.clone();
        bad[byte] ^= 0x80;
        assert_eq!(receiver.decrypt(&bad, &sealed), Err(ChatError::AuthenticationFailed));
    }
}

#[test]
fn wrong_key_rejected() {
    let mut sender = CipherSession::new(key());
    let mut other = key();
    other[0] ^= 1;
    let receiver = CipherSession::new(other);
    let (nonce, sealed) = sender.encrypt(b"hello");
    assert_eq!(receiver.decrypt(&nonce, &sealed), Err(ChatError::AuthenticationFailed));
}

#[test]
fn nonces_never_repeat() {
    let mut sender = CipherSession::new(key());
    let (n1, _) = sender.encrypt(b"one");
    let (n2, _) = sender.encrypt(b"one");
    let (n3, _) = sender.encrypt(b"one");
    assert_ne!(n1, n2);
    assert_ne!(n2, n3);
    assert_ne!(n1, n3);
}

#[test]
fn sealed_too_short_rejected() {
    let receiver = CipherSession::new(key());
    let nonce = vec![0u8; NONCE_LEN];
    assert_eq!(receiver.decrypt(&nonce, &[0u8; 15]), Err(ChatError::AuthenticationFailed));
}
