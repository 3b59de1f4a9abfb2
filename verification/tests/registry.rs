use peerchat::envelope::PeerId;
use peerchat::registry::{short_id, IdentityRegistry, SHORT_ID_LEN};

fn peer(fill: u8) -> PeerId {
    PeerId { bytes: [fill; 32] }
}

#[test]
fn last_write_wins() {
    let mut reg = IdentityRegistry::new();
    let id = peer(4);
    reg.upsert(id, b"A".to_vec());
    reg.upsert(id, b"B".to_vec());
    assert_eq!(reg.resolve(&id), b"B".to_vec());
}

#[test]
fn unknown_id_resolves_to_short_hex() {
    let reg = IdentityRegistry::new();
    let mut id = peer(0);
    id.bytes[0] = 0xab;
    id.bytes[1] = 0xcd;
    id.bytes[2] = 0x01;
    id.bytes[3] = 0x23;
    id.bytes[4] = 0x45;
    let display = reg.resolve(&id);
    assert!(!display.is_empty());
    assert_eq!(display.len(), SHORT_ID_LEN);
    assert_eq!(display, b"abcd012345".to_vec());
    assert_eq!(display, short_id(&id));
}

#[test]
fn stored_name_resolves() {
    let mut reg = IdentityRegistry::new();
    reg.upsert(peer(1), b"alice".to_vec());
    assert_eq!(reg.resolve(&peer(1)), b"alice".to_vec());
}

#[test]
fn peers_do_not_interfere() {
    let mut reg = IdentityRegistry::new();
    reg.upsert(peer(1), b"alice".to_vec());
    reg.upsert(peer(2), b"bob".to_vec());
    reg.upsert(peer(1), b"alicia".to_vec());
    assert_eq!(reg.resolve(&peer(1)), b"alicia".to_vec());
    assert_eq!(reg.resolve(&peer(2)), b"bob".to_vec());
    // An untouched peer still falls back.
    assert_eq!(reg.resolve(&peer(3)).len(), SHORT_ID_LEN);
}

#[test]
fn empty_name_is_stored_verbatim() {
    let mut reg = IdentityRegistry::new();
    reg.upsert(peer(6), Vec::new());
    assert_eq!(reg.resolve(&peer(6)), Vec::<u8>::new());
}
