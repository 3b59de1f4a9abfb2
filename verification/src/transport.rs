//! Direct-mode transport: framing composed with the cipher session.
//!
//! Outbound, a plaintext line is encrypted under a fresh nonce and sent as
//! one frame whose payload is `nonce || ciphertext || tag`. Inbound, a
//! complete frame is deframed, split, and opened; nothing is returned
//! unless the tag authenticates. The socket reads and writes themselves
//! live outside the library: these functions map byte strings to byte
//! strings.

use vstd::prelude::*;
use vstd::slice::slice_subrange;

use crate::cipher::{
    lemma_seal_open_roundtrip, spec_nonce_of, spec_open, spec_seal, CipherSession, NONCE_LEN,
    TAG_LEN,
};
use crate::frame::{
    decode_frame, encode_frame, lemma_frame_roundtrip, spec_decode_frame, spec_encode_frame,
    MAX_FRAME_LEN,
};
use crate::ChatError;

verus! {

/// The largest plaintext one frame can carry, leaving room for the nonce
/// and the tag.
pub const MAX_PLAINTEXT_LEN: usize = MAX_FRAME_LEN - NONCE_LEN - TAG_LEN;

/// The frame a session at counter value `counter` sends for `pt`.
pub open spec fn spec_direct_frame(key: Seq<u8>, counter: u64, pt: Seq<u8>) -> Seq<u8> {
    spec_encode_frame(spec_nonce_of(counter) + spec_seal(key, spec_nonce_of(counter), pt))
}

/// What opening a deframed payload yields: the first `NONCE_LEN` bytes
/// are the nonce, the rest is opened against it. A payload too short to
/// hold a nonce cannot authenticate.
pub open spec fn spec_open_payload(key: Seq<u8>, payload: Seq<u8>) -> Result<Seq<u8>, ChatError> {
    if payload.len() < NONCE_LEN {
        Err(ChatError::AuthenticationFailed)
    } else {
        spec_open(
            key,
            payload.subrange(0, NONCE_LEN as int),
            payload.subrange(NONCE_LEN as int, payload.len() as int),
        )
    }
}

/// What receiving one complete frame yields: deframe, split, open.
pub open spec fn spec_open_frame(key: Seq<u8>, frame: Seq<u8>) -> Result<Seq<u8>, ChatError> {
    match spec_decode_frame(frame) {
        Ok(payload) => spec_open_payload(key, payload),
        Err(e) => Err(e),
    }
}

/// Encrypts `plaintext` and wraps it in one frame, ready for the wire.
/// Refuses plaintexts that cannot fit a frame with `FrameTooLarge`,
/// leaving the session untouched.
pub fn seal_frame(session: &mut CipherSession, plaintext: &[u8]) -> (r: Result<
    Vec<u8>,
    ChatError,
>)
    requires
        old(session).spec_counter() < u64::MAX,
    ensures
        final(session).spec_key() == old(session).spec_key(),
        match r {
            Ok(f) => plaintext@.len() <= MAX_PLAINTEXT_LEN && final(session).spec_counter() == old(session).spec_counter() + 1 && f@ == spec_direct_frame(
                old(session).spec_key(),
                old(session).spec_counter(),
                plaintext@,
            ),
            Err(e) => e == ChatError::FrameTooLarge && plaintext@.len() > MAX_PLAINTEXT_LEN
                && final(session).spec_counter() == old(session).spec_counter(),
        },
{
    if plaintext.len() > MAX_PLAINTEXT_LEN {
        return Err(ChatError::FrameTooLarge);
    }
    let (nonce, sealed) = session.encrypt(plaintext);
    let mut payload = nonce;
    let mut rest = sealed;
    payload.append(&mut rest);
    match encode_frame(payload.as_slice()) {
        Ok(f) => Ok(f),
        Err(_) => {
            proof {
                assert(false);
            }
            Err(ChatError::FrameTooLarge)
        },
    }
}

/// Opens one complete inbound frame, exactly as `spec_open_frame` reads
/// it: the plaintext when the frame is whole and its tag authenticates,
/// the matching error otherwise.
pub fn open_frame(session: &CipherSession, frame: &[u8]) -> (r: Result<Vec<u8>, ChatError>)
    ensures
        match r {
            Ok(p) => spec_open_frame(session.spec_key(), frame@) == Ok::<Seq<u8>, ChatError>(p@),
            Err(e) => spec_open_frame(session.spec_key(), frame@) == Err::<Seq<u8>, ChatError>(e),
        },
{
    match decode_frame(frame) {
        Err(e) => Err(e),
        Ok(payload) => {
            if payload.len() < NONCE_LEN {
                return Err(ChatError::AuthenticationFailed);
            }
            let nonce = slice_subrange(payload.as_slice(), 0, NONCE_LEN);
            let rest = slice_subrange(payload.as_slice(), NONCE_LEN, payload.len());
            session.decrypt(nonce, rest)
        },
    }
}

/// Direct-mode round trip: a frame sealed under a key opens, under the
/// same key, to the plaintext that was sent — at every counter value and
/// for every plaintext that fits a frame.
pub proof fn lemma_direct_roundtrip(key: Seq<u8>, counter: u64, pt: Seq<u8>)
    requires
        pt.len() <= MAX_PLAINTEXT_LEN,
    ensures
        spec_open_frame(key, spec_direct_frame(key, counter, pt)) == Ok::<Seq<u8>, ChatError>(pt),
{
    let nonce = spec_nonce_of(counter);
    let sealed = spec_seal(key, nonce, pt);
    let payload = nonce + sealed;
    lemma_seal_open_roundtrip(key, nonce, pt);
    lemma_frame_roundtrip(payload);
    assert(payload.subrange(0, NONCE_LEN as int) =~= nonce);
    assert(payload.subrange(NONCE_LEN as int, payload.len() as int) =~= sealed);
}

} // verus!
