//! The authenticated cipher session of the direct-mode transport.
//!
//! A session owns one 256-bit symmetric key and a strictly increasing
//! nonce counter, so a (key, nonce) pair is used for at most one
//! encryption. Sealing XORs the plaintext with a keystream derived from
//! key and nonce and appends a 16-byte tag computed over the ciphertext;
//! opening recomputes the tag and refuses the bytes with
//! `AuthenticationFailed` unless it matches, so no unauthenticated
//! plaintext is ever handed out.
//!
//! The keystream and tag are built from a small ARX-style mixing function.
//! The construction is a lightweight stand-in, not a vetted cipher: what
//! this module establishes is the session discipline (fresh nonce per
//! encryption, all-or-nothing authenticated opening) and the functional
//! contracts below, not resistance to cryptanalysis.

use vstd::prelude::*;
use vstd::array::array_as_slice;
use vstd::slice::slice_subrange;

use crate::endian::{lemma_u64_be_bytes_roundtrip, push_u64_be, spec_u64_to_be_bytes};
use crate::ChatError;

verus! {

/// Key size in bytes.
pub const KEY_LEN: usize = 32;

/// Nonce size in bytes.
pub const NONCE_LEN: usize = 12;

/// Authentication tag size in bytes.
pub const TAG_LEN: usize = 16;

/// Initial absorbing state for the keystream seed.
pub const STREAM_INIT: u64 = 0x243f6a8885a308d3;

/// Domain separator between keystream and tag derivation.
pub const TAG_DOMAIN: u64 = 0x452821e638d01377;

/// Odd step constant of the keystream counter.
pub const STEP: u64 = 0x9e3779b97f4a7c15;

/// One invertible 64-bit mixing round.
pub open spec fn spec_mix(x: u64) -> u64 {
    let a = x ^ (x >> 30);
    let b = a.wrapping_mul(0xbf58476d1ce4e5b9);
    let c = b ^ (b >> 27);
    let d = c.wrapping_mul(0x94d049bb133111eb);
    d ^ (d >> 31)
}

fn mix(x: u64) -> (r: u64)
    ensures
        r == spec_mix(x),
{
    let a = x ^ (x >> 30);
    let b = a.wrapping_mul(0xbf58476d1ce4e5b9);
    let c = b ^ (b >> 27);
    let d = c.wrapping_mul(0x94d049bb133111eb);
    d ^ (d >> 31)
}

/// Absorbs `s` byte by byte into the state `acc`.
pub open spec fn spec_absorb(acc: u64, s: Seq<u8>) -> u64
    decreases s.len(),
{
    if s.len() == 0 {
        acc
    } else {
        spec_absorb(spec_mix(acc ^ (s[0] as u64)), s.subrange(1, s.len() as int))
    }
}

fn absorb(acc0: u64, s: &[u8]) -> (r: u64)
    ensures
        r == spec_absorb(acc0, s@),
{
    let mut acc = acc0;
    let mut i: usize = 0;
    proof {
        assert(s@.subrange(0, s@.len() as int) =~= s@);
    }
    while i < s.len()
        invariant
            i <= s@.len(),
            spec_absorb(acc, s@.subrange(i as int, s@.len() as int)) == spec_absorb(acc0, s@),
        decreases s@.len() - i,
    {
        proof {
            let rest = s@.subrange(i as int, s@.len() as int);
            assert(rest[0] == s@[i as int]);
            assert(rest.subrange(1, rest.len() as int) =~= s@.subrange(
                i + 1,
                s@.len() as int,
            ));
        }
        acc = mix(acc ^ (s[i] as u64));
        i = i + 1;
    }
    proof {
        assert(s@.subrange(s@.len() as int, s@.len() as int) =~= Seq::<u8>::empty());
    }
    acc
}

/// The keystream seed of a (key, nonce) pair.
pub open spec fn spec_stream_seed(key: Seq<u8>, nonce: Seq<u8>) -> u64 {
    spec_absorb(spec_absorb(STREAM_INIT, key), nonce)
}

fn stream_seed(key: &[u8], nonce: &[u8]) -> (r: u64)
    ensures
        r == spec_stream_seed(key@, nonce@),
{
    absorb(absorb(STREAM_INIT, key), nonce)
}

/// Byte `i` of the keystream under `seed`.
pub open spec fn spec_ks_byte(seed: u64, i: u64) -> u8 {
    (spec_mix(seed.wrapping_add(i.wrapping_mul(STEP))) & 0xff) as u8
}

fn ks_byte(seed: u64, i: u64) -> (r: u8)
    ensures
        r == spec_ks_byte(seed, i),
{
    let w = mix(seed.wrapping_add(i.wrapping_mul(STEP)));
    proof {
        assert(w & 0xff < 256) by (bit_vector);
    }
    (w & 0xff) as u8
}

/// `data` XORed position by position with the keystream under `seed`.
pub open spec fn spec_xor_stream(seed: u64, data: Seq<u8>) -> Seq<u8> {
    Seq::new(data.len(), |i: int| data[i] ^ spec_ks_byte(seed, i as u64))
}

fn xor_stream(seed: u64, data: &[u8]) -> (r: Vec<u8>)
    ensures
        r@ == spec_xor_stream(seed, data@),
{
    let mut out: Vec<u8> = Vec::new();
    let mut i: usize = 0;
    while i < data.len()
        invariant
            i <= data@.len(),
            out@.len() == i,
            forall|j: int|
                0 <= j < i ==> out@[j] == (data@[j] ^ spec_ks_byte(seed, j as u64)),
        decreases data@.len() - i,
    {
        out.push(data[i] ^ ks_byte(seed, i as u64));
        i = i + 1;
    }
    proof {
        assert(out@ =~= spec_xor_stream(seed, data@));
    }
    out
}

/// XORing with one keystream twice gives the input back.
pub proof fn lemma_xor_stream_involutive(seed: u64, data: Seq<u8>)
    ensures
        spec_xor_stream(seed, spec_xor_stream(seed, data)) == data,
{
    let once = spec_xor_stream(seed, data);
    let twice = spec_xor_stream(seed, once);
    assert forall|i: int| 0 <= i < data.len() implies twice[i] == data[i] by {
        let d = data[i];
        let k = spec_ks_byte(seed, i as u64);
        assert(((d ^ k) ^ k) == d) by (bit_vector);
    }
    assert(twice =~= data);
}

/// The authentication tag of `ct` under `key` and `nonce`.
pub open spec fn spec_tag(key: Seq<u8>, nonce: Seq<u8>, ct: Seq<u8>) -> Seq<u8> {
    let tseed = spec_absorb(spec_mix(spec_stream_seed(key, nonce) ^ TAG_DOMAIN), ct);
    Seq::new(TAG_LEN as nat, |j: int| spec_ks_byte(tseed, j as u64))
}

fn tag_bytes(key: &[u8], nonce: &[u8], ct: &[u8]) -> (r: Vec<u8>)
    ensures
        r@ == spec_tag(key@, nonce@, ct@),
{
    let tseed = absorb(mix(stream_seed(key, nonce) ^ TAG_DOMAIN), ct);
    let mut out: Vec<u8> = Vec::new();
    let mut j: usize = 0;
    while j < TAG_LEN
        invariant
            j <= TAG_LEN,
            out@.len() == j,
            forall|i: int| 0 <= i < j ==> out@[i] == spec_ks_byte(tseed, i as u64),
        decreases TAG_LEN - j,
    {
        out.push(ks_byte(tseed, j as u64));
        j = j + 1;
    }
    proof {
        assert(out@ =~= spec_tag(key@, nonce@, ct@));
    }
    out
}

/// The sealed form of `pt`: ciphertext followed by its tag.
pub open spec fn spec_seal(key: Seq<u8>, nonce: Seq<u8>, pt: Seq<u8>) -> Seq<u8> {
    let ct = spec_xor_stream(spec_stream_seed(key, nonce), pt);
    ct + spec_tag(key, nonce, ct)
}

/// What opening `sealed` yields: the plaintext exactly when the trailing
/// tag authenticates the ciphertext, `AuthenticationFailed` otherwise.
pub open spec fn spec_open(key: Seq<u8>, nonce: Seq<u8>, sealed: Seq<u8>) -> Result<
    Seq<u8>,
    ChatError,
> {
    if sealed.len() < TAG_LEN {
        Err(ChatError::AuthenticationFailed)
    } else {
        let ct = sealed.subrange(0, sealed.len() - TAG_LEN);
        let tag = sealed.subrange(sealed.len() - TAG_LEN, sealed.len() as int);
        if tag == spec_tag(key, nonce, ct) {
            Ok(spec_xor_stream(spec_stream_seed(key, nonce), ct))
        } else {
            Err(ChatError::AuthenticationFailed)
        }
    }
}

/// The nonce that a session uses at counter value `counter`.
pub open spec fn spec_nonce_of(counter: u64) -> Seq<u8> {
    seq![0u8, 0u8, 0u8, 0u8] + spec_u64_to_be_bytes(counter)
}

fn nonce_of(counter: u64) -> (r: Vec<u8>)
    ensures
        r@ == spec_nonce_of(counter),
{
    let mut out: Vec<u8> = Vec::new();
    out.push(0u8);
    out.push(0u8);
    out.push(0u8);
    out.push(0u8);
    push_u64_be(&mut out, counter);
    proof {
        assert(out@ =~= spec_nonce_of(counter));
    }
    out
}

/// Distinct counter values give distinct nonces, so a session never
/// reuses a (key, nonce) pair.
pub proof fn lemma_nonce_injective(c1: u64, c2: u64)
    requires
        c1 != c2,
    ensures
        spec_nonce_of(c1) != spec_nonce_of(c2),
{
    lemma_u64_be_bytes_roundtrip(c1);
    lemma_u64_be_bytes_roundtrip(c2);
    if spec_nonce_of(c1) == spec_nonce_of(c2) {
        assert(spec_nonce_of(c1).subrange(4, 12) =~= spec_u64_to_be_bytes(c1));
        assert(spec_nonce_of(c2).subrange(4, 12) =~= spec_u64_to_be_bytes(c2));
        assert(false);
    }
}

/// Opening a sealed message under the key and nonce that sealed it gives
/// the plaintext back.
pub proof fn lemma_seal_open_roundtrip(key: Seq<u8>, nonce: Seq<u8>, pt: Seq<u8>)
    ensures
        spec_seal(key, nonce, pt).len() == pt.len() + TAG_LEN,
        spec_open(key, nonce, spec_seal(key, nonce, pt)) == Ok::<Seq<u8>, ChatError>(pt),
{
    let seed = spec_stream_seed(key, nonce);
    let ct = spec_xor_stream(seed, pt);
    let sealed = spec_seal(key, nonce, pt);
    assert(sealed.subrange(0, sealed.len() - TAG_LEN) =~= ct);
    assert(sealed.subrange(sealed.len() - TAG_LEN, sealed.len() as int) =~= spec_tag(
        key,
        nonce,
        ct,
    ));
    lemma_xor_stream_involutive(seed, pt);
}

/// Compares two byte strings for equality.
pub fn eq_bytes(a: &[u8], b: &[u8]) -> (r: bool)
    ensures
        r == (a@ == b@),
{
    if a.len() != b.len() {
        return false;
    }
    let mut i: usize = 0;
    while i < a.len()
        invariant
            a@.len() == b@.len(),
            i <= a@.len(),
            forall|j: int| 0 <= j < i ==> a@[j] == b@[j],
        decreases a@.len() - i,
    {
        if a[i] != b[i] {
            return false;
        }
        i = i + 1;
    }
    proof {
        assert(a@ =~= b@);
    }
    true
}

/// One direct connection's cipher state: the shared 256-bit key and the
/// nonce counter. The counter only ever moves forward, one step per
/// encryption, which keeps every (key, nonce) pair single-use.
pub struct CipherSession {
    key: [u8; KEY_LEN],
    counter: u64,
}

impl CipherSession {
    /// The session key, as a byte sequence.
    pub closed spec fn spec_key(self) -> Seq<u8> {
        self.key@
    }

    /// The value the nonce counter holds for the next encryption.
    pub closed spec fn spec_counter(self) -> u64 {
        self.counter
    }

    /// Opens a session on an established shared key. How the key is
    /// agreed (pre-shared secret or a handshake) is the caller's choice;
    /// a session never works without one.
    pub fn new(key: [u8; KEY_LEN]) -> (s: Self)
        ensures
            s.spec_key() == key@,
            s.spec_counter() == 0,
    {
        CipherSession { key, counter: 0 }
    }

    /// How many encryptions this session has performed; callers check it
    /// against `u64::MAX` before asking for another.
    pub fn counter(&self) -> (c: u64)
        ensures
            c == self.spec_counter(),
    {
        self.counter
    }

    /// Encrypts `plaintext` under a fresh nonce and advances the counter.
    /// Returns the nonce and the sealed bytes (ciphertext plus tag).
    pub fn encrypt(&mut self, plaintext: &[u8]) -> (r: (Vec<u8>, Vec<u8>))
        requires
            old(self).spec_counter() < u64::MAX,
        ensures
            final(self).spec_key() == old(self).spec_key(),
            final(self).spec_counter() == old(self).spec_counter() + 1,
            r.0@ == spec_nonce_of(old(self).spec_counter()),
            r.1@ == spec_seal(old(self).spec_key(), r.0@, plaintext@),
    {
        let nonce = nonce_of(self.counter);
        self.counter = self.counter + 1;
        let seed = stream_seed(array_as_slice(&self.key), nonce.as_slice());
        let mut sealed = xor_stream(seed, plaintext);
        let mut tag = tag_bytes(array_as_slice(&self.key), nonce.as_slice(), sealed.as_slice());
        sealed.append(&mut tag);
        (nonce, sealed)
    }

    /// Decrypts `sealed` under `nonce`, exactly as `spec_open` reads it:
    /// the plaintext when the tag authenticates, `AuthenticationFailed`
    /// otherwise, never partially decrypted data.
    pub fn decrypt(&self, nonce: &[u8], sealed: &[u8]) -> (r: Result<Vec<u8>, ChatError>)
        ensures
            match r {
                Ok(p) => spec_open(self.spec_key(), nonce@, sealed@) == Ok::<Seq<u8>, ChatError>(
                    p@,
                ),
                Err(e) => spec_open(self.spec_key(), nonce@, sealed@) == Err::<Seq<u8>, ChatError>(
                    e,
                ),
            },
    {
        if sealed.len() < TAG_LEN {
            return Err(ChatError::AuthenticationFailed);
        }
        let ct = slice_subrange(sealed, 0, sealed.len() - TAG_LEN);
        let tag = slice_subrange(sealed, sealed.len() - TAG_LEN, sealed.len());
        let expect = tag_bytes(array_as_slice(&self.key), nonce, ct);
        if !eq_bytes(tag, expect.as_slice()) {
            return Err(ChatError::AuthenticationFailed);
        }
        let seed = stream_seed(array_as_slice(&self.key), nonce);
        Ok(xor_stream(seed, ct))
    }
}

} // verus!
