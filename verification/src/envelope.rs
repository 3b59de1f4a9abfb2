//! The message envelope exchanged between peers.
//!
//! An envelope carries a tagged body — an identity announcement or a text
//! line, each with the sender's fixed-size identifier — plus a 128-bit
//! random token that distinguishes message instances with equal content
//! and can serve as a deduplication key.
//!
//! The wire form is self-describing: a discriminant byte, the 32-byte
//! sender identifier, a length-prefixed string field, and the 16-byte
//! token. `from_bytes` accepts exactly the well-formed encodings and
//! refuses everything else, unknown discriminants included, with
//! `MalformedEnvelope`.

use vstd::prelude::*;
use vstd::array::array_as_slice;
use vstd::slice::{slice_subrange, slice_to_vec};

use crate::endian::{
    lemma_u32_be_bytes_identity, lemma_u32_be_bytes_roundtrip, push_u32_be, read_u32_be,
    spec_u32_from_be_bytes, spec_u32_to_be_bytes,
};
use crate::ChatError;

verus! {

broadcast use vstd::array::group_array_axioms;

/// Peer identifier size in bytes.
pub const PEER_ID_LEN: usize = 32;

/// Message token size in bytes.
pub const TOKEN_LEN: usize = 16;

/// Discriminant byte of an identity announcement.
pub const TAG_ABOUT_ME: u8 = 1;

/// Discriminant byte of a text message.
pub const TAG_TEXT: u8 = 2;

/// Bytes of an encoded envelope that are not the string field: the
/// discriminant, the sender identifier, the length prefix and the token.
pub const ENVELOPE_OVERHEAD: usize = 53;

/// A peer's opaque fixed-size identifier, as the overlay derives it from
/// the peer's public key.
#[derive(Clone, Copy, Debug)]
pub struct PeerId {
    pub bytes: [u8; PEER_ID_LEN],
}

impl View for PeerId {
    type V = Seq<u8>;

    open spec fn view(&self) -> Seq<u8> {
        self.bytes@
    }
}

impl PartialEq for PeerId {
    fn eq(&self, other: &PeerId) -> (r: bool) {
        crate::cipher::eq_bytes(array_as_slice(&self.bytes), array_as_slice(&other.bytes))
    }
}

impl vstd::std_specs::cmp::PartialEqSpecImpl for PeerId {
    open spec fn obeys_eq_spec() -> bool {
        true
    }

    open spec fn eq_spec(&self, other: &PeerId) -> bool {
        self.bytes@ == other.bytes@
    }
}

/// The tagged content of an envelope: an identity announcement carrying a
/// display name, or a text line.
#[derive(Clone, Debug, PartialEq)]
pub enum MessageBody {
    AboutMe { from: PeerId, name: Vec<u8> },
    Message { from: PeerId, text: Vec<u8> },
}

/// One message instance: a body plus its per-instance random token.
#[derive(Clone, Debug, PartialEq)]
pub struct Message {
    pub body: MessageBody,
    pub token: [u8; TOKEN_LEN],
}

/// The discriminant byte of `body`.
pub open spec fn spec_body_tag(body: MessageBody) -> u8 {
    match body {
        MessageBody::AboutMe { .. } => TAG_ABOUT_ME,
        MessageBody::Message { .. } => TAG_TEXT,
    }
}

/// The sender identifier carried by `body`.
pub open spec fn spec_body_from(body: MessageBody) -> Seq<u8> {
    match body {
        MessageBody::AboutMe { from, .. } => from@,
        MessageBody::Message { from, .. } => from@,
    }
}

/// The string field of `body`: the display name of an announcement, the
/// content of a text message.
pub open spec fn spec_body_str(body: MessageBody) -> Seq<u8> {
    match body {
        MessageBody::AboutMe { name, .. } => name@,
        MessageBody::Message { text, .. } => text@,
    }
}

impl Message {
    /// A message is well formed when its string field's length fits the
    /// 32-bit length prefix.
    pub open spec fn wf(self) -> bool {
        spec_body_str(self.body).len() <= u32::MAX
    }
}

/// The wire form of a message: discriminant, sender, length-prefixed
/// string field, token.
pub open spec fn spec_encode_message(m: Message) -> Seq<u8> {
    seq![spec_body_tag(m.body)] + spec_body_from(m.body) + spec_u32_to_be_bytes(
        spec_body_str(m.body).len() as u32,
    ) + spec_body_str(m.body) + m.token@
}

/// Where each part of a message sits inside its encoding.
pub proof fn lemma_encode_shape(m: Message)
    ensures
        spec_encode_message(m).len() == ENVELOPE_OVERHEAD + spec_body_str(m.body).len() as int,
        spec_encode_message(m)[0] == spec_body_tag(m.body),
        spec_encode_message(m).subrange(1, 33) == spec_body_from(m.body),
        spec_encode_message(m).subrange(33, 37) == spec_u32_to_be_bytes(
            spec_body_str(m.body).len() as u32,
        ),
        spec_encode_message(m).subrange(37, 37 + spec_body_str(m.body).len() as int) == spec_body_str(
            m.body,
        ),
        spec_encode_message(m).subrange(
            37 + spec_body_str(m.body).len() as int,
            ENVELOPE_OVERHEAD + spec_body_str(m.body).len() as int,
        ) == m.token@,
{
    let enc = spec_encode_message(m);
    let s = spec_body_str(m.body);
    assert(enc.subrange(1, 33) =~= spec_body_from(m.body));
    assert(enc.subrange(33, 37) =~= spec_u32_to_be_bytes(s.len() as u32));
    assert(enc.subrange(37, 37 + s.len() as int) =~= s);
    assert(enc.subrange(37 + s.len() as int, ENVELOPE_OVERHEAD + s.len() as int) =~= m.token@);
}

/// Copies `N` bytes of `s` starting at `off` into a fresh array.
fn read_array<const N: usize>(s: &[u8], off: usize) -> (r: [u8; N])
    requires
        off + N <= s@.len(),
    ensures
        r@ == s@.subrange(off as int, off + N),
{
    let mut a = [0u8; N];
    let slen: usize = s.len();
    let mut i: usize = 0;
    while i < N
        invariant
            i <= N,
            slen == s@.len(),
            off + N <= s@.len(),
            a@.len() == N,
            forall|j: int| 0 <= j < i ==> a@[j] == s@[off + j],
        decreases N - i,
    {
        a[i] = s[off + i];
        i = i + 1;
    }
    proof {
        assert(a@ =~= s@.subrange(off as int, off + N));
    }
    a
}

/// Relies on rand::random: fills a 16-byte array from the thread-local
/// cryptographically secure generator. Nothing is assumed of the value.
#[verifier::external_body]
fn random_token() -> (t: [u8; TOKEN_LEN]) {
    rand::random()
}

impl Message {
    /// Wraps `body` in an envelope with a freshly drawn token.
    pub fn new(body: MessageBody) -> (m: Message)
        ensures
            m.body == body,
    {
        Message { body, token: random_token() }
    }

    /// Encodes the message for the wire.
    pub fn to_vec(&self) -> (r: Vec<u8>)
        requires
            self.wf(),
        ensures
            r@ == spec_encode_message(*self),
    {
        let mut out: Vec<u8> = Vec::new();
        match &self.body {
            MessageBody::AboutMe { from, name } => {
                out.push(TAG_ABOUT_ME);
                out.extend_from_slice(array_as_slice(&from.bytes));
                push_u32_be(&mut out, name.len() as u32);
                out.extend_from_slice(name.as_slice());
            },
            MessageBody::Message { from, text } => {
                out.push(TAG_TEXT);
                out.extend_from_slice(array_as_slice(&from.bytes));
                push_u32_be(&mut out, text.len() as u32);
                out.extend_from_slice(text.as_slice());
            },
        }
        out.extend_from_slice(array_as_slice(&self.token));
        proof {
            assert(out@ =~= spec_encode_message(*self));
        }
        out
    }

    /// Decodes an envelope, accepting exactly the well-formed encodings:
    /// the result is the unique message whose encoding is `bytes`, and
    /// `MalformedEnvelope` comes precisely when no such message exists.
    pub fn from_bytes(bytes: &[u8]) -> (r: Result<Message, ChatError>)
        ensures
            match r {
                Ok(m) => m.wf() && bytes@ == spec_encode_message(m),
                Err(e) => e == ChatError::MalformedEnvelope && (forall|m: Message|
                    m.wf() ==> spec_encode_message(m) != bytes@),
            },
    {
        if bytes.len() < ENVELOPE_OVERHEAD {
            proof {
                assert forall|m: Message| m.wf() implies spec_encode_message(m) != bytes@ by {
                    lemma_encode_shape(m);
                }
            }
            return Err(ChatError::MalformedEnvelope);
        }
        let tag = bytes[0];
        if tag != TAG_ABOUT_ME && tag != TAG_TEXT {
            proof {
                assert forall|m: Message| m.wf() implies spec_encode_message(m) != bytes@ by {
                    lemma_encode_shape(m);
                    if spec_encode_message(m) == bytes@ {
                        assert(bytes@[0] == spec_body_tag(m.body));
                    }
                }
            }
            return Err(ChatError::MalformedEnvelope);
        }
        let strlen = read_u32_be(bytes, 33) as usize;
        if bytes.len() - ENVELOPE_OVERHEAD != strlen {
            proof {
                assert forall|m: Message| m.wf() implies spec_encode_message(m) != bytes@ by {
                    lemma_encode_shape(m);
                    if spec_encode_message(m) == bytes@ {
                        let n = spec_body_str(m.body).len();
                        assert(bytes@.subrange(33, 37) == spec_u32_to_be_bytes(n as u32));
                        lemma_u32_be_bytes_roundtrip(n as u32);
                        assert(spec_u32_from_be_bytes(bytes@.subrange(33, 37)) == n as u32);
                        assert(bytes@.len() == ENVELOPE_OVERHEAD + n);
                    }
                }
            }
            return Err(ChatError::MalformedEnvelope);
        }
        let from = PeerId { bytes: read_array::<PEER_ID_LEN>(bytes, 1) };
        let strfield = slice_to_vec(slice_subrange(bytes, 37, 37 + strlen));
        let token = read_array::<TOKEN_LEN>(bytes, 37 + strlen);
        let body = if tag == TAG_ABOUT_ME {
            MessageBody::AboutMe { from, name: strfield }
        } else {
            MessageBody::Message { from, text: strfield }
        };
        let m = Message { body, token };
        proof {
            lemma_encode_shape(m);
            lemma_u32_be_bytes_identity(bytes@.subrange(33, 37));
            assert(bytes@ =~= spec_encode_message(m));
        }
        Ok(m)
    }
}

/// Encoding is injective on what the wire can carry: equal encodings mean
/// equal discriminant, sender, string field and token.
pub proof fn lemma_encode_injective(m1: Message, m2: Message)
    requires
        spec_encode_message(m1) == spec_encode_message(m2),
    ensures
        spec_body_tag(m1.body) == spec_body_tag(m2.body),
        spec_body_from(m1.body) == spec_body_from(m2.body),
        spec_body_str(m1.body) == spec_body_str(m2.body),
        m1.token@ == m2.token@,
{
    lemma_encode_shape(m1);
    lemma_encode_shape(m2);
    assert(spec_body_str(m1.body).len() == spec_body_str(m2.body).len());
}

/// Two envelopes with the same body but different tokens have different
/// encodings: the token distinguishes message instances.
pub proof fn lemma_token_distinguishes(m1: Message, m2: Message)
    requires
        m1.body == m2.body,
        m1.token@ != m2.token@,
    ensures
        spec_encode_message(m1) != spec_encode_message(m2),
{
    if spec_encode_message(m1) == spec_encode_message(m2) {
        lemma_encode_injective(m1, m2);
    }
}

} // verus!
