//! Length-prefixed transport framing for the direct-mode byte stream.
//!
//! A frame is a 32-bit big-endian length followed by exactly that many
//! payload bytes. The length field is checked against `MAX_FRAME_LEN`
//! before any payload buffer is allocated, so an oversized length is
//! rejected cheaply with `FrameTooLarge`. A zero-length payload is a valid
//! frame.

use vstd::prelude::*;
use vstd::slice::{slice_subrange, slice_to_vec};

use crate::endian::{
    lemma_u32_be_bytes_roundtrip, read_u32_be, push_u32_be, spec_u32_from_be_bytes,
    spec_u32_to_be_bytes,
};
use crate::ChatError;

verus! {

/// The largest payload a frame may carry, in bytes.
pub const MAX_FRAME_LEN: usize = 65536;

/// The wire form of a frame: big-endian length, then the payload itself.
pub open spec fn spec_encode_frame(payload: Seq<u8>) -> Seq<u8>
    recommends
        payload.len() <= MAX_FRAME_LEN,
{
    spec_u32_to_be_bytes(payload.len() as u32) + payload
}

/// What decoding a complete frame yields.
///
/// Fewer than four bytes cannot even hold the header, and a length field
/// that disagrees with the bytes actually present means the stream ended
/// mid-frame: both read as a closed connection. A length over
/// `MAX_FRAME_LEN` is `FrameTooLarge`.
pub open spec fn spec_decode_frame(frame: Seq<u8>) -> Result<Seq<u8>, ChatError> {
    if frame.len() < 4 {
        Err(ChatError::ConnectionClosed)
    } else {
        let n = spec_u32_from_be_bytes(frame.subrange(0, 4));
        if n > MAX_FRAME_LEN {
            Err(ChatError::FrameTooLarge)
        } else if frame.len() != n + 4 {
            Err(ChatError::ConnectionClosed)
        } else {
            Ok(frame.subrange(4, frame.len() as int))
        }
    }
}

/// Encodes `payload` as one frame, refusing payloads over `MAX_FRAME_LEN`.
pub fn encode_frame(payload: &[u8]) -> (r: Result<Vec<u8>, ChatError>)
    ensures
        match r {
            Ok(f) => payload@.len() <= MAX_FRAME_LEN && f@ == spec_encode_frame(payload@),
            Err(e) => payload@.len() > MAX_FRAME_LEN && e == ChatError::FrameTooLarge,
        },
{
    if payload.len() > MAX_FRAME_LEN {
        return Err(ChatError::FrameTooLarge);
    }
    let mut out: Vec<u8> = Vec::new();
    push_u32_be(&mut out, payload.len() as u32);
    out.extend_from_slice(payload);
    Ok(out)
}

/// Decodes one complete frame, exactly as `spec_decode_frame` reads it.
///
/// The length field is validated before the payload buffer is built.
pub fn decode_frame(frame: &[u8]) -> (r: Result<Vec<u8>, ChatError>)
    ensures
        match r {
            Ok(p) => spec_decode_frame(frame@) == Ok::<Seq<u8>, ChatError>(p@),
            Err(e) => spec_decode_frame(frame@) == Err::<Seq<u8>, ChatError>(e),
        },
{
    if frame.len() < 4 {
        return Err(ChatError::ConnectionClosed);
    }
    let n = read_u32_be(frame, 0);
    if n as usize > MAX_FRAME_LEN {
        return Err(ChatError::FrameTooLarge);
    }
    if frame.len() - 4 != n as usize {
        return Err(ChatError::ConnectionClosed);
    }
    let payload = slice_to_vec(slice_subrange(frame, 4, frame.len()));
    Ok(payload)
}

/// Framing round-trip: decoding an encoded frame gives the payload back.
pub proof fn lemma_frame_roundtrip(payload: Seq<u8>)
    requires
        payload.len() <= MAX_FRAME_LEN,
    ensures
        spec_encode_frame(payload).len() == payload.len() + 4,
        spec_decode_frame(spec_encode_frame(payload)) == Ok::<Seq<u8>, ChatError>(payload),
{
    let f = spec_encode_frame(payload);
    lemma_u32_be_bytes_roundtrip(payload.len() as u32);
    assert(f.subrange(0, 4) =~= spec_u32_to_be_bytes(payload.len() as u32));
    assert(f.subrange(4, f.len() as int) =~= payload);
}

} // verus!
