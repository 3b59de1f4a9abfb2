//! Big-endian encodings of the fixed-width integers used on the wire.
//!
//! The direct-mode frame header stores its length as a 32-bit big-endian
//! integer, and the cipher session renders its nonce counter as a 64-bit
//! big-endian integer. Both encodings are defined here as spec functions,
//! with executable readers and writers proved against them and round-trip
//! lemmas that make the encodings injective.

use vstd::prelude::*;

verus! {

/// The four bytes of `x`, most significant first.
pub open spec fn spec_u32_to_be_bytes(x: u32) -> Seq<u8> {
    seq![
        ((x >> 24) & 0xff) as u8,
        ((x >> 16) & 0xff) as u8,
        ((x >> 8) & 0xff) as u8,
        (x & 0xff) as u8,
    ]
}

/// The integer whose big-endian bytes are `s`.
pub open spec fn spec_u32_from_be_bytes(s: Seq<u8>) -> u32
    recommends
        s.len() == 4,
{
    (((s[0] as u32) << 24) | ((s[1] as u32) << 16) | ((s[2] as u32) << 8) | (s[3] as u32))
}

/// The eight bytes of `x`, most significant first.
pub open spec fn spec_u64_to_be_bytes(x: u64) -> Seq<u8> {
    seq![
        ((x >> 56) & 0xff) as u8,
        ((x >> 48) & 0xff) as u8,
        ((x >> 40) & 0xff) as u8,
        ((x >> 32) & 0xff) as u8,
        ((x >> 24) & 0xff) as u8,
        ((x >> 16) & 0xff) as u8,
        ((x >> 8) & 0xff) as u8,
        (x & 0xff) as u8,
    ]
}

/// The integer whose big-endian bytes are `s`.
pub open spec fn spec_u64_from_be_bytes(s: Seq<u8>) -> u64
    recommends
        s.len() == 8,
{
    (((s[0] as u64) << 56) | ((s[1] as u64) << 48) | ((s[2] as u64) << 40) | ((s[3] as u64) << 32)
        | ((s[4] as u64) << 24) | ((s[5] as u64) << 16) | ((s[6] as u64) << 8) | (s[7] as u64))
}

/// Reading back the four bytes of `x` yields `x`: the encoding is injective.
pub proof fn lemma_u32_be_bytes_roundtrip(x: u32)
    ensures
        spec_u32_to_be_bytes(x).len() == 4,
        spec_u32_from_be_bytes(spec_u32_to_be_bytes(x)) == x,
{
    assert(((x >> 24) & 0xff) < 256 && ((x >> 16) & 0xff) < 256 && ((x >> 8) & 0xff) < 256 && (
    x & 0xff) < 256) by (bit_vector);
    assert(((((x >> 24) & 0xff) as u32) << 24) | ((((x >> 16) & 0xff) as u32) << 16) | ((((x >> 8)
        & 0xff) as u32) << 8) | (((x & 0xff) as u32)) == x) by (bit_vector);
}

/// Four bytes re-encode to themselves: the encoding is surjective onto
/// four-byte strings.
pub proof fn lemma_u32_be_bytes_identity(s: Seq<u8>)
    requires
        s.len() == 4,
    ensures
        spec_u32_to_be_bytes(spec_u32_from_be_bytes(s)) == s,
{
    let x = spec_u32_from_be_bytes(s);
    let s0 = s[0];
    let s1 = s[1];
    let s2 = s[2];
    let s3 = s[3];
    assert(((x >> 24) & 0xff) == s0 && ((x >> 16) & 0xff) == s1 && ((x >> 8) & 0xff) == s2 && (x
        & 0xff) == s3) by (bit_vector)
        requires
            x == (((s0 as u32) << 24) | ((s1 as u32) << 16) | ((s2 as u32) << 8) | (s3 as u32)),
    ;
    assert(spec_u32_to_be_bytes(x) =~= s);
}

/// Reading back the eight bytes of `x` yields `x`: the encoding is injective.
pub proof fn lemma_u64_be_bytes_roundtrip(x: u64)
    ensures
        spec_u64_to_be_bytes(x).len() == 8,
        spec_u64_from_be_bytes(spec_u64_to_be_bytes(x)) == x,
{
    assert(((x >> 56) & 0xff) < 256 && ((x >> 48) & 0xff) < 256 && ((x >> 40) & 0xff) < 256 && ((x
        >> 32) & 0xff) < 256 && ((x >> 24) & 0xff) < 256 && ((x >> 16) & 0xff) < 256 && ((x >> 8)
        & 0xff) < 256 && (x & 0xff) < 256) by (bit_vector);
    assert(((((x >> 56) & 0xff) as u64) << 56) | ((((x >> 48) & 0xff) as u64) << 48) | ((((x >> 40)
        & 0xff) as u64) << 40) | ((((x >> 32) & 0xff) as u64) << 32) | ((((x >> 24) & 0xff) as u64)
        << 24) | ((((x >> 16) & 0xff) as u64) << 16) | ((((x >> 8) & 0xff) as u64) << 8) | (((x
        & 0xff) as u64)) == x) by (bit_vector);
}

/// Appends the big-endian bytes of `x` to `out`.
pub fn push_u32_be(out: &mut Vec<u8>, x: u32)
    ensures
        final(out)@ == old(out)@ + spec_u32_to_be_bytes(x),
{
    proof {
        assert(((x >> 24) & 0xff) < 256 && ((x >> 16) & 0xff) < 256 && ((x >> 8) & 0xff) < 256 && (
        x & 0xff) < 256) by (bit_vector);
    }
    out.push(((x >> 24) & 0xff) as u8);
    out.push(((x >> 16) & 0xff) as u8);
    out.push(((x >> 8) & 0xff) as u8);
    out.push((x & 0xff) as u8);
    proof {
        assert(out@ =~= old(out)@ + spec_u32_to_be_bytes(x));
    }
}

/// Appends the big-endian bytes of `x` to `out`.
pub fn push_u64_be(out: &mut Vec<u8>, x: u64)
    ensures
        final(out)@ == old(out)@ + spec_u64_to_be_bytes(x),
{
    proof {
        assert(((x >> 56) & 0xff) < 256 && ((x >> 48) & 0xff) < 256 && ((x >> 40) & 0xff) < 256
            && ((x >> 32) & 0xff) < 256 && ((x >> 24) & 0xff) < 256 && ((x >> 16) & 0xff) < 256
            && ((x >> 8) & 0xff) < 256 && (x & 0xff) < 256) by (bit_vector);
    }
    out.push(((x >> 56) & 0xff) as u8);
    out.push(((x >> 48) & 0xff) as u8);
    out.push(((x >> 40) & 0xff) as u8);
    out.push(((x >> 32) & 0xff) as u8);
    out.push(((x >> 24) & 0xff) as u8);
    out.push(((x >> 16) & 0xff) as u8);
    out.push(((x >> 8) & 0xff) as u8);
    out.push((x & 0xff) as u8);
    proof {
        assert(out@ =~= old(out)@ + spec_u64_to_be_bytes(x));
    }
}

/// Reads the big-endian 32-bit integer stored at `s[i..i + 4]`.
pub fn read_u32_be(s: &[u8], i: usize) -> (x: u32)
    requires
        i + 4 <= s@.len(),
    ensures
        x == spec_u32_from_be_bytes(s@.subrange(i as int, i + 4)),
{
    let x = (((s[i] as u32) << 24) | ((s[i + 1] as u32) << 16) | ((s[i + 2] as u32) << 8) | (s[i
        + 3] as u32));
    proof {
        let sub = s@.subrange(i as int, i + 4);
        assert(sub[0] == s@[i as int] && sub[1] == s@[i + 1] && sub[2] == s@[i + 2] && sub[3]
            == s@[i + 3]);
    }
    x
}

} // verus!
