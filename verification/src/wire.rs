//! Little-endian wire encoding of fixed-width integers.
//!
//! Every multi-byte numeric field of the protocol — the header's length and
//! checksum fields and the fixed-width payload fields — is written least
//! significant byte first.

use vstd::prelude::*;

verus! {

/// The two little-endian bytes of a 16-bit value.
pub open spec fn le16_bytes(x: u16) -> Seq<u8> {
    seq![(x & 0xff) as u8, ((x >> 8) & 0xff) as u8]
}

/// The 16-bit value denoted by two little-endian bytes.
pub open spec fn le16_value(s: Seq<u8>) -> u16
    recommends
        s.len() == 2,
{
    (s[0] as u16) | ((s[1] as u16) << 8)
}

/// The four little-endian bytes of a 32-bit value.
pub open spec fn le32_bytes(x: u32) -> Seq<u8> {
    seq![
        (x & 0xff) as u8,
        ((x >> 8) & 0xff) as u8,
        ((x >> 16) & 0xff) as u8,
        ((x >> 24) & 0xff) as u8,
    ]
}

/// The 32-bit value denoted by four little-endian bytes.
pub open spec fn le32_value(s: Seq<u8>) -> u32
    recommends
        s.len() == 4,
{
    (s[0] as u32) | ((s[1] as u32) << 8) | ((s[2] as u32) << 16) | ((s[3] as u32) << 24)
}

/// Reading back the bytes of a 16-bit value yields the value.
pub proof fn lemma_le16_roundtrip(x: u16)
    ensures
        le16_value(le16_bytes(x)) == x,
{
    assert((((x & 0xff) as u8) as u16) | ((((x >> 8) & 0xff) as u8) as u16) << 8 == x)
        by (bit_vector);
}

/// Reading back the bytes of a 32-bit value yields the value.
pub proof fn lemma_le32_roundtrip(x: u32)
    ensures
        le32_value(le32_bytes(x)) == x,
{
    assert((((x & 0xff) as u8) as u32) | ((((x >> 8) & 0xff) as u8) as u32) << 8 | ((((x >> 16)
        & 0xff) as u8) as u32) << 16 | ((((x >> 24) & 0xff) as u8) as u32) << 24 == x)
        by (bit_vector);
}

/// Two equally long sequences that agree from position `a` on also agree
/// from any later position on.
pub proof fn lemma_skip_more(s: Seq<u8>, t: Seq<u8>, a: int, b: int)
    requires
        0 <= a <= b <= s.len(),
        s.len() == t.len(),
        s.skip(a) == t.skip(a),
    ensures
        s.skip(b) == t.skip(b),
{
    assert forall|m: int| 0 <= m < s.len() - b implies s.skip(b)[m] == t.skip(b)[m] by {
        assert(s.skip(a)[m + b - a] == t.skip(a)[m + b - a]);
    }
    assert(s.skip(b) =~= t.skip(b));
}

/// Appends the two little-endian bytes of `x` to `out`.
pub fn push_le16(out: &mut Vec<u8>, x: u16)
    ensures
        final(out)@ == old(out)@ + le16_bytes(x),
{
    out.push((x & 0xff) as u8);
    out.push(((x >> 8) & 0xff) as u8);
    assert(out@ =~= old(out)@ + le16_bytes(x));
}

/// Appends the four little-endian bytes of `x` to `out`.
pub fn push_le32(out: &mut Vec<u8>, x: u32)
    ensures
        final(out)@ == old(out)@ + le32_bytes(x),
{
    out.push((x & 0xff) as u8);
    out.push(((x >> 8) & 0xff) as u8);
    out.push(((x >> 16) & 0xff) as u8);
    out.push(((x >> 24) & 0xff) as u8);
    assert(out@ =~= old(out)@ + le32_bytes(x));
}

/// Reads a 16-bit little-endian value from `buf` at offset `i`.
pub fn read_le16(buf: &Vec<u8>, i: usize) -> (x: u16)
    requires
        i + 2 <= buf.len(),
    ensures
        x == le16_value(buf@.subrange(i as int, i + 2)),
{
    let x = (buf[i] as u16) | ((buf[i + 1] as u16) << 8);
    proof {
        let s = buf@.subrange(i as int, i + 2);
        assert(s[0] == buf@[i as int] && s[1] == buf@[i + 1]);
    }
    x
}

/// Reads a 32-bit little-endian value from `buf` at offset `i`.
pub fn read_le32(buf: &Vec<u8>, i: usize) -> (x: u32)
    requires
        i + 4 <= buf.len(),
    ensures
        x == le32_value(buf@.subrange(i as int, i + 4)),
{
    let x = (buf[i] as u32) | ((buf[i + 1] as u32) << 8) | ((buf[i + 2] as u32) << 16) | ((buf[i
        + 3] as u32) << 24);
    proof {
        let s = buf@.subrange(i as int, i + 4);
        assert(s[0] == buf@[i as int] && s[1] == buf@[i + 1] && s[2] == buf@[i + 2] && s[3]
            == buf@[i + 3]);
    }
    x
}

} // verus!
