//! Variable-length encoding of 32-bit integers.
//!
//! The extensible payload schema stores each identifier in little-endian
//! base-128 form: every byte carries seven value bits, least significant
//! group first, and its high bit says whether another byte follows. A 32-bit
//! value therefore occupies between one and five bytes.

use crate::error::Error;
use vstd::prelude::*;

verus! {

/// The canonical base-128 encoding of `x`.
pub open spec fn varint_of(x: u32) -> Seq<u8>
    decreases x,
{
    if x < 0x80 {
        seq![x as u8]
    } else {
        proof {
            assert(x >= 0x80 ==> (x >> 7) < x) by (bit_vector);
        }
        seq![((x & 0x7f) | 0x80) as u8] + varint_of(x >> 7)
    }
}

/// The concatenation of the encodings of every value in `ids`, in order.
pub open spec fn varints_of(ids: Seq<u32>) -> Seq<u8>
    decreases ids.len(),
{
    if ids.len() == 0 {
        Seq::empty()
    } else {
        varint_of(ids[0]) + varints_of(ids.skip(1))
    }
}

/// Concatenation distributes over appending a single value at the end.
pub proof fn lemma_varints_of_snoc(ids: Seq<u32>, x: u32)
    ensures
        varints_of(ids + seq![x]) == varints_of(ids) + varint_of(x),
    decreases ids.len(),
{
    if ids.len() == 0 {
        assert(ids + seq![x] =~= seq![x]);
        assert(seq![x].skip(1) =~= Seq::<u32>::empty());
        assert(varints_of(seq![x]) =~= varint_of(x) + varints_of(Seq::empty()));
        assert(varints_of(ids) + varint_of(x) =~= varint_of(x));
    } else {
        assert((ids + seq![x])[0] == ids[0]);
        assert((ids + seq![x]).skip(1) =~= ids.skip(1) + seq![x]);
        lemma_varints_of_snoc(ids.skip(1), x);
        assert(varints_of(ids + seq![x]) =~= varints_of(ids) + varint_of(x));
    }
}

/// The result of reading a stream of base-128 values from `p`, starting at
/// byte `i` in the middle of a value of which the groups below `shift` have
/// already been accumulated into `cur`, with the values `acc` already read.
///
/// A fresh parse of a whole payload starts at `i == 0` with empty `acc`,
/// `cur == 0` and `shift == 0`. The payload is structurally invalid if it
/// ends in the middle of a value or if a value overflows 32 bits.
pub open spec fn parse_ids_from(p: Seq<u8>, i: int, acc: Seq<u32>, cur: u32, shift: u32) -> Result<
    Seq<u32>,
    Error,
>
    decreases p.len() - i,
    when 0 <= i <= p.len()
{
    if i == p.len() {
        if shift == 0 {
            Ok(acc)
        } else {
            Err(Error::InvalidData)
        }
    } else {
        let b = p[i];
        if shift == 28 && b >= 0x10 {
            Err(Error::InvalidData)
        } else if shift > 28 {
            Err(Error::InvalidData)
        } else if b & 0x80 == 0x80 {
            parse_ids_from(p, i + 1, acc, cur | (((b & 0x7f) as u32) << shift), (shift + 7) as u32)
        } else {
            parse_ids_from(p, i + 1, acc.push(cur | ((b as u32) << shift)), 0, 0)
        }
    }
}

/// Appends the base-128 encoding of `x` to `out`.
pub fn push_varint(out: &mut Vec<u8>, x: u32)
    ensures
        final(out)@ == old(out)@ + varint_of(x),
{
    let ghost orig = out@;
    let mut cur: u32 = x;
    while cur >= 0x80
        invariant
            orig + varint_of(x) =~= out@ + varint_of(cur),
            out@.len() >= orig.len(),
        decreases cur,
    {
        let b: u8 = ((cur & 0x7f) as u8) | 0x80;
        proof {
            assert(((cur & 0x7f) as u8) | 0x80 == ((cur & 0x7f) | 0x80) as u8) by (bit_vector);
            assert(cur >= 0x80 ==> (cur >> 7) < cur) by (bit_vector);
        }
        out.push(b);
        cur = cur >> 7;
    }
    out.push(cur as u8);
    assert(out@ =~= orig + varint_of(x));
}

/// Reading the encoding of `x` from the middle of a stream finishes the value
/// under accumulation and goes on with a fresh one.
///
/// `shift` is a multiple of seven at which the groups of `x` begin; `x` must
/// fit in the bits that remain above `shift`, and `cur` holds bits only below
/// `shift`.
pub proof fn lemma_parse_varint(p: Seq<u8>, i: int, acc: Seq<u32>, cur: u32, shift: u32, x: u32)
    requires
        0 <= i,
        i + varint_of(x).len() <= p.len(),
        p.subrange(i, i + varint_of(x).len() as int) == varint_of(x),
        shift == 0 || shift == 7 || shift == 14 || shift == 21 || shift == 28,
        ((x << shift) >> shift) == x,
        (cur >> shift) == 0,
    ensures
        parse_ids_from(p, i, acc, cur, shift) == parse_ids_from(
            p,
            i + varint_of(x).len(),
            acc.push(cur | (x << shift)),
            0,
            0,
        ),
    decreases x,
{
    let b = p[i];
    assert(p.subrange(i, i + varint_of(x).len() as int)[0] == b);
    if x < 0x80 {
        assert(varint_of(x) =~= seq![x as u8]);
        assert(b == x as u8);
        assert(x < 0x80 ==> ((x as u8) & 0x80 != 0x80 && (x as u8) as u32 == x)) by (bit_vector);
        let s = shift;
        assert((s == 28 && ((x << s) >> s) == x && x < 0x80) ==> x < 0x10) by (bit_vector);
        assert(!(shift == 28 && b >= 0x10));
    } else {
        assert(varint_of(x) =~= seq![((x & 0x7f) | 0x80) as u8] + varint_of(x >> 7));
        assert(b == ((x & 0x7f) | 0x80) as u8);
        assert((((x & 0x7f) | 0x80) as u8) & 0x80 == 0x80) by (bit_vector);
        let s = shift;
        assert((s == 28 && ((x << s) >> s) == x) ==> x < 0x10) by (bit_vector);
        assert(shift != 28 && shift <= 21);
        let cur2 = cur | (((b & 0x7f) as u32) << shift);
        let shift2 = (shift + 7) as u32;
        let x2 = x >> 7;
        assert((((((x & 0x7f) | 0x80) as u8) & 0x7f) as u32) == (x & 0x7f)) by (bit_vector);
        assert(cur2 == cur | ((x & 0x7f) << shift));
        assert((s <= 21 && ((x << s) >> s) == x) ==> (((x >> 7) << ((s + 7) as u32)) >> ((s
            + 7) as u32)) == (x >> 7)) by (bit_vector);
        let c = cur;
        assert((s <= 21 && (c >> s) == 0) ==> ((c | ((x & 0x7f) << s)) >> ((s + 7) as u32)) == 0)
            by (bit_vector);
        assert(p.subrange(i + 1, i + 1 + varint_of(x2).len() as int) =~= varint_of(x2)) by {
            let whole = p.subrange(i, i + varint_of(x).len() as int);
            assert forall|k: int| 0 <= k < varint_of(x2).len() implies p.subrange(
                i + 1,
                i + 1 + varint_of(x2).len() as int,
            )[k] == varint_of(x2)[k] by {
                assert(whole[k + 1] == varint_of(x)[k + 1]);
            }
        }
        assert(x >= 0x80 ==> (x >> 7) < x) by (bit_vector);
        lemma_parse_varint(p, i + 1, acc, cur2, shift2, x2);
        assert((s <= 21 && (c >> s) == 0) ==> ((c | ((x & 0x7f) << s)) | ((x >> 7) << ((s
            + 7) as u32))) == (c | (x << s))) by (bit_vector);
        assert(acc.push(cur2 | (x2 << shift2)) == acc.push(cur | (x << shift)));
    }
}

/// A payload that is exactly the concatenated encodings of `ids` parses back
/// to `ids`, appended to whatever was accumulated before.
pub proof fn lemma_parse_varints(p: Seq<u8>, i: int, acc: Seq<u32>, ids: Seq<u32>)
    requires
        0 <= i,
        i + varints_of(ids).len() == p.len(),
        p.subrange(i, p.len() as int) == varints_of(ids),
    ensures
        parse_ids_from(p, i, acc, 0, 0) == Ok::<Seq<u32>, Error>(acc + ids),
    decreases ids.len(),
{
    if ids.len() == 0 {
        assert(i == p.len());
        assert(acc + ids =~= acc);
    } else {
        let x = ids[0];
        let k = varint_of(x).len() as int;
        assert(varints_of(ids) =~= varint_of(x) + varints_of(ids.skip(1)));
        assert(p.subrange(i, i + k) =~= varint_of(x)) by {
            assert forall|j: int| 0 <= j < k implies p.subrange(i, i + k)[j] == varint_of(x)[j] by {
                assert(p.subrange(i, p.len() as int)[j] == varints_of(ids)[j]);
            }
        }
        assert((x << 0u32) >> 0u32 == x) by (bit_vector);
        assert((0u32 >> 0u32) == 0) by (bit_vector);
        lemma_parse_varint(p, i, acc, 0, 0, x);
        assert(0u32 | (x << 0u32) == x) by (bit_vector);
        assert(p.subrange(i + k, p.len() as int) =~= varints_of(ids.skip(1))) by {
            assert forall|j: int| 0 <= j < varints_of(ids.skip(1)).len() implies p.subrange(
                i + k,
                p.len() as int,
            )[j] == varints_of(ids.skip(1))[j] by {
                assert(p.subrange(i, p.len() as int)[j + k] == varints_of(ids)[j + k]);
            }
        }
        lemma_parse_varints(p, i + k, acc.push(x), ids.skip(1));
        assert(acc.push(x) + ids.skip(1) =~= acc + ids);
    }
}

} // verus!
