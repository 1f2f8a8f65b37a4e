//! CRC-16 integrity checksum.
//!
//! The protocol uses the CRC-16/CCITT-FALSE parameters: polynomial `0x1021`
//! (`x^16 + x^12 + x^5 + 1`), initial value `0xFFFF`, most-significant bit
//! first, no reflection and no final xor. The checksum of a frame is computed
//! over the header's non-checksum bytes concatenated with the payload bytes.

use vstd::prelude::*;

verus! {

/// One shift step of the CRC register: shift left and, if a one bit fell out,
/// fold in the polynomial.
pub open spec fn crc_shift(c: u16) -> u16 {
    if c & 0x8000 != 0 {
        (c << 1) ^ 0x1021
    } else {
        c << 1
    }
}

/// `n` shift steps of the CRC register.
pub open spec fn crc_shift_n(c: u16, n: nat) -> u16
    decreases n,
{
    if n == 0 {
        c
    } else {
        crc_shift(crc_shift_n(c, (n - 1) as nat))
    }
}

/// Folding one byte into the CRC register: xor it into the high half, then
/// shift eight times.
pub open spec fn crc_add_byte(c: u16, b: u8) -> u16 {
    crc_shift_n(c ^ ((b as u16) << 8), 8)
}

/// Folding a byte sequence into the CRC register, left to right.
pub open spec fn crc_fold(c: u16, s: Seq<u8>) -> u16
    decreases s.len(),
{
    if s.len() == 0 {
        c
    } else {
        crc_fold(crc_add_byte(c, s[0]), s.skip(1))
    }
}

/// The CRC-16 checksum of a byte sequence.
pub open spec fn crc16_of(s: Seq<u8>) -> u16 {
    crc_fold(0xFFFF, s)
}

/// Folding distributes over appending a single byte at the end.
pub proof fn lemma_crc_fold_snoc(c: u16, s: Seq<u8>, b: u8)
    ensures
        crc_fold(c, s + seq![b]) == crc_add_byte(crc_fold(c, s), b),
    decreases s.len(),
{
    if s.len() == 0 {
        assert(s + seq![b] =~= seq![b]);
        assert(seq![b].skip(1) =~= Seq::<u8>::empty());
        assert(crc_fold(c, seq![b]) == crc_fold(crc_add_byte(c, b), seq![b].skip(1)));
    } else {
        assert((s + seq![b])[0] == s[0]);
        assert((s + seq![b]).skip(1) =~= s.skip(1) + seq![b]);
        lemma_crc_fold_snoc(crc_add_byte(c, s[0]), s.skip(1), b);
    }
}

/// A shift step loses no information: equal outputs come from equal inputs.
proof fn lemma_crc_shift_injective(c1: u16, c2: u16)
    requires
        crc_shift(c1) == crc_shift(c2),
    ensures
        c1 == c2,
{
    assert((if c1 & 0x8000 != 0 {
        (c1 << 1) ^ 0x1021
    } else {
        c1 << 1
    }) == (if c2 & 0x8000 != 0 {
        (c2 << 1) ^ 0x1021
    } else {
        c2 << 1
    }) ==> c1 == c2) by (bit_vector);
}

/// Iterated shift steps lose no information.
proof fn lemma_crc_shift_n_injective(c1: u16, c2: u16, n: nat)
    requires
        crc_shift_n(c1, n) == crc_shift_n(c2, n),
    ensures
        c1 == c2,
    decreases n,
{
    if n != 0 {
        lemma_crc_shift_injective(crc_shift_n(c1, (n - 1) as nat), crc_shift_n(c2, (n - 1) as nat));
        lemma_crc_shift_n_injective(c1, c2, (n - 1) as nat);
    }
}

/// Folding the same byte into different register states keeps them
/// different.
proof fn lemma_crc_add_byte_state(c1: u16, c2: u16, b: u8)
    requires
        c1 != c2,
    ensures
        crc_add_byte(c1, b) != crc_add_byte(c2, b),
{
    if crc_add_byte(c1, b) == crc_add_byte(c2, b) {
        lemma_crc_shift_n_injective(c1 ^ ((b as u16) << 8), c2 ^ ((b as u16) << 8), 8);
        assert(c1 ^ ((b as u16) << 8) == c2 ^ ((b as u16) << 8) ==> c1 == c2) by (bit_vector);
    }
}

/// Folding different bytes into the same register state drives them apart.
proof fn lemma_crc_add_byte_byte(c: u16, b1: u8, b2: u8)
    requires
        b1 != b2,
    ensures
        crc_add_byte(c, b1) != crc_add_byte(c, b2),
{
    if crc_add_byte(c, b1) == crc_add_byte(c, b2) {
        lemma_crc_shift_n_injective(c ^ ((b1 as u16) << 8), c ^ ((b2 as u16) << 8), 8);
        assert(c ^ ((b1 as u16) << 8) == c ^ ((b2 as u16) << 8) ==> b1 == b2) by (bit_vector);
    }
}

/// Folding the same bytes into different register states keeps them
/// different.
proof fn lemma_crc_fold_state(c1: u16, c2: u16, s: Seq<u8>)
    requires
        c1 != c2,
    ensures
        crc_fold(c1, s) != crc_fold(c2, s),
    decreases s.len(),
{
    if s.len() != 0 {
        lemma_crc_add_byte_state(c1, c2, s[0]);
        lemma_crc_fold_state(crc_add_byte(c1, s[0]), crc_add_byte(c2, s[0]), s.skip(1));
    }
}

/// The checksum detects every single-byte difference: two equally long
/// sequences that differ in exactly one byte never share a checksum.
pub proof fn lemma_crc16_single_diff(s1: Seq<u8>, s2: Seq<u8>, k: int)
    requires
        s1.len() == s2.len(),
        0 <= k < s1.len(),
        s1[k] != s2[k],
        forall|j: int| 0 <= j < s1.len() && j != k ==> s1[j] == s2[j],
    ensures
        crc16_of(s1) != crc16_of(s2),
{
    lemma_crc_fold_diff(0xFFFF, s1, s2, k);
}

/// Folding two sequences that differ in exactly one byte from a common
/// register state always ends in different states.
proof fn lemma_crc_fold_diff(c: u16, s1: Seq<u8>, s2: Seq<u8>, k: int)
    requires
        s1.len() == s2.len(),
        0 <= k < s1.len(),
        s1[k] != s2[k],
        forall|j: int| 0 <= j < s1.len() && j != k ==> s1[j] == s2[j],
    ensures
        crc_fold(c, s1) != crc_fold(c, s2),
    decreases s1.len(),
{
    if k == 0 {
        lemma_crc_add_byte_byte(c, s1[0], s2[0]);
        assert(s1.skip(1) =~= s2.skip(1));
        lemma_crc_fold_state(crc_add_byte(c, s1[0]), crc_add_byte(c, s2[0]), s1.skip(1));
    } else {
        assert(s1[0] == s2[0]);
        assert(forall|j: int|
            0 <= j < s1.skip(1).len() && j != k - 1 ==> s1.skip(1)[j] == s2.skip(1)[j]);
        lemma_crc_fold_diff(crc_add_byte(c, s1[0]), s1.skip(1), s2.skip(1), k - 1);
    }
}

/// Computes the CRC-16 checksum of `data`.
pub fn crc16_compute(data: &Vec<u8>) -> (c: u16)
    ensures
        c == crc16_of(data@),
{
    let mut crc: u16 = 0xFFFF;
    let mut i: usize = 0;
    while i < data.len()
        invariant
            i <= data.len(),
            crc == crc_fold(0xFFFF, data@.take(i as int)),
        decreases data.len() - i,
    {
        let b = data[i];
        crc = crc ^ ((b as u16) << 8);
        let ghost entry = crc;
        let mut k: usize = 0;
        while k < 8
            invariant
                k <= 8,
                crc == crc_shift_n(entry, k as nat),
            decreases 8 - k,
        {
            if crc & 0x8000 != 0 {
                crc = (crc << 1) ^ 0x1021;
            } else {
                crc = crc << 1;
            }
            k = k + 1;
        }
        proof {
            lemma_crc_fold_snoc(0xFFFF, data@.take(i as int), b);
            assert(data@.take(i as int) + seq![b] =~= data@.take(i + 1));
        }
        i = i + 1;
    }
    proof {
        assert(data@.take(data@.len() as int) =~= data@);
    }
    crc
}

} // verus!
