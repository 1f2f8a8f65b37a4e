//! The guarantees the codec gives as a whole, stated over the wire model
//! and proved once for every message and every buffer.

use crate::crc::{crc16_of, lemma_crc16_single_diff};
use crate::error::Error;
use crate::header::HEADER_SIZE;
use crate::message::{
    max_encoded_size, spec_crc_region, spec_decode, spec_encodable, spec_frame, spec_payload,
    spec_type_of, MessageType, MessageView,
};
use crate::varint::lemma_parse_varints;
use crate::wire::{
    le16_bytes, le16_value, le32_bytes, lemma_le16_roundtrip, lemma_le32_roundtrip,
};
use crate::PACKET_SIZE_MAX;
use vstd::prelude::*;

verus! {

/// How the bytes of a frame break down into its fields.
proof fn lemma_frame_anatomy(v: MessageView)
    ensures
        ({
            let s = spec_frame(v);
            let payload = spec_payload(v);
            &&& s.len() == HEADER_SIZE + payload.len()
            &&& s[0] == 0x01
            &&& s.subrange(1, 3) == le16_bytes(payload.len() as u16)
            &&& s[3] == spec_type_of(v).spec_byte()
            &&& s.subrange(4, 6) == le16_bytes(crc16_of(spec_crc_region(v)))
            &&& s.subrange(HEADER_SIZE as int, s.len() as int) == payload
            &&& s.subrange(0, 4) + payload == spec_crc_region(v)
        }),
{
    let s = spec_frame(v);
    let payload = spec_payload(v);
    assert(s.subrange(1, 3) =~= le16_bytes(payload.len() as u16));
    assert(s.subrange(4, 6) =~= le16_bytes(crc16_of(spec_crc_region(v))));
    assert(s.subrange(HEADER_SIZE as int, s.len() as int) =~= payload);
    assert(s.subrange(0, 4) + payload =~= spec_crc_region(v));
}

/// Truncation: a buffer too short to contain even a header is always
/// rejected as such, before anything is read from it.
pub proof fn lemma_truncated_rejected(s: Seq<u8>)
    requires
        s.len() < HEADER_SIZE,
    ensures
        spec_decode(s) == Err::<MessageView, Error>(Error::InvalidBufferSize),
{
}

/// Rejection ordering: the version byte is judged first, so a buffer with
/// an unrecognized version fails with that version byte even if every later
/// field is invalid too.
pub proof fn lemma_version_checked_first(s: Seq<u8>)
    requires
        s.len() >= HEADER_SIZE,
        s[0] != 0x01,
    ensures
        spec_decode(s) == Err::<MessageView, Error>(Error::UnknownVersion(s[0])),
{
}

/// Rejection ordering, second step: with a recognized version, an
/// unrecognized tag byte is reported next, before length, checksum or
/// payload are interpreted.
pub proof fn lemma_tag_checked_second(s: Seq<u8>)
    requires
        s.len() >= HEADER_SIZE,
        s[0] == 0x01,
        s[3] != 0x01 && s[3] != 0x02 && s[3] != 0x03,
    ensures
        spec_decode(s) == Err::<MessageView, Error>(Error::UnknownMessageType(s[3])),
{
}

/// Size invariant: every schema's worst-case payload, together with the
/// header, fits the packet budget; and an encodable message never exceeds
/// its schema's worst case.
pub proof fn lemma_size_invariant()
    ensures
        forall|t: MessageType| HEADER_SIZE + #[trigger] max_encoded_size(t) <= PACKET_SIZE_MAX,
        forall|v: MessageView|
            spec_encodable(v) ==> #[trigger] spec_payload(v).len() <= max_encoded_size(
                spec_type_of(v),
            ),
{
    assert forall|v: MessageView| spec_encodable(v) implies #[trigger] spec_payload(v).len()
        <= max_encoded_size(spec_type_of(v)) by {
        match v {
            MessageView::Heartbeat { .. } => {
                assert(spec_payload(v).len() == 4);
            },
            MessageView::Request { .. } => {
            },
            MessageView::GNSS { .. } => {
                assert(spec_payload(v).len() == 12);
            },
        }
    }
}

/// Round trip: the frame of any encodable message decodes back to exactly
/// that message, also when followed by unrelated trailing bytes.
pub proof fn lemma_round_trip(v: MessageView, s: Seq<u8>)
    requires
        spec_encodable(v),
        spec_frame(v).len() <= s.len(),
        s.subrange(0, spec_frame(v).len() as int) == spec_frame(v),
    ensures
        spec_decode(s) == Ok::<MessageView, Error>(v),
{
    let frame = spec_frame(v);
    let payload = spec_payload(v);
    let plen = payload.len() as int;
    lemma_frame_anatomy(v);
    assert(s[0] == frame[0]) by {
        assert(s.subrange(0, frame.len() as int)[0] == frame[0]);
    }
    assert(s[3] == frame[3]) by {
        assert(s.subrange(0, frame.len() as int)[3] == frame[3]);
    }
    assert(s.subrange(1, 3) =~= frame.subrange(1, 3)) by {
        assert(s.subrange(0, frame.len() as int)[1] == frame[1]);
        assert(s.subrange(0, frame.len() as int)[2] == frame[2]);
    }
    assert(s.subrange(4, 6) =~= frame.subrange(4, 6)) by {
        assert(s.subrange(0, frame.len() as int)[4] == frame[4]);
        assert(s.subrange(0, frame.len() as int)[5] == frame[5]);
    }
    lemma_le16_roundtrip(payload.len() as u16);
    lemma_le16_roundtrip(crc16_of(spec_crc_region(v)));
    assert(spec_type_of(v).spec_byte() == 1 || spec_type_of(v).spec_byte() == 2 || spec_type_of(
        v,
    ).spec_byte() == 3);
    assert(MessageType::spec_of_byte(spec_type_of(v).spec_byte()) == Ok::<MessageType, Error>(
        spec_type_of(v),
    ));
    assert(s.subrange(HEADER_SIZE as int, HEADER_SIZE + plen) =~= payload) by {
        assert forall|j: int| 0 <= j < plen implies s.subrange(
            HEADER_SIZE as int,
            HEADER_SIZE + plen,
        )[j] == payload[j] by {
            assert(s.subrange(0, frame.len() as int)[j + HEADER_SIZE] == frame[j + HEADER_SIZE]);
        }
    }
    assert(s.subrange(0, 4) =~= frame.subrange(0, 4)) by {
        assert forall|j: int| 0 <= j < 4 implies s.subrange(0, 4)[j] == frame.subrange(0, 4)[j] by {
            assert(s.subrange(0, frame.len() as int)[j] == frame[j]);
        }
    }
    assert(frame.subrange(0, 4) =~= spec_frame(v).subrange(0, 4));
    assert(s.subrange(0, 4) + payload == spec_crc_region(v)) by {
        assert(frame.subrange(0, 4) + payload == spec_crc_region(v)) by {
            assert(frame.subrange(0, 4) + payload =~= frame.subrange(0, 4) + payload);
        }
    }
    match v {
        MessageView::Heartbeat { uptime } => {
            lemma_le32_roundtrip(uptime);
        },
        MessageView::Request { packet_ids } => {
            assert(payload.subrange(0, payload.len() as int) =~= payload);
            lemma_parse_varints(payload, 0, Seq::empty(), packet_ids);
            assert(Seq::empty() + packet_ids =~= packet_ids);
            assert(MessageView::Request { packet_ids: Seq::empty() + packet_ids } =~= v);
        },
        MessageView::GNSS { latitude, longitude, altitude } => {
            assert(payload.subrange(0, 4) =~= le32_bytes(latitude));
            assert(payload.subrange(4, 8) =~= le32_bytes(longitude));
            assert(payload.subrange(8, 12) =~= le32_bytes(altitude));
            lemma_le32_roundtrip(latitude);
            lemma_le32_roundtrip(longitude);
            lemma_le32_roundtrip(altitude);
        },
    }
}

/// `s` with bit `i` of byte `k` inverted.
pub open spec fn spec_flip_bit(s: Seq<u8>, k: int, i: int) -> Seq<u8> {
    s.update(k, s[k] ^ (1u8 << i as u8))
}

/// Inverting a bit always changes the byte.
proof fn lemma_flip_changes_byte(b: u8, i: int)
    requires
        0 <= i < 8,
    ensures
        b ^ (1u8 << i as u8) != b,
{
    let j = i as u8;
    assert(j < 8 ==> b ^ (1u8 << j) != b) by (bit_vector);
}

/// Two byte pairs that differ denote different 16-bit values.
proof fn lemma_le16_byte_diff(x0: u8, x1: u8, y0: u8, y1: u8)
    requires
        x0 != y0 || x1 != y1,
    ensures
        le16_value(seq![x0, x1]) != le16_value(seq![y0, y1]),
{
    assert(((x0 as u16) | ((x1 as u16) << 8)) == ((y0 as u16) | ((y1 as u16) << 8)) ==> x0 == y0
        && x1 == y1) by (bit_vector);
}

/// CRC sensitivity: inverting any single bit of a valid frame outside the
/// length field makes decoding fail; no flipped frame is ever accepted as
/// some other message.
///
/// A flip in the version or tag byte is caught by header validation or by
/// the checksum; a flip in the payload is caught by the checksum; a flip in
/// the checksum field itself no longer matches the recomputed value.
pub proof fn lemma_bit_flip_rejected(v: MessageView, k: int, i: int)
    requires
        spec_encodable(v),
        0 <= k < spec_frame(v).len(),
        0 <= i < 8,
        k != 1 && k != 2,
    ensures
        spec_decode(spec_flip_bit(spec_frame(v), k, i)) is Err,
        k == 0 ==> spec_decode(spec_flip_bit(spec_frame(v), k, i)) == Err::<MessageView, Error>(
            Error::UnknownVersion(spec_flip_bit(spec_frame(v), k, i)[0]),
        ),
        k >= 4 ==> spec_decode(spec_flip_bit(spec_frame(v), k, i)) == Err::<MessageView, Error>(
            Error::InvalidCRC16,
        ),
{
    let s = spec_frame(v);
    let s2 = spec_flip_bit(s, k, i);
    let payload = spec_payload(v);
    let plen = payload.len() as int;
    let region = spec_crc_region(v);
    let crc = crc16_of(region);
    lemma_frame_anatomy(v);
    lemma_flip_changes_byte(s[k], i);
    assert(s2.len() == s.len());
    if k == 0 {
        assert(s2[0] != 0x01);
    } else {
        assert(s2[0] == 0x01);
        lemma_le16_roundtrip(payload.len() as u16);
        lemma_le16_roundtrip(crc);
        if k == 3 {
            let b2 = s2[3];
            if b2 == 1 || b2 == 2 || b2 == 3 {
                assert(s2.subrange(1, 3) =~= s.subrange(1, 3));
                assert(s2.subrange(4, 6) =~= s.subrange(4, 6));
                assert(s2.subrange(HEADER_SIZE as int, HEADER_SIZE + plen) =~= payload);
                let region2 = s2.subrange(0, 4) + payload;
                assert(region2.len() == region.len());
                assert(region2[3] == b2 && region[3] == s[3]);
                assert(forall|j: int|
                    0 <= j < region.len() && j != 3 ==> region2[j] == region[j]);
                lemma_crc16_single_diff(region, region2, 3);
            }
        } else if k == 4 || k == 5 {
            assert(s2[3] == s[3]);
            assert(s2.subrange(1, 3) =~= s.subrange(1, 3));
            assert(s2.subrange(HEADER_SIZE as int, HEADER_SIZE + plen) =~= payload);
            let region2 = s2.subrange(0, 4) + payload;
            assert(region2 =~= region);
            let c0 = s.subrange(4, 6)[0];
            let c1 = s.subrange(4, 6)[1];
            let d0 = s2.subrange(4, 6)[0];
            let d1 = s2.subrange(4, 6)[1];
            assert(d0 != c0 || d1 != c1);
            lemma_le16_byte_diff(d0, d1, c0, c1);
            assert(s2.subrange(4, 6) =~= seq![d0, d1]);
            assert(s.subrange(4, 6) =~= seq![c0, c1]);
            assert(le16_value(s2.subrange(4, 6)) != crc);
        } else {
            assert(s2[3] == s[3]);
            assert(s2.subrange(1, 3) =~= s.subrange(1, 3));
            assert(s2.subrange(4, 6) =~= s.subrange(4, 6));
            let payload2 = s2.subrange(HEADER_SIZE as int, HEADER_SIZE + plen);
            let region2 = s2.subrange(0, 4) + payload2;
            assert(region2.len() == region.len());
            assert(region2[4 + (k - HEADER_SIZE)] == s2[k] && region[4 + (k - HEADER_SIZE)]
                == s[k]);
            assert(forall|j: int|
                0 <= j < region.len() && j != 4 + (k - HEADER_SIZE) ==> region2[j] == region[j]);
            lemma_crc16_single_diff(region, region2, 4 + (k - HEADER_SIZE));
        }
    }
}

/// CRC sensitivity, length field, fixed-width schemas: for a heartbeat or
/// geolocation frame even a flip inside the length field is always
/// rejected, because a changed length either breaks the packet bounds, or
/// moves the checksummed region, or leaves the fixed-width payload with the
/// wrong byte count.
pub proof fn lemma_length_flip_rejected(v: MessageView, k: int, i: int)
    requires
        spec_encodable(v),
        spec_type_of(v) != MessageType::Request,
        k == 1 || k == 2,
        0 <= i < 8,
    ensures
        spec_decode(spec_flip_bit(spec_frame(v), k, i)) is Err,
{
    let s = spec_frame(v);
    let s2 = spec_flip_bit(s, k, i);
    let payload = spec_payload(v);
    let plen = payload.len() as int;
    let region = spec_crc_region(v);
    let crc = crc16_of(region);
    lemma_frame_anatomy(v);
    lemma_flip_changes_byte(s[k], i);
    assert(s2.len() == s.len());
    assert(s2[0] == 0x01);
    assert(s2[3] == s[3]);
    assert(s2.subrange(4, 6) =~= s.subrange(4, 6));
    lemma_le16_roundtrip(payload.len() as u16);
    lemma_le16_roundtrip(crc);
    let l0 = s.subrange(1, 3)[0];
    let l1 = s.subrange(1, 3)[1];
    let m0 = s2.subrange(1, 3)[0];
    let m1 = s2.subrange(1, 3)[1];
    assert(m0 != l0 || m1 != l1);
    lemma_le16_byte_diff(m0, m1, l0, l1);
    assert(s2.subrange(1, 3) =~= seq![m0, m1]);
    assert(s.subrange(1, 3) =~= seq![l0, l1]);
    let len2 = le16_value(s2.subrange(1, 3)) as int;
    assert(len2 != plen);
    if HEADER_SIZE + len2 <= PACKET_SIZE_MAX && s2.len() >= HEADER_SIZE + len2 {
        assert(len2 < plen);
        let payload2 = s2.subrange(HEADER_SIZE as int, HEADER_SIZE + len2);
        assert(payload2.len() == len2);
        match v {
            MessageView::Heartbeat { .. } => {
                assert(plen == 4);
                assert(payload2.len() < 4);
            },
            MessageView::GNSS { .. } => {
                assert(plen == 12);
                assert(payload2.len() < 12);
            },
            MessageView::Request { .. } => {
                assert(false);
            },
        }
    }
}

} // verus!
