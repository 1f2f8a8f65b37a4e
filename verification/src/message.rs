//! The message registry: the closed set of payload schemas.
//!
//! Each schema has a stable one-byte tag and a payload encoding of its own.
//! Fixed-width schemas write their fields little-endian; the extensible
//! [`Request`] schema stores its identifiers in variable-length base-128
//! form, so its payload is exactly as long as its contents require.

use crate::crc::{crc16_compute, crc16_of};
use crate::error::Error;
use crate::header::{spec_header_bytes, spec_header_decode, Header, HEADER_SIZE};
use crate::varint::{
    lemma_varints_of_snoc, parse_ids_from, push_varint, varints_of,
};
use crate::version::ProtocolVersion;
use crate::wire::{
    le16_bytes, le32_bytes, le32_value, lemma_skip_more, push_le16, push_le32, read_le32,
};
use crate::PACKET_SIZE_MAX;
use vstd::prelude::*;

verus! {

/// The payload byte budget of a single message: what remains of
/// [`crate::PACKET_SIZE_MAX`] once the header is accounted for.
pub const MESSAGE_SIZE_MAX: usize = crate::PACKET_SIZE_MAX - crate::header::HEADER_SIZE;

/// A device uptime report. Fixed-width payload: the counter in four
/// little-endian bytes.
#[derive(Debug, PartialEq, Eq, Clone, Copy, Structural)]
pub struct Heartbeat {
    pub uptime: u32,
}

/// A request that the peer start or continue sending the listed message
/// kinds. Extensible payload: each identifier in base-128 form, in order,
/// bounded only by the payload byte budget.
#[derive(Debug, PartialEq, Eq, Clone)]
pub struct Request {
    pub packet_ids: Vec<u32>,
}

/// A geolocation fix. Fixed-width payload: three 32-bit words, each four
/// little-endian bytes. The words carry the IEEE 754 single-precision bit
/// patterns of latitude, longitude and altitude; the codec moves them as
/// opaque 32-bit values, so any bit pattern round-trips unchanged.
#[derive(Debug, PartialEq, Eq, Clone, Copy, Structural)]
pub struct GNSS {
    pub latitude: u32,
    pub longitude: u32,
    pub altitude: u32,
}

/// The one-byte tag selecting a payload schema; the authoritative source of
/// decode dispatch.
#[derive(Debug, PartialEq, Eq, Clone, Copy, Structural)]
pub enum MessageType {
    Heartbeat,
    Request,
    GNSS,
}

impl MessageType {
    /// The wire byte of this tag.
    pub open spec fn spec_byte(self) -> u8 {
        match self {
            MessageType::Heartbeat => 0x01,
            MessageType::Request => 0x02,
            MessageType::GNSS => 0x03,
        }
    }

    /// Which tags a byte denotes; bytes outside the closed set are rejected
    /// with the offending byte.
    pub open spec fn spec_of_byte(b: u8) -> Result<MessageType, Error> {
        if b == 0x01 {
            Ok(MessageType::Heartbeat)
        } else if b == 0x02 {
            Ok(MessageType::Request)
        } else if b == 0x03 {
            Ok(MessageType::GNSS)
        } else {
            Err(Error::UnknownMessageType(b))
        }
    }

    pub fn to_byte(self) -> (b: u8)
        ensures
            b == self.spec_byte(),
    {
        match self {
            MessageType::Heartbeat => 0x01,
            MessageType::Request => 0x02,
            MessageType::GNSS => 0x03,
        }
    }

    pub fn try_from_byte(b: u8) -> (r: Result<MessageType, Error>)
        ensures
            r == MessageType::spec_of_byte(b),
    {
        if b == 0x01 {
            Ok(MessageType::Heartbeat)
        } else if b == 0x02 {
            Ok(MessageType::Request)
        } else if b == 0x03 {
            Ok(MessageType::GNSS)
        } else {
            Err(Error::UnknownMessageType(b))
        }
    }
}

/// A typed message: one variant per schema in the registry.
#[derive(Debug, PartialEq, Eq, Clone)]
pub enum Message {
    Heartbeat(Heartbeat),
    Request(Request),
    GNSS(GNSS),
}

/// The mathematical value of a [`Message`]: the same variants with the
/// identifier list abstracted to a sequence.
#[verifier::ext_equal]
pub enum MessageView {
    Heartbeat { uptime: u32 },
    Request { packet_ids: Seq<u32> },
    GNSS { latitude: u32, longitude: u32, altitude: u32 },
}

impl View for Message {
    type V = MessageView;

    open spec fn view(&self) -> MessageView {
        match self {
            Message::Heartbeat(h) => MessageView::Heartbeat { uptime: h.uptime },
            Message::Request(r) => MessageView::Request { packet_ids: r.packet_ids@ },
            Message::GNSS(g) => MessageView::GNSS {
                latitude: g.latitude,
                longitude: g.longitude,
                altitude: g.altitude,
            },
        }
    }
}

/// The schema a message belongs to.
pub open spec fn spec_type_of(v: MessageView) -> MessageType {
    match v {
        MessageView::Heartbeat { .. } => MessageType::Heartbeat,
        MessageView::Request { .. } => MessageType::Request,
        MessageView::GNSS { .. } => MessageType::GNSS,
    }
}

/// The payload bytes a message encodes to.
pub open spec fn spec_payload(v: MessageView) -> Seq<u8> {
    match v {
        MessageView::Heartbeat { uptime } => le32_bytes(uptime),
        MessageView::Request { packet_ids } => varints_of(packet_ids),
        MessageView::GNSS { latitude, longitude, altitude } => le32_bytes(latitude) + le32_bytes(
            longitude,
        ) + le32_bytes(altitude),
    }
}

/// The worst-case encoded payload size of a schema. The fixed-width schemas
/// always occupy exactly this many bytes; the extensible [`Request`] schema
/// may grow up to the whole payload budget.
pub open spec fn max_encoded_size(t: MessageType) -> int {
    match t {
        MessageType::Heartbeat => 4,
        MessageType::Request => MESSAGE_SIZE_MAX as int,
        MessageType::GNSS => 12,
    }
}

/// Whether a message fits the payload byte budget. Fixed-width schemas
/// always do; a [`Request`] may list more identifiers than one packet can
/// carry, and then no frame exists for it.
pub open spec fn spec_encodable(v: MessageView) -> bool {
    spec_payload(v).len() <= MESSAGE_SIZE_MAX
}

/// A payload schema: a message kind that can write itself as payload bytes.
pub trait MessageTrait: Sized {
    /// The payload bytes this value encodes to.
    spec fn payload_spec(&self) -> Seq<u8>;

    /// Appends this value's payload encoding to `out`.
    fn encode_payload_to(&self, out: &mut Vec<u8>)
        ensures
            final(out)@ == old(out)@ + self.payload_spec(),
    ;
}

impl MessageTrait for Heartbeat {
    open spec fn payload_spec(&self) -> Seq<u8> {
        le32_bytes(self.uptime)
    }

    fn encode_payload_to(&self, out: &mut Vec<u8>) {
        push_le32(out, self.uptime);
    }
}

impl MessageTrait for Request {
    open spec fn payload_spec(&self) -> Seq<u8> {
        varints_of(self.packet_ids@)
    }

    fn encode_payload_to(&self, out: &mut Vec<u8>) {
        let ghost orig = out@;
        let mut i: usize = 0;
        while i < self.packet_ids.len()
            invariant
                i <= self.packet_ids.len(),
                out@ == orig + varints_of(self.packet_ids@.take(i as int)),
            decreases self.packet_ids.len() - i,
        {
            push_varint(out, self.packet_ids[i]);
            proof {
                lemma_varints_of_snoc(self.packet_ids@.take(i as int), self.packet_ids@[i as int]);
                assert(self.packet_ids@.take(i as int) + seq![self.packet_ids@[i as int]]
                    =~= self.packet_ids@.take(i + 1));
            }
            i = i + 1;
        }
        proof {
            assert(self.packet_ids@.take(self.packet_ids@.len() as int) =~= self.packet_ids@);
        }
    }
}

impl MessageTrait for GNSS {
    open spec fn payload_spec(&self) -> Seq<u8> {
        le32_bytes(self.latitude) + le32_bytes(self.longitude) + le32_bytes(self.altitude)
    }

    fn encode_payload_to(&self, out: &mut Vec<u8>) {
        push_le32(out, self.latitude);
        push_le32(out, self.longitude);
        push_le32(out, self.altitude);
    }
}

impl Heartbeat {
    /// The value a heartbeat payload decodes to. The schema is fixed-width:
    /// exactly four bytes are read, fewer are missing bytes and more are
    /// structurally invalid.
    pub open spec fn spec_decode(p: Seq<u8>) -> Result<Heartbeat, Error> {
        if p.len() < 4 {
            Err(Error::InputTooShort)
        } else if p.len() > 4 {
            Err(Error::InvalidData)
        } else {
            Ok(Heartbeat { uptime: le32_value(p) })
        }
    }

    /// Decodes a heartbeat payload.
    pub fn decode_payload(p: &Vec<u8>) -> (r: Result<Heartbeat, Error>)
        ensures
            r == Heartbeat::spec_decode(p@),
    {
        if p.len() < 4 {
            Err(Error::InputTooShort)
        } else if p.len() > 4 {
            Err(Error::InvalidData)
        } else {
            let uptime = read_le32(p, 0);
            proof {
                assert(p@.subrange(0, 4) =~= p@);
            }
            Ok(Heartbeat { uptime })
        }
    }
}

impl Request {
    /// The identifier list a request payload decodes to, if its bytes form a
    /// well-formed stream of base-128 values.
    pub open spec fn spec_decode(p: Seq<u8>) -> Result<Seq<u32>, Error> {
        parse_ids_from(p, 0, Seq::empty(), 0, 0)
    }

    /// Decodes a request payload.
    pub fn decode_payload(p: &Vec<u8>) -> (r: Result<Request, Error>)
        ensures
            match r {
                Ok(req) => Request::spec_decode(p@) == Ok::<Seq<u32>, Error>(req.packet_ids@),
                Err(e) => Request::spec_decode(p@) == Err::<Seq<u32>, Error>(e),
            },
    {
        let mut ids: Vec<u32> = Vec::new();
        let mut cur: u32 = 0;
        let mut shift: u32 = 0;
        let mut i: usize = 0;
        while i < p.len()
            invariant
                i <= p.len(),
                shift == 0 || shift == 7 || shift == 14 || shift == 21 || shift == 28,
                parse_ids_from(p@, 0, Seq::empty(), 0, 0) == parse_ids_from(
                    p@,
                    i as int,
                    ids@,
                    cur,
                    shift,
                ),
            decreases p.len() - i,
        {
            let b = p[i];
            if shift == 28 && b >= 0x10 {
                return Err(Error::InvalidData);
            }
            if b & 0x80 == 0x80 {
                proof {
                    assert(b < 0x10 ==> b & 0x80 != 0x80) by (bit_vector);
                }
                cur = cur | (((b & 0x7f) as u32) << shift);
                shift = shift + 7;
            } else {
                ids.push(cur | ((b as u32) << shift));
                cur = 0;
                shift = 0;
            }
            i = i + 1;
        }
        if shift != 0 {
            return Err(Error::InvalidData);
        }
        Ok(Request { packet_ids: ids })
    }
}

impl GNSS {
    /// The value a geolocation payload decodes to. The schema is fixed-width:
    /// exactly twelve bytes are read, fewer are missing bytes and more are
    /// structurally invalid.
    pub open spec fn spec_decode(p: Seq<u8>) -> Result<GNSS, Error> {
        if p.len() < 12 {
            Err(Error::InputTooShort)
        } else if p.len() > 12 {
            Err(Error::InvalidData)
        } else {
            Ok(
                GNSS {
                    latitude: le32_value(p.subrange(0, 4)),
                    longitude: le32_value(p.subrange(4, 8)),
                    altitude: le32_value(p.subrange(8, 12)),
                },
            )
        }
    }

    /// Decodes a geolocation payload.
    pub fn decode_payload(p: &Vec<u8>) -> (r: Result<GNSS, Error>)
        ensures
            r == GNSS::spec_decode(p@),
    {
        if p.len() < 12 {
            Err(Error::InputTooShort)
        } else if p.len() > 12 {
            Err(Error::InvalidData)
        } else {
            let latitude = read_le32(p, 0);
            let longitude = read_le32(p, 4);
            let altitude = read_le32(p, 8);
            Ok(GNSS { latitude, longitude, altitude })
        }
    }
}

impl Message {
    /// The schema tag of this message.
    pub fn message_type(&self) -> (t: MessageType)
        ensures
            t == spec_type_of(self@),
    {
        match self {
            Message::Heartbeat(_) => MessageType::Heartbeat,
            Message::Request(_) => MessageType::Request,
            Message::GNSS(_) => MessageType::GNSS,
        }
    }

    /// Encodes this message's payload into a fresh buffer.
    pub fn encode_payload(&self) -> (out: Vec<u8>)
        ensures
            out@ == spec_payload(self@),
    {
        let mut out: Vec<u8> = Vec::new();
        match self {
            Message::Heartbeat(h) => h.encode_payload_to(&mut out),
            Message::Request(r) => r.encode_payload_to(&mut out),
            Message::GNSS(g) => g.encode_payload_to(&mut out),
        }
        out
    }
}

/// The bytes the checksum of a message's frame is computed over: the
/// header's non-checksum bytes followed by the payload.
pub open spec fn spec_crc_region(v: MessageView) -> Seq<u8> {
    seq![ProtocolVersion::V1.spec_byte()] + le16_bytes(spec_payload(v).len() as u16) + seq![
        spec_type_of(v).spec_byte(),
    ] + spec_payload(v)
}

/// The header a message's frame carries: the current version, the exact
/// encoded payload size, the schema tag, and the checksum. Length and
/// checksum are derived from the payload bytes, so header and payload can
/// never disagree about the size.
pub open spec fn spec_header_for(v: MessageView) -> Header {
    Header {
        version: ProtocolVersion::V1,
        length: spec_payload(v).len() as u16,
        message_type: spec_type_of(v),
        crc16: crc16_of(spec_crc_region(v)),
    }
}

/// The complete wire frame of a message: header, then payload.
pub open spec fn spec_frame(v: MessageView) -> Seq<u8> {
    spec_header_bytes(spec_header_for(v)) + spec_payload(v)
}

/// The message a payload decodes to under a given schema tag.
pub open spec fn spec_decode_payload(t: MessageType, p: Seq<u8>) -> Result<MessageView, Error> {
    match t {
        MessageType::Heartbeat => match Heartbeat::spec_decode(p) {
            Ok(h) => Ok(MessageView::Heartbeat { uptime: h.uptime }),
            Err(e) => Err(e),
        },
        MessageType::Request => match Request::spec_decode(p) {
            Ok(ids) => Ok(MessageView::Request { packet_ids: ids }),
            Err(e) => Err(e),
        },
        MessageType::GNSS => match GNSS::spec_decode(p) {
            Ok(g) => Ok(
                MessageView::GNSS {
                    latitude: g.latitude,
                    longitude: g.longitude,
                    altitude: g.altitude,
                },
            ),
            Err(e) => Err(e),
        },
    }
}

/// The result of decoding a frame from the start of `s`.
///
/// The steps are linear, each failure terminal: parse and validate the
/// header; enforce the maximum-packet-size invariant on the declared
/// length; check that the declared payload is present; recompute and
/// compare the checksum; decode the payload under the header's tag. Bytes
/// past the declared payload are ignored.
pub open spec fn spec_decode(s: Seq<u8>) -> Result<MessageView, Error> {
    match spec_header_decode(s) {
        Err(e) => Err(e),
        Ok(h) => {
            if HEADER_SIZE + h.length as int > PACKET_SIZE_MAX as int {
                Err(Error::InvalidPayloadLength)
            } else if s.len() < HEADER_SIZE + h.length as int {
                Err(Error::InputTooShort)
            } else {
                let payload = s.subrange(HEADER_SIZE as int, HEADER_SIZE + h.length as int);
                if h.crc16 != crc16_of(s.subrange(0, 4) + payload) {
                    Err(Error::InvalidCRC16)
                } else {
                    spec_decode_payload(h.message_type, payload)
                }
            }
        },
    }
}

/// Assembles the bytes the frame checksum of `m` covers: the version byte,
/// the payload length, the schema tag, and the payload itself.
fn build_crc_region(m: &Message, payload: &Vec<u8>) -> (region: Vec<u8>)
    requires
        payload@ == spec_payload(m@),
        payload@.len() <= MESSAGE_SIZE_MAX,
    ensures
        region@ == spec_crc_region(m@),
{
    let len16: u16 = payload.len() as u16;
    let mut region: Vec<u8> = Vec::new();
    region.push(ProtocolVersion::V1.to_byte());
    push_le16(&mut region, len16);
    region.push(m.message_type().to_byte());
    let ghost preamble = region@;
    let mut j: usize = 0;
    while j < payload.len()
        invariant
            j <= payload.len(),
            region@ == preamble + payload@.take(j as int),
        decreases payload.len() - j,
    {
        region.push(payload[j]);
        proof {
            assert(preamble + payload@.take(j as int) + seq![payload@[j as int]] =~= preamble
                + payload@.take(j + 1));
        }
        j = j + 1;
    }
    proof {
        assert(payload@.take(payload@.len() as int) =~= payload@);
        assert(region@ =~= spec_crc_region(m@));
    }
    region
}

impl Header {
    /// Computes the header the frame of `m` will carry. Length and checksum
    /// are derived from the freshly encoded payload bytes, so header and
    /// payload can never disagree about the size. A message over the
    /// payload budget has no frame and therefore no header.
    pub fn for_message(m: &Message) -> (r: Result<Header, Error>)
        ensures
            match r {
                Ok(h) => spec_encodable(m@) && h == spec_header_for(m@),
                Err(e) => e == Error::InvalidPayloadLength && !spec_encodable(m@),
            },
    {
        let payload = m.encode_payload();
        if payload.len() > MESSAGE_SIZE_MAX {
            return Err(Error::InvalidPayloadLength);
        }
        let region = build_crc_region(m, &payload);
        let crc = crc16_compute(&region);
        Ok(
            Header {
                version: ProtocolVersion::V1,
                length: payload.len() as u16,
                message_type: m.message_type(),
                crc16: crc,
            },
        )
    }
}

impl Message {
    /// Encodes this message as a complete frame over the start of `buf`,
    /// leaving the rest of the buffer untouched, and returns the number of
    /// bytes written.
    ///
    /// The payload bytes are computed first, so the header's length and
    /// checksum always describe them exactly. Nothing is written on
    /// failure: a message over the payload budget is rejected with
    /// `InvalidPayloadLength`, a buffer that cannot hold the whole frame
    /// with `InvalidBufferSize`.
    pub fn encode_to(&self, buf: &mut Vec<u8>) -> (r: Result<usize, Error>)
        ensures
            match r {
                Ok(n) => {
                    &&& spec_encodable(self@)
                    &&& n == HEADER_SIZE + spec_payload(self@).len()
                    &&& old(buf)@.len() >= n
                    &&& final(buf)@.len() == old(buf)@.len()
                    &&& final(buf)@.subrange(0, n as int) == spec_frame(self@)
                    &&& final(buf)@.skip(n as int) == old(buf)@.skip(n as int)
                },
                Err(e) => {
                    &&& final(buf)@ == old(buf)@
                    &&& (e == Error::InvalidPayloadLength <==> !spec_encodable(self@))
                    &&& (e == Error::InvalidBufferSize <==> spec_encodable(self@) && old(
                        buf,
                    )@.len() < HEADER_SIZE + spec_payload(self@).len())
                    &&& (e == Error::InvalidPayloadLength || e == Error::InvalidBufferSize)
                },
            },
    {
        let payload = self.encode_payload();
        if payload.len() > MESSAGE_SIZE_MAX {
            return Err(Error::InvalidPayloadLength);
        }
        if buf.len() < HEADER_SIZE + payload.len() {
            return Err(Error::InvalidBufferSize);
        }
        let len16: u16 = payload.len() as u16;
        let region = build_crc_region(self, &payload);
        let crc = crc16_compute(&region);
        let header = Header {
            version: ProtocolVersion::V1,
            length: len16,
            message_type: self.message_type(),
            crc16: crc,
        };
        assert(header == spec_header_for(self@));
        match header.encode(buf) {
            Ok(_) => {},
            Err(e) => {
                return Err(e);
            },
        }
        let ghost after_header = buf@;
        let mut k: usize = 0;
        while k < payload.len()
            invariant
                k <= payload.len(),
                HEADER_SIZE + payload.len() <= buf.len(),
                buf@.len() == after_header.len(),
                buf@.subrange(0, HEADER_SIZE as int) == after_header.subrange(
                    0,
                    HEADER_SIZE as int,
                ),
                buf@.subrange(HEADER_SIZE as int, HEADER_SIZE + k as int) == payload@.take(
                    k as int,
                ),
                buf@.skip(HEADER_SIZE + k as int) == after_header.skip(HEADER_SIZE + k as int),
            decreases payload.len() - k,
        {
            let ghost prev = buf@;
            buf.set(HEADER_SIZE + k, payload[k]);
            proof {
                assert(buf@.subrange(0, HEADER_SIZE as int) =~= prev.subrange(
                    0,
                    HEADER_SIZE as int,
                ));
                assert(buf@.subrange(HEADER_SIZE as int, HEADER_SIZE + (k + 1)) =~= payload@.take(
                    k + 1,
                ));
                lemma_skip_more(
                    prev,
                    after_header,
                    HEADER_SIZE + k as int,
                    HEADER_SIZE + (k + 1),
                );
                assert(buf@.skip(HEADER_SIZE + (k + 1)) =~= prev.skip(HEADER_SIZE + (k + 1)));
            }
            k = k + 1;
        }
        let n = HEADER_SIZE + payload.len();
        proof {
            assert(payload@.take(payload@.len() as int) =~= payload@);
            assert(buf@.subrange(0, n as int) =~= spec_frame(self@));
            lemma_skip_more(after_header, old(buf)@, HEADER_SIZE as int, n as int);
        }
        Ok(n)
    }

    /// Decodes one frame from the start of `buf`. Bytes past the declared
    /// payload are ignored, so a frame may be decoded out of a larger
    /// buffer.
    pub fn try_decode_from_bytes(buf: &Vec<u8>) -> (r: Result<Message, Error>)
        ensures
            match r {
                Ok(m) => spec_decode(buf@) == Ok::<MessageView, Error>(m@),
                Err(e) => spec_decode(buf@) == Err::<MessageView, Error>(e),
            },
    {
        let h = match Header::decode(buf) {
            Ok(h) => h,
            Err(e) => {
                return Err(e);
            },
        };
        let len = h.length as usize;
        if len > PACKET_SIZE_MAX - HEADER_SIZE {
            return Err(Error::InvalidPayloadLength);
        }
        if buf.len() < HEADER_SIZE + len {
            return Err(Error::InputTooShort);
        }
        let mut region: Vec<u8> = Vec::new();
        region.push(buf[0]);
        region.push(buf[1]);
        region.push(buf[2]);
        region.push(buf[3]);
        proof {
            assert(region@ =~= buf@.subrange(0, 4));
        }
        let mut payload: Vec<u8> = Vec::new();
        let mut j: usize = 0;
        while j < len
            invariant
                j <= len,
                HEADER_SIZE + len <= buf.len(),
                payload@ == buf@.subrange(HEADER_SIZE as int, HEADER_SIZE + j as int),
                region@ == buf@.subrange(0, 4) + payload@,
            decreases len - j,
        {
            let b = buf[HEADER_SIZE + j];
            region.push(b);
            payload.push(b);
            proof {
                assert(payload@ =~= buf@.subrange(HEADER_SIZE as int, HEADER_SIZE + (j + 1)));
            }
            j = j + 1;
        }
        let crc = crc16_compute(&region);
        if h.crc16 != crc {
            return Err(Error::InvalidCRC16);
        }
        match h.message_type {
            MessageType::Heartbeat => match Heartbeat::decode_payload(&payload) {
                Ok(v) => Ok(Message::Heartbeat(v)),
                Err(e) => Err(e),
            },
            MessageType::Request => match Request::decode_payload(&payload) {
                Ok(v) => Ok(Message::Request(v)),
                Err(e) => Err(e),
            },
            MessageType::GNSS => match GNSS::decode_payload(&payload) {
                Ok(v) => Ok(Message::GNSS(v)),
                Err(e) => Err(e),
            },
        }
    }
}

} // verus!
