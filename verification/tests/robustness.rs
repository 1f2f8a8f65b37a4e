use qcp::crc::crc16_compute;
use qcp::error::Error;
use qcp::header::HEADER_SIZE;
use qcp::message::{Heartbeat, Message, Request, MESSAGE_SIZE_MAX};
use qcp::PACKET_SIZE_MAX;

/// Builds a frame with the given payload-describing header fields and a
/// checksum that actually matches, so decoding reaches the payload stage.
fn frame(length: u16, tag: u8, payload: &[u8]) -> Vec<u8> {
    let mut region: Vec<u8> = vec![1, (length & 0xff) as u8, (length >> 8) as u8, tag];
    region.extend_from_slice(payload);
    let crc = crc16_compute(&region);
    let mut out: Vec<u8> = vec![1, (length & 0xff) as u8, (length >> 8) as u8, tag];
    out.push((crc & 0xff) as u8);
    out.push((crc >> 8) as u8);
    out.extend_from_slice(payload);
    out
}

#[test]
fn truncated_buffers_are_rejected() {
    for n in 0..HEADER_SIZE {
        let buf: Vec<u8> = vec![1u8; n];
        assert_eq!(
            Message::try_decode_from_bytes(&buf),
            Err(Error::InvalidBufferSize)
        );
    }
}

#[test]
fn version_is_checked_before_the_tag() {
    // Both the version byte and the tag byte are invalid; the version wins.
    let buf: Vec<u8> = vec![0xFF, 0, 0, 0xFF, 0, 0];
    assert_eq!(
        Message::try_decode_from_bytes(&buf),
        Err(Error::UnknownVersion(0xFF))
    );
}

#[test]
fn unknown_tag_is_rejected() {
    let buf: Vec<u8> = vec![1, 0, 0, 9, 0, 0];
    assert_eq!(
        Message::try_decode_from_bytes(&buf),
        Err(Error::UnknownMessageType(9))
    );
}

#[test]
fn oversized_declared_length_is_rejected() {
    // 27 payload bytes would overflow the 32-byte packet budget.
    let buf: Vec<u8> = vec![1, 27, 0, 1, 0, 0];
    assert_eq!(
        Message::try_decode_from_bytes(&buf),
        Err(Error::InvalidPayloadLength)
    );
}

#[test]
fn missing_payload_bytes_are_rejected() {
    // The header declares 20 payload bytes but none follow.
    let buf: Vec<u8> = vec![1, 20, 0, 1, 0, 0];
    assert_eq!(
        Message::try_decode_from_bytes(&buf),
        Err(Error::InputTooShort)
    );
}

#[test]
fn corrupted_checksum_is_rejected() {
    let mut buf: Vec<u8> = vec![0u8; 10];
    Message::Heartbeat(Heartbeat { uptime: 13298326 })
        .encode_to(&mut buf)
        .unwrap();
    buf[4] ^= 0xFF;
    assert_eq!(
        Message::try_decode_from_bytes(&buf),
        Err(Error::InvalidCRC16)
    );
}

#[test]
fn every_single_bit_flip_is_rejected() {
    let mut reference: Vec<u8> = vec![0u8; 10];
    Message::Heartbeat(Heartbeat { uptime: 13298326 })
        .encode_to(&mut reference)
        .unwrap();

    for k in 0..reference.len() {
        for i in 0..8 {
            let mut buf = reference.clone();
            buf[k] ^= 1u8 << i;
            let out = Message::try_decode_from_bytes(&buf);
            assert!(out.is_err(), "flip of bit {} in byte {} was accepted", i, k);
            if k == 0 {
                assert_eq!(out, Err(Error::UnknownVersion(buf[0])));
            }
            if k >= 4 {
                // Checksum-field and payload flips always surface as a
                // checksum mismatch.
                assert_eq!(out, Err(Error::InvalidCRC16));
            }
        }
    }
}

#[test]
fn dangling_continuation_bit_is_invalid() {
    // A request payload that ends inside a base-128 value.
    let buf = frame(1, 2, &[0x80]);
    assert_eq!(Message::try_decode_from_bytes(&buf), Err(Error::InvalidData));
}

#[test]
fn overlong_identifier_is_invalid() {
    // Five base-128 groups carrying more than 32 bits of value.
    let buf = frame(5, 2, &[0xFF, 0xFF, 0xFF, 0xFF, 0x7F]);
    assert_eq!(Message::try_decode_from_bytes(&buf), Err(Error::InvalidData));
}

#[test]
fn fixed_schema_with_wrong_length_is_invalid() {
    // A heartbeat payload is exactly four bytes: more is structurally
    // invalid, fewer is missing bytes. The same holds for the twelve
    // geolocation bytes.
    let long_heartbeat = frame(5, 1, &[1, 2, 3, 4, 5]);
    assert_eq!(
        Message::try_decode_from_bytes(&long_heartbeat),
        Err(Error::InvalidData)
    );
    let short_heartbeat = frame(2, 1, &[7, 8]);
    assert_eq!(
        Message::try_decode_from_bytes(&short_heartbeat),
        Err(Error::InputTooShort)
    );
    let long_gnss = frame(13, 3, &[0, 1, 2, 3, 4, 5, 6, 7, 8, 9, 10, 11, 12]);
    assert_eq!(
        Message::try_decode_from_bytes(&long_gnss),
        Err(Error::InvalidData)
    );
}

#[test]
fn encode_rejects_small_buffers_without_writing() {
    let mut buf: Vec<u8> = vec![0xAA; 9];
    let r = Message::Heartbeat(Heartbeat { uptime: 13298326 }).encode_to(&mut buf);
    assert_eq!(r, Err(Error::InvalidBufferSize));
    assert_eq!(buf, vec![0xAA; 9]);
}

#[test]
fn encode_rejects_messages_over_the_budget() {
    // 27 one-byte identifiers need 27 payload bytes; the budget is 26.
    let ids: Vec<u32> = (0..27).collect();
    let mut buf: Vec<u8> = vec![0u8; PACKET_SIZE_MAX];
    let r = Message::Request(Request { packet_ids: ids }).encode_to(&mut buf);
    assert_eq!(r, Err(Error::InvalidPayloadLength));
    assert_eq!(buf, vec![0u8; PACKET_SIZE_MAX]);

    // Six five-byte identifiers need 30 payload bytes.
    let wide: Vec<u32> = vec![u32::MAX; 6];
    let r = Message::Request(Request { packet_ids: wide }).encode_to(&mut buf);
    assert_eq!(r, Err(Error::InvalidPayloadLength));
}

#[test]
fn trailing_bytes_are_ignored() {
    let mut buf: Vec<u8> = vec![0u8; PACKET_SIZE_MAX];
    let m = Message::Request(Request {
        packet_ids: vec![3, 600],
    });
    m.encode_to(&mut buf).unwrap();
    // The remaining zero bytes of the buffer are not part of the frame.
    let out = Message::try_decode_from_bytes(&buf).unwrap();
    assert_eq!(out, m);
}

#[test]
fn budget_constants_are_consistent() {
    assert_eq!(HEADER_SIZE + MESSAGE_SIZE_MAX, PACKET_SIZE_MAX);
}
