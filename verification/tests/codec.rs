use qcp::header::{Header, HEADER_SIZE};
use qcp::message::{Heartbeat, Message, MessageTrait, MessageType, Request, GNSS};
use qcp::version::ProtocolVersion;
use qcp::PACKET_SIZE_MAX;

#[test]
fn mod_direct() {
    let mut buf: Vec<u8> = vec![0u8; PACKET_SIZE_MAX];
    println!("{:?}", HEADER_SIZE);

    let header = Header {
        version: ProtocolVersion::V1,
        length: 1,
        message_type: MessageType::Heartbeat,
        crc16: 0,
    };

    header.encode(&mut buf).unwrap();
}

#[test]
fn id_01_heartbeat_direct() {
    let mut buf: Vec<u8> = Vec::new();
    Heartbeat { uptime: 13298326 }.encode_payload_to(&mut buf);

    assert_eq!(&[150, 234, 202, 0], &buf[..]);

    let out = Heartbeat::decode_payload(&buf).unwrap();
    assert_eq!(out, Heartbeat { uptime: 13298326 });
}

#[test]
fn indirect() {
    let mut buf: Vec<u8> = vec![0u8; PACKET_SIZE_MAX];

    Message::Heartbeat(Heartbeat { uptime: 13298326 })
        .encode_to(&mut buf)
        .unwrap();

    assert_eq!(&[150, 234, 202, 0], &buf[HEADER_SIZE..HEADER_SIZE + 4]);

    let out = Message::try_decode_from_bytes(&buf).unwrap();

    assert_eq!(out, Message::Heartbeat(Heartbeat { uptime: 13298326 }));
}

#[test]
fn id_02_request_direct() {
    let mut buf: Vec<u8> = Vec::new();
    Request {
        packet_ids: vec![13298326],
    }
    .encode_payload_to(&mut buf);

    assert_eq!(&[150, 213, 171, 6], &buf[..]);

    let out = Request::decode_payload(&buf).unwrap();
    assert_eq!(
        out,
        Request {
            packet_ids: vec![13298326],
        }
    );
}

#[test]
fn id_03_gnss_direct() {
    let mut buf: Vec<u8> = Vec::new();

    GNSS {
        latitude: 132,
        longitude: 2,
        altitude: 0,
    }
    .encode_payload_to(&mut buf);

    assert_eq!(&[132, 0, 0, 0, 2, 0, 0, 0, 0, 0, 0, 0], &buf[..]);

    let out = GNSS::decode_payload(&buf).unwrap();
    assert_eq!(
        out,
        GNSS {
            latitude: 132,
            longitude: 2,
            altitude: 0,
        }
    );
}

#[test]
fn heartbeat_reference_frame() {
    // The fixed reference frame for Heartbeat { uptime: 13298326 }: version 1,
    // length 4, tag 1, CRC-16/CCITT-FALSE over the four header bytes and the
    // payload, then the little-endian payload itself.
    let reference: Vec<u8> = vec![1, 4, 0, 1, 19, 98, 150, 234, 202, 0];

    let mut buf: Vec<u8> = vec![0u8; 10];
    let n = Message::Heartbeat(Heartbeat { uptime: 13298326 })
        .encode_to(&mut buf)
        .unwrap();
    assert_eq!(n, 10);
    assert_eq!(buf, reference);

    let out = Message::try_decode_from_bytes(&reference).unwrap();
    assert_eq!(out, Message::Heartbeat(Heartbeat { uptime: 13298326 }));
}

#[test]
fn request_length_field_is_exact() {
    // A single-identifier request encodes its identifier in one base-128
    // byte, so the length field says 1, not the fixed width of the value.
    let mut buf: Vec<u8> = vec![0u8; PACKET_SIZE_MAX];
    let n = Message::Request(Request {
        packet_ids: vec![3],
    })
    .encode_to(&mut buf)
    .unwrap();

    assert_eq!(n, HEADER_SIZE + 1);
    assert_eq!(buf[1], 1);
    assert_eq!(buf[2], 0);
    assert_eq!(buf[HEADER_SIZE], 3);
    assert_eq!(&buf[..n], &[1, 1, 0, 2, 232, 155, 3]);
}

#[test]
fn round_trip_all_schemas() {
    let messages = vec![
        Message::Heartbeat(Heartbeat { uptime: 0 }),
        Message::Heartbeat(Heartbeat { uptime: u32::MAX }),
        Message::Request(Request { packet_ids: vec![] }),
        Message::Request(Request {
            packet_ids: vec![0, 1, 127, 128, 300, u32::MAX],
        }),
        Message::GNSS(GNSS {
            latitude: 52.3791_f32.to_bits(),
            longitude: 4.8994_f32.to_bits(),
            altitude: (-2.0_f32).to_bits(),
        }),
    ];
    for m in messages {
        let mut buf: Vec<u8> = vec![0u8; PACKET_SIZE_MAX];
        m.encode_to(&mut buf).unwrap();
        let out = Message::try_decode_from_bytes(&buf).unwrap();
        assert_eq!(out, m);
    }
}

#[test]
fn request_fills_whole_budget() {
    // 26 one-byte identifiers exactly fill the payload budget.
    let ids: Vec<u32> = (0..26).collect();
    let m = Message::Request(Request { packet_ids: ids });
    let mut buf: Vec<u8> = vec![0u8; PACKET_SIZE_MAX];
    let n = m.encode_to(&mut buf).unwrap();
    assert_eq!(n, PACKET_SIZE_MAX);
    let out = Message::try_decode_from_bytes(&buf).unwrap();
    assert_eq!(out, m);
}

#[test]
fn header_round_trip() {
    let header = Header {
        version: ProtocolVersion::V1,
        length: 513,
        message_type: MessageType::GNSS,
        crc16: 0xBEEF,
    };
    let mut buf: Vec<u8> = vec![0u8; HEADER_SIZE];
    let n = header.encode(&mut buf).unwrap();
    assert_eq!(n, HEADER_SIZE);
    assert_eq!(buf, vec![1, 1, 2, 3, 0xEF, 0xBE]);
    let out = Header::decode(&buf).unwrap();
    assert_eq!(out, header);
}

#[test]
fn header_is_derived_from_the_message() {
    let header = Header::for_message(&Message::Heartbeat(Heartbeat { uptime: 13298326 })).unwrap();
    assert_eq!(
        header,
        Header {
            version: ProtocolVersion::V1,
            length: 4,
            message_type: MessageType::Heartbeat,
            crc16: 0x6213,
        }
    );

    // A request over the payload budget has no frame, hence no header.
    let ids: Vec<u32> = (0..27).collect();
    let r = Header::for_message(&Message::Request(Request { packet_ids: ids }));
    assert_eq!(r, Err(qcp::error::Error::InvalidPayloadLength));
}

#[test]
fn crc16_reference_value() {
    // CRC-16/CCITT-FALSE of the heartbeat reference region.
    let region: Vec<u8> = vec![1, 4, 0, 1, 150, 234, 202, 0];
    assert_eq!(qcp::crc::crc16_compute(&region), 0x6213);
    // The well-known check value of the parameter set.
    let check: Vec<u8> = vec![b'1', b'2', b'3', b'4', b'5', b'6', b'7', b'8', b'9'];
    assert_eq!(qcp::crc::crc16_compute(&check), 0x29B1);
}

#[test]
fn transport_defaults_offer_nothing() {
    let opts = qcp::transport::USBOpts::default();
    assert_eq!(
        opts,
        qcp::transport::USBOpts {
            acm: false,
            ncm: false,
        }
    );
}
