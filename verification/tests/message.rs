//! IKEv2 framing.

use ryke::error::IkeError;
use ryke::ikev2::message::{payloads, ExchangeType, Flags, IkeHeader, MessageBuilder, PayloadType, RawPayload};

/// All payloads of a chain.
fn collected(first: PayloadType, body: &[u8]) -> Result<Vec<RawPayload<'_>>, IkeError> {
    let mut iter = payloads(first, body);
    let mut all = Vec::new();
    while let Some(payload) = iter.next() {
        all.push(payload?);
    }
    Ok(all)
}

// A minimal IKE_SA_INIT header, initiator flag set, first payload = SA.
const SA_INIT_HEADER: [u8; 28] = [
    0x11, 0x22, 0x33, 0x44, 0x55, 0x66, 0x77, 0x88, // initiator SPI
    0x00, 0x00, 0x00, 0x00, 0x00, 0x00, 0x00, 0x00, // responder SPI (none yet)
    0x21, // next payload = SA (33)
    0x20, // version 2.0
    0x22, // exchange = IKE_SA_INIT (34)
    0x08, // flags = initiator
    0x00, 0x00, 0x00, 0x00, // message id 0
    0x00, 0x00, 0x00, 0x1c, // length = 28
];

#[test]
fn parses_known_header() {
    let h = IkeHeader::parse(&SA_INIT_HEADER).unwrap();
    assert_eq!(h.initiator_spi, 0x1122334455667788);
    assert_eq!(h.responder_spi, 0);
    assert_eq!(h.next_payload, PayloadType::SecurityAssociation);
    assert_eq!((h.major_version, h.minor_version), (2, 0));
    assert_eq!(h.exchange_type, ExchangeType::IkeSaInit);
    assert!(h.flags.initiator && !h.flags.response);
    assert_eq!(h.message_id, 0);
    assert_eq!(h.length, 28);
}

#[test]
fn parse_rejects_a_non_ikev2_major_version() {
    let mut header = SA_INIT_HEADER;
    header[17] = 0x10; // major version 1 (an IKEv1 message misrouted here)
    let err = IkeHeader::parse(&header).unwrap_err();
    assert_eq!(err, IkeError::UnsupportedVersion(1));
}

#[test]
fn header_roundtrips() {
    let h = IkeHeader::parse(&SA_INIT_HEADER).unwrap();
    assert_eq!(h.to_bytes(), SA_INIT_HEADER);

    let rebuilt = IkeHeader {
        responder_spi: 0xaabbccddeeff0011,
        exchange_type: ExchangeType::IkeAuth,
        flags: Flags {
            initiator: false,
            version: false,
            response: true,
        },
        message_id: 1,
        length: 80,
        ..h
    };
    assert_eq!(IkeHeader::parse(&rebuilt.to_bytes()).unwrap(), rebuilt);
}

#[test]
fn rejects_short_header() {
    assert_eq!(
        IkeHeader::parse(&SA_INIT_HEADER[..10]).unwrap_err(),
        IkeError::Truncated { need: 28, have: 10 }
    );
}

#[test]
fn walks_payload_chain() {
    // SA payload (next = KE) then KE payload (next = none).
    let body = [
        0x22, 0x00, 0x00, 0x08, 0xAA, 0xAA, 0xAA, 0xAA, // SA -> KE, len 8
        0x00, 0x00, 0x00, 0x08, 0xBB, 0xBB, 0xBB, 0xBB, // KE -> none, len 8
    ];
    let got: Vec<RawPayload> = collected(PayloadType::SecurityAssociation, &body).unwrap();
    assert_eq!(got.len(), 2);
    assert_eq!(got[0].payload_type, PayloadType::SecurityAssociation);
    assert_eq!(got[0].data, &[0xAA, 0xAA, 0xAA, 0xAA]);
    assert_eq!(got[1].payload_type, PayloadType::KeyExchange);
    assert_eq!(got[1].data, &[0xBB, 0xBB, 0xBB, 0xBB]);
}

#[test]
fn payload_chain_rejects_bad_length() {
    // Declares length 40 but only 8 bytes present.
    let body = [0x00, 0x00, 0x00, 0x28, 0x01, 0x02, 0x03, 0x04];
    let err = payloads(PayloadType::Nonce, &body)
        .next()
        .unwrap()
        .unwrap_err();
    assert_eq!(err, IkeError::BadLength { declared: 40, available: 8 });
}

#[test]
fn payload_chain_rejects_self_referential_short_length() {
    let body = [0x00, 0x40, 0x00, 0x02]; // length 2 < 4, would loop
    let err = payloads(PayloadType::Notify, &body)
        .next()
        .unwrap()
        .unwrap_err();
    assert_eq!(err, IkeError::ShortPayload(2));
}

#[test]
fn exchange_and_payload_types_roundtrip() {
    for v in 0u8..=255 {
        assert_eq!(ExchangeType::from_u8(v).to_u8(), v);
        assert_eq!(PayloadType::from_u8(v).to_u8(), v);
    }
}

#[test]
fn message_builder_roundtrips_through_parse() {
    let header = IkeHeader {
        initiator_spi: 0x1122334455667788,
        responder_spi: 0x99aabbccddeeff00,
        next_payload: PayloadType::NoNext, // overwritten by build()
        major_version: 2,
        minor_version: 0,
        exchange_type: ExchangeType::IkeSaInit,
        flags: Flags { initiator: false, version: false, response: true },
        message_id: 0,
        length: 0, // overwritten by build()
    };
    let msg = MessageBuilder::new(header)
        .push(PayloadType::SecurityAssociation, vec![0xAA; 4])
        .push(PayloadType::KeyExchange, vec![0xBB; 36])
        .push(PayloadType::Nonce, vec![0xCC; 32])
        .build();

    let parsed = IkeHeader::parse(&msg).unwrap();
    assert_eq!(parsed.length as usize, msg.len());
    assert_eq!(parsed.next_payload, PayloadType::SecurityAssociation);

    let bodies: Vec<RawPayload> = collected(parsed.next_payload, &msg[IkeHeader::LEN..]).unwrap();
    assert_eq!(bodies.len(), 3);
    assert_eq!(bodies[0].payload_type, PayloadType::SecurityAssociation);
    assert_eq!(bodies[0].data, &[0xAA; 4]);
    assert_eq!(bodies[1].payload_type, PayloadType::KeyExchange);
    assert_eq!(bodies[1].data.len(), 36);
    assert_eq!(bodies[2].payload_type, PayloadType::Nonce);
    assert_eq!(bodies[2].data.len(), 32);
}
