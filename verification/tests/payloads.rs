//! Payload bodies on the wire, NAT traversal, and the ISAKMP framing of IKEv1.

use ryke::addr::IpAddress;
use ryke::crypto::block::BlockCipher;
use ryke::crypto::hash::HashAlgorithm;
use ryke::crypto::PrfAlgorithm;
use ryke::error::IkeError;
use ryke::ikev1::informational::{build_esp_delete, build_r_u_there, parse_delete, parse_notify};
use ryke::ikev1::isakmp::{encode_chain, parse_chain, payload, IsakmpHeader, HEADER_LEN};
use ryke::ikev1::modecfg::{Attribute, ConfigPayload};
use ryke::ikev1::phase1::{phase2_iv, Phase1State};
use ryke::ikev1::phase2::parse_encrypted;
use ryke::ikev1::{notify_type as ikev1_notify, protocol};
use ryke::ikev2::child::{answer_esp_offer, esp_offer, narrow_requested_ts, sai2};
use ryke::ikev2::message::{ExchangeType, Flags, IkeHeader, PayloadType};
use ryke::ikev2::natt;
use ryke::ikev2::payload::{
    notify_type, protocol_id, transform_id, transform_type, Authentication, CertRequest, Certificate, Configuration, Delete,
    Identification, KeyExchange, Nonce, Notify, Proposal, SecurityAssociation, TrafficSelector, TrafficSelectors, Transform,
};
use ryke::ikev2::sk::{build_encrypted, open_encrypted, SkCipher};
use ryke::time::Duration;

#[test]
fn a_key_exchange_reads_back() {
    let ke = KeyExchange { dh_group: 31, data: vec![1, 2, 3] };
    assert_eq!(ke.to_bytes(), vec![0, 31, 0, 0, 1, 2, 3]);
    assert_eq!(KeyExchange::parse(&ke.to_bytes()), Ok(ke));
    assert_eq!(KeyExchange::parse(&[0, 31, 0]), Err(IkeError::Truncated { need: 4, have: 3 }));
}

#[test]
fn a_nonce_has_16_to_256_octets() {
    for len in [16, 256] {
        assert!(Nonce::parse(&vec![7; len]).is_ok(), "{len}");
    }
    for len in [0, 15, 257] {
        assert_eq!(Nonce::parse(&vec![7; len]), Err(IkeError::Crypto("nonce length out of range (16-256 bytes)")), "{len}");
    }
    let short = Err(IkeError::Crypto("nonce shorter than half the negotiated PRF's key"));
    assert_eq!(Nonce::parse_for_prf(&[7; 31], PrfAlgorithm::Sha512), short);
    assert!(Nonce::parse_for_prf(&[7; 32], PrfAlgorithm::Sha512).is_ok());
}

#[test]
fn a_notify_reads_back() {
    let notify = Notify { protocol_id: 3, spi: vec![9, 8, 7, 6], notify_type: 16393, data: vec![1] };
    assert_eq!(notify.to_bytes(), vec![3, 4, 0x40, 0x09, 9, 8, 7, 6, 1]);
    assert_eq!(Notify::parse(&notify.to_bytes()), Ok(notify));
    assert!(Notify::parse(&[3, 4, 0, 0, 1, 2, 3]).is_err());
    assert!(Notify::status(notify_type::NO_PROPOSAL_CHOSEN, Vec::new()).is_error());
    assert!(!Notify::status(notify_type::INITIAL_CONTACT, Vec::new()).is_error());
}

#[test]
fn a_delete_reads_back() {
    for delete in [Delete::ike(), Delete::esp(vec![1, 0xdead_beef])] {
        assert_eq!(Delete::parse(&delete.to_bytes()), Ok(delete));
    }
    assert_eq!(Delete::esp(vec![0x0102_0304]).to_bytes(), vec![3, 4, 0, 1, 1, 2, 3, 4]);
    assert!(Delete::parse(&[3, 4, 0, 2, 1, 2, 3, 4]).is_err());
}

#[test]
fn an_identity_and_an_authentication_read_back() {
    let id = Identification::fqdn("gw.example");
    assert_eq!(id.to_bytes()[..4], [2, 0, 0, 0]);
    assert_eq!(Identification::parse(&id.to_bytes()), Ok(id));
    let auth = Authentication { method: 2, data: vec![5; 32] };
    assert_eq!(Authentication::parse(&auth.to_bytes()), Ok(auth));
    assert!(Identification::parse(&[2, 0, 0]).is_err() && Authentication::parse(&[2]).is_err());
}

#[test]
fn certificates_and_their_requests_read_back() {
    let cert = Certificate::x509(vec![0x30, 0x82]);
    assert_eq!(cert.to_bytes(), vec![4, 0x30, 0x82]);
    assert_eq!(Certificate::parse(&cert.to_bytes()), Ok(cert));
    let request = CertRequest::x509(vec![[1; 20], [2; 20]]);
    assert_eq!(CertRequest::parse(&request.to_bytes()), Ok(request));
    assert!(Certificate::parse(&[]).is_err() && CertRequest::parse(&[]).is_err());
}

#[test]
fn a_configuration_reads_back() {
    let reply = Configuration::reply_ipv4([10, 8, 0, 4], Some([255, 255, 255, 255]), Some([1, 1, 1, 1]));
    assert_eq!(Configuration::parse(&reply.to_bytes()), Ok(reply.clone()));
    assert_eq!(reply.assigned_ipv4(), Some([10, 8, 0, 4]));
    let request = Configuration::request_ipv4();
    assert_eq!(Configuration::parse(&request.to_bytes()), Ok(request.clone()));
    assert_eq!(request.assigned_ipv4(), None);
    assert!(Configuration::parse(&[1, 0, 0]).is_err());
}

#[test]
fn an_sa_reads_back_and_an_attribute_nobody_knows_makes_a_transform_unusable() {
    let offer = esp_offer(0x0102_0304);
    assert_eq!(SecurityAssociation::parse(&offer.to_bytes()), Ok(offer.clone()));
    // ENCR AES-GCM-16 with an attribute of type 99 in place of the Key Length.
    let body = [0, 0, 0, 20, 1, 1, 0, 1, 0, 0, 0, 12, 1, 0, 0, 20, 0x80, 99, 0, 1];
    let sa = SecurityAssociation::parse(&body).unwrap();
    assert_eq!(sa.proposals[0].transforms[0].transform_id, transform_id::UNUSABLE);
    assert!(SecurityAssociation::parse(&body[..19]).is_err());
}

#[test]
fn selectors_are_narrowed_to_what_both_sides_carry() {
    let any = TrafficSelector::ipv4_any();
    let subnet = TrafficSelector { start_addr: vec![10, 0, 0, 0], end_addr: vec![10, 0, 0, 255], ..any.clone() };
    let wide = TrafficSelector { start_addr: vec![10, 0, 0, 128], end_addr: vec![10, 0, 1, 9], protocol: 6, ..any.clone() };
    let both = subnet.intersect(&wide).unwrap();
    assert_eq!((both.start_addr.clone(), both.end_addr.clone(), both.protocol), (vec![10, 0, 0, 128], vec![10, 0, 0, 255], 6));
    assert!(both.is_within(&subnet) && both.is_within(&wide) && !wide.is_within(&subnet));
    assert_eq!(subnet.intersect(&TrafficSelector::ipv4_host([10, 9, 9, 9])), None);
    assert_eq!(subnet.intersect(&TrafficSelector::ipv6_any()), None);

    let unified = TrafficSelectors::unified_full_tunnel();
    assert_eq!(TrafficSelectors::parse(&unified.to_bytes()), Ok(unified.clone()));
    assert_eq!(unified.narrowed_to(&TrafficSelectors::ipv4_full_tunnel()), Some(TrafficSelectors::ipv4_full_tunnel()));
    assert!(TrafficSelectors::ipv4_full_tunnel().is_within(&unified) && !unified.is_within(&TrafficSelectors::ipv4_full_tunnel()));
    let refused = narrow_requested_ts(
        Some(&TrafficSelectors::ipv6_full_tunnel()),
        Some(&unified),
        &TrafficSelectors::ipv4_full_tunnel(),
        &TrafficSelectors::ipv4_full_tunnel(),
    );
    assert!(matches!(refused, Err(IkeError::TsUnacceptable)));
}

#[test]
fn an_esp_offer_is_answered_with_one_of_its_proposals() {
    let gcm = Transform { transform_type: transform_type::ENCR, transform_id: transform_id::AES_GCM_16, key_length: Some(256) };
    let dh = Transform { transform_type: transform_type::DH, transform_id: transform_id::MODP_2048, key_length: None };
    let proposal = Proposal { num: 4, protocol_id: protocol_id::ESP, spi: vec![0, 0, 0, 9], transforms: vec![gcm, dh] };
    let offer = SecurityAssociation { proposals: vec![proposal] };
    let (answer, theirs) = answer_esp_offer(&offer, 0x77).unwrap();
    assert_eq!((answer.num, answer.spi, answer.transforms, theirs), (4, vec![0, 0, 0, 0x77], vec![gcm], 9));
    assert_eq!(sai2(&offer, 5).proposals[0].transforms, vec![gcm]);
    assert!(answer_esp_offer(&SecurityAssociation { proposals: Vec::new() }, 1).is_none());
}

/// RFC 7296 section 2.23: SHA-1 over the SPIs, the address and the port.
#[test]
fn nat_detection_hashes_the_address() {
    let ip = IpAddress::V4([192, 0, 2, 1]);
    let octets = [&1u64.to_be_bytes()[..], &2u64.to_be_bytes(), &[192, 0, 2, 1], &500u16.to_be_bytes()].concat();
    let hash = natt::address_hash(1, 2, ip, 500);
    assert_eq!(hash, HashAlgorithm::Sha1.digest(&octets));
    assert!(!natt::we_are_behind_nat(&hash, 1, 2, ip, 500) && natt::we_are_behind_nat(&hash, 1, 2, ip, 501));
    assert!(!natt::peer_is_behind_nat(&hash, 1, 2, ip, 500) && natt::peer_is_behind_nat(&hash, 1, 3, ip, 500));
    let notify = natt::source_ip_notify(1, 2, ip, 500);
    assert_eq!((notify.notify_type, notify.data), (notify_type::NAT_DETECTION_SOURCE_IP, hash));
    assert_eq!(natt::unwrap_ike_4500(&natt::wrap_ike_4500(b"ike")), Some(&b"ike"[..]));
}

fn ike_header() -> IkeHeader {
    IkeHeader {
        initiator_spi: 1,
        responder_spi: 2,
        next_payload: PayloadType::NoNext,
        major_version: 2,
        minor_version: 0,
        exchange_type: ExchangeType::Informational,
        flags: Flags { initiator: true, version: false, response: false },
        message_id: 3,
        length: 0,
    }
}

/// What was sealed under a cipher opens under it, and under no other key; a
/// changed octet anywhere in it is found out.
#[test]
fn sealed_messages_open_under_the_same_keys_only() {
    for (encr, bits, integ) in [
        (transform_id::AES_GCM_16, 128, None),
        (transform_id::AES_GCM_16, 256, None),
        (transform_id::AES_CBC, 128, Some(transform_id::AUTH_HMAC_SHA1_96)),
        (transform_id::AES_CBC, 256, Some(transform_id::AUTH_HMAC_SHA2_256_128)),
    ] {
        let cipher = SkCipher::from_encr_integ(encr, bits, integ).unwrap();
        let sk_e = vec![5; cipher.key_len() + cipher.salt_len()];
        let sk_a = cipher.integ_algorithm().map_or(Vec::new(), |algo| vec![6; algo.key_len()]);
        let inner = [41, 0, 0, 8, 0, 0, 0x40, 0];
        let sealed = build_encrypted(cipher, ike_header(), PayloadType::Notify, &inner, &sk_e, &sk_a, &[1; 8]).unwrap();
        assert_eq!(open_encrypted(cipher, &sealed, &sk_e, &sk_a), Ok((PayloadType::Notify, inner.to_vec())), "{encr} {bits}");
        for at in [0, 20, 40, sealed.len() - 1] {
            let mut bad = sealed.clone();
            bad[at] ^= 1;
            assert!(open_encrypted(cipher, &bad, &sk_e, &sk_a).is_err(), "{encr} {bits}: octet {at}");
        }
        let mut other = sk_e.clone();
        other[0] ^= 1;
        let got = open_encrypted(cipher, &sealed, &other, &sk_a);
        assert_ne!(got, Ok((PayloadType::Notify, inner.to_vec())), "{encr} {bits}: another key");
    }
    assert_eq!(SkCipher::from_encr_integ(9999, 128, None), None);
}

#[test]
fn the_isakmp_framing_reads_back() {
    let header = IsakmpHeader {
        init_cookie: [1; 8],
        resp_cookie: [2; 8],
        next_payload: 8,
        version: 0x10,
        exchange_type: 5,
        flags: 1,
        message_id: 0x0102_0304,
        length: 28,
    };
    let mut wire = Vec::new();
    header.write(&mut wire);
    assert_eq!(wire.len(), HEADER_LEN);
    let read = IsakmpHeader::parse(&wire).unwrap();
    assert_eq!((read.init_cookie, read.message_id, read.encrypted()), ([1; 8], 0x0102_0304, true));
    let chain = vec![(payload::NOTIFY, vec![1, 2]), (payload::DELETE, Vec::new())];
    assert_eq!(encode_chain(&chain), vec![payload::DELETE, 0, 0, 6, 1, 2, 0, 0, 0, 4]);
    assert_eq!(parse_chain(payload::NOTIFY, &encode_chain(&chain)), Ok(chain));
    assert!(parse_chain(payload::NOTIFY, &[0, 0, 0, 9]).is_err());
}

#[test]
fn a_mode_config_payload_reads_back() {
    let config = ConfigPayload::new(1, 0x1234, vec![Attribute::short(16520, 2), Attribute::long_bytes(16521, b"user".to_vec())]);
    let read = ConfigPayload::parse(&config.to_bytes()).unwrap();
    assert_eq!(read.to_bytes(), config.to_bytes());
    assert_eq!(read.attr(16521).unwrap().bytes(), b"user".to_vec());
    assert_eq!(read.attr(16520).unwrap().as_u16(), Some(2));
    assert!(read.attr(1).is_none());
}

#[test]
fn ikev1_informationals_read_back() {
    let st = Phase1State {
        cky_i: [1; 8],
        cky_r: [2; 8],
        prf: PrfAlgorithm::Sha256,
        skeyid_a: vec![3; 32],
        cipher: BlockCipher::TripleDes,
        enc_key: (1..25).collect(),
        phase1_iv: vec![5; 8],
    };
    let probe = build_r_u_there(&st, 77, 0x0a0b_0c0d).unwrap();
    let (_, payloads, _) = parse_encrypted(&st, &probe, &phase2_iv(&st, 77)).unwrap();
    let (kind, body) = payloads.last().unwrap();
    assert_eq!(*kind, payload::NOTIFY);
    assert_eq!(parse_notify(body), Some((ikev1_notify::R_U_THERE, &[0x0a, 0x0b, 0x0c, 0x0d][..])));
    let delete = build_esp_delete(&st, 78, 0x0102_0304).unwrap();
    let (_, payloads, _) = parse_encrypted(&st, &delete, &phase2_iv(&st, 78)).unwrap();
    assert_eq!(parse_delete(&payloads.last().unwrap().1), Some((protocol::ESP, &[1, 2, 3, 4][..])));
    assert!(parse_encrypted(&st, &delete, &phase2_iv(&st, 79)).is_err(), "another Message ID's IV");
    let mut short = st;
    short.enc_key.pop();
    assert!(build_esp_delete(&short, 78, 1).is_err(), "a key the cipher does not take");
}

#[test]
fn durations_saturate() {
    let second = Duration::from_secs(1);
    assert_eq!(second.saturating_add(Duration::new(2, 5)).as_nanos(), 3_000_000_005);
    assert_eq!(second.saturating_sub(Duration::from_secs(2)), Duration::zero());
    assert_eq!(Duration::max().saturating_add(second), Duration::max());
    assert_eq!(Duration::max().saturating_mul(2), Duration::max());
    assert_eq!(Duration::saturating_from_nanos(u128::MAX), Duration::max());
    assert_eq!(Duration::from_millis(1), Duration::from_micros(1000));
}

/// An IPv4-mapped IPv6 address travels as IPv4.
#[test]
fn a_mapped_address_travels_as_ipv4() {
    assert!(IpAddress::V4([1, 2, 3, 4]).is_ipv4());
    assert!(IpAddress::V6([0, 0, 0, 0, 0, 0, 0, 0, 0, 0, 0xff, 0xff, 1, 2, 3, 4]).is_ipv4());
    assert!(!IpAddress::V6([0x20, 1, 0, 0, 0, 0, 0, 0, 0, 0, 0xff, 0xff, 1, 2, 3, 4]).is_ipv4());
}
