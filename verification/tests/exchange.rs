//! The IKE_SA_INIT exchange.

use ryke::addr::{Endpoint, IpAddress};
use ryke::crypto::DhGroup;
use ryke::error::IkeError;
use ryke::ikev2::exchange::{
    base_header, build_sa_init, default_offer, ike_cookie, initiator_complete, initiator_complete_natt,
    initiator_request, initiator_request_natt, initiator_request_natt_retry, initiator_request_natt_with, parse_sa_init,
    responder_respond, responder_respond_natt, CookiePolicy, LocalSecret, SaInitResult, SaInitRetry,
};
use ryke::ikev2::message::{payloads, Flags, IkeHeader, MessageBuilder, PayloadType, RawPayload};
use ryke::ikev2::natt;
use ryke::ikev2::payload::{
    notify_type, protocol_id, sighash, transform_id, transform_type, KeyExchange, Nonce, Notify, Proposal,
    SecurityAssociation, Transform,
};
use ryke::role::Role;

/// An IPv4 address and port, from its text.
fn at(text: &str) -> Endpoint {
    let (ip, port) = text.split_once(':').unwrap();
    let octets: Vec<u8> = ip.split('.').map(|part| part.parse().unwrap()).collect();
    Endpoint { ip: IpAddress::V4([octets[0], octets[1], octets[2], octets[3]]), port: port.parse().unwrap() }
}

/// All payloads of a well-formed chain.
fn collected(first: PayloadType, body: &[u8]) -> Vec<RawPayload<'_>> {
    let mut iter = payloads(first, body);
    let mut all = Vec::new();
    while let Some(payload) = iter.next() {
        all.push(payload.unwrap());
    }
    all
}

/// A Key Length attribute of 256, and an attribute nobody defines.
const KEY_LENGTH_256: [u8; 4] = [0x80, 14, 1, 0];
const UNKNOWN_ATTRIBUTE: [u8; 4] = [0x80, 99, 0, 1];

/// One Transform substructure, without its "last substructure" octet set.
fn transform(transform_type: u8, id: u16, attributes: &[u8]) -> Vec<u8> {
    let length = (8 + attributes.len()) as u16;
    let mut out = vec![3, 0];
    out.extend_from_slice(&length.to_be_bytes());
    out.extend_from_slice(&[transform_type, 0]);
    out.extend_from_slice(&id.to_be_bytes());
    out.extend_from_slice(attributes);
    out
}

/// One Proposal substructure.
fn proposal(num: u8, protocol: u8, spi: &[u8], transforms: &[Vec<u8>]) -> Vec<u8> {
    let mut body = Vec::new();
    for (i, t) in transforms.iter().enumerate() {
        let mut t = t.clone();
        t[0] = if i + 1 == transforms.len() { 0 } else { 3 };
        body.extend_from_slice(&t);
    }
    let length = (8 + spi.len() + body.len()) as u16;
    let mut out = vec![2, 0];
    out.extend_from_slice(&length.to_be_bytes());
    out.extend_from_slice(&[num, protocol, spi.len() as u8, transforms.len() as u8]);
    out.extend_from_slice(spi);
    out.extend_from_slice(&body);
    out
}

/// The body of an SA payload.
fn sa(proposals: &[Vec<u8>]) -> Vec<u8> {
    let mut out = Vec::new();
    for (i, p) in proposals.iter().enumerate() {
        let mut p = p.clone();
        p[0] = if i + 1 == proposals.len() { 0 } else { 2 };
        out.extend_from_slice(&p);
    }
    out
}

fn init_secret() -> LocalSecret {
    LocalSecret { dh_private: [7u8; 32], nonce: vec![0x11; 32], spi: 0xAAAA_AAAA_1111_2222 }
}
fn resp_secret() -> LocalSecret {
    LocalSecret { dh_private: [9u8; 32], nonce: vec![0x22; 32], spi: 0xBBBB_BBBB_3333_4444 }
}

#[test]
fn local_secret_debug_never_prints_the_raw_dh_private_or_nonce() {
    let secret = init_secret();
    let printed = secret.redacted();
    assert!(!printed.contains("7, 7, 7"));
    assert!(!printed.contains("17, 17, 17"));
    assert!(printed.contains("REDACTED"));
    assert!(printed.contains(&secret.spi.to_string()));
}

#[test]
fn local_secret_is_wiped_by_its_zeroize_impl() {
    let mut secret = init_secret();
    secret.zeroize();
    assert_eq!(secret.dh_private, [0u8; 32]);
    assert!(secret.nonce.is_empty());
    assert_eq!(secret.spi, 0xAAAA_AAAA_1111_2222);
}

#[test]
fn initiator_natt_detects_when_we_are_translated() {
    // The initiator claims a private address; the responder observes a
    // different (translated) one -- exactly what a home-router NAT does. The
    // responder itself is reachable directly (no NAT on its side).
    let claimed = at("10.0.0.167:55000");
    let responder_addr = at("198.51.100.7:500");
    let observed = at("203.0.113.50:55000"); // post-NAT

    let request = initiator_request_natt(&init_secret(), &default_offer(), claimed, responder_addr);
    let response = match responder_respond_natt(&request, &resp_secret(), responder_addr, observed, None).unwrap() {
        SaInitResult::Established { response, .. } => response,
        other => panic!("expected Established, got {:?}", std::mem::discriminant(&other)),
    };

    let (sa, status) = initiator_complete_natt(&init_secret(), &request, &response, claimed, responder_addr).unwrap();
    assert_eq!(sa.role, Role::Initiator);
    assert!(status.dest_notify_present);
    assert!(status.we_are_natted, "our claimed address disagrees with what the responder observed");
    assert!(!status.peer_is_natted);
    assert!(status.float_to_4500());
}

#[test]
fn initiator_natt_no_float_when_addresses_agree() {
    // Both sides see exactly the addresses they claim -- no NAT anywhere.
    let our = at("203.0.113.9:500");
    let responder_addr = at("198.51.100.7:500");

    let request = initiator_request_natt(&init_secret(), &default_offer(), our, responder_addr);
    let response = match responder_respond_natt(&request, &resp_secret(), responder_addr, our, None).unwrap() {
        SaInitResult::Established { response, .. } => response,
        other => panic!("expected Established, got {:?}", std::mem::discriminant(&other)),
    };

    let (_, status) = initiator_complete_natt(&init_secret(), &request, &response, our, responder_addr).unwrap();
    assert!(status.dest_notify_present && status.source_notify_present);
    assert!(!status.float_to_4500(), "matching addresses on both sides -- no NAT to detect");
}

/// What the responder sees is all that matters for a forced float: it takes the
/// request's `NAT_DETECTION_SOURCE_IP` hash and compares it to the address the
/// packet actually came from -- a mismatch is how it learns to use UDP 4500.
#[test]
fn forced_natt_makes_the_responder_see_a_nat_where_there_is_none() {
    for (our, responder_addr) in [
        (at("203.0.113.9:500"), at("198.51.100.7:500")),
        (
            Endpoint { ip: IpAddress::V6([0x20, 0x01, 0x0d, 0xb8, 0, 0, 0, 0, 0, 0, 0, 0, 0, 0, 0, 9]), port: 500 },
            Endpoint { ip: IpAddress::V6([0x20, 0x01, 0x0d, 0xb8, 0, 1, 0, 0, 0, 0, 0, 0, 0, 0, 0, 7]), port: 500 },
        ),
    ] {
        let source_hash_matches = |force: bool| {
            let request = initiator_request_natt_with(&init_secret(), &default_offer(), our, responder_addr, force);
            let header = IkeHeader::parse(&request).unwrap();
            let payloads = parse_sa_init(&header, &request[IkeHeader::LEN..]).unwrap();
            let source = payloads.nat_source.expect("the request carries NAT_DETECTION_SOURCE_IP");
            let dest = payloads.nat_dest.expect("the request carries NAT_DETECTION_DESTINATION_IP");
            assert!(
                !natt::peer_is_behind_nat(&dest, header.initiator_spi, 0, responder_addr.ip, responder_addr.port),
                "the destination hash stays honest either way"
            );
            !natt::peer_is_behind_nat(&source, header.initiator_spi, 0, our.ip, our.port)
        };
        assert!(source_hash_matches(false), "unforced: the responder sees the real address, no NAT ({our:?})");
        assert!(!source_hash_matches(true), "forced: the responder must see a mismatch and float ({our:?})");
    }
}

/// Forcing changes what the *responder* concludes; our own float is the caller's
/// decision (`NatStatus::forced`), because our own detection sees no NAT.
#[test]
fn forced_natt_does_not_change_our_own_detection() {
    let our = at("203.0.113.9:500");
    let responder_addr = at("198.51.100.7:500");

    let request = initiator_request_natt_with(&init_secret(), &default_offer(), our, responder_addr, true);
    let response = match responder_respond_natt(&request, &resp_secret(), responder_addr, our, None).unwrap() {
        SaInitResult::Established { response, .. } => response,
        other => panic!("expected Established, got {:?}", std::mem::discriminant(&other)),
    };
    let (_, mut status) = initiator_complete_natt(&init_secret(), &request, &response, our, responder_addr).unwrap();
    assert!(!status.we_are_natted && !status.peer_is_natted && !status.forced);
    assert!(!status.float_to_4500(), "detection alone sees nothing");
    status.forced = true;
    assert!(status.float_to_4500(), "...and forcing is what makes us float");
}

#[test]
fn sa_init_agrees_over_modp_groups() {
    // Offer a MODP group instead of X25519; the responder must select it and
    // both sides must derive the identical SK_* set (proves the DhGroup wiring).
    for gid in [transform_id::MODP_2048, transform_id::MODP_1024] {
        let offer = SecurityAssociation {
            proposals: vec![Proposal {
                num: 1,
                protocol_id: protocol_id::IKE,
                spi: Vec::new(),
                transforms: vec![
                    Transform { transform_type: transform_type::ENCR, transform_id: transform_id::AES_GCM_16, key_length: Some(256) },
                    Transform { transform_type: transform_type::PRF, transform_id: transform_id::PRF_HMAC_SHA2_256, key_length: None },
                    Transform { transform_type: transform_type::DH, transform_id: gid, key_length: None },
                ],
            }],
        };
        let request = initiator_request(&init_secret(), &offer);
        let (response, resp_done) = responder_respond(&request, &resp_secret()).unwrap();
        let init_done = initiator_complete(&init_secret(), &request, &response).unwrap();
        assert_eq!(resp_done.suite.dh_id, gid);
        assert!(init_done.keys == resp_done.keys, "group {gid}: both sides derive the same keys");
    }
}

#[test]
fn sa_init_advertises_and_captures_signature_hashes() {
    // Each IKE_SA_INIT carries N(SIGNATURE_HASH_ALGORITHMS) (RFC 7427 §4), and
    // each side records what the other advertised.
    let request = initiator_request(&init_secret(), &default_offer());
    let (response, resp_done) = responder_respond(&request, &resp_secret()).unwrap();
    let init_done = initiator_complete(&init_secret(), &request, &response).unwrap();
    assert!(resp_done.peer_signature_hashes.contains(&sighash::SHA2_256));
    assert!(init_done.peer_signature_hashes.contains(&sighash::SHA2_256));
}

#[test]
fn sa_init_advertises_and_captures_fragmentation_support() {
    // RFC 7383 §2.4: both sides always advertise
    // IKEV2_FRAGMENTATION_SUPPORTED, and each records the other's.
    let request = initiator_request(&init_secret(), &default_offer());
    let (response, resp_done) = responder_respond(&request, &resp_secret()).unwrap();
    let init_done = initiator_complete(&init_secret(), &request, &response).unwrap();
    assert!(resp_done.peer_supports_fragmentation, "responder must see the initiator's notify");
    assert!(init_done.peer_supports_fragmentation, "initiator must see the responder's notify");
}

#[test]
fn responder_natt_emits_nat_detection_and_still_completes() {
    let request = initiator_request(&init_secret(), &default_offer());
    let our = at("203.0.113.9:500");
    let peer = at("198.51.100.7:41234");
    let response = match responder_respond_natt(&request, &resp_secret(), our, peer, None).unwrap() {
        SaInitResult::Established { response, .. } => response,
        SaInitResult::InvalidKe { .. } => panic!("matching DH group must establish, not renegotiate"),
        SaInitResult::CookieRequired { .. } => panic!("no cookie policy was passed"),
    };

    // An initiator still parses the response — the extra notifies are tolerated.
    let init_done = initiator_complete(&init_secret(), &request, &response).unwrap();
    assert_eq!(init_done.role, Role::Initiator);

    // Both NAT_DETECTION notifies are present so a NAT'd client floats to 4500.
    let hdr = IkeHeader::parse(&response).unwrap();
    let mut kinds = Vec::new();
    for p in collected(hdr.next_payload, &response[IkeHeader::LEN..]) {
        if p.payload_type == PayloadType::Notify {
            kinds.push(Notify::parse(p.data).unwrap().notify_type);
        }
    }
    assert!(kinds.contains(&notify_type::NAT_DETECTION_SOURCE_IP));
    assert!(kinds.contains(&notify_type::NAT_DETECTION_DESTINATION_IP));

    // The plain (non-NAT-T) responder emits neither.
    let (plain, _) = responder_respond(&request, &resp_secret()).unwrap();
    let phdr = IkeHeader::parse(&plain).unwrap();
    for p in collected(phdr.next_payload, &plain[IkeHeader::LEN..]) {
        if p.payload_type == PayloadType::Notify {
            let nt = Notify::parse(p.data).unwrap().notify_type;
            assert_ne!(nt, notify_type::NAT_DETECTION_SOURCE_IP);
            assert_ne!(nt, notify_type::NAT_DETECTION_DESTINATION_IP);
        }
    }
}

#[test]
fn cookie_gate_challenges_when_required_and_passes_when_not() {
    let request = initiator_request(&init_secret(), &default_offer());
    let our = at("203.0.113.9:500");
    let peer = at("198.51.100.7:1234");
    let peer_ip = match peer.ip {
        IpAddress::V4(a) => a.to_vec(),
        _ => unreachable!(),
    };

    // Required + no cookie echoed → a COOKIE challenge (no DH, no state).
    let pol = CookiePolicy { secret: b"s3cret", peer: &peer_ip, required: true };
    assert!(matches!(
        responder_respond_natt(&request, &resp_secret(), our, peer, Some(pol)).unwrap(),
        SaInitResult::CookieRequired { .. }
    ));
    // A cookie from a different secret/peer must NOT be accepted as valid —
    // still challenged (the check is against ike_cookie of THIS secret+peer).
    let other = ike_cookie(b"other", 1, b"ni", b"1.2.3.4");
    assert_ne!(other, ike_cookie(b"s3cret", 1, b"ni", &peer_ip));

    // Not required → normal establishment (gate is off under low load).
    let pol2 = CookiePolicy { secret: b"s3cret", peer: &peer_ip, required: false };
    assert!(matches!(
        responder_respond_natt(&request, &resp_secret(), our, peer, Some(pol2)).unwrap(),
        SaInitResult::Established { .. }
    ));
}

/// Run initiator ↔ responder in-process and confirm
/// both sides independently derive the *same* SK_* set.
#[test]
fn initiator_and_responder_agree_on_keys() {
    let init = init_secret();
    let resp = resp_secret();

    let request = initiator_request(&init, &default_offer());
    let (response, resp_done) = responder_respond(&request, &resp).unwrap();
    let init_done = initiator_complete(&init, &request, &response).unwrap();

    assert!(init_done.keys == resp_done.keys, "both sides must derive identical keys");
    assert!(!init_done.keys.sk_d.is_empty());
    assert_eq!(init_done.keys.sk_ei.len(), 36); // AES-256 key (32) + GCM salt (4)
    assert!(init_done.keys.sk_ai.is_empty()); // AEAD: no separate integ key

    // SPI bookkeeping is consistent from both perspectives.
    assert_eq!(init_done.spi_i, init.spi);
    assert_eq!(init_done.spi_r, resp.spi);
    assert_eq!(resp_done.spi_i, init.spi);
    assert_eq!(resp_done.spi_r, resp.spi);

    assert_eq!(init_done.suite.encr_id, transform_id::AES_GCM_16);
    assert_eq!(init_done.suite, resp_done.suite);
}

#[test]
fn different_nonces_produce_different_keys() {
    let init = init_secret();
    let resp = resp_secret();
    let request = initiator_request(&init, &default_offer());
    let (_, first) = responder_respond(&request, &resp).unwrap();

    let mut resp2 = resp_secret();
    resp2.nonce = vec![0x77; 32];
    let (_, second) = responder_respond(&request, &resp2).unwrap();
    assert!(first.keys != second.keys);
}

#[test]
fn responder_rejects_unsupported_offer() {
    // Offer a DH group id that doesn't exist -- ryke can't implement it.
    let mut offer = default_offer();
    offer.proposals[0].transforms[2] =
        Transform { transform_type: transform_type::DH, transform_id: 9999, key_length: None };
    let request = initiator_request(&init_secret(), &offer);
    let err = responder_respond(&request, &resp_secret()).err().unwrap();
    assert_eq!(err, IkeError::NoProposalChosen);
}

#[test]
fn initiator_rejects_a_suite_the_responder_never_actually_offered() {
    // A misbehaving (or on-path) responder answers with a suite this crate
    // knows how to speak at all (so `negotiate::select` alone would happily
    // accept it) but that was never in our `default_offer()` -- a downgrade
    // from AES-GCM-256 to classic AES-CBC-128/PRF-MD5/HMAC-MD5-96/MODP-768.
    // RFC 7296 §2.7: the responder MUST pick from what was actually offered.
    let init = init_secret();
    let resp = resp_secret();
    let request = initiator_request(&init, &default_offer());

    let downgrade = SecurityAssociation {
        proposals: vec![Proposal {
            num: 1,
            protocol_id: protocol_id::IKE,
            spi: Vec::new(),
            transforms: vec![
                Transform { transform_type: transform_type::ENCR, transform_id: transform_id::AES_CBC, key_length: Some(128) },
                Transform { transform_type: transform_type::PRF, transform_id: transform_id::PRF_HMAC_MD5, key_length: None },
                Transform { transform_type: transform_type::INTEG, transform_id: transform_id::AUTH_HMAC_MD5_96, key_length: None },
                Transform { transform_type: transform_type::DH, transform_id: transform_id::MODP_768, key_length: None },
            ],
        }],
    };
    let group = DhGroup::Modp768;
    let public = group.public(&resp.dh_private);
    let header = base_header(init.spi, resp.spi, Flags { initiator: false, version: false, response: true });
    let response = build_sa_init(header, &downgrade, group.transform_id(), &public, &resp.nonce, &[]);

    let err = initiator_complete(&init, &request, &response).err().unwrap();
    assert_eq!(err, IkeError::NoProposalChosen);
}

#[test]
fn initiator_accepts_only_one_of_its_proposals_with_one_transform_of_each_type() {
    // RFC 7296 §2.7 / §3.3.6: the answer is a single proposal of ours, with
    // exactly one transform of each type we offered and nothing else, and
    // (§3.3.1) the number of the proposal it accepted. Each forged answer
    // below carries only transforms we offered -- so the suite it names is
    // one `matches_offer` recognises -- and must still be refused.
    let init = init_secret();
    let resp = resp_secret();
    let request = initiator_request(&init, &default_offer());
    let ours = default_offer().proposals[0].clone();
    let dup_dh = {
        let mut p = ours.clone();
        p.transforms.push(p.transforms[2].clone());
        p
    };
    let renumbered = Proposal { num: 2, ..ours.clone() };
    let bad: [(&str, Vec<Proposal>); 3] = [
        ("two proposals", vec![ours.clone(), ours.clone()]),
        ("two DH transforms", vec![dup_dh]),
        ("a proposal number we never sent", vec![renumbered]),
    ];
    let group = DhGroup::X25519;
    let public = group.public(&resp.dh_private);
    let header = base_header(init.spi, resp.spi, Flags { initiator: false, version: false, response: true });
    for (what, proposals) in bad {
        let answer = SecurityAssociation { proposals };
        let response = build_sa_init(header, &answer, group.transform_id(), &public, &resp.nonce, &[]);
        assert_eq!(initiator_complete(&init, &request, &response).err().unwrap(), IkeError::NoProposalChosen, "{what}");
    }

    // Positive control: the same responder answering our proposal as offered.
    let answer = SecurityAssociation { proposals: vec![ours] };
    let response = build_sa_init(header, &answer, group.transform_id(), &public, &resp.nonce, &[]);
    initiator_complete(&init, &request, &response).expect("our own proposal, echoed back, completes");
}

/// An IKE proposal of AES-GCM-256, PRF-SHA256, `integ` and X25519.
fn gcm_offer(integ: &[u16]) -> Proposal {
    let mut transforms = vec![
        Transform { transform_type: transform_type::ENCR, transform_id: transform_id::AES_GCM_16, key_length: Some(256) },
        Transform { transform_type: transform_type::PRF, transform_id: transform_id::PRF_HMAC_SHA2_256, key_length: None },
    ];
    transforms.extend(integ.iter().map(|&id| Transform { transform_type: transform_type::INTEG, transform_id: id, key_length: None }));
    transforms.push(Transform { transform_type: transform_type::DH, transform_id: transform_id::X25519, key_length: None });
    Proposal { num: 1, protocol_id: protocol_id::IKE, spi: Vec::new(), transforms }
}

fn integ_of(proposal: &Proposal) -> Vec<u16> {
    proposal.transforms.iter().filter(|t| t.transform_type == transform_type::INTEG).map(|t| t.transform_id).collect()
}

/// RFC 7296 §3.3: a combined-mode cipher is offered with no integrity
/// algorithm or with a single INTEG NONE, and either is taken; §2.7: the
/// answer has one transform of each type offered, so an INTEG NONE offered
/// is one answered. Full exchange, both sides deriving the same keys.
#[test]
fn an_aead_offer_is_answered_and_completed_with_or_without_an_integ_none() {
    const NONE: u16 = transform_id::INTEG_NONE;
    const SHA256: u16 = transform_id::AUTH_HMAC_SHA2_256_128;
    let (init, resp) = (init_secret(), resp_secret());
    for (what, integ, answered) in [
        ("no INTEG", vec![], vec![]),
        ("INTEG NONE", vec![NONE], vec![NONE]),
        ("INTEG SHA256 and NONE", vec![SHA256, NONE], vec![NONE]),
    ] {
        let offer = SecurityAssociation { proposals: vec![gcm_offer(&integ)] };
        let request = initiator_request(&init, &offer);
        let (response, resp_sa) = responder_respond(&request, &resp).unwrap_or_else(|e| panic!("{what}: the responder refused it: {e:?}"));
        let header = IkeHeader::parse(&response).unwrap();
        let answer = parse_sa_init(&header, &response[IkeHeader::LEN..]).unwrap().sa;
        assert_eq!(answer.proposals.len(), 1, "{what}");
        assert_eq!(integ_of(&answer.proposals[0]), answered, "{what}: the INTEG transforms answered");
        let init_sa = initiator_complete(&init, &request, &response).unwrap_or_else(|e| panic!("{what}: the initiator refused the answer: {e:?}"));
        assert_eq!(init_sa.suite, resp_sa.suite, "{what}");
        assert_eq!((init_sa.suite.encr_id, init_sa.suite.integ_id), (transform_id::AES_GCM_16, None), "{what}");
        assert_eq!(init_sa.keys.sk_ei, resp_sa.keys.sk_ei, "{what}");
        assert_eq!(init_sa.keys.sk_er, resp_sa.keys.sk_er, "{what}");
    }
    // Not taken: a combined-mode cipher whose only integrity is a real algorithm.
    let offer = SecurityAssociation { proposals: vec![gcm_offer(&[SHA256])] };
    let request = initiator_request(&init, &offer);
    assert_eq!(responder_respond(&request, &resp).err().unwrap(), IkeError::NoProposalChosen, "GCM with INTEG SHA256 only");
}

/// RFC 7296 §3.3.6: the initiator "MUST check that the accepted offer is
/// consistent with one of its proposals" -- with an INTEG NONE exactly where
/// it offered one, and never a real algorithm on an AEAD suite.
#[test]
fn the_initiator_takes_an_aead_answer_only_with_the_integ_none_it_offered() {
    const NONE: u16 = transform_id::INTEG_NONE;
    const SHA256: u16 = transform_id::AUTH_HMAC_SHA2_256_128;
    let (init, resp) = (init_secret(), resp_secret());
    let group = DhGroup::X25519;
    let public = group.public(&resp.dh_private);
    let header = base_header(init.spi, resp.spi, Flags { initiator: false, version: false, response: true });
    let complete = |offered: &[u16], answered: &[u16]| {
        let request = initiator_request(&init, &SecurityAssociation { proposals: vec![gcm_offer(offered)] });
        let answer = SecurityAssociation { proposals: vec![gcm_offer(answered)] };
        let response = build_sa_init(header, &answer, group.transform_id(), &public, &resp.nonce, &[]);
        initiator_complete(&init, &request, &response).map(|_| ())
    };
    assert_eq!(complete(&[NONE], &[NONE]), Ok(()), "NONE offered, NONE answered");
    assert_eq!(complete(&[], &[]), Ok(()), "nothing offered, nothing answered");
    assert_eq!(complete(&[SHA256, NONE], &[NONE]), Ok(()), "SHA256 and NONE offered, NONE answered");
    let refused = Err(IkeError::NoProposalChosen);
    assert_eq!(complete(&[], &[NONE]), refused, "NONE answered, none offered");
    assert_eq!(complete(&[NONE], &[]), refused, "NONE offered, INTEG left out");
    assert_eq!(complete(&[NONE], &[NONE, NONE]), refused, "NONE answered twice");
    assert_eq!(complete(&[SHA256, NONE], &[SHA256]), refused, "SHA256 answered to a GCM offer");
    assert_eq!(complete(&[SHA256, NONE], &[SHA256, NONE]), refused, "SHA256 and NONE answered");
}

/// An `IKE_SA_INIT` whose SA payload body is `sa_body`, as it went on the
/// wire: for a proposal `SecurityAssociation` cannot express (an attribute we
/// do not understand). `response` has the responder's KE and header.
fn raw_sa_init(sa_body: &[u8], response: bool) -> Vec<u8> {
    let (init, resp) = (init_secret(), resp_secret());
    let group = DhGroup::X25519;
    let (header, private, nonce) = if response {
        (base_header(init.spi, resp.spi, Flags { initiator: false, version: false, response: true }), resp.dh_private, resp.nonce)
    } else {
        (base_header(init.spi, 0, Flags { initiator: true, version: false, response: false }), init.dh_private, init.nonce)
    };
    let ke = KeyExchange { dh_group: group.transform_id(), data: group.public(&private) };
    MessageBuilder::new(header)
        .push(PayloadType::SecurityAssociation, sa_body.to_vec())
        .push(PayloadType::KeyExchange, ke.to_bytes())
        .push(PayloadType::Nonce, Nonce { data: nonce }.to_bytes())
        .build()
}

fn gcm256_prf_x25519() -> Vec<Vec<u8>> {
    vec![
        transform(transform_type::ENCR, transform_id::AES_GCM_16, &KEY_LENGTH_256),
        transform(transform_type::PRF, transform_id::PRF_HMAC_SHA2_256, &[]),
        transform(transform_type::DH, transform_id::X25519, &[]),
    ]
}

#[test]
fn a_request_with_a_transform_type_we_do_not_know_is_refused_even_if_that_transform_is_unreadable() {
    // RFC 7296 §3.3.6: a proposal with a Transform Type the responder does not
    // understand is unacceptable. The transform naming it carries an attribute
    // we do not understand, which used to make it disappear from the offer --
    // and the proposal was answered as if it asked for nothing more.
    let offer = |extra: Option<Vec<u8>>| {
        let mut transforms = gcm256_prf_x25519();
        transforms.extend(extra);
        raw_sa_init(&sa(&[proposal(1, protocol_id::IKE, &[], &transforms)]), false)
    };
    responder_respond(&offer(None), &resp_secret()).expect("control: the offer without it is answered");
    for (what, extra) in [
        ("a type we don't know, with an attribute we don't", transform(99, 7, &UNKNOWN_ATTRIBUTE)),
        ("a type we don't know", transform(99, 7, &[])),
    ] {
        assert_eq!(responder_respond(&offer(Some(extra)), &resp_secret()).err().unwrap(), IkeError::NoProposalChosen, "{what}");
    }
}

#[test]
fn initiator_takes_no_answer_with_two_encryption_transforms_one_of_which_it_cannot_read() {
    // §2.7 / §3.3.6: "exactly one transform of each type" -- which the
    // initiator MUST check. The unreadable one is still one, and its
    // presence made the answer look like the single transform we offered.
    let init = init_secret();
    let request = initiator_request(&init, &default_offer());
    let answer = |extra: Option<Vec<u8>>| {
        let mut transforms = gcm256_prf_x25519();
        transforms.extend(extra);
        raw_sa_init(&sa(&[proposal(1, protocol_id::IKE, &[], &transforms)]), true)
    };
    initiator_complete(&init, &request, &answer(None)).expect("control: our own proposal, echoed back");
    let unreadable_encr = transform(transform_type::ENCR, transform_id::AES_GCM_16, &[&KEY_LENGTH_256[..], &UNKNOWN_ATTRIBUTE[..]].concat());
    for (what, extra) in [("a second ENCR we cannot read", unreadable_encr), ("a type nobody knows, unreadable", transform(99, 7, &UNKNOWN_ATTRIBUTE))] {
        assert_eq!(initiator_complete(&init, &request, &answer(Some(extra))).err().unwrap(), IkeError::NoProposalChosen, "{what}");
    }
}

#[test]
fn responder_rejects_wrong_ke_group() {
    // SA offers X25519 (accepted) but the KE payload claims MODP-2048.
    let init = init_secret();
    // Build a request whose SA offers X25519 but whose KE claims MODP-2048.
    let public = DhGroup::X25519.public(&init.dh_private);
    let header = base_header(init.spi, 0, Flags { initiator: true, version: false, response: false });
    let bad_ke = KeyExchange { dh_group: transform_id::MODP_2048, data: public.to_vec() };
    let request = MessageBuilder::new(header)
        .push(PayloadType::SecurityAssociation, default_offer().to_bytes())
        .push(PayloadType::KeyExchange, bad_ke.to_bytes())
        .push(PayloadType::Nonce, init.nonce.clone())
        .build();
    let err = responder_respond(&request, &resp_secret()).err().unwrap();
    assert_eq!(err, IkeError::DhGroupMismatch { expected: transform_id::X25519, got: transform_id::MODP_2048 });
}

/// A responder under load
/// answers `IKE_SA_INIT` with only a COOKIE notify and keeps no
/// half-open state at all (RFC 7296 §2.6) -- this used to fall through
/// `parse_sa_init`'s normal payload checks and surface as a generic
/// `MissingPayload("SA")`, indistinguishable from a malformed message,
/// so a caller had nothing to retry on. It must come back as the
/// specific challenge instead.
#[test]
fn initiator_complete_treats_a_bare_cookie_response_as_a_retryable_challenge() {
    let init = init_secret();
    let request = initiator_request(&init, &default_offer());
    let header = base_header(init.spi, 0, Flags { initiator: false, version: false, response: true });
    let notify = Notify::status(notify_type::COOKIE, vec![0xAA; 32]);
    let response = MessageBuilder::new(header).push(PayloadType::Notify, notify.to_bytes()).build();

    let err = initiator_complete(&init, &request, &response).err().unwrap();
    assert_eq!(err, IkeError::CookieRequired { cookie: vec![0xAA; 32] });
}

/// INVALID_KE_PAYLOAD (RFC 7296 §1.2/§2.7) is
/// also in the error-notify range and also carries no other payloads --
/// it used to be caught by the generic `is_error()` check and surfaced as
/// `PeerRejected`, exactly as if the responder had refused the exchange
/// outright, instead of the retryable DH-group correction it actually is.
#[test]
fn initiator_complete_treats_a_bare_invalid_ke_response_as_a_retryable_challenge() {
    let init = init_secret();
    let request = initiator_request(&init, &default_offer());
    let header = base_header(init.spi, 0, Flags { initiator: false, version: false, response: true });
    let notify = Notify::status(notify_type::INVALID_KE_PAYLOAD, transform_id::MODP_2048.to_be_bytes().to_vec());
    let response = MessageBuilder::new(header).push(PayloadType::Notify, notify.to_bytes()).build();

    let err = initiator_complete(&init, &request, &response).err().unwrap();
    assert_eq!(err, IkeError::InvalidKeGroup(transform_id::MODP_2048));
}

/// RFC 7296 §2.6: the retry carries the COOKIE "as the first payload, and
/// all other payloads unchanged" -- byte for byte the first attempt after it.
#[test]
fn a_cookie_retry_leads_with_the_cookie_and_resends_the_rest_unchanged() {
    let init = init_secret();
    let (ours, peer) = (at("192.0.2.1:500"), at("198.51.100.1:500"));
    let first = initiator_request_natt_retry(&init, &default_offer(), ours, peer, false, None, None);
    let retry = initiator_request_natt_retry(&init, &default_offer(), ours, peer, false, Some(&[0xAB; 20]), None);

    let header = IkeHeader::parse(&retry).unwrap();
    assert_eq!(header.next_payload, PayloadType::Notify);
    let lead = payloads(header.next_payload, &retry[IkeHeader::LEN..]).next().unwrap().unwrap();
    let cookie = Notify::parse(lead.data).unwrap();
    assert_eq!((cookie.notify_type, cookie.data), (notify_type::COOKIE, vec![0xAB; 20]));
    // Generic payload header (4) + Notify header (4) + the cookie.
    let lead_len = 4 + 4 + 20;
    assert_eq!(retry[IkeHeader::LEN], first[16], "the cookie is followed by what the first attempt led with");
    assert_eq!(&retry[IkeHeader::LEN + lead_len..], &first[IkeHeader::LEN..]);
    assert_eq!((header.message_id, header.initiator_spi, header.responder_spi), (0, init.spi, 0));
}

/// RFC 7296 §2.6: COOKIE data "MUST be between 1 and 64 octets in length
/// (inclusive)". A bare notify outside that range is no challenge to echo.
#[test]
fn a_cookie_outside_1_to_64_octets_is_not_echoed() {
    let init = init_secret();
    let request = initiator_request(&init, &default_offer());
    let answer = |len: usize| {
        let header = base_header(init.spi, 0, Flags { initiator: false, version: false, response: true });
        let notify = Notify::status(notify_type::COOKIE, vec![0xAA; len]);
        let response = MessageBuilder::new(header).push(PayloadType::Notify, notify.to_bytes()).build();
        initiator_complete(&init, &request, &response).err().unwrap()
    };
    for len in [1, 64] {
        assert_eq!(answer(len), IkeError::CookieRequired { cookie: vec![0xAA; len] }, "{len} octets");
    }
    for len in [0, 65, 200] {
        assert_eq!(answer(len), IkeError::MissingPayload("SA"), "{len} octets");
    }
}

/// `message` with its header Length set to `declared` and `extra` bytes
/// appended after it.
fn relength(message: &[u8], declared: i64, extra: &[u8]) -> Vec<u8> {
    let mut out = [message, extra].concat();
    let length = (message.len() as i64 + declared) as u32;
    out[24..28].copy_from_slice(&length.to_be_bytes());
    out
}

/// RFC 7296 §3.1: the header's Length is the length of the whole message.
/// IKE_SA_INIT is unprotected -- and AUTH later signs these exact octets --
/// so a datagram that disagrees with its own header is not taken as one.
#[test]
fn an_sa_init_whose_length_is_not_the_datagram_length_is_malformed() {
    let request = initiator_request(&init_secret(), &default_offer());
    let (response, _) = responder_respond(&request, &resp_secret()).unwrap();
    // Controls: both messages as built are consistent and accepted.
    assert_eq!(IkeHeader::parse(&request).unwrap().length as usize, request.len());
    assert!(initiator_complete(&init_secret(), &request, &response).is_ok());

    let bad = [(-4, &[][..]), (4, &[][..]), (0, &[0u8; 4][..]), (-1, &[][..])];
    for (declared, extra) in bad {
        let what = format!("Length {declared:+}, {} byte(s) appended", extra.len());
        let request_bad = relength(&request, declared, extra);
        assert!(
            matches!(responder_respond(&request_bad, &resp_secret()), Err(IkeError::BadLength { .. })),
            "responder took a request with {what}"
        );
        let response_bad = relength(&response, declared, extra);
        assert!(
            matches!(initiator_complete(&init_secret(), &request, &response_bad), Err(IkeError::BadLength { .. })),
            "initiator took a response with {what}"
        );
    }
}

/// `default_offer` (X25519) also proposing MODP-2048 and ECP-256.
fn offer_with_three_groups() -> SecurityAssociation {
    let mut offer = default_offer();
    for id in [transform_id::MODP_2048, transform_id::ECP256] {
        offer.proposals[0].transforms.push(Transform { transform_type: transform_type::DH, transform_id: id, key_length: None });
    }
    offer
}

/// §2.6.1: the longer exchange (cookie, INVALID_KE, fresh cookie) is
/// followed, the latest cookie is the one echoed, and cookies are bounded.
#[test]
fn an_sa_init_retry_follows_cookies_and_one_group_correction() {
    let offer = offer_with_three_groups();
    let mut retry = SaInitRetry::default();
    retry.absorb(IkeError::CookieRequired { cookie: vec![1] }, &offer).unwrap();
    retry.absorb(IkeError::InvalidKeGroup(transform_id::MODP_2048), &offer).unwrap();
    retry.absorb(IkeError::CookieRequired { cookie: vec![2] }, &offer).unwrap();
    assert_eq!((retry.cookie.as_deref(), retry.group), (Some(&[2u8][..]), Some(DhGroup::Modp2048)));
    let request = initiator_request_natt_retry(
        &init_secret(), &offer, at("192.0.2.1:500"), at("198.51.100.1:500"),
        false, retry.cookie.as_deref(), retry.group,
    );
    let header = IkeHeader::parse(&request).unwrap();
    let ke = collected(header.next_payload, &request[IkeHeader::LEN..])
        .into_iter()
        .find(|p| p.payload_type == PayloadType::KeyExchange)
        .map(|p| KeyExchange::parse(p.data).unwrap())
        .unwrap();
    assert_eq!(ke.dh_group, transform_id::MODP_2048);

    retry.absorb(IkeError::CookieRequired { cookie: vec![3] }, &offer).unwrap();
    assert_eq!(
        retry.absorb(IkeError::CookieRequired { cookie: vec![4] }, &offer),
        Err(IkeError::CookieRequired { cookie: vec![4] }),
        "at most {} cookie exchanges",
        SaInitRetry::MAX_COOKIES
    );
}

/// §3.4 / §1.2: INVALID_KE_PAYLOAD is honoured once, for a group we
/// offered and did not already send. Anything else is given up on.
#[test]
fn an_sa_init_retry_refuses_a_group_correction_it_cannot_honour() {
    let offer = offer_with_three_groups();
    for named in [transform_id::MODP_3072, transform_id::X25519, 0xFFF0] {
        let mut retry = SaInitRetry::default();
        assert_eq!(retry.absorb(IkeError::InvalidKeGroup(named), &offer), Err(IkeError::InvalidKeGroup(named)), "group {named}");
        assert_eq!(retry.group, None);
    }
    let mut retry = SaInitRetry::default();
    retry.absorb(IkeError::InvalidKeGroup(transform_id::ECP256), &offer).unwrap();
    assert_eq!(
        retry.absorb(IkeError::InvalidKeGroup(transform_id::MODP_2048), &offer),
        Err(IkeError::InvalidKeGroup(transform_id::MODP_2048)),
        "a second correction"
    );
    assert_eq!(retry.absorb(IkeError::NoProposalChosen, &offer), Err(IkeError::NoProposalChosen));
}

/// `default_offer` with its PRF swapped for `prf`.
fn offer_with_prf(prf: u16) -> SecurityAssociation {
    let mut offer = default_offer();
    let t = offer.proposals[0].transforms.iter_mut().find(|t| t.transform_type == transform_type::PRF).unwrap();
    t.transform_id = prf;
    offer
}

/// RFC 7296 §2.10: a nonce MUST be at least half the key size of the
/// negotiated PRF -- an HMAC PRF's key is its output (§2.13), so 24
/// octets for PRF_HMAC_SHA2_384 and 32 for PRF_HMAC_SHA2_512, beyond the
/// 16 §3.9 asks of every nonce. Each side checks the other's once it
/// knows the PRF: the responder the initiator's Ni, the initiator the
/// responder's Nr.
#[test]
fn an_sa_init_nonce_shorter_than_half_the_negotiated_prf_key_is_refused() {
    let short = Some(IkeError::Crypto("nonce shorter than half the negotiated PRF's key"));
    for (prf, half) in [(transform_id::PRF_HMAC_SHA2_512, 32), (transform_id::PRF_HMAC_SHA2_384, 24)] {
        let offer = offer_with_prf(prf);

        let init = LocalSecret { nonce: vec![0x11; half - 1], ..init_secret() };
        let request = initiator_request(&init, &offer);
        assert_eq!(responder_respond(&request, &resp_secret()).err(), short, "Ni for PRF {prf}");

        let request = initiator_request(&init_secret(), &offer);
        let resp = LocalSecret { nonce: vec![0x22; half - 1], ..resp_secret() };
        let (response, _) = responder_respond(&request, &resp).unwrap();
        assert_eq!(initiator_complete(&init_secret(), &request, &response).err(), short, "Nr for PRF {prf}");

        // Exactly half the key is enough, both ways.
        let init = LocalSecret { nonce: vec![0x11; half], ..init_secret() };
        let resp = LocalSecret { nonce: vec![0x22; half], ..resp_secret() };
        let request = initiator_request(&init, &offer);
        let (response, resp_done) = responder_respond(&request, &resp).unwrap();
        let init_done = initiator_complete(&init, &request, &response).unwrap();
        assert_eq!(init_done.keys.sk_d, resp_done.keys.sk_d, "PRF {prf}");
    }
}

/// The positive control: with PRF_HMAC_SHA2_256 (a 32-octet key) §3.9's
/// 16-octet floor is also §2.10's, so 16-octet nonces run both ways.
#[test]
fn sixteen_octet_nonces_are_enough_for_a_sha2_256_prf() {
    let init = LocalSecret { nonce: vec![0x11; 16], ..init_secret() };
    let resp = LocalSecret { nonce: vec![0x22; 16], ..resp_secret() };
    let request = initiator_request(&init, &offer_with_prf(transform_id::PRF_HMAC_SHA2_256));
    let (response, resp_done) = responder_respond(&request, &resp).unwrap();
    let init_done = initiator_complete(&init, &request, &response).unwrap();
    assert_eq!(init_done.keys.sk_d, resp_done.keys.sk_d);
}

/// An IKE proposal of AES-GCM-256, HMAC-SHA2-256 and `group`.
fn gcm_with_group(num: u8, group: u16) -> Proposal {
    let plain = |transform_type, transform_id| Transform { transform_type, transform_id, key_length: None };
    Proposal {
        num,
        protocol_id: protocol_id::IKE,
        spi: Vec::new(),
        transforms: vec![
            Transform {
                transform_type: transform_type::ENCR,
                transform_id: transform_id::AES_GCM_16,
                key_length: Some(256),
            },
            plain(transform_type::PRF, transform_id::PRF_HMAC_SHA2_256),
            plain(transform_type::DH, group),
        ],
    }
}

#[test]
fn every_group_answered_is_completed_with_the_same_sa() {
    for group in [
        transform_id::X25519,
        transform_id::ECP256,
        transform_id::ECP384,
        transform_id::ECP521,
        transform_id::MODP_1024,
        transform_id::MODP_2048,
    ] {
        let offer = SecurityAssociation { proposals: vec![gcm_with_group(1, group)] };
        let request = initiator_request(&init_secret(), &offer);
        let (response, theirs) = responder_respond(&request, &resp_secret()).unwrap();
        let ours = initiator_complete(&init_secret(), &request, &response).unwrap();
        assert_eq!(ours.suite, theirs.suite);
        assert_eq!(ours.suite.dh_id, group);
        assert_eq!((ours.spi_i, ours.spi_r), (theirs.spi_i, theirs.spi_r));
        assert_eq!((&ours.ni, &ours.nr), (&theirs.ni, &theirs.nr));
        assert_eq!(ours.keys.sk_d, theirs.keys.sk_d);
        assert_eq!(ours.keys.sk_ei, theirs.keys.sk_ei);
        assert_eq!(ours.keys.sk_er, theirs.keys.sk_er);
        assert_eq!((ours.role, theirs.role), (Role::Initiator, Role::Responder));
    }
}

#[test]
fn the_second_of_two_proposals_is_completed_where_the_numbers_tell_them_apart() {
    let mut unknown = gcm_with_group(1, transform_id::X25519);
    unknown.transforms[0].transform_id = 999;
    for (num, completes) in [(2, true), (1, false)] {
        let offer = SecurityAssociation { proposals: vec![unknown.clone(), gcm_with_group(num, transform_id::X25519)] };
        let request = initiator_request(&init_secret(), &offer);
        let (response, theirs) = responder_respond(&request, &resp_secret()).unwrap();
        assert_eq!(theirs.suite.proposal_num, num);
        match initiator_complete(&init_secret(), &request, &response) {
            Ok(ours) => {
                assert!(completes);
                assert_eq!(ours.keys.sk_d, theirs.keys.sk_d);
            }
            Err(error) => {
                assert!(!completes);
                assert_eq!(error, IkeError::NoProposalChosen);
            }
        }
    }
}

#[test]
fn a_zero_private_value_gives_no_modp_public_value_to_take() {
    let offer = SecurityAssociation { proposals: vec![gcm_with_group(1, transform_id::MODP_2048)] };
    let request = initiator_request(&init_secret(), &offer);
    let zero = LocalSecret { dh_private: [0u8; 32], ..resp_secret() };
    let (response, _) = responder_respond(&request, &zero).unwrap();
    assert!(initiator_complete(&init_secret(), &request, &response).is_err());

    // On a curve such a responder establishes nothing.
    let offer = SecurityAssociation { proposals: vec![gcm_with_group(1, transform_id::ECP256)] };
    let request = initiator_request(&init_secret(), &offer);
    assert!(responder_respond(&request, &zero).is_err());
}
