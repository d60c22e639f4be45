//! The IKE_AUTH exchange.

use ryke::error::IkeError;
use ryke::ikev2::auth::{initiator_signed_octets, responder_signed_octets};
use ryke::ikev2::child::{esp_offer, ChildTsOffer};
use ryke::ikev2::exchange::{
    default_offer, initiator_complete, initiator_request, responder_respond, CompletedSaInit, LocalSecret,
};
use ryke::ikev2::ike_auth::{
    build_local_auth, cert_auth_method, client_sent_certreq, ike_auth_header, initiator_auth_request,
    initiator_eap_request, initiator_eap_request_with_certs, initiator_verify_auth, is_eap_request, parse_auth_inner,
    peer_cert_claim, peer_id_from_auth, peer_id_from_request, responder_process_auth, responder_process_auth_with_mobike,
    AssignedConfig, AuthConfig, CertClaim, KeyKind, LocalAuth, PeerAuth,
};
use ryke::ikev2::message::{
    encode_payload_chain, first_payload_type, payloads, IkeHeader, PayloadType, RawPayload,
};
use ryke::ikev2::mobike::{mobike_supported, peer_supports_mobike};
use ryke::ikev2::payload::{
    auth_method, notify_type, notify_type_name, protocol_id, sighash, transform_id, transform_type, Authentication,
    CertRequest, Certificate, Identification, Notify, Proposal, SecurityAssociation, TrafficSelector, TrafficSelectors,
    Transform,
};
use ryke::ikev2::sk::{build_encrypted, open_encrypted, SkCipher};
use zeroize::Zeroize;

/// A Key Length attribute of 128, of 256, and an attribute nobody defines.
const KEY_LENGTH_128: [u8; 4] = [0x80, 14, 0, 128];
const KEY_LENGTH_256: [u8; 4] = [0x80, 14, 1, 0];
const UNKNOWN_ATTRIBUTE: [u8; 4] = [0x80, 99, 0, 1];

/// One Transform substructure, without its "last substructure" octet set.
fn transform(transform_type: u8, id: u16, attributes: &[u8]) -> Vec<u8> {
    let length = (8 + attributes.len()) as u16;
    let mut out = vec![3, 0];
    out.extend_from_slice(&length.to_be_bytes());
    out.extend_from_slice(&[transform_type, 0]);
    out.extend_from_slice(&id.to_be_bytes());
    out.extend_from_slice(attributes);
    out
}

/// One Proposal substructure.
fn proposal(num: u8, protocol: u8, spi: &[u8], transforms: &[Vec<u8>]) -> Vec<u8> {
    let mut body = Vec::new();
    for (i, t) in transforms.iter().enumerate() {
        let mut t = t.clone();
        t[0] = if i + 1 == transforms.len() { 0 } else { 3 };
        body.extend_from_slice(&t);
    }
    let length = (8 + spi.len() + body.len()) as u16;
    let mut out = vec![2, 0];
    out.extend_from_slice(&length.to_be_bytes());
    out.extend_from_slice(&[num, protocol, spi.len() as u8, transforms.len() as u8]);
    out.extend_from_slice(spi);
    out.extend_from_slice(&body);
    out
}

/// The body of an SA payload.
fn sa(proposals: &[Vec<u8>]) -> Vec<u8> {
    let mut out = Vec::new();
    for (i, p) in proposals.iter().enumerate() {
        let mut p = p.clone();
        p[0] = if i + 1 == proposals.len() { 0 } else { 2 };
        out.extend_from_slice(&p);
    }
    out
}

/// All payloads of a well-formed chain.
fn collected(first: PayloadType, body: &[u8]) -> Vec<RawPayload<'_>> {
    let mut iter = payloads(first, body);
    let mut all = Vec::new();
    while let Some(payload) = iter.next() {
        all.push(payload.unwrap());
    }
    all
}

fn run_sa_init() -> (CompletedSaInit, CompletedSaInit) {
    let init = LocalSecret { dh_private: [7u8; 32], nonce: vec![0x11; 32], spi: 0xA1 };
    let resp = LocalSecret { dh_private: [9u8; 32], nonce: vec![0x22; 32], spi: 0xB2 };
    let request = initiator_request(&init, &default_offer());
    let (response, resp_done) = responder_respond(&request, &resp).unwrap();
    let init_done = initiator_complete(&init, &request, &response).unwrap();
    (init_done, resp_done)
}

#[test]
fn local_and_peer_auth_psk_are_wiped_by_their_drop_logic() {
    let mut local = LocalAuth::Psk(vec![0xAA; 16]);
    let mut peer = PeerAuth::Psk(vec![0xBB; 16]);

    if let LocalAuth::Psk(psk) = &mut local {
        psk.zeroize();
        assert!(psk.is_empty());
    } else {
        panic!("expected LocalAuth::Psk");
    }
    if let PeerAuth::Psk(psk) = &mut peer {
        psk.zeroize();
        assert!(psk.is_empty());
    } else {
        panic!("expected PeerAuth::Psk");
    }
}

#[test]
fn ike_auth_mutual_psk_succeeds_and_exchanges_ids() {
    let (init_sa, resp_sa) = run_sa_init();
    let psk = b"correct horse battery staple".to_vec();
    let icfg = AuthConfig::psk(Identification::fqdn("client.example"), psk.clone());
    let rcfg = AuthConfig::psk(Identification::fqdn("gw.example"), psk);

    let req = initiator_auth_request(&init_sa, &icfg, 0xDEADBEEF, &esp_offer(0), &[1u8; 8]).unwrap();
    let (resp, learned_initiator, init_spi, _ic) = responder_process_auth(&resp_sa, &req, &rcfg, 0xCAFEBABE, &[2u8; 8], None).unwrap();
    // The responder decrypted the initiator's SK{} — proves the keys agree.
    assert_eq!(learned_initiator, Identification::fqdn("client.example"));
    assert_eq!(init_spi, Some(0xDEADBEEF)); // and learned its CHILD SA SPI

    let (learned_responder, resp_spi, _esp_suite, _assigned, _tsr) =
        initiator_verify_auth(&init_sa, &resp, &icfg, &esp_offer(0), ChildTsOffer::Ipv4).unwrap();
    assert_eq!(learned_responder, Identification::fqdn("gw.example"));
    assert_eq!(resp_spi, 0xCAFEBABE); // initiator learned the responder's CHILD SA SPI
}

#[test]
fn initiator_auth_request_always_carries_initial_contact() {
    // RFC 7296 §2.4: we keep no state across restarts, so every first
    // IKE_AUTH we send asserts INITIAL_CONTACT -- the responder uses this
    // to drop any stale SA of ours it's still holding.
    let (init_sa, resp_sa) = run_sa_init();
    let psk = b"pw".to_vec();
    let icfg = AuthConfig::psk(Identification::fqdn("client.example"), psk.clone());
    let rcfg = AuthConfig::psk(Identification::fqdn("gw.example"), psk);
    let req = initiator_auth_request(&init_sa, &icfg, 1, &esp_offer(0), &[1u8; 8]).unwrap();
    let (_resp, _peer, _spi, initial_contact) =
        responder_process_auth(&resp_sa, &req, &rcfg, 2, &[2u8; 8], None).unwrap();
    assert!(initial_contact);
}

#[test]
fn eap_request_variants_also_carry_initial_contact() {
    let (init_sa, resp_sa) = run_sa_init();
    let id = Identification::fqdn("eap.example");
    let req = initiator_eap_request(&init_sa, &id, 1, false, &esp_offer(0), ChildTsOffer::Ipv4, &[1u8; 8]).unwrap();
    let (first, inner) = open_encrypted(resp_sa.suite.sk_cipher(), &req, &resp_sa.keys.sk_ei, &resp_sa.keys.sk_ai).unwrap();
    let got = parse_auth_inner(first, &inner);
    // EAP-mode has no AUTH payload yet, so parse_auth_inner errors on the
    // missing AUTH -- what we care about here is that it got far enough to
    // see the Notify, i.e. the payload chain parsed. Re-derive directly:
    let has_initial_contact = collected(first, &inner)
        .into_iter()
        .any(|p| p.payload_type == PayloadType::Notify && Notify::parse(p.data).map(|n| n.notify_type == notify_type::INITIAL_CONTACT).unwrap_or(false));
    assert!(has_initial_contact);
    assert!(got.is_err()); // sanity: still no AUTH payload in EAP mode
}

#[test]
fn ike_auth_assigns_inner_ip_via_config_payload() {
    // The responder hands the initiator an inner IP + DNS in a CFG_REPLY;
    // the initiator parses it out of the IKE_AUTH response. This is what a
    // native phone client relies on to configure its tunnel interface.
    let (init_sa, resp_sa) = run_sa_init();
    let psk = b"correct horse battery staple".to_vec();
    let icfg = AuthConfig::psk(Identification::fqdn("client.example"), psk.clone());
    let rcfg = AuthConfig::psk(Identification::fqdn("gw.example"), psk);

    let req = initiator_auth_request(&init_sa, &icfg, 0xDEADBEEF, &esp_offer(0), &[1u8; 8]).unwrap();
    let assigned = AssignedConfig {
        ip: [10, 8, 0, 4],
        dns: vec![[1, 1, 1, 1]],
    };
    let (resp, learned_i, _spi, _ic) =
        responder_process_auth(&resp_sa, &req, &rcfg, 0xCAFEBABE, &[2u8; 8], Some(&assigned)).unwrap();
    assert_eq!(learned_i, Identification::fqdn("client.example"));
    let (_learned_r, _rspi, _esp_suite, got_ip, _tsr) = initiator_verify_auth(&init_sa, &resp, &icfg, &esp_offer(0), ChildTsOffer::Ipv4).unwrap();
    assert_eq!(got_ip, Some([10, 8, 0, 4]));
}

#[test]
fn ike_auth_without_config_payload_assigns_no_ip() {
    let (init_sa, resp_sa) = run_sa_init();
    let psk = b"pw".to_vec();
    let icfg = AuthConfig::psk(Identification::fqdn("c"), psk.clone());
    let rcfg = AuthConfig::psk(Identification::fqdn("s"), psk);
    let req = initiator_auth_request(&init_sa, &icfg, 1, &esp_offer(0), &[1u8; 8]).unwrap();
    let (resp, _, _, _ic) = responder_process_auth(&resp_sa, &req, &rcfg, 2, &[2u8; 8], None).unwrap();
    let (_, _, _esp_suite, got_ip, _tsr) = initiator_verify_auth(&init_sa, &resp, &icfg, &esp_offer(0), ChildTsOffer::Ipv4).unwrap();
    assert_eq!(got_ip, None);
}

/// The decrypted payload chain of an `IKE_AUTH` message.
fn sk_chain(cipher: SkCipher, msg: &[u8], sk_e: &[u8], sk_a: &[u8]) -> Vec<(PayloadType, Vec<u8>)> {
    let (first, inner) = open_encrypted(cipher, msg, sk_e, sk_a).unwrap();
    collected(first, &inner).into_iter().map(|p| (p.payload_type, p.data.to_vec())).collect()
}

/// `req` with `N(MOBIKE_SUPPORTED)` appended to its `SK{}`, as a MOBIKE
/// client sends it (RFC 4555 §3.1). The initiator's AUTH does not cover
/// Notify payloads, so the request still verifies.
fn offering_mobike(init_sa: &CompletedSaInit, req: &[u8]) -> Vec<u8> {
    let mut chain = sk_chain(init_sa.suite.sk_cipher(), req, &init_sa.keys.sk_ei, &init_sa.keys.sk_ai);
    chain.push((PayloadType::Notify, mobike_supported().to_bytes()));
    let bytes = encode_payload_chain(&chain);
    build_encrypted(init_sa.suite.sk_cipher(), ike_auth_header(init_sa, false), first_payload_type(&chain), &bytes, &init_sa.keys.sk_ei, &init_sa.keys.sk_ai, &[1u8; 8]).unwrap()
}

fn response_advertises_mobike(init_sa: &CompletedSaInit, resp: &[u8]) -> bool {
    peer_supports_mobike(&sk_chain(init_sa.suite.sk_cipher(), resp, &init_sa.keys.sk_er, &init_sa.keys.sk_ar))
}

#[test]
fn mobike_is_advertised_only_when_the_caller_opts_in_and_the_initiator_offered_it() {
    let (init_sa, resp_sa) = run_sa_init();
    let psk = b"pw".to_vec();
    let icfg = AuthConfig::psk(Identification::fqdn("c"), psk.clone());
    let rcfg = AuthConfig::psk(Identification::fqdn("s"), psk);
    let plain = initiator_auth_request(&init_sa, &icfg, 1, &esp_offer(0), &[1u8; 8]).unwrap();
    let offered = offering_mobike(&init_sa, &plain);
    let with_mobike = |req: &[u8], mobike: bool| {
        let (resp, peer, _spi, _ic, in_force) =
            responder_process_auth_with_mobike(&resp_sa, req, &rcfg, 2, &[2u8; 8], None, mobike).unwrap();
        assert_eq!(peer, Identification::fqdn("c"));
        // Whatever it says about MOBIKE, the response is a valid one.
        initiator_verify_auth(&init_sa, &resp, &icfg, &esp_offer(0), ChildTsOffer::Ipv4).unwrap();
        (response_advertises_mobike(&init_sa, &resp), in_force)
    };

    // The default entry point never advertises MOBIKE, not even to a client
    // offering it: nothing behind it (e.g. `Server`) follows that client to
    // a new address, so it would migrate onto a path we drop.
    let (resp, ..) = responder_process_auth(&resp_sa, &offered, &rcfg, 2, &[2u8; 8], None).unwrap();
    assert!(!response_advertises_mobike(&init_sa, &resp));
    assert_eq!(with_mobike(&offered, false), (false, false));
    // Opted in, but the initiator did not offer it: RFC 4555 §3.1 has the
    // responder include MOBIKE_SUPPORTED only in reply to the initiator's.
    assert_eq!(with_mobike(&plain, true), (false, false));
    // Opted in and offered: advertised, and reported as in force.
    assert_eq!(with_mobike(&offered, true), (true, true));
}

/// One edit: what it is, the TSi and TSr bodies it answers with (left
/// out when `None`), and the error it must be refused with.
type TsAnswer = (&'static str, Option<Vec<u8>>, Option<Vec<u8>>, IkeError);

/// The traffic selector edits a response creating a CHILD SA must not get
/// past the initiator (RFC 7296 §2.9, §3.13) -- shared with `eap_auth` and
/// `rekey`'s tests -- and what it fails with, the proposal being
/// `0.0.0.0/0` for both TSi and TSr.
fn ts_answers_outside_an_ipv4_offer() -> Vec<TsAnswer> {
    let v4 = TrafficSelectors::ipv4_full_tunnel().to_bytes();
    let v6 = TrafficSelectors::ipv6_full_tunnel().to_bytes();
    let unified = TrafficSelectors::unified_full_tunnel().to_bytes();
    vec![
        ("no TSi", None, Some(v4.clone()), IkeError::MissingPayload("TSi")),
        ("no TSr", Some(v4.clone()), None, IkeError::MissingPayload("TSr")),
        ("IPv6 TSr for an IPv4 offer", Some(v4.clone()), Some(v6.clone()), IkeError::TsOutsideOffer),
        ("IPv6 TSi for an IPv4 offer", Some(v6), Some(v4.clone()), IkeError::TsOutsideOffer),
        ("an IPv6 selector added to TSr", Some(v4.clone()), Some(unified), IkeError::TsOutsideOffer),
        ("an empty TSr", Some(v4), Some(vec![0, 0, 0, 0]), IkeError::MalformedPayload("TS payload with no Traffic Selector")),
    ]
}

/// `chain` with its TSi/TSr replaced by `tsi`/`tsr` (left out when `None`).
fn with_ts(chain: Vec<(PayloadType, Vec<u8>)>, tsi: Option<Vec<u8>>, tsr: Option<Vec<u8>>) -> Vec<(PayloadType, Vec<u8>)> {
    let mut out: Vec<_> =
        chain.into_iter().filter(|(t, _)| !matches!(t, PayloadType::TrafficSelectorInitiator | PayloadType::TrafficSelectorResponder)).collect();
    out.extend(tsi.map(|b| (PayloadType::TrafficSelectorInitiator, b)));
    out.extend(tsr.map(|b| (PayloadType::TrafficSelectorResponder, b)));
    out
}

/// Traffic selectors the responder tests propose -- shared with
/// `eap_auth` and `rekey`'s.
struct SampleTs {
    pub v4: TrafficSelectors,
    pub v6: TrafficSelectors,
    pub unified: TrafficSelectors,
    /// 10.0.0.5, alone.
    pub host: TrafficSelectors,
    /// 10.9.9.9, alone.
    pub other_host: TrafficSelectors,
    /// 10.1.0.0/16.
    pub subnet: TrafficSelectors,
    /// A lone selector of TS Type 9, which no RFC defines.
    pub unknown: TrafficSelectors,
    /// That one, then `0.0.0.0/0`.
    pub unknown_then_v4: TrafficSelectors,
}

fn sample_ts() -> SampleTs {
    let unknown = TrafficSelector { ts_type: 9, ..TrafficSelector::ipv4_any() };
    SampleTs {
        v4: TrafficSelectors::ipv4_full_tunnel(),
        v6: TrafficSelectors::ipv6_full_tunnel(),
        unified: TrafficSelectors::unified_full_tunnel(),
        host: TrafficSelectors { selectors: vec![TrafficSelector::ipv4_host([10, 0, 0, 5])] },
        other_host: TrafficSelectors { selectors: vec![TrafficSelector::ipv4_host([10, 9, 9, 9])] },
        subnet: TrafficSelectors {
            selectors: vec![TrafficSelector { start_addr: vec![10, 1, 0, 0], end_addr: vec![10, 1, 255, 255], ..TrafficSelector::ipv4_any() }],
        },
        unknown: TrafficSelectors { selectors: vec![unknown.clone()] },
        unknown_then_v4: TrafficSelectors { selectors: vec![unknown, TrafficSelector::ipv4_any()] },
    }
}

/// The initiator's request `req` with its TSi/TSr replaced by `tsi`/`tsr`
/// (left out when `None`). Its AUTH does not cover them, so it still verifies.
fn request_with_ts(init_sa: &CompletedSaInit, req: &[u8], tsi: Option<&TrafficSelectors>, tsr: Option<&TrafficSelectors>) -> Vec<u8> {
    let cipher = init_sa.suite.sk_cipher();
    let chain = sk_chain(cipher, req, &init_sa.keys.sk_ei, &init_sa.keys.sk_ai);
    let chain = with_ts(chain, tsi.map(TrafficSelectors::to_bytes), tsr.map(TrafficSelectors::to_bytes));
    let header = IkeHeader::parse(req).unwrap();
    build_encrypted(
        cipher,
        header,
        first_payload_type(&chain),
        &encode_payload_chain(&chain),
        &init_sa.keys.sk_ei,
        &init_sa.keys.sk_ai,
        &[1u8; 8],
    )
    .unwrap()
}

/// What a responder answered the initiator of `init_sa`: its TSi, its
/// TSr, and the types of its Notify payloads.
fn answered_ts(init_sa: &CompletedSaInit, resp: &[u8]) -> (Option<TrafficSelectors>, Option<TrafficSelectors>, Vec<u16>) {
    let (mut tsi, mut tsr, mut notifies) = (None, None, Vec::new());
    for (payload_type, body) in sk_chain(init_sa.suite.sk_cipher(), resp, &init_sa.keys.sk_er, &init_sa.keys.sk_ar) {
        match payload_type {
            PayloadType::TrafficSelectorInitiator => tsi = Some(TrafficSelectors::parse(&body).unwrap()),
            PayloadType::TrafficSelectorResponder => tsr = Some(TrafficSelectors::parse(&body).unwrap()),
            PayloadType::Notify => notifies.push(Notify::parse(&body).unwrap().notify_type),
            _ => {}
        }
    }
    (tsi, tsr, notifies)
}

/// RFC 7296 §2.9: the responder answers TSi and TSr narrowed to what it
/// carries -- here IPv4, and on the initiator's side the address it is
/// assigned -- never wider than proposed nor of another family; when
/// either comes to nothing, `TS_UNACCEPTABLE` and no CHILD SA, the IKE SA
/// standing (§1.2).
#[test]
fn ike_auth_responder_answers_a_subset_of_the_proposal_or_ts_unacceptable() {
    let (init_sa, resp_sa) = run_sa_init();
    let psk = b"pw".to_vec();
    let icfg = AuthConfig::psk(Identification::fqdn("client.example"), psk.clone());
    let rcfg = AuthConfig::psk(Identification::fqdn("gw.example"), psk);
    let req = initiator_auth_request(&init_sa, &icfg, 1, &esp_offer(0), &[1u8; 8]).unwrap();
    let assigned = AssignedConfig { ip: [10, 8, 0, 4], dns: vec![] };
    let at_10_8_0_4 = TrafficSelectors { selectors: vec![TrafficSelector::ipv4_host(assigned.ip)] };
    let t = sample_ts();
    let answer = |tsi: &TrafficSelectors, tsr: &TrafficSelectors, assigned: Option<&AssignedConfig>| {
        let req = request_with_ts(&init_sa, &req, Some(tsi), Some(tsr));
        let (resp, _, peer_child_spi, _) = responder_process_auth(&resp_sa, &req, &rcfg, 2, &[2u8; 8], assigned).unwrap();
        (resp, peer_child_spi)
    };

    let granted = [
        ("a host and a subnet, not the whole of IPv4", &t.host, &t.subnet, None, &t.host, &t.subnet),
        ("the IPv4 part of a unified proposal", &t.unified, &t.unified, None, &t.v4, &t.v4),
        ("a type no RFC defines is ignored", &t.v4, &t.unknown_then_v4, None, &t.v4, &t.v4),
        ("0.0.0.0/0 narrowed to the address assigned", &t.v4, &t.v4, Some(&assigned), &at_10_8_0_4, &t.v4),
    ];
    for (what, tsi, tsr, assigned, want_tsi, want_tsr) in granted {
        let (resp, peer_child_spi) = answer(tsi, tsr, assigned);
        assert_eq!(answered_ts(&init_sa, &resp), (Some(want_tsi.clone()), Some(want_tsr.clone()), vec![]), "{what}");
        assert_eq!(peer_child_spi, Some(1), "{what}");
    }

    let refused = [
        ("IPv6 only", &t.v6, &t.v6, None),
        ("IPv6 only, with an address assigned", &t.v6, &t.v6, Some(&assigned)),
        ("an address other than the one assigned", &t.other_host, &t.v4, Some(&assigned)),
        ("a TSr of a type no RFC defines", &t.v4, &t.unknown, None),
    ];
    for (what, tsi, tsr, assigned) in refused {
        let (resp, peer_child_spi) = answer(tsi, tsr, assigned);
        assert_eq!(answered_ts(&init_sa, &resp), (None, None, vec![notify_type::TS_UNACCEPTABLE]), "{what}");
        assert_eq!(peer_child_spi, None, "{what}: no CHILD SA");
        // Authentic, and read by our initiator as the refusal it is.
        let got = initiator_verify_auth(&init_sa, &resp, &icfg, &esp_offer(0), ChildTsOffer::Ipv4).err().unwrap();
        assert_eq!(got, IkeError::PeerRejected { notify_type: notify_type::TS_UNACCEPTABLE, name: "TS_UNACCEPTABLE" }, "{what}");
    }

    // A request for a CHILD SA carries both (RFC 7296 §1.2).
    for (what, tsi, tsr, missing) in [("no TSi", None, Some(&t.v4), "TSi"), ("no TSr", Some(&t.v4), None, "TSr")] {
        let req = request_with_ts(&init_sa, &req, tsi, tsr);
        let got = responder_process_auth(&resp_sa, &req, &rcfg, 2, &[2u8; 8], None).err();
        assert_eq!(got, Some(IkeError::MissingPayload(missing)), "{what}");
    }
}

#[test]
fn ike_auth_response_must_answer_both_ts_within_the_offer() {
    let (init_sa, resp_sa) = run_sa_init();
    let psk = b"pw".to_vec();
    let icfg = AuthConfig::psk(Identification::fqdn("client.example"), psk.clone());
    let rcfg = AuthConfig::psk(Identification::fqdn("gw.example"), psk);
    let req = initiator_auth_request(&init_sa, &icfg, 1, &esp_offer(0), &[1u8; 8]).unwrap();
    let (resp, ..) = responder_process_auth(&resp_sa, &req, &rcfg, 2, &[2u8; 8], None).unwrap();
    let chain = sk_chain(init_sa.suite.sk_cipher(), &resp, &init_sa.keys.sk_er, &init_sa.keys.sk_ar);
    // The responder's AUTH does not cover SA/TS, so an edited response still authenticates.
    let edited = |tsi: Option<Vec<u8>>, tsr: Option<Vec<u8>>| {
        let chain = with_ts(chain.clone(), tsi, tsr);
        let bytes = encode_payload_chain(&chain);
        build_encrypted(
            resp_sa.suite.sk_cipher(),
            ike_auth_header(&resp_sa, true),
            first_payload_type(&chain),
            &bytes,
            &resp_sa.keys.sk_er,
            &resp_sa.keys.sk_ar,
            &[2u8; 8],
        )
        .unwrap()
    };
    for (what, tsi, tsr, expected) in ts_answers_outside_an_ipv4_offer() {
        let got = initiator_verify_auth(
            &init_sa,
            &edited(tsi, tsr),
            &icfg,
            &esp_offer(0),
            ChildTsOffer::Ipv4,
        );
        assert_eq!(got.err(), Some(expected), "{what}");
    }

    // Positive controls: the response as sent, TSi narrowed to the one
    // address handed out, TSr to a subnet, and both families granted to a
    // unified offer.
    let host = TrafficSelectors { selectors: vec![TrafficSelector::ipv4_host([10, 8, 0, 4])] };
    let subnet = TrafficSelectors {
        selectors: vec![TrafficSelector { start_addr: vec![10, 0, 0, 0], end_addr: vec![10, 0, 0, 255], ..TrafficSelector::ipv4_any() }],
    };
    let unified = TrafficSelectors::unified_full_tunnel();
    assert!(initiator_verify_auth(&init_sa, &resp, &icfg, &esp_offer(0), ChildTsOffer::Ipv4).is_ok());
    let narrowed = edited(Some(host.to_bytes()), Some(subnet.to_bytes()));
    let (.., tsr) = initiator_verify_auth(&init_sa, &narrowed, &icfg, &esp_offer(0), ChildTsOffer::Ipv4).unwrap();
    assert_eq!(tsr, Some(subnet));
    let both = edited(Some(unified.to_bytes()), Some(unified.to_bytes()));
    let (.., tsr) = initiator_verify_auth(&init_sa, &both, &icfg, &esp_offer(0), ChildTsOffer::Unified).unwrap();
    assert_eq!(tsr, Some(unified));
}

/// An `IKE_AUTH` response the way a responder sends it when only the CHILD
/// SA fails (RFC 7296 §1.2): a valid IDr + AUTH and the error notify, with
/// no SA/TS payloads.
fn child_rejected_response(resp_sa: &CompletedSaInit, rcfg: &AuthConfig, error: u16) -> Vec<u8> {
    let idr_body = rcfg.id.to_bytes();
    let octets = responder_signed_octets(resp_sa.suite.prf_algorithm(), &resp_sa.resp_message, &resp_sa.ni, &resp_sa.keys.sk_pr, &idr_body);
    let (auth, certs) = build_local_auth(rcfg, resp_sa, &octets);
    let mut inner = vec![(PayloadType::IdResponder, idr_body)];
    inner.extend(certs);
    inner.push((PayloadType::Authentication, auth.to_bytes()));
    inner.push((PayloadType::Notify, Notify::status(error, Vec::new()).to_bytes()));
    let first = first_payload_type(&inner);
    let bytes = encode_payload_chain(&inner);
    build_encrypted(resp_sa.suite.sk_cipher(), ike_auth_header(resp_sa, true), first, &bytes, &resp_sa.keys.sk_er, &resp_sa.keys.sk_ar, &[2u8; 8]).unwrap()
}

#[test]
fn a_child_sa_error_after_a_good_auth_is_a_named_rejection_not_a_missing_sa() {
    // RFC 7296 §1.2: the IKE SA is still created when the CHILD SA of
    // IKE_AUTH fails, so the response is authentic and carries the reason.
    // Surfacing it as PeerRejected (instead of MissingPayload("SA")) is
    // what lets a caller tell "the gateway refused our selectors" from a
    // broken exchange.
    for error in [
        notify_type::NO_PROPOSAL_CHOSEN,
        notify_type::TS_UNACCEPTABLE,
        notify_type::SINGLE_PAIR_REQUIRED,
        notify_type::INTERNAL_ADDRESS_FAILURE,
        notify_type::FAILED_CP_REQUIRED,
    ] {
        let (init_sa, resp_sa) = run_sa_init();
        let psk = b"pw".to_vec();
        let icfg = AuthConfig::psk(Identification::fqdn("client.example"), psk.clone());
        let rcfg = AuthConfig::psk(Identification::fqdn("gw.example"), psk);
        let resp = child_rejected_response(&resp_sa, &rcfg, error);
        assert_eq!(
            initiator_verify_auth(&init_sa, &resp, &icfg, &esp_offer(0), ChildTsOffer::Ipv4).err().unwrap(),
            IkeError::PeerRejected { notify_type: error, name: notify_type_name(error) },
        );
    }
}

#[test]
fn a_child_sa_error_is_not_believed_before_the_auth_verifies() {
    // The notify must not let a peer that failed AUTH pass as merely
    // "rejected the CHILD SA": AUTH is checked first.
    let (init_sa, resp_sa) = run_sa_init();
    let icfg = AuthConfig::psk(Identification::fqdn("client.example"), b"right".to_vec());
    let rcfg = AuthConfig::psk(Identification::fqdn("gw.example"), b"wrong".to_vec());
    let resp = child_rejected_response(&resp_sa, &rcfg, notify_type::TS_UNACCEPTABLE);
    assert_eq!(initiator_verify_auth(&init_sa, &resp, &icfg, &esp_offer(0), ChildTsOffer::Ipv4).err().unwrap(), IkeError::AuthFailed);
}

#[test]
fn a_missing_sa_without_a_child_sa_error_is_still_a_missing_payload() {
    // Only the RFC 7296 §1.2 CHILD SA errors are reinterpreted; any other
    // notify (here AUTHENTICATION_FAILED) leaves the old behavior alone.
    let (init_sa, resp_sa) = run_sa_init();
    let psk = b"pw".to_vec();
    let icfg = AuthConfig::psk(Identification::fqdn("client.example"), psk.clone());
    let rcfg = AuthConfig::psk(Identification::fqdn("gw.example"), psk);
    let resp = child_rejected_response(&resp_sa, &rcfg, notify_type::AUTHENTICATION_FAILED);
    assert_eq!(initiator_verify_auth(&init_sa, &resp, &icfg, &esp_offer(0), ChildTsOffer::Ipv4).err().unwrap(), IkeError::MissingPayload("SA"));
}

#[test]
fn initiator_rejects_an_esp_suite_the_responder_never_actually_offered() {
    // We offer AES-GCM-256 (`esp_offer`'s default). A responder answering
    // with AES-CBC-128/HMAC-SHA1-96 -- a combination `select_esp`/
    // `sk::SkCipher` can decode just fine -- must be rejected rather than
    // silently accepted as if we had proposed it (RFC 7296 §2.7).
    let (init_sa, resp_sa) = run_sa_init();
    let psk = b"pw".to_vec();
    let icfg = AuthConfig::psk(Identification::fqdn("client.example"), psk.clone());
    let rcfg = AuthConfig::psk(Identification::fqdn("gw.example"), psk);

    let idr_body = rcfg.id.to_bytes();
    let octets = responder_signed_octets(resp_sa.suite.prf_algorithm(), &resp_sa.resp_message, &resp_sa.ni, &resp_sa.keys.sk_pr, &idr_body);
    let (auth, certs) = build_local_auth(&rcfg, &resp_sa, &octets);
    let downgrade = SecurityAssociation {
        proposals: vec![Proposal {
            num: 1,
            protocol_id: protocol_id::ESP,
            spi: 0xCAFEBABEu32.to_be_bytes().to_vec(),
            transforms: vec![
                Transform { transform_type: transform_type::ENCR, transform_id: transform_id::AES_CBC, key_length: Some(128) },
                Transform { transform_type: transform_type::INTEG, transform_id: transform_id::AUTH_HMAC_SHA1_96, key_length: None },
                Transform { transform_type: transform_type::ESN, transform_id: transform_id::ESN_NONE, key_length: None },
            ],
        }],
    };
    let mut inner = vec![(PayloadType::IdResponder, idr_body)];
    inner.extend(certs);
    inner.push((PayloadType::Authentication, auth.to_bytes()));
    inner.push((PayloadType::SecurityAssociation, downgrade.to_bytes()));
    inner.push((PayloadType::TrafficSelectorInitiator, TrafficSelectors::ipv4_full_tunnel().to_bytes()));
    inner.push((PayloadType::TrafficSelectorResponder, TrafficSelectors::ipv4_full_tunnel().to_bytes()));
    let first = first_payload_type(&inner);
    let bytes = encode_payload_chain(&inner);
    let response = build_encrypted(resp_sa.suite.sk_cipher(), ike_auth_header(&resp_sa, true), first, &bytes, &resp_sa.keys.sk_er, &resp_sa.keys.sk_ar, &[2u8; 8]).unwrap();

    let err = initiator_verify_auth(&init_sa, &response, &icfg, &esp_offer(0), ChildTsOffer::Ipv4).err().unwrap();
    assert_eq!(err, IkeError::NoProposalChosen);
}

/// `msg`, an `IKE_AUTH` message sealed with `sk_e`/`sk_a`, with its SA
/// payload's body replaced by `sa` in place. Neither side's AUTH covers
/// it, so the message still verifies. Shared with `eap_auth`'s tests.
fn with_sa_body(cipher: SkCipher, msg: &[u8], sk_e: &[u8], sk_a: &[u8], sa: Vec<u8>) -> Vec<u8> {
    let mut chain = sk_chain(cipher, msg, sk_e, sk_a);
    chain.iter_mut().find(|(t, _)| *t == PayloadType::SecurityAssociation).expect("an SA payload to replace").1 = sa;
    let header = IkeHeader::parse(msg).unwrap();
    build_encrypted(cipher, header, first_payload_type(&chain), &encode_payload_chain(&chain), sk_e, sk_a, &[3u8; 8]).unwrap()
}

/// The SA payload of `msg` (sealed with `sk_e`/`sk_a`), if it has one.
fn sa_of(cipher: SkCipher, msg: &[u8], sk_e: &[u8], sk_a: &[u8]) -> Option<SecurityAssociation> {
    let chain = sk_chain(cipher, msg, sk_e, sk_a);
    chain.into_iter().find(|(t, _)| *t == PayloadType::SecurityAssociation).map(|(_, body)| SecurityAssociation::parse(&body).unwrap())
}

/// An ESP proposal numbered `num`, with SPI `spi` and `transforms`.
fn esp_proposal(num: u8, spi: u32, transforms: &[(u8, u16, Option<u16>)]) -> Proposal {
    let transforms = transforms.iter().map(|&(transform_type, transform_id, key_length)| Transform { transform_type, transform_id, key_length }).collect();
    Proposal { num, protocol_id: protocol_id::ESP, spi: spi.to_be_bytes().to_vec(), transforms }
}

const GCM256: (u8, u16, Option<u16>) = (transform_type::ENCR, transform_id::AES_GCM_16, Some(256));
const CBC256: (u8, u16, Option<u16>) = (transform_type::ENCR, transform_id::AES_CBC, Some(256));
const SHA256: (u8, u16, Option<u16>) = (transform_type::INTEG, transform_id::AUTH_HMAC_SHA2_256_128, None);
const ESN_NONE: (u8, u16, Option<u16>) = (transform_type::ESN, transform_id::ESN_NONE, None);
const MODP2048: (u8, u16, Option<u16>) = (transform_type::DH, transform_id::MODP_2048, None);

/// RFC 7296 §1.2: the SA payloads of `IKE_AUTH` "cannot contain Transform
/// Type 4 (Diffie-Hellman group) with any value other than NONE.
/// Implementations SHOULD omit the whole transform substructure" -- there is
/// no KE there to run it with. A caller's offer carrying PFS groups (they
/// are for the CHILD SA's rekeys) goes out without them.
#[test]
fn the_ike_auth_sai2_carries_no_dh_group() {
    let (init_sa, _) = run_sa_init();
    let icfg = AuthConfig::psk(Identification::fqdn("client.example"), b"pw".to_vec());
    let offer = SecurityAssociation { proposals: vec![esp_proposal(1, 0, &[GCM256, MODP2048, ESN_NONE]), esp_proposal(2, 0, &[CBC256, SHA256, MODP2048, ESN_NONE])] };
    let req = initiator_auth_request(&init_sa, &icfg, 7, &offer, &[1u8; 8]).unwrap();
    let sai2 = sa_of(init_sa.suite.sk_cipher(), &req, &init_sa.keys.sk_ei, &init_sa.keys.sk_ai).unwrap();
    assert_eq!(sai2, SecurityAssociation { proposals: vec![esp_proposal(1, 7, &[GCM256, ESN_NONE]), esp_proposal(2, 7, &[CBC256, SHA256, ESN_NONE])] });
}

/// RFC 7296 §2.7 and §1.2: the responder answers the first proposal of
/// SAi2 it can run (here: AES-GCM-16/256, what its data plane runs), by its
/// number and with the SPI of that proposal as the peer's; when none fits,
/// `NO_PROPOSAL_CHOSEN` and no CHILD SA, the IKE SA standing. Before, it
/// sent its own fixed offer back, whatever the peer had proposed.
#[test]
fn the_ike_auth_responder_answers_a_proposal_it_can_run_or_no_proposal_chosen() {
    let (init_sa, resp_sa) = run_sa_init();
    let psk = b"pw".to_vec();
    let icfg = AuthConfig::psk(Identification::fqdn("client.example"), psk.clone());
    let rcfg = AuthConfig::psk(Identification::fqdn("gw.example"), psk);
    let req = initiator_auth_request(&init_sa, &icfg, 1, &esp_offer(0), &[1u8; 8]).unwrap();
    let answer = |proposals: Vec<Proposal>| {
        let sai2 = SecurityAssociation { proposals }.to_bytes();
        let req = with_sa_body(init_sa.suite.sk_cipher(), &req, &init_sa.keys.sk_ei, &init_sa.keys.sk_ai, sai2);
        let (resp, _, peer_child_spi, _) = responder_process_auth(&resp_sa, &req, &rcfg, 0xCAFE_BABE, &[2u8; 8], None).unwrap();
        let sar2 = sa_of(init_sa.suite.sk_cipher(), &resp, &init_sa.keys.sk_er, &init_sa.keys.sk_ar);
        (resp, sar2, peer_child_spi)
    };

    let taken = [
        ("the second proposal, the first one's cipher is not ours", vec![esp_proposal(1, 0x1111, &[CBC256, SHA256, ESN_NONE]), esp_proposal(2, 0x2222, &[GCM256, ESN_NONE])], 2, 0x2222, vec![GCM256, ESN_NONE]),
        ("no ESN offered, none answered", vec![esp_proposal(1, 0x1111, &[GCM256])], 1, 0x1111, vec![GCM256]),
        ("a DH group, which IKE_AUTH does not run, is left out", vec![esp_proposal(1, 0x1111, &[GCM256, MODP2048, ESN_NONE])], 1, 0x1111, vec![GCM256, ESN_NONE]),
        ("a proposal with an unknown type is passed over", vec![esp_proposal(1, 0x1111, &[GCM256, ESN_NONE, (6, 14, None)]), esp_proposal(2, 0x2222, &[GCM256, ESN_NONE])], 2, 0x2222, vec![GCM256, ESN_NONE]),
    ];
    for (what, proposals, num, peer_spi, transforms) in taken {
        let offered = SecurityAssociation { proposals: proposals.clone() };
        let (resp, sar2, peer_child_spi) = answer(proposals);
        assert_eq!(sar2, Some(SecurityAssociation { proposals: vec![esp_proposal(num, 0xCAFE_BABE, &transforms)] }), "{what}");
        assert_eq!(peer_child_spi, Some(peer_spi), "{what}");
        // And our initiator, had it sent that SAi2, takes the answer.
        let (_, spi, ..) = initiator_verify_auth(&init_sa, &resp, &icfg, &offered, ChildTsOffer::Ipv4).unwrap();
        assert_eq!(spi, 0xCAFE_BABE, "{what}");
    }

    let refused = [
        ("only AES-CBC", vec![esp_proposal(1, 0x1111, &[CBC256, SHA256, ESN_NONE])]),
        ("AES-GCM-128", vec![esp_proposal(1, 0x1111, &[(transform_type::ENCR, transform_id::AES_GCM_16, Some(128)), ESN_NONE])]),
        ("ESN required", vec![esp_proposal(1, 0x1111, &[GCM256, (transform_type::ESN, transform_id::ESN_ENABLED, None)])]),
        ("an integrity algorithm forced onto AES-GCM", vec![esp_proposal(1, 0x1111, &[GCM256, SHA256, ESN_NONE])]),
        ("an unknown transform type", vec![esp_proposal(1, 0x1111, &[GCM256, ESN_NONE, (6, 14, None)])]),
    ];
    for (what, proposals) in refused {
        let (resp, sar2, peer_child_spi) = answer(proposals);
        assert_eq!(sar2, None, "{what}");
        assert_eq!(peer_child_spi, None, "{what}: no CHILD SA");
        assert_eq!(answered_ts(&init_sa, &resp), (None, None, vec![notify_type::NO_PROPOSAL_CHOSEN]), "{what}");
        let got = initiator_verify_auth(&init_sa, &resp, &icfg, &esp_offer(0), ChildTsOffer::Ipv4).err().unwrap();
        assert_eq!(got, IkeError::PeerRejected { notify_type: notify_type::NO_PROPOSAL_CHOSEN, name: "NO_PROPOSAL_CHOSEN" }, "{what}");
    }
}

/// RFC 7296 §3.3.5, §3.3.6 on the SAi2 the responder reads off the wire: a
/// transform with a Key Length it must not have (ESN NONE, INTEG NONE) or an
/// attribute we cannot read (ENCR, INTEG, ESN) is unacceptable, so a
/// proposal that has it -- and no other of its type -- is passed over for
/// the next one, and one that has it next to a plain one is answered with
/// the plain one. A DH *group* is passed over whatever it carries, because it
/// has no place in SAi2 to begin with (§1.2: "cannot contain ... any value
/// other than NONE"): a leniency this crate always had, not a rule -- and so
/// is a DH transform we cannot read, whatever ID it named (the parsed
/// `SecurityAssociation` keeps only [`transform_id::UNUSABLE`] of it, which is
/// no NONE). A DH NONE that carries a Key Length is the exception: NONE is
/// the one value SAi2 may hold, and with the attribute §3.3.5 forbids it is
/// unacceptable like the other NONEs. And the forged SAr2 that names them is
/// not our proposal.
#[test]
fn the_ike_auth_sa_payloads_take_no_transform_with_a_key_length_it_must_not_have_or_an_attribute_it_cannot_read() {
    let (init_sa, resp_sa) = run_sa_init();
    let psk = b"pw".to_vec();
    let icfg = AuthConfig::psk(Identification::fqdn("client.example"), psk.clone());
    let rcfg = AuthConfig::psk(Identification::fqdn("gw.example"), psk);
    let req = initiator_auth_request(&init_sa, &icfg, 1, &esp_offer(0), &[1u8; 8]).unwrap();
    let answer = |proposals: &[Vec<u8>]| {
        let req = with_sa_body(init_sa.suite.sk_cipher(), &req, &init_sa.keys.sk_ei, &init_sa.keys.sk_ai, sa(proposals));
        let (resp, _, peer_child_spi, _) = responder_process_auth(&resp_sa, &req, &rcfg, 0xCAFE_BABE, &[2u8; 8], None).unwrap();
        let sar2 = sa_of(init_sa.suite.sk_cipher(), &resp, &init_sa.keys.sk_er, &init_sa.keys.sk_ar);
        (resp, sar2, peer_child_spi)
    };
    let esp = |num: u8, transforms: &[Vec<u8>]| proposal(num, protocol_id::ESP, &(0x1000 + num as u32).to_be_bytes(), transforms);
    let gcm = || transform(transform_type::ENCR, transform_id::AES_GCM_16, &KEY_LENGTH_256);
    let esn_none = || transform(transform_type::ESN, transform_id::ESN_NONE, &[]);
    let fine = || esp(2, &[gcm(), esn_none()]);
    let ours = |num: u8| esp_proposal(num, 0xCAFE_BABE, &[GCM256, ESN_NONE]);

    let (_, taken, spi) = answer(&[esp(1, &[gcm(), esn_none()])]);
    assert_eq!((taken, spi), (Some(SecurityAssociation { proposals: vec![ours(1)] }), Some(0x1001)), "control");
    let refused = [
        ("an ESN NONE with a Key Length", esp(1, &[gcm(), transform(transform_type::ESN, transform_id::ESN_NONE, &KEY_LENGTH_128)])),
        ("an INTEG NONE with a Key Length", esp(1, &[gcm(), transform(transform_type::INTEG, transform_id::INTEG_NONE, &KEY_LENGTH_128), esn_none()])),
        ("an ENCR we cannot read", esp(1, &[transform(transform_type::ENCR, transform_id::AES_GCM_16, &UNKNOWN_ATTRIBUTE), esn_none()])),
        ("an INTEG we cannot read", esp(1, &[gcm(), transform(transform_type::INTEG, transform_id::AUTH_HMAC_SHA2_256_128, &UNKNOWN_ATTRIBUTE), esn_none()])),
        ("an ESN we cannot read", esp(1, &[gcm(), transform(transform_type::ESN, transform_id::ESN_NONE, &UNKNOWN_ATTRIBUTE)])),
        ("a DH NONE with a Key Length", esp(1, &[gcm(), transform(transform_type::DH, 0, &KEY_LENGTH_128), esn_none()])),
    ];
    for (what, bad) in &refused {
        let (resp, sar2, peer_spi) = answer(std::slice::from_ref(bad));
        assert_eq!((sar2, peer_spi), (None, None), "{what}: no CHILD SA");
        assert_eq!(answered_ts(&init_sa, &resp), (None, None, vec![notify_type::NO_PROPOSAL_CHOSEN]), "{what}");
        let (_, sar2, peer_spi) = answer(&[bad.clone(), fine()]);
        assert_eq!((sar2, peer_spi), (Some(SecurityAssociation { proposals: vec![ours(2)] }), Some(0x1002)), "{what}, then a proposal that is fine");
    }
    // Next to the plain transform of its type, in one proposal.
    for (what, transforms, answered) in [
        ("an ESN NONE", vec![gcm(), transform(transform_type::ESN, transform_id::ESN_NONE, &KEY_LENGTH_128), esn_none()], vec![GCM256, ESN_NONE]),
        ("an ESN we cannot read", vec![gcm(), transform(transform_type::ESN, transform_id::ESN_NONE, &UNKNOWN_ATTRIBUTE), esn_none()], vec![GCM256, ESN_NONE]),
        ("an INTEG we cannot read", vec![gcm(), transform(transform_type::INTEG, transform_id::AUTH_HMAC_SHA2_256_128, &UNKNOWN_ATTRIBUTE), transform(transform_type::INTEG, transform_id::INTEG_NONE, &[]), esn_none()], vec![GCM256, (transform_type::INTEG, transform_id::INTEG_NONE, None), ESN_NONE]),
        ("a DH NONE", vec![gcm(), transform(transform_type::DH, 0, &KEY_LENGTH_128), transform(transform_type::DH, 0, &[]), esn_none()], vec![GCM256, (transform_type::DH, 0, None), ESN_NONE]),
    ] {
        // The order of the transforms in a proposal is not significant (§3.3), so it is not compared.
        let (_, sar2, peer_spi) = answer(&[esp(1, &transforms)]);
        let sorted = |sa: SecurityAssociation| {
            let mut proposals = sa.proposals;
            proposals.iter_mut().for_each(|p| p.transforms.sort_by_key(|t| (t.transform_type, t.transform_id)));
            proposals
        };
        let expected = sorted(SecurityAssociation { proposals: vec![esp_proposal(1, 0xCAFE_BABE, &answered)] });
        assert_eq!((sar2.map(sorted), peer_spi), (Some(expected), Some(0x1001)), "{what}, next to a plain one");
    }
    // A DH group passed over whatever it carries.
    for (what, dh) in [
        ("a DH group", transform(transform_type::DH, transform_id::MODP_2048, &[])),
        ("a DH group with a Key Length", transform(transform_type::DH, transform_id::MODP_2048, &KEY_LENGTH_128)),
        ("a DH group we cannot read", transform(transform_type::DH, transform_id::MODP_2048, &UNKNOWN_ATTRIBUTE)),
    ] {
        let (_, sar2, peer_spi) = answer(&[esp(1, &[gcm(), dh, esn_none()])]);
        assert_eq!((sar2, peer_spi), (Some(SecurityAssociation { proposals: vec![ours(1)] }), Some(0x1001)), "{what} in SAi2 is left out");
    }

    // The initiator's side: a forged SAr2 naming them is not the proposal we sent.
    let (resp, ..) = responder_process_auth(&resp_sa, &req, &rcfg, 0xCAFE_BABE, &[2u8; 8], None).unwrap();
    let verify = |sar2: Vec<u8>| {
        let resp = with_sa_body(resp_sa.suite.sk_cipher(), &resp, &resp_sa.keys.sk_er, &resp_sa.keys.sk_ar, sar2);
        initiator_verify_auth(&init_sa, &resp, &icfg, &esp_offer(0), ChildTsOffer::Ipv4).map(|(_, spi, ..)| spi)
    };
    let answered = |transforms: &[Vec<u8>]| sa(&[proposal(1, protocol_id::ESP, &0xCAFE_BABEu32.to_be_bytes(), transforms)]);
    assert_eq!(verify(answered(&[gcm(), esn_none()])), Ok(0xCAFE_BABE), "control");
    let cases = [
        ("an ESN NONE with a Key Length", answered(&[gcm(), transform(transform_type::ESN, transform_id::ESN_NONE, &KEY_LENGTH_128)])),
        ("an ESN we cannot read instead of ours", answered(&[gcm(), transform(transform_type::ESN, transform_id::ESN_NONE, &UNKNOWN_ATTRIBUTE)])),
        ("an ESN we cannot read added", answered(&[gcm(), esn_none(), transform(transform_type::ESN, transform_id::ESN_NONE, &UNKNOWN_ATTRIBUTE)])),
        ("an ENCR we cannot read added", answered(&[gcm(), transform(transform_type::ENCR, transform_id::AES_GCM_16, &UNKNOWN_ATTRIBUTE), esn_none()])),
        ("an INTEG NONE with a Key Length added", answered(&[gcm(), transform(transform_type::INTEG, transform_id::INTEG_NONE, &KEY_LENGTH_128), esn_none()])),
        ("a DH NONE with a Key Length added", answered(&[gcm(), transform(transform_type::DH, 0, &KEY_LENGTH_128), esn_none()])),
    ];
    for (what, sar2) in cases {
        assert_eq!(verify(sar2), Err(IkeError::NoProposalChosen), "{what}");
    }
}

/// RFC 7296 §3.3.6, §2.7, §3.3.1: the initiator takes back one of its SAi2
/// proposals -- a single one, by its number, one transform of each type --
/// or nothing: each forged SAr2 below names the very suite we offered and
/// must still be refused, and so must one that does not even parse (it
/// used to skip the check altogether).
#[test]
fn the_ike_auth_initiator_takes_only_one_of_its_proposals_back() {
    let (init_sa, resp_sa) = run_sa_init();
    let psk = b"pw".to_vec();
    let icfg = AuthConfig::psk(Identification::fqdn("client.example"), psk.clone());
    let rcfg = AuthConfig::psk(Identification::fqdn("gw.example"), psk);
    let req = initiator_auth_request(&init_sa, &icfg, 1, &esp_offer(0), &[1u8; 8]).unwrap();
    let (resp, ..) = responder_process_auth(&resp_sa, &req, &rcfg, 0xCAFE_BABE, &[2u8; 8], None).unwrap();
    let verify = |sar2: Vec<u8>| {
        let resp = with_sa_body(resp_sa.suite.sk_cipher(), &resp, &resp_sa.keys.sk_er, &resp_sa.keys.sk_ar, sar2);
        initiator_verify_auth(&init_sa, &resp, &icfg, &esp_offer(0), ChildTsOffer::Ipv4).map(|(_, spi, ..)| spi)
    };
    let ours = esp_proposal(1, 0xCAFE_BABE, &[GCM256, ESN_NONE]);
    assert_eq!(verify(SecurityAssociation { proposals: vec![ours.clone()] }.to_bytes()), Ok(0xCAFE_BABE), "control");

    let mut malformed = SecurityAssociation { proposals: vec![ours.clone()] }.to_bytes();
    malformed[3] += 4; // the proposal claims four octets more than the payload has
    let cases = [
        ("two proposals", SecurityAssociation { proposals: vec![ours.clone(), ours.clone()] }.to_bytes()),
        ("two ENCR transforms", SecurityAssociation { proposals: vec![esp_proposal(1, 0xCAFE_BABE, &[GCM256, GCM256, ESN_NONE])] }.to_bytes()),
        ("a proposal number we never sent", SecurityAssociation { proposals: vec![Proposal { num: 2, ..ours.clone() }] }.to_bytes()),
        ("an SA payload that does not parse", malformed),
    ];
    for (what, sar2) in cases {
        assert!(verify(sar2).is_err(), "{what}");
    }
}

#[test]
fn wrong_psk_is_rejected() {
    let (init_sa, resp_sa) = run_sa_init();
    let icfg = AuthConfig::psk(Identification::fqdn("client"), b"right".to_vec());
    let rcfg = AuthConfig::psk(Identification::fqdn("server"), b"wrong".to_vec());
    let req = initiator_auth_request(&init_sa, &icfg, 1, &esp_offer(0), &[1u8; 8]).unwrap();
    assert_eq!(
        responder_process_auth(&resp_sa, &req, &rcfg, 2, &[2u8; 8], None).err().unwrap(),
        IkeError::AuthFailed
    );
}

#[test]
fn tampered_ciphertext_is_rejected() {
    let (init_sa, resp_sa) = run_sa_init();
    let cfg = AuthConfig::psk(Identification::fqdn("x"), b"psk".to_vec());
    let mut req = initiator_auth_request(&init_sa, &cfg, 1, &esp_offer(0), &[1u8; 8]).unwrap();
    let last = req.len() - 1;
    req[last] ^= 1; // corrupt the GCM tag
    assert_eq!(
        responder_process_auth(&resp_sa, &req, &cfg, 2, &[2u8; 8], None).err().unwrap(),
        IkeError::BadIntegrity
    );
}

// When the peer hasn't negotiated RFC 7427 Digital Signature, the fallback goes
// by the key: classic ECDSA for an EC key, PKCS #1 v1.5 for an RSA key.
#[test]
fn cert_auth_payload_picks_the_fallback_by_key_type() {
    assert_eq!(cert_auth_method(KeyKind::EcdsaP256, &[]), auth_method::ECDSA_SHA256_P256);
    assert_eq!(cert_auth_method(KeyKind::Rsa, &[]), auth_method::RSA_SIG);
    // Negotiated, either signs as method 14.
    assert_eq!(cert_auth_method(KeyKind::EcdsaP256, &[sighash::SHA2_256]), auth_method::DIGITAL_SIGNATURE);
    assert_eq!(cert_auth_method(KeyKind::Rsa, &[sighash::SHA2_256]), auth_method::DIGITAL_SIGNATURE);
    // Other hashes are no offer of the one we sign with.
    assert_eq!(cert_auth_method(KeyKind::Rsa, &[sighash::SHA2_256 + 1]), auth_method::RSA_SIG);
}

// `initiator_eap_request_with_certs` (the "Certificate + EAP" hybrid a
// FortiGate dialup policy can require, per eap_auth::EapInitiator's
// `set_client_certs`) carries no AUTH -- verified here by decrypting the
// built message directly and inspecting its payload chain.
#[test]
fn initiator_eap_request_with_certs_carries_the_cert_chain_and_certreq() {
    let (init_sa, _resp_sa) = run_sa_init();
    let id = Identification::fqdn("client.example");
    let chain = vec![vec![0x30, 0x82, 0x01, 0x0a, 0x02, 0x01]];
    let ca_hashes = vec![[0x5a; 20]];
    let req = initiator_eap_request_with_certs(&init_sa, &id, 0xC0FFEE, true, &esp_offer(0), ChildTsOffer::Ipv4, &chain, Some(ca_hashes.clone()), &[3u8; 8])
        .unwrap();

    let (first, inner) = open_encrypted(init_sa.suite.sk_cipher(), &req, &init_sa.keys.sk_ei, &init_sa.keys.sk_ai).unwrap();
    let mut certs = Vec::new();
    let mut certreqs = Vec::new();
    let mut saw_auth = false;
    for p in collected(first, &inner) {
        match p.payload_type {
            PayloadType::Certificate => certs.push(Certificate::parse(p.data).unwrap().data),
            PayloadType::CertRequest => certreqs.push(CertRequest::parse(p.data).unwrap().ca_hashes),
            PayloadType::Authentication => saw_auth = true,
            _ => {}
        }
    }
    assert_eq!(certs, chain, "the client's own leaf must be attached as bare identity");
    assert_eq!(certreqs, vec![ca_hashes], "CERTREQ must carry the real trusted-CA hashes, not a placeholder");
    assert!(!saw_auth, "no AUTH payload -- the initiator still authenticates via the EAP exchange that follows");
}

/// A certificate configuration whose signature is `signature`, trusting what
/// was vouched for.
fn cert_config(signature: &[u8], vouched: Option<CertClaim>) -> AuthConfig {
    AuthConfig {
        id: Identification::fqdn("vpn.example.com"),
        local: LocalAuth::Cert {
            chain: vec![b"leaf".to_vec(), b"intermediate".to_vec()],
            auth: Authentication { method: auth_method::DIGITAL_SIGNATURE, data: signature.to_vec() },
        },
        peer: PeerAuth::Cert { ca_hashes: vec![[7; 20]], vouched },
    }
}

/// A peer's certificates and signature are taken exactly when they were vouched
/// for, and the claim to vouch for is read off its message.
#[test]
fn a_certificate_claim_is_taken_only_when_it_was_vouched_for() {
    let (init_sa, resp_sa) = run_sa_init();
    let ours = cert_config(b"initiator's signature", None);
    let req = initiator_auth_request(&init_sa, &ours, 1, &esp_offer(0), &[1u8; 8]).unwrap();
    let claim = peer_cert_claim(&resp_sa, &req).unwrap();
    assert_eq!(claim.certs, vec![b"leaf".to_vec(), b"intermediate".to_vec()]);
    assert_eq!(claim.auth.data, b"initiator's signature".to_vec());
    let octets = initiator_signed_octets(
        init_sa.suite.prf_algorithm(),
        &init_sa.init_message,
        &init_sa.nr,
        &init_sa.keys.sk_pi,
        &ours.id.to_bytes(),
    );
    assert_eq!(claim.octets, octets, "what the signature is over");

    let answer = |vouched: Option<CertClaim>| {
        responder_process_auth(&resp_sa, &req, &cert_config(b"responder's signature", vouched), 2, &[2u8; 8], None)
    };
    let (resp, learned, ..) = answer(Some(claim.clone())).unwrap();
    assert_eq!(learned, Identification::fqdn("vpn.example.com"));
    assert_eq!(answer(None).err(), Some(IkeError::AuthFailed), "nothing vouched for");
    let mut other = claim.clone();
    other.auth.data[0] ^= 1;
    assert_eq!(answer(Some(other)).err(), Some(IkeError::AuthFailed), "another signature");
    let mut other = claim.clone();
    other.certs.truncate(1);
    assert_eq!(answer(Some(other)).err(), Some(IkeError::AuthFailed), "other certificates");
    let mut other = claim;
    other.octets[0] ^= 1;
    assert_eq!(answer(Some(other)).err(), Some(IkeError::AuthFailed), "other octets");

    // And the initiator, of the responder.
    let claim = peer_cert_claim(&init_sa, &resp).unwrap();
    assert_eq!(claim.auth.data, b"responder's signature".to_vec());
    let (learned, ..) =
        initiator_verify_auth(&init_sa, &resp, &cert_config(b"", Some(claim)), &esp_offer(0), ChildTsOffer::Ipv4).unwrap();
    assert_eq!(learned, Identification::fqdn("vpn.example.com"));
    let got = initiator_verify_auth(&init_sa, &resp, &ours, &esp_offer(0), ChildTsOffer::Ipv4);
    assert_eq!(got.err(), Some(IkeError::AuthFailed));
}

/// A request says who sent it before anything of it is trusted, and whether
/// EAP follows: it has no AUTH.
#[test]
fn a_request_is_read_for_its_identity_and_for_eap() {
    let (init_sa, resp_sa) = run_sa_init();
    let icfg = AuthConfig::psk(Identification::fqdn("client.example"), b"pw".to_vec());
    let plain = initiator_auth_request(&init_sa, &icfg, 1, &esp_offer(0), &[1u8; 8]).unwrap();
    let eap = initiator_eap_request(&init_sa, &icfg.id, 1, false, &esp_offer(0), ChildTsOffer::Ipv4, &[1u8; 8]).unwrap();
    assert_eq!(peer_id_from_auth(&resp_sa, &plain).unwrap(), icfg.id);
    assert_eq!(peer_id_from_request(&resp_sa, &plain), Some(icfg.id.clone()));
    assert_eq!(peer_id_from_request(&resp_sa, &eap), Some(icfg.id.clone()));
    assert_eq!(peer_id_from_auth(&resp_sa, &eap).err(), Some(IkeError::MissingPayload("AUTH")));
    assert!(is_eap_request(&resp_sa, &eap) && !is_eap_request(&resp_sa, &plain));
    assert!(!client_sent_certreq(&resp_sa, &eap));
    // Tampered with, there is nothing to read.
    let (mut plain, mut eap) = (plain, eap);
    plain[40] ^= 1;
    eap[40] ^= 1;
    assert_eq!(peer_id_from_request(&resp_sa, &plain), None);
    assert!(!is_eap_request(&resp_sa, &eap));
}
