//! IKE_AUTH with EAP-MSCHAPv2.

use ryke::entropy::Entropy;
use ryke::error::IkeError;
use ryke::ikev2::auth::{initiator_signed_octets, psk_auth, responder_signed_octets};
use ryke::ikev2::child::{esp_offer, ChildTsOffer};
use ryke::ikev2::eap;
use ryke::ikev2::eap_auth::{EapEvent, EapFailureReason, EapInitiator, EapResponder, ServerAuth, ServerVerify};
use ryke::ikev2::exchange::{
    default_offer, initiator_complete, initiator_request, responder_respond, CompletedSaInit, LocalSecret,
};
use ryke::ikev2::ike_auth::AssignedConfig;
use ryke::ikev2::informational::{open_from_peer, payload_list};
use ryke::ikev2::message::{
    encode_payload_chain, first_payload_type, ExchangeType, Flags, IkeHeader, PayloadType,
};
use ryke::ikev2::mobike::{mobike_supported, peer_supports_mobike};
use ryke::ikev2::mschapv2;
use ryke::ikev2::payload::{
    auth_method, notify_type, notify_type_name, protocol_id, transform_id, transform_type, Authentication, Identification,
    Notify, Proposal, SecurityAssociation, TrafficSelector, TrafficSelectors, Transform,
};
use ryke::ikev2::sk::build_encrypted;
use ryke::role::Role;

/// Repeatable stand-in for a random source.
struct SeedEntropy(u64);

impl SeedEntropy {
    fn new(seed: u64) -> Self {
        SeedEntropy(seed)
    }
}

impl Entropy for SeedEntropy {
    fn next_u64(&mut self) -> u64 {
        self.0 = self.0.wrapping_add(0x9E37_79B9_7F4A_7C15);
        let mut z = self.0;
        z = (z ^ (z >> 30)).wrapping_mul(0xBF58_476D_1CE4_E5B9);
        z = (z ^ (z >> 27)).wrapping_mul(0x94D0_49BB_1331_11EB);
        z ^ (z >> 31)
    }
}

type Payloads = Vec<(PayloadType, Vec<u8>)>;

/// The Message ID and payloads of a message `sa`'s peer sealed.
fn decrypt(sa: &CompletedSaInit, msg: &[u8]) -> Result<(u32, Payloads), IkeError> {
    let header = IkeHeader::parse(msg)?;
    let (first, inner) = open_from_peer(sa, msg)?;
    Ok((header.message_id, payload_list(first, &inner)?))
}

/// An IKE_AUTH message of `sa`'s side.
fn build_sk(sa: &CompletedSaInit, msg_id: u32, response: bool, inner: &[(PayloadType, Vec<u8>)], iv: &[u8; 8]) -> Result<Vec<u8>, IkeError> {
    let initiator = sa.role == Role::Initiator;
    let header = IkeHeader {
        initiator_spi: sa.spi_i,
        responder_spi: sa.spi_r,
        next_payload: PayloadType::NoNext,
        major_version: 2,
        minor_version: 0,
        exchange_type: ExchangeType::IkeAuth,
        flags: Flags { initiator, version: false, response },
        message_id: msg_id,
        length: 0,
    };
    let (sk_e, sk_a) = if initiator { (&sa.keys.sk_ei, &sa.keys.sk_ai) } else { (&sa.keys.sk_er, &sa.keys.sk_ar) };
    build_encrypted(sa.suite.sk_cipher(), header, first_payload_type(inner), &encode_payload_chain(inner), sk_e, sk_a, iv)
}

/// The body of the first payload of type `wanted`.
fn find(payloads: &[(PayloadType, Vec<u8>)], wanted: PayloadType) -> Option<&[u8]> {
    payloads.iter().find(|(t, _)| *t == wanted).map(|(_, body)| body.as_slice())
}

/// One edit: what it is, the TSi and TSr bodies it answers with (left
/// out when `None`), and the error it must be refused with.
type TsAnswer = (&'static str, Option<Vec<u8>>, Option<Vec<u8>>, IkeError);

/// The traffic selector edits a response creating a CHILD SA must not get
/// past the initiator (RFC 7296 §2.9, §3.13) -- and what it fails with, the proposal being
/// `0.0.0.0/0` for both TSi and TSr.
fn ts_answers_outside_an_ipv4_offer() -> Vec<TsAnswer> {
    let v4 = TrafficSelectors::ipv4_full_tunnel().to_bytes();
    let v6 = TrafficSelectors::ipv6_full_tunnel().to_bytes();
    let unified = TrafficSelectors::unified_full_tunnel().to_bytes();
    vec![
        ("no TSi", None, Some(v4.clone()), IkeError::MissingPayload("TSi")),
        ("no TSr", Some(v4.clone()), None, IkeError::MissingPayload("TSr")),
        ("IPv6 TSr for an IPv4 offer", Some(v4.clone()), Some(v6.clone()), IkeError::TsOutsideOffer),
        ("IPv6 TSi for an IPv4 offer", Some(v6), Some(v4.clone()), IkeError::TsOutsideOffer),
        ("an IPv6 selector added to TSr", Some(v4.clone()), Some(unified), IkeError::TsOutsideOffer),
        ("an empty TSr", Some(v4), Some(vec![0, 0, 0, 0]), IkeError::MalformedPayload("TS payload with no Traffic Selector")),
    ]
}

/// `chain` with its TSi/TSr replaced by `tsi`/`tsr` (left out when `None`).
fn with_ts(chain: Vec<(PayloadType, Vec<u8>)>, tsi: Option<Vec<u8>>, tsr: Option<Vec<u8>>) -> Vec<(PayloadType, Vec<u8>)> {
    let mut out: Vec<_> =
        chain.into_iter().filter(|(t, _)| !matches!(t, PayloadType::TrafficSelectorInitiator | PayloadType::TrafficSelectorResponder)).collect();
    out.extend(tsi.map(|b| (PayloadType::TrafficSelectorInitiator, b)));
    out.extend(tsr.map(|b| (PayloadType::TrafficSelectorResponder, b)));
    out
}

/// Traffic selectors the responder tests propose.
struct SampleTs {
    pub v4: TrafficSelectors,
    pub v6: TrafficSelectors,
    pub unified: TrafficSelectors,
    /// 10.0.0.5, alone.
    pub host: TrafficSelectors,
    /// 10.9.9.9, alone.
    pub other_host: TrafficSelectors,
    /// 10.1.0.0/16.
    pub subnet: TrafficSelectors,
    /// A lone selector of TS Type 9, which no RFC defines.
    pub unknown: TrafficSelectors,
    /// That one, then `0.0.0.0/0`.
    pub unknown_then_v4: TrafficSelectors,
}

fn sample_ts() -> SampleTs {
    let unknown = TrafficSelector { ts_type: 9, ..TrafficSelector::ipv4_any() };
    SampleTs {
        v4: TrafficSelectors::ipv4_full_tunnel(),
        v6: TrafficSelectors::ipv6_full_tunnel(),
        unified: TrafficSelectors::unified_full_tunnel(),
        host: TrafficSelectors { selectors: vec![TrafficSelector::ipv4_host([10, 0, 0, 5])] },
        other_host: TrafficSelectors { selectors: vec![TrafficSelector::ipv4_host([10, 9, 9, 9])] },
        subnet: TrafficSelectors {
            selectors: vec![TrafficSelector { start_addr: vec![10, 1, 0, 0], end_addr: vec![10, 1, 255, 255], ..TrafficSelector::ipv4_any() }],
        },
        unknown: TrafficSelectors { selectors: vec![unknown.clone()] },
        unknown_then_v4: TrafficSelectors { selectors: vec![unknown, TrafficSelector::ipv4_any()] },
    }
}

/// What a responder answered the initiator of `init_sa`: its TSi, its
/// TSr, and the types of its Notify payloads.
fn answered_ts(init_sa: &CompletedSaInit, resp: &[u8]) -> (Option<TrafficSelectors>, Option<TrafficSelectors>, Vec<u16>) {
    let (mut tsi, mut tsr, mut notifies) = (None, None, Vec::new());
    for (payload_type, body) in decrypt(init_sa, resp).unwrap().1 {
        match payload_type {
            PayloadType::TrafficSelectorInitiator => tsi = Some(TrafficSelectors::parse(&body).unwrap()),
            PayloadType::TrafficSelectorResponder => tsr = Some(TrafficSelectors::parse(&body).unwrap()),
            PayloadType::Notify => notifies.push(Notify::parse(&body).unwrap().notify_type),
            _ => {}
        }
    }
    (tsi, tsr, notifies)
}

#[derive(PartialEq, Eq, Debug)]
enum Outcome {
    Established,
    Failed,
}

fn sa_pair() -> (CompletedSaInit, CompletedSaInit) {
    let init = LocalSecret { dh_private: [7u8; 32], nonce: vec![0x11; 32], spi: 0xA1 };
    let resp = LocalSecret { dh_private: [9u8; 32], nonce: vec![0x22; 32], spi: 0xB2 };
    let request = initiator_request(&init, &default_offer());
    let (response, resp_done) = responder_respond(&request, &resp).unwrap();
    let init_done = initiator_complete(&init, &request, &response).unwrap();
    (init_done, resp_done)
}

/// Run the whole exchange to a terminal state, asserting the initiator and
/// responder agree on success/failure.
fn drive(mut initiator: EapInitiator, mut responder: EapResponder) -> Outcome {
    let mut ie = SeedEntropy::new(1);
    let mut re = SeedEntropy::new(2);
    let mut in_flight = initiator.start(&mut ie).unwrap(); // msg-1 (init → resp)
    for _round in 0..12 {
        match responder.handle(&in_flight, &mut re).unwrap() {
            EapEvent::Reply(m) => match initiator.handle(&m, &mut ie).unwrap() {
                EapEvent::Reply(m2) => in_flight = m2,
                EapEvent::Established(_) => return Outcome::Established,
                EapEvent::Failed(_) => return Outcome::Failed,
            },
            EapEvent::Established(Some(final_msg)) => {
                // The responder is up; the initiator must accept the final message.
                return match initiator.handle(&final_msg, &mut ie).unwrap() {
                    EapEvent::Established(None) => Outcome::Established,
                    _ => Outcome::Failed,
                };
            }
            EapEvent::Established(None) => return Outcome::Established,
            EapEvent::Failed(_) => return Outcome::Failed,
        }
    }
    Outcome::Failed
}

#[test]
fn server_psk_verify_succeeds_when_psk_matches() {
    // The gateway shape this variant exists for: no certificate, the
    // responder authenticates itself with a group PSK, and the client can
    // now actually check that (previously only Insecure/TrustedCas
    // existed, so a PSK-authenticated server could only be blindly
    // trusted, never verified).
    let (init_sa, resp_sa) = sa_pair();
    let initiator = EapInitiator::new(init_sa, Identification::fqdn("alice"), b"alice".to_vec(), "s3cret".into(), 0x1111, ServerVerify::Psk(b"group-psk".to_vec()));
    let responder = EapResponder::new(resp_sa, Identification::fqdn("gw"), ServerAuth::Psk(b"group-psk".to_vec()), b"alice".to_vec(), "s3cret".into(), 0x2222);
    assert_eq!(drive(initiator, responder), Outcome::Established);
}

#[test]
fn server_psk_verify_rejects_wrong_psk() {
    // Same responder, but the client was configured with the wrong group
    // PSK -- it must not proceed to EAP (would otherwise disclose the
    // username/password to an unverified peer).
    let (init_sa, resp_sa) = sa_pair();
    let initiator = EapInitiator::new(init_sa, Identification::fqdn("alice"), b"alice".to_vec(), "s3cret".into(), 0x1111, ServerVerify::Psk(b"wrong-psk".to_vec()));
    let responder = EapResponder::new(resp_sa, Identification::fqdn("gw"), ServerAuth::Psk(b"group-psk".to_vec()), b"alice".to_vec(), "s3cret".into(), 0x2222);
    assert_eq!(drive(initiator, responder), Outcome::Failed, "a mismatched PSK must fail server verification");
}

#[test]
fn full_eap_mschapv2_handshake_in_process() {
    let (init_sa, resp_sa) = sa_pair();
    let initiator = EapInitiator::new(init_sa, Identification::fqdn("alice"), b"alice".to_vec(), "s3cret".into(), 0x1111, ServerVerify::Insecure);
    let responder = EapResponder::new(resp_sa, Identification::fqdn("gw"), ServerAuth::Psk(b"psk".to_vec()), b"alice".to_vec(), "s3cret".into(), 0x2222);
    assert_eq!(drive(initiator, responder), Outcome::Established);
}

/// Run the EAP exchange up to the responder's final message (the one with
/// its MSK-keyed AUTH + SA/TS), and return it with both endpoints.
fn run_to_final_message() -> (EapInitiator, EapResponder, Vec<u8>) {
    run_to_final_message_with_mobike(false, false)
}

/// [`run_to_final_message`] with the responder's [`EapResponder::set_mobike`]
/// set to `opt_in`, and `N(MOBIKE_SUPPORTED)` added to msg-1 when `offer`.
fn run_to_final_message_with_mobike(offer: bool, opt_in: bool) -> (EapInitiator, EapResponder, Vec<u8>) {
    let (init_sa, resp_sa) = sa_pair();
    let mut initiator = EapInitiator::new(init_sa, Identification::fqdn("alice"), b"alice".to_vec(), "s3cret".into(), 0x1111, ServerVerify::Insecure);
    let mut responder = EapResponder::new(resp_sa, Identification::fqdn("gw"), ServerAuth::Psk(b"psk".to_vec()), b"alice".to_vec(), "s3cret".into(), 0x2222);
    responder.set_mobike(opt_in);
    let mut ie = SeedEntropy::new(1);
    let mut re = SeedEntropy::new(2);
    let mut in_flight = initiator.start(&mut ie).unwrap();
    if offer {
        let (msg_id, mut ps) = decrypt(&sa_pair().1, &in_flight).unwrap();
        ps.push((PayloadType::Notify, mobike_supported().to_bytes()));
        in_flight = build_sk(&sa_pair().0, msg_id, false, &ps, &[4u8; 8]).unwrap();
    }
    let final_msg = loop {
        match responder.handle(&in_flight, &mut re).unwrap() {
            EapEvent::Reply(m) => match initiator.handle(&m, &mut ie).unwrap() {
                EapEvent::Reply(m2) => in_flight = m2,
                other => panic!("the initiator ended early: {other:?}"),
            },
            EapEvent::Established(Some(f)) => break f,
            other => panic!("unexpected responder event: {other:?}"),
        }
    };
    (initiator, responder, final_msg)
}

/// `final_msg` as a responder sends it when only the CHILD SA failed (RFC
/// 7296 §1.2): the same IDr + AUTH, then `error` instead of SA/TS/CFG.
/// `tamper_auth` corrupts the AUTH to model a peer that did not authenticate.
fn child_rejected_final(final_msg: &[u8], error: u16, tamper_auth: bool) -> Vec<u8> {
    let (msg_id, ps) = decrypt(&sa_pair().0, final_msg).unwrap();
    let mut inner: Payloads = ps
        .into_iter()
        .filter(|(t, _)| matches!(t, PayloadType::IdResponder | PayloadType::Authentication))
        .collect();
    if tamper_auth {
        for (t, body) in &mut inner {
            if *t == PayloadType::Authentication {
                let last = body.len() - 1;
                body[last] ^= 1;
            }
        }
    }
    inner.push((PayloadType::Notify, Notify::status(error, Vec::new()).to_bytes()));
    build_sk(&sa_pair().1, msg_id, true, &inner, &[3u8; 8]).unwrap()
}

#[test]
fn eap_responder_advertises_mobike_only_when_opted_in_and_offered() {
    // (initiator offered, responder opted in) -> MOBIKE advertised + in force.
    for (offer, opt_in, expect) in [(false, false, false), (true, false, false), (false, true, false), (true, true, true)] {
        let (mut initiator, responder, final_msg) = run_to_final_message_with_mobike(offer, opt_in);
        let (_msg_id, ps) = decrypt(&sa_pair().0, &final_msg).unwrap();
        // By default nothing behind the responder follows a client to a new
        // address, so it must not invite one to move (RFC 4555); opted in,
        // it still answers only an initiator that offered MOBIKE (§3.1).
        assert_eq!(peer_supports_mobike(&ps), expect, "offer={offer} opt_in={opt_in}");
        assert_eq!(responder.mobike_enabled(), expect, "offer={offer} opt_in={opt_in}");
        assert!(matches!(initiator.handle(&final_msg, &mut SeedEntropy::new(1)), Ok(EapEvent::Established(None))));
    }
}

#[test]
fn eap_final_message_that_does_not_repeat_idr_still_verifies() {
    // RFC 7296 §2.16: IDr travels in the first IKE_AUTH response only; the
    // final one is AUTH + SA + TS (+ CP), and its AUTH is still signed over
    // that first IDr. strongSwan sends it this way; the FortiGate repeats it.
    let (mut initiator, _responder, final_msg) = run_to_final_message();
    let (msg_id, ps) = decrypt(&sa_pair().0, &final_msg).unwrap();
    assert!(find(&ps, PayloadType::IdResponder).is_some(), "the test responder repeats IDr");
    let inner: Payloads = ps.into_iter().filter(|(t, _)| *t != PayloadType::IdResponder).collect();
    let without_idr = build_sk(&sa_pair().1, msg_id, true, &inner, &[3u8; 8]).unwrap();
    assert!(matches!(initiator.handle(&without_idr, &mut SeedEntropy::new(1)), Ok(EapEvent::Established(None))));
}

#[test]
fn eap_child_sa_error_after_a_good_auth_is_a_named_rejection() {
    // The FortiGate path: EAP succeeds and AUTH verifies, but the gateway
    // refuses the CHILD SA in that last IKE_AUTH message. That used to be
    // reported as a failed authentication.
    for error in [notify_type::TS_UNACCEPTABLE, notify_type::NO_PROPOSAL_CHOSEN, notify_type::SINGLE_PAIR_REQUIRED] {
        let (mut initiator, _responder, final_msg) = run_to_final_message();
        let rejected = child_rejected_final(&final_msg, error, false);
        let err = initiator.handle(&rejected, &mut SeedEntropy::new(1)).err().unwrap();
        assert_eq!(err, IkeError::PeerRejected { notify_type: error, name: notify_type_name(error) });
    }
}

#[test]
fn eap_child_sa_error_is_not_believed_when_the_auth_does_not_verify() {
    let (mut initiator, _responder, final_msg) = run_to_final_message();
    let rejected = child_rejected_final(&final_msg, notify_type::TS_UNACCEPTABLE, true);
    assert!(matches!(initiator.handle(&rejected, &mut SeedEntropy::new(1)), Ok(EapEvent::Failed(None))));
}

#[test]
fn eap_final_message_with_an_unoffered_esp_suite_is_rejected() {
    // `EapInitiator` offers AES-GCM-256 by default. A responder whose
    // final message's SAr2 names AES-CBC-128/HMAC-SHA1-96 instead -- a
    // combination `select_esp`/`sk::SkCipher` can decode fine -- must be
    // rejected, not silently accepted as the negotiated cipher (RFC 7296
    // §2.7): the AUTH doesn't cover SA/TS, so a compromised or on-path
    // responder that already knows how to pass EAP could otherwise
    // downgrade the data-plane cipher undetected.
    let (mut initiator, _responder, final_msg) = run_to_final_message();
    let (msg_id, ps) = decrypt(&sa_pair().0, &final_msg).unwrap();
    let mut inner: Payloads = ps
        .into_iter()
        .filter(|(t, _)| matches!(t, PayloadType::IdResponder | PayloadType::Authentication))
        .collect();
    let downgrade = SecurityAssociation {
        proposals: vec![Proposal {
            num: 1,
            protocol_id: protocol_id::ESP,
            spi: 0x2222u32.to_be_bytes().to_vec(),
            transforms: vec![
                Transform { transform_type: transform_type::ENCR, transform_id: transform_id::AES_CBC, key_length: Some(128) },
                Transform { transform_type: transform_type::INTEG, transform_id: transform_id::AUTH_HMAC_SHA1_96, key_length: None },
                Transform { transform_type: transform_type::ESN, transform_id: transform_id::ESN_NONE, key_length: None },
            ],
        }],
    };
    inner.push((PayloadType::SecurityAssociation, downgrade.to_bytes()));
    inner.push((PayloadType::TrafficSelectorInitiator, TrafficSelectors::ipv4_full_tunnel().to_bytes()));
    inner.push((PayloadType::TrafficSelectorResponder, TrafficSelectors::ipv4_full_tunnel().to_bytes()));
    let tampered = build_sk(&sa_pair().1, msg_id, true, &inner, &[3u8; 8]).unwrap();
    let err = initiator.handle(&tampered, &mut SeedEntropy::new(1)).err().unwrap();
    assert_eq!(err, IkeError::NoProposalChosen);
}

#[test]
fn eap_final_message_must_answer_both_ts_within_the_offer() {
    for (what, tsi, tsr, expected) in ts_answers_outside_an_ipv4_offer() {
        let (mut initiator, _responder, final_msg) = run_to_final_message();
        let (msg_id, ps) = decrypt(&sa_pair().0, &final_msg).unwrap();
        let edited = build_sk(&sa_pair().1, msg_id, true, &with_ts(ps, tsi, tsr), &[3u8; 8]).unwrap();
        assert_eq!(initiator.handle(&edited, &mut SeedEntropy::new(1)).err(), Some(expected), "{what}");
    }

    // Positive controls: TSi narrowed to one address, and both families
    // granted to a unified offer.
    let host = TrafficSelectors { selectors: vec![TrafficSelector::ipv4_host([10, 8, 0, 4])] };
    let unified = TrafficSelectors::unified_full_tunnel();
    for (offer, tsi, tsr) in
        [(ChildTsOffer::Ipv4, &host, TrafficSelectors::ipv4_full_tunnel()), (ChildTsOffer::Unified, &unified, unified.clone())]
    {
        let (mut initiator, _responder, final_msg) = run_to_final_message();
        initiator.set_ts_offer(offer);
        let (msg_id, ps) = decrypt(&sa_pair().0, &final_msg).unwrap();
        let edited = build_sk(&sa_pair().1, msg_id, true, &with_ts(ps, Some(tsi.to_bytes()), Some(tsr.to_bytes())), &[3u8; 8]).unwrap();
        assert!(matches!(initiator.handle(&edited, &mut SeedEntropy::new(1)), Ok(EapEvent::Established(None))), "{offer:?}");
        assert_eq!(initiator.granted_ts(), Some(&tsr));
    }
}

/// EAP run to the responder's final message, msg-1's TSi/TSr replaced by
/// `tsi`/`tsr` (left out when `None`) and the client `assigned` an
/// address -- or the error the responder met on the way.
fn final_message_for_ts(
    tsi: Option<&TrafficSelectors>,
    tsr: Option<&TrafficSelectors>,
    assigned: Option<AssignedConfig>,
) -> Result<(EapInitiator, EapResponder, Vec<u8>), IkeError> {
    let (init_sa, resp_sa) = sa_pair();
    let mut initiator =
        EapInitiator::new(init_sa, Identification::fqdn("alice"), b"alice".to_vec(), "s3cret".into(), 0x1111, ServerVerify::Insecure);
    let mut responder =
        EapResponder::new(resp_sa, Identification::fqdn("gw"), ServerAuth::Psk(b"psk".to_vec()), b"alice".to_vec(), "s3cret".into(), 0x2222);
    responder.set_assigned(assigned);
    let (mut ie, mut re) = (SeedEntropy::new(1), SeedEntropy::new(2));
    let (msg_id, ps) = decrypt(&sa_pair().1, &initiator.start(&mut ie).unwrap()).unwrap();
    let ps = with_ts(ps, tsi.map(TrafficSelectors::to_bytes), tsr.map(TrafficSelectors::to_bytes));
    let mut in_flight = build_sk(&sa_pair().0, msg_id, false, &ps, &[4u8; 8]).unwrap();
    loop {
        match responder.handle(&in_flight, &mut re)? {
            EapEvent::Reply(m) => match initiator.handle(&m, &mut ie).unwrap() {
                EapEvent::Reply(m2) => in_flight = m2,
                other => panic!("the initiator ended early: {other:?}"),
            },
            EapEvent::Established(Some(f)) => return Ok((initiator, responder, f)),
            other => panic!("unexpected responder event: {other:?}"),
        }
    }
}

/// RFC 7296 §2.9 at the EAP responder: its final message answers msg-1's
/// TSi and TSr narrowed to IPv4 and the address it assigns, or refuses
/// the CHILD SA with `TS_UNACCEPTABLE` when either comes to nothing --
/// the IKE SA standing (§1.2).
#[test]
fn eap_responder_answers_a_subset_of_msg1_ts_or_ts_unacceptable() {
    let t = sample_ts();
    let assigned = || AssignedConfig { ip: [10, 8, 0, 4], dns: vec![] };
    let at_10_8_0_4 = TrafficSelectors { selectors: vec![TrafficSelector::ipv4_host(assigned().ip)] };

    let granted = [
        ("a host and a subnet, not the whole of IPv4", &t.host, &t.subnet, None, &t.host, &t.subnet),
        ("the IPv4 part of a unified proposal", &t.unified, &t.unified, None, &t.v4, &t.v4),
        ("a type no RFC defines is ignored", &t.v4, &t.unknown_then_v4, None, &t.v4, &t.v4),
        ("0.0.0.0/0 narrowed to the address assigned", &t.v4, &t.v4, Some(assigned()), &at_10_8_0_4, &t.v4),
    ];
    for (what, tsi, tsr, assigned, want_tsi, want_tsr) in granted {
        let (_initiator, responder, final_msg) = final_message_for_ts(Some(tsi), Some(tsr), assigned).unwrap();
        assert_eq!(answered_ts(&sa_pair().0, &final_msg), (Some(want_tsi.clone()), Some(want_tsr.clone()), vec![]), "{what}");
        assert_eq!(responder.peer_child_spi(), Some(0x1111), "{what}");
    }

    let refused = [
        ("IPv6 only", &t.v6, &t.v6, None),
        ("an address other than the one assigned", &t.other_host, &t.v4, Some(assigned())),
        ("a TSr of a type no RFC defines", &t.v4, &t.unknown, None),
    ];
    for (what, tsi, tsr, assigned) in refused {
        let (mut initiator, responder, final_msg) = final_message_for_ts(Some(tsi), Some(tsr), assigned).unwrap();
        assert_eq!(answered_ts(&sa_pair().0, &final_msg), (None, None, vec![notify_type::TS_UNACCEPTABLE]), "{what}");
        assert_eq!(responder.peer_child_spi(), None, "{what}: no CHILD SA");
        let got = initiator.handle(&final_msg, &mut SeedEntropy::new(1)).err().unwrap();
        assert_eq!(got, IkeError::PeerRejected { notify_type: notify_type::TS_UNACCEPTABLE, name: "TS_UNACCEPTABLE" }, "{what}");
    }

    // msg-1 asks for a CHILD SA, so it carries both (RFC 7296 §1.2).
    assert_eq!(final_message_for_ts(None, Some(&t.v4), None).err(), Some(IkeError::MissingPayload("TSi")));
    assert_eq!(final_message_for_ts(Some(&t.v4), None, None).err(), Some(IkeError::MissingPayload("TSr")));
}

#[test]
fn eap_final_message_without_sa_and_without_a_child_error_is_still_a_failure() {
    // Unchanged: no SA and no CHILD SA error notify means we can't say why.
    let (mut initiator, _responder, final_msg) = run_to_final_message();
    let rejected = child_rejected_final(&final_msg, notify_type::AUTHENTICATION_FAILED, false);
    assert!(matches!(initiator.handle(&rejected, &mut SeedEntropy::new(1)), Ok(EapEvent::Failed(None))));
}

#[test]
fn wrong_password_is_rejected() {
    let (init_sa, resp_sa) = sa_pair();
    let initiator = EapInitiator::new(init_sa, Identification::fqdn("alice"), b"alice".to_vec(), "wrong".into(), 0x1111, ServerVerify::Insecure);
    let responder = EapResponder::new(resp_sa, Identification::fqdn("gw"), ServerAuth::Psk(b"psk".to_vec()), b"alice".to_vec(), "right".into(), 0x2222);
    assert_eq!(drive(initiator, responder), Outcome::Failed, "a wrong password must fail");
}

#[test]
fn multi_user_selects_password_by_identity() {
    // Two provisioned users; a client authenticating as the *second* must
    // succeed — proving credentials are keyed by the client's EAP identity.
    let (init_sa, resp_sa) = sa_pair();
    let users = Vec::from([
        (b"alice".to_vec(), "alice-pw".to_string()),
        (b"bob".to_vec(), "bob-pw".to_string()),
    ]);
    let initiator = EapInitiator::new(init_sa, Identification::fqdn("bob"), b"bob".to_vec(), "bob-pw".into(), 0x1111, ServerVerify::Insecure);
    let responder = EapResponder::new_multi(resp_sa, Identification::fqdn("gw"), ServerAuth::Psk(b"psk".to_vec()), users, 0x2222);
    assert_eq!(drive(initiator, responder), Outcome::Established);
}

#[test]
fn multi_user_rejects_unknown_identity() {
    let (init_sa, resp_sa) = sa_pair();
    let users = Vec::from([(b"alice".to_vec(), "alice-pw".to_string())]);
    let initiator = EapInitiator::new(init_sa, Identification::fqdn("mallory"), b"mallory".to_vec(), "whatever".into(), 0x1111, ServerVerify::Insecure);
    let responder = EapResponder::new_multi(resp_sa, Identification::fqdn("gw"), ServerAuth::Psk(b"psk".to_vec()), users, 0x2222);
    assert_eq!(drive(initiator, responder), Outcome::Failed, "an unprovisioned identity must fail");
}

#[test]
fn client_refuses_eap_before_the_server_is_authenticated() {
    // A rogue peer that completed the unauthenticated IKE_SA_INIT sends a
    // first message with ONLY an EAP-Identity request — no IDr, no AUTH —
    // trying to skip server auth. The client must abort, never disclosing
    // its username or any MSCHAPv2 response.
    let (init_sa, resp_sa) = sa_pair();
    let mut initiator = EapInitiator::new(init_sa, Identification::fqdn("alice"), b"alice".to_vec(), "s3cret".into(), 0x1111, ServerVerify::TrustedCas { ca_hashes: vec![[0x5a; 20]], vouched: None });
    // Craft the rogue SK{ EAP-Req/Identity } with the responder-side keys.
    let eap = eap::EapPacket { code: eap::code::REQUEST, identifier: 1, data: vec![eap::eap_type::IDENTITY] };
    let rogue = build_sk(&resp_sa, 1, true, &[(PayloadType::Eap, eap.to_bytes())], &[0u8; 8]).unwrap();
    let mut ie = SeedEntropy::new(1);
    assert!(matches!(initiator.handle(&rogue, &mut ie).unwrap(), EapEvent::Failed(_)));
}

#[test]
fn eap_failure_reason_flags_e691_as_credentials_rejected() {
    // E=691 is RFC 2759's ERROR_AUTHENTICATION_FAILURE -- a rejected
    // username/password, the one case old charon's EAP_AUTH_HARD_FAILURE
    // grepped its debug log for.
    let r = EapFailureReason::parse("E=691 R=1 C=00112233445566778899AABBCCDDEEFF V=3".into());
    assert!(r.credentials_rejected);

    // Other MSCHAPv2 failure codes (e.g. 648 = ERROR_PASSWD_EXPIRED) are
    // real account states, not "wrong password" -- not the same signal.
    let r = EapFailureReason::parse("E=648 R=1 C=00112233445566778899AABBCCDDEEFF V=3".into());
    assert!(!r.credentials_rejected);

    // No parseable E= field at all -- treated as not a hard failure.
    let r = EapFailureReason::parse("garbage".into());
    assert!(!r.credentials_rejected);
}

#[test]
fn eap_mschapv2_failure_e691_surfaces_as_a_hard_failure_with_the_reason() {
    // The gateway sends an EAP-Req/MSCHAPv2-Failure with E=691 instead of
    // a Challenge/Success -- e.g. a definitively wrong password. The
    // client must surface the parsed, typed reason (not just a bare
    // Failed) so a caller retrying other gateway hosts can tell this
    // apart from a transient/protocol failure.
    let (init_sa, resp_sa) = sa_pair();
    let mut initiator = EapInitiator::new(init_sa, Identification::fqdn("alice"), b"alice".to_vec(), "wrong-password".into(), 0x1111, ServerVerify::Insecure);
    let failure_msg = b"E=691 R=1 C=00112233445566778899AABBCCDDEEFF V=3";
    let mut d = vec![eap::eap_type::MSCHAPV2, eap::op::FAILURE, 1u8];
    d.extend_from_slice(&((4 + failure_msg.len()) as u16).to_be_bytes());
    d.extend_from_slice(failure_msg);
    let eap = eap::EapPacket { code: eap::code::REQUEST, identifier: 1, data: d };
    let msg = build_sk(&resp_sa, 1, true, &[(PayloadType::Eap, eap.to_bytes())], &[0u8; 8]).unwrap();
    let mut ie = SeedEntropy::new(1);
    match initiator.handle(&msg, &mut ie).unwrap() {
        EapEvent::Failed(Some(reason)) => {
            assert!(reason.credentials_rejected);
            assert_eq!(reason.raw, String::from_utf8_lossy(failure_msg));
        }
        other => panic!("expected EapEvent::Failed(Some(_)), got {other:?}"),
    }
}

/// Where the real exchange stands, by the message the responder sends next.
#[derive(Debug, PartialEq, Eq, Clone, Copy)]
enum Step {
    Identity,
    Challenge,
    SuccessRequest,
    EapSuccess,
    Final,
}

fn step_of(msg: &[u8]) -> Step {
    match eap_from_responder(msg) {
        None => Step::Final,
        Some(p) if p.code == eap::code::SUCCESS => Step::EapSuccess,
        Some(p) => match (p.data.first().copied(), p.data.get(1).copied()) {
            (Some(eap::eap_type::IDENTITY), _) => Step::Identity,
            (Some(eap::eap_type::MSCHAPV2), Some(eap::op::CHALLENGE)) => Step::Challenge,
            (Some(eap::eap_type::MSCHAPV2), Some(eap::op::SUCCESS)) => Step::SuccessRequest,
            other => panic!("unexpected request {other:?}"),
        },
    }
}

/// The EAP packet in a message the responder sent, if any.
fn eap_from_responder(msg: &[u8]) -> Option<eap::EapPacket> {
    let (_, ps) = decrypt(&sa_pair().0, msg).unwrap();
    find(&ps, PayloadType::Eap).map(|b| eap::EapPacket::parse(b).unwrap())
}

/// The EAP packet in a message the initiator sent, if any.
fn eap_from_initiator(msg: &[u8]) -> Option<eap::EapPacket> {
    let (_, ps) = decrypt(&sa_pair().1, msg).unwrap();
    find(&ps, PayloadType::Eap).map(|b| eap::EapPacket::parse(b).unwrap())
}

/// The NT-Response the initiator's MSCHAPv2 Response carries.
fn nt_response_of(msg: &[u8]) -> [u8; 24] {
    eap::parse_response(&eap_from_initiator(msg).unwrap().data).unwrap().nt_response
}

/// The responder's final message as a gateway that knows the password
/// would build it from the initiator's current NT-Response.
fn final_message_now(nt_response: &[u8; 24]) -> Vec<u8> {
    let sa = sa_pair().1;
    let algo = sa.suite.prf_algorithm();
    let msk = mschapv2::derive_msk("s3cret", nt_response);
    let idr = Identification::fqdn("gw").to_bytes();
    let octets = responder_signed_octets(algo, &sa.resp_message, &sa.ni, &sa.keys.sk_pr, &idr);
    let auth = Authentication { method: auth_method::SHARED_KEY, data: psk_auth(algo, &msk, &octets) };
    let inner = [
        (PayloadType::IdResponder, idr),
        (PayloadType::Authentication, auth.to_bytes()),
        (PayloadType::SecurityAssociation, esp_offer(0x2222).to_bytes()),
        (PayloadType::TrafficSelectorInitiator, TrafficSelectors::ipv4_full_tunnel().to_bytes()),
        (PayloadType::TrafficSelectorResponder, TrafficSelectors::ipv4_full_tunnel().to_bytes()),
    ];
    build_sk(&sa, 9, true, &inner, &[8u8; 8]).unwrap()
}

/// A message from the responder's side carrying only `eap`.
fn responder_eap(eap: &eap::EapPacket) -> Vec<u8> {
    build_sk(&sa_pair().1, 9, true, &[(PayloadType::Eap, eap.to_bytes())], &[6u8; 8]).unwrap()
}

/// A message from the initiator's side carrying `inner`.
fn initiator_msg(inner: &[(PayloadType, Vec<u8>)]) -> Vec<u8> {
    build_sk(&sa_pair().0, 9, false, inner, &[7u8; 8]).unwrap()
}

fn psk_pair() -> (EapInitiator, EapResponder) {
    let (init_sa, resp_sa) = sa_pair();
    let psk = b"group-psk".to_vec();
    let initiator =
        EapInitiator::new(init_sa, Identification::fqdn("alice"), b"alice".to_vec(), "s3cret".into(), 0x1111, ServerVerify::Psk(psk.clone()));
    let responder = EapResponder::new(resp_sa, Identification::fqdn("gw"), ServerAuth::Psk(psk), b"alice".to_vec(), "s3cret".into(), 0x2222);
    (initiator, responder)
}

/// Run the real exchange until the responder's next message is at `stop`,
/// and hand that message back undelivered, with the initiator's last one.
fn run_until(stop: Step) -> (EapInitiator, EapResponder, Vec<u8>, Vec<u8>) {
    let (mut initiator, mut responder) = psk_pair();
    let mut ie = SeedEntropy::new(1);
    let mut re = SeedEntropy::new(2);
    let mut in_flight = initiator.start(&mut ie).unwrap();
    loop {
        let m = match responder.handle(&in_flight, &mut re).unwrap() {
            EapEvent::Reply(m) | EapEvent::Established(Some(m)) => m,
            other => panic!("unexpected responder event: {other:?}"),
        };
        if step_of(&m) == stop {
            return (initiator, responder, m, in_flight);
        }
        match initiator.handle(&m, &mut ie).unwrap() {
            EapEvent::Reply(m2) => in_flight = m2,
            other => panic!("the initiator ended early: {other:?}"),
        }
    }
}

/// Hand `msg` to the initiator, then play the rest of the exchange out
/// with the real responder.
fn finish(mut initiator: EapInitiator, mut responder: EapResponder, msg: &[u8]) -> Outcome {
    let mut ie = SeedEntropy::new(11);
    let mut re = SeedEntropy::new(12);
    let mut in_flight = match initiator.handle(msg, &mut ie).unwrap() {
        EapEvent::Reply(m) => m,
        other => panic!("the initiator ended early: {other:?}"),
    };
    loop {
        match responder.handle(&in_flight, &mut re).unwrap() {
            EapEvent::Reply(m) => match initiator.handle(&m, &mut ie).unwrap() {
                EapEvent::Reply(m2) => in_flight = m2,
                EapEvent::Established(_) => return Outcome::Established,
                EapEvent::Failed(_) => return Outcome::Failed,
            },
            EapEvent::Established(Some(f)) => {
                return match initiator.handle(&f, &mut ie).unwrap() {
                    EapEvent::Established(None) => Outcome::Established,
                    _ => Outcome::Failed,
                }
            }
            _ => return Outcome::Failed,
        }
    }
}

/// The Success-Request `msg` carries, with its message replaced by `text`.
fn with_success_message(msg: &[u8], text: &[u8]) -> Vec<u8> {
    let mut p = eap_from_responder(msg).unwrap();
    p.data.truncate(5);
    p.data.extend_from_slice(text);
    let ms_len = (p.data.len() - 1) as u16;
    p.data[3..5].copy_from_slice(&ms_len.to_be_bytes());
    responder_eap(&p)
}

#[test]
fn eap_ends_on_a_wrong_or_missing_authenticator_response() {
    // RFC 2759 §8.8 and the EAP-MSCHAPv2 draft §2.3: the peer MUST check
    // the authenticator response, and when it is missing or wrong end
    // the session without answering.
    let wrong: [&[u8]; 5] =
        [b"S=0000000000000000000000000000000000000000", b"", b"M=welcome", b"S=0000", b"S=ZZ00000000000000000000000000000000000000"];
    for text in wrong {
        let (mut initiator, _responder, msg, _) = run_until(Step::SuccessRequest);
        let forged = with_success_message(&msg, text);
        let got = initiator.handle(&forged, &mut SeedEntropy::new(1));
        assert!(matches!(got, Ok(EapEvent::Failed(None))), "{:?}: {got:?}", String::from_utf8_lossy(text));
    }
    // The authenticator response stays wrong with its last digit changed.
    let (mut initiator, _responder, msg, _) = run_until(Step::SuccessRequest);
    let p = eap_from_responder(&msg).unwrap();
    let mut text = p.data[5..].to_vec();
    let last = 41;
    text[last] = if text[last] == b'0' { b'1' } else { b'0' };
    let forged = with_success_message(&msg, &text);
    assert!(matches!(initiator.handle(&forged, &mut SeedEntropy::new(1)), Ok(EapEvent::Failed(None))));
}

#[test]
fn eap_takes_the_authenticator_response_in_either_case_and_with_a_message() {
    // RFC 2759 §8.7 writes the digits in upper case, but they are a
    // number: lower case names the same one. The message may follow.
    for (lower, message) in [(false, &b""[..]), (true, &b""[..]), (false, &b" M=Welcome"[..]), (true, &b" M=Welcome"[..])] {
        let (initiator, responder, msg, _) = run_until(Step::SuccessRequest);
        let p = eap_from_responder(&msg).unwrap();
        let mut text = p.data[5..47].to_vec();
        if lower {
            text.make_ascii_lowercase();
            text[0] = b'S';
        }
        text.extend_from_slice(message);
        let msg = with_success_message(&msg, &text);
        assert_eq!(finish(initiator, responder, &msg), Outcome::Established, "lower={lower} message={message:?}");
    }
}

#[test]
fn eap_discards_a_canned_success() {
    // RFC 3748 §4.2: by default a peer MUST discard an EAP-Success
    // that comes before its method has finished.
    for stop in [Step::Challenge, Step::SuccessRequest] {
        let (mut initiator, _responder, msg, _) = run_until(stop);
        let id = eap_from_responder(&msg).unwrap().identifier;
        let canned = responder_eap(&eap::EapPacket { code: eap::code::SUCCESS, identifier: id, data: vec![] });
        let got = initiator.handle(&canned, &mut SeedEntropy::new(1));
        assert!(matches!(got, Ok(EapEvent::Failed(None))), "at {stop:?}: {got:?}");
    }
    // Nor an MSCHAPv2 Success Request before any Challenge: there is no
    // NT-Response yet for it to prove anything about.
    let (mut initiator, _responder, msg, _) = run_until(Step::Challenge);
    let id = eap_from_responder(&msg).unwrap().identifier;
    let data = eap::build_success(1, "S=0000000000000000000000000000000000000000");
    let early = responder_eap(&eap::EapPacket { code: eap::code::REQUEST, identifier: id, data });
    let got = initiator.handle(&early, &mut SeedEntropy::new(1));
    assert!(matches!(got, Ok(EapEvent::Failed(None))), "Success Request before the Challenge: {got:?}");
}

#[test]
fn eap_takes_eap_success_only_as_a_bare_reply_to_its_last_response() {
    // RFC 3748 §4.2: EAP-Success carries the Identifier of the Response
    // it answers, and no data -- its Length is 4.
    let (initiator, responder, msg, last) = run_until(Step::EapSuccess);
    let ours = eap_from_initiator(&last).unwrap().identifier;
    assert_eq!(eap_from_responder(&msg).unwrap().identifier, ours);
    assert_eq!(finish(initiator, responder, &msg), Outcome::Established);

    type Forgery = (&'static str, fn(u8) -> u8, Vec<u8>);
    let bad: [Forgery; 3] = [
        ("Identifier + 1", |id| id.wrapping_add(1), vec![]),
        ("Identifier ^ 0x80", |id| id ^ 0x80, vec![]),
        ("data within its Length", |id| id, vec![0, 0, 0, 0]),
    ];
    for (what, identifier, data) in bad {
        let (mut initiator, _responder, _, last) = run_until(Step::EapSuccess);
        let identifier = identifier(eap_from_initiator(&last).unwrap().identifier);
        let forged = responder_eap(&eap::EapPacket { code: eap::code::SUCCESS, identifier, data });
        let got = initiator.handle(&forged, &mut SeedEntropy::new(1));
        assert!(matches!(got, Ok(EapEvent::Failed(None))), "{what}: {got:?}");
    }

    // Octets past its Length are padding, and MUST be ignored (§4).
    let (initiator, responder, msg, _) = run_until(Step::EapSuccess);
    let mut padded = eap_from_responder(&msg).unwrap().to_bytes();
    padded.extend_from_slice(&[0xAA, 0xBB]);
    let padded = build_sk(&sa_pair().1, 9, true, &[(PayloadType::Eap, padded)], &[6u8; 8]).unwrap();
    assert_eq!(finish(initiator, responder, &padded), Outcome::Established);
}

/// A named change to an EAP packet.
type EapEdit = (&'static str, fn(&mut eap::EapPacket));

/// `msg`'s EAP packet as the responder's side would send it after `f`.
fn with_responder_eap(msg: &[u8], f: impl FnOnce(&mut eap::EapPacket)) -> Vec<u8> {
    let mut p = eap_from_responder(msg).unwrap();
    f(&mut p);
    responder_eap(&p)
}

#[test]
fn eap_takes_mschapv2_requests_only_with_a_consistent_header() {
    // draft-kamath-pppext-eap-mschapv2-02 §2.1: MS-Length is the EAP
    // Length minus 5 and a Challenge's Value-Size is 16.
    let bad_challenges: [EapEdit; 4] = [
        ("Value-Size 0", |p| p.data[5] = 0),
        ("Value-Size 17", |p| p.data[5] = 17),
        ("MS-Length 4", |p| p.data[3..5].copy_from_slice(&4u16.to_be_bytes())),
        ("MS-Length 65535", |p| p.data[3..5].copy_from_slice(&u16::MAX.to_be_bytes())),
    ];
    for (what, f) in bad_challenges {
        let (mut initiator, _responder, msg, _) = run_until(Step::Challenge);
        let forged = with_responder_eap(&msg, f);
        let got = initiator.handle(&forged, &mut SeedEntropy::new(1));
        assert!(!matches!(got, Ok(EapEvent::Reply(_))), "Challenge {what}: {got:?}");
    }

    // The Success Request: MS-Length as above, and the MS-CHAPv2-ID of
    // the Response it answers (RFC 2759 §5 keeps the CHAP Success
    // format, whose Identifier is copied from that Response -- RFC
    // 1994 §4.2).
    let bad_successes: [EapEdit; 4] = [
        ("MS-CHAPv2-ID ^ 0x80", |p| p.data[2] ^= 0x80),
        ("MS-CHAPv2-ID + 1", |p| p.data[2] = p.data[2].wrapping_add(1)),
        ("MS-Length 4", |p| p.data[3..5].copy_from_slice(&4u16.to_be_bytes())),
        ("MS-Length 65535", |p| p.data[3..5].copy_from_slice(&u16::MAX.to_be_bytes())),
    ];
    for (what, f) in bad_successes {
        let (mut initiator, _responder, msg, _) = run_until(Step::SuccessRequest);
        let forged = with_responder_eap(&msg, f);
        let got = initiator.handle(&forged, &mut SeedEntropy::new(1));
        assert!(matches!(got, Ok(EapEvent::Failed(None))), "Success Request {what}: {got:?}");
    }

    // The untouched ones go through.
    let (initiator, responder, msg, _) = run_until(Step::Challenge);
    let same = with_responder_eap(&msg, |_| {});
    assert_eq!(finish(initiator, responder, &same), Outcome::Established);
    let (initiator, responder, msg, _) = run_until(Step::SuccessRequest);
    let same = with_responder_eap(&msg, |_| {});
    assert_eq!(finish(initiator, responder, &same), Outcome::Established);
}

#[test]
fn eap_responder_takes_the_mschapv2_response_only_with_a_consistent_header() {
    // draft-kamath-pppext-eap-mschapv2-02 §2.2: MS-Length is the EAP
    // Length minus 5 and a Response's Value-Size is 49.
    let bad: [EapEdit; 5] = [
        ("Value-Size 0", |p| p.data[5] = 0),
        ("Value-Size 48", |p| p.data[5] = 48),
        ("Value-Size 50", |p| p.data[5] = 50),
        ("MS-Length 4", |p| p.data[3..5].copy_from_slice(&4u16.to_be_bytes())),
        ("MS-Length + 1", |p| {
            let ms_len = u16::from_be_bytes([p.data[3], p.data[4]]) + 1;
            p.data[3..5].copy_from_slice(&ms_len.to_be_bytes());
        }),
    ];
    for (what, f) in bad {
        let (mut initiator, mut responder, challenge, _) = run_until(Step::Challenge);
        let EapEvent::Reply(answer) = initiator.handle(&challenge, &mut SeedEntropy::new(1)).unwrap() else { panic!() };
        let forged = with_initiator_eap(&answer, f);
        let got = responder.handle(&forged, &mut SeedEntropy::new(2));
        assert!(!matches!(got, Ok(EapEvent::Reply(_))), "Response {what}: {got:?}");
    }
    // The untouched one goes through.
    let (mut initiator, mut responder, challenge, _) = run_until(Step::Challenge);
    let EapEvent::Reply(answer) = initiator.handle(&challenge, &mut SeedEntropy::new(1)).unwrap() else { panic!() };
    let same = with_initiator_eap(&answer, |_| {});
    assert!(matches!(responder.handle(&same, &mut SeedEntropy::new(2)), Ok(EapEvent::Reply(_))));
}

#[test]
fn eap_takes_no_more_eap_once_its_auth_went_out() {
    // After EAP-Success the method is over and our MSK-keyed AUTH is
    // out: only the final message answers it (RFC 7296 §2.16) -- not
    // EAP-Success again, nor a duplicate of the Request we answered
    // last, nor a new Request.
    for case in 0..3 {
        let (mut initiator, mut responder, success_request, _) = run_until(Step::SuccessRequest);
        let EapEvent::Reply(ack) = initiator.handle(&success_request, &mut SeedEntropy::new(1)).unwrap() else { panic!() };
        let EapEvent::Reply(eap_success) = responder.handle(&ack, &mut SeedEntropy::new(2)).unwrap() else { panic!() };
        assert!(matches!(initiator.handle(&eap_success, &mut SeedEntropy::new(1)), Ok(EapEvent::Reply(_))));
        let late = match case {
            0 => eap_success,
            1 => success_request,
            _ => {
                let id = eap_from_responder(&eap_success).unwrap().identifier.wrapping_add(1);
                responder_eap(&eap::EapPacket { code: eap::code::REQUEST, identifier: id, data: vec![eap::eap_type::IDENTITY] })
            }
        };
        let got = initiator.handle(&late, &mut SeedEntropy::new(1));
        assert!(matches!(got, Ok(EapEvent::Failed(None))), "case {case}: {got:?}");
    }
}

#[test]
fn eap_takes_the_final_message_only_after_eap_success() {
    // The final AUTH is keyed by the MSK the finished method gives
    // (RFC 7296 §2.16); before EAP-Success came, nothing has.
    for stop in [Step::Challenge, Step::SuccessRequest, Step::EapSuccess] {
        let nt_response = if stop == Step::Challenge { [0u8; 24] } else { nt_response_of(&run_until(Step::SuccessRequest).3) };
        let (mut initiator, _responder, _, _) = run_until(stop);
        let early = final_message_now(&nt_response);
        let got = initiator.handle(&early, &mut SeedEntropy::new(1));
        assert!(matches!(got, Ok(EapEvent::Failed(None))), "at {stop:?}: {got:?}");
    }
    // Positive control: the same message after our AUTH went out.
    let (initiator, responder, msg, _) = run_until(Step::EapSuccess);
    assert_eq!(finish(initiator, responder, &msg), Outcome::Established);
}

#[test]
fn eap_refuses_another_request_once_the_method_began() {
    // RFC 3748 §2.1: once the peer answered the method, a Request of
    // another Type is invalid; so is a second Challenge.
    let requests = [
        vec![eap::eap_type::IDENTITY],
        vec![4, 16, 0x55, 0x55, 0x55, 0x55, 0x55, 0x55, 0x55, 0x55, 0x55, 0x55, 0x55, 0x55, 0x55, 0x55, 0x55, 0x55],
        eap::build_challenge(7, &[0x33; 16], b"again"),
    ];
    for data in requests {
        let (mut initiator, _responder, msg, _) = run_until(Step::SuccessRequest);
        let id = eap_from_responder(&msg).unwrap().identifier;
        let other = responder_eap(&eap::EapPacket { code: eap::code::REQUEST, identifier: id, data: data.clone() });
        let got = initiator.handle(&other, &mut SeedEntropy::new(1));
        assert!(matches!(got, Ok(EapEvent::Failed(None))), "{data:?}: {got:?}");
    }
}

#[test]
fn eap_naks_a_method_it_does_not_run_and_goes_on() {
    // RFC 3748 §5.3.1: a Request for a Type the peer won't run gets a
    // Legacy Nak naming the one it does, and the authenticator may try
    // that one next.
    for method in [4u8, 13, 254] {
        let (mut initiator, responder, challenge, _) = run_until(Step::Challenge);
        let other = responder_eap(&eap::EapPacket { code: eap::code::REQUEST, identifier: 0x42, data: vec![method, 1, 2, 3] });
        let nak = match initiator.handle(&other, &mut SeedEntropy::new(1)).unwrap() {
            EapEvent::Reply(m) => eap_from_initiator(&m).unwrap(),
            other => panic!("type {method}: {other:?}"),
        };
        assert_eq!(nak, eap::EapPacket { code: eap::code::RESPONSE, identifier: 0x42, data: vec![eap::eap_type::NAK, eap::eap_type::MSCHAPV2] });
        assert_eq!(finish(initiator, responder, &challenge), Outcome::Established, "type {method}");
    }
}

#[test]
fn eap_answers_a_notification_and_goes_on() {
    // RFC 3748 §5.2: the peer MUST answer a Notification with an empty
    // Notification Response; it changes nothing else.
    for stop in [Step::Challenge, Step::SuccessRequest] {
        let (mut initiator, responder, next, _) = run_until(stop);
        let note = responder_eap(
            &eap::EapPacket { code: eap::code::REQUEST, identifier: 0x51, data: [&[2u8][..], b"maintenance at 22:00"].concat() },
        );
        let answer = match initiator.handle(&note, &mut SeedEntropy::new(1)).unwrap() {
            EapEvent::Reply(m) => eap_from_initiator(&m).unwrap(),
            other => panic!("at {stop:?}: {other:?}"),
        };
        assert_eq!(answer, eap::EapPacket { code: eap::code::RESPONSE, identifier: 0x51, data: vec![2] });
        assert_eq!(finish(initiator, responder, &next), Outcome::Established, "at {stop:?}");
    }
}

#[test]
fn eap_answers_a_duplicate_request_with_its_first_response() {
    // RFC 3748 §4.1: a duplicate Request gets the original Response,
    // and is not processed again -- a second peer challenge would make
    // the first NT-Response, the one the server holds, a stranger.
    let (mut initiator, responder, challenge, _) = run_until(Step::Challenge);
    let first = match initiator.handle(&challenge, &mut SeedEntropy::new(1)).unwrap() {
        EapEvent::Reply(m) => eap_from_initiator(&m).unwrap(),
        other => panic!("{other:?}"),
    };
    let again = match initiator.handle(&challenge, &mut SeedEntropy::new(99)).unwrap() {
        EapEvent::Reply(m) => eap_from_initiator(&m).unwrap(),
        other => panic!("{other:?}"),
    };
    assert_eq!(again, first);

    // The same Identifier on a Request that isn't the same is no
    // duplicate: it is invalid.
    let (mut initiator, responder, challenge, _) = run_until(Step::Challenge);
    let p = eap_from_responder(&challenge).unwrap();
    assert!(matches!(initiator.handle(&challenge, &mut SeedEntropy::new(1)), Ok(EapEvent::Reply(_))));
    let other = responder_eap(&eap::EapPacket { data: eap::build_challenge(1, &[0x77; 16], b"ryke"), ..p });
    assert!(matches!(initiator.handle(&other, &mut SeedEntropy::new(1)), Ok(EapEvent::Failed(None))));
}

#[test]
fn eap_refuses_eap_packets_a_peer_never_receives() {
    for code in [eap::code::RESPONSE, 5] {
        let (mut initiator, _responder, msg, _) = run_until(Step::Challenge);
        let p = eap_from_responder(&msg).unwrap();
        let odd = responder_eap(&eap::EapPacket { code, ..p });
        let got = initiator.handle(&odd, &mut SeedEntropy::new(1));
        assert!(matches!(got, Ok(EapEvent::Failed(None))), "code {code}: {got:?}");
    }
}

/// An AUTH over the initiator's signed octets keyed by the MSK that an
/// empty password and an all-zero NT-Response give -- which anyone can
/// compute.
fn auth_anyone_can_compute(idi: &[u8]) -> Authentication {
    let sa = sa_pair().0;
    let algo = sa.suite.prf_algorithm();
    let msk = mschapv2::derive_msk("", &[0u8; 24]);
    let octets = initiator_signed_octets(algo, &sa.init_message, &sa.nr, &sa.keys.sk_pi, idi);
    Authentication { method: auth_method::SHARED_KEY, data: psk_auth(algo, &msk, &octets) }
}

#[test]
fn eap_responder_takes_no_final_auth_before_eap_succeeded() {
    // Straight after the Identity request.
    let (initiator, mut responder) = psk_pair();
    let msg1 = initiator.start(&mut SeedEntropy::new(1)).unwrap();
    assert!(matches!(responder.handle(&msg1, &mut SeedEntropy::new(2)), Ok(EapEvent::Reply(_))));
    let auth = auth_anyone_can_compute(&Identification::fqdn("alice").to_bytes());
    let got = responder.handle(&initiator_msg(&[(PayloadType::Authentication, auth.to_bytes())]), &mut SeedEntropy::new(2));
    assert!(matches!(got, Ok(EapEvent::Failed(None))), "{got:?}");

    // In the first message, over an empty IDi.
    let (_initiator, mut responder) = psk_pair();
    let auth = auth_anyone_can_compute(&[]);
    let msg1 = initiator_msg(
        &[
            (PayloadType::IdInitiator, Identification::fqdn("alice").to_bytes()),
            (PayloadType::Authentication, auth.to_bytes()),
            (PayloadType::SecurityAssociation, esp_offer(0x1111).to_bytes()),
            (PayloadType::TrafficSelectorInitiator, TrafficSelectors::ipv4_full_tunnel().to_bytes()),
            (PayloadType::TrafficSelectorResponder, TrafficSelectors::ipv4_full_tunnel().to_bytes()),
        ],
    );
    let got = responder.handle(&msg1, &mut SeedEntropy::new(2));
    assert!(matches!(got, Ok(EapEvent::Failed(None))), "{got:?}");

    // After the Challenge, with the MSCHAPv2 answer skipped.
    let (_initiator, mut responder, _, _) = run_until(Step::Challenge);
    let auth = auth_anyone_can_compute(&Identification::fqdn("alice").to_bytes());
    let got = responder.handle(&initiator_msg(&[(PayloadType::Authentication, auth.to_bytes())]), &mut SeedEntropy::new(2));
    assert!(matches!(got, Ok(EapEvent::Failed(None))), "{got:?}");
}

#[test]
fn eap_responder_needs_the_identity_before_the_challenge_answer() {
    // An MSCHAPv2 Response in place of the Identity one would be checked
    // against no user's password and a challenge never sent.
    let (initiator, mut responder) = psk_pair();
    let msg1 = initiator.start(&mut SeedEntropy::new(1)).unwrap();
    assert!(matches!(responder.handle(&msg1, &mut SeedEntropy::new(2)), Ok(EapEvent::Reply(_))));
    let data = eap::build_response(1, &[0u8; 16], &[0x44; 16], b"", "");
    let resp = eap::EapPacket { code: eap::code::RESPONSE, identifier: 1, data };
    let got = responder.handle(&initiator_msg(&[(PayloadType::Eap, resp.to_bytes())]), &mut SeedEntropy::new(2));
    assert!(matches!(got, Ok(EapEvent::Failed(None))), "{got:?}");
}

/// `msg` from the initiator with its EAP packet changed by `f`.
fn with_initiator_eap(msg: &[u8], f: impl FnOnce(&mut eap::EapPacket)) -> Vec<u8> {
    let mut p = eap_from_initiator(msg).unwrap();
    f(&mut p);
    initiator_msg(&[(PayloadType::Eap, p.to_bytes())])
}

#[test]
fn eap_responder_discards_answers_to_requests_it_did_not_send() {
    // RFC 3748 §4.1: a Response whose Identifier is not the outstanding
    // Request's MUST be discarded.
    let (mut initiator, mut responder) = psk_pair();
    let msg1 = initiator.start(&mut SeedEntropy::new(1)).unwrap();
    let EapEvent::Reply(identity) = responder.handle(&msg1, &mut SeedEntropy::new(2)).unwrap() else { panic!() };
    let EapEvent::Reply(answer) = initiator.handle(&identity, &mut SeedEntropy::new(1)).unwrap() else { panic!() };
    let wrong = with_initiator_eap(&answer, |p| p.identifier ^= 0x80);
    let got = responder.handle(&wrong, &mut SeedEntropy::new(2));
    assert!(matches!(got, Ok(EapEvent::Failed(None))), "EAP Identifier: {got:?}");
    // That ended the exchange: the right answer finds nothing to go on.
    let got = responder.handle(&answer, &mut SeedEntropy::new(2));
    assert!(matches!(got, Ok(EapEvent::Failed(None))), "after a failure: {got:?}");

    // Only a Response answers a Request.
    let (mut initiator, mut responder) = psk_pair();
    let msg1 = initiator.start(&mut SeedEntropy::new(1)).unwrap();
    let EapEvent::Reply(identity) = responder.handle(&msg1, &mut SeedEntropy::new(2)).unwrap() else { panic!() };
    let EapEvent::Reply(answer) = initiator.handle(&identity, &mut SeedEntropy::new(1)).unwrap() else { panic!() };
    let wrong = with_initiator_eap(&answer, |p| p.code = eap::code::REQUEST);
    let got = responder.handle(&wrong, &mut SeedEntropy::new(2));
    assert!(matches!(got, Ok(EapEvent::Failed(None))), "EAP Request: {got:?}");

    // The MSCHAPv2 Response must answer our Challenge's MS-CHAPv2-ID.
    let (mut initiator, mut responder, challenge, _) = run_until(Step::Challenge);
    let EapEvent::Reply(answer) = initiator.handle(&challenge, &mut SeedEntropy::new(1)).unwrap() else { panic!() };
    let wrong = with_initiator_eap(&answer, |p| p.data[2] ^= 0x80);
    let got = responder.handle(&wrong, &mut SeedEntropy::new(2));
    assert!(matches!(got, Ok(EapEvent::Failed(None))), "MS-CHAPv2-ID: {got:?}");

    // A Success-Response while our Challenge is outstanding.
    let (_initiator, mut responder, challenge, _) = run_until(Step::Challenge);
    let id = eap_from_responder(&challenge).unwrap().identifier;
    let early = eap::EapPacket { code: eap::code::RESPONSE, identifier: id, data: vec![eap::eap_type::MSCHAPV2, eap::op::SUCCESS] };
    let got = responder.handle(&initiator_msg(&[(PayloadType::Eap, early.to_bytes())]), &mut SeedEntropy::new(2));
    assert!(matches!(got, Ok(EapEvent::Failed(None))), "early Success-Response: {got:?}");

    // An Identity Response while our Challenge is outstanding.
    let (_initiator, mut responder, challenge, _) = run_until(Step::Challenge);
    let id = eap_from_responder(&challenge).unwrap().identifier;
    let late = eap::EapPacket { code: eap::code::RESPONSE, identifier: id, data: [&[eap::eap_type::IDENTITY][..], b"alice"].concat() };
    let got = responder.handle(&initiator_msg(&[(PayloadType::Eap, late.to_bytes())]), &mut SeedEntropy::new(2));
    assert!(matches!(got, Ok(EapEvent::Failed(None))), "late Identity: {got:?}");
}

#[test]
fn eap_responder_takes_each_step_once_and_alone() {
    // The first request once: a second would swap the IDi the final
    // AUTH is checked over, and the CHILD SA's SPI, mid-exchange.
    let (initiator, mut responder) = psk_pair();
    let msg1 = initiator.start(&mut SeedEntropy::new(1)).unwrap();
    assert!(matches!(responder.handle(&msg1, &mut SeedEntropy::new(2)), Ok(EapEvent::Reply(_))));
    let got = responder.handle(&msg1, &mut SeedEntropy::new(2));
    assert!(matches!(got, Ok(EapEvent::Failed(None))), "a second first request: {got:?}");

    // No AUTH rides with an EAP answer: while EAP runs there is no MSK.
    let (mut initiator, mut responder) = psk_pair();
    let msg1 = initiator.start(&mut SeedEntropy::new(1)).unwrap();
    let EapEvent::Reply(identity) = responder.handle(&msg1, &mut SeedEntropy::new(2)).unwrap() else { panic!() };
    let EapEvent::Reply(answer) = initiator.handle(&identity, &mut SeedEntropy::new(1)).unwrap() else { panic!() };
    let p = eap_from_initiator(&answer).unwrap();
    let auth = auth_anyone_can_compute(&Identification::fqdn("alice").to_bytes());
    let both = initiator_msg(&[(PayloadType::Authentication, auth.to_bytes()), (PayloadType::Eap, p.to_bytes())]);
    let got = responder.handle(&both, &mut SeedEntropy::new(2));
    assert!(matches!(got, Ok(EapEvent::Failed(None))), "AUTH with the Identity answer: {got:?}");
}

#[test]
fn eap_responder_wants_the_final_auth_as_a_shared_key_mic() {
    // RFC 7296 §2.16: the MSK-keyed AUTH is a Shared Key Message
    // Integrity Code, method 2.
    let (mut initiator, mut responder, eap_success, _) = run_until(Step::EapSuccess);
    let EapEvent::Reply(auth_msg) = initiator.handle(&eap_success, &mut SeedEntropy::new(1)).unwrap() else { panic!() };
    let (_, ps) = decrypt(&sa_pair().1, &auth_msg).unwrap();
    let mut auth = Authentication::parse(find(&ps, PayloadType::Authentication).unwrap()).unwrap();
    auth.method = auth_method::RSA_SIG;
    let got = responder.handle(&initiator_msg(&[(PayloadType::Authentication, auth.to_bytes())]), &mut SeedEntropy::new(2));
    assert!(matches!(got, Ok(EapEvent::Failed(None))), "{got:?}");
}

#[test]
fn eap_responder_answers_the_real_exchange_step_by_step() {
    // Positive control: the requests the responder sends, in order, with
    // the EAP Identifiers moving on and the Success carrying the last
    // Response's.
    let (mut initiator, mut responder) = psk_pair();
    let mut ie = SeedEntropy::new(1);
    let mut re = SeedEntropy::new(2);
    let mut in_flight = initiator.start(&mut ie).unwrap();
    let mut seen = Vec::new();
    loop {
        match responder.handle(&in_flight, &mut re).unwrap() {
            EapEvent::Reply(m) => {
                let answered = eap_from_initiator(&in_flight).map(|p| p.identifier);
                let p = eap_from_responder(&m);
                seen.push((step_of(&m), p.map(|p| p.identifier), answered));
                let EapEvent::Reply(next) = initiator.handle(&m, &mut ie).unwrap() else { panic!() };
                in_flight = next;
            }
            EapEvent::Established(Some(f)) => {
                assert!(matches!(initiator.handle(&f, &mut ie).unwrap(), EapEvent::Established(None)));
                break;
            }
            other => panic!("{other:?}"),
        }
    }
    assert_eq!(
        seen,
        vec![
            (Step::Identity, Some(1), None),
            (Step::Challenge, Some(2), Some(1)),
            (Step::SuccessRequest, Some(3), Some(2)),
            (Step::EapSuccess, Some(3), Some(3)),
        ]
    );
}

/// A server that proves itself with `chain` and a signature, and a client that
/// asks what to vouch for before it goes on.
fn cert_drive(vouching: bool) -> Outcome {
    let (init_sa, resp_sa) = sa_pair();
    let verify = ServerVerify::TrustedCas { ca_hashes: vec![[0x5a; 20]], vouched: None };
    let mut initiator = EapInitiator::new(init_sa, Identification::fqdn("alice"), b"alice".to_vec(), "s3cret".into(), 0x1111, verify);
    initiator.set_send_certreq(true);
    let signed = Authentication { method: auth_method::DIGITAL_SIGNATURE, data: b"a signature".to_vec() };
    let server = ServerAuth::Cert { chain: vec![b"leaf".to_vec()], auth: signed };
    let mut responder =
        EapResponder::new(resp_sa, Identification::fqdn("vpn.example.com"), server, b"alice".to_vec(), "s3cret".into(), 0x2222);
    let mut re = SeedEntropy::new(2);
    let msg1 = initiator.start(&mut SeedEntropy::new(1)).unwrap();
    let EapEvent::Reply(first) = responder.handle(&msg1, &mut re).unwrap() else { panic!() };
    let claim = initiator.server_claim(&first).unwrap().unwrap();
    assert_eq!((claim.certs.clone(), claim.auth.data.clone()), (vec![b"leaf".to_vec()], b"a signature".to_vec()));
    if vouching {
        initiator.vouch(claim);
    }
    match initiator.handle(&first, &mut SeedEntropy::new(1)).unwrap() {
        EapEvent::Reply(_) => Outcome::Established,
        EapEvent::Failed(None) => Outcome::Failed,
        other => panic!("{other:?}"),
    }
}

#[test]
fn eap_goes_on_with_a_certificate_server_only_once_it_was_vouched_for() {
    assert_eq!(cert_drive(true), Outcome::Established);
    assert_eq!(cert_drive(false), Outcome::Failed);
}

/// What a failure message says is read as text whatever octets it has.
#[test]
fn eap_failure_text_that_is_no_utf_8_is_read_with_replacement_characters() {
    let (init_sa, resp_sa) = sa_pair();
    let mut initiator =
        EapInitiator::new(init_sa, Identification::fqdn("alice"), b"alice".to_vec(), "pw".into(), 0x1111, ServerVerify::Insecure);
    let text = b"E=691 M=\xff!";
    let mut d = vec![eap::eap_type::MSCHAPV2, eap::op::FAILURE, 1u8];
    d.extend_from_slice(&((4 + text.len()) as u16).to_be_bytes());
    d.extend_from_slice(text);
    let packet = eap::EapPacket { code: eap::code::REQUEST, identifier: 1, data: d };
    let msg = build_sk(&resp_sa, 1, true, &[(PayloadType::Eap, packet.to_bytes())], &[0u8; 8]).unwrap();
    match initiator.handle(&msg, &mut SeedEntropy::new(1)).unwrap() {
        EapEvent::Failed(Some(reason)) => {
            assert!(reason.credentials_rejected);
            assert_eq!(reason.raw, "E=691 M=\u{FFFD}!");
        }
        other => panic!("{other:?}"),
    }
}

#[test]
fn the_first_message_asks_for_an_address_only_when_told_to() {
    for want in [false, true] {
        let (init_sa, resp_sa) = sa_pair();
        let mut initiator =
            EapInitiator::new(init_sa, Identification::fqdn("alice"), b"alice".to_vec(), "s3cret".into(), 0x1111, ServerVerify::Insecure);
        initiator.set_want_cfg(want);
        let request = initiator.start(&mut SeedEntropy::new(1)).unwrap();
        let (_, payloads) = decrypt(&resp_sa, &request).unwrap();
        assert_eq!(payloads.iter().any(|(t, _)| *t == PayloadType::Configuration), want);
        assert_eq!(initiator.ike_sa().spi_i, resp_sa.spi_i);
    }
}

/// A random source that counts up from one, so that what was drawn, and how much,
/// can be told.
struct CountedEntropy(u64);

impl Entropy for CountedEntropy {
    fn next_u64(&mut self) -> u64 {
        self.0 += 1;
        self.0
    }
}

/// `count` words in a row from a [`CountedEntropy`], the first of them `first`.
fn counted_words(first: u64, count: u64) -> Vec<u8> {
    (first..first + count).flat_map(|word| word.to_be_bytes()).collect()
}

#[test]
fn eap_draws_a_challenge_only_in_the_turn_that_sends_it() {
    let (mut initiator, mut responder) = psk_pair();
    let (mut ie, mut re) = (CountedEntropy(0), CountedEntropy(0));
    let mut in_flight = initiator.start(&mut ie).unwrap();
    assert_eq!(ie.0, 1);
    // The words each side has drawn in all after each of its turns: one for the
    // vector of a message, two more where a challenge goes with it.
    let (mut by_responder, mut by_initiator) = (Vec::new(), Vec::new());
    loop {
        match responder.handle(&in_flight, &mut re).unwrap() {
            EapEvent::Reply(reply) => {
                by_responder.push(re.0);
                if step_of(&reply) == Step::Challenge {
                    let (_, challenge, _) = eap::parse_challenge(&eap_from_responder(&reply).unwrap().data).unwrap();
                    assert_eq!(challenge.to_vec(), counted_words(2, 2));
                }
                in_flight = match initiator.handle(&reply, &mut ie).unwrap() {
                    EapEvent::Reply(next) => next,
                    other => panic!("{other:?}"),
                };
                by_initiator.push(ie.0);
                if step_of(&reply) == Step::Challenge {
                    let response = eap::parse_response(&eap_from_initiator(&in_flight).unwrap().data).unwrap();
                    assert_eq!(response.peer_challenge.to_vec(), counted_words(3, 2));
                }
            }
            EapEvent::Established(Some(last)) => {
                by_responder.push(re.0);
                assert!(matches!(initiator.handle(&last, &mut ie), Ok(EapEvent::Established(None))));
                by_initiator.push(ie.0);
                break;
            }
            other => panic!("{other:?}"),
        }
    }
    assert_eq!(by_responder, [1, 4, 5, 6, 7]);
    assert_eq!(by_initiator, [2, 5, 6, 7, 7]);
    // A turn that sends nothing draws nothing.
    assert!(matches!(responder.handle(&in_flight, &mut re), Ok(EapEvent::Failed(None))));
    assert_eq!(re.0, 7);
}

#[test]
fn eap_draws_nothing_in_a_turn_that_sends_nothing() {
    let mut entropy = CountedEntropy(0);
    // An unknown user, on the responder's side.
    let (_, mut responder, request, _) = run_until(Step::Identity);
    let identifier = eap_from_responder(&request).unwrap().identifier;
    let claim = eap::EapPacket { code: eap::code::RESPONSE, identifier, data: b"\x01mallory".to_vec() };
    let claim = initiator_msg(&[(PayloadType::Eap, claim.to_bytes())]);
    assert!(matches!(responder.handle(&claim, &mut entropy), Ok(EapEvent::Failed(None))));
    // A message whose tag was altered, on either side.
    let (mut initiator, _, challenge, _) = run_until(Step::Challenge);
    let mut forged = challenge.clone();
    *forged.last_mut().unwrap() ^= 1;
    assert_eq!(initiator.handle(&forged, &mut entropy).err(), Some(IkeError::BadIntegrity));
    let (alice, mut gateway) = psk_pair();
    let mut first = alice.start(&mut SeedEntropy::new(1)).unwrap();
    *first.last_mut().unwrap() ^= 1;
    assert_eq!(gateway.handle(&first, &mut entropy).err(), Some(IkeError::BadIntegrity));
    assert_eq!(entropy.0, 0);
    // The refused message left the initiator as it was: the genuine one is answered.
    assert!(matches!(initiator.handle(&challenge, &mut entropy), Ok(EapEvent::Reply(_))));
    assert_eq!(entropy.0, 3);
    *first.last_mut().unwrap() ^= 1;
    assert!(matches!(gateway.handle(&first, &mut entropy), Ok(EapEvent::Reply(_))));
    assert_eq!(entropy.0, 4);
}
