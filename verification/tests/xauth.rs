//! XAUTH against a gateway that speaks its side of the exchange.

use ryke::crypto::block::BlockCipher;
use ryke::crypto::PrfAlgorithm;
use ryke::error::IkeError;
use ryke::ikev1::informational::build_r_u_there;
use ryke::ikev1::isakmp::payload;
use ryke::ikev1::modecfg;
use ryke::ikev1::modecfg::{cfg_attr, xauth_status, xauth_type, Attribute, ConfigPayload};
use ryke::ikev1::phase1::{phase2_iv, Phase1State};
use ryke::ikev1::phase2::{build_encrypted, parse_encrypted};
use ryke::ikev1::xauth::{attribute_payload, build_xauth_ack, build_xauth_reply, xauth_header};

/// The two ends of an established ISAKMP SA.
fn phase1_pair() -> (Phase1State, Phase1State) {
    let state = Phase1State {
        cky_i: [0x11; 8],
        cky_r: [0x22; 8],
        prf: PrfAlgorithm::Sha1,
        skeyid_a: vec![0x33; 20],
        cipher: BlockCipher::Aes256,
        enc_key: vec![0x44; 32],
        phase1_iv: vec![0x55; 16],
    };
    (state.clone(), state)
}

/// The gateway's opening REQUEST, and the IV its REPLY chains from.
fn build_request(st: &Phase1State, msgid: u32) -> (Vec<u8>, Vec<u8>) {
    let req = ConfigPayload::new(
        modecfg::cfg::REQUEST,
        0x2222,
        vec![
            Attribute::short(cfg_attr::XAUTH_TYPE, xauth_type::GENERIC),
            Attribute::long_bytes(cfg_attr::XAUTH_USER_NAME, Vec::new()),
            Attribute::long_bytes(cfg_attr::XAUTH_USER_PASSWORD, Vec::new()),
        ],
    );
    let iv0 = phase2_iv(st, msgid);
    build_encrypted(st, xauth_header(st, msgid), &iv0, &[(payload::ATTRIBUTE, req.to_bytes())]).unwrap()
}

/// What the client's REPLY says, and the SET that grants or denies it.
fn handle_reply(st: &Phase1State, reply: &[u8], req_next_iv: &[u8], msgid: u32, accept: bool) -> ((Vec<u8>, Vec<u8>), Vec<u8>) {
    let (_h, ps, _iv1) = parse_encrypted(st, reply, req_next_iv).unwrap();
    let got = ConfigPayload::parse(attribute_payload(&ps).unwrap()).unwrap();
    assert_eq!(got.cfg_type, modecfg::cfg::REPLY);
    let user = got.attr(cfg_attr::XAUTH_USER_NAME).unwrap().bytes();
    let password = got.attr(cfg_attr::XAUTH_USER_PASSWORD).unwrap().bytes();

    // A fresh message-id for SET: a new Transaction conversation, not chained from
    // REPLY.
    let set_msgid = msgid.wrapping_add(1);
    let status = if accept { xauth_status::OK } else { xauth_status::FAIL };
    let set = ConfigPayload::new(modecfg::cfg::SET, 0x3333, vec![Attribute::short(cfg_attr::XAUTH_STATUS, status)]);
    let iv0_set = phase2_iv(st, set_msgid);
    let (set_msg, _next) =
        build_encrypted(st, xauth_header(st, set_msgid), &iv0_set, &[(payload::ATTRIBUTE, set.to_bytes())]).unwrap();
    ((user, password), set_msg)
}

#[test]
fn xauth_round_trip_succeeds_with_correct_status() {
    let (client_st, gw_st) = phase1_pair();
    let (request, req_next_iv) = build_request(&gw_st, 0x1000_0001);
    let reply = build_xauth_reply(&client_st, &request, b"alice", b"s3cret").unwrap();
    let ((user, password), set_msg) = handle_reply(&gw_st, &reply, &req_next_iv, 0x1000_0001, true);
    assert_eq!(user, b"alice");
    assert_eq!(password, b"s3cret");
    let (_ack, ok) = build_xauth_ack(&client_st, &set_msg).unwrap();
    assert!(ok, "gateway granted XAUTH_STATUS=OK");
}

#[test]
fn xauth_reports_failure_status_without_erroring() {
    // A rejected status is a valid, well-formed exchange -- the caller
    // must check the returned bool, not treat every completed exchange
    // as a successful login.
    let (client_st, gw_st) = phase1_pair();
    let (request, req_next_iv) = build_request(&gw_st, 0x2000_0001);
    let reply = build_xauth_reply(&client_st, &request, b"alice", b"wrong").unwrap();
    let (_creds, set_msg) = handle_reply(&gw_st, &reply, &req_next_iv, 0x2000_0001, false);
    let (_ack, ok) = build_xauth_ack(&client_st, &set_msg).unwrap();
    assert!(!ok, "gateway denied XAUTH_STATUS=FAIL must surface as false");
}

/// The ACK acknowledges what was set, by its identifier, and says nothing more.
#[test]
fn the_ack_names_the_set_it_answers() {
    let (client_st, gw_st) = phase1_pair();
    let set = ConfigPayload::new(modecfg::cfg::SET, 0x3333, vec![Attribute::short(cfg_attr::XAUTH_STATUS, xauth_status::OK)]);
    let (msg, next) = build_encrypted(&gw_st, xauth_header(&gw_st, 7), &phase2_iv(&gw_st, 7), &[(payload::ATTRIBUTE, set.to_bytes())]).unwrap();
    let (ack, ok) = build_xauth_ack(&client_st, &msg).unwrap();
    assert!(ok);
    let (header, ps, _) = parse_encrypted(&gw_st, &ack, &next).unwrap();
    assert_eq!(header.message_id, 7);
    assert_eq!(ConfigPayload::parse(attribute_payload(&ps).unwrap()).unwrap(), ConfigPayload::new(modecfg::cfg::ACK, 0x3333, Vec::new()));
}

/// What is no Transaction, no REQUEST, tampered with or cut short is refused.
#[test]
fn a_message_that_asks_for_no_credentials_is_refused() {
    let (client_st, gw_st) = phase1_pair();
    let probe = build_r_u_there(&gw_st, 9, 1).unwrap();
    assert_eq!(build_xauth_reply(&client_st, &probe, b"u", b"p"), Err(IkeError::Crypto("expected a Transaction (XAUTH) message")));
    assert_eq!(build_xauth_reply(&client_st, &probe[..27], b"u", b"p"), Err(IkeError::Truncated { need: 28, have: 27 }));
    let (request, _) = build_request(&gw_st, 5);
    assert_eq!(build_xauth_ack(&client_st, &request), Err(IkeError::Crypto("expected an XAUTH SET")));
    assert_eq!(
        build_xauth_reply(&client_st, &request[..request.len() - 1], b"u", b"p"),
        Err(IkeError::Crypto("ISAKMP ciphertext not block-aligned"))
    );
    let mut bad = request.clone();
    let last = bad.len() - 17;
    bad[last] ^= 1;
    assert!(build_xauth_reply(&client_st, &bad, b"u", b"p").is_err());
    let mut short_key = client_st.clone();
    short_key.enc_key.pop();
    assert_eq!(
        build_xauth_reply(&short_key, &request, b"u", b"p"),
        Err(IkeError::Crypto("the ISAKMP SA's key has the wrong length for its cipher"))
    );
    let (no_attr, _) = build_encrypted(&gw_st, xauth_header(&gw_st, 6), &phase2_iv(&gw_st, 6), &[]).unwrap();
    assert_eq!(build_xauth_reply(&client_st, &no_attr, b"u", b"p"), Err(IkeError::MissingPayload("ATTRIBUTE")));
    let mut other = gw_st.clone();
    other.skeyid_a[0] ^= 1;
    let (forged, _) = build_request(&other, 5);
    assert_eq!(build_xauth_reply(&client_st, &forged, b"u", b"p"), Err(IkeError::BadIntegrity));
}
