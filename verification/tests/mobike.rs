//! MOBIKE signalling.

use ryke::ikev2::exchange::{
    default_offer, initiator_complete, initiator_request, responder_respond, CompletedSaInit, LocalSecret,
};
use ryke::ikev2::informational::{dpd_request, open_informational};
use ryke::ikev2::message::PayloadType;
use ryke::ikev2::mobike::{
    build_update_sa_addresses, contains_update_sa_addresses, mobike_supported, peer_supports_mobike,
};
use ryke::ikev2::payload::notify_type;

fn sa_pair() -> (CompletedSaInit, CompletedSaInit) {
    let init = LocalSecret { dh_private: [7u8; 32], nonce: vec![0x11; 32], spi: 0xA1 };
    let resp = LocalSecret { dh_private: [9u8; 32], nonce: vec![0x22; 32], spi: 0xB2 };
    let request = initiator_request(&init, &default_offer());
    let (response, resp_done) = responder_respond(&request, &resp).unwrap();
    let init_done = initiator_complete(&init, &request, &response).unwrap();
    (init_done, resp_done)
}

#[test]
fn update_sa_addresses_is_signalled_and_detected() {
    let (init_sa, resp_sa) = sa_pair();
    let msg = build_update_sa_addresses(&init_sa, 4, &[7u8; 8]).unwrap();
    let inner = open_informational(&resp_sa, &msg).unwrap();
    assert!(contains_update_sa_addresses(&inner));

    // A plain DPD probe does not look like an address change.
    let dpd = dpd_request(&init_sa, 5, &[8u8; 8]).unwrap();
    assert!(!contains_update_sa_addresses(&open_informational(&resp_sa, &dpd).unwrap()));
}

#[test]
fn mobike_supported_is_a_status_notify() {
    let n = mobike_supported();
    assert_eq!(n.notify_type, notify_type::MOBIKE_SUPPORTED);
    assert!(!n.is_error());
    assert!(peer_supports_mobike(&[(PayloadType::Notify, n.to_bytes())]));
}
