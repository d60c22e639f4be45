//! The INFORMATIONAL exchange.

use ryke::error::IkeError;
use ryke::ikev2::exchange::{
    default_offer, initiator_complete, initiator_request, responder_respond, CompletedSaInit, LocalSecret,
};
use ryke::ikev2::informational::{
    build_informational, deletes_in, dpd_request, open_informational, request_error_notify,
};
use ryke::ikev2::message::PayloadType;
use ryke::ikev2::payload::{notify_type, Delete};

fn sa_pair() -> (CompletedSaInit, CompletedSaInit) {
    let init = LocalSecret { dh_private: [7u8; 32], nonce: vec![0x11; 32], spi: 0xA1 };
    let resp = LocalSecret { dh_private: [9u8; 32], nonce: vec![0x22; 32], spi: 0xB2 };
    let request = initiator_request(&init, &default_offer());
    let (response, resp_done) = responder_respond(&request, &resp).unwrap();
    let init_done = initiator_complete(&init, &request, &response).unwrap();
    (init_done, resp_done)
}

#[test]
fn dpd_liveness_roundtrip() {
    let (init_sa, resp_sa) = sa_pair();
    // Initiator probes; responder decrypts an empty INFORMATIONAL.
    let req = dpd_request(&init_sa, 2, &[1u8; 8]).unwrap();
    assert!(open_informational(&resp_sa, &req).unwrap().is_empty());

    // Responder answers; initiator decrypts the (empty) ack.
    let ack = build_informational(&resp_sa, 2, true, &[], &[2u8; 8]).unwrap();
    assert!(open_informational(&init_sa, &ack).unwrap().is_empty());
}

#[test]
fn delete_message_roundtrips_through_sk() {
    let (init_sa, resp_sa) = sa_pair();
    let del = Delete::esp(vec![0xDEAD_BEEF]);
    let msg = build_informational(&init_sa, 3, false, &[(PayloadType::Delete, del.to_bytes())], &[3u8; 8]).unwrap();

    let got = open_informational(&resp_sa, &msg).unwrap();
    assert_eq!(got.len(), 1);
    assert_eq!(got[0].0, PayloadType::Delete);
    assert_eq!(Delete::parse(&got[0].1).unwrap(), del);
}

#[test]
fn tampered_informational_is_rejected() {
    let (init_sa, resp_sa) = sa_pair();
    let mut msg = dpd_request(&init_sa, 2, &[5u8; 8]).unwrap();
    let last = msg.len() - 1;
    msg[last] ^= 1;
    assert_eq!(open_informational(&resp_sa, &msg).unwrap_err(), IkeError::BadIntegrity);
}

#[test]
fn every_delete_of_a_message_is_read_and_a_malformed_one_spoils_it() {
    let first = Delete::esp(vec![1, 2]);
    let second = Delete::esp(vec![3]);
    let mut payloads = vec![
        (PayloadType::Delete, first.to_bytes()),
        (PayloadType::Notify, vec![0xFF]),
        (PayloadType::Delete, second.to_bytes()),
    ];
    assert_eq!(deletes_in(&payloads).unwrap(), vec![first, second]);
    assert_eq!(deletes_in(&[]).unwrap(), Vec::new());

    payloads.push((PayloadType::Delete, vec![3, 4]));
    assert_eq!(deletes_in(&payloads).unwrap_err(), Delete::parse(&[3, 4]).unwrap_err());
}

#[test]
fn a_request_that_cannot_be_taken_earns_its_error_notify() {
    let critical = request_error_notify(&IkeError::UnsupportedCriticalPayload(200));
    assert_eq!(critical.notify_type, notify_type::UNSUPPORTED_CRITICAL_PAYLOAD);
    assert_eq!(critical.data, vec![200]);
    assert_eq!(critical.protocol_id, 0);
    assert!(critical.spi.is_empty());

    let syntax = request_error_notify(&IkeError::BadLength { declared: 3, available: 2 });
    assert_eq!(syntax.notify_type, notify_type::INVALID_SYNTAX);
    assert!(syntax.data.is_empty());
}
