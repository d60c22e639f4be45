//! What an AUTH payload signs, and its pre-shared-key value.

use ryke::crypto::PrfAlgorithm;
use ryke::ikev2::auth::{initiator_signed_octets, psk_auth, responder_signed_octets};

const SHA256: PrfAlgorithm = PrfAlgorithm::Sha256;

#[test]
fn psk_auth_is_deterministic_and_key_sensitive() {
    let octets = initiator_signed_octets(SHA256, b"real message I", &[0x22; 32], &[0x11; 32], b"\x02\x00\x00\x00client");
    let a1 = psk_auth(SHA256, b"secret", &octets);
    assert_eq!(a1, psk_auth(SHA256, b"secret", &octets)); // deterministic
    assert_eq!(a1.len(), 32); // HMAC-SHA256
    assert_ne!(psk_auth(SHA256, b"other-psk", &octets), a1); // key-sensitive
}

#[test]
fn initiator_and_responder_octets_differ() {
    let i = initiator_signed_octets(SHA256, b"msgI", &[2; 32], &[9; 32], b"idi");
    let r = responder_signed_octets(SHA256, b"msgR", &[1; 32], &[8; 32], b"idr");
    assert_ne!(i, r);
}

#[test]
fn a_verifier_recomputes_the_peer_auth() {
    // The peer sends AUTH over its signed octets; a verifier that knows the
    // same PSK and the same inputs recomputes the identical value.
    let real_msg_i = b"IKE_SA_INIT request exactly as sent";
    let nr = [0x22u8; 32];
    let sk_pi = [0xABu8; 32];
    let idi_body = b"\x02\x00\x00\x00initiator.example";

    let sent = psk_auth(SHA256, b"correct horse", &initiator_signed_octets(SHA256, real_msg_i, &nr, &sk_pi, idi_body));
    let verified = psk_auth(SHA256, b"correct horse", &initiator_signed_octets(SHA256, real_msg_i, &nr, &sk_pi, idi_body));
    assert_eq!(sent, verified);

    // A tampered RealMessage (e.g. a modified SA_INIT) changes the AUTH.
    let tampered =
        psk_auth(SHA256, b"correct horse", &initiator_signed_octets(SHA256, b"different message", &nr, &sk_pi, idi_body));
    assert_ne!(sent, tampered);
}

#[test]
fn a_different_prf_changes_the_auth_value() {
    // Using a different negotiated PRF (SHA-512 instead of SHA-256) must
    // change the AUTH value -- confirms the PRF is actually threaded
    // through, not silently ignored.
    let octets256 = initiator_signed_octets(SHA256, b"msg", &[1; 32], &[2; 32], b"id");
    let octets512 = initiator_signed_octets(PrfAlgorithm::Sha512, b"msg", &[1; 32], &[2; 32], b"id");
    assert_ne!(octets256, octets512);
    assert_ne!(psk_auth(SHA256, b"psk", &octets256), psk_auth(PrfAlgorithm::Sha512, b"psk", &octets512));
}
