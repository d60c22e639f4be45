//! EAP framing and the EAP-MSCHAPv2 messages.

use ryke::error::IkeError;
use ryke::ikev2::eap::{
    build_challenge, build_response, build_success, code, eap_type, op, parse_challenge, parse_response, parse_success,
    verify_response, EapPacket,
};

#[test]
fn eap_packet_roundtrips() {
    let p = EapPacket { code: code::REQUEST, identifier: 7, data: vec![eap_type::MSCHAPV2, 1, 2, 3] };
    let bytes = p.to_bytes();
    assert_eq!(u16::from_be_bytes([bytes[2], bytes[3]]) as usize, bytes.len());
    assert_eq!(EapPacket::parse(&bytes).unwrap(), p);
    assert_eq!(p.eap_type(), Some(eap_type::MSCHAPV2));
}

// A full MSCHAPv2 auth round, using the RFC 2759 §9.2 challenges so the
// authenticator response is the known-answer value.
#[test]
fn full_mschapv2_auth_round_matches_rfc2759() {
    let auth_challenge = [0x5B, 0x5D, 0x7C, 0x7D, 0x7B, 0x3F, 0x2F, 0x3E, 0x3C, 0x2C, 0x60, 0x21, 0x32, 0x26, 0x26, 0x28];
    let peer_challenge = [0x21, 0x40, 0x23, 0x24, 0x25, 0x5E, 0x26, 0x2A, 0x28, 0x29, 0x5F, 0x2B, 0x3A, 0x33, 0x7C, 0x7E];
    let user = b"User";
    let password = "clientPass";

    // Server → peer: Challenge.
    let chal = build_challenge(1, &auth_challenge, b"server");
    let (id, got_challenge, _name) = parse_challenge(&chal).unwrap();
    assert_eq!(id, 1);
    assert_eq!(got_challenge, auth_challenge);

    // Peer → server: Response.
    let resp = build_response(id, &auth_challenge, &peer_challenge, user, password);
    let parsed = parse_response(&resp).unwrap();
    assert_eq!(parsed.name, user);

    // Server verifies and produces the Success authenticator response.
    let auth_resp = verify_response(&auth_challenge, &resp, password).unwrap();
    assert_eq!(auth_resp, "S=407A5589115FD0D6209F510FE9C04566932CDA56");

    let success = build_success(id, &auth_resp);
    assert_eq!(success[1], op::SUCCESS);

    // Wrong password is rejected.
    assert_eq!(verify_response(&auth_challenge, &resp, "wrong").unwrap_err(), IkeError::AuthFailed);
}

#[test]
fn parse_success_reads_the_authenticator_response_and_nothing_else() {
    // RFC 2759 §9.2's authenticator response.
    let want = [0x40, 0x7A, 0x55, 0x89, 0x11, 0x5F, 0xD0, 0xD6, 0x20, 0x9F, 0x51, 0x0F, 0xE9, 0xC0, 0x45, 0x66, 0x93, 0x2C, 0xDA, 0x56];
    for text in ["S=407A5589115FD0D6209F510FE9C04566932CDA56", "S=407a5589115fd0d6209f510fe9c04566932cda56 M=Welcome"] {
        assert_eq!(parse_success(&build_success(1, text)).unwrap(), want, "{text}");
    }
    for text in [
        "",
        "M=Welcome",
        "S=407A5589115FD0D6209F510FE9C04566932CDA5",
        "s=407A5589115FD0D6209F510FE9C04566932CDA56",
        "S=G07A5589115FD0D6209F510FE9C04566932CDA56",
        "S=+07A5589115FD0D6209F510FE9C04566932CDA56",
        " S=407A5589115FD0D6209F510FE9C04566932CDA56",
    ] {
        assert!(parse_success(&build_success(1, text)).is_err(), "{text:?}");
    }
    // Only an MSCHAPv2 Success carries one.
    let mut data = build_success(1, "S=407A5589115FD0D6209F510FE9C04566932CDA56");
    data[1] = op::FAILURE;
    assert!(parse_success(&data).is_err());
    assert!(parse_success(&[eap_type::MSCHAPV2, op::SUCCESS, 1, 0]).is_err());
}
