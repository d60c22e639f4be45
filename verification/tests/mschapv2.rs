//! MS-CHAP-v2 on the worked examples of RFC 2759 and RFC 3079.

use ryke::ikev2::mschapv2::{
    challenge_hash, derive_msk, generate_authenticator_response, generate_nt_response, get_master_key,
    hash_nt_password_hash, nt_password_hash, MPPE_MAGIC2, MPPE_MAGIC3, MPPE_MASTER_MAGIC,
};

// RFC 2759 §9.2 worked example.
const USER: &[u8] = b"User";
const PASSWORD: &str = "clientPass";
const AUTH_CHALLENGE: [u8; 16] =
    [0x5B, 0x5D, 0x7C, 0x7D, 0x7B, 0x3F, 0x2F, 0x3E, 0x3C, 0x2C, 0x60, 0x21, 0x32, 0x26, 0x26, 0x28];
const PEER_CHALLENGE: [u8; 16] =
    [0x21, 0x40, 0x23, 0x24, 0x25, 0x5E, 0x26, 0x2A, 0x28, 0x29, 0x5F, 0x2B, 0x3A, 0x33, 0x7C, 0x7E];

#[test]
fn rfc2759_challenge_hash() {
    assert_eq!(
        challenge_hash(&PEER_CHALLENGE, &AUTH_CHALLENGE, USER),
        [0xD0, 0x2E, 0x43, 0x86, 0xBC, 0xE9, 0x12, 0x26]
    );
}

#[test]
fn rfc2759_nt_password_hash() {
    assert_eq!(
        nt_password_hash(PASSWORD),
        [0x44, 0xEB, 0xBA, 0x8D, 0x53, 0x12, 0xB8, 0xD6, 0x11, 0x47, 0x44, 0x11, 0xF5, 0x69, 0x89, 0xAE]
    );
}

#[test]
fn rfc2759_password_hash_hash() {
    let ph = nt_password_hash(PASSWORD);
    assert_eq!(
        hash_nt_password_hash(&ph),
        [0x41, 0xC0, 0x0C, 0x58, 0x4B, 0xD2, 0xD9, 0x1C, 0x40, 0x17, 0xA2, 0xA1, 0x2F, 0xA5, 0x9F, 0x3F]
    );
}

#[test]
fn rfc2759_nt_response() {
    assert_eq!(
        generate_nt_response(&AUTH_CHALLENGE, &PEER_CHALLENGE, USER, PASSWORD),
        [
            0x82, 0x30, 0x9E, 0xCD, 0x8D, 0x70, 0x8B, 0x5E, 0xA0, 0x8F, 0xAA, 0x39, 0x81, 0xCD, 0x83, 0x54,
            0x42, 0x33, 0x11, 0x4A, 0x3D, 0x85, 0xD6, 0xDF
        ]
    );
}

#[test]
fn rfc2759_authenticator_response() {
    let nt = generate_nt_response(&AUTH_CHALLENGE, &PEER_CHALLENGE, USER, PASSWORD);
    assert_eq!(
        generate_authenticator_response(PASSWORD, &nt, &PEER_CHALLENGE, &AUTH_CHALLENGE, USER),
        "S=407A5589115FD0D6209F510FE9C04566932CDA56"
    );
}

#[test]
fn magic_constants_are_the_right_length() {
    assert_eq!(MPPE_MAGIC2.len(), 84);
    assert_eq!(MPPE_MAGIC3.len(), 84);
    assert_eq!(MPPE_MASTER_MAGIC.len(), 27);
}

#[test]
fn rfc3079_master_key() {
    // PasswordHashHash from RFC 2759 §9.2; MasterKey from RFC 3079 §4.5.3.
    let phh = [0x41, 0xC0, 0x0C, 0x58, 0x4B, 0xD2, 0xD9, 0x1C, 0x40, 0x17, 0xA2, 0xA1, 0x2F, 0xA5, 0x9F, 0x3F];
    let nt = generate_nt_response(&AUTH_CHALLENGE, &PEER_CHALLENGE, USER, PASSWORD);
    assert_eq!(
        get_master_key(&phh, &nt),
        [0xFD, 0xEC, 0xE3, 0x71, 0x7A, 0x8C, 0x83, 0x8C, 0xB3, 0x88, 0xE5, 0x27, 0xAE, 0x3C, 0xDD, 0x31]
    );
}

#[test]
fn msk_is_64_bytes_zero_padded_and_deterministic() {
    let nt = generate_nt_response(&AUTH_CHALLENGE, &PEER_CHALLENGE, USER, PASSWORD);
    let msk = derive_msk(PASSWORD, &nt);
    assert!(msk[32..].iter().all(|&b| b == 0)); // trailing 32 bytes are zero
    assert!(msk[..32].iter().any(|&b| b != 0));
    assert_eq!(msk, derive_msk(PASSWORD, &nt)); // deterministic
    let mut nt2 = nt;
    nt2[0] ^= 0xff;
    assert_ne!(derive_msk(PASSWORD, &nt2), msk);
}

/// A password beyond the first 65536 code points is hashed over its surrogate pairs.
#[test]
fn a_password_outside_the_basic_plane_is_hashed_in_utf_16() {
    // U+1F511 is D83D DD11 in UTF-16, so its two halves, little endian.
    assert_ne!(nt_password_hash("\u{1F511}"), nt_password_hash("\u{F511}"));
    assert_ne!(nt_password_hash("\u{E9}"), nt_password_hash("e"));
    // MD4 of nothing.
    assert_eq!(
        nt_password_hash(""),
        [0x31, 0xD6, 0xCF, 0xE0, 0xD1, 0x6A, 0xE9, 0x31, 0xB7, 0x3C, 0x59, 0xD7, 0xE0, 0xC0, 0x89, 0xC0]
    );
}
