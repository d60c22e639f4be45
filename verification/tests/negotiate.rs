//! Which proposals are taken, and which answers.

use ryke::crypto::{DhGroup, IntegAlgorithm};
use ryke::error::IkeError;
use ryke::ikev2::negotiate::{accepted_proposal, ikev2_dh_group, select, select_esp, ChosenEspSuite};
use ryke::ikev2::payload::{protocol_id, transform_id, transform_type, Proposal, SecurityAssociation, Transform};
use ryke::ikev2::sk::SkCipher;

fn tf(ttype: u8, id: u16, key_length: Option<u16>) -> Transform {
    Transform { transform_type: ttype, transform_id: id, key_length }
}

fn proposal(num: u8, transforms: Vec<Transform>) -> SecurityAssociation {
    SecurityAssociation {
        proposals: vec![Proposal { num, protocol_id: protocol_id::IKE, spi: Vec::new(), transforms }],
    }
}

#[test]
fn selects_aead_suite() {
    let sa = proposal(1, vec![
        tf(transform_type::ENCR, transform_id::AES_GCM_16, Some(256)),
        tf(transform_type::PRF, transform_id::PRF_HMAC_SHA2_256, None),
        tf(transform_type::DH, transform_id::X25519, None),
    ]);
    let chosen = select(&sa).unwrap();
    assert_eq!(chosen.encr_id, transform_id::AES_GCM_16);
    assert_eq!(chosen.integ_id, None);
    assert_eq!(chosen.key_lengths().encr, 36); // AES-256 key (32) + GCM salt (4)
    assert_eq!(chosen.key_lengths().integ, 0);
    // Echoed IKE proposal has neither INTEG (AEAD) nor ESN.
    let echo = chosen.to_proposal();
    assert!(!echo.transforms.iter().any(|t| t.transform_type == transform_type::INTEG));
    assert!(!echo.transforms.iter().any(|t| t.transform_type == transform_type::ESN));
}

#[test]
fn falls_back_to_cbc_hmac() {
    let sa = proposal(1, vec![
        tf(transform_type::ENCR, transform_id::AES_CBC, Some(256)),
        tf(transform_type::INTEG, transform_id::AUTH_HMAC_SHA2_256_128, None),
        tf(transform_type::PRF, transform_id::PRF_HMAC_SHA2_256, None),
        tf(transform_type::DH, transform_id::X25519, None),
    ]);
    let chosen = select(&sa).unwrap();
    assert_eq!(chosen.encr_id, transform_id::AES_CBC);
    assert_eq!(chosen.integ_id, Some(transform_id::AUTH_HMAC_SHA2_256_128));
    assert_eq!(chosen.key_lengths().integ, 32);
}

#[test]
fn rejects_unsupported_dh() {
    let sa = proposal(1, vec![
        tf(transform_type::ENCR, transform_id::AES_GCM_16, Some(256)),
        tf(transform_type::PRF, transform_id::PRF_HMAC_SHA2_256, None),
        tf(transform_type::DH, 9999, None), // not a real DH group
    ]);
    assert!(select(&sa).is_none());
}

#[test]
fn selects_across_the_full_algorithm_matrix() {
    // ChaCha20-Poly1305 + PRF-SHA512 + ECP521, none of which the original
    // narrow matcher recognized.
    let sa = proposal(1, vec![
        tf(transform_type::ENCR, transform_id::CHACHA20_POLY1305, None),
        tf(transform_type::PRF, transform_id::PRF_HMAC_SHA2_512, None),
        tf(transform_type::DH, transform_id::ECP521, None),
    ]);
    let chosen = select(&sa).unwrap();
    assert_eq!(chosen.encr_id, transform_id::CHACHA20_POLY1305);
    assert_eq!(chosen.encr_key_bits, 256);
    assert_eq!(chosen.prf_id, transform_id::PRF_HMAC_SHA2_512);
    assert_eq!(chosen.dh_id, transform_id::ECP521);
    assert_eq!(chosen.key_lengths().prf, 64);
    assert_eq!(chosen.key_lengths().encr, 36); // 32-byte key + 4-byte salt

    // Legacy classic combo, still supported: 3DES + HMAC-SHA1-96 + PRF-SHA1 + MODP-1024.
    let sa2 = proposal(1, vec![
        tf(transform_type::ENCR, transform_id::TRIPLE_DES, None),
        tf(transform_type::INTEG, transform_id::AUTH_HMAC_SHA1_96, None),
        tf(transform_type::PRF, transform_id::PRF_HMAC_SHA1, None),
        tf(transform_type::DH, transform_id::MODP_1024, None),
    ]);
    let chosen2 = select(&sa2).unwrap();
    assert_eq!(chosen2.encr_id, transform_id::TRIPLE_DES);
    assert_eq!(chosen2.encr_key_bits, 192);
    assert_eq!(chosen2.integ_id, Some(transform_id::AUTH_HMAC_SHA1_96));
    assert_eq!(chosen2.dh_id, transform_id::MODP_1024);
    assert_eq!(chosen2.key_lengths().encr, 24); // 3DES key, no salt
}

#[test]
fn rejects_the_rfc8247_must_not_algorithms() {
    // PRF_HMAC_MD5 and AUTH_HMAC_MD5_96 (RFC 8247 §2.3/§2.4) and
    // MODP-768/group 1 (RFC 8247 §2.5) must never be selectable for
    // IKEv2, even though `ikev2::payload`/`crypto` can still represent
    // them (IKEv1 still uses them via its own negotiation path).
    let md5 = proposal(1, vec![
        tf(transform_type::ENCR, transform_id::TRIPLE_DES, None),
        tf(transform_type::INTEG, transform_id::AUTH_HMAC_MD5_96, None),
        tf(transform_type::PRF, transform_id::PRF_HMAC_MD5, None),
        tf(transform_type::DH, transform_id::MODP_2048, None),
    ]);
    assert!(select(&md5).is_none());

    let modp768 = proposal(1, vec![
        tf(transform_type::ENCR, transform_id::AES_GCM_16, Some(256)),
        tf(transform_type::PRF, transform_id::PRF_HMAC_SHA2_256, None),
        tf(transform_type::DH, transform_id::MODP_768, None),
    ]);
    assert!(select(&modp768).is_none());
}

#[test]
fn prefers_the_strongest_available_combination() {
    // Offer both AES-GCM-256 and ChaCha20-Poly1305 -- ChaCha20-Poly1305
    // is preferred (first in ENCR_CANDIDATES); offer both SHA-256 and
    // SHA-512 PRF -- SHA-512 wins.
    let sa = proposal(1, vec![
        tf(transform_type::ENCR, transform_id::AES_GCM_16, Some(256)),
        tf(transform_type::ENCR, transform_id::CHACHA20_POLY1305, None),
        tf(transform_type::PRF, transform_id::PRF_HMAC_SHA2_256, None),
        tf(transform_type::PRF, transform_id::PRF_HMAC_SHA2_512, None),
        tf(transform_type::DH, transform_id::MODP_2048, None),
        tf(transform_type::DH, transform_id::X25519, None),
    ]);
    let chosen = select(&sa).unwrap();
    assert_eq!(chosen.encr_id, transform_id::CHACHA20_POLY1305);
    assert_eq!(chosen.prf_id, transform_id::PRF_HMAC_SHA2_512);
    assert_eq!(chosen.dh_id, transform_id::X25519);
}

#[test]
fn ignores_esn_if_present() {
    // Some initiators erroneously add ESN to the IKE proposal; we ignore it.
    let sa = proposal(1, vec![
        tf(transform_type::ENCR, transform_id::AES_GCM_16, Some(256)),
        tf(transform_type::PRF, transform_id::PRF_HMAC_SHA2_256, None),
        tf(transform_type::DH, transform_id::X25519, None),
        tf(transform_type::ESN, transform_id::ESN_NONE, None),
    ]);
    assert!(select(&sa).is_some());
}

#[test]
fn echoed_proposal_reparses() {
    let sa = proposal(2, vec![
        tf(transform_type::ENCR, transform_id::AES_GCM_16, Some(256)),
        tf(transform_type::PRF, transform_id::PRF_HMAC_SHA2_256, None),
        tf(transform_type::DH, transform_id::X25519, None),
    ]);
    let chosen = select(&sa).unwrap();
    let echo = SecurityAssociation { proposals: vec![chosen.to_proposal()] };
    assert_eq!(SecurityAssociation::parse(&echo.to_bytes()).unwrap(), echo);
    assert_eq!(echo.proposals[0].num, 2);
}

fn esp_proposal(transforms: Vec<Transform>) -> SecurityAssociation {
    SecurityAssociation {
        proposals: vec![Proposal { num: 1, protocol_id: protocol_id::ESP, spi: vec![1, 2, 3, 4], transforms }],
    }
}

#[test]
fn select_esp_reads_back_an_aead_answer() {
    let sa = esp_proposal(vec![
        tf(transform_type::ENCR, transform_id::AES_GCM_16, Some(256)),
        tf(transform_type::ESN, transform_id::ESN_NONE, None),
    ]);
    let chosen = select_esp(&sa).unwrap();
    assert_eq!(chosen.encr_id, transform_id::AES_GCM_16);
    assert_eq!(chosen.encr_key_bits, 256);
    assert_eq!(chosen.integ_id, None);
    assert_eq!(chosen.sk_cipher(), Some(SkCipher::Aes256Gcm));
}

#[test]
fn select_esp_reads_back_a_classic_answer() {
    let sa = esp_proposal(vec![
        tf(transform_type::ENCR, transform_id::AES_CBC, Some(128)),
        tf(transform_type::INTEG, transform_id::AUTH_HMAC_SHA1_96, None),
        tf(transform_type::ESN, transform_id::ESN_NONE, None),
    ]);
    let chosen = select_esp(&sa).unwrap();
    assert_eq!(chosen.encr_id, transform_id::AES_CBC);
    assert_eq!(chosen.integ_id, Some(transform_id::AUTH_HMAC_SHA1_96));
    assert_eq!(
        chosen.sk_cipher(),
        Some(SkCipher::Aes128Cbc(IntegAlgorithm::HmacSha1_96))
    );
}

#[test]
fn select_esp_ignores_a_non_esp_proposal() {
    let sa = proposal(1, vec![tf(transform_type::ENCR, transform_id::AES_GCM_16, Some(256))]);
    assert_eq!(select_esp(&sa), None);
}

#[test]
fn select_esp_reads_esn_enabled() {
    let sa = esp_proposal(vec![
        tf(transform_type::ENCR, transform_id::AES_GCM_16, Some(256)),
        tf(transform_type::ESN, transform_id::ESN_ENABLED, None),
    ]);
    assert!(select_esp(&sa).unwrap().esn);
}

#[test]
fn select_esp_treats_a_missing_esn_transform_as_none() {
    let sa = esp_proposal(vec![tf(transform_type::ENCR, transform_id::AES_GCM_16, Some(256))]);
    assert!(!select_esp(&sa).unwrap().esn);
}

#[test]
fn esp_suite_matches_offer_accepts_exactly_what_was_offered() {
    let offer = esp_proposal(vec![
        tf(transform_type::ENCR, transform_id::AES_GCM_16, Some(256)),
        tf(transform_type::ESN, transform_id::ESN_NONE, None),
    ]);
    let chosen = select_esp(&offer).unwrap();
    assert!(chosen.matches_offer(&offer));
}

#[test]
fn esp_suite_matches_offer_rejects_a_downgraded_cipher() {
    // We offered AES-GCM-256 only; a peer answering AES-CBC-128/HMAC-SHA1
    // (a combination `sk::SkCipher` can decode fine) must not pass as if
    // we had proposed it.
    let offer = esp_proposal(vec![
        tf(transform_type::ENCR, transform_id::AES_GCM_16, Some(256)),
        tf(transform_type::ESN, transform_id::ESN_NONE, None),
    ]);
    let answer = esp_proposal(vec![
        tf(transform_type::ENCR, transform_id::AES_CBC, Some(128)),
        tf(transform_type::INTEG, transform_id::AUTH_HMAC_SHA1_96, None),
        tf(transform_type::ESN, transform_id::ESN_NONE, None),
    ]);
    let chosen = select_esp(&answer).unwrap();
    assert!(!chosen.matches_offer(&offer));
}

#[test]
fn esp_suite_matches_offer_rejects_esn_turned_on() {
    // We only ever offer ESN_NONE (no ESN implementation in the data
    // plane); a peer flipping it to ESN_ENABLED must be rejected even
    // though the ENCR/INTEG match exactly.
    let offer = esp_proposal(vec![
        tf(transform_type::ENCR, transform_id::AES_GCM_16, Some(256)),
        tf(transform_type::ESN, transform_id::ESN_NONE, None),
    ]);
    let answer = esp_proposal(vec![
        tf(transform_type::ENCR, transform_id::AES_GCM_16, Some(256)),
        tf(transform_type::ESN, transform_id::ESN_ENABLED, None),
    ]);
    let chosen = select_esp(&answer).unwrap();
    assert!(!chosen.matches_offer(&offer));
}

#[test]
fn esp_suite_matches_offer_rejects_integ_forced_onto_an_aead_offer() {
    let offer = esp_proposal(vec![
        tf(transform_type::ENCR, transform_id::AES_GCM_16, Some(256)),
        tf(transform_type::ESN, transform_id::ESN_NONE, None),
    ]);
    let answer = esp_proposal(vec![
        tf(transform_type::ENCR, transform_id::AES_GCM_16, Some(256)),
        tf(transform_type::INTEG, transform_id::AUTH_HMAC_SHA2_256_128, None),
        tf(transform_type::ESN, transform_id::ESN_NONE, None),
    ]);
    let chosen = select_esp(&answer).unwrap();
    assert!(!chosen.matches_offer(&offer));
}

#[test]
fn a_fixed_key_cipher_is_echoed_without_a_key_length() {
    // RFC 7296 §3.3.5: "The Key Length attribute MUST NOT be used with
    // transforms that use a fixed-length key", and §3.3.6: attributes are
    // "returned unmodified" -- the offer carried none.
    for (encr, integ) in [(transform_id::CHACHA20_POLY1305, None), (transform_id::TRIPLE_DES, Some(transform_id::AUTH_HMAC_SHA1_96))] {
        let mut transforms = vec![tf(transform_type::ENCR, encr, None), tf(transform_type::PRF, transform_id::PRF_HMAC_SHA2_256, None)];
        transforms.extend(integ.map(|id| tf(transform_type::INTEG, id, None)));
        transforms.push(tf(transform_type::DH, transform_id::X25519, None));
        let chosen = select(&proposal(1, transforms)).unwrap();
        let echo = chosen.to_proposal();
        let echoed = echo.transforms.iter().find(|t| t.transform_type == transform_type::ENCR).unwrap();
        assert_eq!(echoed.key_length, None, "ENCR {encr}");
        assert!(chosen.matches_offer(&SecurityAssociation { proposals: vec![echo.clone()] }));
    }
    // A variable-length cipher keeps its Key Length.
    let chosen = select(&proposal(1, vec![
        tf(transform_type::ENCR, transform_id::AES_GCM_16, Some(128)),
        tf(transform_type::PRF, transform_id::PRF_HMAC_SHA2_256, None),
        tf(transform_type::DH, transform_id::X25519, None),
    ]))
    .unwrap();
    assert_eq!(chosen.to_proposal().transforms[0].key_length, Some(128));
}

#[test]
fn a_key_length_on_a_fixed_length_transform_makes_it_unacceptable() {
    // §3.3.5 forbids the attribute there, and §3.3.6: "a transform ...
    // that contains a Transform Attribute it does not understand" is
    // unacceptable -- whatever a Key Length on ChaCha20 or a PRF means,
    // it isn't what we'd run.
    let base = || {
        vec![
            tf(transform_type::ENCR, transform_id::CHACHA20_POLY1305, None),
            tf(transform_type::PRF, transform_id::PRF_HMAC_SHA2_256, None),
            tf(transform_type::DH, transform_id::X25519, None),
        ]
    };
    assert!(select(&proposal(1, base())).is_some());
    for at in 0..3 {
        let mut transforms = base();
        transforms[at].key_length = Some(128);
        assert_eq!(select(&proposal(1, transforms)), None, "Key Length on transform {at}");
    }
    // Another transform of the same type without it is still taken.
    let mut transforms = base();
    transforms[0].key_length = Some(128);
    transforms.push(tf(transform_type::ENCR, transform_id::AES_GCM_16, Some(256)));
    assert_eq!(select(&proposal(1, transforms)).unwrap().encr_id, transform_id::AES_GCM_16);
}

#[test]
fn an_aead_cipher_is_not_picked_from_a_proposal_that_carries_integrity() {
    // §2.7: the accepted suite "MUST contain exactly one transform of each
    // type included in the proposal" -- a proposal with INTEG transforms
    // needs one answered, which a combined-mode cipher cannot take (§3.3:
    // it offers "no integrity algorithm or a single integrity algorithm of
    // NONE").
    let mixed = proposal(1, vec![
        tf(transform_type::ENCR, transform_id::AES_GCM_16, Some(256)),
        tf(transform_type::ENCR, transform_id::AES_CBC, Some(256)),
        tf(transform_type::PRF, transform_id::PRF_HMAC_SHA2_256, None),
        tf(transform_type::INTEG, transform_id::AUTH_HMAC_SHA2_256_128, None),
        tf(transform_type::DH, transform_id::X25519, None),
    ]);
    let chosen = select(&mixed).unwrap();
    assert_eq!((chosen.encr_id, chosen.integ_id), (transform_id::AES_CBC, Some(transform_id::AUTH_HMAC_SHA2_256_128)));

    let aead_with_integ = proposal(1, vec![
        tf(transform_type::ENCR, transform_id::AES_GCM_16, Some(256)),
        tf(transform_type::PRF, transform_id::PRF_HMAC_SHA2_256, None),
        tf(transform_type::INTEG, transform_id::AUTH_HMAC_SHA2_256_128, None),
        tf(transform_type::DH, transform_id::X25519, None),
    ]);
    assert_eq!(select(&aead_with_integ), None);
}

#[test]
fn a_proposal_with_a_transform_type_we_do_not_know_is_skipped() {
    // §3.3.6: "a proposal that contains a Transform Type it does not
    // understand ... MUST [be considered] unacceptable; however, other
    // proposals in the same SA payload are processed as usual" -- e.g.
    // RFC 9370's ADDKE types (6-12) without IKE_INTERMEDIATE.
    let suite = |num: u8, extra: Option<Transform>| {
        let mut transforms = vec![
            tf(transform_type::ENCR, transform_id::AES_GCM_16, Some(256)),
            tf(transform_type::PRF, transform_id::PRF_HMAC_SHA2_256, None),
            tf(transform_type::DH, transform_id::X25519, None),
        ];
        transforms.extend(extra);
        Proposal { num, protocol_id: protocol_id::IKE, spi: Vec::new(), transforms }
    };
    let addke = tf(6, transform_id::ECP256, None);
    let sa = SecurityAssociation { proposals: vec![suite(1, Some(addke.clone())), suite(2, None)] };
    assert_eq!(select(&sa).unwrap().proposal_num, 2);
    let only = SecurityAssociation { proposals: vec![suite(1, Some(addke))] };
    assert_eq!(select(&only), None);
}

#[test]
fn an_esp_answer_picking_the_second_proposal_matches_the_offer() {
    let offer = SecurityAssociation {
        proposals: vec![
            Proposal {
                num: 1,
                protocol_id: protocol_id::ESP,
                spi: vec![1, 2, 3, 4],
                transforms: vec![tf(transform_type::ENCR, transform_id::CHACHA20_POLY1305, None), tf(transform_type::ESN, transform_id::ESN_NONE, None)],
            },
            Proposal {
                num: 2,
                protocol_id: protocol_id::ESP,
                spi: vec![1, 2, 3, 4],
                transforms: vec![tf(transform_type::ENCR, transform_id::AES_GCM_16, Some(256)), tf(transform_type::ESN, transform_id::ESN_NONE, None)],
            },
        ],
    };
    let answer = SecurityAssociation { proposals: vec![Proposal { spi: vec![9, 9, 9, 9], ..offer.proposals[1].clone() }] };
    let chosen = select_esp(&answer).unwrap();
    assert!(chosen.matches_offer(&offer));
    assert_eq!(accepted_proposal(&answer, &offer), Ok(&answer.proposals[0]));
}

#[test]
fn an_answer_must_be_one_proposal_of_ours_with_one_transform_of_each_type() {
    let offer = SecurityAssociation {
        proposals: vec![
            Proposal {
                num: 1,
                protocol_id: protocol_id::IKE,
                spi: Vec::new(),
                transforms: vec![
                    tf(transform_type::ENCR, transform_id::AES_GCM_16, Some(256)),
                    tf(transform_type::ENCR, transform_id::AES_GCM_16, Some(128)),
                    tf(transform_type::PRF, transform_id::PRF_HMAC_SHA2_256, None),
                    tf(transform_type::DH, transform_id::X25519, None),
                    tf(transform_type::DH, transform_id::ECP256, None),
                ],
            },
            Proposal {
                num: 2,
                protocol_id: protocol_id::IKE,
                spi: Vec::new(),
                transforms: vec![
                    tf(transform_type::ENCR, transform_id::AES_CBC, Some(256)),
                    tf(transform_type::PRF, transform_id::PRF_HMAC_SHA2_256, None),
                    tf(transform_type::INTEG, transform_id::AUTH_HMAC_SHA2_256_128, None),
                    tf(transform_type::DH, transform_id::X25519, None),
                ],
            },
        ],
    };
    let answer = |num: u8, transforms: Vec<Transform>| SecurityAssociation {
        proposals: vec![Proposal { num, protocol_id: protocol_id::IKE, spi: Vec::new(), transforms }],
    };
    let gcm = || {
        vec![
            tf(transform_type::ENCR, transform_id::AES_GCM_16, Some(128)),
            tf(transform_type::PRF, transform_id::PRF_HMAC_SHA2_256, None),
            tf(transform_type::DH, transform_id::ECP256, None),
        ]
    };
    let cbc = || {
        vec![
            tf(transform_type::ENCR, transform_id::AES_CBC, Some(256)),
            tf(transform_type::PRF, transform_id::PRF_HMAC_SHA2_256, None),
            tf(transform_type::INTEG, transform_id::AUTH_HMAC_SHA2_256_128, None),
            tf(transform_type::DH, transform_id::X25519, None),
        ]
    };
    assert!(accepted_proposal(&answer(1, gcm()), &offer).is_ok());
    assert!(accepted_proposal(&answer(2, cbc()), &offer).is_ok());

    let mut bad: Vec<(&str, SecurityAssociation)> = vec![
        ("the number of another proposal", answer(2, gcm())),
        ("a number we never sent", answer(3, gcm())),
        ("another protocol", SecurityAssociation { proposals: vec![Proposal { protocol_id: protocol_id::ESP, ..answer(1, gcm()).proposals[0].clone() }] }),
        ("no proposal", SecurityAssociation { proposals: Vec::new() }),
    ];
    let mut two = answer(1, gcm());
    two.proposals.push(answer(2, cbc()).proposals.remove(0));
    bad.push(("two proposals", two));
    let mut both_dh = gcm();
    both_dh.push(tf(transform_type::DH, transform_id::X25519, None));
    bad.push(("two transforms of a type", answer(1, both_dh)));
    let mut no_dh = gcm();
    no_dh.pop();
    bad.push(("a type of the proposal left out", answer(1, no_dh)));
    let mut integ = gcm();
    integ.push(tf(transform_type::INTEG, transform_id::AUTH_HMAC_SHA2_256_128, None));
    bad.push(("a type the proposal doesn't have", answer(1, integ)));
    let mut resized = gcm();
    resized[0].key_length = Some(192);
    bad.push(("an attribute changed", answer(1, resized)));
    let mut other = gcm();
    other[1] = tf(transform_type::PRF, transform_id::PRF_HMAC_SHA2_512, None);
    bad.push(("a transform we never offered", answer(1, other)));
    for (what, sa) in bad {
        assert_eq!(accepted_proposal(&sa, &offer), Err(IkeError::NoProposalChosen), "{what}");
    }
}

#[test]
fn an_esp_answer_may_leave_out_an_esn_none_it_was_offered() {
    // The one leniency, the convention `select_esp` already follows.
    let offer = esp_proposal(vec![
        tf(transform_type::ENCR, transform_id::AES_GCM_16, Some(256)),
        tf(transform_type::ESN, transform_id::ESN_NONE, None),
    ]);
    let answer = esp_proposal(vec![tf(transform_type::ENCR, transform_id::AES_GCM_16, Some(256))]);
    assert!(accepted_proposal(&answer, &offer).is_ok());
    let esn_only = esp_proposal(vec![
        tf(transform_type::ENCR, transform_id::AES_GCM_16, Some(256)),
        tf(transform_type::ESN, transform_id::ESN_ENABLED, None),
    ]);
    assert_eq!(accepted_proposal(&answer, &esn_only), Err(IkeError::NoProposalChosen));
}

#[test]
fn an_esp_answer_may_add_dh_none_to_an_offer_without_pfs() {
    // "No PFS" spelled out, as asked -- but only NONE, only once, only in
    // ESP and only when we offered no DH at all.
    let gcm = || tf(transform_type::ENCR, transform_id::AES_GCM_16, Some(256));
    let none = || tf(transform_type::DH, 0, None);
    let modp2048 = || tf(transform_type::DH, transform_id::MODP_2048, None);
    let no_pfs = esp_proposal(vec![gcm()]);
    assert!(accepted_proposal(&esp_proposal(vec![gcm(), none()]), &no_pfs).is_ok());

    let refused = [
        ("a group we never asked for", esp_proposal(vec![gcm(), modp2048()]), no_pfs.clone()),
        ("NONE twice", esp_proposal(vec![gcm(), none(), none()]), no_pfs.clone()),
        ("NONE for a PFS offer", esp_proposal(vec![gcm(), none()]), esp_proposal(vec![gcm(), modp2048()])),
        ("NONE in an IKE proposal", proposal(1, vec![gcm(), none()]), proposal(1, vec![gcm()])),
    ];
    for (what, answer, offer) in refused {
        assert_eq!(accepted_proposal(&answer, &offer), Err(IkeError::NoProposalChosen), "{what}");
    }
}

#[test]
fn esp_suite_matches_offer_rejects_a_non_esp_offer() {
    let chosen = ChosenEspSuite { encr_id: transform_id::AES_GCM_16, encr_key_bits: 256, integ_id: None, esn: false };
    let offer = proposal(1, vec![tf(transform_type::ENCR, transform_id::AES_GCM_16, Some(256))]);
    assert!(!chosen.matches_offer(&offer));
}

#[test]
fn modp_768_is_no_group_of_ikev2() {
    assert_eq!(ikev2_dh_group(transform_id::X25519), Some(DhGroup::X25519));
    assert_eq!(ikev2_dh_group(transform_id::MODP_1024), Some(DhGroup::Modp1024));
    assert_eq!(ikev2_dh_group(transform_id::MODP_768), None);
    assert_eq!(ikev2_dh_group(0), None);
}
