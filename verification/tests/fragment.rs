//! Fragmentation and reassembly.

use ryke::addr::IpAddress;
use ryke::crypto::IntegAlgorithm;
use ryke::error::IkeError;
use ryke::ikev2::fragment::{
    build_fragments, fragment_message, peek_fragment_header, reassemble, verify_fragment, Accepted, DatagramLimit,
    MessageKey, Reassembly, MAX_FRAGMENTS, MAX_REASSEMBLED_LEN, MIN_FRAGMENT_MESSAGE_LEN,
};
use ryke::ikev2::message::{ExchangeType, Flags, IkeHeader, PayloadType};
use ryke::ikev2::sk::{build_encrypted, SkCipher};

fn header() -> IkeHeader {
    IkeHeader {
        initiator_spi: 0x1111_2222_3333_4444,
        responder_spi: 0x5555_6666_7777_8888,
        next_payload: PayloadType::NoNext,
        major_version: 2,
        minor_version: 0,
        exchange_type: ExchangeType::IkeAuth,
        flags: Flags { initiator: true, version: false, response: false },
        message_id: 1,
        length: 0,
    }
}

fn aead_ciphers() -> Vec<SkCipher> {
    vec![SkCipher::Aes128Gcm, SkCipher::Aes192Gcm, SkCipher::Aes256Gcm, SkCipher::ChaCha20Poly1305]
}

fn cbc_ciphers() -> Vec<SkCipher> {
    vec![
        SkCipher::Aes128Cbc(IntegAlgorithm::HmacSha2_256_128),
        SkCipher::Aes192Cbc(IntegAlgorithm::HmacSha1_96),
        SkCipher::Aes256Cbc(IntegAlgorithm::HmacSha2_512_256),
        SkCipher::TripleDesCbc(IntegAlgorithm::HmacMd5_96),
    ]
}

fn keys_for(cipher: SkCipher) -> (Vec<u8>, Vec<u8>) {
    let sk_e = vec![0x33u8; cipher.key_len() + cipher.salt_len()];
    let sk_a = cipher.integ_algorithm().map(|i| vec![0x55u8; i.key_len()]).unwrap_or_default();
    (sk_e, sk_a)
}

#[test]
fn fragment_and_reassemble_roundtrip_any_order_every_aead_cipher() {
    for cipher in aead_ciphers() {
        let (sk_e, sk_a) = keys_for(cipher);
        let inner: Vec<u8> = (0..=200u8).collect(); // 201 bytes
        let frags = build_fragments(cipher, &header(), PayloadType::IdInitiator, &inner, &sk_e, &sk_a, 1000, 30).unwrap();
        assert_eq!(frags.len(), 7, "{cipher:?}");

        for f in &frags {
            assert_eq!(IkeHeader::parse(f).unwrap().next_payload, PayloadType::EncryptedFragment);
        }

        let mut shuffled = frags.clone();
        shuffled.reverse();
        let (first, out) = reassemble(cipher, &shuffled, &sk_e, &sk_a).unwrap();
        assert_eq!(first, PayloadType::IdInitiator, "{cipher:?}");
        assert_eq!(out, inner, "{cipher:?}");
    }
}

#[test]
fn fragment_and_reassemble_roundtrip_any_order_every_cbc_cipher() {
    for cipher in cbc_ciphers() {
        let (sk_e, sk_a) = keys_for(cipher);
        let inner: Vec<u8> = (0..=200u8).collect(); // 201 bytes
        let frags = build_fragments(cipher, &header(), PayloadType::IdInitiator, &inner, &sk_e, &sk_a, 1000, 30).unwrap();
        assert!(frags.len() > 1, "{cipher:?}");

        for f in &frags {
            assert_eq!(IkeHeader::parse(f).unwrap().next_payload, PayloadType::EncryptedFragment);
        }

        let mut shuffled = frags.clone();
        shuffled.reverse();
        let (first, out) = reassemble(cipher, &shuffled, &sk_e, &sk_a).unwrap();
        assert_eq!(first, PayloadType::IdInitiator, "{cipher:?}");
        assert_eq!(out, inner, "{cipher:?}");
    }
}

#[test]
fn single_fragment_when_it_fits() {
    let sk_e = vec![1u8; 36];
    let inner = vec![9u8; 10];
    let frags = build_fragments(SkCipher::Aes256Gcm, &header(), PayloadType::Nonce, &inner, &sk_e, &[], 5, 1000).unwrap();
    assert_eq!(frags.len(), 1);
    let (first, out) = reassemble(SkCipher::Aes256Gcm, &frags, &sk_e, &[]).unwrap();
    assert_eq!(first, PayloadType::Nonce);
    assert_eq!(out, inner);
}

#[test]
fn missing_fragment_is_rejected() {
    let sk_e = vec![2u8; 36];
    let inner = vec![7u8; 100];
    let mut frags = build_fragments(SkCipher::Aes256Gcm, &header(), PayloadType::IdInitiator, &inner, &sk_e, &[], 1, 30).unwrap();
    frags.pop(); // drop the last fragment
    assert!(reassemble(SkCipher::Aes256Gcm, &frags, &sk_e, &[]).is_err());
}

#[test]
fn tampered_fragment_fails_authentication() {
    let sk_e = vec![4u8; 36];
    let inner = vec![3u8; 80];
    let mut frags = build_fragments(SkCipher::Aes256Gcm, &header(), PayloadType::IdInitiator, &inner, &sk_e, &[], 1, 30).unwrap();
    let last = frags[0].len() - 1;
    frags[0][last] ^= 1; // corrupt a tag byte in the first fragment
    assert_eq!(reassemble(SkCipher::Aes256Gcm, &frags, &sk_e, &[]).unwrap_err(), IkeError::BadIntegrity);
}

#[test]
fn cbc_tampered_fragment_fails_authentication() {
    let cipher = SkCipher::Aes256Cbc(IntegAlgorithm::HmacSha2_512_256);
    let (sk_e, sk_a) = keys_for(cipher);
    let inner = vec![3u8; 80];
    let mut frags = build_fragments(cipher, &header(), PayloadType::IdInitiator, &inner, &sk_e, &sk_a, 1, 30).unwrap();
    let last = frags[0].len() - 1;
    frags[0][last] ^= 1; // corrupt an ICV byte in the first fragment
    assert_eq!(reassemble(cipher, &frags, &sk_e, &sk_a).unwrap_err(), IkeError::BadIntegrity);
}

#[test]
fn peek_fragment_header_reads_number_and_total_without_the_keys() {
    let sk_e = vec![1u8; 36];
    let inner: Vec<u8> = (0..=200u8).collect();
    let frags = build_fragments(SkCipher::Aes256Gcm, &header(), PayloadType::IdInitiator, &inner, &sk_e, &[], 1, 30).unwrap();
    assert!(frags.len() > 1);
    for (i, f) in frags.iter().enumerate() {
        let (num, total) = peek_fragment_header(f).unwrap();
        assert_eq!(num, (i + 1) as u16);
        assert_eq!(total, frags.len() as u16);
    }
}

#[test]
fn peek_fragment_header_rejects_a_non_skf_message() {
    let mut hdr = header();
    hdr.next_payload = PayloadType::Encrypted;
    assert!(peek_fragment_header(&hdr.to_bytes()).is_err());
}

#[test]
fn a_fragment_sealed_under_a_different_cipher_family_fails_to_open() {
    // FragNum/Total are folded into what each framing authenticates, but
    // this also proves the two framings aren't interchangeable at the
    // wire-parsing level: an AEAD fragment fed to the CBC path (or vice
    // versa) must not silently misparse.
    let sk_e_gcm = vec![6u8; 36];
    let frags = build_fragments(SkCipher::Aes256Gcm, &header(), PayloadType::IdInitiator, &[1, 2, 3], &sk_e_gcm, &[], 1, 30).unwrap();
    let cbc = SkCipher::Aes256Cbc(IntegAlgorithm::HmacSha2_512_256);
    let (sk_e_cbc, sk_a_cbc) = keys_for(cbc);
    assert!(reassemble(cbc, &frags, &sk_e_cbc, &sk_a_cbc).is_err());
}

fn all_ciphers() -> Vec<SkCipher> {
    aead_ciphers().into_iter().chain(cbc_ciphers()).collect()
}

/// `inner` under [`header`] as fragments of `per` bytes of content.
fn split(cipher: SkCipher, inner: &[u8], per: usize, iv_base: u64) -> Vec<Vec<u8>> {
    let (sk_e, sk_a) = keys_for(cipher);
    build_fragments(cipher, &header(), PayloadType::IdInitiator, inner, &sk_e, &sk_a, iv_base, per).unwrap()
}

fn reassembly() -> Reassembly {
    Reassembly::new(MessageKey::of(&header()))
}

fn forged(mut msg: Vec<u8>) -> Vec<u8> {
    *msg.last_mut().unwrap() ^= 1;
    msg
}

/// Where the SKF payload's Fragment Number and Total Fragments sit.
const NUMBER_AT: usize = IkeHeader::LEN + 4;
const TOTAL_AT: usize = IkeHeader::LEN + 6;

fn with_u16(mut msg: Vec<u8>, at: usize, value: u16) -> Vec<u8> {
    msg[at..at + 2].copy_from_slice(&value.to_be_bytes());
    msg
}

#[test]
fn reassembly_completes_in_any_order_and_a_replay_is_discarded() {
    for cipher in all_ciphers() {
        let (sk_e, sk_a) = keys_for(cipher);
        let inner: Vec<u8> = (0..=200u8).collect();
        let frags = split(cipher, &inner, 50, 10);
        assert_eq!(frags.len(), 5);
        let mut r = reassembly();
        for f in frags[1..].iter().rev() {
            assert_eq!(r.accept(f, cipher, &sk_e, &sk_a), Accepted::Stored, "{cipher:?}");
        }
        assert_eq!(r.accept(&frags[4], cipher, &sk_e, &sk_a), Accepted::Discarded("a replay of a fragment in hand"));
        assert_eq!(r.accept(&frags[0], cipher, &sk_e, &sk_a), Accepted::Complete(PayloadType::IdInitiator, inner.clone()));
        assert!(r.is_empty(), "a completed message is released");
    }
}

/// RFC 7383 §2.6: the ICV is checked before a fragment can change
/// anything. A forged fragment 1 ahead of the real one does not hold
/// its place; a forged fragment with a larger Total does not throw away
/// the genuine ones in hand.
#[test]
fn a_forged_fragment_neither_takes_a_place_nor_restarts_the_reassembly() {
    for cipher in all_ciphers() {
        let (sk_e, sk_a) = keys_for(cipher);
        let inner = vec![0x42u8; 150];
        let frags = split(cipher, &inner, 50, 10);
        let finer = split(cipher, &inner, 30, 90);
        assert_eq!((frags.len(), finer.len()), (3, 5));
        let mut r = reassembly();
        assert_eq!(r.accept(&forged(frags[0].clone()), cipher, &sk_e, &sk_a), Accepted::Discarded("does not authenticate"));
        assert!(r.is_empty(), "{cipher:?}");
        assert_eq!(r.accept(&frags[0], cipher, &sk_e, &sk_a), Accepted::Stored);
        assert_eq!(r.accept(&frags[1], cipher, &sk_e, &sk_a), Accepted::Stored);
        assert_eq!(r.accept(&forged(finer[0].clone()), cipher, &sk_e, &sk_a), Accepted::Discarded("does not authenticate"));
        assert_eq!(r.accept(&frags[2], cipher, &sk_e, &sk_a), Accepted::Complete(PayloadType::IdInitiator, inner.clone()));
    }
}

/// RFC 7383 §2.6 (and §2.5.2: a sender that fragments again makes more,
/// smaller fragments): an authentic fragment with a larger Total drops
/// the fragments in hand and starts over; one with a smaller Total is
/// discarded.
#[test]
fn a_larger_total_restarts_the_reassembly_and_a_smaller_one_is_discarded() {
    let cipher = SkCipher::Aes256Gcm;
    let (sk_e, sk_a) = keys_for(cipher);
    let inner = vec![0x42u8; 150];
    let coarse = split(cipher, &inner, 75, 10);
    let fine = split(cipher, &inner, 50, 90);
    assert_eq!((coarse.len(), fine.len()), (2, 3));

    let mut r = reassembly();
    assert_eq!(r.accept(&coarse[0], cipher, &sk_e, &sk_a), Accepted::Stored);
    assert_eq!(r.accept(&fine[0], cipher, &sk_e, &sk_a), Accepted::Stored);
    assert_eq!(r.accept(&coarse[1], cipher, &sk_e, &sk_a), Accepted::Discarded("fewer Total Fragments than the fragments in hand"));
    assert_eq!(r.accept(&fine[1], cipher, &sk_e, &sk_a), Accepted::Stored);
    assert_eq!(r.accept(&fine[2], cipher, &sk_e, &sk_a), Accepted::Complete(PayloadType::IdInitiator, inner));
}

/// RFC 7383 §2.6.1, RFC 7296 §2.2: a fragment belongs to one message --
/// one IKE SA, exchange, direction and Message ID.
#[test]
fn an_authentic_fragment_of_another_message_is_discarded() {
    let cipher = SkCipher::Aes256Gcm;
    let (sk_e, sk_a) = keys_for(cipher);
    let variants: [fn(&mut IkeHeader); 6] = [
        |h| h.initiator_spi ^= 1,
        |h| h.responder_spi ^= 1,
        |h| h.exchange_type = ExchangeType::Informational,
        |h| h.flags.initiator = false,
        |h| h.flags.response = true,
        |h| h.message_id += 1,
    ];
    for (i, variant) in variants.into_iter().enumerate() {
        let mut other = header();
        variant(&mut other);
        let frag = build_fragments(cipher, &other, PayloadType::IdInitiator, &[7u8; 60], &sk_e, &sk_a, 5, 30).unwrap().remove(0);
        let mut r = reassembly();
        assert_eq!(r.accept(&frag, cipher, &sk_e, &sk_a), Accepted::Discarded("a fragment of another message"), "variant {i}");
        assert!(r.is_empty());
    }
}

/// RFC 7383 §2.6: Fragment Number and Total Fragments must be non-zero
/// and the number at most the total; a Total beyond [`MAX_FRAGMENTS`]
/// is not taken either. None of these is even authenticated.
#[test]
fn invalid_fragment_numbers_and_totals_are_discarded() {
    let cipher = SkCipher::Aes256Gcm;
    let (sk_e, sk_a) = keys_for(cipher);
    let frag = split(cipher, &[7u8; 60], 30, 5).remove(0);
    for bad in [
        with_u16(frag.clone(), NUMBER_AT, 0),
        with_u16(frag.clone(), TOTAL_AT, 0),
        with_u16(frag.clone(), NUMBER_AT, 3),
        with_u16(with_u16(frag.clone(), NUMBER_AT, MAX_FRAGMENTS + 1), TOTAL_AT, MAX_FRAGMENTS + 1),
    ] {
        let mut r = reassembly();
        assert_eq!(r.accept(&bad, cipher, &sk_e, &sk_a), Accepted::Discarded("invalid Fragment Number or Total Fragments"));
        assert!(r.is_empty());
    }
}

/// A message whose fragments carry more than [`MAX_REASSEMBLED_LEN`]
/// is dropped whole, however authentic.
#[test]
fn a_message_beyond_the_size_cap_is_dropped_whole() {
    let cipher = SkCipher::Aes256Gcm;
    let (sk_e, sk_a) = keys_for(cipher);
    let frags = split(cipher, &vec![1u8; MAX_REASSEMBLED_LEN + 1], 300, 5);
    assert!(frags.len() <= usize::from(MAX_FRAGMENTS));
    let mut r = reassembly();
    let (last, rest) = frags.split_last().unwrap();
    for f in rest {
        assert_eq!(r.accept(f, cipher, &sk_e, &sk_a), Accepted::Stored);
    }
    assert_eq!(r.accept(last, cipher, &sk_e, &sk_a), Accepted::Discarded("the message is too large"));
    assert!(r.is_empty());
}

#[test]
fn verify_fragment_reads_number_and_total_only_from_an_authentic_fragment() {
    for cipher in all_ciphers() {
        let (sk_e, sk_a) = keys_for(cipher);
        let frags = split(cipher, &[7u8; 90], 30, 5);
        assert_eq!(verify_fragment(cipher, &frags[1], &sk_e, &sk_a).unwrap(), (2, 3));
        assert!(verify_fragment(cipher, &forged(frags[1].clone()), &sk_e, &sk_a).is_err(), "{cipher:?}");
    }
}

/// [`fragment_message`] cuts a whole `SK` message into fragments no
/// larger than asked, which reassemble to its payloads.
#[test]
fn fragment_message_keeps_every_fragment_within_the_size_asked() {
    for cipher in all_ciphers() {
        let (sk_e, sk_a) = keys_for(cipher);
        let inner: Vec<u8> = (0..2000u32).map(|i| i as u8).collect();
        let whole = build_encrypted(cipher, header(), PayloadType::IdInitiator, &inner, &sk_e, &sk_a, &[1u8; 8]).unwrap();
        for max_len in [200, 576, 1280] {
            let frags = fragment_message(cipher, &whole, &sk_e, &sk_a, 7, max_len).unwrap();
            assert!(frags.len() > 1, "{cipher:?} {max_len}");
            assert!(frags.iter().all(|f| f.len() <= max_len), "{cipher:?} {max_len}");
            assert_eq!(reassemble(cipher, &frags, &sk_e, &sk_a).unwrap(), (PayloadType::IdInitiator, inner.clone()));
        }
        assert!(fragment_message(cipher, &whole, &sk_e, &sk_a, 7, 60).is_err(), "no room for any content");
    }
}

/// Every cipher, under every integrity algorithm, fragments a message
/// at [`MIN_FRAGMENT_MESSAGE_LEN`], the floor [`DatagramLimit::new`]
/// is built on; the costliest cannot do with a byte less.
#[test]
fn every_cipher_fragments_at_the_smallest_message_a_limit_allows() {
    let integs = [IntegAlgorithm::HmacMd5_96, IntegAlgorithm::HmacSha1_96, IntegAlgorithm::HmacSha2_256_128, IntegAlgorithm::HmacSha2_384_192, IntegAlgorithm::HmacSha2_512_256];
    let ciphers = aead_ciphers().into_iter().chain(integs.iter().flat_map(|&i| {
        [SkCipher::Aes128Cbc(i), SkCipher::Aes192Cbc(i), SkCipher::Aes256Cbc(i), SkCipher::TripleDesCbc(i)]
    }));
    for cipher in ciphers {
        let (sk_e, sk_a) = keys_for(cipher);
        let inner = vec![9u8; 300];
        let whole = build_encrypted(cipher, header(), PayloadType::IdInitiator, &inner, &sk_e, &sk_a, &[1u8; 8]).unwrap();
        let frags = fragment_message(cipher, &whole, &sk_e, &sk_a, 7, MIN_FRAGMENT_MESSAGE_LEN).unwrap();
        assert!(frags.iter().all(|f| f.len() <= MIN_FRAGMENT_MESSAGE_LEN), "{cipher:?}");
        assert_eq!(reassemble(cipher, &frags, &sk_e, &sk_a).unwrap().1, inner, "{cipher:?}");
    }
    let cipher = SkCipher::Aes256Cbc(IntegAlgorithm::HmacSha2_512_256);
    let (sk_e, sk_a) = keys_for(cipher);
    let whole = build_encrypted(cipher, header(), PayloadType::IdInitiator, &[9u8; 300], &sk_e, &sk_a, &[1u8; 8]).unwrap();
    assert!(fragment_message(cipher, &whole, &sk_e, &sk_a, 7, MIN_FRAGMENT_MESSAGE_LEN - 1).is_err());
}

#[test]
fn the_default_limit_is_576_bytes_for_ipv4_and_1280_for_ipv6() {
    assert_eq!(DatagramLimit::default(), DatagramLimit::new(576, 1280).unwrap());
    assert_eq!((DatagramLimit::default().ipv4(), DatagramLimit::default().ipv6()), (576, 1280));
    assert_eq!(DatagramLimit::new(576, 1280), Ok(DatagramLimit::default()));
}

/// A limit leaves room for a fragment behind the IP and UDP headers
/// and the non-ESP marker, and fits the family's largest datagram.
#[test]
fn a_limit_no_fragment_fits_in_or_no_datagram_reaches_is_refused() {
    assert!(DatagramLimit::new(132, 152).is_ok());
    assert!(DatagramLimit::new(65535, 65575).is_ok());
    let low4 = DatagramLimit::new(131, 1280).unwrap_err();
    assert_eq!(low4.to_string(), "a limit of 131 bytes for an IPv4 datagram is outside 132..=65535");
    let low6 = DatagramLimit::new(576, 151).unwrap_err();
    assert_eq!(low6.to_string(), "a limit of 151 bytes for an IPv6 datagram is outside 152..=65575");
    assert!(DatagramLimit::new(65536, 1280).is_err());
    assert!(DatagramLimit::new(576, 65576).is_err());
    assert!(DatagramLimit::new(0, 0).is_err());
}

/// What is left for the IKE message: the limit of the outer family,
/// less its IP header, the UDP header and, once floated, the marker.
#[test]
fn the_message_gets_what_the_family_limit_leaves_past_the_headers() {
    let limit = DatagramLimit::new(600, 1400).unwrap();
    let v4 = IpAddress::V4([192, 0, 2, 1]);
    let v6 = IpAddress::V6([0x20, 0x01, 0x0d, 0xb8, 0, 0, 0, 0, 0, 0, 0, 0, 0, 0, 0, 1]);
    let mapped = IpAddress::V6([0, 0, 0, 0, 0, 0, 0, 0, 0, 0, 0xff, 0xff, 192, 0, 2, 1]);
    assert_eq!(limit.max_message_len(v4, false), 600 - 20 - 8);
    assert_eq!(limit.max_message_len(v4, true), 600 - 20 - 8 - 4);
    assert_eq!(limit.max_message_len(v6, false), 1400 - 40 - 8);
    assert_eq!(limit.max_message_len(v6, true), 1400 - 40 - 8 - 4);
    assert_eq!(limit.max_message_len(mapped, true), 600 - 20 - 8 - 4, "an IPv4-mapped peer travels as IPv4");
    assert_eq!(DatagramLimit::default().max_message_len(v4, true), 544);
    assert_eq!(DatagramLimit::default().max_message_len(v6, false), 1232);
    // The smallest limit still leaves room for a fragment.
    let floor = DatagramLimit::new(132, 152).unwrap();
    assert_eq!(floor.max_message_len(v4, true), MIN_FRAGMENT_MESSAGE_LEN);
    assert_eq!(floor.max_message_len(v6, true), MIN_FRAGMENT_MESSAGE_LEN);
}

#[test]
fn a_set_with_a_fragment_left_out_given_twice_or_in_the_place_of_another_is_refused() {
    for cipher in all_ciphers() {
        let (sk_e, sk_a) = keys_for(cipher);
        let inner: Vec<u8> = (0..100u8).collect();
        let frags = split(cipher, &inner, 30, 500);
        assert_eq!(frags.len(), 4);

        let short = frags[..3].to_vec();
        assert_eq!(reassemble(cipher, &short, &sk_e, &sk_a), Err(IkeError::Crypto("wrong number of fragments")));

        let mut twice = frags.clone();
        twice.push(frags[1].clone());
        assert_eq!(reassemble(cipher, &twice, &sk_e, &sk_a), Err(IkeError::Crypto("wrong number of fragments")));

        let mut copied = frags.clone();
        copied[2] = frags[0].clone();
        assert_eq!(
            reassemble(cipher, &copied, &sk_e, &sk_a),
            Err(IkeError::Crypto("duplicate or missing fragment number"))
        );
    }
}
