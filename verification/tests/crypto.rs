//! The cryptographic core on published and independently computed values.

use ryke::crypto::aead::AeadCipher;
use ryke::crypto::block::{cbc_decrypt, cbc_encrypt, BlockCipher};
use ryke::crypto::dh::DhGroup;
use ryke::crypto::hash::{hmac, HashAlgorithm};
use ryke::crypto::number::{below, power_modulo};
use ryke::crypto::prf::{derive_rekey_session_keys, derive_session_keys, prf, prf_plus};
use ryke::crypto::{IntegAlgorithm, KeyLengths, PrfAlgorithm};
use ryke::error::IkeError;

/// The octets a hexadecimal text writes.
fn hex(text: &str) -> Vec<u8> {
    (0..text.len() / 2).map(|i| u8::from_str_radix(&text[2 * i..2 * i + 2], 16).unwrap()).collect()
}

#[test]
fn digests_of_abc() {
    for (hash, expected) in [
        (HashAlgorithm::Md5, "900150983cd24fb0d6963f7d28e17f72"),
        (HashAlgorithm::Sha1, "a9993e364706816aba3e25717850c26c9cd0d89d"),
        (HashAlgorithm::Sha256, "ba7816bf8f01cfea414140de5dae2223b00361a396177a9cb410ff61f20015ad"),
        (HashAlgorithm::Sha384, "cb00753f45a35e8bb5a03d699ac65007272c32ab0eded1631a8b605a43ff5bed8086072ba1e7cc2358baeca134c825a7"),
        (HashAlgorithm::Sha512, "ddaf35a193617abacc417349ae20413112e6fa4e89a97ea20a9eeee64b55d39a2192992a274fc1a836ba3c23a3feebbd454d4423643ce80e2a9ac94fa54ca49f"),
    ] {
        let digest = hash.digest(b"abc");
        assert_eq!(digest, hex(expected), "{hash:?}");
        assert_eq!(digest.len(), hash.output_len());
    }
}

/// Keys shorter and longer than a block.
#[test]
fn hmacs_of_short_and_long_keys() {
    for (hash, short, long) in [
        (HashAlgorithm::Md5, "750c783e6ab0b503eaa86e310a5db738", "724bc5854c8911d8221b1b48ac58ffda"),
        (HashAlgorithm::Sha1, "effcdf6ae5eb2fa2d27416d5f184df9c259a7c79", "25d441286313849e132956d254784282bd8e8afd"),
        (HashAlgorithm::Sha256, "5bdcc146bf60754e6a042426089575c75a003f089d2739839dec58b964ec3843", "0163658d479ec73f2b801df07141db1426aaae2c6b5e8e6d9e6789f92f5e2b4f"),
        (HashAlgorithm::Sha384, "af45d2e376484031617f78d2b58a6b1b9c7ef464f5a01b47e42ec3736322445e8e2240ca5e69e2c78b3239ecfab21649", "b43d9b641c5b4566ffa375032128130382b21cd30639b529f1748825aa451da98dc91ad6d023bcb2c81849996cbd05a7"),
        (HashAlgorithm::Sha512, "164b7a7bfcf819e2e395fbe73b56e0a387bd64222e831fd610270cd7ea2505549758bf75c05a994a6d034f65f8f0e6fdcaeab1a34d4a6b4b636e070a38bce737", "854e242c54ce5f31621a1f809881b3439c0a77fd594dc546b9b3a957cf6f7b5475a1302be9fde1ece18531982eaa2141907c8b2fbd8bec2e5b19b8312ace3f2b"),
    ] {
        assert_eq!(hmac(hash, b"Jefe", b"what do ya want for nothing?"), hex(short), "{hash:?}");
        assert_eq!(hmac(hash, &[b'k'; 200], b"data"), hex(long), "{hash:?}");
    }
}

#[test]
fn prf_plus_expands_block_by_block() {
    assert_eq!(prf(PrfAlgorithm::Sha256, b"key", b"data"), hex("5031fe3d989c6d1537a013fa6e739da23463fdaec3b70137d828e36ace221bd0"));
    assert_eq!(prf_plus(PrfAlgorithm::Sha256, b"key", b"seed", 70), hex("a2392e429a99b173341b368bb5ce320bfd483d89567c14ec187c2d77e3c0a208ba45d21d42611712996c0cd4b329ac8681e093a8a5bbbbf0fb8c9d1cf674f7423fe3d2fbd664"));
    assert_eq!(prf_plus(PrfAlgorithm::Md5, b"key", b"seed", 0), Vec::<u8>::new());
}

#[test]
fn an_icv_is_the_front_of_the_mac() {
    let mac = hmac(HashAlgorithm::Sha256, &[7; 32], b"data");
    assert_eq!(IntegAlgorithm::HmacSha2_256_128.compute(&[7; 32], b"data"), mac[..16].to_vec());
    let mac = hmac(HashAlgorithm::Md5, &[7; 16], b"data");
    assert_eq!(IntegAlgorithm::HmacMd5_96.compute(&[7; 16], b"data"), mac[..12].to_vec());
}

/// FIPS 197 appendix C, and the Triple DES example of SP 800-67.
#[test]
fn block_ciphers_on_published_vectors() {
    let key: Vec<u8> = (0..32).collect();
    let block = hex("00112233445566778899aabbccddeeff");
    for (cipher, len, expected) in [
        (BlockCipher::Aes128, 16, "69c4e0d86a7b0430d8cdb78070b4c55a"),
        (BlockCipher::Aes192, 24, "dda97ca4864cdfe06eaf70a0ec0d7191"),
        (BlockCipher::Aes256, 32, "8ea2b7ca516745bfeafc49904b496089"),
    ] {
        assert_eq!((cipher.key_len(), cipher.block_len()), (len, 16));
        assert_eq!(cbc_encrypt(cipher, &key[..len], &[0; 16], &block), hex(expected), "{cipher:?}");
        assert_eq!(cbc_decrypt(cipher, &key[..len], &[0; 16], &hex(expected)), block, "{cipher:?}");
    }
    let key = hex("0123456789abcdef23456789abcdef01456789abcdef0123");
    let plain = hex("5468652071756663");
    assert_eq!(cbc_encrypt(BlockCipher::TripleDes, &key, &[0; 8], &plain), hex("a826fd8ce53b855f"));
}

/// What was enciphered in CBC mode is deciphered again, and each block hangs on
/// the one before.
#[test]
fn cbc_is_undone_and_chains() {
    for cipher in [BlockCipher::Aes128, BlockCipher::Aes256, BlockCipher::TripleDes] {
        let key: Vec<u8> = (1..=cipher.key_len() as u8).collect();
        let iv = vec![9; cipher.block_len()];
        let plain = vec![5; 3 * cipher.block_len()];
        let sealed = cbc_encrypt(cipher, &key, &iv, &plain);
        assert_eq!(cbc_decrypt(cipher, &key, &iv, &sealed), plain);
        assert_ne!(sealed[..cipher.block_len()], sealed[cipher.block_len()..2 * cipher.block_len()]);
    }
}

/// The all-zero cases of the GCM paper, and RFC 8439 section 2.8.2.
#[test]
fn aead_ciphers_on_published_vectors() {
    for (cipher, len, expected) in [
        (AeadCipher::Aes128Gcm, 16, "0388dace60b6a392f328c2b971b2fe78ab6e47d42cec13bdf53a67b21257bddf"),
        (AeadCipher::Aes192Gcm, 24, "98e7247c07f0fe411c267e4384b0f6002ff58d80033927ab8ef4d4587514f0fb"),
        (AeadCipher::Aes256Gcm, 32, "cea7403d4d606b6e074ec5d3baf39d18d0d1c8a799996bf0265b98b5d48ab919"),
    ] {
        assert_eq!(cipher.seal(&vec![0; len], &[0; 12], &[], &[0; 16]), hex(expected), "{cipher:?}");
    }
    let cipher = AeadCipher::ChaCha20Poly1305;
    let key: Vec<u8> = (0x80..0xa0).collect();
    let nonce = hex("070000004041424344454647");
    let aad = hex("50515253c0c1c2c3c4c5c6c7");
    let text = b"Ladies and Gentlemen of the class of '99: If I could offer you only one tip for the future, sunscreen would be it.";
    let sealed = cipher.seal(&key, &nonce, &aad, text);
    assert_eq!(sealed[..16].to_vec(), hex("d31a8d34648e60db7b86afbc53ef7ec2"));
    assert_eq!(sealed[text.len()..].to_vec(), hex("1ae10b594f09e26a7e902ecbd0600691"));
    assert_eq!(cipher.open(&key, &nonce, &aad, &sealed), Some(text.to_vec()));
}

/// Only what was sealed under the same key, nonce and associated data opens.
#[test]
fn what_was_tampered_with_does_not_open() {
    for cipher in [AeadCipher::Aes128Gcm, AeadCipher::Aes192Gcm, AeadCipher::Aes256Gcm, AeadCipher::ChaCha20Poly1305] {
        let key = match cipher {
            AeadCipher::Aes128Gcm => vec![1; 16],
            AeadCipher::Aes192Gcm => vec![1; 24],
            _ => vec![1; 32],
        };
        let sealed = cipher.seal(&key, &[2; 12], b"aad", b"plaintext");
        assert_eq!(cipher.open(&key, &[2; 12], b"aad", &sealed), Some(b"plaintext".to_vec()));
        assert_eq!(cipher.open(&key, &[3; 12], b"aad", &sealed), None);
        assert_eq!(cipher.open(&key, &[2; 12], b"aae", &sealed), None);
        let mut bad = sealed.clone();
        bad[0] ^= 1;
        assert_eq!(cipher.open(&key, &[2; 12], b"aad", &bad), None);
        assert_eq!(cipher.open(&key, &[2; 12], b"aad", &sealed[..15]), None);
    }
}

/// Values computed apart, by the ladder of RFC 7748.
#[test]
fn x25519_agrees_with_the_ladder() {
    let (a, b) = (hex("77076d0a7318a57d3c16c17251b26645000102030405060708090a0b0c0d0e0f"), hex("6465666768696a6b6c6d6e6f707172737475767778797a7b7c7d7e7f80818283"));
    let group = DhGroup::X25519;
    assert_eq!(group.public(&a), hex("6290adba725c5dae2b49c18a68dc1ba289e4b0fdda5046690fb25a344856284c"));
    assert_eq!(group.public(&b), hex("7d9c24316539825c1896e57f28197746793ce60cbee3ad47da9d07b85fa55e2a"));
    let shared = hex("24c82cb46e212e11b1b87cfe506700c13d723228b07afcf6ab72bae39753d21a");
    assert_eq!(group.shared(&a, &group.public(&b)), Ok(shared.clone()));
    assert_eq!(group.shared(&b, &group.public(&a)), Ok(shared));
    // A point of small order shares nothing.
    assert!(group.shared(&a, &[0; 32]).is_err());
    assert!(group.shared(&a, &[9; 31]).is_err());
}

/// The generator, and a multiple and a shared secret computed apart.
#[test]
fn elliptic_curve_groups_agree_with_values_computed_apart() {
    let mut one = [0; 32];
    one[31] = 1;
    for (group, generator, public, shared) in [
        (
            DhGroup::EcpP256,
            "6b17d1f2e12c4247f8bce6e563a440f277037d812deb33a0f4a13945d898c2964fe342e2fe1a7f9b8ee7eb4a7c0f9e162bce33576b315ececbb6406837bf51f5",
            "515c3d6eb9e396b904d3feca7f54fdcd0cc1e997bf375dca515ad0a6c3b4035f4536be3a50f318fbf9a5475902a221502bef0d57e08c53b2cc0a56f17d9f9354",
            "f6c11301ea720cacd01b47f1ddd8554a4347e94ef8ddbae11c6ad144d8f6cf34",
        ),
        (
            DhGroup::EcpP384,
            "aa87ca22be8b05378eb1c71ef320ad746e1d3b628ba79b9859f741e082542a385502f25dbf55296c3a545e3872760ab73617de4a96262c6f5d9e98bf9292dc29f8f41dbd289a147ce9da3113b5f0b8c00a60b1ce1d7e819d7a431d7c90ea0e5f",
            "296c3d1d24dccb590cc088dd0ceac0ea300e7f9f374cfee3e0a4a5f63914639d443cfd0807c93cf68c8a391a9fc6c7c29b7cce76a601ae669a34c8d81a83b0b6b06818db9aaa457dce1f5b201a9319e63373e50c46a6b2f98ada239344148357",
            "60c3b88e17449afcefa7a654ca5ddcd2b0df184168c6079500682ca5df3f14c9d31b97eb007cec4428e395cdffdfcf00",
        ),
        (
            DhGroup::EcpP521,
            "00c6858e06b70404e9cd9e3ecb662395b4429c648139053fb521f828af606b4d3dbaa14b5e77efe75928fe1dc127a2ffa8de3348b3c1856a429bf97e7e31c2e5bd66011839296a789a3bc0045c8a5fb42c7d1bd998f54449579b446817afbd17273e662c97ee72995ef42640c550b9013fad0761353c7086a272c24088be94769fd16650",
            "00e0cc20a810bd546bef70c86a146a580bedebc7c26a89674de52eb8c6b95ab25e149f3c99a437f91dfaf13d3d82b3aae1f0a2c08d9112c0ef4defb099b87562b61001fb28728578fbf97491819b8b6b25da2826a352605ed26eb0abfb84116560177f7887b327dd4d7d8df6f98d50e86e355db3e81ace9ebfba8a3417ee13f94c608f67",
            "01e6d368b35e94a91bf2d7b65608447a5794aff65cf2589b64db569d26855ccfe3141e3cbe1bf4d56e42397d97be9938fdddff134dfbdde6a92c8b5e29a3f05134e2",
        ),
    ] {
        assert_eq!(group.public(&one), hex(generator), "{group:?}");
        let (a, b) = (hex("0102030405060708090a0b0c0d0e0f101112131415161718191a1b1c1d1e1f20"), hex("28292a2b2c2d2e2f303132333435363738393a3b3c3d3e3f4041424344454647"));
        assert_eq!(group.public(&a), hex(public), "{group:?}");
        assert_eq!(group.public_len(), hex(public).len());
        assert_eq!(group.shared(&b, &hex(public)), Ok(hex(shared)), "{group:?}");
        assert_eq!(group.shared(&a, &group.public(&b)), Ok(hex(shared)), "{group:?}");
        // Not a point of the curve, and not of its length.
        let mut off = hex(public);
        let last = off.len() - 1;
        off[last] ^= 1;
        assert!(group.shared(&b, &off).is_err(), "{group:?}");
        assert!(group.shared(&b, &hex(public)[1..]).is_err(), "{group:?}");
    }
}

#[test]
fn modp_groups_raise_two() {
    let mut five = [0; 32];
    five[31] = 5;
    for group in [
        DhGroup::Modp768,
        DhGroup::Modp1024,
        DhGroup::Modp1536,
        DhGroup::Modp2048,
        DhGroup::Modp3072,
        DhGroup::Modp4096,
        DhGroup::Modp6144,
        DhGroup::Modp8192,
    ] {
        let len = group.public_len();
        let mut expected = vec![0; len];
        expected[len - 1] = 32;
        assert_eq!(group.public(&five), expected, "{group:?}");
        assert_eq!(DhGroup::from_transform_id(group.transform_id()), Some(group));
        // Public values that share nothing: zero, one, and one below the prime.
        let mut peer = vec![0; len];
        assert!(group.shared(&five, &peer).is_err(), "{group:?}");
        peer[len - 1] = 1;
        assert!(group.shared(&five, &peer).is_err(), "{group:?}");
        peer[len - 1] = 2;
        assert_eq!(group.shared(&five, &peer), Ok(expected), "{group:?}");
        assert!(group.shared(&five, &vec![0xff; len]).is_err(), "{group:?}");
        assert!(group.shared(&five, &peer[1..]).is_err(), "{group:?}");
    }
}

#[test]
fn modp_1024_agrees_both_ways() {
    let (a, b) = ([0x5a; 32], [0xa5; 32]);
    let group = DhGroup::Modp1024;
    let shared = group.shared(&a, &group.public(&b)).unwrap();
    assert_eq!(group.shared(&b, &group.public(&a)), Ok(shared.clone()));
    assert_eq!(shared.len(), 128);
}

#[test]
fn numbers_of_octets() {
    assert_eq!(power_modulo(&[3], &[5], &[7]), vec![5]);
    assert_eq!(power_modulo(&[2], &[8], &[1, 1]), vec![1, 0]);
    assert_eq!(power_modulo(&[0], &[0], &[0, 9]), vec![0, 1]);
    assert!(below(&[0, 9], &[1, 0]) && !below(&[1, 0], &[1, 0]) && !below(&[1, 1], &[1, 0]));
}

/// RFC 7296 section 2.14: SKEYSEED is keyed with the nonces, and the keys are
/// cut from one stream in order; section 2.18 keys it with the old SK_d instead.
#[test]
fn session_keys_are_cut_from_one_stream() {
    let lengths = KeyLengths { prf: 32, integ: 16, encr: 20 };
    let (ni, nr, secret) = ([1u8; 16], [2u8; 16], [3u8; 32]);
    let keys = derive_session_keys(PrfAlgorithm::Sha256, &secret, &ni, &nr, 5, 6, lengths);
    let nonces = [ni, nr].concat();
    let seed = [&nonces[..], &5u64.to_be_bytes(), &6u64.to_be_bytes()].concat();
    let cut = |skeyseed: &[u8]| prf_plus(PrfAlgorithm::Sha256, skeyseed, &seed, 32 + 2 * 16 + 2 * 20 + 2 * 32);
    let stream = cut(&prf(PrfAlgorithm::Sha256, &nonces, &secret));
    let parts = [&keys.sk_d, &keys.sk_ai, &keys.sk_ar, &keys.sk_ei, &keys.sk_er, &keys.sk_pi, &keys.sk_pr];
    assert_eq!(parts.map(|part| part.len()), [32, 16, 16, 20, 20, 32, 32]);
    assert_eq!(parts.map(|part| part.clone()).concat(), stream);

    let rekeyed = derive_rekey_session_keys(PrfAlgorithm::Sha256, &keys.sk_d, &secret, &ni, &nr, 5, 6, lengths);
    let stream = cut(&prf(PrfAlgorithm::Sha256, &keys.sk_d, &[&secret[..], &nonces].concat()));
    assert_eq!(rekeyed.sk_d, stream[..32].to_vec());
    assert_eq!(rekeyed.sk_pr, stream[stream.len() - 32..].to_vec());
}

/// Lengths that a group does not have are refused as such.
#[test]
fn a_public_value_of_the_wrong_length_is_a_bad_key_exchange() {
    for group in [DhGroup::X25519, DhGroup::EcpP256, DhGroup::Modp2048] {
        let expected = IkeError::BadKeyExchange { group: group.transform_id(), len: 7 };
        assert_eq!(group.shared(&[1; 32], &[4; 7]), Err(expected), "{group:?}");
    }
}
