//! Authenticated encryption with associated data (RFC 5282, RFC 7634).

use vstd::prelude::*;

use crate::bytes;
use aes_gcm::aead::{Aead, KeyInit, Payload};

verus! {

/// The AEAD ciphers an SK payload may be sealed with. All take a 12-octet nonce
/// and append a 16-octet tag.
#[derive(Debug, Clone, Copy, PartialEq, Eq, Structural)]
pub enum AeadCipher {
    Aes128Gcm,
    Aes192Gcm,
    Aes256Gcm,
    ChaCha20Poly1305,
}

/// What AES-128-GCM seals: the ciphertext, then the tag.
pub uninterp spec fn aes128_gcm_sealed(key: Seq<u8>, nonce: Seq<u8>, aad: Seq<u8>, plaintext: Seq<u8>) -> Seq<u8>;

/// What AES-192-GCM seals: the ciphertext, then the tag.
pub uninterp spec fn aes192_gcm_sealed(key: Seq<u8>, nonce: Seq<u8>, aad: Seq<u8>, plaintext: Seq<u8>) -> Seq<u8>;

/// What AES-256-GCM seals: the ciphertext, then the tag.
pub uninterp spec fn aes256_gcm_sealed(key: Seq<u8>, nonce: Seq<u8>, aad: Seq<u8>, plaintext: Seq<u8>) -> Seq<u8>;

/// What ChaCha20-Poly1305 seals: the ciphertext, then the tag.
pub uninterp spec fn chacha20_poly1305_sealed(key: Seq<u8>, nonce: Seq<u8>, aad: Seq<u8>, plaintext: Seq<u8>) -> Seq<u8>;

/// The most octets a plaintext, its associated data or what is sealed may have:
/// what all the ciphers take, short of 2^36.
pub const MAX_LEN: u64 = 0xF_FFFF_FFC0;

/// Whether `s` is no longer than every cipher takes.
pub open spec fn within_limit(s: Seq<u8>) -> bool {
    s.len() <= MAX_LEN
}

/// The first `len` octets of `s`.
pub open spec fn cut_to(s: Seq<u8>, len: nat) -> Seq<u8> {
    Seq::new(len, |i: int| s[i])
}

/// `aes_gcm::Aes128Gcm::encrypt`, whose result depends on its arguments alone and
/// is 16 octets longer than the plaintext. It fails only beyond the limit.
#[verifier::external_body]
fn aes128_gcm_seal(key: &[u8], nonce: &[u8], aad: &[u8], plaintext: &[u8]) -> (sealed: Vec<u8>)
    requires
        key@.len() == 16,
        nonce@.len() == 12,
        within_limit(aad@),
        within_limit(plaintext@),
    ensures
        sealed@ == aes128_gcm_sealed(key@, nonce@, aad@, plaintext@),
        sealed@.len() == plaintext@.len() + 16,
{
    let cipher = aes_gcm::Aes128Gcm::new_from_slice(key).unwrap();
    cipher.encrypt(nonce.into(), Payload { msg: plaintext, aad }).unwrap()
}

/// `aes_gcm::Aes128Gcm::decrypt`: the one plaintext that seals to `sealed`, or
/// `None` when there is none. A keystream of the key and the nonce alone is what
/// enciphers, so the octets before the tag belong to one plaintext.
#[verifier::external_body]
fn aes128_gcm_open(key: &[u8], nonce: &[u8], aad: &[u8], sealed: &[u8]) -> (plaintext: Option<Vec<u8>>)
    requires
        key@.len() == 16,
        nonce@.len() == 12,
        within_limit(aad@),
        within_limit(sealed@),
    ensures
        match plaintext {
            Some(opened) => {
                &&& opened@.len() + 16 == sealed@.len()
                &&& aes128_gcm_sealed(key@, nonce@, aad@, opened@) == sealed@
                &&& forall|other: Seq<u8>|
                    other.len() + 16 == sealed@.len() && cut_to(
                        #[trigger] aes128_gcm_sealed(key@, nonce@, aad@, other),
                        other.len(),
                    ) == cut_to(sealed@, other.len()) ==> other == opened@
            },
            None => forall|other: Seq<u8>|
                other.len() + 16 == sealed@.len() ==> cut_to(
                    #[trigger] aes128_gcm_sealed(key@, nonce@, aad@, other),
                    sealed@.len(),
                ) != sealed@,
        },
{
    let cipher = aes_gcm::Aes128Gcm::new_from_slice(key).unwrap();
    cipher.decrypt(nonce.into(), Payload { msg: sealed, aad }).ok()
}

/// `aes_gcm::AesGcm<Aes192, U12>::encrypt`, whose result depends on its arguments alone and
/// is 16 octets longer than the plaintext. It fails only beyond the limit.
#[verifier::external_body]
fn aes192_gcm_seal(key: &[u8], nonce: &[u8], aad: &[u8], plaintext: &[u8]) -> (sealed: Vec<u8>)
    requires
        key@.len() == 24,
        nonce@.len() == 12,
        within_limit(aad@),
        within_limit(plaintext@),
    ensures
        sealed@ == aes192_gcm_sealed(key@, nonce@, aad@, plaintext@),
        sealed@.len() == plaintext@.len() + 16,
{
    let cipher = aes_gcm::AesGcm::<aes_gcm::aes::Aes192, aes_gcm::aead::consts::U12>::new_from_slice(key).unwrap();
    cipher.encrypt(nonce.into(), Payload { msg: plaintext, aad }).unwrap()
}

/// `aes_gcm::AesGcm<Aes192, U12>::decrypt`: the one plaintext that seals to `sealed`, or
/// `None` when there is none. A keystream of the key and the nonce alone is what
/// enciphers, so the octets before the tag belong to one plaintext.
#[verifier::external_body]
fn aes192_gcm_open(key: &[u8], nonce: &[u8], aad: &[u8], sealed: &[u8]) -> (plaintext: Option<Vec<u8>>)
    requires
        key@.len() == 24,
        nonce@.len() == 12,
        within_limit(aad@),
        within_limit(sealed@),
    ensures
        match plaintext {
            Some(opened) => {
                &&& opened@.len() + 16 == sealed@.len()
                &&& aes192_gcm_sealed(key@, nonce@, aad@, opened@) == sealed@
                &&& forall|other: Seq<u8>|
                    other.len() + 16 == sealed@.len() && cut_to(
                        #[trigger] aes192_gcm_sealed(key@, nonce@, aad@, other),
                        other.len(),
                    ) == cut_to(sealed@, other.len()) ==> other == opened@
            },
            None => forall|other: Seq<u8>|
                other.len() + 16 == sealed@.len() ==> cut_to(
                    #[trigger] aes192_gcm_sealed(key@, nonce@, aad@, other),
                    sealed@.len(),
                ) != sealed@,
        },
{
    let cipher = aes_gcm::AesGcm::<aes_gcm::aes::Aes192, aes_gcm::aead::consts::U12>::new_from_slice(key).unwrap();
    cipher.decrypt(nonce.into(), Payload { msg: sealed, aad }).ok()
}

/// `aes_gcm::Aes256Gcm::encrypt`, whose result depends on its arguments alone and
/// is 16 octets longer than the plaintext. It fails only beyond the limit.
#[verifier::external_body]
fn aes256_gcm_seal(key: &[u8], nonce: &[u8], aad: &[u8], plaintext: &[u8]) -> (sealed: Vec<u8>)
    requires
        key@.len() == 32,
        nonce@.len() == 12,
        within_limit(aad@),
        within_limit(plaintext@),
    ensures
        sealed@ == aes256_gcm_sealed(key@, nonce@, aad@, plaintext@),
        sealed@.len() == plaintext@.len() + 16,
{
    let cipher = aes_gcm::Aes256Gcm::new_from_slice(key).unwrap();
    cipher.encrypt(nonce.into(), Payload { msg: plaintext, aad }).unwrap()
}

/// `aes_gcm::Aes256Gcm::decrypt`: the one plaintext that seals to `sealed`, or
/// `None` when there is none. A keystream of the key and the nonce alone is what
/// enciphers, so the octets before the tag belong to one plaintext.
#[verifier::external_body]
fn aes256_gcm_open(key: &[u8], nonce: &[u8], aad: &[u8], sealed: &[u8]) -> (plaintext: Option<Vec<u8>>)
    requires
        key@.len() == 32,
        nonce@.len() == 12,
        within_limit(aad@),
        within_limit(sealed@),
    ensures
        match plaintext {
            Some(opened) => {
                &&& opened@.len() + 16 == sealed@.len()
                &&& aes256_gcm_sealed(key@, nonce@, aad@, opened@) == sealed@
                &&& forall|other: Seq<u8>|
                    other.len() + 16 == sealed@.len() && cut_to(
                        #[trigger] aes256_gcm_sealed(key@, nonce@, aad@, other),
                        other.len(),
                    ) == cut_to(sealed@, other.len()) ==> other == opened@
            },
            None => forall|other: Seq<u8>|
                other.len() + 16 == sealed@.len() ==> cut_to(
                    #[trigger] aes256_gcm_sealed(key@, nonce@, aad@, other),
                    sealed@.len(),
                ) != sealed@,
        },
{
    let cipher = aes_gcm::Aes256Gcm::new_from_slice(key).unwrap();
    cipher.decrypt(nonce.into(), Payload { msg: sealed, aad }).ok()
}

/// `chacha20poly1305::ChaCha20Poly1305::encrypt`, whose result depends on its arguments alone and
/// is 16 octets longer than the plaintext. It fails only beyond the limit.
#[verifier::external_body]
fn chacha20_poly1305_seal(key: &[u8], nonce: &[u8], aad: &[u8], plaintext: &[u8]) -> (sealed: Vec<u8>)
    requires
        key@.len() == 32,
        nonce@.len() == 12,
        within_limit(aad@),
        within_limit(plaintext@),
    ensures
        sealed@ == chacha20_poly1305_sealed(key@, nonce@, aad@, plaintext@),
        sealed@.len() == plaintext@.len() + 16,
{
    let cipher = chacha20poly1305::ChaCha20Poly1305::new_from_slice(key).unwrap();
    cipher.encrypt(nonce.into(), Payload { msg: plaintext, aad }).unwrap()
}

/// `chacha20poly1305::ChaCha20Poly1305::decrypt`: the one plaintext that seals to `sealed`, or
/// `None` when there is none. A keystream of the key and the nonce alone is what
/// enciphers, so the octets before the tag belong to one plaintext.
#[verifier::external_body]
fn chacha20_poly1305_open(key: &[u8], nonce: &[u8], aad: &[u8], sealed: &[u8]) -> (plaintext: Option<Vec<u8>>)
    requires
        key@.len() == 32,
        nonce@.len() == 12,
        within_limit(aad@),
        within_limit(sealed@),
    ensures
        match plaintext {
            Some(opened) => {
                &&& opened@.len() + 16 == sealed@.len()
                &&& chacha20_poly1305_sealed(key@, nonce@, aad@, opened@) == sealed@
                &&& forall|other: Seq<u8>|
                    other.len() + 16 == sealed@.len() && cut_to(
                        #[trigger] chacha20_poly1305_sealed(key@, nonce@, aad@, other),
                        other.len(),
                    ) == cut_to(sealed@, other.len()) ==> other == opened@
            },
            None => forall|other: Seq<u8>|
                other.len() + 16 == sealed@.len() ==> cut_to(
                    #[trigger] chacha20_poly1305_sealed(key@, nonce@, aad@, other),
                    sealed@.len(),
                ) != sealed@,
        },
{
    let cipher = chacha20poly1305::ChaCha20Poly1305::new_from_slice(key).unwrap();
    cipher.decrypt(nonce.into(), Payload { msg: sealed, aad }).ok()
}

impl AeadCipher {
    /// The length of the key in octets.
    pub open spec fn key_size(self) -> nat {
        match self {
            AeadCipher::Aes128Gcm => 16,
            AeadCipher::Aes192Gcm => 24,
            AeadCipher::Aes256Gcm => 32,
            AeadCipher::ChaCha20Poly1305 => 32,
        }
    }

    /// What this cipher seals: the ciphertext, then the tag.
    pub open spec fn sealed(
        self,
        key: Seq<u8>,
        nonce: Seq<u8>,
        aad: Seq<u8>,
        plaintext: Seq<u8>,
    ) -> Seq<u8> {
        match self {
            AeadCipher::Aes128Gcm => cut_to(aes128_gcm_sealed(key, nonce, aad, plaintext), plaintext.len() + 16),
            AeadCipher::Aes192Gcm => cut_to(aes192_gcm_sealed(key, nonce, aad, plaintext), plaintext.len() + 16),
            AeadCipher::Aes256Gcm => cut_to(aes256_gcm_sealed(key, nonce, aad, plaintext), plaintext.len() + 16),
            AeadCipher::ChaCha20Poly1305 => cut_to(chacha20_poly1305_sealed(key, nonce, aad, plaintext), plaintext.len() + 16),
        }
    }

    /// Whether `plaintext` is what `sealed` seals.
    pub open spec fn opens(
        self,
        key: Seq<u8>,
        nonce: Seq<u8>,
        aad: Seq<u8>,
        sealed: Seq<u8>,
        plaintext: Seq<u8>,
    ) -> bool {
        plaintext.len() + 16 == sealed.len() && self.sealed(key, nonce, aad, plaintext) == sealed
    }

    /// Seal `plaintext`, authenticating `aad` with it.
    pub fn seal(self, key: &[u8], nonce: &[u8], aad: &[u8], plaintext: &[u8]) -> (sealed: Vec<u8>)
        requires
            key@.len() == self.key_size(),
            nonce@.len() == 12,
            within_limit(aad@),
            within_limit(plaintext@),
        ensures
            sealed@ == self.sealed(key@, nonce@, aad@, plaintext@),
            sealed@.len() == plaintext@.len() + 16,
    {
        assert forall|s: Seq<u8>| s.len() == plaintext@.len() + 16 implies #[trigger] cut_to(s, s.len()) == s by {
            assert(cut_to(s, s.len()) =~= s);
        }
        match self {
            AeadCipher::Aes128Gcm => aes128_gcm_seal(key, nonce, aad, plaintext),
            AeadCipher::Aes192Gcm => aes192_gcm_seal(key, nonce, aad, plaintext),
            AeadCipher::Aes256Gcm => aes256_gcm_seal(key, nonce, aad, plaintext),
            AeadCipher::ChaCha20Poly1305 => chacha20_poly1305_seal(key, nonce, aad, plaintext),
        }
    }

    /// Open what was sealed with `aad`: the one plaintext that seals to it.
    pub fn open(self, key: &[u8], nonce: &[u8], aad: &[u8], sealed: &[u8]) -> (plaintext: Option<Vec<u8>>)
        requires
            key@.len() == self.key_size(),
            nonce@.len() == 12,
            within_limit(aad@),
            within_limit(sealed@),
        ensures
            plaintext matches Some(opened) ==> self.opens(key@, nonce@, aad@, sealed@, opened@),
            forall|other: Seq<u8>| #[trigger]
                self.opens(key@, nonce@, aad@, sealed@, other) ==> plaintext is Some && plaintext->0@ == other,
            forall|other: Seq<u8>|
                bytes::altered(sealed@, #[trigger] self.sealed(key@, nonce@, aad@, other), 16) ==> plaintext is None,
    {
        let plaintext = match self {
            AeadCipher::Aes128Gcm => aes128_gcm_open(key, nonce, aad, sealed),
            AeadCipher::Aes192Gcm => aes192_gcm_open(key, nonce, aad, sealed),
            AeadCipher::Aes256Gcm => aes256_gcm_open(key, nonce, aad, sealed),
            AeadCipher::ChaCha20Poly1305 => chacha20_poly1305_open(key, nonce, aad, sealed),
        };
        proof {
            assert(cut_to(sealed@, sealed@.len()) =~= sealed@);
            assert forall|other: Seq<u8>|
                other.len() + 16 == sealed@.len() && (#[trigger] self.sealed(key@, nonce@, aad@, other)).take(
                    other.len() as int,
                ) == sealed@.take(other.len() as int) && plaintext is Some implies other == plaintext->0@ by {
                let uncut = match self {
                    AeadCipher::Aes128Gcm => aes128_gcm_sealed(key@, nonce@, aad@, other),
                    AeadCipher::Aes192Gcm => aes192_gcm_sealed(key@, nonce@, aad@, other),
                    AeadCipher::Aes256Gcm => aes256_gcm_sealed(key@, nonce@, aad@, other),
                    AeadCipher::ChaCha20Poly1305 => chacha20_poly1305_sealed(key@, nonce@, aad@, other),
                };
                assert(cut_to(uncut, other.len()) =~= self.sealed(key@, nonce@, aad@, other).take(other.len() as int));
                assert(cut_to(sealed@, other.len()) =~= sealed@.take(other.len() as int));
            }
        }
        plaintext
    }
}

} // verus!
