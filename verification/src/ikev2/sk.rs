//! The SK (Encrypted and Authenticated) payload (RFC 7296 §3.14), under an AEAD
//! cipher (RFC 5282, RFC 7634) or a classic one with a separate integrity key.
//!
//! - **AEAD**: body on the wire = IV(8) ‖ ciphertext ‖ tag. AAD = IKE header ‖
//!   SK generic header (everything before the IV).
//! - **Classic**: body on the wire = IV(block size) ‖ CBC ciphertext ‖ ICV, the
//!   ICV covering everything before itself.

use vstd::prelude::*;

use crate::bytes;
use crate::crypto::aead::AeadCipher;
use crate::crypto::block;
use crate::crypto::block::BlockCipher;
use crate::crypto::IntegAlgorithm;
use crate::error::{viewed, Failure, IkeError};
use crate::ikev2::message;
use crate::ikev2::message::{IkeHeader, PayloadType};
use crate::ikev2::negotiate::ChosenSuite;
use crate::ikev2::payload::transform_id;

verus! {

broadcast use {crate::bytes::group_lengths, crate::ikev2::message::lemma_header_len};

/// The ciphers an SK payload may be protected with; a classic one together
/// with its integrity algorithm.
#[derive(Debug, Clone, Copy, PartialEq, Eq, Structural)]
pub enum SkCipher {
    Aes128Gcm,
    Aes192Gcm,
    Aes256Gcm,
    ChaCha20Poly1305,
    TripleDesCbc(IntegAlgorithm),
    Aes128Cbc(IntegAlgorithm),
    Aes192Cbc(IntegAlgorithm),
    Aes256Cbc(IntegAlgorithm),
}

impl SkCipher {
    /// The AEAD cipher this is, if it is one.
    pub open spec fn aead(self) -> Option<AeadCipher> {
        match self {
            SkCipher::Aes128Gcm => Some(AeadCipher::Aes128Gcm),
            SkCipher::Aes192Gcm => Some(AeadCipher::Aes192Gcm),
            SkCipher::Aes256Gcm => Some(AeadCipher::Aes256Gcm),
            SkCipher::ChaCha20Poly1305 => Some(AeadCipher::ChaCha20Poly1305),
            _ => None,
        }
    }

    /// The block cipher of a classic cipher.
    pub open spec fn classic(self) -> BlockCipher {
        match self {
            SkCipher::TripleDesCbc(_) => BlockCipher::TripleDes,
            SkCipher::Aes128Cbc(_) => BlockCipher::Aes128,
            SkCipher::Aes192Cbc(_) => BlockCipher::Aes192,
            _ => BlockCipher::Aes256,
        }
    }

    /// The separate integrity algorithm of a classic cipher.
    pub open spec fn integ(self) -> Option<IntegAlgorithm> {
        match self {
            SkCipher::TripleDesCbc(integ) => Some(integ),
            SkCipher::Aes128Cbc(integ) => Some(integ),
            SkCipher::Aes192Cbc(integ) => Some(integ),
            SkCipher::Aes256Cbc(integ) => Some(integ),
            _ => None,
        }
    }

    /// The length of the cipher's key in octets, without a salt.
    pub open spec fn key_size(self) -> nat {
        match self.aead() {
            Some(aead) => aead.key_size(),
            None => self.classic().key_size(),
        }
    }

    /// The length of the salt that follows the key of an AEAD cipher.
    pub open spec fn salt_size(self) -> nat {
        if self.aead() is Some {
            4
        } else {
            0
        }
    }

    /// The length of the tag or integrity check value in octets.
    pub open spec fn icv_size(self) -> nat {
        match self.integ() {
            Some(integ) => integ.icv_size(),
            None => 16,
        }
    }

    /// The cipher that an encryption transform, its key length in bits and an
    /// integrity transform name together. A combined-mode cipher has no
    /// integrity algorithm, or the one that names none.
    pub open spec fn named(encr_id: u16, key_bits: u16, integ_id: Option<u16>) -> Option<SkCipher> {
        if integ_id is None || integ_id == Some(transform_id::INTEG_NONE) {
            if encr_id == transform_id::AES_GCM_16 && key_bits == 128 {
                Some(SkCipher::Aes128Gcm)
            } else if encr_id == transform_id::AES_GCM_16 && key_bits == 192 {
                Some(SkCipher::Aes192Gcm)
            } else if encr_id == transform_id::AES_GCM_16 && key_bits == 256 {
                Some(SkCipher::Aes256Gcm)
            } else if encr_id == transform_id::CHACHA20_POLY1305 && key_bits == 256 {
                Some(SkCipher::ChaCha20Poly1305)
            } else {
                None
            }
        } else {
            match IntegAlgorithm::named(integ_id->0) {
                None => None,
                Some(integ) => if encr_id == transform_id::TRIPLE_DES && key_bits == 192 {
                    Some(SkCipher::TripleDesCbc(integ))
                } else if encr_id == transform_id::AES_CBC && key_bits == 128 {
                    Some(SkCipher::Aes128Cbc(integ))
                } else if encr_id == transform_id::AES_CBC && key_bits == 192 {
                    Some(SkCipher::Aes192Cbc(integ))
                } else if encr_id == transform_id::AES_CBC && key_bits == 256 {
                    Some(SkCipher::Aes256Cbc(integ))
                } else {
                    None
                },
            }
        }
    }

    /// The cipher that an encryption transform, its key length in bits and an
    /// integrity transform name together.
    pub fn from_encr_integ(encr_id: u16, key_bits: u16, integ_id: Option<u16>) -> (cipher: Option<SkCipher>)
        ensures
            cipher == Self::named(encr_id, key_bits, integ_id),
    {
        let integ = match integ_id {
            Some(id) if id != transform_id::INTEG_NONE => match IntegAlgorithm::from_transform_id(id) {
                Some(integ) => integ,
                None => {
                    return None;
                },
            },
            _ => {
                return match (encr_id, key_bits) {
                    (transform_id::AES_GCM_16, 128) => Some(SkCipher::Aes128Gcm),
                    (transform_id::AES_GCM_16, 192) => Some(SkCipher::Aes192Gcm),
                    (transform_id::AES_GCM_16, 256) => Some(SkCipher::Aes256Gcm),
                    (transform_id::CHACHA20_POLY1305, 256) => Some(SkCipher::ChaCha20Poly1305),
                    _ => None,
                };
            },
        };
        match (encr_id, key_bits) {
            (transform_id::TRIPLE_DES, 192) => Some(SkCipher::TripleDesCbc(integ)),
            (transform_id::AES_CBC, 128) => Some(SkCipher::Aes128Cbc(integ)),
            (transform_id::AES_CBC, 192) => Some(SkCipher::Aes192Cbc(integ)),
            (transform_id::AES_CBC, 256) => Some(SkCipher::Aes256Cbc(integ)),
            _ => None,
        }
    }

    /// The cipher of a negotiated suite.
    pub fn from_chosen_suite(suite: &ChosenSuite) -> (cipher: Option<SkCipher>)
        ensures
            cipher == Self::named(suite.encr_id, suite.encr_key_bits, suite.integ_id),
    {
        Self::from_encr_integ(suite.encr_id, suite.encr_key_bits, suite.integ_id)
    }

    /// Whether this is an AEAD cipher.
    pub fn is_aead(self) -> (aead: bool)
        ensures
            aead == (self.aead() is Some),
    {
        matches!(
            self,
            SkCipher::Aes128Gcm | SkCipher::Aes192Gcm | SkCipher::Aes256Gcm | SkCipher::ChaCha20Poly1305
        )
    }

    /// The AEAD cipher this is, if it is one.
    pub fn aead_cipher(self) -> (aead: Option<AeadCipher>)
        ensures
            aead == self.aead(),
    {
        match self {
            SkCipher::Aes128Gcm => Some(AeadCipher::Aes128Gcm),
            SkCipher::Aes192Gcm => Some(AeadCipher::Aes192Gcm),
            SkCipher::Aes256Gcm => Some(AeadCipher::Aes256Gcm),
            SkCipher::ChaCha20Poly1305 => Some(AeadCipher::ChaCha20Poly1305),
            _ => None,
        }
    }

    /// The block cipher of a classic cipher.
    pub fn block_cipher(self) -> (cipher: BlockCipher)
        ensures
            cipher == self.classic(),
    {
        match self {
            SkCipher::TripleDesCbc(_) => BlockCipher::TripleDes,
            SkCipher::Aes128Cbc(_) => BlockCipher::Aes128,
            SkCipher::Aes192Cbc(_) => BlockCipher::Aes192,
            _ => BlockCipher::Aes256,
        }
    }

    /// The separate integrity algorithm of a classic cipher.
    pub fn integ_algorithm(self) -> (integ: Option<IntegAlgorithm>)
        ensures
            integ == self.integ(),
    {
        match self {
            SkCipher::TripleDesCbc(integ) => Some(integ),
            SkCipher::Aes128Cbc(integ) => Some(integ),
            SkCipher::Aes192Cbc(integ) => Some(integ),
            SkCipher::Aes256Cbc(integ) => Some(integ),
            _ => None,
        }
    }

    /// The length of the cipher's key in octets, without a salt.
    pub fn key_len(self) -> (len: usize)
        ensures
            len == self.key_size(),
    {
        match self {
            SkCipher::Aes128Gcm | SkCipher::Aes128Cbc(_) => 16,
            SkCipher::Aes192Gcm | SkCipher::Aes192Cbc(_) | SkCipher::TripleDesCbc(_) => 24,
            SkCipher::Aes256Gcm | SkCipher::Aes256Cbc(_) | SkCipher::ChaCha20Poly1305 => 32,
        }
    }

    /// The length of the salt that follows the key of an AEAD cipher.
    pub fn salt_len(self) -> (len: usize)
        ensures
            len == self.salt_size(),
    {
        if self.is_aead() {
            4
        } else {
            0
        }
    }

    /// The length of the tag or integrity check value in octets.
    pub fn icv_len(self) -> (len: usize)
        ensures
            len == self.icv_size(),
    {
        match self.integ_algorithm() {
            Some(integ) => integ.icv_len(),
            None => 16,
        }
    }

    /// The length of a block of a classic cipher in octets.
    pub fn block_len(self) -> (len: usize)
        ensures
            len == self.classic().block_size(),
    {
        self.block_cipher().block_len()
    }
}

/// The length of the IV that opens the protected part, in octets.
pub open spec fn iv_size(cipher: SkCipher) -> nat {
    if cipher.aead() is Some {
        8
    } else {
        cipher.classic().block_size()
    }
}

/// How many octets of padding `len` octets of content get: none under an AEAD
/// cipher, and under a classic one as many as make a whole number of blocks
/// with the Pad Length octet.
pub open spec fn pad_size(cipher: SkCipher, len: nat) -> nat {
    if cipher.aead() is Some {
        0
    } else {
        if cipher.classic().block_size() == 8 {
            (7 - len % 8) as nat
        } else {
            (15 - len % 16) as nat
        }
    }
}

/// `content` with its padding and the Pad Length octet (RFC 7296 §3.14).
pub open spec fn padded(cipher: SkCipher, content: Seq<u8>) -> Seq<u8> {
    let pad = pad_size(cipher, content.len());
    content + bytes::zeros(pad) + seq![pad as u8]
}

/// How long the protected part of `len` octets of content is: IV, ciphertext
/// and tag or integrity check value.
pub open spec fn protected_size(cipher: SkCipher, len: nat) -> nat {
    iv_size(cipher) + len + pad_size(cipher, len) + 1 + cipher.icv_size()
}

/// The IV of a classic cipher: the seed, repeated up to the block size.
pub open spec fn expanded_iv(seed: Seq<u8>, block: nat) -> Seq<u8> {
    Seq::new(block, |i: int| seed[i % 8])
}

/// Whether `len` octets are this cipher's key and salt.
pub open spec fn key_fits_len(cipher: SkCipher, len: nat) -> bool {
    len == cipher.key_size() + cipher.salt_size()
}

/// Whether `sk_e` has the length of this cipher's key and salt.
pub open spec fn key_fits(cipher: SkCipher, sk_e: Seq<u8>) -> bool {
    key_fits_len(cipher, sk_e.len())
}

/// The nonce of an AEAD cipher: the salt behind the key, then the IV (RFC 5282 §4).
pub open spec fn nonce_of(cipher: SkCipher, sk_e: Seq<u8>, iv: Seq<u8>) -> Seq<u8> {
    sk_e.skip(cipher.key_size() as int) + iv
}

/// The protected part of a message: `content` under the cipher, with `prefix`,
/// everything before it in the message, authenticated too.
#[verifier::opaque]
pub open spec fn protected(
    cipher: SkCipher,
    sk_e: Seq<u8>,
    sk_a: Seq<u8>,
    prefix: Seq<u8>,
    seed: Seq<u8>,
    content: Seq<u8>,
) -> Seq<u8> {
    match cipher.aead() {
        Some(aead) => seed + aead.sealed(
            sk_e.take(cipher.key_size() as int),
            nonce_of(cipher, sk_e, seed),
            prefix,
            padded(cipher, content),
        ),
        None => {
            let iv = expanded_iv(seed, cipher.classic().block_size());
            let ciphertext = block::cbc_enciphered(cipher.classic(), sk_e, iv, padded(cipher, content));
            iv + ciphertext + cipher.integ().unwrap().icv(sk_a, prefix + iv + ciphertext)
        },
    }
}

/// The plaintext in `sealed`, an AEAD ciphertext with its tag.
pub open spec fn aead_plaintext(
    aead: AeadCipher,
    key: Seq<u8>,
    nonce: Seq<u8>,
    prefix: Seq<u8>,
    sealed: Seq<u8>,
) -> Result<Seq<u8>, Failure> {
    if exists|plaintext: Seq<u8>| #[trigger] aead.opens(key, nonce, prefix, sealed, plaintext) {
        Ok(choose|plaintext: Seq<u8>| #[trigger] aead.opens(key, nonce, prefix, sealed, plaintext))
    } else {
        Err(Failure::BadIntegrity)
    }
}

/// The plaintext, padding and all, that the protected part `body` holds.
#[verifier::opaque]
pub open spec fn unprotected(
    cipher: SkCipher,
    sk_e: Seq<u8>,
    sk_a: Seq<u8>,
    prefix: Seq<u8>,
    body: Seq<u8>,
) -> Result<Seq<u8>, Failure> {
    match cipher.aead() {
        Some(aead) => aead_plaintext(
            aead,
            sk_e.take(cipher.key_size() as int),
            nonce_of(cipher, sk_e, body.take(8)),
            prefix,
            body.skip(8),
        ),
        None => {
            let block = cipher.classic().block_size() as int;
            let end = body.len() - cipher.icv_size();
            let iv = body.take(block);
            let ciphertext = body.subrange(block, end);
            if ciphertext.len() == 0 || ciphertext.len() % (block as nat) != 0 {
                Err(Failure::Crypto("CBC ciphertext not block-aligned"@))
            } else if cipher.integ().unwrap().icv(sk_a, prefix + iv + ciphertext) != body.skip(end) {
                Err(Failure::BadIntegrity)
            } else if !key_fits(cipher, sk_e) {
                Err(Failure::Crypto("SK_e has the wrong length for the negotiated CBC cipher"@))
            } else {
                Ok(
                    choose|plaintext: Seq<u8>| #[trigger]
                        block::cbc_opens(cipher.classic(), sk_e, iv, ciphertext, plaintext),
                )
            }
        },
    }
}

/// Why content of this length cannot be sealed with `sk_e`, if it cannot.
pub open spec fn seal_failure(cipher: SkCipher, sk_e: Seq<u8>, content: Seq<u8>) -> Option<Failure> {
    if cipher.aead() is Some {
        if !key_fits(cipher, sk_e) {
            Some(Failure::Crypto("SK_e has the wrong length for the negotiated AEAD cipher"@))
        } else if !crate::crypto::aead::within_limit(padded(cipher, content)) {
            Some(Failure::Crypto("content too long for the negotiated AEAD cipher"@))
        } else {
            None
        }
    } else if !key_fits(cipher, sk_e) {
        Some(Failure::Crypto("SK_e has the wrong length for the negotiated CBC cipher"@))
    } else {
        None
    }
}

proof fn lemma_pad_size(cipher: SkCipher, len: nat)
    ensures
        pad_size(cipher, len) < 16,
        cipher.aead() is None ==> pad_size(cipher, len) < cipher.classic().block_size() && (len + pad_size(
            cipher,
            len,
        ) + 1) % cipher.classic().block_size() == 0,
{
    if cipher.aead() is None {
        if cipher.classic().block_size() == 8 {
            assert((len + (7 - len % 8) + 1) % 8 == 0);
        } else {
            assert((len + (15 - len % 16) + 1) % 16 == 0);
        }
    }
}

/// Longer content does not get a shorter plaintext, and fails to be sealed
/// wherever shorter content does.
pub proof fn lemma_padded_grows(cipher: SkCipher, short: Seq<u8>, long: Seq<u8>)
    requires
        short.len() <= long.len(),
    ensures
        padded(cipher, short).len() <= padded(cipher, long).len(),
        forall|sk_e: Seq<u8>|
            seal_failure(cipher, sk_e, short) is Some ==> #[trigger] seal_failure(cipher, sk_e, long)
                == seal_failure(cipher, sk_e, short),
{
    lemma_pad_size(cipher, short.len());
    lemma_pad_size(cipher, long.len());
    if cipher.aead() is None {
        let a = short.len() as int;
        let b = long.len() as int;
        if cipher.classic().block_size() == 8 {
            assert(a + (7 - a % 8) <= b + (7 - b % 8));
        } else {
            assert(a + (15 - a % 16) <= b + (15 - b % 16));
        }
    }
}

/// How long a protected part is.
pub proof fn lemma_protected_len(
    cipher: SkCipher,
    sk_e: Seq<u8>,
    sk_a: Seq<u8>,
    prefix: Seq<u8>,
    seed: Seq<u8>,
    content: Seq<u8>,
)
    requires
        seed.len() == 8,
    ensures
        protected(cipher, sk_e, sk_a, prefix, seed, content).len() == protected_size(cipher, content.len()),
{
    reveal(protected);
    if cipher.aead() is None {
        lemma_pad_size(cipher, content.len());
        let iv = expanded_iv(seed, cipher.classic().block_size());
        block::lemma_cbc_len(cipher.classic(), sk_e, iv, padded(cipher, content));
    }
}

/// Append `content` with its padding and the Pad Length octet.
fn pad(cipher: SkCipher, content: &[u8]) -> (plaintext: Vec<u8>)
    ensures
        plaintext@ == padded(cipher, content@),
{
    let mut plaintext = bytes::copy(content);
    let count: usize = pad_len(cipher, content.len());
    bytes::push_zeros(&mut plaintext, count);
    plaintext.push(count as u8);
    assert(plaintext@ =~= padded(cipher, content@));
    plaintext
}

/// How many octets of padding `len` octets of content get.
fn pad_len(cipher: SkCipher, len: usize) -> (count: usize)
    ensures
        count == pad_size(cipher, len as nat),
        count < 16,
{
    if cipher.is_aead() {
        return 0;
    }
    if cipher.block_len() == 8 {
        7 - len % 8
    } else {
        15 - len % 16
    }
}

/// The nonce of an AEAD cipher: salt, then IV (RFC 5282 §4).
pub fn aead_nonce(salt: &[u8], iv: &[u8]) -> (nonce: Vec<u8>)
    ensures
        nonce@ == salt@ + iv@,
{
    let mut nonce = bytes::copy(salt);
    bytes::push_all(&mut nonce, iv);
    nonce
}

/// The IV of a classic cipher: the seed, repeated up to the block size.
pub fn expand_iv(seed: &[u8; 8], block: usize) -> (iv: Vec<u8>)
    ensures
        iv@ == expanded_iv(seed@, block as nat),
{
    let mut iv: Vec<u8> = Vec::new();
    for i in 0..block
        invariant
            iv@ == expanded_iv(seed@, i as nat),
    {
        iv.push(seed[i % 8]);
        assert(iv@ =~= expanded_iv(seed@, (i + 1) as nat));
    }
    iv
}

fn protect_aead(cipher: SkCipher, sk_e: &[u8], prefix: &[u8], seed: &[u8; 8], content: &[u8]) -> (out: Result<
    Vec<u8>,
    IkeError,
>)
    requires
        cipher.aead() is Some,
        prefix@.len() < 0x1_0000,
    ensures
        match out {
            Ok(body) => {
                &&& seal_failure(cipher, sk_e@, content@) is None
                &&& forall|sk_a: Seq<u8>|
                    body@ == #[trigger] protected(cipher, sk_e@, sk_a, prefix@, seed@, content@)
                &&& body@.len() == protected_size(cipher, content@.len())
            },
            Err(error) => seal_failure(cipher, sk_e@, content@) == Some(error@),
        },
{
    let key_len: usize = cipher.key_len();
    if sk_e.len() != key_len + cipher.salt_len() {
        return Err(IkeError::Crypto("SK_e has the wrong length for the negotiated AEAD cipher"));
    }
    let aead = match cipher.aead_cipher() {
        Some(aead) => aead,
        None => AeadCipher::Aes256Gcm,
    };
    let plaintext = pad(cipher, content);
    if plaintext.len() as u64 > crate::crypto::aead::MAX_LEN {
        return Err(IkeError::Crypto("content too long for the negotiated AEAD cipher"));
    }
    let key: &[u8] = bytes::range(sk_e, 0, key_len);
    let nonce = aead_nonce(bytes::tail(sk_e, key_len), seed);
    let sealed = aead.seal(key, &nonce, prefix, &plaintext);
    let mut body: Vec<u8> = Vec::new();
    bytes::push_all(&mut body, seed);
    bytes::push_all(&mut body, &sealed);
    proof {
        reveal(protected);
        assert(key@ =~= sk_e@.take(key_len as int));
        assert(bytes::from(sk_e@, key_len as int) =~= sk_e@.skip(key_len as int));
        assert(nonce@ =~= nonce_of(cipher, sk_e@, seed@));
        assert(body@ =~= seed@ + sealed@);
    }
    Ok(body)
}

fn protect_classic(
    cipher: SkCipher,
    sk_e: &[u8],
    sk_a: &[u8],
    prefix: &[u8],
    seed: &[u8; 8],
    content: &[u8],
) -> (out: Result<Vec<u8>, IkeError>)
    requires
        cipher.aead() is None,
    ensures
        match out {
            Ok(body) => {
                &&& seal_failure(cipher, sk_e@, content@) is None
                &&& body@ == protected(cipher, sk_e@, sk_a@, prefix@, seed@, content@)
                &&& body@.len() == protected_size(cipher, content@.len())
            },
            Err(error) => seal_failure(cipher, sk_e@, content@) == Some(error@),
        },
{
    if sk_e.len() != cipher.key_len() {
        return Err(IkeError::Crypto("SK_e has the wrong length for the negotiated CBC cipher"));
    }
    let integ = match cipher.integ_algorithm() {
        Some(integ) => integ,
        None => IntegAlgorithm::HmacSha2_256_128,
    };
    let iv = expand_iv(seed, cipher.block_len());
    let plaintext = pad(cipher, content);
    proof {
        lemma_pad_size(cipher, content@.len());
    }
    let ciphertext = block::cbc_encrypt(cipher.block_cipher(), sk_e, &iv, &plaintext);
    let mut input = bytes::copy(prefix);
    bytes::push_all(&mut input, &iv);
    bytes::push_all(&mut input, &ciphertext);
    let icv = integ.compute(sk_a, &input);
    let mut body: Vec<u8> = Vec::new();
    bytes::push_all(&mut body, &iv);
    bytes::push_all(&mut body, &ciphertext);
    bytes::push_all(&mut body, &icv);
    proof {
        reveal(protected);
        assert(input@ =~= prefix@ + iv@ + ciphertext@);
        assert(body@ =~= iv@ + ciphertext@ + icv@);
    }
    Ok(body)
}

/// Protect `content` under the cipher, with `prefix`, everything before the
/// protected part in the message, authenticated too.
fn protect(
    cipher: SkCipher,
    sk_e: &[u8],
    sk_a: &[u8],
    prefix: &[u8],
    seed: &[u8; 8],
    content: &[u8],
) -> (out: Result<Vec<u8>, IkeError>)
    requires
        prefix@.len() < 0x1_0000,
    ensures
        match out {
            Ok(body) => {
                &&& seal_failure(cipher, sk_e@, content@) is None
                &&& body@ == protected(cipher, sk_e@, sk_a@, prefix@, seed@, content@)
                &&& body@.len() == protected_size(cipher, content@.len())
            },
            Err(error) => seal_failure(cipher, sk_e@, content@) == Some(error@),
        },
{
    if cipher.is_aead() {
        protect_aead(cipher, sk_e, prefix, seed, content)
    } else {
        protect_classic(cipher, sk_e, sk_a, prefix, seed, content)
    }
}

fn unprotect_aead(cipher: SkCipher, sk_e: &[u8], prefix: &[u8], body: &[u8]) -> (out: Result<Vec<u8>, IkeError>)
    requires
        cipher.aead() is Some,
        key_fits(cipher, sk_e@),
        prefix@.len() < 0x1_0000,
        24 <= body@.len() < 0x1_0000,
    ensures
        out matches Ok(plaintext) ==> plaintext@.len() <= body@.len(),
        forall|sk_a: Seq<u8>| viewed(out) == #[trigger] unprotected(cipher, sk_e@, sk_a, prefix@, body@),
        forall|sk_a: Seq<u8>, seed: Seq<u8>, content: Seq<u8>|
            seed.len() == 8 && body@ == #[trigger] protected(cipher, sk_e@, sk_a, prefix@, seed, content) ==> out is Ok && out->Ok_0@ == padded(
                cipher,
                content,
            ),
        forall|sk_a: Seq<u8>, seed: Seq<u8>, content: Seq<u8>|
            seed.len() == 8 && bytes::altered(
                body@,
                #[trigger] protected(cipher, sk_e@, sk_a, prefix@, seed, content),
                16,
            ) ==> viewed(out) == Err::<Seq<u8>, Failure>(Failure::BadIntegrity),
{
    let key_len: usize = cipher.key_len();
    let aead = match cipher.aead_cipher() {
        Some(aead) => aead,
        None => AeadCipher::Aes256Gcm,
    };
    let key: &[u8] = bytes::range(sk_e, 0, key_len);
    let iv: &[u8] = bytes::range(body, 0, 8);
    let nonce = aead_nonce(bytes::tail(sk_e, key_len), iv);
    let sealed: &[u8] = bytes::tail(body, 8);
    let plaintext = aead.open(key, &nonce, prefix, sealed);
    proof {
        reveal(protected);
        reveal(unprotected);
        assert(key@ =~= sk_e@.take(key_len as int));
        assert(iv@ =~= body@.take(8));
        assert(sealed@ =~= body@.skip(8));
        assert(bytes::from(sk_e@, key_len as int) =~= sk_e@.skip(key_len as int));
        assert(nonce@ =~= nonce_of(cipher, sk_e@, body@.take(8)));
        assert forall|sk_a: Seq<u8>, seed: Seq<u8>, content: Seq<u8>|
            seed.len() == 8 && body@ == #[trigger] protected(cipher, sk_e@, sk_a, prefix@, seed, content) implies plaintext is Some
            && plaintext->0@ == padded(cipher, content) by {
            lemma_protected_len(cipher, sk_e@, sk_a, prefix@, seed, content);
            let inner = aead.sealed(key@, nonce_of(cipher, sk_e@, seed), prefix@, padded(cipher, content));
            assert(body@ == seed + inner);
            assert(body@.take(8) =~= seed);
            assert(body@.skip(8) =~= inner);
            assert(aead.opens(key@, nonce@, prefix@, sealed@, padded(cipher, content)));
        }
        assert forall|sk_a: Seq<u8>, seed: Seq<u8>, content: Seq<u8>|
            seed.len() == 8 && bytes::altered(
                body@,
                #[trigger] protected(cipher, sk_e@, sk_a, prefix@, seed, content),
                16,
            ) implies plaintext is None by {
            lemma_protected_len(cipher, sk_e@, sk_a, prefix@, seed, content);
            let whole = protected(cipher, sk_e@, sk_a, prefix@, seed, content);
            let inner = aead.sealed(key@, nonce_of(cipher, sk_e@, seed), prefix@, padded(cipher, content));
            let kept = body@.len() - 16;
            assert(whole == seed + inner);
            assert(body@.take(8) =~= body@.take(kept).take(8));
            assert(seed =~= whole.take(kept).take(8));
            assert(sealed@.take(kept - 8) =~= body@.take(kept).skip(8));
            assert(inner.take(kept - 8) =~= whole.take(kept).skip(8));
            assert(sealed@ == inner ==> body@ =~= whole) by {
                assert(body@ =~= body@.take(8) + body@.skip(8));
            }
            assert(bytes::altered(sealed@, inner, 16));
        }
    }
    match plaintext {
        Some(plaintext) => {
            assert(aead.opens(key@, nonce@, prefix@, sealed@, plaintext@));
            Ok(plaintext)
        },
        None => Err(IkeError::BadIntegrity),
    }
}

fn unprotect_classic(
    cipher: SkCipher,
    sk_e: &[u8],
    sk_a: &[u8],
    prefix: &[u8],
    body: &[u8],
) -> (out: Result<Vec<u8>, IkeError>)
    requires
        cipher.aead() is None,
        iv_size(cipher) + cipher.icv_size() <= body@.len(),
    ensures
        out matches Ok(plaintext) ==> plaintext@.len() <= body@.len() && key_fits(cipher, sk_e@),
        viewed(out) == unprotected(cipher, sk_e@, sk_a@, prefix@, body@),
        forall|seed: Seq<u8>, content: Seq<u8>|
            seed.len() == 8 && key_fits(cipher, sk_e@) && body@ == #[trigger] protected(
                cipher,
                sk_e@,
                sk_a@,
                prefix@,
                seed,
                content,
            ) ==> out is Ok && out->Ok_0@ == padded(
                cipher,
                content,
            ),
        forall|seed: Seq<u8>, content: Seq<u8>|
            seed.len() == 8 && key_fits(cipher, sk_e@) && bytes::altered(
                body@,
                #[trigger] protected(cipher, sk_e@, sk_a@, prefix@, seed, content),
                cipher.icv_size(),
            ) ==> viewed(out) == Err::<Seq<u8>, Failure>(Failure::BadIntegrity),
{
    let block: usize = cipher.block_len();
    let integ = match cipher.integ_algorithm() {
        Some(integ) => integ,
        None => IntegAlgorithm::HmacSha2_256_128,
    };
    let end: usize = body.len() - cipher.icv_len();
    let iv: &[u8] = bytes::range(body, 0, block);
    let ciphertext: &[u8] = bytes::range(body, block, end);
    let icv: &[u8] = bytes::tail(body, end);
    proof {
        reveal(unprotected);
        assert(iv@ =~= body@.take(block as int));
        assert(icv@ =~= body@.skip(end as int));
        assert forall|seed: Seq<u8>, content: Seq<u8>|
            seed.len() == 8 && body@ == #[trigger] protected(cipher, sk_e@, sk_a@, prefix@, seed, content) implies {
            &&& ciphertext@.len() > 0
            &&& ciphertext@.len() % (block as nat) == 0
            &&& integ.icv(sk_a@, prefix@ + iv@ + ciphertext@) == icv@
            &&& block::cbc_opens(cipher.classic(), sk_e@, iv@, ciphertext@, padded(cipher, content))
        } by {
            lemma_protected_len(cipher, sk_e@, sk_a@, prefix@, seed, content);
            reveal(protected);
            let first = expanded_iv(seed, block as nat);
            let inner = block::cbc_enciphered(cipher.classic(), sk_e@, first, padded(cipher, content));
            let last = integ.icv(sk_a@, prefix@ + first + inner);
            assert(body@ == first + inner + last);
            lemma_pad_size(cipher, content.len());
            block::lemma_cbc_len(cipher.classic(), sk_e@, first, padded(cipher, content));
            assert(iv@ =~= first);
            assert(ciphertext@ =~= inner);
            assert(icv@ =~= last);
        }
        assert forall|seed: Seq<u8>, content: Seq<u8>|
            seed.len() == 8 && key_fits(cipher, sk_e@) && bytes::altered(
                body@,
                #[trigger] protected(cipher, sk_e@, sk_a@, prefix@, seed, content),
                cipher.icv_size(),
            ) implies {
            &&& ciphertext@.len() > 0
            &&& ciphertext@.len() % (block as nat) == 0
            &&& integ.icv(sk_a@, prefix@ + iv@ + ciphertext@) != icv@
        } by {
            lemma_protected_len(cipher, sk_e@, sk_a@, prefix@, seed, content);
            reveal(protected);
            let first = expanded_iv(seed, block as nat);
            let inner = block::cbc_enciphered(cipher.classic(), sk_e@, first, padded(cipher, content));
            let last = integ.icv(sk_a@, prefix@ + first + inner);
            let whole = first + inner + last;
            assert(protected(cipher, sk_e@, sk_a@, prefix@, seed, content) == whole);
            lemma_pad_size(cipher, content.len());
            block::lemma_cbc_len(cipher.classic(), sk_e@, first, padded(cipher, content));
            assert(iv@ =~= body@.take(end as int).take(block as int));
            assert(first =~= whole.take(end as int).take(block as int));
            assert(ciphertext@ =~= body@.take(end as int).skip(block as int));
            assert(inner =~= whole.take(end as int).skip(block as int));
            assert(icv@ == last ==> body@ =~= whole) by {
                assert(body@ =~= body@.take(end as int) + icv@);
                assert(whole =~= whole.take(end as int) + last);
            }
        }
    }
    if ciphertext.len() == 0 || ciphertext.len() % block != 0 {
        return Err(IkeError::Crypto("CBC ciphertext not block-aligned"));
    }
    let mut input = bytes::copy(prefix);
    bytes::push_all(&mut input, iv);
    bytes::push_all(&mut input, ciphertext);
    assert(input@ =~= prefix@ + iv@ + ciphertext@);
    let expected = integ.compute(sk_a, &input);
    if !bytes::same(&expected, icv) {
        return Err(IkeError::BadIntegrity);
    }
    if sk_e.len() != cipher.key_len() {
        return Err(IkeError::Crypto("SK_e has the wrong length for the negotiated CBC cipher"));
    }
    let plaintext = block::cbc_decrypt(cipher.block_cipher(), sk_e, iv, ciphertext);
    Ok(plaintext)
}

/// Open the protected part `body` of a message, `prefix` being everything
/// before it: the plaintext, padding and all. What [`protect`] made of some
/// content is opened to that content with its padding.
fn unprotect(
    cipher: SkCipher,
    sk_e: &[u8],
    sk_a: &[u8],
    prefix: &[u8],
    body: &[u8],
) -> (out: Result<Vec<u8>, IkeError>)
    requires
        cipher.aead() is Some ==> key_fits(cipher, sk_e@),
        prefix@.len() < 0x1_0000,
        iv_size(cipher) + cipher.icv_size() <= body@.len() < 0x1_0000,
    ensures
        out matches Ok(plaintext) ==> plaintext@.len() <= body@.len() && key_fits(cipher, sk_e@),
        viewed(out) == unprotected(cipher, sk_e@, sk_a@, prefix@, body@),
        forall|seed: Seq<u8>, content: Seq<u8>|
            seed.len() == 8 && key_fits(cipher, sk_e@) && body@ == #[trigger] protected(
                cipher,
                sk_e@,
                sk_a@,
                prefix@,
                seed,
                content,
            ) ==> out is Ok && out->Ok_0@ == padded(
                cipher,
                content,
            ),
        forall|seed: Seq<u8>, content: Seq<u8>|
            seed.len() == 8 && key_fits(cipher, sk_e@) && bytes::altered(
                body@,
                #[trigger] protected(cipher, sk_e@, sk_a@, prefix@, seed, content),
                cipher.icv_size(),
            ) ==> viewed(out) == Err::<Seq<u8>, Failure>(Failure::BadIntegrity),
{
    if cipher.is_aead() {
        unprotect_aead(cipher, sk_e, prefix, body)
    } else {
        unprotect_classic(cipher, sk_e, sk_a, prefix, body)
    }
}

/// Everything in a message before its protected part: the IKE header and the
/// generic header of the one payload, of type `kind`, with `extra` behind it.
/// `first` is that payload's Next Payload: the type of the first one inside.
#[verifier::opaque]
pub open spec fn preamble(
    cipher: SkCipher,
    header: IkeHeader,
    kind: PayloadType,
    first: u8,
    extra: Seq<u8>,
    len: nat,
) -> Seq<u8> {
    let size = message::field16(4 + extra.len() + protected_size(cipher, len));
    header.carrying(kind).of_length((28 + size) as u32).octets() + seq![first, 0u8] + bytes::be16(
        size,
    ) + extra
}

/// A whole message with one payload of type `kind` that protects `content`.
#[verifier::opaque]
pub open spec fn sealed_message(
    cipher: SkCipher,
    header: IkeHeader,
    kind: PayloadType,
    first: u8,
    extra: Seq<u8>,
    sk_e: Seq<u8>,
    sk_a: Seq<u8>,
    seed: Seq<u8>,
    content: Seq<u8>,
) -> Seq<u8> {
    let prefix = preamble(cipher, header, kind, first, extra, content.len());
    prefix + protected(cipher, sk_e, sk_a, prefix, seed, content)
}

/// The plaintext, padding and all, inside the payload of type `kind` that
/// `message` opens with; `extra` octets stand between that payload's generic
/// header and its protected part.
#[verifier::opaque]
pub open spec fn opened_message(
    cipher: SkCipher,
    message: Seq<u8>,
    kind: PayloadType,
    name: Seq<char>,
    extra: nat,
    sk_e: Seq<u8>,
    sk_a: Seq<u8>,
) -> Result<Seq<u8>, Failure> {
    if cipher.aead() is Some && !key_fits(cipher, sk_e) {
        Err(Failure::Crypto("SK_e has the wrong length for the negotiated AEAD cipher"@))
    } else {
        match IkeHeader::read(message) {
            Err(failure) => Err(failure),
            Ok(header) => {
                let body = bytes::from(message, 28);
                let least = 4 + extra + iv_size(cipher) + cipher.icv_size();
                if header.next_payload != kind {
                    Err(Failure::MissingPayload(name))
                } else if body.len() < least {
                    Err(Failure::Truncated { need: least, have: body.len() })
                } else if bytes::at16(body, 2) < least || bytes::at16(body, 2) > body.len() {
                    Err(
                        Failure::BadLength {
                            declared: bytes::at16(body, 2) as nat,
                            available: body.len(),
                        },
                    )
                } else {
                    unprotected(
                        cipher,
                        sk_e,
                        sk_a,
                        message.take(32 + extra as int),
                        body.subrange(4 + extra as int, bytes::at16(body, 2) as int),
                    )
                }
            },
        }
    }
}

/// Whether content of this length can be sealed and be counted by the length
/// fields of its message.
pub open spec fn sealable(cipher: SkCipher, sk_e: Seq<u8>, extra: nat, len: nat) -> bool {
    key_fits(cipher, sk_e) && 4 + extra + protected_size(cipher, len) < 0x1_0000
}

/// How long the preamble is.
pub proof fn lemma_preamble_len(
    cipher: SkCipher,
    header: IkeHeader,
    kind: PayloadType,
    first: u8,
    extra: Seq<u8>,
    len: nat,
)
    ensures
        preamble(cipher, header, kind, first, extra, len).len() == 32 + extra.len(),
{
    reveal(preamble);
}

/// What the front of a sealed message reads as.
pub proof fn lemma_preamble(
    cipher: SkCipher,
    header: IkeHeader,
    kind: PayloadType,
    first: u8,
    extra: Seq<u8>,
    len: nat,
    rest: Seq<u8>,
)
    requires
        header.carrying(kind).canonical(),
        4 + extra.len() + protected_size(cipher, len) < 0x1_0000,
    ensures
        ({
            let wire = preamble(cipher, header, kind, first, extra, len) + rest;
            let size = 4 + extra.len() + protected_size(cipher, len);
            &&& IkeHeader::read(wire) matches Ok(read)
            &&& read.next_payload == kind
            &&& read == header.carrying(kind).of_length((28 + size) as u32)
            &&& bytes::at16(bytes::from(wire, 28), 2) == size
            &&& bytes::from(wire, 28)[0] == first
            &&& bytes::from(wire, 28).subrange(4, 4 + extra.len() as int) == extra
            &&& wire.take(32 + extra.len() as int) == preamble(cipher, header, kind, first, extra, len)
            &&& bytes::from(wire, 28).skip(4 + extra.len() as int) == rest
        }),
{
    let prefix = preamble(cipher, header, kind, first, extra, len);
    lemma_preamble_len(cipher, header, kind, first, extra, len);
    reveal(preamble);
    let size = message::field16(4 + extra.len() + protected_size(cipher, len));
    let top = header.carrying(kind).of_length((28 + size) as u32);
    let generic = seq![first, 0u8] + bytes::be16(size);
    let wire = prefix + rest;
    let body = bytes::from(wire, 28);
    assert(wire =~= top.octets() + (generic + extra + rest));
    message::law_header_round_trip(top, generic + extra + rest);
    assert(body =~= generic + extra + rest);
    assert(body.subrange(2, 4) =~= bytes::be16(size));
    bytes::lemma_at16_be16(body, 2, size);
    assert(body[0] == first);
    assert(body.subrange(4, 4 + extra.len() as int) =~= extra);
    assert(wire.take(32 + extra.len() as int) =~= prefix);
    assert(body.skip(4 + extra.len() as int) =~= rest);
}

/// How long the one payload of a message is, as its length field holds it.
fn payload_len(cipher: SkCipher, extra: usize, len: usize) -> (size: u16)
    requires
        extra <= 4,
    ensures
        size == message::field16((4 + extra + protected_size(cipher, len as nat)) as nat),
{
    let iv_len: usize = if cipher.is_aead() {
        8
    } else {
        cipher.block_len()
    };
    let around: usize = 4 + extra + iv_len + pad_len(cipher, len) + 1 + cipher.icv_len();
    assert(4 + extra + protected_size(cipher, len as nat) == len + around);
    message::length16(len, around)
}

/// Everything in a message before its protected part.
fn preamble_bytes(
    cipher: SkCipher,
    header: &IkeHeader,
    kind: PayloadType,
    first: u8,
    extra: &[u8],
    len: usize,
) -> (wire: Vec<u8>)
    requires
        extra@.len() <= 4,
    ensures
        wire@ == preamble(cipher, *header, kind, first, extra@, len as nat),
        wire@.len() == 32 + extra@.len(),
{
    let size: u16 = payload_len(cipher, extra.len(), len);
    let mut top = *header;
    top.next_payload = kind;
    top.length = 28 + size as u32;
    let mut wire: Vec<u8> = Vec::new();
    bytes::push_all(&mut wire, &top.to_bytes());
    wire.push(first);
    wire.push(0);
    bytes::push16(&mut wire, size);
    bytes::push_all(&mut wire, extra);
    proof {
        reveal(preamble);
        assert(wire@ =~= preamble(cipher, *header, kind, first, extra@, len as nat));
    }
    wire
}

/// Build a message whose one payload, of type `kind`, protects `content`;
/// `extra` stands between its generic header and its protected part.
pub(crate) fn seal_message(
    cipher: SkCipher,
    header: &IkeHeader,
    kind: PayloadType,
    first: u8,
    extra: &[u8],
    sk_e: &[u8],
    sk_a: &[u8],
    seed: &[u8; 8],
    content: &[u8],
) -> (out: Result<Vec<u8>, IkeError>)
    requires
        extra@.len() <= 4,
    ensures
        match out {
            Ok(wire) => {
                &&& seal_failure(cipher, sk_e@, content@) is None
                &&& wire@ == sealed_message(
                    cipher,
                    *header,
                    kind,
                    first,
                    extra@,
                    sk_e@,
                    sk_a@,
                    seed@,
                    content@,
                )
                &&& wire@.len() == 32 + extra@.len() + protected_size(cipher, content@.len())
            },
            Err(error) => seal_failure(cipher, sk_e@, content@) == Some(error@),
        },
{
    let mut wire = preamble_bytes(cipher, header, kind, first, extra, content.len());
    let body = match protect(cipher, sk_e, sk_a, &wire, seed, content) {
        Ok(body) => body,
        Err(error) => {
            return Err(error);
        },
    };
    let ghost prefix = wire@;
    bytes::push_all(&mut wire, &body);
    proof {
        reveal(sealed_message);
        assert(wire@ =~= prefix + body@);
    }
    Ok(wire)
}

/// How a message reads whose tag or ICV was altered.
pub proof fn lemma_altered_message(
    cipher: SkCipher,
    message: Seq<u8>,
    header: IkeHeader,
    kind: PayloadType,
    first: u8,
    between: Seq<u8>,
    sk_e: Seq<u8>,
    sk_a: Seq<u8>,
    seed: Seq<u8>,
    content: Seq<u8>,
)
    requires
        header.carrying(kind).canonical(),
        seed.len() == 8,
        sealable(cipher, sk_e, between.len(), content.len()),
        bytes::altered(
            message,
            sealed_message(cipher, header, kind, first, between, sk_e, sk_a, seed, content),
            cipher.icv_size(),
        ),
    ensures
        ({
            let extra = between.len() as int;
            let body = bytes::from(message, 28);
            let prefix = preamble(cipher, header, kind, first, between, content.len());
            &&& IkeHeader::read(message) is Ok && IkeHeader::read(message)->Ok_0.next_payload == kind
            &&& bytes::at16(body, 2) == body.len()
            &&& body.len() == 4 + extra + protected_size(cipher, content.len())
            &&& message.take(32 + extra) == prefix
            &&& bytes::altered(
                body.subrange(4 + extra, body.len() as int),
                protected(cipher, sk_e, sk_a, prefix, seed, content),
                cipher.icv_size(),
            )
        }),
{
    reveal(sealed_message);
    let extra = between.len() as int;
    let prefix = preamble(cipher, header, kind, first, between, content.len());
    let rest = protected(cipher, sk_e, sk_a, prefix, seed, content);
    let whole = prefix + rest;
    lemma_protected_len(cipher, sk_e, sk_a, prefix, seed, content);
    lemma_preamble_len(cipher, header, kind, first, between, content.len());
    let kept = message.len() - cipher.icv_size();
    let end = message.skip(32 + extra);
    assert(message.take(32 + extra) =~= message.take(kept).take(32 + extra));
    assert(prefix =~= whole.take(kept).take(32 + extra));
    assert(message =~= prefix + end);
    lemma_preamble(cipher, header, kind, first, between, content.len(), end);
    let body = bytes::from(message, 28);
    assert(body.subrange(4 + extra, body.len() as int) =~= end);
    assert(end.take(kept - 32 - extra) =~= message.take(kept).skip(32 + extra));
    assert(rest.take(kept - 32 - extra) =~= whole.take(kept).skip(32 + extra));
    assert(end == rest ==> message == whole);
}

/// Open the payload of type `kind` that `message` opens with: its plaintext,
/// padding and all. What [`seal_message`] made of some content is opened to
/// that content with its padding.
pub(crate) fn open_message(
    cipher: SkCipher,
    message: &[u8],
    kind: PayloadType,
    name: &'static str,
    extra: usize,
    sk_e: &[u8],
    sk_a: &[u8],
) -> (out: Result<Vec<u8>, IkeError>)
    requires
        extra <= 4,
    ensures
        viewed(out) == opened_message(cipher, message@, kind, name@, extra as nat, sk_e@, sk_a@),
        out is Ok ==> IkeHeader::read(message@) is Ok && message@.len() >= 32 + extra,
        out matches Ok(plaintext) ==> plaintext@.len() < 0x1_0000 && key_fits(cipher, sk_e@),
        forall|header: IkeHeader, first: u8, between: Seq<u8>, seed: Seq<u8>, content: Seq<u8>|
            header.carrying(kind).canonical() && between.len() == extra && seed.len() == 8
                && sealable(cipher, sk_e@, extra as nat, content.len()) && message@ == #[trigger] sealed_message(
                cipher,
                header,
                kind,
                first,
                between,
                sk_e@,
                sk_a@,
                seed,
                content,
            ) ==> out is Ok
                && out->Ok_0@ == padded(cipher, content),
        forall|header: IkeHeader, first: u8, between: Seq<u8>, seed: Seq<u8>, content: Seq<u8>|
            header.carrying(kind).canonical() && between.len() == extra && seed.len() == 8
                && sealable(cipher, sk_e@, extra as nat, content.len()) && bytes::altered(
                message@,
                #[trigger] sealed_message(cipher, header, kind, first, between, sk_e@, sk_a@, seed, content),
                cipher.icv_size(),
            ) ==> viewed(out) == Err::<Seq<u8>, Failure>(Failure::BadIntegrity),
{
    reveal(opened_message);
    if cipher.is_aead() && sk_e.len() != cipher.key_len() + cipher.salt_len() {
        return Err(IkeError::Crypto("SK_e has the wrong length for the negotiated AEAD cipher"));
    }
    let iv_len: usize = if cipher.is_aead() {
        8
    } else {
        cipher.block_len()
    };
    let least: usize = 4 + extra + iv_len + cipher.icv_len();
    proof {
        assert forall|header: IkeHeader, first: u8, between: Seq<u8>, seed: Seq<u8>, content: Seq<u8>|
            header.carrying(kind).canonical() && between.len() == extra && seed.len() == 8
                && sealable(cipher, sk_e@, extra as nat, content.len()) && message@ == #[trigger] sealed_message(
                cipher,
                header,
                kind,
                first,
                between,
                sk_e@,
                sk_a@,
                seed,
                content,
            ) implies ({
            let body = bytes::from(message@, 28);
            let prefix = preamble(cipher, header, kind, first, between, content.len());
            &&& IkeHeader::read(message@) is Ok && IkeHeader::read(message@)->Ok_0.next_payload == kind
            &&& bytes::at16(body, 2) == body.len() && body.len() >= least
            &&& message@.take(32 + extra) == prefix
            &&& body.subrange(4 + extra, body.len() as int) == protected(
                cipher,
                sk_e@,
                sk_a@,
                prefix,
                seed,
                content,
            )
        }) by {
            reveal(sealed_message);
            let prefix = preamble(cipher, header, kind, first, between, content.len());
            let rest = protected(cipher, sk_e@, sk_a@, prefix, seed, content);
            lemma_protected_len(cipher, sk_e@, sk_a@, prefix, seed, content);
            lemma_preamble(cipher, header, kind, first, between, content.len(), rest);
            lemma_preamble_len(cipher, header, kind, first, between, content.len());
            let body = bytes::from(message@, 28);
            assert(body.subrange(4 + extra, body.len() as int) =~= body.skip(4 + extra));
        }
        assert forall|header: IkeHeader, first: u8, between: Seq<u8>, seed: Seq<u8>, content: Seq<u8>|
            header.carrying(kind).canonical() && between.len() == extra && seed.len() == 8
                && sealable(cipher, sk_e@, extra as nat, content.len()) && bytes::altered(
                message@,
                #[trigger] sealed_message(cipher, header, kind, first, between, sk_e@, sk_a@, seed, content),
                cipher.icv_size(),
            ) implies ({
            let body = bytes::from(message@, 28);
            let prefix = preamble(cipher, header, kind, first, between, content.len());
            &&& IkeHeader::read(message@) is Ok && IkeHeader::read(message@)->Ok_0.next_payload == kind
            &&& bytes::at16(body, 2) == body.len() && body.len() >= least
            &&& message@.take(32 + extra) == prefix
            &&& bytes::altered(
                body.subrange(4 + extra, body.len() as int),
                protected(cipher, sk_e@, sk_a@, prefix, seed, content),
                cipher.icv_size(),
            )
        }) by {
            lemma_altered_message(cipher, message@, header, kind, first, between, sk_e@, sk_a@, seed, content);
        }
    }
    let header = match IkeHeader::parse(message) {
        Ok(header) => header,
        Err(error) => {
            return Err(error);
        },
    };
    if header.next_payload != kind {
        return Err(IkeError::MissingPayload(name));
    }
    let body: &[u8] = bytes::tail(message, 28);
    if body.len() < least {
        return Err(IkeError::Truncated { need: least, have: body.len() });
    }
    let size: usize = bytes::get16(body, 2) as usize;
    if size < least || size > body.len() {
        return Err(IkeError::BadLength { declared: size, available: body.len() });
    }
    let prefix: &[u8] = bytes::range(message, 0, 32 + extra);
    assert(prefix@ =~= message@.take(32 + extra));
    unprotect(cipher, sk_e, sk_a, prefix, bytes::range(body, 4 + extra, size))
}

/// What is left of `plaintext` without its padding and the Pad Length octet.
pub open spec fn stripped(plaintext: Seq<u8>, empty: Seq<char>, excess: Seq<char>) -> Result<Seq<u8>, Failure> {
    if plaintext.len() == 0 {
        Err(Failure::Crypto(empty))
    } else if plaintext.last() + 1 > plaintext.len() {
        Err(Failure::Crypto(excess))
    } else {
        Ok(plaintext.take(plaintext.len() - 1 - plaintext.last()))
    }
}

/// Strip the padding: content that was padded is what is left of it.
pub(crate) fn strip(plaintext: Vec<u8>, empty: &'static str, excess: &'static str) -> (content: Result<
    Vec<u8>,
    IkeError,
>)
    ensures
        viewed(content) == stripped(plaintext@, empty@, excess@),
        forall|cipher: SkCipher, written: Seq<u8>|
            plaintext@ == #[trigger] padded(cipher, written) ==> content is Ok && content->Ok_0@ == written,
{
    proof {
        assert forall|cipher: SkCipher, written: Seq<u8>| plaintext@ == #[trigger] padded(
            cipher,
            written,
        ) implies stripped(plaintext@, empty@, excess@) == Ok::<Seq<u8>, Failure>(written) by {
            lemma_pad_size(cipher, written.len());
            assert(plaintext@.take(written.len() as int) =~= written);
        }
    }
    if plaintext.len() == 0 {
        return Err(IkeError::Crypto(empty));
    }
    let count: usize = plaintext[plaintext.len() - 1] as usize;
    if count + 1 > plaintext.len() {
        return Err(IkeError::Crypto(excess));
    }
    let mut content = plaintext;
    let left: usize = content.len() - 1 - count;
    content.truncate(left);
    Ok(content)
}

/// The message of `header` whose SK payload holds the payload chain `inner`,
/// the first of type `first`.
pub open spec fn encrypted(
    cipher: SkCipher,
    header: IkeHeader,
    first: PayloadType,
    inner: Seq<u8>,
    sk_e: Seq<u8>,
    sk_a: Seq<u8>,
    iv: Seq<u8>,
) -> Seq<u8> {
    sealed_message(cipher, header, PayloadType::Encrypted, first.octet(), Seq::empty(), sk_e, sk_a, iv, inner)
}

/// The type of the first payload inside the SK payload of `message`, and the
/// payload chain it opens.
pub open spec fn decrypted(
    cipher: SkCipher,
    message: Seq<u8>,
    sk_e: Seq<u8>,
    sk_a: Seq<u8>,
) -> Result<(PayloadType, Seq<u8>), Failure> {
    match opened_message(cipher, message, PayloadType::Encrypted, "SK"@, 0, sk_e, sk_a) {
        Err(failure) => Err(failure),
        Ok(plaintext) => match stripped(plaintext, "empty SK payload"@, "pad length exceeds SK payload"@) {
            Err(failure) => Err(failure),
            Ok(inner) => Ok((PayloadType::named(message[28]), inner)),
        },
    }
}

/// A payload type and chain, the chain taken by its contents.
pub open spec fn viewed_inner(result: Result<(PayloadType, Vec<u8>), IkeError>) -> Result<
    (PayloadType, Seq<u8>),
    Failure,
> {
    match result {
        Ok((first, inner)) => Ok((first, inner@)),
        Err(error) => Err(error@),
    }
}

/// Build the message of `header` whose SK payload holds the payload chain
/// `inner`, the first of type `first` (RFC 7296 §3.14). `sk_e` and, for a
/// classic cipher, `sk_a` are the keys of our direction; `iv` must be fresh
/// under them.
pub fn build_encrypted(
    cipher: SkCipher,
    header: IkeHeader,
    first: PayloadType,
    inner: &[u8],
    sk_e: &[u8],
    sk_a: &[u8],
    iv: &[u8; 8],
) -> (out: Result<Vec<u8>, IkeError>)
    ensures
        match out {
            Ok(wire) => {
                &&& seal_failure(cipher, sk_e@, inner@) is None
                &&& wire@ == encrypted(cipher, header, first, inner@, sk_e@, sk_a@, iv@)
                &&& wire@.len() == 32 + protected_size(cipher, inner@.len())
            },
            Err(error) => seal_failure(cipher, sk_e@, inner@) == Some(error@),
        },
{
    let none: [u8; 0] = [];
    assert(none@ =~= Seq::<u8>::empty());
    seal_message(cipher, &header, PayloadType::Encrypted, first.to_u8(), &none, sk_e, sk_a, iv, inner)
}

/// Open the SK payload of `message` with the keys of the sender's direction:
/// the type of the first payload inside, and the payload chain. What
/// [`build_encrypted`] built is opened to what it was built from, and refused once
/// its tag or ICV was altered.
pub fn open_encrypted(cipher: SkCipher, message: &[u8], sk_e: &[u8], sk_a: &[u8]) -> (out: Result<
    (PayloadType, Vec<u8>),
    IkeError,
>)
    ensures
        viewed_inner(out) == decrypted(cipher, message@, sk_e@, sk_a@),
        out is Ok ==> IkeHeader::read(message@) is Ok && key_fits(cipher, sk_e@),
        out matches Ok((_, inner)) ==> inner@.len() < 0x1_0000,
        forall|header: IkeHeader, first: PayloadType, inner: Seq<u8>, iv: Seq<u8>|
            header.carrying(PayloadType::Encrypted).canonical() && first.canonical()
                && iv.len() == 8 && sealable(cipher, sk_e@, 0, inner.len()) && message@ == #[trigger] encrypted(
                cipher,
                header,
                first,
                inner,
                sk_e@,
                sk_a@,
                iv,
            ) ==> viewed_inner(out) == Ok::<
                (PayloadType, Seq<u8>),
                Failure,
            >((first, inner)),
        forall|header: IkeHeader, first: PayloadType, inner: Seq<u8>, iv: Seq<u8>|
            header.carrying(PayloadType::Encrypted).canonical() && iv.len() == 8 && sealable(
                cipher,
                sk_e@,
                0,
                inner.len(),
            ) && bytes::altered(
                message@,
                #[trigger] encrypted(cipher, header, first, inner, sk_e@, sk_a@, iv),
                cipher.icv_size(),
            ) ==> viewed_inner(out) == Err::<(PayloadType, Seq<u8>), Failure>(Failure::BadIntegrity),
{
    let plaintext = match open_message(cipher, message, PayloadType::Encrypted, "SK", 0, sk_e, sk_a) {
        Ok(plaintext) => plaintext,
        Err(error) => {
            return Err(error);
        },
    };
    let inner = match strip(plaintext, "empty SK payload", "pad length exceeds SK payload") {
        Ok(inner) => inner,
        Err(error) => {
            return Err(error);
        },
    };
    proof {
        assert forall|header: IkeHeader, first: PayloadType, written: Seq<u8>, iv: Seq<u8>|
            header.carrying(PayloadType::Encrypted).canonical() && first.canonical()
                && sealable(cipher, sk_e@, 0, written.len()) && message@ == #[trigger] encrypted(
                cipher,
                header,
                first,
                written,
                sk_e@,
                sk_a@,
                iv,
            ) implies message@[28] == first.octet() by {
            reveal(sealed_message);
            let none = Seq::<u8>::empty();
            let prefix = preamble(cipher, header, PayloadType::Encrypted, first.octet(), none, written.len());
            let rest = protected(cipher, sk_e@, sk_a@, prefix, iv, written);
            lemma_preamble(
                cipher,
                header,
                PayloadType::Encrypted,
                first.octet(),
                none,
                written.len(),
                rest,
            );
            assert(bytes::from(message@, 28)[0] == message@[28]);
        }
    }
    Ok((PayloadType::from_u8(message[28]), inner))
}

/// The message of `header` whose SK payload holds `payloads`, or why it cannot be
/// sealed.
pub open spec fn sealed(
    cipher: SkCipher,
    header: IkeHeader,
    payloads: Seq<(PayloadType, Seq<u8>)>,
    sk_e: Seq<u8>,
    sk_a: Seq<u8>,
    iv: Seq<u8>,
) -> Result<Seq<u8>, Failure> {
    match seal_failure(cipher, sk_e, message::encoded(payloads)) {
        Some(failure) => Err(failure),
        None => Ok(
            encrypted(
                cipher,
                header,
                message::first_type(payloads),
                message::encoded(payloads),
                sk_e,
                sk_a,
                iv,
            ),
        ),
    }
}

/// Build the message of `header` whose SK payload holds `payloads`.
pub fn build_sealed(
    cipher: SkCipher,
    header: IkeHeader,
    payloads: &[(PayloadType, Vec<u8>)],
    sk_e: &[u8],
    sk_a: &[u8],
    iv: &[u8; 8],
) -> (out: Result<Vec<u8>, IkeError>)
    ensures
        viewed(out) == sealed(cipher, header, message::bodies(payloads@), sk_e@, sk_a@, iv@),
{
    let first = message::first_payload_type(payloads);
    let inner = message::encode_payload_chain(payloads);
    build_encrypted(cipher, header, first, &inner, sk_e, sk_a, iv)
}

} // verus!
