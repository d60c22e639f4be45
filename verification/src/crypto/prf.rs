//! Pseudorandom functions, integrity algorithms and key derivation
//! (RFC 7296 §2.13, §2.14, §2.18).

use vstd::prelude::*;

use crate::bytes;
use crate::crypto::hash;
use crate::crypto::hash::HashAlgorithm;
use crate::ikev2::payload::transform_id;

verus! {

broadcast use crate::bytes::group_lengths;

/// The negotiable PRFs, all of them HMACs.
#[derive(Debug, Clone, Copy, PartialEq, Eq, Structural)]
pub enum PrfAlgorithm {
    Md5,
    Sha1,
    Sha256,
    Sha384,
    Sha512,
}

impl PrfAlgorithm {
    /// The hash this PRF is the HMAC of.
    pub open spec fn base(self) -> HashAlgorithm {
        match self {
            PrfAlgorithm::Md5 => HashAlgorithm::Md5,
            PrfAlgorithm::Sha1 => HashAlgorithm::Sha1,
            PrfAlgorithm::Sha256 => HashAlgorithm::Sha256,
            PrfAlgorithm::Sha384 => HashAlgorithm::Sha384,
            PrfAlgorithm::Sha512 => HashAlgorithm::Sha512,
        }
    }

    /// The length of this PRF's output, and of its key, in octets.
    pub open spec fn size(self) -> nat {
        self.base().size()
    }

    /// The PRF a PRF transform ID names.
    pub open spec fn named(id: u16) -> Option<PrfAlgorithm> {
        if id == transform_id::PRF_HMAC_MD5 {
            Some(PrfAlgorithm::Md5)
        } else if id == transform_id::PRF_HMAC_SHA1 {
            Some(PrfAlgorithm::Sha1)
        } else if id == transform_id::PRF_HMAC_SHA2_256 {
            Some(PrfAlgorithm::Sha256)
        } else if id == transform_id::PRF_HMAC_SHA2_384 {
            Some(PrfAlgorithm::Sha384)
        } else if id == transform_id::PRF_HMAC_SHA2_512 {
            Some(PrfAlgorithm::Sha512)
        } else {
            None
        }
    }

    /// The PRF a PRF transform ID names.
    pub fn from_transform_id(id: u16) -> (algo: Option<PrfAlgorithm>)
        ensures
            algo == Self::named(id),
    {
        match id {
            transform_id::PRF_HMAC_MD5 => Some(PrfAlgorithm::Md5),
            transform_id::PRF_HMAC_SHA1 => Some(PrfAlgorithm::Sha1),
            transform_id::PRF_HMAC_SHA2_256 => Some(PrfAlgorithm::Sha256),
            transform_id::PRF_HMAC_SHA2_384 => Some(PrfAlgorithm::Sha384),
            transform_id::PRF_HMAC_SHA2_512 => Some(PrfAlgorithm::Sha512),
            _ => None,
        }
    }

    /// The hash this PRF is the HMAC of.
    pub fn hash(self) -> (base: HashAlgorithm)
        ensures
            base == self.base(),
    {
        match self {
            PrfAlgorithm::Md5 => HashAlgorithm::Md5,
            PrfAlgorithm::Sha1 => HashAlgorithm::Sha1,
            PrfAlgorithm::Sha256 => HashAlgorithm::Sha256,
            PrfAlgorithm::Sha384 => HashAlgorithm::Sha384,
            PrfAlgorithm::Sha512 => HashAlgorithm::Sha512,
        }
    }

    /// The length of this PRF's output, and of its key, in octets.
    pub fn output_len(self) -> (len: usize)
        ensures
            len == self.size(),
    {
        self.hash().output_len()
    }
}

/// The negotiable integrity algorithms: an HMAC, cut to a fixed length.
#[derive(Debug, Clone, Copy, PartialEq, Eq, Structural)]
#[allow(non_camel_case_types)]
pub enum IntegAlgorithm {
    HmacMd5_96,
    HmacSha1_96,
    HmacSha2_256_128,
    HmacSha2_384_192,
    HmacSha2_512_256,
}

impl IntegAlgorithm {
    /// The hash this algorithm is the HMAC of.
    pub open spec fn base(self) -> HashAlgorithm {
        match self {
            IntegAlgorithm::HmacMd5_96 => HashAlgorithm::Md5,
            IntegAlgorithm::HmacSha1_96 => HashAlgorithm::Sha1,
            IntegAlgorithm::HmacSha2_256_128 => HashAlgorithm::Sha256,
            IntegAlgorithm::HmacSha2_384_192 => HashAlgorithm::Sha384,
            IntegAlgorithm::HmacSha2_512_256 => HashAlgorithm::Sha512,
        }
    }

    /// The length of the check value in octets.
    pub open spec fn icv_size(self) -> nat {
        match self {
            IntegAlgorithm::HmacMd5_96 => 12,
            IntegAlgorithm::HmacSha1_96 => 12,
            IntegAlgorithm::HmacSha2_256_128 => 16,
            IntegAlgorithm::HmacSha2_384_192 => 24,
            IntegAlgorithm::HmacSha2_512_256 => 32,
        }
    }

    /// The integrity algorithm an INTEG transform ID names.
    pub open spec fn named(id: u16) -> Option<IntegAlgorithm> {
        if id == transform_id::AUTH_HMAC_MD5_96 {
            Some(IntegAlgorithm::HmacMd5_96)
        } else if id == transform_id::AUTH_HMAC_SHA1_96 {
            Some(IntegAlgorithm::HmacSha1_96)
        } else if id == transform_id::AUTH_HMAC_SHA2_256_128 {
            Some(IntegAlgorithm::HmacSha2_256_128)
        } else if id == transform_id::AUTH_HMAC_SHA2_384_192 {
            Some(IntegAlgorithm::HmacSha2_384_192)
        } else if id == transform_id::AUTH_HMAC_SHA2_512_256 {
            Some(IntegAlgorithm::HmacSha2_512_256)
        } else {
            None
        }
    }

    /// The INTEG transform ID that names this algorithm.
    pub open spec fn id(self) -> u16 {
        match self {
            IntegAlgorithm::HmacMd5_96 => transform_id::AUTH_HMAC_MD5_96,
            IntegAlgorithm::HmacSha1_96 => transform_id::AUTH_HMAC_SHA1_96,
            IntegAlgorithm::HmacSha2_256_128 => transform_id::AUTH_HMAC_SHA2_256_128,
            IntegAlgorithm::HmacSha2_384_192 => transform_id::AUTH_HMAC_SHA2_384_192,
            IntegAlgorithm::HmacSha2_512_256 => transform_id::AUTH_HMAC_SHA2_512_256,
        }
    }

    /// The check value of `data` under `key`.
    pub open spec fn icv(self, key: Seq<u8>, data: Seq<u8>) -> Seq<u8> {
        hash::hmac_of(self.base(), key, data).take(self.icv_size() as int)
    }

    /// The integrity algorithm an INTEG transform ID names.
    pub fn from_transform_id(id: u16) -> (algo: Option<IntegAlgorithm>)
        ensures
            algo == Self::named(id),
    {
        match id {
            transform_id::AUTH_HMAC_MD5_96 => Some(IntegAlgorithm::HmacMd5_96),
            transform_id::AUTH_HMAC_SHA1_96 => Some(IntegAlgorithm::HmacSha1_96),
            transform_id::AUTH_HMAC_SHA2_256_128 => Some(IntegAlgorithm::HmacSha2_256_128),
            transform_id::AUTH_HMAC_SHA2_384_192 => Some(IntegAlgorithm::HmacSha2_384_192),
            transform_id::AUTH_HMAC_SHA2_512_256 => Some(IntegAlgorithm::HmacSha2_512_256),
            _ => None,
        }
    }

    /// The INTEG transform ID that names this algorithm.
    pub fn transform_id(self) -> (id: u16)
        ensures
            id == self.id(),
            Self::named(id) == Some(self),
    {
        match self {
            IntegAlgorithm::HmacMd5_96 => transform_id::AUTH_HMAC_MD5_96,
            IntegAlgorithm::HmacSha1_96 => transform_id::AUTH_HMAC_SHA1_96,
            IntegAlgorithm::HmacSha2_256_128 => transform_id::AUTH_HMAC_SHA2_256_128,
            IntegAlgorithm::HmacSha2_384_192 => transform_id::AUTH_HMAC_SHA2_384_192,
            IntegAlgorithm::HmacSha2_512_256 => transform_id::AUTH_HMAC_SHA2_512_256,
        }
    }

    /// The hash this algorithm is the HMAC of.
    pub fn hash(self) -> (base: HashAlgorithm)
        ensures
            base == self.base(),
    {
        match self {
            IntegAlgorithm::HmacMd5_96 => HashAlgorithm::Md5,
            IntegAlgorithm::HmacSha1_96 => HashAlgorithm::Sha1,
            IntegAlgorithm::HmacSha2_256_128 => HashAlgorithm::Sha256,
            IntegAlgorithm::HmacSha2_384_192 => HashAlgorithm::Sha384,
            IntegAlgorithm::HmacSha2_512_256 => HashAlgorithm::Sha512,
        }
    }

    /// The length of the key in octets: that of the hash.
    pub fn key_len(self) -> (len: usize)
        ensures
            len == self.base().size(),
    {
        self.hash().output_len()
    }

    /// The length of the check value in octets.
    pub fn icv_len(self) -> (len: usize)
        ensures
            len == self.icv_size(),
    {
        match self {
            IntegAlgorithm::HmacMd5_96 => 12,
            IntegAlgorithm::HmacSha1_96 => 12,
            IntegAlgorithm::HmacSha2_256_128 => 16,
            IntegAlgorithm::HmacSha2_384_192 => 24,
            IntegAlgorithm::HmacSha2_512_256 => 32,
        }
    }

    /// The check value of `data` under `key`.
    pub fn compute(self, key: &[u8], data: &[u8]) -> (icv: Vec<u8>)
        ensures
            icv@ == self.icv(key@, data@),
            icv@.len() == self.icv_size(),
    {
        let mut mac = hash::hmac(self.hash(), key, data);
        mac.truncate(self.icv_len());
        mac
    }
}

/// `prf(key, data)` (RFC 7296 §2.13).
pub open spec fn prf_of(algo: PrfAlgorithm, key: Seq<u8>, data: Seq<u8>) -> Seq<u8> {
    hash::hmac_of(algo.base(), key, data)
}

/// `prf(key, data)` (RFC 7296 §2.13).
pub fn prf(algo: PrfAlgorithm, key: &[u8], data: &[u8]) -> (out: Vec<u8>)
    ensures
        out@ == prf_of(algo, key@, data@),
        out@.len() == algo.size(),
{
    hash::hmac(algo.hash(), key, data)
}

/// `T<i>` of `prf+`: `prf(key, T<i-1> | seed | i)`, `T0` being empty.
pub open spec fn prf_plus_block(algo: PrfAlgorithm, key: Seq<u8>, seed: Seq<u8>, i: nat) -> Seq<u8>
    decreases i,
{
    if i == 0 {
        Seq::empty()
    } else {
        prf_of(algo, key, prf_plus_block(algo, key, seed, (i - 1) as nat) + seed + seq![i as u8])
    }
}

/// `T1 | T2 | ... | T<count>` of `prf+`.
pub open spec fn prf_plus_blocks(algo: PrfAlgorithm, key: Seq<u8>, seed: Seq<u8>, count: nat) -> Seq<u8>
    decreases count,
{
    if count == 0 {
        Seq::empty()
    } else {
        prf_plus_blocks(algo, key, seed, (count - 1) as nat) + prf_plus_block(algo, key, seed, count)
    }
}

/// How many PRF outputs `len` octets take.
pub open spec fn prf_plus_count(algo: PrfAlgorithm, len: nat) -> nat {
    ((len + algo.size() - 1) / algo.size() as int) as nat
}

/// The first `len` octets of `prf+(key, seed)` (RFC 7296 §2.13).
pub open spec fn prf_plus_of(algo: PrfAlgorithm, key: Seq<u8>, seed: Seq<u8>, len: nat) -> Seq<u8> {
    prf_plus_blocks(algo, key, seed, prf_plus_count(algo, len)).take(len as int)
}

proof fn lemma_count(len: int, size: int, count: int)
    requires
        0 < size,
        0 <= len,
        len <= count * size,
        count == 0 || (count - 1) * size < len,
        0 <= count,
    ensures
        (len + size - 1) / size == count,
{
    if count == 0 {
        assert((size - 1) / size == 0) by (nonlinear_arith)
            requires
                0 < size,
        ;
    } else {
        let rem = len + size - 1 - count * size;
        assert(0 <= rem < size) by (nonlinear_arith)
            requires
                (count - 1) * size < len,
                len <= count * size,
                rem == len + size - 1 - count * size,
                0 < size,
        ;
        assert(len + size - 1 == size * count + rem) by (nonlinear_arith)
            requires
                rem == len + size - 1 - count * size,
        ;
        vstd::arithmetic::div_mod::lemma_fundamental_div_mod_converse(len + size - 1, size, count, rem);
    }
}

/// The first `len` octets of `prf+(key, seed)` (RFC 7296 §2.13), whose octet
/// counter allows 255 PRF outputs.
pub fn prf_plus(algo: PrfAlgorithm, key: &[u8], seed: &[u8], len: usize) -> (out: Vec<u8>)
    requires
        len <= 255 * algo.size(),
    ensures
        out@ == prf_plus_of(algo, key@, seed@, len as nat),
        out@.len() == len,
{
    let size: usize = algo.output_len();
    let mut out: Vec<u8> = Vec::new();
    let mut block: Vec<u8> = Vec::new();
    let mut count: u8 = 0;
    while out.len() < len
        invariant
            size == algo.size(),
            12 <= size <= 64,
            len <= 255 * size,
            count <= 255,
            out@.len() == count * size,
            count > 0 ==> (count - 1) * size < len,
            out@ == prf_plus_blocks(algo, key@, seed@, count as nat),
            block@ == prf_plus_block(algo, key@, seed@, count as nat),
        decreases 256 - count,
    {
        assert(count < 255) by (nonlinear_arith)
            requires
                count * size < len,
                len <= 255 * size,
                0 < size,
        ;
        count = count + 1;
        let mut input: Vec<u8> = Vec::new();
        bytes::push_all(&mut input, &block);
        bytes::push_all(&mut input, seed);
        input.push(count);
        assert(input@ =~= block@ + seed@ + seq![count]);
        block = prf(algo, key, &input);
        bytes::push_all(&mut out, &block);
        assert(count * size == (count - 1) * size + size) by (nonlinear_arith);
    }
    proof {
        lemma_count(len as int, size as int, count as int);
    }
    out.truncate(len);
    out
}

/// How long each derived key is, in octets.
#[derive(Debug, Clone, Copy, PartialEq, Eq, Structural)]
pub struct KeyLengths {
    pub prf: usize,
    pub integ: usize,
    pub encr: usize,
}

impl KeyLengths {
    /// The octets a whole key set takes.
    pub open spec fn total(self) -> int {
        3 * self.prf + 2 * self.integ + 2 * self.encr
    }
}

/// The keys of an IKE SA (RFC 7296 §2.14).
#[derive(Clone, PartialEq, Eq)]
pub struct SessionKeys {
    pub sk_d: Vec<u8>,
    pub sk_ai: Vec<u8>,
    pub sk_ar: Vec<u8>,
    pub sk_ei: Vec<u8>,
    pub sk_er: Vec<u8>,
    pub sk_pi: Vec<u8>,
    pub sk_pr: Vec<u8>,
}

/// [`SessionKeys`] as a value of the specification.
#[verifier::ext_equal]
pub struct Keys {
    pub sk_d: Seq<u8>,
    pub sk_ai: Seq<u8>,
    pub sk_ar: Seq<u8>,
    pub sk_ei: Seq<u8>,
    pub sk_er: Seq<u8>,
    pub sk_pi: Seq<u8>,
    pub sk_pr: Seq<u8>,
}

impl View for SessionKeys {
    type V = Keys;

    open spec fn view(&self) -> Keys {
        Keys {
            sk_d: self.sk_d@,
            sk_ai: self.sk_ai@,
            sk_ar: self.sk_ar@,
            sk_ei: self.sk_ei@,
            sk_er: self.sk_er@,
            sk_pi: self.sk_pi@,
            sk_pr: self.sk_pr@,
        }
    }
}

impl Keys {
    /// Whether every key has its length.
    pub open spec fn fits(self, lengths: KeyLengths) -> bool {
        &&& self.sk_d.len() == lengths.prf
        &&& self.sk_ai.len() == lengths.integ
        &&& self.sk_ar.len() == lengths.integ
        &&& self.sk_ei.len() == lengths.encr
        &&& self.sk_er.len() == lengths.encr
        &&& self.sk_pi.len() == lengths.prf
        &&& self.sk_pr.len() == lengths.prf
    }
}

/// The keys cut from `stream` in the order of RFC 7296 §2.14:
/// `SK_d | SK_ai | SK_ar | SK_ei | SK_er | SK_pi | SK_pr`.
pub open spec fn keys_cut(stream: Seq<u8>, lengths: KeyLengths) -> Keys {
    let a = lengths.prf as int;
    let b = a + lengths.integ;
    let c = b + lengths.integ;
    let d = c + lengths.encr;
    let e = d + lengths.encr;
    let f = e + lengths.prf;
    Keys {
        sk_d: stream.subrange(0, a),
        sk_ai: stream.subrange(a, b),
        sk_ar: stream.subrange(b, c),
        sk_ei: stream.subrange(c, d),
        sk_er: stream.subrange(d, e),
        sk_pi: stream.subrange(e, f),
        sk_pr: stream.subrange(f, f + lengths.prf),
    }
}

/// The key set `skeyseed` gives: `prf+(SKEYSEED, Ni | Nr | SPIi | SPIr)`, cut.
pub open spec fn keys_from(
    algo: PrfAlgorithm,
    skeyseed: Seq<u8>,
    ni: Seq<u8>,
    nr: Seq<u8>,
    spi_i: u64,
    spi_r: u64,
    lengths: KeyLengths,
) -> Keys {
    keys_cut(
        prf_plus_of(
            algo,
            skeyseed,
            ni + nr + bytes::be64(spi_i) + bytes::be64(spi_r),
            lengths.total() as nat,
        ),
        lengths,
    )
}

/// The keys of a new IKE SA: `SKEYSEED = prf(Ni | Nr, g^ir)` (RFC 7296 §2.14).
pub open spec fn session_keys(
    algo: PrfAlgorithm,
    shared: Seq<u8>,
    ni: Seq<u8>,
    nr: Seq<u8>,
    spi_i: u64,
    spi_r: u64,
    lengths: KeyLengths,
) -> Keys {
    keys_from(algo, prf_of(algo, ni + nr, shared), ni, nr, spi_i, spi_r, lengths)
}

/// The keys of a rekeyed IKE SA: `SKEYSEED = prf(SK_d, g^ir | Ni | Nr)`, `SK_d`
/// being the old SA's (RFC 7296 §2.18).
pub open spec fn rekey_session_keys(
    algo: PrfAlgorithm,
    sk_d: Seq<u8>,
    shared: Seq<u8>,
    ni: Seq<u8>,
    nr: Seq<u8>,
    spi_i: u64,
    spi_r: u64,
    lengths: KeyLengths,
) -> Keys {
    keys_from(algo, prf_of(algo, sk_d, shared + ni + nr), ni, nr, spi_i, spi_r, lengths)
}

fn expand_keys(
    algo: PrfAlgorithm,
    skeyseed: &[u8],
    ni: &[u8],
    nr: &[u8],
    spi_i: u64,
    spi_r: u64,
    lengths: KeyLengths,
) -> (keys: SessionKeys)
    requires
        lengths.total() <= 255 * algo.size(),
    ensures
        keys@ == keys_from(algo, skeyseed@, ni@, nr@, spi_i, spi_r, lengths),
        keys@.fits(lengths),
{
    let mut seed: Vec<u8> = Vec::new();
    bytes::push_all(&mut seed, ni);
    bytes::push_all(&mut seed, nr);
    bytes::push64(&mut seed, spi_i);
    bytes::push64(&mut seed, spi_r);
    assert(seed@ =~= ni@ + nr@ + bytes::be64(spi_i) + bytes::be64(spi_r));
    let a: usize = lengths.prf;
    let b: usize = a + lengths.integ;
    let c: usize = b + lengths.integ;
    let d: usize = c + lengths.encr;
    let e: usize = d + lengths.encr;
    let f: usize = e + lengths.prf;
    let total: usize = f + lengths.prf;
    let stream = prf_plus(algo, skeyseed, &seed, total);
    SessionKeys {
        sk_d: bytes::copy(bytes::range(&stream, 0, a)),
        sk_ai: bytes::copy(bytes::range(&stream, a, b)),
        sk_ar: bytes::copy(bytes::range(&stream, b, c)),
        sk_ei: bytes::copy(bytes::range(&stream, c, d)),
        sk_er: bytes::copy(bytes::range(&stream, d, e)),
        sk_pi: bytes::copy(bytes::range(&stream, e, f)),
        sk_pr: bytes::copy(bytes::range(&stream, f, total)),
    }
}

/// The keys of a new IKE SA from its Diffie-Hellman secret, nonces and SPIs
/// (RFC 7296 §2.14).
pub fn derive_session_keys(
    algo: PrfAlgorithm,
    shared: &[u8],
    ni: &[u8],
    nr: &[u8],
    spi_i: u64,
    spi_r: u64,
    lengths: KeyLengths,
) -> (keys: SessionKeys)
    requires
        lengths.total() <= 255 * algo.size(),
    ensures
        keys@ == session_keys(algo, shared@, ni@, nr@, spi_i, spi_r, lengths),
        keys@.fits(lengths),
{
    let mut nonces: Vec<u8> = Vec::new();
    bytes::push_all(&mut nonces, ni);
    bytes::push_all(&mut nonces, nr);
    assert(nonces@ =~= ni@ + nr@);
    let skeyseed = prf(algo, &nonces, shared);
    expand_keys(algo, &skeyseed, ni, nr, spi_i, spi_r, lengths)
}

/// The keys of a rekeyed IKE SA from the old SA's `SK_d` and the new exchange
/// (RFC 7296 §2.18).
pub fn derive_rekey_session_keys(
    algo: PrfAlgorithm,
    sk_d: &[u8],
    shared: &[u8],
    ni: &[u8],
    nr: &[u8],
    spi_i: u64,
    spi_r: u64,
    lengths: KeyLengths,
) -> (keys: SessionKeys)
    requires
        lengths.total() <= 255 * algo.size(),
    ensures
        keys@ == rekey_session_keys(algo, sk_d@, shared@, ni@, nr@, spi_i, spi_r, lengths),
        keys@.fits(lengths),
{
    let mut input: Vec<u8> = Vec::new();
    bytes::push_all(&mut input, shared);
    bytes::push_all(&mut input, ni);
    bytes::push_all(&mut input, nr);
    assert(input@ =~= shared@ + ni@ + nr@);
    let skeyseed = prf(algo, sk_d, &input);
    expand_keys(algo, &skeyseed, ni, nr, spi_i, spi_r, lengths)
}

} // verus!
