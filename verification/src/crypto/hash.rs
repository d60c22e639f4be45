//! Hash functions, and HMAC over them (RFC 2104).

use vstd::prelude::*;

use crate::bytes;
use sha1::Digest;

verus! {

/// The hash functions an IKE PRF or integrity algorithm is built on.
#[derive(Debug, Clone, Copy, PartialEq, Eq, Structural)]
pub enum HashAlgorithm {
    Md5,
    Sha1,
    Sha256,
    Sha384,
    Sha512,
}

/// The MD4 digest of `data`.
pub uninterp spec fn md4_of(data: Seq<u8>) -> [u8; 16];

/// The MD5 digest of `data`.
pub uninterp spec fn md5_of(data: Seq<u8>) -> [u8; 16];

/// The SHA-1 digest of `data`.
pub uninterp spec fn sha1_of(data: Seq<u8>) -> [u8; 20];

/// The SHA-256 digest of `data`.
pub uninterp spec fn sha256_of(data: Seq<u8>) -> [u8; 32];

/// The SHA-384 digest of `data`.
pub uninterp spec fn sha384_of(data: Seq<u8>) -> [u8; 48];

/// The SHA-512 digest of `data`.
pub uninterp spec fn sha512_of(data: Seq<u8>) -> [u8; 64];

/// `md4::Md4::digest`: the digest depends on `data` alone and is 16 octets.
#[verifier::external_body]
pub(crate) fn md4_digest(data: &[u8]) -> (digest: Vec<u8>)
    ensures
        digest@ == md4_of(data@)@,
{
    md4::Md4::digest(data).to_vec()
}

/// `md5::Md5::digest` (package `md-5`): the digest depends on `data` alone and
/// is 16 octets.
#[verifier::external_body]
pub(crate) fn md5_digest(data: &[u8]) -> (digest: Vec<u8>)
    ensures
        digest@ == md5_of(data@)@,
{
    md5::Md5::digest(data).to_vec()
}

/// `sha1::Sha1::digest`: the digest depends on `data` alone and is 20 octets.
#[verifier::external_body]
pub(crate) fn sha1_digest(data: &[u8]) -> (digest: Vec<u8>)
    ensures
        digest@ == sha1_of(data@)@,
{
    sha1::Sha1::digest(data).to_vec()
}

/// `sha2::Sha256::digest`: the digest depends on `data` alone and is 32 octets.
#[verifier::external_body]
pub(crate) fn sha256_digest(data: &[u8]) -> (digest: Vec<u8>)
    ensures
        digest@ == sha256_of(data@)@,
{
    sha2::Sha256::digest(data).to_vec()
}

/// `sha2::Sha384::digest`: the digest depends on `data` alone and is 48 octets.
#[verifier::external_body]
pub(crate) fn sha384_digest(data: &[u8]) -> (digest: Vec<u8>)
    ensures
        digest@ == sha384_of(data@)@,
{
    sha2::Sha384::digest(data).to_vec()
}

/// `sha2::Sha512::digest`: the digest depends on `data` alone and is 64 octets.
#[verifier::external_body]
pub(crate) fn sha512_digest(data: &[u8]) -> (digest: Vec<u8>)
    ensures
        digest@ == sha512_of(data@)@,
{
    sha2::Sha512::digest(data).to_vec()
}

impl HashAlgorithm {
    /// The digest of `data` under this hash.
    pub open spec fn digested(self, data: Seq<u8>) -> Seq<u8> {
        match self {
            HashAlgorithm::Md5 => md5_of(data)@,
            HashAlgorithm::Sha1 => sha1_of(data)@,
            HashAlgorithm::Sha256 => sha256_of(data)@,
            HashAlgorithm::Sha384 => sha384_of(data)@,
            HashAlgorithm::Sha512 => sha512_of(data)@,
        }
    }

    /// The length of a digest in octets.
    pub open spec fn size(self) -> nat {
        match self {
            HashAlgorithm::Md5 => 16,
            HashAlgorithm::Sha1 => 20,
            HashAlgorithm::Sha256 => 32,
            HashAlgorithm::Sha384 => 48,
            HashAlgorithm::Sha512 => 64,
        }
    }

    /// The length of the blocks the hash works on, in octets.
    pub open spec fn block(self) -> nat {
        match self {
            HashAlgorithm::Md5 => 64,
            HashAlgorithm::Sha1 => 64,
            HashAlgorithm::Sha256 => 64,
            HashAlgorithm::Sha384 => 128,
            HashAlgorithm::Sha512 => 128,
        }
    }

    /// The length of a digest in octets.
    pub fn output_len(self) -> (len: usize)
        ensures
            len == self.size(),
    {
        match self {
            HashAlgorithm::Md5 => 16,
            HashAlgorithm::Sha1 => 20,
            HashAlgorithm::Sha256 => 32,
            HashAlgorithm::Sha384 => 48,
            HashAlgorithm::Sha512 => 64,
        }
    }

    /// The length of the blocks the hash works on, in octets.
    pub fn block_len(self) -> (len: usize)
        ensures
            len == self.block(),
    {
        match self {
            HashAlgorithm::Md5 | HashAlgorithm::Sha1 | HashAlgorithm::Sha256 => 64,
            HashAlgorithm::Sha384 | HashAlgorithm::Sha512 => 128,
        }
    }

    /// The digest of `data`.
    pub fn digest(self, data: &[u8]) -> (digest: Vec<u8>)
        ensures
            digest@ == self.digested(data@),
            digest@.len() == self.size(),
    {
        match self {
            HashAlgorithm::Md5 => md5_digest(data),
            HashAlgorithm::Sha1 => sha1_digest(data),
            HashAlgorithm::Sha256 => sha256_digest(data),
            HashAlgorithm::Sha384 => sha384_digest(data),
            HashAlgorithm::Sha512 => sha512_digest(data),
        }
    }
}

/// `key` as one block of `hash`: hashed when it is longer, then filled up with zeros.
pub open spec fn hmac_key(hash: HashAlgorithm, key: Seq<u8>) -> Seq<u8> {
    let short = if key.len() > hash.block() {
        hash.digested(key)
    } else {
        key
    };
    Seq::new(hash.block(), |i: int| if i < short.len() { short[i] } else { 0u8 })
}

/// Every octet of `block` combined with `pad`.
pub open spec fn padded(block: Seq<u8>, pad: u8) -> Seq<u8> {
    Seq::new(block.len(), |i: int| block[i] ^ pad)
}

/// HMAC (RFC 2104): `H(K ^ opad | H(K ^ ipad | data))`.
pub open spec fn hmac_of(hash: HashAlgorithm, key: Seq<u8>, data: Seq<u8>) -> Seq<u8> {
    let block = hmac_key(hash, key);
    hash.digested(padded(block, 0x5c) + hash.digested(padded(block, 0x36) + data))
}

/// Append every octet of `block` combined with `pad`.
fn push_padded(out: &mut Vec<u8>, block: &[u8], pad: u8)
    ensures
        final(out)@ == old(out)@ + padded(block@, pad),
{
    for i in 0..block.len()
        invariant
            out@ == old(out)@ + padded(block@, pad).take(i as int),
    {
        out.push(block[i] ^ pad);
        assert(out@ =~= old(out)@ + padded(block@, pad).take(i + 1));
    }
    assert(padded(block@, pad).take(block@.len() as int) =~= padded(block@, pad));
}

/// `key` as one block of `hash`.
fn block_of(hash: HashAlgorithm, key: &[u8]) -> (block: Vec<u8>)
    ensures
        block@ == hmac_key(hash, key@),
{
    let mut block: Vec<u8> = Vec::new();
    if key.len() > hash.block_len() {
        bytes::push_all(&mut block, &hash.digest(key));
    } else {
        bytes::push_all(&mut block, key);
    }
    let fill: usize = hash.block_len() - block.len();
    bytes::push_zeros(&mut block, fill);
    assert(block@ =~= hmac_key(hash, key@));
    block
}

/// The HMAC of `data` under `key`.
pub fn hmac(hash: HashAlgorithm, key: &[u8], data: &[u8]) -> (mac: Vec<u8>)
    ensures
        mac@ == hmac_of(hash, key@, data@),
        mac@.len() == hash.size(),
{
    let block = block_of(hash, key);
    let mut inner: Vec<u8> = Vec::new();
    push_padded(&mut inner, &block, 0x36);
    bytes::push_all(&mut inner, data);
    assert(inner@ =~= padded(block@, 0x36) + data@);
    let mut outer: Vec<u8> = Vec::new();
    push_padded(&mut outer, &block, 0x5c);
    bytes::push_all(&mut outer, &hash.digest(&inner));
    assert(outer@ =~= padded(block@, 0x5c) + hash.digested(inner@));
    hash.digest(&outer)
}

} // verus!
