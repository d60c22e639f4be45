//! What the cryptographic core computes, written out over the hashes and ciphers
//! themselves: the order of keys, data, counters and octets that every other
//! implementation of the same algorithms keeps to.

use vstd::arithmetic::power::pow;
use vstd::prelude::*;

use crate::bytes;
use crate::crypto::aead;
use crate::crypto::aead::AeadCipher;
use crate::crypto::block;
use crate::crypto::block::BlockCipher;
use crate::crypto::dh::DhGroup;
use crate::crypto::ec;
use crate::crypto::hash;
use crate::crypto::hash::HashAlgorithm;
use crate::crypto::modp;
use crate::crypto::number;
use crate::crypto::prf;
use crate::crypto::prf::{IntegAlgorithm, KeyLengths, Keys, PrfAlgorithm};
use crate::error::Failure;

verus! {

/// Each hash algorithm runs the hash of its name, on whole blocks of 64 octets or,
/// for SHA-384 and SHA-512, of 128.
pub proof fn law_hashes_are_their_own(data: Seq<u8>)
    ensures
        HashAlgorithm::Md5.digested(data) == hash::md5_of(data)@,
        HashAlgorithm::Sha1.digested(data) == hash::sha1_of(data)@,
        HashAlgorithm::Sha256.digested(data) == hash::sha256_of(data)@,
        HashAlgorithm::Sha384.digested(data) == hash::sha384_of(data)@,
        HashAlgorithm::Sha512.digested(data) == hash::sha512_of(data)@,
        HashAlgorithm::Md5.size() == 16 && HashAlgorithm::Md5.block() == 64,
        HashAlgorithm::Sha1.size() == 20 && HashAlgorithm::Sha1.block() == 64,
        HashAlgorithm::Sha256.size() == 32 && HashAlgorithm::Sha256.block() == 64,
        HashAlgorithm::Sha384.size() == 48 && HashAlgorithm::Sha384.block() == 128,
        HashAlgorithm::Sha512.size() == 64 && HashAlgorithm::Sha512.block() == 128,
{
}

/// HMAC hashes the data behind the key that was filled up with zeros and mixed with
/// 0x36, and that hash behind the key mixed with 0x5c; a key longer than a block
/// counts as its own hash (RFC 2104).
pub proof fn law_hmac(hash: HashAlgorithm, key: Seq<u8>, data: Seq<u8>)
    ensures
        key.len() <= hash.block() ==> {
            let filled = key + Seq::new((hash.block() - key.len()) as nat, |i: int| 0u8);
            let inner = Seq::new(hash.block(), |i: int| filled[i] ^ 0x36u8);
            let outer = Seq::new(hash.block(), |i: int| filled[i] ^ 0x5cu8);
            hash::hmac_of(hash, key, data) == hash.digested(outer + hash.digested(inner + data))
        },
        key.len() > hash.block() ==> hash::hmac_of(hash, key, data) == hash::hmac_of(hash, hash.digested(key), data),
{
    let block = hash::hmac_key(hash, key);
    if key.len() <= hash.block() {
        let filled = key + Seq::new((hash.block() - key.len()) as nat, |i: int| 0u8);
        assert(block =~= filled);
        assert(hash::padded(block, 0x36) =~= Seq::new(hash.block(), |i: int| filled[i] ^ 0x36u8));
        assert(hash::padded(block, 0x5c) =~= Seq::new(hash.block(), |i: int| filled[i] ^ 0x5cu8));
    } else {
        assert(hash.digested(key).len() <= hash.block());
        assert(block =~= hash::hmac_key(hash, hash.digested(key)));
    }
}

/// Every PRF is HMAC with its hash, under its key and over its data; the Transform
/// IDs 1, 2, 5, 6 and 7 name the five, and nothing else names one.
pub proof fn law_prf_is_hmac(key: Seq<u8>, data: Seq<u8>, id: u16)
    ensures
        prf::prf_of(PrfAlgorithm::Md5, key, data) == hash::hmac_of(HashAlgorithm::Md5, key, data),
        prf::prf_of(PrfAlgorithm::Sha1, key, data) == hash::hmac_of(HashAlgorithm::Sha1, key, data),
        prf::prf_of(PrfAlgorithm::Sha256, key, data) == hash::hmac_of(HashAlgorithm::Sha256, key, data),
        prf::prf_of(PrfAlgorithm::Sha384, key, data) == hash::hmac_of(HashAlgorithm::Sha384, key, data),
        prf::prf_of(PrfAlgorithm::Sha512, key, data) == hash::hmac_of(HashAlgorithm::Sha512, key, data),
        PrfAlgorithm::Md5.size() == 16,
        PrfAlgorithm::Sha1.size() == 20,
        PrfAlgorithm::Sha256.size() == 32,
        PrfAlgorithm::Sha384.size() == 48,
        PrfAlgorithm::Sha512.size() == 64,
        PrfAlgorithm::named(id) == Some(PrfAlgorithm::Md5) <==> id == 1,
        PrfAlgorithm::named(id) == Some(PrfAlgorithm::Sha1) <==> id == 2,
        PrfAlgorithm::named(id) == Some(PrfAlgorithm::Sha256) <==> id == 5,
        PrfAlgorithm::named(id) == Some(PrfAlgorithm::Sha384) <==> id == 6,
        PrfAlgorithm::named(id) == Some(PrfAlgorithm::Sha512) <==> id == 7,
{
}

/// Every integrity algorithm is HMAC with its hash, cut off after 12, 12, 16, 24 or
/// 32 octets; the Transform IDs 1, 2, 12, 13 and 14 name the five, and nothing else
/// names one.
pub proof fn law_icv_is_cut_hmac(key: Seq<u8>, data: Seq<u8>, id: u16)
    ensures
        IntegAlgorithm::HmacMd5_96.icv(key, data) == hash::hmac_of(HashAlgorithm::Md5, key, data).subrange(0, 12),
        IntegAlgorithm::HmacSha1_96.icv(key, data) == hash::hmac_of(HashAlgorithm::Sha1, key, data).subrange(0, 12),
        IntegAlgorithm::HmacSha2_256_128.icv(key, data) == hash::hmac_of(HashAlgorithm::Sha256, key, data).subrange(
            0,
            16,
        ),
        IntegAlgorithm::HmacSha2_384_192.icv(key, data) == hash::hmac_of(HashAlgorithm::Sha384, key, data).subrange(
            0,
            24,
        ),
        IntegAlgorithm::HmacSha2_512_256.icv(key, data) == hash::hmac_of(HashAlgorithm::Sha512, key, data).subrange(
            0,
            32,
        ),
        IntegAlgorithm::HmacMd5_96.icv_size() == 12 && IntegAlgorithm::HmacMd5_96.base().size() == 16,
        IntegAlgorithm::HmacSha1_96.icv_size() == 12 && IntegAlgorithm::HmacSha1_96.base().size() == 20,
        IntegAlgorithm::HmacSha2_256_128.icv_size() == 16 && IntegAlgorithm::HmacSha2_256_128.base().size() == 32,
        IntegAlgorithm::HmacSha2_384_192.icv_size() == 24 && IntegAlgorithm::HmacSha2_384_192.base().size() == 48,
        IntegAlgorithm::HmacSha2_512_256.icv_size() == 32 && IntegAlgorithm::HmacSha2_512_256.base().size() == 64,
        IntegAlgorithm::named(id) == Some(IntegAlgorithm::HmacMd5_96) <==> id == 1,
        IntegAlgorithm::named(id) == Some(IntegAlgorithm::HmacSha1_96) <==> id == 2,
        IntegAlgorithm::named(id) == Some(IntegAlgorithm::HmacSha2_256_128) <==> id == 12,
        IntegAlgorithm::named(id) == Some(IntegAlgorithm::HmacSha2_384_192) <==> id == 13,
        IntegAlgorithm::named(id) == Some(IntegAlgorithm::HmacSha2_512_256) <==> id == 14,
        IntegAlgorithm::HmacMd5_96.id() == 1,
        IntegAlgorithm::HmacSha1_96.id() == 2,
        IntegAlgorithm::HmacSha2_256_128.id() == 12,
        IntegAlgorithm::HmacSha2_384_192.id() == 13,
        IntegAlgorithm::HmacSha2_512_256.id() == 14,
{
}

/// The first `count` blocks of `prf+` are `count` whole blocks.
proof fn lemma_blocks_len(algo: PrfAlgorithm, key: Seq<u8>, seed: Seq<u8>, count: nat)
    ensures
        prf::prf_plus_blocks(algo, key, seed, count).len() == count * algo.size(),
        forall|i: nat| 0 < i <= count ==> (#[trigger] prf::prf_plus_block(algo, key, seed, i)).len() == algo.size(),
    decreases count,
{
    if count > 0 {
        lemma_blocks_len(algo, key, seed, (count - 1) as nat);
        assert(count * algo.size() == (count - 1) * algo.size() + algo.size()) by (nonlinear_arith)
            requires
                count > 0,
        ;
    } else {
        assert(0 * algo.size() == 0) by (nonlinear_arith);
    }
}

/// More blocks of `prf+` begin with the ones before.
proof fn lemma_blocks_extend(algo: PrfAlgorithm, key: Seq<u8>, seed: Seq<u8>, less: nat, more: nat)
    requires
        less <= more,
    ensures
        less * algo.size() <= more * algo.size(),
        prf::prf_plus_blocks(algo, key, seed, more).take((less * algo.size()) as int) == prf::prf_plus_blocks(
            algo,
            key,
            seed,
            less,
        ),
    decreases more,
{
    let size = algo.size();
    lemma_blocks_len(algo, key, seed, less);
    lemma_blocks_len(algo, key, seed, more);
    assert(less * size <= more * size) by (nonlinear_arith)
        requires
            less <= more,
            0 <= size,
    ;
    if less < more {
        let before = (more - 1) as nat;
        lemma_blocks_extend(algo, key, seed, less, before);
        lemma_blocks_len(algo, key, seed, before);
        let all = prf::prf_plus_blocks(algo, key, seed, more);
        let most = prf::prf_plus_blocks(algo, key, seed, before);
        assert(all.take((less * size) as int) =~= most.take((less * size) as int));
    } else {
        assert(prf::prf_plus_blocks(algo, key, seed, more).take((less * size) as int) =~= prf::prf_plus_blocks(
            algo,
            key,
            seed,
            less,
        ));
    }
}

/// The output of `prf+` has the length asked for.
proof fn lemma_stream_len(algo: PrfAlgorithm, key: Seq<u8>, seed: Seq<u8>, len: nat)
    ensures
        prf::prf_plus_of(algo, key, seed, len).len() == len,
        len <= prf::prf_plus_count(algo, len) * algo.size(),
{
    let count = prf::prf_plus_count(algo, len);
    let size = algo.size();
    lemma_blocks_len(algo, key, seed, count);
    assert(len <= count * size) by (nonlinear_arith)
        requires
            count == (len + size - 1) / (size as int),
            0 < size,
            0 <= len,
    ;
}

/// The output of `prf+` is T1 | T2 | ..: T1 is the PRF of the seed and the octet 1,
/// and each block after it the PRF of the block before, the seed and its own number
/// (RFC 7296 §2.13). Asked for fewer octets, it gives a prefix.
pub proof fn law_prf_plus_chains(algo: PrfAlgorithm, key: Seq<u8>, seed: Seq<u8>, len: nat, i: nat)
    ensures
        prf::prf_plus_of(algo, key, seed, len).len() == len,
        algo.size() <= len ==> prf::prf_plus_of(algo, key, seed, len).subrange(0, algo.size() as int)
            == hash::hmac_of(algo.base(), key, seed + seq![1u8]),
        1 <= i < 255 && (i + 1) * algo.size() <= len ==> {
            let size = algo.size() as int;
            let stream = prf::prf_plus_of(algo, key, seed, len);
            stream.subrange(i * size, (i + 1) * size) == hash::hmac_of(
                algo.base(),
                key,
                stream.subrange((i - 1) * size, i * size) + seed + seq![(i + 1) as u8],
            )
        },
        forall|less: nat| less <= len ==> #[trigger] prf::prf_plus_of(algo, key, seed, less) == prf::prf_plus_of(
            algo,
            key,
            seed,
            len,
        ).subrange(0, less as int),
{
    let size = algo.size() as int;
    let count = prf::prf_plus_count(algo, len);
    let stream = prf::prf_plus_of(algo, key, seed, len);
    lemma_stream_len(algo, key, seed, len);
    lemma_blocks_len(algo, key, seed, count);
    if algo.size() <= len {
        lemma_block_at(algo, key, seed, len, 0);
        assert(Seq::<u8>::empty() + seed + seq![1u8] =~= seed + seq![1u8]);
        assert(0 * size == 0 && 1 * size == size);
        assert(prf::prf_plus_block(algo, key, seed, 0) == Seq::<u8>::empty());
        assert(prf::prf_plus_block(algo, key, seed, 1) == hash::hmac_of(algo.base(), key, seed + seq![1u8]));
    }
    if 1 <= i < 255 && (i + 1) * algo.size() <= len {
        assert(i * size <= (i + 1) * size) by (nonlinear_arith)
            requires
                0 <= size,
        ;
        assert((i + 1) * algo.size() == (i + 1) * size);
        lemma_block_at(algo, key, seed, len, i);
        lemma_block_at(algo, key, seed, len, (i - 1) as nat);
        assert(prf::prf_plus_block(algo, key, seed, (i + 1) as nat) == prf::prf_of(
            algo,
            key,
            prf::prf_plus_block(algo, key, seed, i) + seed + seq![(i + 1) as u8],
        ));
    }
    assert forall|less: nat| less <= len implies #[trigger] prf::prf_plus_of(algo, key, seed, less) == stream.subrange(
        0,
        less as int,
    ) by {
        let fewer = prf::prf_plus_count(algo, less);
        assert(fewer <= count) by (nonlinear_arith)
            requires
                fewer == (less + size - 1) / size,
                count == (len + size - 1) / size,
                less <= len,
                0 < size,
        ;
        lemma_stream_len(algo, key, seed, less);
        lemma_blocks_extend(algo, key, seed, fewer, count);
        lemma_blocks_len(algo, key, seed, fewer);
        assert(prf::prf_plus_of(algo, key, seed, less) =~= stream.subrange(0, less as int));
    }
}

/// Where one block stands in the output of `prf+`.
proof fn lemma_block_at(algo: PrfAlgorithm, key: Seq<u8>, seed: Seq<u8>, len: nat, i: nat)
    requires
        (i + 1) * algo.size() <= len,
    ensures
        0 <= i * algo.size() <= (i + 1) * algo.size(),
        prf::prf_plus_of(algo, key, seed, len).subrange((i * algo.size()) as int, ((i + 1) * algo.size()) as int)
            == prf::prf_plus_block(algo, key, seed, i + 1),
{
    let size = algo.size();
    let count = prf::prf_plus_count(algo, len);
    lemma_stream_len(algo, key, seed, len);
    lemma_blocks_len(algo, key, seed, count);
    lemma_blocks_len(algo, key, seed, i);
    lemma_blocks_len(algo, key, seed, i + 1);
    assert(i + 1 <= count) by (nonlinear_arith)
        requires
            (i + 1) * size <= len,
            len <= count * size,
            0 < size,
    ;
    assert(0 <= i * size && i * size + size == (i + 1) * size) by (nonlinear_arith)
        requires
            0 <= i,
            0 <= size,
    ;
    lemma_blocks_extend(algo, key, seed, i + 1, count);
    let stream = prf::prf_plus_of(algo, key, seed, len);
    let all = prf::prf_plus_blocks(algo, key, seed, count);
    let some = prf::prf_plus_blocks(algo, key, seed, i + 1);
    assert(some == prf::prf_plus_blocks(algo, key, seed, i) + prf::prf_plus_block(algo, key, seed, i + 1));
    assert(all.take(((i + 1) * size) as int) == some);
    assert(stream.subrange((i * size) as int, ((i + 1) * size) as int) =~= all.take(
        ((i + 1) * size) as int,
    ).subrange((i * size) as int, ((i + 1) * size) as int));
    assert(some.subrange((i * size) as int, ((i + 1) * size) as int) =~= prf::prf_plus_block(algo, key, seed, i + 1));
    assert(stream.subrange((i * size) as int, ((i + 1) * size) as int) =~= prf::prf_plus_block(algo, key, seed, i + 1));
}

/// Whether these are the seven keys cut one after the other off `stream`: SK_d, SK_ai,
/// SK_ar, SK_ei, SK_er, SK_pi, SK_pr (RFC 7296 §2.14).
pub open spec fn keys_are(keys: Keys, stream: Seq<u8>, prf: int, integ: int, encr: int) -> bool {
    &&& keys.sk_d.len() == prf && keys.sk_pi.len() == prf && keys.sk_pr.len() == prf
    &&& keys.sk_ai.len() == integ && keys.sk_ar.len() == integ
    &&& keys.sk_ei.len() == encr && keys.sk_er.len() == encr
    &&& stream == keys.sk_d + keys.sk_ai + keys.sk_ar + keys.sk_ei + keys.sk_er + keys.sk_pi + keys.sk_pr
}

/// What is cut off a stream of the right length are the seven keys in their order.
proof fn lemma_keys_cut(stream: Seq<u8>, lengths: KeyLengths)
    requires
        stream.len() == 3 * lengths.prf + 2 * lengths.integ + 2 * lengths.encr,
    ensures
        keys_are(
            prf::keys_cut(stream, lengths),
            stream,
            lengths.prf as int,
            lengths.integ as int,
            lengths.encr as int,
        ),
{
    let keys = prf::keys_cut(stream, lengths);
    assert(stream =~= keys.sk_d + keys.sk_ai + keys.sk_ar + keys.sk_ei + keys.sk_er + keys.sk_pi + keys.sk_pr);
}

/// The keys of an IKE SA are cut off `prf+(SKEYSEED, Ni | Nr | SPIi | SPIr)`, where
/// SKEYSEED is HMAC under Ni | Nr over the Diffie-Hellman secret.
pub proof fn law_session_keys(
    algo: PrfAlgorithm,
    shared: Seq<u8>,
    ni: Seq<u8>,
    nr: Seq<u8>,
    spi_i: u64,
    spi_r: u64,
    lengths: KeyLengths,
)
    ensures
        keys_are(
            prf::session_keys(algo, shared, ni, nr, spi_i, spi_r, lengths),
            prf::prf_plus_of(
                algo,
                hash::hmac_of(algo.base(), ni + nr, shared),
                ni + nr + bytes::be64(spi_i) + bytes::be64(spi_r),
                (3 * lengths.prf + 2 * lengths.integ + 2 * lengths.encr) as nat,
            ),
            lengths.prf as int,
            lengths.integ as int,
            lengths.encr as int,
        ),
{
    let stream = prf::prf_plus_of(
        algo,
        hash::hmac_of(algo.base(), ni + nr, shared),
        ni + nr + bytes::be64(spi_i) + bytes::be64(spi_r),
        lengths.total() as nat,
    );
    lemma_stream_len(
        algo,
        hash::hmac_of(algo.base(), ni + nr, shared),
        ni + nr + bytes::be64(spi_i) + bytes::be64(spi_r),
        lengths.total() as nat,
    );
    lemma_keys_cut(stream, lengths);
}

/// The keys of an IKE SA that takes the place of another are cut off
/// `prf+(SKEYSEED, Ni | Nr | SPIi | SPIr)`, where SKEYSEED is HMAC under the old SA's
/// SK_d over the new Diffie-Hellman secret and then Ni | Nr (RFC 7296 §2.18).
pub proof fn law_rekey_session_keys(
    algo: PrfAlgorithm,
    sk_d: Seq<u8>,
    shared: Seq<u8>,
    ni: Seq<u8>,
    nr: Seq<u8>,
    spi_i: u64,
    spi_r: u64,
    lengths: KeyLengths,
)
    ensures
        keys_are(
            prf::rekey_session_keys(algo, sk_d, shared, ni, nr, spi_i, spi_r, lengths),
            prf::prf_plus_of(
                algo,
                hash::hmac_of(algo.base(), sk_d, shared + ni + nr),
                ni + nr + bytes::be64(spi_i) + bytes::be64(spi_r),
                (3 * lengths.prf + 2 * lengths.integ + 2 * lengths.encr) as nat,
            ),
            lengths.prf as int,
            lengths.integ as int,
            lengths.encr as int,
        ),
{
    let seed = ni + nr + bytes::be64(spi_i) + bytes::be64(spi_r);
    let skeyseed = hash::hmac_of(algo.base(), sk_d, shared + ni + nr);
    lemma_stream_len(algo, skeyseed, seed, lengths.total() as nat);
    lemma_keys_cut(prf::prf_plus_of(algo, skeyseed, seed, lengths.total() as nat), lengths);
}

/// Each AEAD cipher seals with the algorithm of its name, under a key of 16, 24, 32 or
/// 32 octets, and adds 16 octets.
pub proof fn law_aead_is_its_own(key: Seq<u8>, nonce: Seq<u8>, aad: Seq<u8>, plaintext: Seq<u8>)
    ensures
        ({
            let len = (plaintext.len() + 16) as nat;
            &&& AeadCipher::Aes128Gcm.sealed(key, nonce, aad, plaintext) == Seq::new(
                len,
                |i: int| aead::aes128_gcm_sealed(key, nonce, aad, plaintext)[i],
            )
            &&& AeadCipher::Aes192Gcm.sealed(key, nonce, aad, plaintext) == Seq::new(
                len,
                |i: int| aead::aes192_gcm_sealed(key, nonce, aad, plaintext)[i],
            )
            &&& AeadCipher::Aes256Gcm.sealed(key, nonce, aad, plaintext) == Seq::new(
                len,
                |i: int| aead::aes256_gcm_sealed(key, nonce, aad, plaintext)[i],
            )
            &&& AeadCipher::ChaCha20Poly1305.sealed(key, nonce, aad, plaintext) == Seq::new(
                len,
                |i: int| aead::chacha20_poly1305_sealed(key, nonce, aad, plaintext)[i],
            )
        }),
        AeadCipher::Aes128Gcm.key_size() == 16,
        AeadCipher::Aes192Gcm.key_size() == 24,
        AeadCipher::Aes256Gcm.key_size() == 32,
        AeadCipher::ChaCha20Poly1305.key_size() == 32,
{
    let len = (plaintext.len() + 16) as nat;
    assert(AeadCipher::Aes128Gcm.sealed(key, nonce, aad, plaintext) =~= Seq::new(
        len,
        |i: int| aead::aes128_gcm_sealed(key, nonce, aad, plaintext)[i],
    ));
    assert(AeadCipher::Aes192Gcm.sealed(key, nonce, aad, plaintext) =~= Seq::new(
        len,
        |i: int| aead::aes192_gcm_sealed(key, nonce, aad, plaintext)[i],
    ));
    assert(AeadCipher::Aes256Gcm.sealed(key, nonce, aad, plaintext) =~= Seq::new(
        len,
        |i: int| aead::aes256_gcm_sealed(key, nonce, aad, plaintext)[i],
    ));
    assert(AeadCipher::ChaCha20Poly1305.sealed(key, nonce, aad, plaintext) =~= Seq::new(
        len,
        |i: int| aead::chacha20_poly1305_sealed(key, nonce, aad, plaintext)[i],
    ));
}

/// Each block cipher enciphers with the algorithm of its name: AES on blocks of 16
/// octets, Triple DES on blocks of 8.
pub proof fn law_block_cipher_is_its_own(key: Seq<u8>, block: Seq<u8>)
    ensures
        BlockCipher::Aes128.enciphered(key, block) == block::aes128_enciphered(key, block)@,
        BlockCipher::Aes192.enciphered(key, block) == block::aes192_enciphered(key, block)@,
        BlockCipher::Aes256.enciphered(key, block) == block::aes256_enciphered(key, block)@,
        BlockCipher::TripleDes.enciphered(key, block) == block::tdes_enciphered(key, block)@,
        BlockCipher::Aes128.key_size() == 16 && BlockCipher::Aes128.block_size() == 16,
        BlockCipher::Aes192.key_size() == 24 && BlockCipher::Aes192.block_size() == 16,
        BlockCipher::Aes256.key_size() == 32 && BlockCipher::Aes256.block_size() == 16,
        BlockCipher::TripleDes.key_size() == 24 && BlockCipher::TripleDes.block_size() == 8,
{
}

/// In CBC each block of ciphertext is the enciphering of its plaintext block mixed
/// with the ciphertext block before it, the first with the initialization vector.
pub proof fn law_cbc_chains(cipher: BlockCipher, key: Seq<u8>, iv: Seq<u8>, plaintext: Seq<u8>, i: nat)
    requires
        plaintext.len() % cipher.block_size() == 0,
        iv.len() == cipher.block_size(),
        (i + 1) * cipher.block_size() <= plaintext.len(),
    ensures
        ({
            let n = cipher.block_size() as int;
            let out = block::cbc_enciphered(cipher, key, iv, plaintext);
            let previous = if i == 0 {
                iv
            } else {
                out.subrange((i - 1) * n, i * n)
            };
            &&& out.len() == plaintext.len()
            &&& out.subrange(i * n, (i + 1) * n) == cipher.enciphered(
                key,
                Seq::new(n as nat, |j: int| plaintext[i * n + j] ^ previous[j]),
            )
        }),
    decreases i,
{
    let n = cipher.block_size() as int;
    let out = block::cbc_enciphered(cipher, key, iv, plaintext);
    block::lemma_cbc_len(cipher, key, iv, plaintext);
    let first = cipher.enciphered(key, block::xored(plaintext.take(n), iv));
    let rest = plaintext.skip(n);
    let after = block::cbc_enciphered(cipher, key, first, rest);
    assert(n <= plaintext.len()) by (nonlinear_arith)
        requires
            (i + 1) * n <= plaintext.len(),
            0 <= i,
            0 <= n,
    ;
    assert(first.len() == n);
    assert(out == first + after);
    assert(0 * n == 0 && 1 * n == n);
    assert(out.subrange(0, n) =~= first);
    if i == 0 {
        assert(block::xored(plaintext.take(n), iv) =~= Seq::new(n as nat, |j: int| plaintext[0 * n + j] ^ iv[j]));
    } else {
        let k = (i - 1) as nat;
        assert((k + 1) * n == i * n);
        assert(i * n + n == (i + 1) * n) by (nonlinear_arith);
        assert(k * n + n == i * n) by (nonlinear_arith)
            requires
                k == i - 1,
        ;
        assert(rest.len() == plaintext.len() - n);
        assert(rest.len() % (n as nat) == 0) by {
            vstd::arithmetic::div_mod::lemma_mod_sub_multiples_vanish(plaintext.len() as int, n);
        }
        law_cbc_chains(cipher, key, first, rest, k);
        block::lemma_cbc_len(cipher, key, first, rest);
        assert(after.subrange(k * n, (k + 1) * n) =~= out.subrange(i * n, (i + 1) * n));
        let previous = out.subrange((i - 1) * n, i * n);
        let earlier = if k == 0 {
            first
        } else {
            after.subrange((k - 1) * n, k * n)
        };
        if k > 0 {
            assert((k - 1) * n + n == k * n) by (nonlinear_arith);
            assert(0 <= (k - 1) * n) by (nonlinear_arith)
                requires
                    k >= 1,
                    n >= 0,
            ;
        }
        assert(previous =~= earlier);
        assert(Seq::new(n as nat, |j: int| rest[k * n + j] ^ earlier[j]) =~= Seq::new(
            n as nat,
            |j: int| plaintext[i * n + j] ^ previous[j],
        ));
    }
}

/// The Diffie-Hellman groups have the Transform IDs 1, 2, 5, 14 to 21 and 31, and
/// public values of the size of the prime, of two coordinates, or of 32 octets.
pub proof fn law_groups_have_their_numbers(id: u16)
    ensures
        DhGroup::named(id) == Some(DhGroup::Modp768) <==> id == 1,
        DhGroup::named(id) == Some(DhGroup::Modp1024) <==> id == 2,
        DhGroup::named(id) == Some(DhGroup::Modp1536) <==> id == 5,
        DhGroup::named(id) == Some(DhGroup::Modp2048) <==> id == 14,
        DhGroup::named(id) == Some(DhGroup::Modp3072) <==> id == 15,
        DhGroup::named(id) == Some(DhGroup::Modp4096) <==> id == 16,
        DhGroup::named(id) == Some(DhGroup::Modp6144) <==> id == 17,
        DhGroup::named(id) == Some(DhGroup::Modp8192) <==> id == 18,
        DhGroup::named(id) == Some(DhGroup::EcpP256) <==> id == 19,
        DhGroup::named(id) == Some(DhGroup::EcpP384) <==> id == 20,
        DhGroup::named(id) == Some(DhGroup::EcpP521) <==> id == 21,
        DhGroup::named(id) == Some(DhGroup::X25519) <==> id == 31,
        DhGroup::named(id) matches Some(group) ==> group.id() == id,
        DhGroup::X25519.public_size() == 32,
        DhGroup::EcpP256.public_size() == 2 * 32,
        DhGroup::EcpP384.public_size() == 2 * 48,
        DhGroup::EcpP521.public_size() == 2 * 66,
        forall|group: DhGroup| #[trigger] group.is_modp() ==> 8 * group.public_size() == group.prime_bits(),
        DhGroup::Modp768.prime_bits() == 768,
        DhGroup::Modp1024.prime_bits() == 1024,
        DhGroup::Modp1536.prime_bits() == 1536,
        DhGroup::Modp2048.prime_bits() == 2048,
        DhGroup::Modp3072.prime_bits() == 3072,
        DhGroup::Modp4096.prime_bits() == 4096,
        DhGroup::Modp6144.prime_bits() == 6144,
        DhGroup::Modp8192.prime_bits() == 8192,
{
}

/// In a MODP group the public value is 2 to the private one modulo the prime, and the
/// secret the peer's public value to the private one, both written in as many octets as
/// the prime; a public value of another length, of 0, 1 or the prime less one or more is
/// refused.
pub proof fn law_modp(group: DhGroup, private: Seq<u8>, peer: Seq<u8>)
    requires
        group.is_modp(),
    ensures
        ({
            let p = number::number(group.prime()) as int;
            let x = number::number(private);
            let value = number::number(peer) as int;
            let public = group.public_of(private);
            let secret = group.shared_of(private, peer);
            &&& public.len() == group.public_size() && number::number(public) == pow(2, x) % p
            &&& secret is Ok <==> peer.len() == group.public_size() && 2 <= value < p - 1
            &&& secret matches Ok(octets) ==> octets.len() == group.public_size() && number::number(octets) == pow(
                value,
                x,
            ) % p
        }),
{
    reveal(DhGroup::public_of);
    reveal(DhGroup::shared_of);
    let p = number::number(group.prime()) as int;
    let x = number::number(private);
    let value = number::number(peer) as int;
    let len = group.public_size();
    modp::law_primes_are_framed_by_ones(group.prime_bits());
    number::lemma_number_floor(group.prime());
    number::lemma_span_grows(0, (group.prime().len() - 1) as nat);
    number::lemma_number_bound(group.prime());
    vstd::arithmetic::div_mod::lemma_mod_bound(pow(2, x), p);
    vstd::arithmetic::div_mod::lemma_mod_bound(pow(value, x), p);
    number::lemma_written_len((pow(2, x) % p) as nat, len);
    number::lemma_written_len((pow(value, x) % p) as nat, len);
    number::lemma_number_written((pow(2, x) % p) as nat, len);
    number::lemma_number_written((pow(value, x) % p) as nat, len);
}

/// With X25519 the public value is the product of the private one and the base point, and
/// the secret its product with the peer's public value; an all-zero secret is refused.
pub proof fn law_x25519(private: Seq<u8>, peer: Seq<u8>)
    ensures
        DhGroup::X25519.public_of(private) == ec::x25519_product(private, ec::x25519_base())@,
        peer.len() == 32 && (exists|i: int| 0 <= i < 32 && #[trigger] ec::x25519_product(private, peer)@[i] != 0)
            ==> DhGroup::X25519.shared_of(private, peer) == Ok::<Seq<u8>, Failure>(
            ec::x25519_product(private, peer)@,
        ),
        peer.len() != 32 || (forall|i: int| 0 <= i < 32 ==> #[trigger] ec::x25519_product(private, peer)@[i] == 0)
            ==> DhGroup::X25519.shared_of(private, peer) is Err,
{
    reveal(DhGroup::public_of);
    reveal(DhGroup::shared_of);
    let secret = ec::x25519_product(private, peer)@;
    if forall|i: int| 0 <= i < 32 ==> #[trigger] secret[i] == 0 {
        assert(secret =~= bytes::zeros(32));
    }
}

/// On a curve the public value is both coordinates of the product of the private value
/// and the base point; the secret is the first coordinate of its product with the peer's
/// point, where there is one.
pub proof fn law_curves(private: Seq<u8>, peer: Seq<u8>)
    requires
        private.len() == 32,
    ensures
        ec::p256_product(private, ec::p256_base()) matches Some(both) ==> DhGroup::EcpP256.public_of(private) == both@,
        ({
            let wide = Seq::new(16, |i: int| 0u8) + private;
            ec::p384_product(wide, ec::p384_base()) matches Some(both) ==> DhGroup::EcpP384.public_of(private) == both@
        }),
        ({
            let wide = Seq::new(34, |i: int| 0u8) + private;
            ec::p521_product(wide, ec::p521_base()) matches Some(both) ==> DhGroup::EcpP521.public_of(private) == both@
        }),
        peer.len() == 64 ==> match ec::p256_product(private, peer) {
            Some(both) => DhGroup::EcpP256.shared_of(private, peer) == Ok::<Seq<u8>, Failure>(both@.subrange(0, 32)),
            None => DhGroup::EcpP256.shared_of(private, peer) is Err,
        },
        peer.len() == 96 ==> match ec::p384_product(Seq::new(16, |i: int| 0u8) + private, peer) {
            Some(both) => DhGroup::EcpP384.shared_of(private, peer) == Ok::<Seq<u8>, Failure>(both@.subrange(0, 48)),
            None => DhGroup::EcpP384.shared_of(private, peer) is Err,
        },
        peer.len() == 132 ==> match ec::p521_product(Seq::new(34, |i: int| 0u8) + private, peer) {
            Some(both) => DhGroup::EcpP521.shared_of(private, peer) == Ok::<Seq<u8>, Failure>(both@.subrange(0, 66)),
            None => DhGroup::EcpP521.shared_of(private, peer) is Err,
        },
        peer.len() != 64 ==> DhGroup::EcpP256.shared_of(private, peer) is Err,
        peer.len() != 96 ==> DhGroup::EcpP384.shared_of(private, peer) is Err,
        peer.len() != 132 ==> DhGroup::EcpP521.shared_of(private, peer) is Err,
{
    reveal(DhGroup::public_of);
    reveal(DhGroup::shared_of);
    assert(crate::crypto::dh::scalar(private, 48) =~= Seq::new(16, |i: int| 0u8) + private);
    assert(crate::crypto::dh::scalar(private, 66) =~= Seq::new(34, |i: int| 0u8) + private);
}

} // verus!
