//! Block ciphers, and CBC over them (RFC 3602, RFC 2451).

use vstd::prelude::*;

use crate::bytes;
use aes::cipher::{BlockDecrypt, BlockEncrypt, KeyInit};

verus! {

/// The block ciphers an SK payload may be encrypted with.
#[derive(Debug, Clone, Copy, PartialEq, Eq, Structural)]
pub enum BlockCipher {
    Aes128,
    Aes192,
    Aes256,
    TripleDes,
}

/// One block enciphered with AES-128.
pub uninterp spec fn aes128_enciphered(key: Seq<u8>, block: Seq<u8>) -> [u8; 16];

/// One block enciphered with AES-192.
pub uninterp spec fn aes192_enciphered(key: Seq<u8>, block: Seq<u8>) -> [u8; 16];

/// One block enciphered with AES-256.
pub uninterp spec fn aes256_enciphered(key: Seq<u8>, block: Seq<u8>) -> [u8; 16];

/// One block enciphered with 3DES-EDE3.
pub uninterp spec fn tdes_enciphered(key: Seq<u8>, block: Seq<u8>) -> [u8; 8];

/// One block enciphered with DES.
pub uninterp spec fn des_enciphered(key: Seq<u8>, block: Seq<u8>) -> [u8; 8];

/// `des::Des::encrypt_block`: the result depends on the key and the block alone
/// and is one block.
#[verifier::external_body]
pub(crate) fn des_encrypt_block(key: &[u8], block: &[u8]) -> (out: Vec<u8>)
    requires
        key@.len() == 8,
        block@.len() == 8,
    ensures
        out@ == des_enciphered(key@, block@)@,
{
    let mut out = *des::cipher::Block::<des::Des>::from_slice(block);
    des::Des::new_from_slice(key).unwrap().encrypt_block(&mut out);
    out.to_vec()
}

/// `aes::Aes128::encrypt_block`: the result depends on the key and the block
/// alone and is one block.
#[verifier::external_body]
fn aes128_encrypt_block(key: &[u8], block: &[u8]) -> (out: Vec<u8>)
    requires
        key@.len() == 16,
        block@.len() == 16,
    ensures
        out@ == aes128_enciphered(key@, block@)@,
{
    let mut out = *aes::cipher::Block::<aes::Aes128>::from_slice(block);
    aes::Aes128::new_from_slice(key).unwrap().encrypt_block(&mut out);
    out.to_vec()
}

/// `aes::Aes128::decrypt_block`, the inverse of its `encrypt_block`: the result
/// is the one block that enciphers to `block`.
#[verifier::external_body]
fn aes128_decrypt_block(key: &[u8], block: &[u8]) -> (out: Vec<u8>)
    requires
        key@.len() == 16,
        block@.len() == 16,
    ensures
        out@.len() == 16,
        aes128_enciphered(key@, out@)@ == block@,
        forall|other: Seq<u8>|
            other.len() == 16 && #[trigger] aes128_enciphered(key@, other)@ == block@ ==> other == out@,
{
    let mut out = *aes::cipher::Block::<aes::Aes128>::from_slice(block);
    aes::Aes128::new_from_slice(key).unwrap().decrypt_block(&mut out);
    out.to_vec()
}

/// `aes::Aes192::encrypt_block`: the result depends on the key and the block
/// alone and is one block.
#[verifier::external_body]
fn aes192_encrypt_block(key: &[u8], block: &[u8]) -> (out: Vec<u8>)
    requires
        key@.len() == 24,
        block@.len() == 16,
    ensures
        out@ == aes192_enciphered(key@, block@)@,
{
    let mut out = *aes::cipher::Block::<aes::Aes192>::from_slice(block);
    aes::Aes192::new_from_slice(key).unwrap().encrypt_block(&mut out);
    out.to_vec()
}

/// `aes::Aes192::decrypt_block`, the inverse of its `encrypt_block`: the result
/// is the one block that enciphers to `block`.
#[verifier::external_body]
fn aes192_decrypt_block(key: &[u8], block: &[u8]) -> (out: Vec<u8>)
    requires
        key@.len() == 24,
        block@.len() == 16,
    ensures
        out@.len() == 16,
        aes192_enciphered(key@, out@)@ == block@,
        forall|other: Seq<u8>|
            other.len() == 16 && #[trigger] aes192_enciphered(key@, other)@ == block@ ==> other == out@,
{
    let mut out = *aes::cipher::Block::<aes::Aes192>::from_slice(block);
    aes::Aes192::new_from_slice(key).unwrap().decrypt_block(&mut out);
    out.to_vec()
}

/// `aes::Aes256::encrypt_block`: the result depends on the key and the block
/// alone and is one block.
#[verifier::external_body]
fn aes256_encrypt_block(key: &[u8], block: &[u8]) -> (out: Vec<u8>)
    requires
        key@.len() == 32,
        block@.len() == 16,
    ensures
        out@ == aes256_enciphered(key@, block@)@,
{
    let mut out = *aes::cipher::Block::<aes::Aes256>::from_slice(block);
    aes::Aes256::new_from_slice(key).unwrap().encrypt_block(&mut out);
    out.to_vec()
}

/// `aes::Aes256::decrypt_block`, the inverse of its `encrypt_block`: the result
/// is the one block that enciphers to `block`.
#[verifier::external_body]
fn aes256_decrypt_block(key: &[u8], block: &[u8]) -> (out: Vec<u8>)
    requires
        key@.len() == 32,
        block@.len() == 16,
    ensures
        out@.len() == 16,
        aes256_enciphered(key@, out@)@ == block@,
        forall|other: Seq<u8>|
            other.len() == 16 && #[trigger] aes256_enciphered(key@, other)@ == block@ ==> other == out@,
{
    let mut out = *aes::cipher::Block::<aes::Aes256>::from_slice(block);
    aes::Aes256::new_from_slice(key).unwrap().decrypt_block(&mut out);
    out.to_vec()
}

/// `des::TdesEde3::encrypt_block`: the result depends on the key and the block
/// alone and is one block.
#[verifier::external_body]
fn tdes_encrypt_block(key: &[u8], block: &[u8]) -> (out: Vec<u8>)
    requires
        key@.len() == 24,
        block@.len() == 8,
    ensures
        out@ == tdes_enciphered(key@, block@)@,
{
    let mut out = *aes::cipher::Block::<des::TdesEde3>::from_slice(block);
    des::TdesEde3::new_from_slice(key).unwrap().encrypt_block(&mut out);
    out.to_vec()
}

/// `des::TdesEde3::decrypt_block`, the inverse of its `encrypt_block`: the result
/// is the one block that enciphers to `block`.
#[verifier::external_body]
fn tdes_decrypt_block(key: &[u8], block: &[u8]) -> (out: Vec<u8>)
    requires
        key@.len() == 24,
        block@.len() == 8,
    ensures
        out@.len() == 8,
        tdes_enciphered(key@, out@)@ == block@,
        forall|other: Seq<u8>|
            other.len() == 8 && #[trigger] tdes_enciphered(key@, other)@ == block@ ==> other == out@,
{
    let mut out = *aes::cipher::Block::<des::TdesEde3>::from_slice(block);
    des::TdesEde3::new_from_slice(key).unwrap().decrypt_block(&mut out);
    out.to_vec()
}

impl BlockCipher {
    /// The length of the key in octets.
    pub open spec fn key_size(self) -> nat {
        match self {
            BlockCipher::Aes128 => 16,
            BlockCipher::Aes192 => 24,
            BlockCipher::Aes256 => 32,
            BlockCipher::TripleDes => 24,
        }
    }

    /// The length of a block in octets.
    pub open spec fn block_size(self) -> nat {
        match self {
            BlockCipher::TripleDes => 8,
            _ => 16,
        }
    }

    /// One block enciphered.
    pub open spec fn enciphered(self, key: Seq<u8>, block: Seq<u8>) -> Seq<u8> {
        match self {
            BlockCipher::Aes128 => aes128_enciphered(key, block)@,
            BlockCipher::Aes192 => aes192_enciphered(key, block)@,
            BlockCipher::Aes256 => aes256_enciphered(key, block)@,
            BlockCipher::TripleDes => tdes_enciphered(key, block)@,
        }
    }

    /// The length of a key in octets.
    pub fn key_len(self) -> (len: usize)
        ensures
            len == self.key_size(),
    {
        match self {
            BlockCipher::Aes128 => 16,
            BlockCipher::Aes192 => 24,
            BlockCipher::Aes256 => 32,
            BlockCipher::TripleDes => 24,
        }
    }

    /// The length of a block in octets.
    pub fn block_len(self) -> (len: usize)
        ensures
            len == self.block_size(),
    {
        match self {
            BlockCipher::TripleDes => 8,
            _ => 16,
        }
    }

    /// Encipher one block.
    fn encrypt_block(self, key: &[u8], block: &[u8]) -> (out: Vec<u8>)
        requires
            key@.len() == self.key_size(),
            block@.len() == self.block_size(),
        ensures
            out@ == self.enciphered(key@, block@),
            out@.len() == self.block_size(),
    {
        match self {
            BlockCipher::Aes128 => aes128_encrypt_block(key, block),
            BlockCipher::Aes192 => aes192_encrypt_block(key, block),
            BlockCipher::Aes256 => aes256_encrypt_block(key, block),
            BlockCipher::TripleDes => tdes_encrypt_block(key, block),
        }
    }

    /// Decipher one block.
    fn decrypt_block(self, key: &[u8], block: &[u8]) -> (out: Vec<u8>)
        requires
            key@.len() == self.key_size(),
            block@.len() == self.block_size(),
        ensures
            out@.len() == self.block_size(),
            self.enciphered(key@, out@) == block@,
            forall|other: Seq<u8>|
                other.len() == self.block_size() && #[trigger] self.enciphered(key@, other) == block@
                    ==> other == out@,
    {
        match self {
            BlockCipher::Aes128 => aes128_decrypt_block(key, block),
            BlockCipher::Aes192 => aes192_decrypt_block(key, block),
            BlockCipher::Aes256 => aes256_decrypt_block(key, block),
            BlockCipher::TripleDes => tdes_decrypt_block(key, block),
        }
    }
}

/// CBC mode keeps the length of a whole number of blocks.
pub proof fn lemma_cbc_len(cipher: BlockCipher, key: Seq<u8>, previous: Seq<u8>, plaintext: Seq<u8>)
    requires
        plaintext.len() % cipher.block_size() == 0,
    ensures
        cbc_enciphered(cipher, key, previous, plaintext).len() == plaintext.len(),
    decreases plaintext.len(),
{
    let n = cipher.block_size() as int;
    if plaintext.len() < n {
        vstd::arithmetic::div_mod::lemma_small_mod(plaintext.len(), n as nat);
    } else {
        let block = cipher.enciphered(key, xored(plaintext.take(n), previous));
        vstd::arithmetic::div_mod::lemma_mod_sub_multiples_vanish(plaintext.len() as int, n);
        lemma_cbc_len(cipher, key, block, plaintext.skip(n));
    }
}

/// `a` and `b` combined octet by octet.
pub open spec fn xored(a: Seq<u8>, b: Seq<u8>) -> Seq<u8> {
    Seq::new(a.len(), |i: int| a[i] ^ b[i])
}

/// `plaintext`, a whole number of blocks, enciphered in CBC mode after `previous`.
pub open spec fn cbc_enciphered(
    cipher: BlockCipher,
    key: Seq<u8>,
    previous: Seq<u8>,
    plaintext: Seq<u8>,
) -> Seq<u8>
    decreases plaintext.len(),
{
    let n = cipher.block_size() as int;
    if plaintext.len() < n {
        Seq::empty()
    } else {
        let block = cipher.enciphered(key, xored(plaintext.take(n), previous));
        block + cbc_enciphered(cipher, key, block, plaintext.skip(n))
    }
}

/// Whether `plaintext` is what `ciphertext` enciphers.
pub open spec fn cbc_opens(
    cipher: BlockCipher,
    key: Seq<u8>,
    iv: Seq<u8>,
    ciphertext: Seq<u8>,
    plaintext: Seq<u8>,
) -> bool {
    plaintext.len() == ciphertext.len() && cbc_enciphered(cipher, key, iv, plaintext) == ciphertext
}

fn xor(a: &[u8], b: &[u8]) -> (out: Vec<u8>)
    requires
        a@.len() == b@.len(),
    ensures
        out@ == xored(a@, b@),
{
    let mut out: Vec<u8> = Vec::new();
    for i in 0..a.len()
        invariant
            a@.len() == b@.len(),
            out@ == xored(a@, b@).take(i as int),
    {
        out.push(a[i] ^ b[i]);
        assert(out@ =~= xored(a@, b@).take(i + 1));
    }
    assert(out@ =~= xored(a@, b@));
    out
}

/// Combining twice with the same octets changes nothing.
proof fn lemma_xor_twice(a: Seq<u8>, b: Seq<u8>)
    requires
        a.len() == b.len(),
    ensures
        xored(xored(a, b), b) == a,
{
    assert forall|i: int| 0 <= i < a.len() implies (a[i] ^ b[i]) ^ b[i] == a[i] by {
        let x = a[i];
        let y = b[i];
        assert((x ^ y) ^ y == x) by (bit_vector);
    }
    assert(xored(xored(a, b), b) =~= a);
}

/// Encipher a whole number of blocks in CBC mode.
pub fn cbc_encrypt(cipher: BlockCipher, key: &[u8], iv: &[u8], plaintext: &[u8]) -> (out: Vec<u8>)
    requires
        key@.len() == cipher.key_size(),
        iv@.len() == cipher.block_size(),
        plaintext@.len() % cipher.block_size() == 0,
    ensures
        out@ == cbc_enciphered(cipher, key@, iv@, plaintext@),
        out@.len() == plaintext@.len(),
{
    let n: usize = cipher.block_len();
    let mut out: Vec<u8> = Vec::new();
    let mut previous: Vec<u8> = bytes::copy(iv);
    let mut at: usize = 0;
    assert(plaintext@.skip(0) =~= plaintext@);
    assert(out@ + cbc_enciphered(cipher, key@, iv@, plaintext@) =~= cbc_enciphered(
        cipher,
        key@,
        iv@,
        plaintext@,
    ));
    while at < plaintext.len()
        invariant
            n == cipher.block_size(),
            key@.len() == cipher.key_size(),
            previous@.len() == n,
            (plaintext@.len() - at) % (n as int) == 0,
            at <= plaintext@.len(),
            out@.len() == at,
            out@ + cbc_enciphered(cipher, key@, previous@, plaintext@.skip(at as int)) == cbc_enciphered(
                cipher,
                key@,
                iv@,
                plaintext@,
            ),
        decreases plaintext@.len() - at,
    {
        let ghost before = out@;
        let ghost prior = previous@;
        proof {
            let left = plaintext@.len() - at;
            assert(left >= n) by {
                if left < n {
                    vstd::arithmetic::div_mod::lemma_small_mod(left as nat, n as nat);
                }
            }
            assert((left - n) % (n as int) == 0) by {
                vstd::arithmetic::div_mod::lemma_mod_sub_multiples_vanish(left, n as int);
            }
        }
        let block: &[u8] = bytes::range(plaintext, at, at + n);
        let enciphered = cipher.encrypt_block(key, &xor(block, &previous));
        bytes::push_all(&mut out, &enciphered);
        proof {
            let rest = plaintext@.skip(at as int);
            assert(rest.take(n as int) =~= block@);
            assert(rest.skip(n as int) =~= plaintext@.skip(at + n));
            let others = cbc_enciphered(cipher, key@, enciphered@, plaintext@.skip(at + n));
            assert(cbc_enciphered(cipher, key@, prior, rest) == enciphered@ + others);
            assert((before + enciphered@) + others =~= before + (enciphered@ + others));
        }
        previous = enciphered;
        at = at + n;
    }
    assert(plaintext@.skip(at as int) =~= Seq::<u8>::empty());
    assert(out@ + Seq::<u8>::empty() =~= out@);
    out
}

/// Decipher a whole number of blocks in CBC mode: the one plaintext that
/// enciphers to `ciphertext`.
pub fn cbc_decrypt(cipher: BlockCipher, key: &[u8], iv: &[u8], ciphertext: &[u8]) -> (out: Vec<u8>)
    requires
        key@.len() == cipher.key_size(),
        iv@.len() == cipher.block_size(),
        ciphertext@.len() % cipher.block_size() == 0,
    ensures
        cbc_opens(cipher, key@, iv@, ciphertext@, out@),
        forall|other: Seq<u8>|
            #[trigger] cbc_opens(cipher, key@, iv@, ciphertext@, other) ==> other == out@,
    decreases ciphertext@.len(),
{
    let n: usize = cipher.block_len();
    if ciphertext.len() == 0 {
        let out: Vec<u8> = Vec::new();
        assert forall|other: Seq<u8>| #[trigger]
            cbc_opens(cipher, key@, iv@, ciphertext@, other) implies other == out@ by {
            assert(other =~= out@);
        }
        assert(cbc_enciphered(cipher, key@, iv@, out@) =~= ciphertext@);
        return out;
    }
    proof {
        let left = ciphertext@.len() as int;
        assert(left >= n) by {
            if left < n {
                vstd::arithmetic::div_mod::lemma_small_mod(left as nat, n as nat);
            }
        }
        assert((left - n) % (n as int) == 0) by {
            vstd::arithmetic::div_mod::lemma_mod_sub_multiples_vanish(left, n as int);
        }
    }
    let first: &[u8] = bytes::range(ciphertext, 0, n);
    let rest: &[u8] = bytes::tail(ciphertext, n);
    let mixed = cipher.decrypt_block(key, first);
    let block = xor(&mixed, iv);
    let others = cbc_decrypt(cipher, key, first, rest);
    let mut out: Vec<u8> = Vec::new();
    bytes::push_all(&mut out, &block);
    bytes::push_all(&mut out, &others);
    proof {
        assert(out@ =~= block@ + others@);
        assert(out@.take(n as int) =~= block@);
        assert(out@.skip(n as int) =~= others@);
        lemma_xor_twice(mixed@, iv@);
        assert(first@ + rest@ =~= ciphertext@);
        assert(cbc_enciphered(cipher, key@, iv@, out@) == first@ + rest@);
        assert forall|other: Seq<u8>| #[trigger]
            cbc_opens(cipher, key@, iv@, ciphertext@, other) implies other == out@ by {
            let head = cipher.enciphered(key@, xored(other.take(n as int), iv@));
            let tail = cbc_enciphered(cipher, key@, head, other.skip(n as int));
            assert(head + tail == ciphertext@);
            assert(tail.len() == rest@.len());
            assert(head =~= (head + tail).take(n as int));
            assert(head =~= first@);
            assert(tail =~= (head + tail).skip(n as int));
            assert(tail =~= rest@);
            assert(xored(other.take(n as int), iv@).len() == n);
            lemma_xor_twice(other.take(n as int), iv@);
            assert(cbc_opens(cipher, key@, first@, rest@, other.skip(n as int)));
            assert(other =~= other.take(n as int) + other.skip(n as int));
        }
    }
    out
}

} // verus!
