//! What a sealed message and a sealed fragment look like, octet by octet: which key,
//! nonce, associated data and padding go into the cipher, and what the checksum covers.

use vstd::prelude::*;

use crate::bytes;
use crate::crypto::aead::AeadCipher;
use crate::crypto::block;
use crate::crypto::block::BlockCipher;
use crate::crypto::prf::IntegAlgorithm;
use crate::error::Failure;
use crate::ikev2::fragment;
use crate::ikev2::fragment::Piece;
use crate::ikev2::message;
use crate::ikev2::message::{IkeHeader, PayloadType};
use crate::ikev2::sk;
use crate::ikev2::sk::SkCipher;

verus! {

broadcast use crate::bytes::group_lengths;

/// Each cipher of an SK payload runs the algorithm of its name: a combined-mode one, or
/// CBC with its integrity algorithm.
pub proof fn law_sk_ciphers(integ: IntegAlgorithm)
    ensures
        SkCipher::Aes128Gcm.aead() == Some(AeadCipher::Aes128Gcm),
        SkCipher::Aes192Gcm.aead() == Some(AeadCipher::Aes192Gcm),
        SkCipher::Aes256Gcm.aead() == Some(AeadCipher::Aes256Gcm),
        SkCipher::ChaCha20Poly1305.aead() == Some(AeadCipher::ChaCha20Poly1305),
        SkCipher::TripleDesCbc(integ).aead() is None && SkCipher::TripleDesCbc(integ).integ() == Some(integ)
            && SkCipher::TripleDesCbc(integ).classic() == BlockCipher::TripleDes,
        SkCipher::Aes128Cbc(integ).aead() is None && SkCipher::Aes128Cbc(integ).integ() == Some(integ)
            && SkCipher::Aes128Cbc(integ).classic() == BlockCipher::Aes128,
        SkCipher::Aes192Cbc(integ).aead() is None && SkCipher::Aes192Cbc(integ).integ() == Some(integ)
            && SkCipher::Aes192Cbc(integ).classic() == BlockCipher::Aes192,
        SkCipher::Aes256Cbc(integ).aead() is None && SkCipher::Aes256Cbc(integ).integ() == Some(integ)
            && SkCipher::Aes256Cbc(integ).classic() == BlockCipher::Aes256,
        SkCipher::Aes128Gcm.icv_size() == 16 && SkCipher::Aes192Gcm.icv_size() == 16 && SkCipher::Aes256Gcm.icv_size()
            == 16 && SkCipher::ChaCha20Poly1305.icv_size() == 16,
        SkCipher::Aes256Cbc(integ).icv_size() == integ.icv_size(),
{
}

/// Whether `wire` is the front of a sealed message: the header, with the one payload's
/// type, flags and all, and the length of everything; the type of the first payload
/// inside; a clear octet; the length of the payload; and what else its header holds.
pub open spec fn front(wire: Seq<u8>, header: IkeHeader, kind: u8, first: u8, extra: Seq<u8>) -> bool {
    &&& wire.len() >= 32 + extra.len()
    &&& wire.subrange(0, 8) == bytes::be64(header.initiator_spi)
    &&& wire.subrange(8, 16) == bytes::be64(header.responder_spi)
    &&& wire[16] == kind
    &&& wire[17] == (header.major_version % 16) * 16 + header.minor_version % 16
    &&& wire[18] == header.exchange_type.octet()
    &&& wire[19] == header.flags.octet()
    &&& wire.subrange(20, 24) == bytes::be32(header.message_id)
    &&& wire.subrange(24, 28) == bytes::be32(wire.len() as u32)
    &&& wire[28] == first && wire[29] == 0
    &&& wire[30] * 256 + wire[31] == wire.len() - 28
    &&& wire.subrange(32, 32 + extra.len() as int) == extra
}

/// Whether what follows the first `at` octets of `wire` is `content` sealed with a
/// combined-mode cipher: the eight octets of `iv`, and the cipher's output under all of
/// the key but its last four octets, with those and `iv` as the nonce, those `at` octets
/// as associated data, and `content` with no padding and a Pad Length of 0 as plaintext.
pub open spec fn combined_after(
    wire: Seq<u8>,
    at: int,
    aead: AeadCipher,
    sk_e: Seq<u8>,
    iv: Seq<u8>,
    content: Seq<u8>,
) -> bool {
    &&& wire.len() == at + 8 + content.len() + 1 + 16
    &&& wire.subrange(at, at + 8) == iv
    &&& wire.subrange(at + 8, wire.len() as int) == aead.sealed(
        sk_e.subrange(0, sk_e.len() - 4),
        sk_e.subrange(sk_e.len() - 4, sk_e.len() as int) + iv,
        wire.subrange(0, at),
        content + seq![0u8],
    )
}

/// Whether what follows the first `at` octets of `wire` is `content` sealed with CBC: an
/// initialization vector of one block, that of `seed` repeated; `content`, zeros up to
/// one octet short of a block and their number, enciphered; and the checksum of all that
/// comes before it.
pub open spec fn chained_after(
    wire: Seq<u8>,
    at: int,
    cipher: BlockCipher,
    integ: IntegAlgorithm,
    sk_e: Seq<u8>,
    sk_a: Seq<u8>,
    seed: Seq<u8>,
    content: Seq<u8>,
) -> bool {
    let n = cipher.block_size() as int;
    let end = wire.len() - integ.icv_size();
    let pad = end - at - n - content.len() - 1;
    let iv = wire.subrange(at, at + n);
    &&& 0 <= pad < n
    &&& (content.len() + pad + 1) % n == 0
    &&& forall|i: int| 0 <= i < n ==> #[trigger] iv[i] == seed[i % 8]
    &&& wire.subrange(at + n, end) == block::cbc_enciphered(
        cipher,
        sk_e,
        iv,
        content + Seq::new(pad as nat, |i: int| 0u8) + seq![pad as u8],
    )
    &&& wire.subrange(end, wire.len() as int) == integ.icv(sk_a, wire.subrange(0, end))
}

proof fn lemma_front(
    cipher: SkCipher,
    header: IkeHeader,
    kind: PayloadType,
    first: u8,
    extra: Seq<u8>,
    sk_e: Seq<u8>,
    sk_a: Seq<u8>,
    seed: Seq<u8>,
    content: Seq<u8>,
)
    requires
        seed.len() == 8,
        4 + extra.len() + sk::protected_size(cipher, content.len()) < 0x1_0000,
    ensures
        ({
            let wire = sk::sealed_message(cipher, header, kind, first, extra, sk_e, sk_a, seed, content);
            let prefix = sk::preamble(cipher, header, kind, first, extra, content.len());
            &&& front(wire, header, kind.octet(), first, extra)
            &&& wire.len() == 32 + extra.len() + sk::protected_size(cipher, content.len())
            &&& wire == prefix + sk::protected(cipher, sk_e, sk_a, prefix, seed, content)
            &&& prefix == wire.subrange(0, 32 + extra.len() as int)
        }),
{
    reveal(sk::sealed_message);
    reveal(sk::preamble);
    reveal(IkeHeader::octets);
    let wire = sk::sealed_message(cipher, header, kind, first, extra, sk_e, sk_a, seed, content);
    let prefix = sk::preamble(cipher, header, kind, first, extra, content.len());
    sk::lemma_protected_len(cipher, sk_e, sk_a, prefix, seed, content);
    sk::lemma_preamble_len(cipher, header, kind, first, extra, content.len());
    assert(wire.subrange(0, 8) =~= bytes::be64(header.initiator_spi));
    assert(wire.subrange(8, 16) =~= bytes::be64(header.responder_spi));
    assert(wire.subrange(20, 24) =~= bytes::be32(header.message_id));
    assert(wire.subrange(24, 28) =~= bytes::be32(wire.len() as u32));
    assert(wire.subrange(32, 32 + extra.len() as int) =~= extra);
    assert(prefix =~= wire.subrange(0, 32 + extra.len() as int));
}

proof fn lemma_combined(
    cipher: SkCipher,
    header: IkeHeader,
    kind: PayloadType,
    first: u8,
    extra: Seq<u8>,
    sk_e: Seq<u8>,
    sk_a: Seq<u8>,
    seed: Seq<u8>,
    content: Seq<u8>,
)
    requires
        seed.len() == 8,
        cipher.aead() is Some,
        sk::sealable(cipher, sk_e, extra.len(), content.len()),
    ensures
        ({
            let wire = sk::sealed_message(cipher, header, kind, first, extra, sk_e, sk_a, seed, content);
            &&& front(wire, header, kind.octet(), first, extra)
            &&& combined_after(wire, 32 + extra.len() as int, cipher.aead()->0, sk_e, seed, content)
        }),
{
    reveal(sk::protected);
    lemma_front(cipher, header, kind, first, extra, sk_e, sk_a, seed, content);
    let wire = sk::sealed_message(cipher, header, kind, first, extra, sk_e, sk_a, seed, content);
    let at = 32 + extra.len() as int;
    let aead = cipher.aead()->0;
    assert(sk::padded(cipher, content) =~= content + seq![0u8]);
    assert(sk_e.take(cipher.key_size() as int) =~= sk_e.subrange(0, sk_e.len() - 4));
    assert(sk_e.skip(cipher.key_size() as int) =~= sk_e.subrange(sk_e.len() - 4, sk_e.len() as int));
    assert(wire.subrange(at, at + 8) =~= seed);
    assert(wire.subrange(at + 8, wire.len() as int) =~= aead.sealed(
        sk_e.subrange(0, sk_e.len() - 4),
        sk_e.subrange(sk_e.len() - 4, sk_e.len() as int) + seed,
        wire.subrange(0, at),
        content + seq![0u8],
    ));
}

proof fn lemma_chained(
    cipher: SkCipher,
    header: IkeHeader,
    kind: PayloadType,
    first: u8,
    extra: Seq<u8>,
    sk_e: Seq<u8>,
    sk_a: Seq<u8>,
    seed: Seq<u8>,
    content: Seq<u8>,
)
    requires
        seed.len() == 8,
        cipher.aead() is None,
        sk::sealable(cipher, sk_e, extra.len(), content.len()),
    ensures
        ({
            let wire = sk::sealed_message(cipher, header, kind, first, extra, sk_e, sk_a, seed, content);
            &&& front(wire, header, kind.octet(), first, extra)
            &&& chained_after(
                wire,
                32 + extra.len() as int,
                cipher.classic(),
                cipher.integ()->0,
                sk_e,
                sk_a,
                seed,
                content,
            )
        }),
{
    reveal(sk::protected);
    lemma_front(cipher, header, kind, first, extra, sk_e, sk_a, seed, content);
    let wire = sk::sealed_message(cipher, header, kind, first, extra, sk_e, sk_a, seed, content);
    let at = 32 + extra.len() as int;
    let n = cipher.classic().block_size() as int;
    let integ = cipher.integ()->0;
    let end = wire.len() - integ.icv_size();
    let pad = sk::pad_size(cipher, content.len());
    let iv = sk::expanded_iv(seed, cipher.classic().block_size());
    let plaintext = content + Seq::new(pad, |i: int| 0u8) + seq![pad as u8];
    assert(sk::padded(cipher, content) =~= plaintext);
    let prefix = wire.subrange(0, at);
    let ciphertext = block::cbc_enciphered(cipher.classic(), sk_e, iv, plaintext);
    assert((content.len() + pad + 1) % (n as nat) == 0) by {
        if n == 8 {
            assert((content.len() + (7 - content.len() % 8) + 1) % 8 == 0);
        } else {
            assert((content.len() + (15 - content.len() % 16) + 1) % 16 == 0);
        }
    }
    block::lemma_cbc_len(cipher.classic(), sk_e, iv, plaintext);
    assert(integ.icv(sk_a, prefix + iv + ciphertext).len() == integ.icv_size());
    assert(end == at + n + ciphertext.len());
    assert(wire.subrange(at, at + n) =~= iv);
    assert(wire.subrange(at + n, end) =~= ciphertext);
    assert(wire.subrange(0, end) =~= prefix + iv + ciphertext);
    assert(wire.subrange(end, wire.len() as int) =~= integ.icv(sk_a, prefix + iv + ciphertext));
    assert(pad == end - at - n - content.len() - 1);
}

/// A message sealed with a combined-mode cipher is its header with the next payload 46,
/// the payload's header, and the content behind it, sealed with all of that as
/// associated data.
pub proof fn law_combined_message(
    cipher: SkCipher,
    header: IkeHeader,
    first: PayloadType,
    inner: Seq<u8>,
    sk_e: Seq<u8>,
    sk_a: Seq<u8>,
    iv: Seq<u8>,
)
    requires
        iv.len() == 8,
        cipher.aead() is Some,
        sk::sealable(cipher, sk_e, 0, inner.len()),
    ensures
        ({
            let wire = sk::encrypted(cipher, header, first, inner, sk_e, sk_a, iv);
            &&& front(wire, header, 46, first.octet(), Seq::empty())
            &&& combined_after(wire, 32, cipher.aead()->0, sk_e, iv, inner)
        }),
{
    lemma_combined(cipher, header, PayloadType::Encrypted, first.octet(), Seq::empty(), sk_e, sk_a, iv, inner);
}

/// A message sealed with CBC is its header with the next payload 46, the payload's
/// header, and the content behind it, enciphered and then checked over everything.
pub proof fn law_chained_message(
    cipher: SkCipher,
    header: IkeHeader,
    first: PayloadType,
    inner: Seq<u8>,
    sk_e: Seq<u8>,
    sk_a: Seq<u8>,
    iv: Seq<u8>,
)
    requires
        iv.len() == 8,
        cipher.aead() is None,
        sk::sealable(cipher, sk_e, 0, inner.len()),
    ensures
        ({
            let wire = sk::encrypted(cipher, header, first, inner, sk_e, sk_a, iv);
            &&& front(wire, header, 46, first.octet(), Seq::empty())
            &&& chained_after(wire, 32, cipher.classic(), cipher.integ()->0, sk_e, sk_a, iv, inner)
        }),
{
    lemma_chained(cipher, header, PayloadType::Encrypted, first.octet(), Seq::empty(), sk_e, sk_a, iv, inner);
}

/// A fragment is sealed like a message, with the next payload 53 and its number and the
/// total of them behind the payload's header (and under its protection); only the first
/// names the payload inside, and each has an initialization vector of its own number on
/// from the base.
pub proof fn law_fragment_layout(
    cipher: SkCipher,
    header: IkeHeader,
    first_inner: PayloadType,
    number: u16,
    total: u16,
    chunk: Seq<u8>,
    sk_e: Seq<u8>,
    sk_a: Seq<u8>,
    iv_base: u64,
)
    requires
        sk::sealable(cipher, sk_e, 4, chunk.len()),
    ensures
        ({
            let wire = fragment::fragment_wire(
                cipher,
                header,
                first_inner,
                number,
                total,
                chunk,
                sk_e,
                sk_a,
                iv_base,
            );
            let extra = seq![
                (number / 256) as u8,
                (number % 256) as u8,
                (total / 256) as u8,
                (total % 256) as u8,
            ];
            let iv = bytes::be64(((iv_base + number) % 0x1_0000_0000_0000_0000) as u64);
            &&& front(wire, header, 53, if number == 1 { first_inner.octet() } else { 0 }, extra)
            &&& cipher.aead() matches Some(aead) ==> combined_after(wire, 36, aead, sk_e, iv, chunk)
            &&& cipher.aead() is None ==> chained_after(
                wire,
                36,
                cipher.classic(),
                cipher.integ()->0,
                sk_e,
                sk_a,
                iv,
                chunk,
            )
        }),
{
    let extra = seq![(number / 256) as u8, (number % 256) as u8, (total / 256) as u8, (total % 256) as u8];
    assert(fragment::numbers(number, total) =~= extra);
    let first = if number == 1 {
        first_inner.octet()
    } else {
        0
    };
    let iv = fragment::fragment_iv(iv_base, number);
    if cipher.aead() is Some {
        lemma_combined(cipher, header, PayloadType::EncryptedFragment, first, extra, sk_e, sk_a, iv, chunk);
    } else {
        lemma_chained(cipher, header, PayloadType::EncryptedFragment, first, extra, sk_e, sk_a, iv, chunk);
    }
}

/// Whether a plaintext is `content`, padding and the number of octets of that padding.
pub open spec fn padded_to(content: Seq<u8>, plaintext: Seq<u8>) -> bool {
    &&& plaintext.len() > 0
    &&& content == plaintext.subrange(0, plaintext.len() - 1 - plaintext[plaintext.len() - 1])
    &&& plaintext[plaintext.len() - 1] < plaintext.len()
}

/// What opens with a combined-mode cipher has the next payload `kind`, a length that
/// fits, and behind its headers eight octets of nonce and what sealing the plaintext
/// with all before as associated data gives.
proof fn lemma_opened_combined(
    cipher: SkCipher,
    wire: Seq<u8>,
    kind: PayloadType,
    name: Seq<char>,
    extra: nat,
    sk_e: Seq<u8>,
    sk_a: Seq<u8>,
)
    requires
        cipher.aead() is Some,
        sk::opened_message(cipher, wire, kind, name, extra, sk_e, sk_a) is Ok,
    ensures
        ({
            let plaintext = sk::opened_message(cipher, wire, kind, name, extra, sk_e, sk_a)->Ok_0;
            let end = 28 + wire[30] * 256 + wire[31];
            let at = 32 + extra as int;
            &&& wire[16] == kind.octet()
            &&& at + 24 <= end <= wire.len()
            &&& cipher.aead()->0.sealed(
                sk_e.subrange(0, sk_e.len() - 4),
                sk_e.subrange(sk_e.len() - 4, sk_e.len() as int) + wire.subrange(at, at + 8),
                wire.subrange(0, at),
                plaintext,
            ) == wire.subrange(at + 8, end)
            &&& plaintext.len() + 16 == end - at - 8
        }),
{
    reveal(sk::opened_message);
    reveal(sk::unprotected);
    let plaintext = sk::opened_message(cipher, wire, kind, name, extra, sk_e, sk_a)->Ok_0;
    let body = bytes::from(wire, 28);
    let end = 28 + wire[30] * 256 + wire[31];
    let at = 32 + extra as int;
    let aead = cipher.aead()->0;
    assert(body[2] == wire[30] && body[3] == wire[31]);
    let part = body.subrange(4 + extra as int, bytes::at16(body, 2) as int);
    assert(part =~= wire.subrange(at, end));
    assert(part.take(8) =~= wire.subrange(at, at + 8));
    assert(part.skip(8) =~= wire.subrange(at + 8, end));
    assert(sk_e.take(cipher.key_size() as int) =~= sk_e.subrange(0, sk_e.len() - 4));
    assert(sk_e.skip(cipher.key_size() as int) =~= sk_e.subrange(sk_e.len() - 4, sk_e.len() as int));
    assert(wire.take(32 + extra as int) =~= wire.subrange(0, at));
    let key = sk_e.take(cipher.key_size() as int);
    let nonce = sk::nonce_of(cipher, sk_e, part.take(8));
    assert(aead.opens(key, nonce, wire.take(32 + extra as int), part.skip(8), plaintext));
    message::law_types_round_trip(wire[16]);
}

/// What opens with CBC has the next payload `kind`, a length that fits, and ends in the
/// checksum of everything before it.
proof fn lemma_opened_chained(
    cipher: SkCipher,
    wire: Seq<u8>,
    kind: PayloadType,
    name: Seq<char>,
    extra: nat,
    sk_e: Seq<u8>,
    sk_a: Seq<u8>,
)
    requires
        cipher.aead() is None,
        sk::opened_message(cipher, wire, kind, name, extra, sk_e, sk_a) is Ok,
    ensures
        ({
            let end = 28 + wire[30] * 256 + wire[31];
            let at = 32 + extra as int;
            let icv = end - cipher.integ()->0.icv_size();
            let n = cipher.classic().block_size() as int;
            &&& wire[16] == kind.octet()
            &&& at + n < icv < end <= wire.len()
            &&& wire.subrange(icv, end) == cipher.integ()->0.icv(sk_a, wire.subrange(0, icv))
        }),
{
    reveal(sk::opened_message);
    reveal(sk::unprotected);
    let body = bytes::from(wire, 28);
    let end = 28 + wire[30] * 256 + wire[31];
    let at = 32 + extra as int;
    let icv = end - cipher.integ()->0.icv_size();
    let n = cipher.classic().block_size() as int;
    assert(body[2] == wire[30] && body[3] == wire[31]);
    let part = body.subrange(4 + extra as int, bytes::at16(body, 2) as int);
    assert(part =~= wire.subrange(at, end));
    assert(part.skip(part.len() - cipher.icv_size()) =~= wire.subrange(icv, end));
    assert(wire.take(32 + extra as int) + part.take(n) + part.subrange(n, part.len() - cipher.icv_size())
        =~= wire.subrange(0, icv));
    message::law_types_round_trip(wire[16]);
}

/// A message that opens was protected: its SK payload (46) ends, as its length says,
/// either in what the combined-mode cipher makes of the plaintext under the key, the
/// nonce and the 32 octets before it, or in the checksum of all before it; the first
/// payload inside is what octet 28 names, and the content is the plaintext without its
/// padding.
pub proof fn law_opened_message_was_protected(cipher: SkCipher, wire: Seq<u8>, sk_e: Seq<u8>, sk_a: Seq<u8>)
    requires
        sk::decrypted(cipher, wire, sk_e, sk_a) is Ok,
    ensures
        ({
            let (first, inner) = sk::decrypted(cipher, wire, sk_e, sk_a)->Ok_0;
            let end = 28 + wire[30] * 256 + wire[31];
            &&& wire[16] == 46
            &&& first.octet() == wire[28]
            &&& end <= wire.len()
            &&& cipher.aead() matches Some(aead) ==> exists|plaintext: Seq<u8>|
                #[trigger] padded_to(inner, plaintext) && plaintext.len() + 56 == end && aead.sealed(
                    sk_e.subrange(0, sk_e.len() - 4),
                    sk_e.subrange(sk_e.len() - 4, sk_e.len() as int) + wire.subrange(32, 40),
                    wire.subrange(0, 32),
                    plaintext,
                ) == wire.subrange(40, end)
            &&& cipher.aead() is None ==> {
                let icv = end - cipher.integ()->0.icv_size();
                wire.subrange(icv, end) == cipher.integ()->0.icv(sk_a, wire.subrange(0, icv))
            }
        }),
{
    let (first, inner) = sk::decrypted(cipher, wire, sk_e, sk_a)->Ok_0;
    let plaintext = sk::opened_message(cipher, wire, PayloadType::Encrypted, "SK"@, 0, sk_e, sk_a)->Ok_0;
    message::law_types_round_trip(wire[28]);
    if cipher.aead() is Some {
        lemma_opened_combined(cipher, wire, PayloadType::Encrypted, "SK"@, 0, sk_e, sk_a);
        assert(inner =~= plaintext.subrange(0, plaintext.len() - 1 - plaintext[plaintext.len() - 1]));
        assert(padded_to(inner, plaintext));
    } else {
        lemma_opened_chained(cipher, wire, PayloadType::Encrypted, "SK"@, 0, sk_e, sk_a);
    }
}

/// A fragment that opens was protected in the same way, from octet 36 on; its number,
/// the total and the type inside are read from octets 32 to 36 and 28.
pub proof fn law_opened_fragment_was_protected(cipher: SkCipher, wire: Seq<u8>, sk_e: Seq<u8>, sk_a: Seq<u8>)
    requires
        fragment::opened(cipher, wire, sk_e, sk_a) is Ok,
    ensures
        ({
            let piece = fragment::opened(cipher, wire, sk_e, sk_a)->Ok_0;
            let end = 28 + wire[30] * 256 + wire[31];
            &&& wire[16] == 53
            &&& piece.number == wire[32] * 256 + wire[33] && piece.total == wire[34] * 256 + wire[35]
            &&& piece.next_payload == wire[28]
            &&& end <= wire.len()
            &&& cipher.aead() matches Some(aead) ==> exists|plaintext: Seq<u8>|
                #[trigger] padded_to(piece.content, plaintext) && plaintext.len() + 60 == end && aead.sealed(
                    sk_e.subrange(0, sk_e.len() - 4),
                    sk_e.subrange(sk_e.len() - 4, sk_e.len() as int) + wire.subrange(36, 44),
                    wire.subrange(0, 36),
                    plaintext,
                ) == wire.subrange(44, end)
            &&& cipher.aead() is None ==> {
                let icv = end - cipher.integ()->0.icv_size();
                wire.subrange(icv, end) == cipher.integ()->0.icv(sk_a, wire.subrange(0, icv))
            }
        }),
{
    let piece = fragment::opened(cipher, wire, sk_e, sk_a)->Ok_0;
    let plaintext = sk::opened_message(
        cipher,
        wire,
        PayloadType::EncryptedFragment,
        "SKF"@,
        4,
        sk_e,
        sk_a,
    )->Ok_0;
    if cipher.aead() is Some {
        lemma_opened_combined(cipher, wire, PayloadType::EncryptedFragment, "SKF"@, 4, sk_e, sk_a);
        assert(piece.content =~= plaintext.subrange(0, plaintext.len() - 1 - plaintext[plaintext.len() - 1]));
        assert(padded_to(piece.content, plaintext));
    } else {
        lemma_opened_chained(cipher, wire, PayloadType::EncryptedFragment, "SKF"@, 4, sk_e, sk_a);
    }
}

/// A message is cut into as few chunks as its length needs: each but the last is full,
/// and the last is not empty unless there is nothing to cut.
pub proof fn law_chunks_are_full(inner: Seq<u8>, per: nat, i: int)
    requires
        per > 0,
        0 <= i < fragment::chunks(inner, per).len(),
    ensures
        i + 1 < fragment::chunks(inner, per).len() ==> fragment::chunks(inner, per)[i] == inner.subrange(
            i * per,
            (i + 1) * per,
        ) && (i + 1) * per < inner.len(),
        i + 1 == fragment::chunks(inner, per).len() ==> fragment::chunks(inner, per)[i] == inner.subrange(
            i * per,
            inner.len() as int,
        ) && i * per <= inner.len() <= (i + 1) * per && (i > 0 ==> i * per < inner.len()),
    decreases inner.len(),
{
    assert(0 * per == 0 && 1 * per == per);
    if inner.len() <= per {
        assert(inner.subrange(0, inner.len() as int) =~= inner);
    } else {
        let rest = inner.skip(per as int);
        let all = fragment::chunks(inner, per);
        let others = fragment::chunks(rest, per);
        assert(all == seq![inner.take(per as int)] + others);
        assert(others.len() >= 1);
        if i == 0 {
            assert(all[0] =~= inner.subrange(0, per as int));
        } else {
            law_chunks_are_full(rest, per, i - 1);
            assert((i - 1) * per + per == i * per) by (nonlinear_arith);
            assert(i * per + per == (i + 1) * per) by (nonlinear_arith);
            assert(0 <= (i - 1) * per) by (nonlinear_arith)
                requires
                    i >= 1,
                    per >= 0,
            ;
            assert(all[i] == others[i - 1]);
            if i + 1 < all.len() {
                assert(rest.subrange((i - 1) * per, i * per) =~= inner.subrange(i * per, (i + 1) * per));
            } else {
                assert(rest.subrange((i - 1) * per, rest.len() as int) =~= inner.subrange(i * per, inner.len() as int));
            }
        }
    }
}

/// A fragment of as much content as there is room for keeps within the limit, and one
/// octet more of content would not.
pub proof fn law_content_room_is_all_there_is(cipher: SkCipher, max_len: nat)
    ensures
        ({
            let room = fragment::content_room(cipher, max_len);
            &&& room > 0 ==> 36 + sk::protected_size(cipher, room) <= max_len
            &&& 36 + sk::protected_size(cipher, room + 1) > max_len
        }),
{
    let room = fragment::content_room(cipher, max_len);
    let around = 36 + sk::iv_size(cipher) + cipher.icv_size();
    if cipher.aead() is None && max_len >= around {
        let left = (max_len - around) as int;
        if cipher.classic().block_size() == 8 {
            let whole = left - left % 8;
            if whole > 0 {
                assert((whole - 1) % 8 == 7);
                assert(whole % 8 == 0);
            }
            assert(left < whole + 8);
        } else {
            let whole = left - left % 16;
            if whole > 0 {
                assert((whole - 1) % 16 == 15);
                assert(whole % 16 == 0);
            }
            assert(left < whole + 16);
        }
    }
}

/// Whether one of the fragments has this number and this content.
pub open spec fn is_content(pieces: Seq<Piece>, number: int, content: Seq<u8>) -> bool {
    exists|i: int| 0 <= i < pieces.len() && (#[trigger] pieces[i]).number == number && pieces[i].content == content
}

/// Fragments are joined in the order of their numbers, whatever order they came in: one
/// of each number up to the total that all of them name. The message inside begins with
/// what the first names.
pub proof fn law_pieces_join_by_number(pieces: Seq<Piece>)
    requires
        fragment::reassembled(pieces) is Ok,
    ensures
        ({
            let (first, inner) = fragment::reassembled(pieces)->Ok_0;
            let contents = fragment::in_order(pieces, pieces.len());
            &&& pieces.len() > 0
            &&& forall|i: int| 0 <= i < pieces.len() ==> (#[trigger] pieces[i]).total == pieces.len()
            &&& inner == bytes::joined(contents)
            &&& contents.len() == pieces.len()
            &&& forall|number: int|
                1 <= number <= pieces.len() ==> #[trigger] is_content(pieces, number, contents[number - 1])
            &&& exists|i: int|
                0 <= i < pieces.len() && (#[trigger] pieces[i]).number == 1 && first.octet() == pieces[i].next_payload
        }),
{
    let (first, inner) = fragment::reassembled(pieces)->Ok_0;
    let contents = fragment::in_order(pieces, pieces.len());
    assert forall|i: int| 0 <= i < pieces.len() implies (#[trigger] pieces[i]).total == pieces.len() by {}
    assert forall|number: int| 1 <= number <= pieces.len() implies #[trigger] is_content(
        pieces,
        number,
        contents[number - 1],
    ) by {
        lemma_position(pieces, number, 0);
        let at = fragment::position(pieces, number, 0)->0;
        assert(pieces[at].number == number && pieces[at].content == contents[number - 1]);
    }
    lemma_position(pieces, 1, 0);
    let at = fragment::position(pieces, 1, 0)->0;
    message::law_types_round_trip(pieces[at].next_payload);
    assert(pieces[at].number == 1);
}

proof fn lemma_position(pieces: Seq<Piece>, number: int, from: int)
    requires
        0 <= from <= pieces.len(),
    ensures
        fragment::position(pieces, number, from) matches Some(at) ==> from <= at < pieces.len() && pieces[at].number
            == number,
    decreases pieces.len() - from,
{
    if from < pieces.len() {
        lemma_position(pieces, number, from + 1);
    }
}

/// How many fragments and how many octets of a message are gathered at most.
pub proof fn law_gathering_is_limited()
    ensures
        fragment::MAX_FRAGMENTS == 256,
        fragment::MAX_REASSEMBLED_LEN == 65536,
        fragment::MIN_FRAGMENT_MESSAGE_LEN == 100,
{
}

} // verus!
