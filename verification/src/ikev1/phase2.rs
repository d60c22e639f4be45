//! The protection of messages under an ISAKMP SA (RFC 2409 §5.5, §5.7): a HASH over
//! the Message ID and the payloads, and encryption in CBC mode.

use vstd::prelude::*;

use crate::bytes;
use crate::crypto::block;
use crate::crypto::prf;
use crate::error::{Failure, IkeError};
use crate::ikev1::isakmp;
use crate::ikev1::isakmp::{encode_chain, flags, parse_chain, payload, Head, IsakmpHeader};
use crate::ikev1::phase1::{IsakmpSa, Phase1State};
use crate::ikev2::message::{field32, length16};

verus! {

broadcast use crate::bytes::group_lengths;

/// How many octets pad `len` octets to a whole number of blocks.
pub open spec fn pad_size(len: nat, block: nat) -> nat {
    if len % block == 0 {
        0
    } else {
        (block - len % block) as nat
    }
}

/// The plaintext behind this ciphertext.
pub open spec fn deciphered(sa: IsakmpSa, iv: Seq<u8>, ciphertext: Seq<u8>) -> Seq<u8> {
    choose|plaintext: Seq<u8>| #[trigger] block::cbc_opens(sa.cipher, sa.enc_key, iv, ciphertext, plaintext)
}

/// The last block of a ciphertext: the IV of the message that answers it.
pub open spec fn last_block(sa: IsakmpSa, ciphertext: Seq<u8>) -> Seq<u8> {
    ciphertext.skip(ciphertext.len() - sa.cipher.block_size())
}

impl IsakmpSa {
    /// The HASH of a message with these payloads.
    pub open spec fn hash_over(self, message_id: u32, parts: Seq<(u8, Seq<u8>)>) -> Seq<u8> {
        prf::prf_of(self.prf, self.skeyid_a, bytes::be32(message_id) + isakmp::chained(parts))
    }

    /// The payloads of a message, the HASH before them.
    pub open spec fn hashed(self, message_id: u32, parts: Seq<(u8, Seq<u8>)>) -> Seq<(u8, Seq<u8>)> {
        seq![(payload::HASH, self.hash_over(message_id, parts))] + parts
    }

    /// What is encrypted of a message.
    pub open spec fn plaintext(self, message_id: u32, parts: Seq<(u8, Seq<u8>)>) -> Seq<u8> {
        let chain = isakmp::chained(self.hashed(message_id, parts));
        chain + bytes::zeros(pad_size(chain.len(), self.cipher.block_size()))
    }

    /// What stands behind the header of a message.
    pub open spec fn ciphertext(self, message_id: u32, parts: Seq<(u8, Seq<u8>)>, iv: Seq<u8>) -> Seq<u8> {
        block::cbc_enciphered(self.cipher, self.enc_key, iv, self.plaintext(message_id, parts))
    }

    /// The message of `header` with these payloads.
    pub open spec fn sealed(self, header: Head, parts: Seq<(u8, Seq<u8>)>, iv: Seq<u8>) -> Seq<u8> {
        let ciphertext = self.ciphertext(header.message_id, parts, iv);
        let top = Head {
            next_payload: payload::HASH,
            flags: flags::ENCRYPTION,
            length: field32(28 + ciphertext.len()),
            ..header
        };
        top.octets() + ciphertext
    }

    /// What a message holds: its header, its payloads behind the HASH, and the IV of
    /// the message that answers it.
    pub open spec fn opened(self, message: Seq<u8>, iv: Seq<u8>) -> Result<
        (Head, Seq<(u8, Seq<u8>)>, Seq<u8>),
        Failure,
    > {
        match Head::read(message) {
            Err(failure) => Err(failure),
            Ok(header) => {
                let ciphertext = bytes::from(message, 28);
                if !self.valid() {
                    Err(Failure::Crypto("the ISAKMP SA's key has the wrong length for its cipher"@))
                } else if ciphertext.len() == 0 || ciphertext.len() % self.cipher.block_size() != 0 {
                    Err(Failure::Crypto("ISAKMP ciphertext not block-aligned"@))
                } else {
                    match isakmp::unchained(header.next_payload, deciphered(self, iv, ciphertext)) {
                        Err(failure) => Err(failure),
                        Ok(list) => if list.len() == 0 || list[0].0 != payload::HASH {
                            Err(Failure::MissingPayload("HASH"@))
                        } else if list[0].1 != self.hash_over(header.message_id, list.drop_first()) {
                            Err(Failure::BadIntegrity)
                        } else {
                            Ok((header, list.drop_first(), last_block(self, ciphertext)))
                        },
                    }
                }
            },
        }
    }

    /// Whether `message` is one with these payloads, of lengths its fields can count.
    pub open spec fn carries(self, header: Head, parts: Seq<(u8, Seq<u8>)>, iv: Seq<u8>, message: Seq<u8>) -> bool {
        &&& self.valid()
        &&& header.canonical()
        &&& iv.len() == self.cipher.block_size()
        &&& isakmp::frameable(parts)
        &&& message == self.sealed(header, parts, iv)
    }
}

/// What a message is sealed to, taken by its view.
pub open spec fn viewed_sealed(result: Result<(Vec<u8>, Vec<u8>), IkeError>) -> Result<(Seq<u8>, Seq<u8>), Failure> {
    match result {
        Ok((message, iv)) => Ok((message@, iv@)),
        Err(error) => Err(error@),
    }
}

/// What a message holds, taken by its view.
pub open spec fn viewed_opened(result: Result<(IsakmpHeader, Vec<(u8, Vec<u8>)>, Vec<u8>), IkeError>) -> Result<
    (Head, Seq<(u8, Seq<u8>)>, Seq<u8>),
    Failure,
> {
    match result {
        Ok((header, list, iv)) => Ok((header@, isakmp::bodies(list@), iv@)),
        Err(error) => Err(error@),
    }
}

proof fn lemma_padded(sa: IsakmpSa, message_id: u32, parts: Seq<(u8, Seq<u8>)>)
    ensures
        sa.plaintext(message_id, parts).len() > 0,
        sa.plaintext(message_id, parts).len() % sa.cipher.block_size() == 0,
{
    let all = sa.hashed(message_id, parts);
    let chain = isakmp::chained(all);
    assert(all.len() > 0);
    assert(chain.len() >= 4);
    let block = sa.cipher.block_size();
    assert(block == 8 || block == 16);
    let len = chain.len();
    assert((len + pad_size(len, 8)) % 8 == 0);
    assert((len + pad_size(len, 16)) % 16 == 0);
}

/// The HASH of a message with these payloads.
fn hash_of(st: &Phase1State, message_id: u32, chain: &[u8]) -> (hash: Vec<u8>)
    ensures
        hash@ == prf::prf_of(st@.prf, st@.skeyid_a, bytes::be32(message_id) + chain@),
{
    let mut input: Vec<u8> = Vec::new();
    bytes::push32(&mut input, message_id);
    bytes::push_all(&mut input, chain);
    assert(input@ =~= bytes::be32(message_id) + chain@);
    prf::prf(st.prf, &st.skeyid_a, &input)
}

/// Protect `payloads` as the message of `header` on `st`: the message, and the IV
/// of the one that answers it. The header's next payload, flags and length are
/// filled in.
pub fn build_encrypted(st: &Phase1State, header: IsakmpHeader, iv: &[u8], payloads: &[(u8, Vec<u8>)]) -> (out: Result<
    (Vec<u8>, Vec<u8>),
    IkeError,
>)
    requires
        iv@.len() == st@.cipher.block_size(),
    ensures
        viewed_sealed(out) == (if st@.valid() {
            Ok(
                (
                    st@.sealed(header@, isakmp::bodies(payloads@), iv@),
                    last_block(st@, st@.ciphertext(header@.message_id, isakmp::bodies(payloads@), iv@)),
                ),
            )
        } else {
            Err(Failure::Crypto("the ISAKMP SA's key has the wrong length for its cipher"@))
        }),
{
    let ghost parts = isakmp::bodies(payloads@);
    let block: usize = st.cipher.block_len();
    if st.enc_key.len() != st.cipher.key_len() {
        return Err(IkeError::Crypto("the ISAKMP SA's key has the wrong length for its cipher"));
    }
    let chain = encode_chain(payloads);
    let hash = hash_of(st, header.message_id, &chain);
    let next: u8 = if payloads.len() > 0 {
        payloads[0].0
    } else {
        payload::NONE
    };
    let mut plaintext: Vec<u8> = Vec::new();
    plaintext.push(next);
    plaintext.push(0);
    bytes::push16(&mut plaintext, length16(hash.len(), 4));
    bytes::push_all(&mut plaintext, &hash);
    bytes::push_all(&mut plaintext, &chain);
    proof {
        let all = st@.hashed(header.message_id, parts);
        assert(all.drop_first() =~= parts);
        assert(plaintext@ =~= isakmp::chained(all));
    }
    let over: usize = plaintext.len() % block;
    if over > 0 {
        bytes::push_zeros(&mut plaintext, block - over);
    }
    proof {
        assert(plaintext@ =~= st@.plaintext(header.message_id, parts));
        lemma_padded(st@, header.message_id, parts);
    }
    let ciphertext = block::cbc_encrypt(st.cipher, &st.enc_key, iv, &plaintext);
    let top = IsakmpHeader {
        next_payload: payload::HASH,
        flags: flags::ENCRYPTION,
        length: ((ciphertext.len() as u64 % 0x1_0000_0000 + 28) % 0x1_0000_0000) as u32,
        ..header
    };
    let mut message: Vec<u8> = Vec::new();
    top.write(&mut message);
    bytes::push_all(&mut message, &ciphertext);
    proof {
        assert(top.length == field32(28 + ciphertext@.len()));
        assert(message@ =~= st@.sealed(header@, parts, iv@));
    }
    assert(ciphertext@.len() >= block) by {
        assert(ciphertext@.len() % (block as nat) == 0);
    }
    let next_iv = bytes::copy(bytes::tail(&ciphertext, ciphertext.len() - block));
    assert(next_iv@ =~= last_block(st@, ciphertext@));
    Ok((message, next_iv))
}

/// Open a message on `st`: its header, its payloads behind the HASH, which must
/// verify, and the IV of the message that answers it. What was sealed is what comes
/// out.
pub fn parse_encrypted(st: &Phase1State, message: &[u8], iv: &[u8]) -> (out: Result<
    (IsakmpHeader, Vec<(u8, Vec<u8>)>, Vec<u8>),
    IkeError,
>)
    requires
        iv@.len() == st@.cipher.block_size(),
    ensures
        viewed_opened(out) == st@.opened(message@, iv@),
        out matches Ok((_, _, next_iv)) ==> next_iv@.len() == st@.cipher.block_size() && st@.valid(),
        forall|header: Head, parts: Seq<(u8, Seq<u8>)>|
            #[trigger] st@.carries(header, parts, iv@, message@) ==> match out {
                Ok((read, list, next_iv)) => isakmp::bodies(list@) == parts && read@.message_id == header.message_id
                    && next_iv@ == last_block(st@, st@.ciphertext(header.message_id, parts, iv@)),
                Err(_) => false,
            },
{
    proof {
        assert forall|header: Head, parts: Seq<(u8, Seq<u8>)>| #[trigger]
            st@.carries(header, parts, iv@, message@) implies {
            &&& Head::read(message@) matches Ok(read)
            &&& read.message_id == header.message_id
            &&& read.next_payload == payload::HASH
            &&& bytes::from(message@, 28) == st@.ciphertext(header.message_id, parts, iv@)
            &&& st@.ciphertext(header.message_id, parts, iv@).len() > 0
            &&& st@.ciphertext(header.message_id, parts, iv@).len() % st@.cipher.block_size() == 0
            &&& block::cbc_opens(
                st@.cipher,
                st@.enc_key,
                iv@,
                bytes::from(message@, 28),
                st@.plaintext(header.message_id, parts),
            )
            &&& isakmp::unchained(payload::HASH, st@.plaintext(header.message_id, parts)) == Ok::<
                Seq<(u8, Seq<u8>)>,
                Failure,
            >(st@.hashed(header.message_id, parts))
            &&& st@.hashed(header.message_id, parts).drop_first() == parts
        } by {
            lemma_sealed(st@, header, parts, iv@);
        }
    }
    let header = match IsakmpHeader::parse(message) {
        Ok(header) => header,
        Err(error) => {
            return Err(error);
        },
    };
    if st.enc_key.len() != st.cipher.key_len() {
        return Err(IkeError::Crypto("the ISAKMP SA's key has the wrong length for its cipher"));
    }
    let ciphertext: &[u8] = bytes::tail(message, 28);
    let block: usize = st.cipher.block_len();
    if ciphertext.len() == 0 || ciphertext.len() % block != 0 {
        return Err(IkeError::Crypto("ISAKMP ciphertext not block-aligned"));
    }
    let plaintext = block::cbc_decrypt(st.cipher, &st.enc_key, iv, ciphertext);
    assert(plaintext@ == deciphered(st@, iv@, ciphertext@));
    let list = match parse_chain(header.next_payload, &plaintext) {
        Ok(list) => list,
        Err(error) => {
            return Err(error);
        },
    };
    let ghost all = isakmp::bodies(list@);
    if list.len() == 0 || list[0].0 != payload::HASH {
        return Err(IkeError::MissingPayload("HASH"));
    }
    let mut rest: Vec<(u8, Vec<u8>)> = list;
    let first = rest.remove(0);
    assert(isakmp::bodies(rest@) =~= all.drop_first());
    assert(all[0] == (first.0, first.1@));
    let expected = hash_of(st, header.message_id, &encode_chain(&rest));
    if !bytes::same(&first.1, &expected) {
        return Err(IkeError::BadIntegrity);
    }
    assert(ciphertext@.len() >= block);
    let next_iv = bytes::copy(bytes::tail(ciphertext, ciphertext.len() - block));
    assert(next_iv@ =~= last_block(st@, ciphertext@));
    Ok((header, rest, next_iv))
}

/// What a sealed message is made of.
proof fn lemma_sealed(sa: IsakmpSa, header: Head, parts: Seq<(u8, Seq<u8>)>, iv: Seq<u8>)
    requires
        sa.valid(),
        header.canonical(),
        iv.len() == sa.cipher.block_size(),
        isakmp::frameable(parts),
    ensures
        ({
            let message = sa.sealed(header, parts, iv);
            let ciphertext = sa.ciphertext(header.message_id, parts, iv);
            &&& Head::read(message) matches Ok(read)
            &&& read.message_id == header.message_id
            &&& read.next_payload == payload::HASH
            &&& bytes::from(message, 28) == ciphertext
            &&& ciphertext.len() > 0
            &&& ciphertext.len() % sa.cipher.block_size() == 0
            &&& block::cbc_opens(sa.cipher, sa.enc_key, iv, ciphertext, sa.plaintext(header.message_id, parts))
            &&& isakmp::unchained(payload::HASH, sa.plaintext(header.message_id, parts)) == Ok::<
                Seq<(u8, Seq<u8>)>,
                Failure,
            >(sa.hashed(header.message_id, parts))
            &&& sa.hashed(header.message_id, parts).drop_first() == parts
        }),
{
    let id = header.message_id;
    let ciphertext = sa.ciphertext(id, parts, iv);
    let top = Head {
        next_payload: payload::HASH,
        flags: flags::ENCRYPTION,
        length: field32(28 + ciphertext.len()),
        ..header
    };
    isakmp::law_header_round_trip(top, ciphertext);
    assert(top.octets().len() == 28);
    assert(bytes::from(sa.sealed(header, parts, iv), 28) =~= ciphertext);
    lemma_padded(sa, id, parts);
    block::lemma_cbc_len(sa.cipher, sa.enc_key, iv, sa.plaintext(id, parts));
    let all = sa.hashed(id, parts);
    assert(all.drop_first() =~= parts);
    assert(isakmp::frameable(all)) by {
        assert forall|i: int| 0 <= i < all.len() implies (#[trigger] all[i]).0 != payload::NONE && 4 + all[i].1.len()
            < 0x1_0000 by {
            if i > 0 {
                assert(all[i] == parts[i - 1]);
            }
        }
    }
    let chain = isakmp::chained(all);
    isakmp::law_chain_round_trip(all, bytes::zeros(pad_size(chain.len(), sa.cipher.block_size())));
}

} // verus!
