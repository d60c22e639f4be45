//! What Phase 1 leaves behind (RFC 2409 §5): the keys and the IV that the exchanges
//! under an ISAKMP SA are protected with.

use vstd::prelude::*;

use crate::bytes;
use crate::crypto::block::BlockCipher;
use crate::crypto::PrfAlgorithm;

verus! {

/// An established ISAKMP SA.
#[derive(Clone)]
pub struct Phase1State {
    pub cky_i: [u8; 8],
    pub cky_r: [u8; 8],
    pub prf: PrfAlgorithm,
    pub skeyid_a: Vec<u8>,
    pub cipher: BlockCipher,
    pub enc_key: Vec<u8>,
    /// The last ciphertext block of Phase 1.
    pub phase1_iv: Vec<u8>,
}

/// A [`Phase1State`] as a value of the specification.
#[verifier::ext_equal]
pub struct IsakmpSa {
    pub cky_i: Seq<u8>,
    pub cky_r: Seq<u8>,
    pub prf: PrfAlgorithm,
    pub skeyid_a: Seq<u8>,
    pub cipher: BlockCipher,
    pub enc_key: Seq<u8>,
    pub phase1_iv: Seq<u8>,
}

impl View for Phase1State {
    type V = IsakmpSa;

    open spec fn view(&self) -> IsakmpSa {
        IsakmpSa {
            cky_i: self.cky_i@,
            cky_r: self.cky_r@,
            prf: self.prf,
            skeyid_a: self.skeyid_a@,
            cipher: self.cipher,
            enc_key: self.enc_key@,
            phase1_iv: self.phase1_iv@,
        }
    }
}

impl IsakmpSa {
    /// Whether the key is as long as the cipher asks.
    pub open spec fn valid(self) -> bool {
        self.enc_key.len() == self.cipher.key_size()
    }

    /// The IV of the first message under this Message ID (RFC 2409 App. B).
    pub open spec fn iv_for(self, message_id: u32) -> Seq<u8> {
        self.prf.base().digested(self.phase1_iv + bytes::be32(message_id)).take(
            self.cipher.block_size() as int,
        )
    }
}

/// The IV of the first message under this Message ID (RFC 2409 App. B): the hash of
/// Phase 1's last ciphertext block and the Message ID, cut to a block.
pub fn phase2_iv(st: &Phase1State, message_id: u32) -> (iv: Vec<u8>)
    ensures
        iv@ == st@.iv_for(message_id),
        iv@.len() == st@.cipher.block_size(),
{
    let mut input = bytes::copy(&st.phase1_iv);
    bytes::push32(&mut input, message_id);
    let mut iv = st.prf.hash().digest(&input);
    iv.truncate(st.cipher.block_len());
    iv
}

} // verus!
