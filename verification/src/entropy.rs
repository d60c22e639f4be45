//! Where ephemeral secrets, nonces and SPIs come from.

use vstd::prelude::*;

use crate::bytes;

verus! {

/// A source of random numbers, for its users to implement over the operating
/// system's generator or, in tests, over a fixed seed.
pub trait Entropy {
    /// The next 64 random bits.
    fn next_u64(&mut self) -> u64;
}

/// `len` random octets.
pub fn random_bytes<E: Entropy>(entropy: &mut E, len: usize) -> (out: Vec<u8>)
    ensures
        out@.len() == len,
{
    let mut out: Vec<u8> = Vec::new();
    while out.len() < len
        invariant
            out@.len() <= len,
        decreases len - out@.len(),
    {
        let mut word: Vec<u8> = Vec::new();
        bytes::push64(&mut word, entropy.next_u64());
        let ghost before = out@;
        let left: usize = len - out.len();
        let take: usize = if left < 8 {
            left
        } else {
            8
        };
        proof {
            bytes::lemma_be64_len(0);
        }
        assert(word@.len() == 8) by {
            broadcast use bytes::group_lengths;
        }
        bytes::push_all(&mut out, bytes::range(&word, 0, take));
    }
    out
}

/// 32 random octets.
pub fn random_array32<E: Entropy>(entropy: &mut E) -> (out: [u8; 32]) {
    let drawn = random_bytes(entropy, 32);
    let mut out: [u8; 32] = [0; 32];
    for i in 0..32usize
        invariant
            drawn@.len() == 32,
    {
        out[i] = drawn[i];
    }
    out
}

} // verus!
