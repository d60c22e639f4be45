//! Wiping secrets from memory.

use vstd::prelude::*;

use crate::bytes;
use zeroize::Zeroize;

verus! {

/// `zeroize::Zeroize::zeroize` on an array: every octet is zero afterwards.
#[verifier::external_body]
pub(crate) fn wipe_array(secret: &mut [u8; 32])
    ensures
        final(secret)@ == bytes::zeros(32),
{
    secret.zeroize();
}

/// `zeroize::Zeroize::zeroize` on a vector: its octets are wiped and it is empty
/// afterwards.
#[verifier::external_body]
pub(crate) fn wipe_vec(secret: &mut Vec<u8>)
    ensures
        final(secret)@.len() == 0,
{
    secret.zeroize();
}

} // verus!
