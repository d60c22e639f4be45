//! AUTH payload computation (RFC 7296 §2.15).
//!
//! Each side proves it sent its `IKE_SA_INIT` message by signing a specific
//! octet string.
//!
//! ```text
//! InitiatorSignedOctets = RealMessageI | NonceRData | prf(SK_pi, RestOfIDi)
//! ResponderSignedOctets = RealMessageR | NonceIData | prf(SK_pr, RestOfIDr)
//! AUTH (PSK)            = prf( prf(Shared Secret, "Key Pad for IKEv2"),
//!                             <SignedOctets> )
//! ```
//!
//! - `RealMessage*` is that side's `IKE_SA_INIT` message exactly as sent (whole
//!   datagram, including the IKE header).
//! - `NonceRData` / `NonceIData` is the *peer's* nonce bytes (no payload header).
//! - `RestOfID*` is the ID payload **body** (ID Type + RESERVED + ID data — no
//!   generic payload header), i.e.
//!   [`crate::ikev2::payload::Identification::to_bytes`].

use vstd::prelude::*;

use crate::bytes;
use crate::crypto::prf::prf_of;
use crate::crypto::{prf, PrfAlgorithm};

verus! {

/// The fixed pad string for PSK auth (RFC 7296 §2.15): the 17 ASCII octets of
/// "Key Pad for IKEv2", no NUL.
pub const KEY_PAD: [u8; 17] = [
    0x4b, 0x65, 0x79, 0x20, 0x50, 0x61, 0x64, 0x20, 0x66, 0x6f, 0x72, 0x20, 0x49, 0x4b, 0x45, 0x76, 0x32,
];

/// What an AUTH payload signs: the signer's `IKE_SA_INIT` message, the peer's
/// nonce, and the signer's identity under its own key.
pub open spec fn signed(
    algo: PrfAlgorithm,
    real_message: Seq<u8>,
    peer_nonce: Seq<u8>,
    sk_p: Seq<u8>,
    id_body: Seq<u8>,
) -> Seq<u8> {
    real_message + peer_nonce + prf_of(algo, sk_p, id_body)
}

/// The pre-shared-key AUTH value over `octets`.
pub open spec fn psk_value(algo: PrfAlgorithm, psk: Seq<u8>, octets: Seq<u8>) -> Seq<u8> {
    prf_of(algo, prf_of(algo, psk, KEY_PAD@), octets)
}

/// Signed octets for the **initiator's** AUTH:
/// `RealMessageI | Nr | prf(SK_pi, RestOfIDi)`. `algo` is the negotiated PRF
/// (RFC 7296 §2.15 -- AUTH always uses whichever PRF `IKE_SA_INIT` chose).
pub fn initiator_signed_octets(
    algo: PrfAlgorithm,
    real_message_i: &[u8],
    nr: &[u8],
    sk_pi: &[u8],
    idi_body: &[u8],
) -> (octets: Vec<u8>)
    ensures
        octets@ == signed(algo, real_message_i@, nr@, sk_pi@, idi_body@),
{
    signed_octets(algo, real_message_i, nr, sk_pi, idi_body)
}

/// Signed octets for the **responder's** AUTH:
/// `RealMessageR | Ni | prf(SK_pr, RestOfIDr)`.
pub fn responder_signed_octets(
    algo: PrfAlgorithm,
    real_message_r: &[u8],
    ni: &[u8],
    sk_pr: &[u8],
    idr_body: &[u8],
) -> (octets: Vec<u8>)
    ensures
        octets@ == signed(algo, real_message_r@, ni@, sk_pr@, idr_body@),
{
    signed_octets(algo, real_message_r, ni, sk_pr, idr_body)
}

fn signed_octets(
    algo: PrfAlgorithm,
    real_message: &[u8],
    peer_nonce: &[u8],
    sk_p: &[u8],
    id_body: &[u8],
) -> (octets: Vec<u8>)
    ensures
        octets@ == signed(algo, real_message@, peer_nonce@, sk_p@, id_body@),
{
    let maced_id = prf(algo, sk_p, id_body);
    let mut octets: Vec<u8> = Vec::new();
    bytes::push_all(&mut octets, real_message);
    bytes::push_all(&mut octets, peer_nonce);
    bytes::push_all(&mut octets, &maced_id);
    assert(octets@ =~= real_message@ + peer_nonce@ + maced_id@);
    octets
}

/// The pre-shared-key AUTH value:
/// `prf( prf(PSK, "Key Pad for IKEv2"), <signed_octets> )`.
pub fn psk_auth(algo: PrfAlgorithm, psk: &[u8], signed_octets: &[u8]) -> (value: Vec<u8>)
    ensures
        value@ == psk_value(algo, psk@, signed_octets@),
        value@.len() == algo.size(),
{
    let inner = prf(algo, psk, &KEY_PAD);
    prf(algo, &inner, signed_octets)
}

} // verus!
