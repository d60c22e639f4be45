//! Transform IDs, by Transform Type (RFC 7296 §3.3.2, RFC 8247).

use vstd::prelude::*;

verus! {

pub const TRIPLE_DES: u16 = 3;

pub const AES_CBC: u16 = 12;

pub const AES_GCM_16: u16 = 20;

pub const CHACHA20_POLY1305: u16 = 28;

pub const PRF_HMAC_MD5: u16 = 1;

pub const PRF_HMAC_SHA1: u16 = 2;

pub const PRF_HMAC_SHA2_256: u16 = 5;

pub const PRF_HMAC_SHA2_384: u16 = 6;

pub const PRF_HMAC_SHA2_512: u16 = 7;

/// No integrity algorithm of its own: what a combined-mode cipher may be offered with.
pub const INTEG_NONE: u16 = 0;

pub const AUTH_HMAC_MD5_96: u16 = 1;

pub const AUTH_HMAC_SHA1_96: u16 = 2;

pub const AUTH_HMAC_SHA2_256_128: u16 = 12;

pub const AUTH_HMAC_SHA2_384_192: u16 = 13;

pub const AUTH_HMAC_SHA2_512_256: u16 = 14;

/// No Diffie-Hellman exchange: a CHILD SA without PFS.
pub const DH_NONE: u16 = 0;

pub const MODP_768: u16 = 1;

pub const MODP_1024: u16 = 2;

pub const MODP_1536: u16 = 5;

pub const MODP_2048: u16 = 14;

pub const MODP_3072: u16 = 15;

pub const MODP_4096: u16 = 16;

pub const MODP_6144: u16 = 17;

pub const MODP_8192: u16 = 18;

pub const ECP256: u16 = 19;

pub const ECP384: u16 = 20;

pub const ECP521: u16 = 21;

pub const X25519: u16 = 31;

pub const ESN_NONE: u16 = 0;

pub const ESN_ENABLED: u16 = 1;

/// Stands for the ID of a transform that carries an attribute we do not
/// understand: the transform keeps its type and names nothing we could run.
pub const UNUSABLE: u16 = 0xFFFF;

} // verus!
