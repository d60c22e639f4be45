//! Authentication methods (RFC 7296 §3.8, RFC 4754, RFC 7427).

use vstd::prelude::*;

verus! {

pub const RSA_SIG: u8 = 1;

pub const SHARED_KEY: u8 = 2;

pub const ECDSA_SHA256_P256: u8 = 9;

pub const DIGITAL_SIGNATURE: u8 = 14;

} // verus!
