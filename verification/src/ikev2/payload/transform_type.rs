//! Transform Types (RFC 7296 §3.3.2).

use vstd::prelude::*;

verus! {

pub const ENCR: u8 = 1;

pub const PRF: u8 = 2;

pub const INTEG: u8 = 3;

pub const DH: u8 = 4;

pub const ESN: u8 = 5;

} // verus!
