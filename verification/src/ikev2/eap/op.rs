//! EAP-MSCHAPv2 op-codes (the first octet of the MSCHAPv2 message).

use vstd::prelude::*;

verus! {

pub const CHALLENGE: u8 = 1;

pub const RESPONSE: u8 = 2;

pub const SUCCESS: u8 = 3;

pub const FAILURE: u8 = 4;

} // verus!
