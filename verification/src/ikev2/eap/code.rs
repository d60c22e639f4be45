//! EAP codes (RFC 3748 §4).

use vstd::prelude::*;

verus! {

pub const REQUEST: u8 = 1;

pub const RESPONSE: u8 = 2;

pub const SUCCESS: u8 = 3;

pub const FAILURE: u8 = 4;

} // verus!
