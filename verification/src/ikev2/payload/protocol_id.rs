//! Security protocol identifiers (RFC 7296 §3.3.1).

use vstd::prelude::*;

verus! {

pub const IKE: u8 = 1;

pub const AH: u8 = 2;

pub const ESP: u8 = 3;

} // verus!
