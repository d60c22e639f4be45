//! Protocol identifiers (RFC 2407 §4.4.1).

use vstd::prelude::*;

verus! {

pub const ISAKMP: u8 = 1;

pub const ESP: u8 = 3;

} // verus!
