//! Exchange types (RFC 2408 §3.1, RFC 2409 §5.5).

use vstd::prelude::*;

verus! {

pub const MAIN: u8 = 2;

pub const AGGRESSIVE: u8 = 4;

pub const INFORMATIONAL: u8 = 5;

pub const TRANSACTION: u8 = 6;

pub const QUICK: u8 = 32;

} // verus!
