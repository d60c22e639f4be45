//! Payload types (RFC 2408 §3.1).

use vstd::prelude::*;

verus! {

pub const NONE: u8 = 0;

pub const HASH: u8 = 8;

pub const NOTIFY: u8 = 11;

pub const DELETE: u8 = 12;

pub const ATTRIBUTE: u8 = 14;

} // verus!
