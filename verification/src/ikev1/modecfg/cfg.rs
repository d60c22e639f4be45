//! Types of a configuration payload (draft-dukes-ike-mode-cfg §3.2).

use vstd::prelude::*;

verus! {

pub const REQUEST: u8 = 1;

pub const REPLY: u8 = 2;

pub const SET: u8 = 3;

pub const ACK: u8 = 4;

} // verus!
