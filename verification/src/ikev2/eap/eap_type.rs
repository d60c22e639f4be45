//! EAP method Types (RFC 3748 §5).

use vstd::prelude::*;

verus! {

pub const IDENTITY: u8 = 1;

pub const NOTIFICATION: u8 = 2;

pub const NAK: u8 = 3;

pub const MSCHAPV2: u8 = 26;

} // verus!
