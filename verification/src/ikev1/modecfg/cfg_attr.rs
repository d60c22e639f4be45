//! Attributes of a configuration payload (draft-beaulieu-ike-xauth §3).

use vstd::prelude::*;

verus! {

pub const XAUTH_TYPE: u16 = 16520;

pub const XAUTH_USER_NAME: u16 = 16521;

pub const XAUTH_USER_PASSWORD: u16 = 16522;

pub const XAUTH_STATUS: u16 = 16527;

} // verus!
