//! Values of XAUTH_STATUS (draft-beaulieu-ike-xauth §3).

use vstd::prelude::*;

verus! {

pub const FAIL: u16 = 0;

pub const OK: u16 = 1;

} // verus!
