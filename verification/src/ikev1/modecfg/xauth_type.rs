//! Values of XAUTH_TYPE (draft-beaulieu-ike-xauth §3).

use vstd::prelude::*;

verus! {

pub const GENERIC: u16 = 0;

} // verus!
