//! Header flags (RFC 2408 §3.1).

use vstd::prelude::*;

verus! {

pub const ENCRYPTION: u8 = 1;

} // verus!
