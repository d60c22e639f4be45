//! Notify message types of dead peer detection (RFC 3706 §5.3).

use vstd::prelude::*;

verus! {

pub const R_U_THERE: u16 = 36136;

pub const R_U_THERE_ACK: u16 = 36137;

} // verus!
