//! Hash algorithms of a Digital Signature AUTH (RFC 7427 §7).

use vstd::prelude::*;

verus! {

pub const SHA1: u16 = 1;

pub const SHA2_256: u16 = 2;

pub const SHA2_384: u16 = 3;

pub const SHA2_512: u16 = 4;

} // verus!
