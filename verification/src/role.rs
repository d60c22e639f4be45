//! Which end of an exchange we are.

use vstd::prelude::*;

verus! {

/// The two ends of an IKE SA: who sent the first `IKE_SA_INIT`, and who answered it.
#[derive(Debug, Clone, Copy, PartialEq, Eq, Structural)]
pub enum Role {
    Initiator,
    Responder,
}

} // verus!
