//! IKEv2 and IKEv1 building blocks with machine-checked contracts.

use vstd::prelude::*;

pub mod addr;
pub mod bytes;
pub mod crypto;
pub mod entropy;
pub mod error;
pub mod ikev1;
pub mod ikev2;
pub mod model_laws;
pub mod role;
pub mod text;
pub mod time;
mod wipe;

verus! {

} // verus!
