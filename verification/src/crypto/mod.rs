//! The cryptographic core: hashes, PRFs, key agreement, ciphers and key derivation.

pub mod aead;
pub mod block;
pub mod dh;
pub mod ec;
pub mod hash;
pub mod laws;
pub mod modp;
pub mod number;
pub mod prf;

pub use dh::DhGroup;
pub use prf::{
    derive_rekey_session_keys, derive_session_keys, prf, IntegAlgorithm, KeyLengths, PrfAlgorithm, SessionKeys,
};
