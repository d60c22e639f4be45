//! Typed payload bodies (RFC 7296 §3.3 to §3.15).

pub mod auth_method;
pub mod basic;
pub mod cert;
pub mod config;
pub mod identity;
pub mod notify_type;
pub mod protocol_id;
pub mod sa;
pub mod sighash;
pub mod transform_id;
pub mod transform_type;
pub mod ts;

pub use basic::{Delete, KeyExchange, Nonce, Notify};
pub use cert::{CertRequest, Certificate};
pub use config::Configuration;
pub use identity::{Authentication, Identification};
pub use notify_type::notify_type_name;
pub use sa::{Proposal, SecurityAssociation, Transform};
pub use ts::{TrafficSelector, TrafficSelectors};
