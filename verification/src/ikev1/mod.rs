//! IKEv1 (RFC 2408, RFC 2409).

pub mod informational;
pub mod isakmp;
pub mod modecfg;
pub mod notify_type;
pub mod phase1;
pub mod phase2;
pub mod protocol;
pub mod rtt;
pub mod rtt_laws;
pub mod server;
pub mod server_laws;
pub mod wire_laws;
pub mod xauth;
