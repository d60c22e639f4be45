//! IKEv2: framing, negotiation, authentication, fragmentation and rekeying.

pub mod auth;
pub mod auth_laws;
pub mod child;
pub mod child_laws;
pub mod choice_laws;
pub mod client;
pub mod eap;
pub mod eap_auth;
pub mod exchange;
pub mod fragment;
pub mod ike_auth;
pub mod ike_rekey;
pub mod informational;
pub mod init_laws;
pub mod key_laws;
pub mod message;
pub mod mobike;
pub mod mschapv2;
pub mod mschapv2_laws;
pub mod natt;
pub mod negotiate;
pub mod notice_laws;
pub mod parts_laws;
pub mod payload;
pub mod seal_laws;
pub mod sk;
pub mod wire_laws;
