//! Notify Message Types (RFC 7296 §3.10.1, RFC 4555, RFC 7383, RFC 7427).

use vstd::prelude::*;

verus! {

pub const UNSUPPORTED_CRITICAL_PAYLOAD: u16 = 1;

pub const INVALID_IKE_SPI: u16 = 4;

pub const INVALID_MAJOR_VERSION: u16 = 5;

pub const INVALID_SYNTAX: u16 = 7;

pub const INVALID_MESSAGE_ID: u16 = 9;

pub const INVALID_SPI: u16 = 11;

pub const NO_PROPOSAL_CHOSEN: u16 = 14;

pub const INVALID_KE_PAYLOAD: u16 = 17;

pub const AUTHENTICATION_FAILED: u16 = 24;

pub const SINGLE_PAIR_REQUIRED: u16 = 34;

pub const NO_ADDITIONAL_SAS: u16 = 35;

pub const INTERNAL_ADDRESS_FAILURE: u16 = 36;

pub const FAILED_CP_REQUIRED: u16 = 37;

pub const TS_UNACCEPTABLE: u16 = 38;

pub const INVALID_SELECTORS: u16 = 39;

pub const TEMPORARY_FAILURE: u16 = 43;

pub const CHILD_SA_NOT_FOUND: u16 = 44;

pub const INITIAL_CONTACT: u16 = 16384;

pub const NAT_DETECTION_SOURCE_IP: u16 = 16388;

pub const NAT_DETECTION_DESTINATION_IP: u16 = 16389;

pub const COOKIE: u16 = 16390;

pub const REKEY_SA: u16 = 16393;

pub const MOBIKE_SUPPORTED: u16 = 16396;

pub const UPDATE_SA_ADDRESSES: u16 = 16400;

pub const IKEV2_FRAGMENTATION_SUPPORTED: u16 = 16430;

pub const SIGNATURE_HASH_ALGORITHMS: u16 = 16431;

/// Whether a notify of this type refuses only the CHILD SA of an `IKE_AUTH`
/// whose IKE SA stands (RFC 7296 §1.2).
pub open spec fn child_sa_error(notify_type: u16) -> bool {
    ||| notify_type == NO_PROPOSAL_CHOSEN
    ||| notify_type == TS_UNACCEPTABLE
    ||| notify_type == SINGLE_PAIR_REQUIRED
    ||| notify_type == INTERNAL_ADDRESS_FAILURE
    ||| notify_type == FAILED_CP_REQUIRED
}

/// Whether a notify of this type refuses only the CHILD SA of an `IKE_AUTH`
/// whose IKE SA stands (RFC 7296 §1.2).
pub fn is_child_sa_error(notify_type: u16) -> (refuses: bool)
    ensures
        refuses == child_sa_error(notify_type),
{
    notify_type == NO_PROPOSAL_CHOSEN || notify_type == TS_UNACCEPTABLE || notify_type == SINGLE_PAIR_REQUIRED
        || notify_type == INTERNAL_ADDRESS_FAILURE || notify_type == FAILED_CP_REQUIRED
}

/// What a notify type is called.
#[verifier::opaque]
pub open spec fn name(notify_type: u16) -> Seq<char> {
    if notify_type == UNSUPPORTED_CRITICAL_PAYLOAD {
        "UNSUPPORTED_CRITICAL_PAYLOAD"@
    } else if notify_type == INVALID_IKE_SPI {
        "INVALID_IKE_SPI"@
    } else if notify_type == INVALID_MAJOR_VERSION {
        "INVALID_MAJOR_VERSION"@
    } else if notify_type == INVALID_SYNTAX {
        "INVALID_SYNTAX"@
    } else if notify_type == INVALID_MESSAGE_ID {
        "INVALID_MESSAGE_ID"@
    } else if notify_type == INVALID_SPI {
        "INVALID_SPI"@
    } else if notify_type == NO_PROPOSAL_CHOSEN {
        "NO_PROPOSAL_CHOSEN"@
    } else if notify_type == INVALID_KE_PAYLOAD {
        "INVALID_KE_PAYLOAD"@
    } else if notify_type == AUTHENTICATION_FAILED {
        "AUTHENTICATION_FAILED"@
    } else if notify_type == SINGLE_PAIR_REQUIRED {
        "SINGLE_PAIR_REQUIRED"@
    } else if notify_type == NO_ADDITIONAL_SAS {
        "NO_ADDITIONAL_SAS"@
    } else if notify_type == INTERNAL_ADDRESS_FAILURE {
        "INTERNAL_ADDRESS_FAILURE"@
    } else if notify_type == FAILED_CP_REQUIRED {
        "FAILED_CP_REQUIRED"@
    } else if notify_type == TS_UNACCEPTABLE {
        "TS_UNACCEPTABLE"@
    } else if notify_type == INVALID_SELECTORS {
        "INVALID_SELECTORS"@
    } else if notify_type == TEMPORARY_FAILURE {
        "TEMPORARY_FAILURE"@
    } else if notify_type == CHILD_SA_NOT_FOUND {
        "CHILD_SA_NOT_FOUND"@
    } else {
        "an unnamed error"@
    }
}

/// What an error notify type is called.
pub fn notify_type_name(notify_type: u16) -> (text: &'static str)
    ensures
        text@ == name(notify_type),
{
    reveal(name);
    if notify_type == UNSUPPORTED_CRITICAL_PAYLOAD {
        "UNSUPPORTED_CRITICAL_PAYLOAD"
    } else if notify_type == INVALID_IKE_SPI {
        "INVALID_IKE_SPI"
    } else if notify_type == INVALID_MAJOR_VERSION {
        "INVALID_MAJOR_VERSION"
    } else if notify_type == INVALID_SYNTAX {
        "INVALID_SYNTAX"
    } else if notify_type == INVALID_MESSAGE_ID {
        "INVALID_MESSAGE_ID"
    } else if notify_type == INVALID_SPI {
        "INVALID_SPI"
    } else if notify_type == NO_PROPOSAL_CHOSEN {
        "NO_PROPOSAL_CHOSEN"
    } else if notify_type == INVALID_KE_PAYLOAD {
        "INVALID_KE_PAYLOAD"
    } else if notify_type == AUTHENTICATION_FAILED {
        "AUTHENTICATION_FAILED"
    } else if notify_type == SINGLE_PAIR_REQUIRED {
        "SINGLE_PAIR_REQUIRED"
    } else if notify_type == NO_ADDITIONAL_SAS {
        "NO_ADDITIONAL_SAS"
    } else if notify_type == INTERNAL_ADDRESS_FAILURE {
        "INTERNAL_ADDRESS_FAILURE"
    } else if notify_type == FAILED_CP_REQUIRED {
        "FAILED_CP_REQUIRED"
    } else if notify_type == TS_UNACCEPTABLE {
        "TS_UNACCEPTABLE"
    } else if notify_type == INVALID_SELECTORS {
        "INVALID_SELECTORS"
    } else if notify_type == TEMPORARY_FAILURE {
        "TEMPORARY_FAILURE"
    } else if notify_type == CHILD_SA_NOT_FOUND {
        "CHILD_SA_NOT_FOUND"
    } else {
        "an unnamed error"
    }
}

} // verus!
