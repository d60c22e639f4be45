//! What can go wrong in an exchange.

use vstd::prelude::*;

verus! {

/// Why a message was refused, or could not be built.
#[derive(Debug, Clone, PartialEq, Eq)]
pub enum IkeError {
    /// The input ends before a fixed-size field does.
    Truncated { need: usize, have: usize },
    /// The IKE header carries a major version other than 2.
    UnsupportedVersion(u8),
    /// A payload's declared length does not even cover its generic header.
    ShortPayload(u16),
    /// A declared length disagrees with what is there.
    BadLength { declared: usize, available: usize },
    /// A field, a key or a value does not hold together, for the reason given.
    Crypto(&'static str),
    /// A payload holds nothing it could be taken for, for the reason given.
    MalformedPayload(&'static str),
    /// The peer did not prove who it is.
    AuthFailed,
    /// No proposal is acceptable, or the answer is not one of ours.
    NoProposalChosen,
    /// The peer answered with an error notify.
    PeerRejected { notify_type: u16, name: &'static str },
    /// The peer wants its Key Exchange in this group.
    InvalidKeGroup(u16),
    /// The peer wants this cookie echoed before it does any work.
    CookieRequired { cookie: Vec<u8> },
    /// A payload the exchange needs is not there.
    MissingPayload(&'static str),
    /// The Key Exchange is of another group than the negotiated one.
    DhGroupMismatch { expected: u16, got: u16 },
    /// The Key Exchange data has the wrong length for its group.
    BadKeyExchange { group: u16, len: usize },
    /// An integrity check value or AEAD tag does not verify.
    BadIntegrity,
    /// A payload of a type we do not know carries the critical flag.
    UnsupportedCriticalPayload(u8),
    /// Nothing is left of the traffic selectors the peer proposed.
    TsUnacceptable,
    /// The peer answered with traffic selectors we did not offer.
    TsOutsideOffer,
}

/// An [`IkeError`] as a value of the specification.
#[verifier::ext_equal]
pub enum Failure {
    Truncated { need: nat, have: nat },
    UnsupportedVersion(u8),
    ShortPayload(u16),
    BadLength { declared: nat, available: nat },
    Crypto(Seq<char>),
    MalformedPayload(Seq<char>),
    AuthFailed,
    NoProposalChosen,
    PeerRejected { notify_type: u16, name: Seq<char> },
    InvalidKeGroup(u16),
    CookieRequired { cookie: Seq<u8> },
    MissingPayload(Seq<char>),
    DhGroupMismatch { expected: u16, got: u16 },
    BadKeyExchange { group: u16, len: nat },
    BadIntegrity,
    UnsupportedCriticalPayload(u8),
    TsUnacceptable,
    TsOutsideOffer,
}

impl View for IkeError {
    type V = Failure;

    open spec fn view(&self) -> Failure {
        match *self {
            IkeError::Truncated { need, have } => Failure::Truncated { need: need as nat, have: have as nat },
            IkeError::UnsupportedVersion(version) => Failure::UnsupportedVersion(version),
            IkeError::ShortPayload(length) => Failure::ShortPayload(length),
            IkeError::BadLength { declared, available } => Failure::BadLength {
                declared: declared as nat,
                available: available as nat,
            },
            IkeError::Crypto(why) => Failure::Crypto(why@),
            IkeError::MalformedPayload(why) => Failure::MalformedPayload(why@),
            IkeError::AuthFailed => Failure::AuthFailed,
            IkeError::NoProposalChosen => Failure::NoProposalChosen,
            IkeError::PeerRejected { notify_type, name } => Failure::PeerRejected { notify_type, name: name@ },
            IkeError::InvalidKeGroup(group) => Failure::InvalidKeGroup(group),
            IkeError::CookieRequired { cookie } => Failure::CookieRequired { cookie: cookie@ },
            IkeError::MissingPayload(name) => Failure::MissingPayload(name@),
            IkeError::DhGroupMismatch { expected, got } => Failure::DhGroupMismatch { expected, got },
            IkeError::BadKeyExchange { group, len } => Failure::BadKeyExchange { group, len: len as nat },
            IkeError::BadIntegrity => Failure::BadIntegrity,
            IkeError::UnsupportedCriticalPayload(payload) => Failure::UnsupportedCriticalPayload(payload),
            IkeError::TsUnacceptable => Failure::TsUnacceptable,
            IkeError::TsOutsideOffer => Failure::TsOutsideOffer,
        }
    }
}

/// A result with both sides taken by their views.
pub open spec fn viewed<T: View>(result: Result<T, IkeError>) -> Result<T::V, Failure> {
    match result {
        Ok(value) => Ok(value@),
        Err(error) => Err(error@),
    }
}

/// An optional value taken by its view.
pub open spec fn viewed_option<T: View>(value: Option<T>) -> Option<T::V> {
    match value {
        Some(value) => Some(value@),
        None => None,
    }
}

} // verus!
