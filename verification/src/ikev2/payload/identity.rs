//! The Identification and Authentication payloads (RFC 7296 §3.5, §3.8).

use vstd::prelude::*;
use vstd::string::StrSliceExecFns;
use vstd::utf8::encode_utf8;

use crate::bytes;
use crate::error::{viewed, Failure, IkeError};

verus! {

/// ID Type of a fully-qualified domain name (RFC 7296 §3.5).
pub const ID_FQDN: u8 = 2;

/// An Identification payload: who a peer says it is.
#[derive(Debug, Clone, PartialEq, Eq)]
pub struct Identification {
    pub id_type: u8,
    pub data: Vec<u8>,
}

/// An [`Identification`] as a value of the specification.
#[verifier::ext_equal]
pub struct Identity {
    pub id_type: u8,
    pub data: Seq<u8>,
}

impl View for Identification {
    type V = Identity;

    open spec fn view(&self) -> Identity {
        Identity { id_type: self.id_type, data: self.data@ }
    }
}

impl Identity {
    /// The domain name `name`.
    pub open spec fn fqdn(name: Seq<char>) -> Identity {
        Identity { id_type: ID_FQDN, data: encode_utf8(name) }
    }

    /// The payload body on the wire: the RestOfIDPayload an AUTH signs.
    pub open spec fn octets(self) -> Seq<u8> {
        seq![self.id_type, 0u8, 0u8, 0u8] + self.data
    }

    /// The payload `body` holds.
    pub open spec fn read(body: Seq<u8>) -> Result<Identity, Failure> {
        if body.len() < 4 {
            Err(Failure::Truncated { need: 4, have: body.len() })
        } else {
            Ok(Identity { id_type: body[0], data: bytes::from(body, 4) })
        }
    }
}

impl Identification {
    /// The domain name `name`.
    pub fn fqdn(name: &str) -> (id: Identification)
        ensures
            id@ == Identity::fqdn(name@),
    {
        Identification { id_type: ID_FQDN, data: name.as_bytes_vec() }
    }

    /// Parse the payload body.
    pub fn parse(body: &[u8]) -> (id: Result<Identification, IkeError>)
        ensures
            viewed(id) == Identity::read(body@),
    {
        if body.len() < 4 {
            return Err(IkeError::Truncated { need: 4, have: body.len() });
        }
        Ok(Identification { id_type: body[0], data: bytes::copy(bytes::tail(body, 4)) })
    }

    /// Serialize the payload body.
    pub fn to_bytes(&self) -> (out: Vec<u8>)
        ensures
            out@ == self@.octets(),
    {
        let mut out: Vec<u8> = Vec::new();
        out.push(self.id_type);
        bytes::push_zeros(&mut out, 3);
        bytes::push_all(&mut out, &self.data);
        assert(out@ =~= self@.octets());
        out
    }
}

/// Reading the wire form of an identity gives it back.
pub proof fn law_identity_round_trip(id: Identity)
    ensures
        Identity::read(id.octets()) == Ok::<Identity, Failure>(id),
{
    assert(bytes::from(id.octets(), 4) =~= id.data);
}

/// An Authentication payload: a method, and what proves the identity under it.
#[derive(Debug, Clone, PartialEq, Eq)]
pub struct Authentication {
    pub method: u8,
    pub data: Vec<u8>,
}

/// An [`Authentication`] as a value of the specification.
#[verifier::ext_equal]
pub struct Proof {
    pub method: u8,
    pub data: Seq<u8>,
}

impl View for Authentication {
    type V = Proof;

    open spec fn view(&self) -> Proof {
        Proof { method: self.method, data: self.data@ }
    }
}

impl Proof {
    /// The payload body on the wire.
    pub open spec fn octets(self) -> Seq<u8> {
        seq![self.method, 0u8, 0u8, 0u8] + self.data
    }

    /// The payload `body` holds.
    pub open spec fn read(body: Seq<u8>) -> Result<Proof, Failure> {
        if body.len() < 4 {
            Err(Failure::Truncated { need: 4, have: body.len() })
        } else {
            Ok(Proof { method: body[0], data: bytes::from(body, 4) })
        }
    }
}

impl Authentication {
    /// Parse the payload body.
    pub fn parse(body: &[u8]) -> (auth: Result<Authentication, IkeError>)
        ensures
            viewed(auth) == Proof::read(body@),
    {
        if body.len() < 4 {
            return Err(IkeError::Truncated { need: 4, have: body.len() });
        }
        Ok(Authentication { method: body[0], data: bytes::copy(bytes::tail(body, 4)) })
    }

    /// Serialize the payload body.
    pub fn to_bytes(&self) -> (out: Vec<u8>)
        ensures
            out@ == self@.octets(),
    {
        let mut out: Vec<u8> = Vec::new();
        out.push(self.method);
        bytes::push_zeros(&mut out, 3);
        bytes::push_all(&mut out, &self.data);
        assert(out@ =~= self@.octets());
        out
    }
}

/// Reading the wire form of an authentication gives it back.
pub proof fn law_authentication_round_trip(auth: Proof)
    ensures
        Proof::read(auth.octets()) == Ok::<Proof, Failure>(auth),
{
    assert(bytes::from(auth.octets(), 4) =~= auth.data);
}

} // verus!
