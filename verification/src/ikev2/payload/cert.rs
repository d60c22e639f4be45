//! The Certificate and Certificate Request payloads (RFC 7296 §3.6, §3.7).

use vstd::prelude::*;

use crate::bytes;
use crate::error::{viewed, Failure, IkeError};

verus! {

/// Certificate Encoding of an X.509 signature certificate (RFC 7296 §3.6).
pub const X509_SIGNATURE: u8 = 4;

/// A Certificate payload.
#[derive(Debug, Clone, PartialEq, Eq)]
pub struct Certificate {
    pub encoding: u8,
    pub data: Vec<u8>,
}

/// A [`Certificate`] as a value of the specification.
#[verifier::ext_equal]
pub struct Presented {
    pub encoding: u8,
    pub data: Seq<u8>,
}

impl View for Certificate {
    type V = Presented;

    open spec fn view(&self) -> Presented {
        Presented { encoding: self.encoding, data: self.data@ }
    }
}

impl Presented {
    /// The X.509 certificate with this DER encoding.
    pub open spec fn x509(data: Seq<u8>) -> Presented {
        Presented { encoding: X509_SIGNATURE, data }
    }

    /// The payload body on the wire.
    pub open spec fn octets(self) -> Seq<u8> {
        seq![self.encoding] + self.data
    }

    /// The payload `body` holds.
    pub open spec fn read(body: Seq<u8>) -> Result<Presented, Failure> {
        if body.len() < 1 {
            Err(Failure::Truncated { need: 1, have: body.len() })
        } else {
            Ok(Presented { encoding: body[0], data: bytes::from(body, 1) })
        }
    }
}

impl Certificate {
    /// The X.509 certificate with this DER encoding.
    pub fn x509(data: Vec<u8>) -> (cert: Certificate)
        ensures
            cert@ == Presented::x509(data@),
    {
        Certificate { encoding: X509_SIGNATURE, data }
    }

    /// Parse the payload body.
    pub fn parse(body: &[u8]) -> (cert: Result<Certificate, IkeError>)
        ensures
            viewed(cert) == Presented::read(body@),
    {
        if body.len() < 1 {
            return Err(IkeError::Truncated { need: 1, have: body.len() });
        }
        Ok(Certificate { encoding: body[0], data: bytes::copy(bytes::tail(body, 1)) })
    }

    /// Serialize the payload body.
    pub fn to_bytes(&self) -> (out: Vec<u8>)
        ensures
            out@ == self@.octets(),
    {
        let mut out: Vec<u8> = Vec::new();
        out.push(self.encoding);
        bytes::push_all(&mut out, &self.data);
        assert(out@ =~= self@.octets());
        out
    }
}

/// Reading the wire form of a certificate gives it back.
pub proof fn law_certificate_round_trip(cert: Presented)
    ensures
        Presented::read(cert.octets()) == Ok::<Presented, Failure>(cert),
{
    assert(bytes::from(cert.octets(), 1) =~= cert.data);
}

/// A Certificate Request payload: the SHA-1 hashes of the public keys of the CAs
/// the sender trusts.
#[derive(Debug, Clone, PartialEq, Eq)]
pub struct CertRequest {
    pub encoding: u8,
    pub ca_hashes: Vec<[u8; 20]>,
}

/// Hashes on the wire.
pub open spec fn hash_octets(hashes: Seq<[u8; 20]>) -> Seq<u8>
    decreases hashes.len(),
{
    if hashes.len() == 0 {
        Seq::empty()
    } else {
        hash_octets(hashes.drop_last()) + hashes.last()@
    }
}

/// The body of a Certificate Request for X.509 certificates.
pub open spec fn request_octets(hashes: Seq<[u8; 20]>) -> Seq<u8> {
    seq![X509_SIGNATURE] + hash_octets(hashes)
}

impl CertRequest {
    /// The payload body on the wire.
    pub open spec fn octets(self) -> Seq<u8> {
        seq![self.encoding] + hash_octets(self.ca_hashes@)
    }

    /// A request for an X.509 certificate under one of these CAs.
    pub fn x509(ca_hashes: Vec<[u8; 20]>) -> (request: CertRequest)
        ensures
            request.octets() == request_octets(ca_hashes@),
            request.encoding == X509_SIGNATURE,
            request.ca_hashes == ca_hashes,
    {
        CertRequest { encoding: X509_SIGNATURE, ca_hashes }
    }

    /// Parse the payload body: an encoding, then whole hashes.
    pub fn parse(body: &[u8]) -> (request: Result<CertRequest, IkeError>)
        ensures
            match request {
                Ok(request) => body@.len() > 0 && body@ == request.octets(),
                Err(error) => if body@.len() == 0 {
                    error@ == Failure::Truncated { need: 1, have: 0 }
                } else {
                    (body@.len() - 1) % 20 != 0 && error@ == Failure::MalformedPayload(
                        "CERTREQ payload with a partial CA hash"@,
                    )
                },
            },
    {
        if body.len() < 1 {
            return Err(IkeError::Truncated { need: 1, have: body.len() });
        }
        let count: usize = (body.len() - 1) / 20;
        if (body.len() - 1) % 20 != 0 {
            return Err(IkeError::MalformedPayload("CERTREQ payload with a partial CA hash"));
        }
        let mut ca_hashes: Vec<[u8; 20]> = Vec::new();
        for i in 0..count
            invariant
                body.len() == 1 + 20 * count,
                hash_octets(ca_hashes@) == body@.subrange(1, 1 + 20 * i),
        {
            let mut hash: [u8; 20] = [0; 20];
            for j in 0..20usize
                invariant
                    i < count,
                    body.len() == 1 + 20 * count,
                    forall|k: int| 0 <= k < j ==> hash@[k] == body@[1 + 20 * i + k],
            {
                hash[j] = body[1 + 20 * i + j];
            }
            let ghost before = ca_hashes@;
            ca_hashes.push(hash);
            proof {
                assert(ca_hashes@.drop_last() =~= before);
                assert(hash@ =~= body@.subrange(1 + 20 * i, 1 + 20 * (i + 1)));
                assert(hash_octets(ca_hashes@) =~= body@.subrange(1, 1 + 20 * (i + 1)));
            }
        }
        let request = CertRequest { encoding: body[0], ca_hashes };
        assert(request.octets() =~= body@);
        Ok(request)
    }

    /// Serialize the payload body.
    pub fn to_bytes(&self) -> (out: Vec<u8>)
        ensures
            out@ == self.octets(),
    {
        let mut out: Vec<u8> = Vec::new();
        out.push(self.encoding);
        let ghost fixed = out@;
        assert(self.ca_hashes@.take(0) =~= Seq::<[u8; 20]>::empty());
        for i in 0..self.ca_hashes.len()
            invariant
                fixed == seq![self.encoding],
                out@ == fixed + hash_octets(self.ca_hashes@.take(i as int)),
        {
            bytes::push_all(&mut out, &self.ca_hashes[i]);
            proof {
                let taken = self.ca_hashes@.take(i + 1);
                assert(taken.drop_last() =~= self.ca_hashes@.take(i as int));
                assert(out@ =~= fixed + hash_octets(taken));
            }
        }
        assert(self.ca_hashes@.take(self.ca_hashes@.len() as int) =~= self.ca_hashes@);
        out
    }
}

/// A fresh copy of a list of hashes.
pub(crate) fn copy_hashes(hashes: &[[u8; 20]]) -> (out: Vec<[u8; 20]>)
    ensures
        out@ == hashes@,
{
    let mut out: Vec<[u8; 20]> = Vec::new();
    for i in 0..hashes.len()
        invariant
            out@ == hashes@.take(i as int),
    {
        out.push(hashes[i]);
        assert(out@ =~= hashes@.take(i + 1));
    }
    assert(out@ =~= hashes@);
    out
}

} // verus!
