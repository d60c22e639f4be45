//! IP addresses and UDP endpoints as plain octets.

use vstd::prelude::*;

verus! {

/// An IPv4 or IPv6 address.
#[derive(Debug, Clone, Copy, PartialEq, Eq)]
pub enum IpAddress {
    V4([u8; 4]),
    V6([u8; 16]),
}

impl IpAddress {
    /// The octets of the address.
    pub open spec fn octets(self) -> Seq<u8> {
        match self {
            IpAddress::V4(octets) => octets@,
            IpAddress::V6(octets) => octets@,
        }
    }

    /// Whether the address is an IPv4 one, or an IPv6 one that maps an IPv4
    /// address (`::ffff:a.b.c.d`, RFC 4291 §2.5.5.2).
    pub open spec fn travels_as_ipv4(self) -> bool {
        match self {
            IpAddress::V4(_) => true,
            IpAddress::V6(octets) => octets@.take(10) == Seq::new(10, |i: int| 0u8) && octets@[10] == 0xff
                && octets@[11] == 0xff,
        }
    }

    /// Whether the address is an IPv4 one, or an IPv6 one that maps an IPv4
    /// address.
    pub fn is_ipv4(&self) -> (v4: bool)
        ensures
            v4 == self.travels_as_ipv4(),
    {
        match self {
            IpAddress::V4(_) => true,
            IpAddress::V6(octets) => {
                for i in 0..10usize
                    invariant
                        *self == IpAddress::V6(*octets),
                        forall|j: int| 0 <= j < i ==> octets@[j] == 0,
                {
                    if octets[i] != 0 {
                        assert(octets@.take(10)[i as int] != 0);
                        return false;
                    }
                }
                assert(octets@.take(10) =~= Seq::new(10, |i: int| 0u8));
                octets[10] == 0xff && octets[11] == 0xff
            },
        }
    }

    /// The octets of the address.
    pub fn to_bytes(&self) -> (out: Vec<u8>)
        ensures
            out@ == self.octets(),
    {
        match self {
            IpAddress::V4(octets) => crate::bytes::copy(octets),
            IpAddress::V6(octets) => crate::bytes::copy(octets),
        }
    }
}

/// A UDP endpoint.
#[derive(Debug, Clone, Copy, PartialEq, Eq)]
pub struct Endpoint {
    pub ip: IpAddress,
    pub port: u16,
}

} // verus!
