//! NAT traversal: address hashes (RFC 7296 §2.23) and the non-ESP marker on UDP
//! port 4500 (RFC 3948 §2.2).

use vstd::prelude::*;

use crate::addr::IpAddress;
use crate::bytes;
use crate::crypto::hash;
use crate::ikev2::payload::basic::Notice;
use crate::ikev2::payload::{notify_type, Notify};

verus! {

broadcast use crate::bytes::group_lengths;

/// The hash of an address as a NAT detection notify carries it:
/// `SHA-1(SPIi | SPIr | address | port)`.
pub open spec fn address_hash_of(spi_i: u64, spi_r: u64, ip: Seq<u8>, port: u16) -> Seq<u8> {
    hash::sha1_of(bytes::be64(spi_i) + bytes::be64(spi_r) + ip + bytes::be16(port))@
}

/// The hash of an address as a NAT detection notify carries it.
pub fn address_hash(spi_i: u64, spi_r: u64, ip: IpAddress, port: u16) -> (out: Vec<u8>)
    ensures
        out@ == address_hash_of(spi_i, spi_r, ip.octets(), port),
{
    let mut input: Vec<u8> = Vec::new();
    bytes::push64(&mut input, spi_i);
    bytes::push64(&mut input, spi_r);
    bytes::push_all(&mut input, &ip.to_bytes());
    bytes::push16(&mut input, port);
    assert(input@ =~= bytes::be64(spi_i) + bytes::be64(spi_r) + ip.octets() + bytes::be16(port));
    hash::sha1_digest(&input)
}

/// The notify that tells the peer which address we send from.
pub fn source_ip_notify(spi_i: u64, spi_r: u64, ip: IpAddress, port: u16) -> (notify: Notify)
    ensures
        notify@ == Notice::status(
            notify_type::NAT_DETECTION_SOURCE_IP,
            address_hash_of(spi_i, spi_r, ip.octets(), port),
        ),
{
    Notify::status(notify_type::NAT_DETECTION_SOURCE_IP, address_hash(spi_i, spi_r, ip, port))
}

/// The notify that tells the peer which address we send to.
pub fn destination_ip_notify(spi_i: u64, spi_r: u64, ip: IpAddress, port: u16) -> (notify: Notify)
    ensures
        notify@ == Notice::status(
            notify_type::NAT_DETECTION_DESTINATION_IP,
            address_hash_of(spi_i, spi_r, ip.octets(), port),
        ),
{
    Notify::status(notify_type::NAT_DETECTION_DESTINATION_IP, address_hash(spi_i, spi_r, ip, port))
}

/// Whether the peer's destination hash disagrees with our address: it sees us
/// behind another one.
pub fn we_are_behind_nat(dest_hash: &[u8], spi_i: u64, spi_r: u64, ip: IpAddress, port: u16) -> (natted: bool)
    ensures
        natted == (dest_hash@ != address_hash_of(spi_i, spi_r, ip.octets(), port)),
{
    !bytes::same(dest_hash, &address_hash(spi_i, spi_r, ip, port))
}

/// Whether the peer's source hash disagrees with the address we see it at.
pub fn peer_is_behind_nat(source_hash: &[u8], spi_i: u64, spi_r: u64, ip: IpAddress, port: u16) -> (natted: bool)
    ensures
        natted == (source_hash@ != address_hash_of(spi_i, spi_r, ip.octets(), port)),
{
    !bytes::same(source_hash, &address_hash(spi_i, spi_r, ip, port))
}

/// An IKE message as it travels on UDP port 4500: four zero octets in front tell
/// it from an ESP packet (RFC 3948 §2.2).
pub fn wrap_ike_4500(message: &[u8]) -> (out: Vec<u8>)
    ensures
        out@ == bytes::zeros(4) + message@,
{
    let mut out: Vec<u8> = Vec::new();
    bytes::push_zeros(&mut out, 4);
    bytes::push_all(&mut out, message);
    assert(out@ =~= bytes::zeros(4) + message@);
    out
}

/// The IKE message in a datagram of UDP port 4500, behind the non-ESP marker;
/// `None` for an ESP packet, a keepalive or anything shorter.
pub open spec fn unwrapped(datagram: Seq<u8>) -> Option<Seq<u8>> {
    if datagram.len() >= 4 && datagram.take(4) == bytes::zeros(4) {
        Some(datagram.skip(4))
    } else {
        None
    }
}

/// The IKE message in a datagram of UDP port 4500, behind the non-ESP marker;
/// `None` for an ESP packet, a keepalive or anything shorter.
pub fn unwrap_ike_4500(datagram: &[u8]) -> (message: Option<&[u8]>)
    ensures
        match message {
            Some(message) => unwrapped(datagram@) == Some(message@),
            None => unwrapped(datagram@) is None,
        },
{
    if datagram.len() < 4 {
        return None;
    }
    if datagram[0] != 0 || datagram[1] != 0 || datagram[2] != 0 || datagram[3] != 0 {
        assert(forall|i: int| 0 <= i < 4 ==> datagram@.take(4)[i] == datagram@[i]);
        assert(forall|i: int| 0 <= i < 4 ==> bytes::zeros(4)[i] == 0);
        return None;
    }
    assert(datagram@.take(4) =~= bytes::zeros(4));
    let message: &[u8] = bytes::tail(datagram, 4);
    assert(message@ =~= datagram@.skip(4));
    Some(message)
}

/// What was wrapped for UDP port 4500 is found behind the marker again.
pub proof fn law_wrap_round_trip(message: Seq<u8>)
    ensures
        unwrapped(bytes::zeros(4) + message) == Some(message),
{
    let datagram = bytes::zeros(4) + message;
    assert(datagram.take(4) =~= bytes::zeros(4));
    assert(datagram.skip(4) =~= message);
}

} // verus!
