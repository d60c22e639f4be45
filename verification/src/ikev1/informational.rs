//! The Informational exchange (RFC 2408 §4.8): Deletes, and the Notifies of dead
//! peer detection (RFC 3706).

use vstd::prelude::*;

use crate::bytes;
use crate::error::{viewed, Failure, IkeError};
use crate::ikev1::isakmp;
use crate::ikev1::isakmp::{exchange, payload, Head, IsakmpHeader, VERSION_1_0};
use crate::ikev1::notify_type;
use crate::ikev1::phase1::{phase2_iv, IsakmpSa, Phase1State};
use crate::ikev1::phase2::build_encrypted;
use crate::ikev1::protocol;

verus! {

broadcast use crate::bytes::group_lengths;

/// The DOI of IPsec (RFC 2407 §4.2).
pub const IPSEC_DOI: u32 = 1;

/// The header of an Informational under this Message ID.
pub open spec fn informational_head(sa: IsakmpSa, message_id: u32) -> Head {
    Head {
        init_cookie: sa.cky_i,
        resp_cookie: sa.cky_r,
        next_payload: payload::NONE,
        version: VERSION_1_0,
        exchange_type: exchange::INFORMATIONAL,
        flags: 0,
        message_id,
        length: 0,
    }
}

/// The cookies that name an ISAKMP SA in a payload.
pub open spec fn cookies_of(sa: IsakmpSa) -> Seq<u8> {
    sa.cky_i + sa.cky_r
}

/// The body of a Notify of dead peer detection: it names the ISAKMP SA by its
/// cookies, and carries a sequence number.
pub open spec fn dpd_octets(sa: IsakmpSa, message_type: u16, seq: u32) -> Seq<u8> {
    bytes::be32(IPSEC_DOI) + seq![protocol::ISAKMP, 16u8] + bytes::be16(message_type) + cookies_of(sa) + bytes::be32(
        seq,
    )
}

/// The body of a Delete of one SA of this protocol.
pub open spec fn delete_octets(protocol: u8, spi: Seq<u8>) -> Seq<u8> {
    bytes::be32(IPSEC_DOI) + seq![protocol, (spi.len() % 0x100) as u8] + bytes::be16(1) + spi
}

/// The type of a Notify and its data behind the SPI, if it can be read.
pub open spec fn notify_read(body: Seq<u8>) -> Option<(u16, Seq<u8>)> {
    if body.len() < 8 || 8 + body[5] > body.len() {
        None
    } else {
        Some((bytes::at16(body, 6), bytes::from(body, 8 + body[5])))
    }
}

/// The protocol of a Delete and the first SPI it names, if it can be read.
pub open spec fn delete_read(body: Seq<u8>) -> Option<(u8, Seq<u8>)> {
    if body.len() < 8 || 8 + body[5] > body.len() {
        None
    } else {
        Some((body[4], body.subrange(8, 8 + body[5])))
    }
}

/// The type of a Notify and its data behind the SPI, if it can be read.
pub fn parse_notify(body: &[u8]) -> (notify: Option<(u16, &[u8])>)
    ensures
        match notify {
            Some((message_type, data)) => notify_read(body@) == Some((message_type, data@)),
            None => notify_read(body@) is None,
        },
{
    if body.len() < 8 {
        return None;
    }
    let start: usize = 8 + body[5] as usize;
    if start > body.len() {
        return None;
    }
    Some((bytes::get16(body, 6), bytes::tail(body, start)))
}

/// The protocol of a Delete and the first SPI it names, if it can be read.
pub fn parse_delete(body: &[u8]) -> (delete: Option<(u8, &[u8])>)
    ensures
        match delete {
            Some((protocol, spi)) => delete_read(body@) == Some((protocol, spi@)),
            None => delete_read(body@) is None,
        },
{
    if body.len() < 8 {
        return None;
    }
    let end: usize = 8 + body[5] as usize;
    if end > body.len() {
        return None;
    }
    Some((body[4], bytes::range(body, 8, end)))
}

/// An Informational with one payload.
pub open spec fn informed(sa: IsakmpSa, message_id: u32, payload_type: u8, body: Seq<u8>) -> Result<
    Seq<u8>,
    Failure,
> {
    if sa.valid() {
        Ok(sa.sealed(informational_head(sa, message_id), seq![(payload_type, body)], sa.iv_for(message_id)))
    } else {
        Err(Failure::Crypto("the ISAKMP SA's key has the wrong length for its cipher"@))
    }
}

/// An Informational with one payload.
fn inform(st: &Phase1State, message_id: u32, payload_type: u8, body: Vec<u8>) -> (out: Result<Vec<u8>, IkeError>)
    ensures
        viewed(out) == informed(st@, message_id, payload_type, body@),
{
    let header = IsakmpHeader {
        init_cookie: st.cky_i,
        resp_cookie: st.cky_r,
        next_payload: payload::NONE,
        version: VERSION_1_0,
        exchange_type: exchange::INFORMATIONAL,
        flags: 0,
        message_id,
        length: 0,
    };
    let ghost content = body@;
    let mut payloads: Vec<(u8, Vec<u8>)> = Vec::new();
    payloads.push((payload_type, body));
    assert(isakmp::bodies(payloads@) =~= seq![(payload_type, content)]);
    let iv = phase2_iv(st, message_id);
    match build_encrypted(st, header, &iv, &payloads) {
        Ok((message, _)) => Ok(message),
        Err(error) => Err(error),
    }
}

/// A Notify of dead peer detection, under this Message ID.
fn build_dpd(st: &Phase1State, message_id: u32, message_type: u16, seq: u32) -> (out: Result<Vec<u8>, IkeError>)
    ensures
        viewed(out) == informed(st@, message_id, payload::NOTIFY, dpd_octets(st@, message_type, seq)),
{
    let mut body: Vec<u8> = Vec::new();
    bytes::push32(&mut body, IPSEC_DOI);
    body.push(protocol::ISAKMP);
    body.push(16);
    bytes::push16(&mut body, message_type);
    bytes::push_all(&mut body, &st.cky_i);
    bytes::push_all(&mut body, &st.cky_r);
    bytes::push32(&mut body, seq);
    assert(body@ =~= dpd_octets(st@, message_type, seq));
    inform(st, message_id, payload::NOTIFY, body)
}

/// An R-U-THERE (RFC 3706 §5.3), under this Message ID.
pub fn build_r_u_there(st: &Phase1State, message_id: u32, seq: u32) -> (out: Result<Vec<u8>, IkeError>)
    ensures
        viewed(out) == informed(st@, message_id, payload::NOTIFY, dpd_octets(st@, notify_type::R_U_THERE, seq)),
{
    build_dpd(st, message_id, notify_type::R_U_THERE, seq)
}

/// The R-U-THERE-ACK that answers an R-U-THERE with this sequence number
/// (RFC 3706 §5.4), under this Message ID.
pub fn build_r_u_there_ack(st: &Phase1State, message_id: u32, seq: u32) -> (out: Result<Vec<u8>, IkeError>)
    ensures
        viewed(out) == informed(
            st@,
            message_id,
            payload::NOTIFY,
            dpd_octets(st@, notify_type::R_U_THERE_ACK, seq),
        ),
{
    build_dpd(st, message_id, notify_type::R_U_THERE_ACK, seq)
}

/// A Delete of one SA, under this Message ID.
fn build_delete(st: &Phase1State, message_id: u32, protocol: u8, spi: &[u8]) -> (out: Result<Vec<u8>, IkeError>)
    requires
        spi@.len() < 0x100,
    ensures
        viewed(out) == informed(st@, message_id, payload::DELETE, delete_octets(protocol, spi@)),
{
    let mut body: Vec<u8> = Vec::new();
    bytes::push32(&mut body, IPSEC_DOI);
    body.push(protocol);
    body.push(spi.len() as u8);
    bytes::push16(&mut body, 1);
    bytes::push_all(&mut body, spi);
    assert(body@ =~= delete_octets(protocol, spi@));
    inform(st, message_id, payload::DELETE, body)
}

/// The Delete of the ESP SA with this SPI (RFC 2408 §3.15), under this Message ID.
pub fn build_esp_delete(st: &Phase1State, message_id: u32, spi: u32) -> (out: Result<Vec<u8>, IkeError>)
    ensures
        viewed(out) == informed(
            st@,
            message_id,
            payload::DELETE,
            delete_octets(protocol::ESP, bytes::be32(spi)),
        ),
{
    let mut octets: Vec<u8> = Vec::new();
    bytes::push32(&mut octets, spi);
    assert(octets@ =~= bytes::be32(spi));
    build_delete(st, message_id, protocol::ESP, &octets)
}

/// The Delete of the ISAKMP SA itself, named by its cookies (RFC 2408 §3.15), under
/// this Message ID.
pub fn build_isakmp_delete(st: &Phase1State, message_id: u32) -> (out: Result<Vec<u8>, IkeError>)
    ensures
        viewed(out) == informed(
            st@,
            message_id,
            payload::DELETE,
            delete_octets(protocol::ISAKMP, cookies_of(st@)),
        ),
{
    let mut cookies: Vec<u8> = Vec::new();
    bytes::push_all(&mut cookies, &st.cky_i);
    bytes::push_all(&mut cookies, &st.cky_r);
    assert(cookies@ =~= cookies_of(st@));
    build_delete(st, message_id, protocol::ISAKMP, &cookies)
}

/// A Notify of dead peer detection reads back as what was put into it.
pub proof fn law_dpd_reads_back(sa: IsakmpSa, message_type: u16, seq: u32)
    requires
        sa.cky_i.len() == 8,
        sa.cky_r.len() == 8,
    ensures
        notify_read(dpd_octets(sa, message_type, seq)) == Some((message_type, bytes::be32(seq))),
        dpd_octets(sa, message_type, seq).subrange(8, 24) == cookies_of(sa),
{
    let body = dpd_octets(sa, message_type, seq);
    assert(body.subrange(6, 8) =~= bytes::be16(message_type));
    bytes::lemma_at16_be16(body, 6, message_type);
    assert(bytes::from(body, 24) =~= bytes::be32(seq));
    assert(body.subrange(8, 24) =~= cookies_of(sa));
}

/// A Delete reads back as what was put into it.
pub proof fn law_delete_reads_back(protocol: u8, spi: Seq<u8>)
    requires
        spi.len() < 0x100,
    ensures
        delete_read(delete_octets(protocol, spi)) == Some((protocol, spi)),
{
    let body = delete_octets(protocol, spi);
    assert(body.subrange(8, (8 + spi.len()) as int) =~= spi);
}

} // verus!
