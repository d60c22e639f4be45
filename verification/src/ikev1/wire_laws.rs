//! Where each field of an IKEv1 message stands, under which number each kind of thing
//! goes, and what its hash and cipher are run over.

use vstd::prelude::*;

use crate::bytes;
use crate::crypto::block;
use crate::crypto::hash;
use crate::error::Failure;
use crate::ikev1::informational;
use crate::ikev1::isakmp;
use crate::ikev1::isakmp::{exchange, flags, payload, Head};
use crate::ikev1::modecfg;
use crate::ikev1::modecfg::{cfg, cfg_attr, xauth_status, xauth_type, Config, Datum, Worth};
use crate::ikev1::notify_type;
use crate::ikev1::phase1::IsakmpSa;
use crate::ikev1::phase2;
use crate::ikev1::protocol;
use crate::ikev1::xauth;

verus! {

broadcast use crate::bytes::group_lengths;

/// The numbers of IKEv1's exchanges, payloads, protocols, notifies and attributes.
pub proof fn law_numbers()
    ensures
        exchange::MAIN == 2 && exchange::AGGRESSIVE == 4 && exchange::INFORMATIONAL == 5 && exchange::TRANSACTION == 6
            && exchange::QUICK == 32,
        payload::NONE == 0 && payload::HASH == 8 && payload::NOTIFY == 11 && payload::DELETE == 12 && payload::ATTRIBUTE
            == 14,
        flags::ENCRYPTION == 1 && isakmp::VERSION_1_0 == 16,
        protocol::ISAKMP == 1 && protocol::ESP == 3 && informational::IPSEC_DOI == 1,
        notify_type::R_U_THERE == 36136 && notify_type::R_U_THERE_ACK == 36137,
        cfg::REQUEST == 1 && cfg::REPLY == 2 && cfg::SET == 3 && cfg::ACK == 4,
        cfg_attr::XAUTH_TYPE == 16520 && cfg_attr::XAUTH_USER_NAME == 16521 && cfg_attr::XAUTH_USER_PASSWORD == 16522
            && cfg_attr::XAUTH_STATUS == 16527,
        xauth_type::GENERIC == 0 && xauth_status::FAIL == 0 && xauth_status::OK == 1,
{
}

/// The header: both cookies, the next payload, the version, the exchange type, the flags,
/// the Message ID and the length.
pub proof fn law_header_layout(header: Head)
    requires
        header.init_cookie.len() == 8,
        header.resp_cookie.len() == 8,
    ensures
        ({
            let out = header.octets();
            &&& out.len() == 28
            &&& out.subrange(0, 8) == header.init_cookie
            &&& out.subrange(8, 16) == header.resp_cookie
            &&& out[16] == header.next_payload && out[17] == header.version && out[18] == header.exchange_type && out[19]
                == header.flags
            &&& out.subrange(20, 24) == bytes::be32(header.message_id)
            &&& out.subrange(24, 28) == bytes::be32(header.length)
        }),
{
    let out = header.octets();
    assert(out.subrange(0, 8) =~= header.init_cookie);
    assert(out.subrange(8, 16) =~= header.resp_cookie);
    assert(out.subrange(20, 24) =~= bytes::be32(header.message_id));
    assert(out.subrange(24, 28) =~= bytes::be32(header.length));
}

/// A header is read from the same places; the lowest flag says that what follows is
/// enciphered.
pub proof fn law_header_is_read_by_offset(message: Seq<u8>)
    ensures
        Head::read(message) is Ok <==> message.len() >= 28,
        Head::read(message) matches Ok(header) ==> {
            &&& header.init_cookie == message.subrange(0, 8) && header.resp_cookie == message.subrange(8, 16)
            &&& header.next_payload == message[16] && header.version == message[17] && header.exchange_type == message[18]
                && header.flags == message[19]
            &&& header.message_id == bytes::at32(message, 20) && header.length == bytes::at32(message, 24)
            &&& header.encrypted() <==> message[19] % 2 == 1
        },
{
}

/// A payload goes behind the type of the one after it (0 for the last), a clear octet and
/// its length with those four octets.
pub proof fn law_payloads_follow_each_other(payloads: Seq<(u8, Seq<u8>)>)
    requires
        payloads.len() > 0,
        4 + payloads[0].1.len() < 0x1_0000,
    ensures
        ({
            let out = isakmp::chained(payloads);
            let length = (4 + payloads[0].1.len()) as int;
            &&& out.len() >= length
            &&& out[0] == (if payloads.len() == 1 { 0u8 } else { payloads[1].0 })
            &&& out[1] == 0
            &&& out[2] * 256 + out[3] == length
            &&& out.subrange(4, length) == payloads[0].1
            &&& out.subrange(length, out.len() as int) == isakmp::chained(
                payloads.subrange(1, payloads.len() as int),
            )
            &&& isakmp::chained(Seq::<(u8, Seq<u8>)>::empty()).len() == 0
        }),
{
    let out = isakmp::chained(payloads);
    let length = (4 + payloads[0].1.len()) as int;
    let rest = payloads.drop_first();
    assert(rest =~= payloads.subrange(1, payloads.len() as int));
    assert(out.subrange(4, length) =~= payloads[0].1);
    assert(out.subrange(length, out.len() as int) =~= isakmp::chained(rest));
    if payloads.len() > 1 {
        assert(rest[0] == payloads[1]);
    }
}

/// Payloads are read in the same way, up to the one whose next type is 0.
pub proof fn law_payloads_are_read_by_offset(first: u8, body: Seq<u8>)
    ensures
        first == 0 ==> isakmp::unchained(first, body) == Ok::<Seq<(u8, Seq<u8>)>, Failure>(Seq::empty()),
        first != 0 && isakmp::unchained(first, body) is Ok ==> {
            let length = body[2] * 256 + body[3];
            &&& 4 <= length <= body.len()
            &&& isakmp::unchained(body[0], body.subrange(length, body.len() as int)) is Ok
            &&& isakmp::unchained(first, body)->Ok_0 == seq![(first, body.subrange(4, length))] + isakmp::unchained(
                body[0],
                body.subrange(length, body.len() as int),
            )->Ok_0
        },
        first != 0 && body.len() >= 4 && 4 <= body[2] * 256 + body[3] <= body.len() && isakmp::unchained(
            body[0],
            body.subrange(body[2] * 256 + body[3], body.len() as int),
        ) is Ok ==> isakmp::unchained(first, body) is Ok,
{
}

/// An attribute of two octets goes behind its type with the highest bit set, a longer one
/// behind its type with that bit clear and its length.
pub proof fn law_attribute_layout(attr_type: u16, short: u16, long: Seq<u8>)
    requires
        attr_type < 0x8000,
        long.len() < 0x1_0000,
    ensures
        ({
            let out = Datum { attr_type, value: Worth::Short(short) }.octets();
            &&& out.len() == 4
            &&& out[0] * 256 + out[1] == 0x8000 + attr_type && out[2] * 256 + out[3] == short
        }),
        ({
            let out = Datum { attr_type, value: Worth::Long(long) }.octets();
            &&& out.len() == 4 + long.len()
            &&& out[0] * 256 + out[1] == attr_type && out[2] * 256 + out[3] == long.len()
            &&& out.subrange(4, out.len() as int) == long
        }),
{
    let out = Datum { attr_type, value: Worth::Long(long) }.octets();
    assert(out.subrange(4, out.len() as int) =~= long);
}

/// An attribute is read in the same way.
pub proof fn law_attribute_is_read_by_offset(s: Seq<u8>)
    requires
        s.len() >= 4,
    ensures
        s[0] >= 128 ==> Datum::read(s) == Ok::<Datum, Failure>(
            Datum {
                attr_type: (s[0] * 256 + s[1] - 0x8000) as u16,
                value: Worth::Short((s[2] * 256 + s[3]) as u16),
            },
        ) && Datum::extent(s) == 4,
        s[0] < 128 && 4 + s[2] * 256 + s[3] <= s.len() ==> Datum::read(s) == Ok::<Datum, Failure>(
            Datum {
                attr_type: (s[0] * 256 + s[1]) as u16,
                value: Worth::Long(s.subrange(4, 4 + s[2] * 256 + s[3])),
            },
        ) && Datum::extent(s) == 4 + s[2] * 256 + s[3],
        s[0] < 128 && 4 + s[2] * 256 + s[3] > s.len() ==> Datum::read(s) is Err,
{
}

/// A configuration: its type, a clear octet, its identifier, its attributes in order.
pub proof fn law_configuration_layout(config: Config, body: Seq<u8>)
    ensures
        config.octets() == seq![config.cfg_type, 0u8] + bytes::be16(config.identifier) + modecfg::data_octets(
            config.attributes,
        ),
        config.attributes.len() > 0 ==> modecfg::data_octets(config.attributes) == config.attributes[0].octets()
            + modecfg::data_octets(config.attributes.subrange(1, config.attributes.len() as int)),
        modecfg::data_octets(Seq::empty()).len() == 0,
        Config::read(body) matches Ok(read) ==> {
            &&& body.len() >= 4 && read.cfg_type == body[0] && read.identifier == body[2] * 256 + body[3]
            &&& modecfg::read_data(body.subrange(4, body.len() as int)) == Ok::<Seq<Datum>, Failure>(read.attributes)
        },
{
    if config.attributes.len() > 0 {
        assert(config.attributes.drop_first() =~= config.attributes.subrange(1, config.attributes.len() as int));
    }
}

/// The reply to a request for credentials: type 2, the request's identifier, and the
/// kind of XAUTH (generic, 0), the user name and the password.
pub proof fn law_credentials(identifier: u16, user: Seq<u8>, password: Seq<u8>)
    ensures
        ({
            let config = xauth::credentials(identifier, user, password);
            &&& config.cfg_type == 2 && config.identifier == identifier
            &&& config.attributes.len() == 3
            &&& config.attributes[0] == (Datum { attr_type: 16520, value: Worth::Short(0) })
            &&& config.attributes[1] == (Datum { attr_type: 16521, value: Worth::Long(user) })
            &&& config.attributes[2] == (Datum { attr_type: 16522, value: Worth::Long(password) })
        }),
        ({
            let ack = xauth::acknowledgement(identifier);
            &&& ack.cfg_type == 4 && ack.identifier == identifier && ack.attributes.len() == 0
        }),
{
}

/// A status says that the credentials were taken exactly where its first attribute 16527
/// is the short value 1.
pub proof fn law_status(config: Config)
    ensures
        xauth::reports_success(config) <==> exists|i: int|
            0 <= i < config.attributes.len() && #[trigger] config.attributes[i] == (Datum {
                attr_type: 16527,
                value: Worth::Short(1),
            }) && forall|j: int| 0 <= j < i ==> (#[trigger] config.attributes[j]).attr_type != 16527,
{
    lemma_first_of(config.attributes, 16527, 0);
}

proof fn lemma_first_of(attributes: Seq<Datum>, attr_type: u16, from: int)
    requires
        0 <= from <= attributes.len(),
    ensures
        match modecfg::first_of(attributes, attr_type, from) {
            Some(found) => exists|i: int|
                from <= i < attributes.len() && #[trigger] attributes[i] == found && found.attr_type == attr_type && forall|
                    j: int,
                | from <= j < i ==> (#[trigger] attributes[j]).attr_type != attr_type,
            None => forall|j: int| from <= j < attributes.len() ==> (#[trigger] attributes[j]).attr_type != attr_type,
        },
    decreases attributes.len() - from,
{
    if from < attributes.len() {
        lemma_first_of(attributes, attr_type, from + 1);
        if attributes[from].attr_type == attr_type {
            assert(attributes[from] == attributes[from]);
        }
    }
}

/// The initialization vector of a message after Phase 1 is the hash of the last block of
/// Phase 1 and the Message ID, cut to a block (RFC 2409, appendix B).
pub proof fn law_first_vector(sa: IsakmpSa, message_id: u32)
    ensures
        sa.iv_for(message_id) == sa.prf.base().digested(sa.phase1_iv + bytes::be32(message_id)).subrange(
            0,
            sa.cipher.block_size() as int,
        ),
{
}

/// The hash of a message is HMAC under SKEYID_a over its Message ID and its other
/// payloads, and goes before them.
pub proof fn law_message_hash(sa: IsakmpSa, message_id: u32, parts: Seq<(u8, Seq<u8>)>)
    ensures
        sa.hash_over(message_id, parts) == hash::hmac_of(
            sa.prf.base(),
            sa.skeyid_a,
            bytes::be32(message_id) + isakmp::chained(parts),
        ),
        sa.hashed(message_id, parts) == seq![(8u8, sa.hash_over(message_id, parts))] + parts,
{
}

/// A sealed message: the header, with the next payload 8, the flag that it is enciphered
/// and its length; behind it, in CBC under the SA's key and this vector, the hash and the
/// payloads, filled up with zeros to whole blocks.
pub proof fn law_sealed_layout(sa: IsakmpSa, header: Head, parts: Seq<(u8, Seq<u8>)>, iv: Seq<u8>)
    requires
        header.init_cookie.len() == 8,
        header.resp_cookie.len() == 8,
        sa.sealed(header, parts, iv).len() < 0x1_0000_0000,
    ensures
        ({
            let wire = sa.sealed(header, parts, iv);
            let n = sa.cipher.block_size() as int;
            let chain = isakmp::chained(seq![(8u8, sa.hash_over(header.message_id, parts))] + parts);
            let pad = wire.len() - 28 - chain.len();
            &&& wire.subrange(0, 8) == header.init_cookie && wire.subrange(8, 16) == header.resp_cookie
            &&& wire[16] == 8 && wire[17] == header.version && wire[18] == header.exchange_type && wire[19] == 1
            &&& wire.subrange(20, 24) == bytes::be32(header.message_id)
            &&& wire.subrange(24, 28) == bytes::be32(wire.len() as u32)
            &&& 0 <= pad < n && (wire.len() - 28) % n == 0
            &&& wire.subrange(28, wire.len() as int) == block::cbc_enciphered(
                sa.cipher,
                sa.enc_key,
                iv,
                chain + Seq::new(pad as nat, |i: int| 0u8),
            )
        }),
{
    let wire = sa.sealed(header, parts, iv);
    let n = sa.cipher.block_size();
    let chain = isakmp::chained(sa.hashed(header.message_id, parts));
    let pad = phase2::pad_size(chain.len(), n);
    let plaintext = chain + Seq::new(pad, |i: int| 0u8);
    assert(sa.plaintext(header.message_id, parts) =~= plaintext);
    assert(pad < n && (chain.len() + pad) % n == 0) by {
        if n == 8 {
            if chain.len() % 8 != 0 {
                assert((chain.len() + (8 - chain.len() % 8)) % 8 == 0);
            }
        } else {
            if chain.len() % 16 != 0 {
                assert((chain.len() + (16 - chain.len() % 16)) % 16 == 0);
            }
        }
    }
    block::lemma_cbc_len(sa.cipher, sa.enc_key, iv, plaintext);
    let ciphertext = sa.ciphertext(header.message_id, parts, iv);
    assert(ciphertext.len() == plaintext.len());
    assert(wire.subrange(0, 8) =~= header.init_cookie);
    assert(wire.subrange(8, 16) =~= header.resp_cookie);
    assert(wire.subrange(20, 24) =~= bytes::be32(header.message_id));
    assert(wire.subrange(24, 28) =~= bytes::be32(wire.len() as u32));
    assert(wire.subrange(28, wire.len() as int) =~= ciphertext);
}

/// A message that opens carries, before its other payloads, HMAC under SKEYID_a over its
/// Message ID and those; what it hands on as the next vector is its last block.
pub proof fn law_opened_message_was_hashed(sa: IsakmpSa, message: Seq<u8>, iv: Seq<u8>)
    requires
        sa.opened(message, iv) is Ok,
    ensures
        ({
            let (header, list, next) = sa.opened(message, iv)->Ok_0;
            let ciphertext = message.subrange(28, message.len() as int);
            let plaintext = phase2::deciphered(sa, iv, ciphertext);
            let all = isakmp::unchained(message[16], plaintext)->Ok_0;
            &&& Head::read(message) == Ok::<Head, Failure>(header)
            &&& ciphertext.len() > 0 && ciphertext.len() % sa.cipher.block_size() == 0
            &&& isakmp::unchained(message[16], plaintext) is Ok
            &&& all == seq![
                (
                    8u8,
                    hash::hmac_of(
                        sa.prf.base(),
                        sa.skeyid_a,
                        bytes::be32(header.message_id) + isakmp::chained(list),
                    ),
                ),
            ] + list
            &&& next == message.subrange(message.len() - sa.cipher.block_size(), message.len() as int)
        }),
{
    let (header, list, next) = sa.opened(message, iv)->Ok_0;
    let ciphertext = bytes::from(message, 28);
    let all = isakmp::unchained(header.next_payload, phase2::deciphered(sa, iv, ciphertext))->Ok_0;
    assert(all =~= seq![all[0]] + list);
    assert(all[0].0 == 8);
    assert(ciphertext.len() >= sa.cipher.block_size()) by {
        if ciphertext.len() < sa.cipher.block_size() {
            if sa.cipher.block_size() == 8 {
                assert(ciphertext.len() % 8 == ciphertext.len());
            } else {
                assert(ciphertext.len() % 16 == ciphertext.len());
            }
        }
    }
    assert(next =~= message.subrange(message.len() - sa.cipher.block_size(), message.len() as int));
}

/// The headers of what an SA's end sends of its own: its cookies, version 1, the exchange
/// type 6 for a configuration and 5 for an informational message.
pub proof fn law_own_headers(sa: IsakmpSa, message_id: u32)
    ensures
        xauth::transaction_head(sa, message_id) == (Head {
            init_cookie: sa.cky_i,
            resp_cookie: sa.cky_r,
            next_payload: 0,
            version: 16,
            exchange_type: 6,
            flags: 0,
            message_id,
            length: 0,
        }),
        informational::informational_head(sa, message_id) == (Head {
            init_cookie: sa.cky_i,
            resp_cookie: sa.cky_r,
            next_payload: 0,
            version: 16,
            exchange_type: 5,
            flags: 0,
            message_id,
            length: 0,
        }),
{
}

/// A sign of life: the IPsec DOI, protocol 1, an SPI of 16 octets, the type, both
/// cookies, and the sequence number.
pub proof fn law_dpd_layout(sa: IsakmpSa, message_type: u16, seq: u32)
    requires
        sa.cky_i.len() == 8,
        sa.cky_r.len() == 8,
    ensures
        ({
            let out = informational::dpd_octets(sa, message_type, seq);
            &&& out.len() == 28
            &&& out.subrange(0, 4) == seq![0u8, 0u8, 0u8, 1u8]
            &&& out[4] == 1 && out[5] == 16
            &&& out[6] * 256 + out[7] == message_type
            &&& out.subrange(8, 16) == sa.cky_i && out.subrange(16, 24) == sa.cky_r
            &&& out.subrange(24, 28) == bytes::be32(seq)
        }),
{
    let out = informational::dpd_octets(sa, message_type, seq);
    bytes::law_big_endian_written(0, 1, 0);
    assert(out.subrange(0, 4) =~= bytes::be32(1));
    assert(out.subrange(8, 16) =~= sa.cky_i);
    assert(out.subrange(16, 24) =~= sa.cky_r);
    assert(out.subrange(24, 28) =~= bytes::be32(seq));
}

/// A Delete of one SA: the IPsec DOI, the protocol, the size of the SPI, the count 1, the
/// SPI; the ISAKMP SA's is both its cookies.
pub proof fn law_delete_layout(sa: IsakmpSa, protocol: u8, spi: Seq<u8>)
    requires
        spi.len() < 256,
    ensures
        ({
            let out = informational::delete_octets(protocol, spi);
            &&& out.len() == 8 + spi.len()
            &&& out.subrange(0, 4) == seq![0u8, 0u8, 0u8, 1u8]
            &&& out[4] == protocol && out[5] == spi.len() && out[6] == 0 && out[7] == 1
            &&& out.subrange(8, out.len() as int) == spi
        }),
        informational::cookies_of(sa) == sa.cky_i + sa.cky_r,
{
    let out = informational::delete_octets(protocol, spi);
    bytes::law_big_endian_written(0, 1, 0);
    assert(out.subrange(0, 4) =~= bytes::be32(1));
    assert(out.subrange(8, out.len() as int) =~= spi);
}

/// Notifies and Deletes are read from the same places.
pub proof fn law_notices_are_read_by_offset(body: Seq<u8>)
    ensures
        informational::notify_read(body) is Some <==> body.len() >= 8 && 8 + body[5] <= body.len(),
        informational::notify_read(body) matches Some((message_type, data)) ==> message_type == body[6] * 256 + body[7]
            && data == body.subrange(8 + body[5], body.len() as int),
        informational::delete_read(body) is Some <==> body.len() >= 8 && 8 + body[5] <= body.len(),
        informational::delete_read(body) matches Some((proto, spi)) ==> proto == body[4] && spi == body.subrange(
            8,
            8 + body[5],
        ),
{
}

} // verus!
