//! Where each field of a message and of a payload stands, and under which number each
//! kind of thing goes: the layout of RFC 7296 §3, octet by octet.

use vstd::prelude::*;

use crate::addr::{Endpoint, IpAddress};
use crate::bytes;
use crate::crypto::hash;
use crate::crypto::DhGroup;
use crate::error::Failure;
use crate::ikev2::child;
use crate::ikev2::child::ChildTsOffer;
use crate::ikev2::exchange;
use crate::ikev2::exchange::{Heard, Secret};
use crate::ikev2::informational;
use crate::ikev2::message;
use crate::ikev2::message::{ExchangeType, Flags, Framed, IkeHeader, PayloadType};
use crate::ikev2::mobike;
use crate::ikev2::natt;
use crate::ikev2::payload::basic;
use crate::ikev2::payload::basic::{Deleted, Exchanged, Notice};
use crate::ikev2::payload::cert;
use crate::ikev2::payload::cert::Presented;
use crate::ikev2::payload::config;
use crate::ikev2::payload::config::{Setting, Settings};
use crate::ikev2::payload::identity::{Identity, Proof};
use crate::ikev2::payload::notify_type;
use crate::ikev2::payload::sa;
use crate::ikev2::payload::sa::{Offered, Transform};
use crate::ikev2::payload::ts;
use crate::ikev2::payload::ts::Selector;

verus! {

broadcast use crate::bytes::group_lengths;

/// The exchange types are numbered 34 to 37, the payload types 33 to 48 and 53; an
/// octet that names none of them is kept as it is.
pub proof fn law_type_numbers(value: u8)
    ensures
        ExchangeType::IkeSaInit.octet() == 34 && ExchangeType::named(34) == ExchangeType::IkeSaInit,
        ExchangeType::IkeAuth.octet() == 35 && ExchangeType::named(35) == ExchangeType::IkeAuth,
        ExchangeType::CreateChildSa.octet() == 36 && ExchangeType::named(36) == ExchangeType::CreateChildSa,
        ExchangeType::Informational.octet() == 37 && ExchangeType::named(37) == ExchangeType::Informational,
        PayloadType::NoNext.octet() == 0 && PayloadType::named(0) == PayloadType::NoNext,
        PayloadType::SecurityAssociation.octet() == 33 && PayloadType::named(33) == PayloadType::SecurityAssociation,
        PayloadType::KeyExchange.octet() == 34 && PayloadType::named(34) == PayloadType::KeyExchange,
        PayloadType::IdInitiator.octet() == 35 && PayloadType::named(35) == PayloadType::IdInitiator,
        PayloadType::IdResponder.octet() == 36 && PayloadType::named(36) == PayloadType::IdResponder,
        PayloadType::Certificate.octet() == 37 && PayloadType::named(37) == PayloadType::Certificate,
        PayloadType::CertRequest.octet() == 38 && PayloadType::named(38) == PayloadType::CertRequest,
        PayloadType::Authentication.octet() == 39 && PayloadType::named(39) == PayloadType::Authentication,
        PayloadType::Nonce.octet() == 40 && PayloadType::named(40) == PayloadType::Nonce,
        PayloadType::Notify.octet() == 41 && PayloadType::named(41) == PayloadType::Notify,
        PayloadType::Delete.octet() == 42 && PayloadType::named(42) == PayloadType::Delete,
        PayloadType::VendorId.octet() == 43 && PayloadType::named(43) == PayloadType::VendorId,
        PayloadType::TrafficSelectorInitiator.octet() == 44 && PayloadType::named(44)
            == PayloadType::TrafficSelectorInitiator,
        PayloadType::TrafficSelectorResponder.octet() == 45 && PayloadType::named(45)
            == PayloadType::TrafficSelectorResponder,
        PayloadType::Encrypted.octet() == 46 && PayloadType::named(46) == PayloadType::Encrypted,
        PayloadType::Configuration.octet() == 47 && PayloadType::named(47) == PayloadType::Configuration,
        PayloadType::Eap.octet() == 48 && PayloadType::named(48) == PayloadType::Eap,
        PayloadType::EncryptedFragment.octet() == 53 && PayloadType::named(53) == PayloadType::EncryptedFragment,
        PayloadType::Other(value).octet() == value && ExchangeType::Other(value).octet() == value,
        ExchangeType::named(value).octet() == value && PayloadType::named(value).octet() == value,
{
}

/// The flags octet: 8 for the Initiator flag, 16 for the Version flag, 32 for the
/// Response flag; the other bits are clear when written and ignored when read.
pub proof fn law_flag_bits(flags: Flags, value: u8)
    ensures
        flags.octet() == (if flags.initiator { 8int } else { 0 }) + (if flags.version { 16int } else { 0 }) + (
        if flags.response { 32int } else { 0 }),
        Flags::named(value).initiator == ((value / 8) % 2 == 1),
        Flags::named(value).version == ((value / 16) % 2 == 1),
        Flags::named(value).response == ((value / 32) % 2 == 1),
{
}

/// The header: both SPIs in eight octets each, the next payload, the version in two
/// halves, the exchange type, the flags, the Message ID and the length.
pub proof fn law_header_layout(header: IkeHeader)
    requires
        header.major_version < 16,
        header.minor_version < 16,
    ensures
        ({
            let out = header.octets();
            &&& out.len() == 28
            &&& out.subrange(0, 8) == bytes::be64(header.initiator_spi)
            &&& out.subrange(8, 16) == bytes::be64(header.responder_spi)
            &&& out[16] == header.next_payload.octet()
            &&& out[17] == header.major_version * 16 + header.minor_version
            &&& out[18] == header.exchange_type.octet()
            &&& out[19] == header.flags.octet()
            &&& out.subrange(20, 24) == bytes::be32(header.message_id)
            &&& out.subrange(24, 28) == bytes::be32(header.length)
        }),
{
    reveal(IkeHeader::octets);
    let out = header.octets();
    assert(out.subrange(0, 8) =~= bytes::be64(header.initiator_spi));
    assert(out.subrange(8, 16) =~= bytes::be64(header.responder_spi));
    assert(out.subrange(20, 24) =~= bytes::be32(header.message_id));
    assert(out.subrange(24, 28) =~= bytes::be32(header.length));
}

/// A header is read from the same places, exactly where there are 28 octets and the
/// major version is 2.
pub proof fn law_header_is_read_by_offset(input: Seq<u8>)
    ensures
        IkeHeader::read(input) is Ok <==> input.len() >= 28 && input[17] / 16 == 2,
        input.len() < 28 ==> IkeHeader::read(input) == Err::<IkeHeader, Failure>(
            Failure::Truncated { need: 28, have: input.len() },
        ),
        IkeHeader::read(input) matches Ok(header) ==> {
            &&& header.initiator_spi == bytes::at64(input, 0) && header.responder_spi == bytes::at64(input, 8)
            &&& header.next_payload.octet() == input[16]
            &&& header.major_version == 2 && header.minor_version == input[17] % 16
            &&& header.exchange_type.octet() == input[18]
            &&& header.flags == Flags::named(input[19])
            &&& header.message_id == bytes::at32(input, 20) && header.length == bytes::at32(input, 24)
        },
{
}

/// A payload goes behind four octets: the type of the one after it, a clear octet, and
/// its length with those four. A message is its header, with the first payload's type
/// and the length of everything, and its payloads one after the other; the last one's
/// next type is 0.
pub proof fn law_payloads_follow_each_other(header: IkeHeader, payloads: Seq<(PayloadType, Seq<u8>)>)
    requires
        payloads.len() > 0,
        4 + payloads[0].1.len() < 0x1_0000,
        28 + message::encoded(payloads).len() < 0x1_0000_0000,
        header.major_version < 16,
        header.minor_version < 16,
    ensures
        ({
            let out = message::encoded(payloads);
            let length = (4 + payloads[0].1.len()) as int;
            let wire = message::message(header, payloads);
            &&& out.len() >= length
            &&& out[0] == (if payloads.len() == 1 { 0u8 } else { payloads[1].0.octet() })
            &&& out[1] == 0
            &&& out[2] * 256 + out[3] == length
            &&& out.subrange(4, length) == payloads[0].1
            &&& out.subrange(length, out.len() as int) == message::encoded(payloads.subrange(1, payloads.len() as int))
            &&& message::encoded(Seq::<(PayloadType, Seq<u8>)>::empty()).len() == 0
            &&& wire.len() == 28 + out.len()
            &&& wire.subrange(28, wire.len() as int) == out
            &&& wire[16] == payloads[0].0.octet()
            &&& wire.subrange(24, 28) == bytes::be32(wire.len() as u32)
            &&& wire.subrange(0, 16) == bytes::be64(header.initiator_spi) + bytes::be64(header.responder_spi)
            &&& wire[17] == header.major_version * 16 + header.minor_version
            &&& wire[18] == header.exchange_type.octet()
            &&& wire[19] == header.flags.octet()
            &&& wire.subrange(20, 24) == bytes::be32(header.message_id)
        }),
{
    reveal(IkeHeader::octets);
    let out = message::encoded(payloads);
    let length = (4 + payloads[0].1.len()) as int;
    let rest = payloads.drop_first();
    assert(rest =~= payloads.subrange(1, payloads.len() as int));
    let head = message::framed(message::first_type(rest), payloads[0].1);
    assert(out == head + message::encoded(rest));
    assert(head.len() == length);
    assert(out.subrange(4, length) =~= payloads[0].1);
    assert(out.subrange(length, out.len() as int) =~= message::encoded(rest));
    if payloads.len() > 1 {
        assert(rest[0] == payloads[1]);
    }
    let wire = message::message(header, payloads);
    assert(wire.subrange(28, wire.len() as int) =~= out);
    assert(wire.subrange(24, 28) =~= bytes::be32(wire.len() as u32));
    assert(wire.subrange(20, 24) =~= bytes::be32(header.message_id));
    assert(wire.subrange(0, 16) =~= bytes::be64(header.initiator_spi) + bytes::be64(header.responder_spi));
}

/// A payload is read from four octets on: its length from the third and fourth, the
/// critical bit from the highest of the second, the next type from the first; its body
/// is the rest of its length.
pub proof fn law_payload_is_read_by_offset(first: PayloadType, rest: Seq<u8>)
    ensures
        message::head(first, rest) is Ok <==> rest.len() >= 4 && 4 <= rest[2] * 256 + rest[3] <= rest.len(),
        message::head(first, rest) matches Ok(payload) ==> {
            &&& payload.payload_type == first
            &&& payload.critical == (rest[1] >= 128)
            &&& payload.data == rest.subrange(4, rest[2] * 256 + rest[3])
            &&& message::next_type(rest).octet() == rest[0]
            &&& message::after_head(rest) == rest.subrange(rest[2] * 256 + rest[3], rest.len() as int)
        },
        first == PayloadType::NoNext ==> message::chain(first, rest) == Ok::<Seq<Framed>, Failure>(Seq::empty()),
        first != PayloadType::NoNext && message::chain(first, rest) is Ok ==> {
            &&& message::head(first, rest) is Ok
            &&& message::chain(message::next_type(rest), message::after_head(rest)) is Ok
            &&& message::chain(first, rest)->Ok_0 == seq![message::head(first, rest)->Ok_0] + message::chain(
                message::next_type(rest),
                message::after_head(rest),
            )->Ok_0
        },
{
}

/// A transform: 3 before another and 0 at the end, its length, its type, its ID and,
/// where it has one, the Key Length attribute (type 14 in short form).
pub proof fn law_transform_layout(transform: Transform, more: bool)
    ensures
        ({
            let out = transform.octets(more);
            &&& out.len() == (if transform.key_length is Some { 12int } else { 8 })
            &&& out[0] == (if more { 3u8 } else { 0u8 }) && out[1] == 0
            &&& out[2] * 256 + out[3] == out.len()
            &&& out[4] == transform.transform_type && out[5] == 0
            &&& out[6] * 256 + out[7] == transform.transform_id
            &&& transform.key_length matches Some(bits) ==> out[8] == 0x80 && out[9] == 14 && out[10] * 256 + out[11]
                == bits
        }),
{
}

/// A transform is read from the same places; one with another attribute is one that
/// nothing we offer or take names.
pub proof fn law_transform_is_read_by_offset(s: Seq<u8>)
    ensures
        Transform::read(s) is Ok <==> s.len() >= 8 && 8 <= s[2] * 256 + s[3] <= s.len(),
        Transform::read(s) matches Ok(read) ==> {
            let length = s[2] * 256 + s[3];
            &&& read.transform_type == s[4]
            &&& length == 8 ==> read.transform_id == s[6] * 256 + s[7] && read.key_length is None
            &&& length == 12 && s[8] == 0x80 && s[9] == 14 ==> read.transform_id == s[6] * 256 + s[7]
                && read.key_length == Some((s[10] * 256 + s[11]) as u16)
            &&& !(length == 8 || length == 12 && s[8] == 0x80 && s[9] == 14) ==> read.transform_id == 0xFFFF
                && read.key_length is None
        },
{
}

/// A proposal: 2 before another and 0 at the end, its length, its number, its protocol,
/// the size of its SPI, how many transforms it has, its SPI and its transforms.
pub proof fn law_proposal_layout(proposal: Offered, more: bool)
    requires
        proposal.spi.len() < 256,
        proposal.transforms.len() < 256,
        proposal.octets(more).len() < 0x1_0000,
    ensures
        ({
            let out = proposal.octets(more);
            let end = (8 + proposal.spi.len()) as int;
            &&& out[0] == (if more { 2u8 } else { 0u8 }) && out[1] == 0
            &&& out[2] * 256 + out[3] == out.len()
            &&& out[4] == proposal.num && out[5] == proposal.protocol_id
            &&& out[6] == proposal.spi.len() && out[7] == proposal.transforms.len()
            &&& out.subrange(8, end) == proposal.spi
            &&& out.subrange(end, out.len() as int) == sa::transform_octets(proposal.transforms)
        }),
{
    reveal(Offered::octets);
    let out = proposal.octets(more);
    let end = (8 + proposal.spi.len()) as int;
    assert(out.subrange(8, end) =~= proposal.spi);
    assert(out.subrange(end, out.len() as int) =~= sa::transform_octets(proposal.transforms));
}

/// A proposal is read from the same places.
pub proof fn law_proposal_is_read_by_offset(s: Seq<u8>)
    ensures
        Offered::read(s) matches Ok(read) ==> {
            let end = 8 + s[6];
            &&& s.len() >= 8 && end <= s[2] * 256 + s[3] <= s.len()
            &&& read.num == s[4] && read.protocol_id == s[5]
            &&& read.spi == s.subrange(8, end)
            &&& sa::read_transforms(s.subrange(end, s[2] * 256 + s[3]), s[7] as nat) == Ok::<Seq<Transform>, Failure>(
                read.transforms,
            )
        },
{
}

/// The transforms of a proposal, and the proposals of an SA payload, follow each other
/// in order; each but the last says that another comes.
pub proof fn law_sa_lists_in_order(transforms: Seq<Transform>, proposals: Seq<Offered>)
    ensures
        transforms.len() > 0 ==> sa::transform_octets(transforms) == transforms[0].octets(transforms.len() > 1)
            + sa::transform_octets(transforms.subrange(1, transforms.len() as int)),
        proposals.len() > 0 ==> sa::proposal_octets(proposals) == proposals[0].octets(proposals.len() > 1)
            + sa::proposal_octets(proposals.subrange(1, proposals.len() as int)),
        sa::transform_octets(Seq::empty()).len() == 0,
        sa::proposal_octets(Seq::empty()).len() == 0,
{
    if transforms.len() > 0 {
        assert(transforms.drop_first() =~= transforms.subrange(1, transforms.len() as int));
    }
    if proposals.len() > 0 {
        assert(proposals.drop_first() =~= proposals.subrange(1, proposals.len() as int));
    }
}

/// A Key Exchange: its group, two clear octets, the public value.
pub proof fn law_key_exchange_layout(ke: Exchanged, body: Seq<u8>)
    ensures
        ({
            let out = ke.octets();
            &&& out.len() == 4 + ke.data.len()
            &&& out[0] * 256 + out[1] == ke.dh_group && out[2] == 0 && out[3] == 0
            &&& out.subrange(4, out.len() as int) == ke.data
        }),
        Exchanged::read(body) is Ok <==> body.len() >= 4,
        Exchanged::read(body) matches Ok(read) ==> read.dh_group == body[0] * 256 + body[1] && read.data
            == body.subrange(4, body.len() as int),
{
    assert(ke.octets().subrange(4, ke.octets().len() as int) =~= ke.data);
}

/// A nonce is its octets, 16 to 256 of them, and at least half of what the PRF puts out.
pub proof fn law_nonce_lengths(body: Seq<u8>, algo: crate::crypto::PrfAlgorithm)
    ensures
        basic::read_nonce(body) is Ok <==> 16 <= body.len() <= 256,
        basic::read_nonce(body) matches Ok(nonce) ==> nonce == body,
        basic::read_nonce_for_prf(body, algo) is Ok <==> 16 <= body.len() <= 256 && algo.size() <= 2 * body.len(),
        basic::read_nonce_for_prf(body, algo) matches Ok(nonce) ==> nonce == body,
{
}

/// A notify: its protocol, the size of its SPI, its type, its SPI, its data.
pub proof fn law_notify_layout(notify: Notice, body: Seq<u8>)
    ensures
        notify.spi.len() < 256 ==> {
            let out = notify.octets();
            let end = (4 + notify.spi.len()) as int;
            &&& out.len() == end + notify.data.len()
            &&& out[0] == notify.protocol_id && out[1] == notify.spi.len()
            &&& out[2] * 256 + out[3] == notify.notify_type
            &&& out.subrange(4, end) == notify.spi
            &&& out.subrange(end, out.len() as int) == notify.data
        },
        Notice::read(body) is Ok <==> body.len() >= 4 && body.len() >= 4 + body[1],
        Notice::read(body) matches Ok(read) ==> {
            &&& read.protocol_id == body[0] && read.notify_type == body[2] * 256 + body[3]
            &&& read.spi == body.subrange(4, 4 + body[1])
            &&& read.data == body.subrange(4 + body[1], body.len() as int)
        },
        notify.error() <==> notify.notify_type < 16384,
{
    if notify.spi.len() < 256 {
        let out = notify.octets();
        let end = (4 + notify.spi.len()) as int;
        assert(out.subrange(4, end) =~= notify.spi);
        assert(out.subrange(end, out.len() as int) =~= notify.data);
    }
}

/// A notify of our own about the whole SA has protocol 0 and no SPI.
pub proof fn law_status_notify(notify_type: u16, data: Seq<u8>)
    ensures
        Notice::status(notify_type, data).octets() == seq![0u8, 0u8] + bytes::be16(notify_type) + data,
        mobike::bare_notice(notify_type).octets() == seq![0u8, 0u8] + bytes::be16(notify_type),
{
    assert(Notice::status(notify_type, data).octets() =~= seq![0u8, 0u8] + bytes::be16(notify_type) + data);
    assert(mobike::bare_notice(notify_type).octets() =~= seq![0u8, 0u8] + bytes::be16(notify_type));
}

/// The notify types by number, and which of them say that a CHILD SA was refused.
pub proof fn law_notify_numbers(value: u16)
    ensures
        notify_type::UNSUPPORTED_CRITICAL_PAYLOAD == 1 && notify_type::INVALID_IKE_SPI == 4
            && notify_type::INVALID_MAJOR_VERSION == 5 && notify_type::INVALID_SYNTAX == 7
            && notify_type::INVALID_MESSAGE_ID == 9 && notify_type::INVALID_SPI == 11
            && notify_type::NO_PROPOSAL_CHOSEN == 14 && notify_type::INVALID_KE_PAYLOAD == 17
            && notify_type::AUTHENTICATION_FAILED == 24 && notify_type::SINGLE_PAIR_REQUIRED == 34
            && notify_type::NO_ADDITIONAL_SAS == 35 && notify_type::INTERNAL_ADDRESS_FAILURE == 36
            && notify_type::FAILED_CP_REQUIRED == 37 && notify_type::TS_UNACCEPTABLE == 38
            && notify_type::INVALID_SELECTORS == 39 && notify_type::TEMPORARY_FAILURE == 43
            && notify_type::CHILD_SA_NOT_FOUND == 44,
        notify_type::INITIAL_CONTACT == 16384 && notify_type::NAT_DETECTION_SOURCE_IP == 16388
            && notify_type::NAT_DETECTION_DESTINATION_IP == 16389 && notify_type::COOKIE == 16390
            && notify_type::REKEY_SA == 16393 && notify_type::MOBIKE_SUPPORTED == 16396
            && notify_type::UPDATE_SA_ADDRESSES == 16400 && notify_type::IKEV2_FRAGMENTATION_SUPPORTED == 16430
            && notify_type::SIGNATURE_HASH_ALGORITHMS == 16431,
        notify_type::child_sa_error(value) <==> value == 14 || value == 34 || value == 36 || value == 37 || value == 38,
{
}

/// A Delete: its protocol, the size of an SPI (0 for the IKE SA, 4 otherwise), how many
/// there are, and the SPIs in order.
pub proof fn law_delete_layout(delete: Deleted, i: int)
    requires
        delete.spis.len() < 0x1_0000,
        0 <= i < delete.spis.len(),
    ensures
        ({
            let out = delete.octets();
            &&& out.len() == 4 + 4 * delete.spis.len()
            &&& out[0] == delete.protocol_id && out[1] == (if delete.protocol_id == 1 { 0u8 } else { 4u8 })
            &&& out[2] * 256 + out[3] == delete.spis.len()
            &&& out.subrange(4 + 4 * i, 8 + 4 * i) == bytes::be32(delete.spis[i])
        }),
{
    let out = delete.octets();
    lemma_spi_at(delete.spis, i);
    assert(out.subrange(4 + 4 * i, 8 + 4 * i) =~= basic::spi_octets(delete.spis).subrange(4 * i, 4 + 4 * i));
}

proof fn lemma_spi_at(spis: Seq<u32>, i: int)
    requires
        0 <= i < spis.len(),
    ensures
        basic::spi_octets(spis).len() == 4 * spis.len(),
        basic::spi_octets(spis).subrange(4 * i, 4 + 4 * i) == bytes::be32(spis[i]),
    decreases spis.len(),
{
    let before = spis.drop_last();
    let out = basic::spi_octets(spis);
    reveal_with_fuel(basic::spi_octets, 2);
    if before.len() > 0 {
        lemma_spi_at(before, if i < before.len() { i } else { 0 });
    }
    if i < before.len() {
        assert(out.subrange(4 * i, 4 + 4 * i) =~= basic::spi_octets(before).subrange(4 * i, 4 + 4 * i));
    } else {
        assert(out.subrange(4 * i, 4 + 4 * i) =~= bytes::be32(spis[i]));
    }
}

/// A Delete is taken where its size, its count and its length fit: of the IKE SA only
/// bare, of another with SPIs of four octets.
pub proof fn law_delete_is_read_by_offset(body: Seq<u8>)
    ensures
        Deleted::read(body) is Ok <==> {
            &&& body.len() >= 4
            &&& if body[0] == 1 {
                body[1] == 0 && body[2] == 0 && body[3] == 0 && body.len() == 4
            } else {
                body[1] == 4 && body.len() == 4 + 4 * (body[2] * 256 + body[3])
            }
        },
        Deleted::read(body) matches Ok(read) ==> {
            &&& read.protocol_id == body[0]
            &&& read.spis.len() == body[2] * 256 + body[3]
            &&& forall|i: int| 0 <= i < read.spis.len() ==> #[trigger] read.spis[i] == bytes::at32(body, 4 + 4 * i)
        },
{
}

/// An ID, an AUTH and a Configuration: one octet, three clear ones, and the data. A
/// certificate and a request for some: the encoding 4 and the data.
pub proof fn law_small_payload_layouts(id: Identity, auth: Proof, cert: Presented, der: Seq<u8>, body: Seq<u8>)
    ensures
        id.octets() == seq![id.id_type, 0u8, 0u8, 0u8] + id.data,
        auth.octets() == seq![auth.method, 0u8, 0u8, 0u8] + auth.data,
        cert.octets() == seq![cert.encoding] + cert.data,
        Presented::x509(der).octets() == seq![4u8] + der,
        Identity::read(body) is Ok <==> body.len() >= 4,
        Identity::read(body) matches Ok(read) ==> read.id_type == body[0] && read.data == body.subrange(
            4,
            body.len() as int,
        ),
        Proof::read(body) is Ok <==> body.len() >= 4,
        Proof::read(body) matches Ok(read) ==> read.method == body[0] && read.data == body.subrange(
            4,
            body.len() as int,
        ),
        Presented::read(body) is Ok <==> body.len() >= 1,
        Presented::read(body) matches Ok(read) ==> read.encoding == body[0] && read.data == body.subrange(
            1,
            body.len() as int,
        ),
        cert::request_octets(Seq::empty()) == seq![4u8],
{
    assert(cert::request_octets(Seq::empty()) =~= seq![4u8]);
}

/// A request for certificates lists the hashes of its CAs in order, 20 octets each.
pub proof fn law_certreq_lists_hashes(hashes: Seq<[u8; 20]>, i: int)
    requires
        0 <= i < hashes.len(),
    ensures
        cert::request_octets(hashes).len() == 1 + 20 * hashes.len(),
        cert::request_octets(hashes)[0] == 4,
        cert::request_octets(hashes).subrange(1 + 20 * i, 21 + 20 * i) == hashes[i]@,
{
    lemma_hash_at(hashes, i);
    assert(cert::request_octets(hashes).subrange(1 + 20 * i, 21 + 20 * i) =~= cert::hash_octets(hashes).subrange(
        20 * i,
        20 + 20 * i,
    ));
}

proof fn lemma_hash_at(hashes: Seq<[u8; 20]>, i: int)
    requires
        0 <= i < hashes.len(),
    ensures
        cert::hash_octets(hashes).len() == 20 * hashes.len(),
        cert::hash_octets(hashes).subrange(20 * i, 20 + 20 * i) == hashes[i]@,
    decreases hashes.len(),
{
    let before = hashes.drop_last();
    let out = cert::hash_octets(hashes);
    reveal_with_fuel(cert::hash_octets, 2);
    if before.len() > 0 {
        lemma_hash_at(before, if i < before.len() { i } else { 0 });
    }
    if i < before.len() {
        assert(out.subrange(20 * i, 20 + 20 * i) =~= cert::hash_octets(before).subrange(20 * i, 20 + 20 * i));
    } else {
        assert(out.subrange(20 * i, 20 + 20 * i) =~= hashes[i]@);
    }
}

/// A traffic selector: its type, its protocol, its length, its ports, its addresses.
pub proof fn law_selector_layout(selector: Selector)
    requires
        8 + selector.start_addr.len() + selector.end_addr.len() < 0x1_0000,
    ensures
        ({
            let out = selector.octets();
            let middle = (8 + selector.start_addr.len()) as int;
            &&& out.len() == middle + selector.end_addr.len()
            &&& out[0] == selector.ts_type && out[1] == selector.protocol
            &&& out[2] * 256 + out[3] == out.len()
            &&& out[4] * 256 + out[5] == selector.start_port
            &&& out[6] * 256 + out[7] == selector.end_port
            &&& out.subrange(8, middle) == selector.start_addr
            &&& out.subrange(middle, out.len() as int) == selector.end_addr
        }),
{
    let out = selector.octets();
    let middle = (8 + selector.start_addr.len()) as int;
    assert(out.subrange(8, middle) =~= selector.start_addr);
    assert(out.subrange(middle, out.len() as int) =~= selector.end_addr);
}

/// A traffic selector is read from the same places; of type 7 it has addresses of 4
/// octets, of type 8 of 16.
pub proof fn law_selector_is_read_by_offset(s: Seq<u8>)
    ensures
        Selector::read(s) matches Ok(read) ==> {
            let end = s[2] * 256 + s[3];
            let middle = 8 + (end - 8) / 2;
            &&& 8 <= end <= s.len()
            &&& s[0] == 7 ==> end == 16
            &&& s[0] == 8 ==> end == 40
            &&& read.ts_type == s[0] && read.protocol == s[1]
            &&& read.start_port == s[4] * 256 + s[5] && read.end_port == s[6] * 256 + s[7]
            &&& read.start_addr == s.subrange(8, middle) && read.end_addr == s.subrange(middle, end)
        },
        s.len() >= 16 && s[0] == 7 && s[2] == 0 && s[3] == 16 ==> Selector::read(s) is Ok,
        s.len() >= 40 && s[0] == 8 && s[2] == 0 && s[3] == 40 ==> Selector::read(s) is Ok,
{
}

/// A TS payload: how many selectors it has, three clear octets, and the selectors in
/// order.
pub proof fn law_selectors_layout(selectors: Seq<Selector>)
    requires
        0 < selectors.len() < 256,
    ensures
        ts::octets(selectors)[0] == selectors.len(),
        ts::octets(selectors).subrange(1, 4) == seq![0u8, 0u8, 0u8],
        ts::octets(selectors).subrange(4, ts::octets(selectors).len() as int) == selectors[0].octets()
            + ts::selector_octets(selectors.subrange(1, selectors.len() as int)),
        ts::selector_octets(Seq::empty()).len() == 0,
        selectors.len() > 1 ==> ts::selector_octets(selectors.subrange(1, selectors.len() as int)) == ts::octets(
            selectors.subrange(1, selectors.len() as int),
        ).subrange(4, ts::octets(selectors.subrange(1, selectors.len() as int)).len() as int),
{
    let out = ts::octets(selectors);
    let rest = selectors.subrange(1, selectors.len() as int);
    assert(selectors.drop_first() =~= rest);
    assert(out.subrange(1, 4) =~= seq![0u8, 0u8, 0u8]);
    assert(out.subrange(4, out.len() as int) =~= selectors[0].octets() + ts::selector_octets(rest));
    assert(ts::octets(rest).subrange(4, ts::octets(rest).len() as int) =~= ts::selector_octets(rest));
}

/// What we propose for a tunnel covers every address, port and protocol of IPv4 (type
/// 7), and of IPv6 (type 8) where both are wanted.
pub proof fn law_tunnel_selectors()
    ensures
        Selector::ipv4_any() == (Selector {
            ts_type: 7,
            protocol: 0,
            start_port: 0,
            end_port: 65535,
            start_addr: seq![0u8, 0u8, 0u8, 0u8],
            end_addr: seq![255u8, 255u8, 255u8, 255u8],
        }),
        Selector::ipv6_any() == (Selector {
            ts_type: 8,
            protocol: 0,
            start_port: 0,
            end_port: 65535,
            start_addr: Seq::new(16, |i: int| 0u8),
            end_addr: Seq::new(16, |i: int| 255u8),
        }),
        ChildTsOffer::Ipv4.ts() == seq![Selector::ipv4_any()],
        ChildTsOffer::Unified.ts() == seq![Selector::ipv4_any(), Selector::ipv6_any()],
        forall|ip: Seq<u8>| #[trigger] Selector::ipv4_host(ip) == (Selector {
            ts_type: 7,
            protocol: 0,
            start_port: 0,
            end_port: 65535,
            start_addr: ip,
            end_addr: ip,
        }),
{
    assert(Selector::ipv4_any().start_addr =~= seq![0u8, 0u8, 0u8, 0u8]);
    assert(Selector::ipv4_any().end_addr =~= seq![255u8, 255u8, 255u8, 255u8]);
    assert(Selector::ipv6_any().start_addr =~= Seq::new(16, |i: int| 0u8));
    assert(Selector::ipv6_any().end_addr =~= Seq::new(16, |i: int| 255u8));
}

/// A configuration attribute: its type, its length, its value; the payload lists them
/// in order behind its type.
pub proof fn law_configuration_layout(setting: Setting, settings: Settings)
    ensures
        setting.value.len() < 0x1_0000 ==> {
            let out = setting.octets();
            &&& out.len() == 4 + setting.value.len()
            &&& out[0] * 256 + out[1] == setting.attr_type && out[2] * 256 + out[3] == setting.value.len()
            &&& out.subrange(4, out.len() as int) == setting.value
        },
        settings.octets() == seq![settings.cfg_type, 0u8, 0u8, 0u8] + config::setting_octets(settings.attributes),
        settings.attributes.len() > 0 ==> config::setting_octets(settings.attributes) == settings.attributes[0].octets()
            + config::setting_octets(settings.attributes.subrange(1, settings.attributes.len() as int)),
        config::setting_octets(Seq::empty()).len() == 0,
{
    if setting.value.len() < 0x1_0000 {
        assert(setting.octets().subrange(4, setting.octets().len() as int) =~= setting.value);
    }
    if settings.attributes.len() > 0 {
        assert(settings.attributes.drop_first() =~= settings.attributes.subrange(1, settings.attributes.len() as int));
    }
}

/// An attribute is read from the same places, with the reserved bit of its type left
/// out.
pub proof fn law_configuration_is_read_by_offset(s: Seq<u8>)
    ensures
        Setting::read(s) is Ok <==> s.len() >= 4 && 4 + s[2] * 256 + s[3] <= s.len(),
        Setting::read(s) matches Ok(read) ==> {
            &&& read.attr_type == (s[0] * 256 + s[1]) % 0x8000
            &&& read.value == s.subrange(4, 4 + s[2] * 256 + s[3])
        },
        Settings::read(s) matches Ok(read) ==> s.len() >= 4 && read.cfg_type == s[0] && config::read_settings(
            s.subrange(4, s.len() as int),
        ) == Ok::<Seq<Setting>, Failure>(read.attributes),
{
}

/// What is asked of, and granted to, a client: an address (1), a resolver (3) and
/// subnets (13) are asked for with empty values (type 1); the address is granted with a
/// netmask (2) and a resolver where there are any (type 2).
pub proof fn law_configuration_contents(ip: Seq<u8>, netmask: Option<Seq<u8>>, dns: Option<Seq<u8>>)
    ensures
        ({
            let asked = Settings::request_ipv4();
            &&& asked.cfg_type == 1
            &&& asked.attributes.len() == 3
            &&& asked.attributes[0].attr_type == 1 && asked.attributes[0].value.len() == 0
            &&& asked.attributes[1].attr_type == 3 && asked.attributes[1].value.len() == 0
            &&& asked.attributes[2].attr_type == 13 && asked.attributes[2].value.len() == 0
        }),
        ({
            let reply = Settings::reply_ipv4(ip, netmask, dns);
            let count = 1 + (if netmask is Some { 1int } else { 0 }) + (if dns is Some { 1int } else { 0 });
            &&& reply.cfg_type == 2
            &&& reply.attributes.len() == count
            &&& reply.attributes[0] == (Setting { attr_type: 1, value: ip })
            &&& netmask matches Some(mask) ==> reply.attributes[1] == (Setting { attr_type: 2, value: mask })
            &&& dns matches Some(resolver) ==> reply.attributes.last() == (Setting { attr_type: 3, value: resolver })
        }),
{
}

/// The address a reply assigns is the first of type 1 with four octets.
pub proof fn law_assigned_address_is_the_first(settings: Settings)
    ensures
        match settings.assigned_ipv4() {
            Some(ip) => exists|i: int|
                0 <= i < settings.attributes.len() && (#[trigger] settings.attributes[i]).attr_type == 1
                    && settings.attributes[i].value == ip && ip.len() == 4 && forall|j: int|
                    0 <= j < i ==> (#[trigger] settings.attributes[j]).attr_type != 1
                        || settings.attributes[j].value.len() != 4,
            None => forall|j: int|
                0 <= j < settings.attributes.len() ==> (#[trigger] settings.attributes[j]).attr_type != 1
                    || settings.attributes[j].value.len() != 4,
        },
{
    lemma_first_address(settings.attributes, 0);
}

proof fn lemma_first_address(attributes: Seq<Setting>, from: int)
    requires
        0 <= from <= attributes.len(),
    ensures
        match config::first_address(attributes, 1, from) {
            Some(ip) => exists|i: int|
                from <= i < attributes.len() && (#[trigger] attributes[i]).attr_type == 1 && attributes[i].value == ip
                    && ip.len() == 4 && forall|j: int|
                    from <= j < i ==> (#[trigger] attributes[j]).attr_type != 1 || attributes[j].value.len() != 4,
            None => forall|j: int|
                from <= j < attributes.len() ==> (#[trigger] attributes[j]).attr_type != 1 || attributes[j].value.len()
                    != 4,
        },
    decreases attributes.len() - from,
{
    if from < attributes.len() {
        lemma_first_address(attributes, from + 1);
        if attributes[from].attr_type == 1 && attributes[from].value.len() == 4 {
            assert(attributes[from].value == attributes[from].value);
        }
    }
}

/// An address goes into NAT detection as SHA-1 over SPIi, SPIr, the address and the
/// port (RFC 7296 §2.23).
pub proof fn law_nat_detection_hash(spi_i: u64, spi_r: u64, ip: Seq<u8>, port: u16)
    ensures
        natt::address_hash_of(spi_i, spi_r, ip, port) == hash::sha1_of(
            bytes::be64(spi_i) + bytes::be64(spi_r) + ip + seq![(port / 256) as u8, (port % 256) as u8],
        )@,
{
}

/// On the NAT traversal port a message goes behind four zero octets, and only such a
/// datagram is a message.
pub proof fn law_marker_is_four_zeros(datagram: Seq<u8>)
    ensures
        natt::unwrapped(datagram) is Some <==> datagram.len() >= 4 && datagram[0] == 0 && datagram[1] == 0 && datagram[2]
            == 0 && datagram[3] == 0,
        natt::unwrapped(datagram) matches Some(message) ==> message == datagram.subrange(4, datagram.len() as int),
{
    if datagram.len() >= 4 {
        if datagram[0] == 0 && datagram[1] == 0 && datagram[2] == 0 && datagram[3] == 0 {
            assert(datagram.take(4) =~= bytes::zeros(4));
        }
        if datagram.take(4) == bytes::zeros(4) {
            assert(datagram.take(4)[0] == 0 && datagram.take(4)[1] == 0 && datagram.take(4)[2] == 0 && datagram.take(
                4,
            )[3] == 0);
        }
        assert(datagram.skip(4) =~= datagram.subrange(4, datagram.len() as int));
    }
}

/// The cookie a responder asks for is SHA-256 over its secret, SPIi, the nonce and the
/// address the request came from.
pub proof fn law_cookie(secret: Seq<u8>, spi_i: u64, ni: Seq<u8>, peer: Seq<u8>)
    ensures
        exchange::cookie_of(secret, spi_i, ni, peer) == hash::sha256_of(secret + bytes::be64(spi_i) + ni + peer)@,
{
}

/// An `IKE_SA_INIT` message carries a cookie first where there is one, then SA, KE and
/// nonce, then the notifies that name SHA-2-256 (2) for signatures and offer
/// fragmentation, then any others.
pub proof fn law_sa_init_order(
    cookie: Option<Seq<u8>>,
    offer: Seq<Offered>,
    ke: Exchanged,
    nonce: Seq<u8>,
    extra: Seq<Notice>,
)
    ensures
        ({
            let parts = exchange::sa_init_parts(cookie, offer, ke, nonce, extra);
            let lead = if cookie is Some { 1int } else { 0 };
            &&& parts.len() == lead + 5 + extra.len()
            &&& cookie matches Some(value) ==> parts[0] == (
                PayloadType::Notify,
                seq![0u8, 0u8] + bytes::be16(16390) + value,
            )
            &&& parts[lead] == (PayloadType::SecurityAssociation, sa::proposal_octets(offer))
            &&& parts[lead + 1] == (PayloadType::KeyExchange, bytes::be16(ke.dh_group) + seq![0u8, 0u8] + ke.data)
            &&& parts[lead + 2] == (PayloadType::Nonce, nonce)
            &&& parts[lead + 3] == (PayloadType::Notify, seq![0u8, 0u8] + bytes::be16(16431) + bytes::be16(2))
            &&& parts[lead + 4] == (PayloadType::Notify, seq![0u8, 0u8] + bytes::be16(16430))
            &&& forall|i: int|
                0 <= i < extra.len() ==> #[trigger] parts[lead + 5 + i] == (PayloadType::Notify, extra[i].octets())
        }),
{
    let parts = exchange::sa_init_parts(cookie, offer, ke, nonce, extra);
    law_status_notify(16431, bytes::be16(2));
    law_status_notify(16430, Seq::empty());
    assert(seq![0u8, 0u8] + bytes::be16(16430) + Seq::<u8>::empty() =~= seq![0u8, 0u8] + bytes::be16(16430));
    if let Some(value) = cookie {
        law_status_notify(16390, value);
    }
}

/// A request goes out under our SPI alone, version 2, exchange type 34, the Initiator
/// flag and Message ID 0, with our public value of the group and our nonce.
pub proof fn law_sa_init_request(
    local: Secret,
    offer: Seq<Offered>,
    cookie: Option<Seq<u8>>,
    group: DhGroup,
    extra: Seq<Notice>,
)
    ensures
        ({
            let ke = Exchanged { dh_group: group.id(), data: group.public_of(local.dh_private) };
            let parts = exchange::sa_init_parts(cookie, offer, ke, local.nonce, extra);
            let wire = exchange::request_wire(local, offer, cookie, group, extra);
            &&& wire.subrange(0, 8) == bytes::be64(local.spi)
            &&& wire.subrange(8, 16) == seq![0u8, 0u8, 0u8, 0u8, 0u8, 0u8, 0u8, 0u8]
            &&& wire[17] == 0x20 && wire[18] == 34 && wire[19] == 8
            &&& wire.subrange(20, 24) == seq![0u8, 0u8, 0u8, 0u8]
            &&& wire.subrange(28, wire.len() as int) == message::encoded(parts)
        }),
{
    reveal(IkeHeader::octets);
    let wire = exchange::request_wire(local, offer, cookie, group, extra);
    bytes::law_big_endian_written(0, 0, 0);
    assert(wire.subrange(0, 8) =~= bytes::be64(local.spi));
    assert(wire.subrange(8, 16) =~= bytes::be64(0));
    assert(wire.subrange(20, 24) =~= bytes::be32(0));
    let ke = Exchanged { dh_group: group.id(), data: group.public_of(local.dh_private) };
    assert(wire.subrange(28, wire.len() as int) =~= message::encoded(
        exchange::sa_init_parts(cookie, offer, ke, local.nonce, extra),
    ));
}

/// An answer that keeps no state (a cookie or a group to come back with) goes out under
/// the request's SPI alone with the Response flag, and carries one notify.
pub proof fn law_sa_init_challenge(spi_i: u64, notify: Notice)
    ensures
        ({
            let wire = exchange::challenge_wire(spi_i, notify);
            &&& wire.subrange(0, 8) == bytes::be64(spi_i)
            &&& wire.subrange(8, 16) == seq![0u8, 0u8, 0u8, 0u8, 0u8, 0u8, 0u8, 0u8]
            &&& wire[16] == 41 && wire[17] == 0x20 && wire[18] == 34 && wire[19] == 32
            &&& wire.subrange(20, 24) == seq![0u8, 0u8, 0u8, 0u8]
            &&& wire.subrange(28, wire.len() as int) == message::encoded(seq![(PayloadType::Notify, notify.octets())])
        }),
{
    reveal(IkeHeader::octets);
    let wire = exchange::challenge_wire(spi_i, notify);
    bytes::law_big_endian_written(0, 0, 0);
    assert(wire.subrange(0, 8) =~= bytes::be64(spi_i));
    assert(wire.subrange(8, 16) =~= bytes::be64(0));
    assert(wire.subrange(20, 24) =~= bytes::be32(0));
    assert(wire.subrange(28, wire.len() as int) =~= message::encoded(seq![(PayloadType::Notify, notify.octets())]));
}

/// What we offer by default: AES-GCM with 256 bits, HMAC-SHA2-256 and X25519; for a
/// CHILD SA AES-GCM with 256 bits without extended sequence numbers, under its SPI.
pub proof fn law_default_offers(spi: u32, num: u8, transforms: Seq<Transform>)
    ensures
        exchange::default_proposal() == (Offered {
            num: 1,
            protocol_id: 1,
            spi: Seq::empty(),
            transforms: seq![
                Transform { transform_type: 1, transform_id: 20, key_length: Some(256) },
                Transform { transform_type: 2, transform_id: 5, key_length: None },
                Transform { transform_type: 4, transform_id: 31, key_length: None },
            ],
        }),
        child::gcm256() == (Transform { transform_type: 1, transform_id: 20, key_length: Some(256) }),
        child::no_esn() == (Transform { transform_type: 5, transform_id: 0, key_length: None }),
        child::esp_offered(num, spi, transforms) == (Offered {
            num,
            protocol_id: 3,
            spi: bytes::be32(spi),
            transforms,
        }),
{
}

/// The source of a request is hashed with SPIr 0 (as an address of zeros and port 0
/// where NAT traversal is forced), and then its destination.
pub proof fn law_request_nat_notices(spi: u64, ours: Endpoint, peer: Endpoint, force: bool)
    ensures
        ({
            let notices = exchange::request_nat_notices(spi, ours, peer, force);
            let source = if force {
                Seq::new(ours.ip.octets().len(), |i: int| 0u8) + seq![0u8, 0u8]
            } else {
                ours.ip.octets() + seq![(ours.port / 256) as u8, (ours.port % 256) as u8]
            };
            let target = peer.ip.octets() + seq![(peer.port / 256) as u8, (peer.port % 256) as u8];
            &&& notices.len() == 2
            &&& notices[0] == Notice::status(16388, hash::sha1_of(bytes::be64(spi) + bytes::be64(0) + source)@)
            &&& notices[1] == Notice::status(16389, hash::sha1_of(bytes::be64(spi) + bytes::be64(0) + target)@)
        }),
{
    let source = if force {
        Seq::new(ours.ip.octets().len(), |i: int| 0u8) + seq![0u8, 0u8]
    } else {
        ours.ip.octets() + seq![(ours.port / 256) as u8, (ours.port % 256) as u8]
    };
    let target = peer.ip.octets() + seq![(peer.port / 256) as u8, (peer.port % 256) as u8];
    let spis = bytes::be64(spi) + bytes::be64(0);
    assert(spis + target =~= spis + peer.ip.octets() + bytes::be16(peer.port));
    if force {
        assert(spis + source =~= spis + bytes::zeros(ours.ip.octets().len()) + bytes::be16(0));
    } else {
        assert(spis + source =~= spis + ours.ip.octets() + bytes::be16(ours.port));
    }
}

/// A response hashes its source and then its destination with both SPIs.
pub proof fn law_response_nat_notices(spi_i: u64, spi_r: u64, ours: Endpoint, peer: Endpoint)
    ensures
        exchange::response_nat_notices(spi_i, spi_r, None).len() == 0,
        ({
            let notices = exchange::response_nat_notices(spi_i, spi_r, Some((ours, peer)));
            let source = ours.ip.octets() + seq![(ours.port / 256) as u8, (ours.port % 256) as u8];
            let target = peer.ip.octets() + seq![(peer.port / 256) as u8, (peer.port % 256) as u8];
            let spis = bytes::be64(spi_i) + bytes::be64(spi_r);
            &&& notices.len() == 2
            &&& notices[0] == Notice::status(16388, hash::sha1_of(spis + source)@)
            &&& notices[1] == Notice::status(16389, hash::sha1_of(spis + target)@)
        }),
{
    let source = ours.ip.octets() + seq![(ours.port / 256) as u8, (ours.port % 256) as u8];
    let target = peer.ip.octets() + seq![(peer.port / 256) as u8, (peer.port % 256) as u8];
    let spis = bytes::be64(spi_i) + bytes::be64(spi_r);
    assert(spis + source =~= spis + ours.ip.octets() + bytes::be16(ours.port));
    assert(spis + target =~= spis + peer.ip.octets() + bytes::be16(peer.port));
}

/// We are behind a NAT where the response's destination hash is not that of our
/// address, the peer where its source hash is not that of its own; where a hash is
/// missing nothing is said.
pub proof fn law_nat_status(heard: Heard, spi_i: u64, spi_r: u64, ours: Endpoint, peer: Endpoint)
    ensures
        ({
            let status = exchange::nat_status(heard, spi_i, spi_r, ours, peer);
            let spis = bytes::be64(spi_i) + bytes::be64(spi_r);
            let here = ours.ip.octets() + seq![(ours.port / 256) as u8, (ours.port % 256) as u8];
            let there = peer.ip.octets() + seq![(peer.port / 256) as u8, (peer.port % 256) as u8];
            &&& status.dest_notify_present == heard.nat_dest is Some
            &&& status.source_notify_present == heard.nat_source is Some
            &&& status.we_are_natted <==> (heard.nat_dest matches Some(seen) && seen != hash::sha1_of(spis + here)@)
            &&& status.peer_is_natted <==> (heard.nat_source matches Some(seen) && seen != hash::sha1_of(spis + there)@)
            &&& !status.forced
        }),
{
    let spis = bytes::be64(spi_i) + bytes::be64(spi_r);
    let here = ours.ip.octets() + seq![(ours.port / 256) as u8, (ours.port % 256) as u8];
    let there = peer.ip.octets() + seq![(peer.port / 256) as u8, (peer.port % 256) as u8];
    assert(spis + here =~= spis + ours.ip.octets() + bytes::be16(ours.port));
    assert(spis + there =~= spis + peer.ip.octets() + bytes::be16(peer.port));
}

/// What a notify in an `IKE_SA_INIT` is heard as, by its number.
pub proof fn law_notifies_are_heard_by_number(noted: exchange::Noted, data: Seq<u8>, spi: Seq<u8>, protocol_id: u8)
    ensures
        ({
            let heard = |notify_type: u16|
                noted.with_notify(Notice { protocol_id, spi, notify_type, data });
            &&& heard(16390) == Ok::<exchange::Noted, Failure>(
                if 1 <= data.len() <= 64 {
                    exchange::Noted { cookie: Some(data), ..noted }
                } else {
                    noted
                },
            )
            &&& heard(17) == Ok::<exchange::Noted, Failure>(
                exchange::Noted {
                    invalid_ke_group: if data.len() == 2 {
                        Some((data[0] * 256 + data[1]) as u16)
                    } else {
                        None
                    },
                    ..noted
                },
            )
            &&& heard(16388) == Ok::<exchange::Noted, Failure>(exchange::Noted { nat_source: Some(data), ..noted })
            &&& heard(16389) == Ok::<exchange::Noted, Failure>(exchange::Noted { nat_dest: Some(data), ..noted })
            &&& heard(16430) == Ok::<exchange::Noted, Failure>(
                exchange::Noted { fragmentation_supported: true, ..noted },
            )
            &&& heard(16431) matches Ok(more) && more.signature_hashes.len() == data.len() / 2 && forall|i: int|
                0 <= i < more.signature_hashes.len() ==> #[trigger] more.signature_hashes[i] == data[2 * i] * 256
                    + data[2 * i + 1]
            &&& forall|notify_type: u16|
                notify_type < 16384 && notify_type != 17 ==> ((#[trigger] heard(notify_type)) matches Err(
                    Failure::PeerRejected { notify_type: named, .. },
                ) && named == notify_type)
        }),
{
}

/// An error we answer with names a payload type that had to be understood (1), or is
/// that the message was malformed (7).
pub proof fn law_error_notices(failure: Failure)
    ensures
        informational::error_notice(failure) == match failure {
            Failure::UnsupportedCriticalPayload(payload_type) => Notice::status(1, seq![payload_type]),
            _ => Notice::status(7, Seq::empty()),
        },
{
}

/// The octets of an address are its own.
pub proof fn law_address_octets(four: [u8; 4], sixteen: [u8; 16])
    ensures
        IpAddress::V4(four).octets() == four@,
        IpAddress::V6(sixteen).octets() == sixteen@,
        IpAddress::V4(four).travels_as_ipv4(),
        IpAddress::V6(sixteen).travels_as_ipv4() <==> (forall|i: int| 0 <= i < 10 ==> #[trigger] sixteen@[i] == 0)
            && sixteen@[10] == 255 && sixteen@[11] == 255,
{
    if forall|i: int| 0 <= i < 10 ==> #[trigger] sixteen@[i] == 0 {
        assert(sixteen@.take(10) =~= Seq::new(10, |i: int| 0u8));
    }
    if sixteen@.take(10) == Seq::new(10, |i: int| 0u8) {
        assert forall|i: int| 0 <= i < 10 implies #[trigger] sixteen@[i] == 0 by {
            assert(sixteen@.take(10)[i] == 0);
        }
    }
}

} // verus!
