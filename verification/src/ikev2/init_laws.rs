//! Laws of `IKE_SA_INIT` as a responder decides it: when it demands a cookie, when it
//! corrects the group, what it answers with, and what each payload is taken for.

use crate::addr::Endpoint;
use crate::bytes;
use crate::crypto::dh::DhGroup;
use crate::crypto::hash;
use crate::crypto::laws;
use crate::error::Failure;
use crate::ikev2::exchange;
use crate::ikev2::exchange::{Gate, Heard, Noted, Reply, Secret};
use crate::ikev2::message;
use crate::ikev2::message::{Framed, IkeHeader, PayloadType};
use crate::ikev2::negotiate;
use crate::ikev2::payload::basic;
use crate::ikev2::payload::basic::{Exchanged, Notice};
use crate::ikev2::payload::sa;
use vstd::prelude::*;

verus! {

/// What each payload of an `IKE_SA_INIT` message is taken for.
pub proof fn law_init_payloads_by_type(noted: Noted, data: Seq<u8>, critical: bool)
    ensures
        ({
            let taken = |payload_type: PayloadType| noted.with(Framed { payload_type, critical, data });
            &&& taken(PayloadType::SecurityAssociation) is Ok == sa::read_proposals(data) is Ok
            &&& taken(PayloadType::SecurityAssociation) matches Ok(now) ==> now == (Noted {
                sa: Some(sa::read_proposals(data)->Ok_0),
                ..noted
            })
            &&& taken(PayloadType::KeyExchange) is Ok == (data.len() >= 4)
            &&& taken(PayloadType::KeyExchange) matches Ok(now) ==> now == (Noted {
                ke: Some(
                    Exchanged {
                        dh_group: (data[0] * 256 + data[1]) as u16,
                        data: data.subrange(4, data.len() as int),
                    },
                ),
                ..noted
            })
            &&& taken(PayloadType::Nonce) is Ok == (16 <= data.len() <= 256)
            &&& taken(PayloadType::Nonce) matches Ok(now) ==> now == (Noted { nonce: Some(data), ..noted })
        }),
{
    if data.len() >= 4 {
        bytes::law_big_endian_read(data, 0);
        assert(bytes::from(data, 4) =~= data.subrange(4, data.len() as int));
    }
}

/// An `IKE_SA_INIT` message is heard where it holds SA, KE and nonce. One without SA is a
/// request to come back: with the group it names before the cookie it hands out.
pub proof fn law_init_message_needs_its_payloads(noted: Noted)
    ensures
        noted.concluded() is Ok <==> noted.sa is Some && noted.ke is Some && noted.nonce is Some,
        noted.concluded() matches Ok(heard) ==> {
            &&& heard.sa == noted.sa->0 && heard.ke == noted.ke->0 && heard.nonce == noted.nonce->0
            &&& heard.signature_hashes == noted.signature_hashes && heard.cookie == noted.cookie
            &&& heard.nat_dest == noted.nat_dest && heard.nat_source == noted.nat_source
            &&& heard.fragmentation_supported == noted.fragmentation_supported
        },
        noted.sa is None ==> match (noted.invalid_ke_group, noted.cookie) {
            (Some(group), _) => noted.concluded() == Err::<Heard, Failure>(Failure::InvalidKeGroup(group)),
            (None, Some(cookie)) => noted.concluded() == Err::<Heard, Failure>(Failure::CookieRequired { cookie }),
            (None, None) => noted.concluded() == Err::<Heard, Failure>(Failure::MissingPayload("SA"@)),
        },
{
}

/// The signature hashes a peer takes, two octets each.
pub proof fn law_signature_hashes(data: Seq<u8>, i: int)
    requires
        0 <= i < data.len() / 2,
    ensures
        exchange::signature_hashes(data).len() == data.len() / 2,
        exchange::signature_hashes(data)[i] == data[2 * i] * 256 + data[2 * i + 1],
{
    bytes::law_big_endian_read(data, 2 * i);
}

/// Whether a cookie is missing in what was heard: there must be one, and there is not the
/// SHA-256 over the responder's secret, SPIi, Ni and the peer's address.
pub open spec fn demanded(gate: Option<Gate>, request: Seq<u8>, heard: Heard) -> bool {
    &&& gate matches Some(gate)
    &&& gate.required
    &&& heard.cookie != Some(hash::sha256_of(gate.secret + bytes::be64(bytes::at64(request, 0)) + heard.nonce + gate.peer)@)
}

/// A cookie is demanded exactly of the requests that must echo one and do not, and it is
/// the one that the request must come back with.
pub proof fn law_cookie_is_demanded(
    request: Seq<u8>,
    local: Secret,
    addresses: Option<(Endpoint, Endpoint)>,
    gate: Option<Gate>,
)
    ensures
        ({
            let reply = exchange::responded(request, local, addresses, gate);
            &&& (reply is Ok && reply->Ok_0 is CookieRequired) <==> Heard::of(request) is Ok && demanded(
                gate,
                request,
                Heard::of(request)->Ok_0,
            )
            &&& reply matches Ok(Reply::CookieRequired { response }) ==> response == exchange::challenge_wire(
                bytes::at64(request, 0),
                Notice {
                    protocol_id: 0,
                    spi: Seq::empty(),
                    notify_type: 16390,
                    data: hash::sha256_of(
                        gate->0.secret + bytes::be64(bytes::at64(request, 0)) + Heard::of(request)->Ok_0.nonce
                            + gate->0.peer,
                    )@,
                },
            )
        }),
{
    reveal(exchange::responded);
}

/// A request that need echo no cookie is corrected exactly where the responder knows the
/// addresses it came over, can choose a suite, takes the nonce, and the public value is of
/// another group than that suite's; and to that group.
pub proof fn law_group_is_corrected(
    request: Seq<u8>,
    local: Secret,
    addresses: Option<(Endpoint, Endpoint)>,
    gate: Option<Gate>,
)
    requires
        Heard::of(request) is Ok,
        !demanded(gate, request, Heard::of(request)->Ok_0),
    ensures
        ({
            let reply = exchange::responded(request, local, addresses, gate);
            let heard = Heard::of(request)->Ok_0;
            let (_, suite) = negotiate::selected(heard.sa)->0;
            &&& negotiate::selected(heard.sa) is None ==> reply == Err::<Reply, Failure>(Failure::NoProposalChosen)
            &&& (reply is Ok && reply->Ok_0 is InvalidKe) <==> {
                &&& addresses is Some
                &&& negotiate::selected(heard.sa) is Some
                &&& basic::read_nonce_for_prf(heard.nonce, suite.prf()) is Ok
                &&& heard.ke.dh_group != suite.dh_id
            }
            &&& reply matches Ok(Reply::InvalidKe { response, group }) ==> group == suite.dh_id && response
                == exchange::challenge_wire(
                bytes::at64(request, 0),
                Notice {
                    protocol_id: 0,
                    spi: Seq::empty(),
                    notify_type: 17,
                    data: bytes::be16(suite.dh_id),
                },
            )
        }),
{
    reveal(exchange::responded);
    let heard = Heard::of(request)->Ok_0;
    if let Some((i, suite)) = negotiate::selected(heard.sa) {
        negotiate::lemma_selected(heard.sa);
        negotiate::lemma_chosen_runs(heard.sa[i]);
        laws::law_groups_have_their_numbers(suite.dh_id);
    }
}

/// The answer to a request goes out under both SPIs with the Response flag and Message ID
/// 0; it holds the one suite that was chosen, our public value in its group and our
/// nonce.
pub proof fn law_answer_content(
    request: Seq<u8>,
    local: Secret,
    addresses: Option<(Endpoint, Endpoint)>,
    gate: Option<Gate>,
)
    requires
        exchange::responded(request, local, addresses, gate) matches Ok(Reply::Established { .. }),
    ensures
        ({
            let reply = exchange::responded(request, local, addresses, gate)->Ok_0;
            let wire = reply->Established_response;
            let heard = Heard::of(request)->Ok_0;
            let (i, suite) = negotiate::selected(heard.sa)->0;
            let answer = suite.proposed(negotiate::has_type(heard.sa[i].transforms, 3));
            let ke = Exchanged {
                dh_group: suite.dh_id,
                data: DhGroup::named(suite.dh_id)->0.public_of(local.dh_private),
            };
            &&& reply->sa.suite == suite
            &&& wire.subrange(0, 8) == bytes::be64(bytes::at64(request, 0))
            &&& wire.subrange(8, 16) == bytes::be64(local.spi)
            &&& wire[17] == 0x20 && wire[18] == 34 && wire[19] == 32
            &&& wire.subrange(20, 24) == seq![0u8, 0u8, 0u8, 0u8]
            &&& wire.subrange(28, wire.len() as int) == message::encoded(
                exchange::sa_init_parts(
                    None,
                    seq![answer],
                    ke,
                    local.nonce,
                    exchange::response_nat_notices(bytes::at64(request, 0), local.spi, addresses),
                ),
            )
        }),
{
    broadcast use bytes::group_lengths;

    reveal(exchange::responded);
    reveal(IkeHeader::octets);
    let reply = exchange::responded(request, local, addresses, gate)->Ok_0;
    let wire = reply->Established_response;
    let heard = Heard::of(request)->Ok_0;
    let (i, suite) = negotiate::selected(heard.sa)->0;
    let answer = suite.proposed(negotiate::has_type(heard.sa[i].transforms, 3));
    let ke = Exchanged {
        dh_group: suite.dh_id,
        data: DhGroup::named(suite.dh_id)->0.public_of(local.dh_private),
    };
    let parts = exchange::sa_init_parts(
        None,
        seq![answer],
        ke,
        local.nonce,
        exchange::response_nat_notices(bytes::at64(request, 0), local.spi, addresses),
    );
    bytes::law_big_endian_written(0, 0, 0);
    assert(wire.subrange(0, 8) =~= bytes::be64(bytes::at64(request, 0)));
    assert(wire.subrange(8, 16) =~= bytes::be64(local.spi));
    assert(wire.subrange(20, 24) =~= bytes::be32(0));
    assert(wire.subrange(28, wire.len() as int) =~= message::encoded(parts));
}

/// A public value is taken where it is of the group and has the group's length.
pub proof fn law_public_value_fits_its_group(ke: Exchanged, group: DhGroup)
    ensures
        exchange::public_in(ke, group) is Ok <==> ke.dh_group == group.id() && ke.data.len() == group.public_size(),
        exchange::public_in(ke, group) matches Ok(public) ==> public == ke.data,
{
}

} // verus!
