//! Where the two ends of the EAP exchange start, what they hear, and under which header
//! and keys they speak.

use vstd::prelude::*;

use crate::bytes;
use crate::error::Failure;
use crate::ikev2::child;
use crate::ikev2::child::ChildTsOffer;
use crate::ikev2::eap::Packet;
use crate::ikev2::eap_auth::initiator::{fresh_peer, Peer, Standing};
use crate::ikev2::eap_auth::responder::{fresh_server, AuthStep, Server};
use crate::ikev2::eap_auth::{found, received, Event, Say, Trust};
use crate::ikev2::exchange::Completed;
use crate::ikev2::ike_auth;
use crate::ikev2::ike_auth::Prover;
use crate::ikev2::informational::header_of;
use crate::ikev2::message;
use crate::ikev2::message::{ExchangeType, Flags, Framed, IkeHeader, PayloadType};
use crate::ikev2::mobike::{bare_notice, notifies};
use crate::ikev2::parts_laws::{holds_child, law_eap_request_content};
use crate::ikev2::payload::cert::Presented;
use crate::ikev2::payload::config::Settings;
use crate::ikev2::payload::identity::Identity;
use crate::ikev2::payload::sa::{Offered, Transform};
use crate::ikev2::payload::ts;
use crate::ikev2::payload::ts::Selector;
use crate::ikev2::sk;
use crate::role::Role;

verus! {

/// An initiator starts as it was set up, with a server it has not verified and nothing
/// granted yet.
pub proof fn law_initiator_starts_unproven(
    sa: Completed,
    id: Identity,
    user: Seq<u8>,
    password: Seq<char>,
    child_spi: u32,
    offer: Seq<Offered>,
    verify: Trust,
)
    ensures
        ({
            let peer = fresh_peer(sa, id, user, password, child_spi, offer, verify);
            &&& peer.sa == sa && peer.id == id && peer.user == user && peer.password == password
            &&& peer.child_spi == child_spi && peer.offer == offer && peer.verify == verify
            &&& !peer.server_verified && peer.step == Standing::Selecting
            &&& peer.peer_child_spi is None && peer.peer_esp_suite is None && peer.assigned_ip4 is None
            &&& peer.granted_ts is None && peer.configuration is None
            &&& !peer.want_cfg && !peer.send_certreq && peer.client_certs.len() == 0
            &&& peer.ts_offer == ChildTsOffer::Ipv4
        }),
{
}

/// A responder starts as it was set up, with an initiator it knows nothing of.
pub proof fn law_responder_starts_unproven(
    sa: Completed,
    id: Identity,
    auth: Prover,
    users: Map<Seq<u8>, Seq<char>>,
    child_spi: u32,
)
    ensures
        ({
            let server = fresh_server(sa, id, auth, users, child_spi);
            &&& server.sa == sa && server.id == id && server.auth == auth && server.users == users
            &&& server.child_spi == child_spi && server.step == AuthStep::Start
            &&& server.peer_idi.len() == 0 && server.peer_child_spi is None && server.peer_ts is None
            &&& server.assigned is None && !server.mobike && !server.peer_mobike
        }),
{
}

/// The first message of an initiator is of Message ID 1, a request, under both SPIs and
/// its own keys.
pub proof fn law_first_message(peer: Peer, iv: Seq<u8>)
    ensures
        peer.started(iv) == sk::sealed(
            peer.sa.suite.cipher()->0,
            (IkeHeader {
                initiator_spi: peer.sa.spi_i,
                responder_spi: peer.sa.spi_r,
                next_payload: PayloadType::NoNext,
                major_version: 2,
                minor_version: 0,
                exchange_type: ExchangeType::IkeAuth,
                flags: Flags { initiator: true, version: false, response: false },
                message_id: 1,
                length: 0,
            }),
            peer.opening(),
            peer.sa.keys.sk_ei,
            peer.sa.keys.sk_ai,
            iv,
        ),
{
}

/// What is heard of a message is what opens under the other end's keys, with the Message
/// ID of its header.
pub proof fn law_heard_under_the_peers_keys(sa: Completed, message: Seq<u8>)
    requires
        received(sa, message) is Ok,
    ensures
        ({
            let (message_id, list) = received(sa, message)->Ok_0;
            let (sk_e, sk_a) = if sa.role == Role::Initiator {
                (sa.keys.sk_er, sa.keys.sk_ar)
            } else {
                (sa.keys.sk_ei, sa.keys.sk_ai)
            };
            let opened = sk::decrypted(sa.suite.cipher()->0, message, sk_e, sk_a);
            let (first, inner) = opened->Ok_0;
            &&& message_id == bytes::at32(message, 20)
            &&& opened is Ok
            &&& message::listed(first, inner) == Ok::<Seq<(PayloadType, Seq<u8>)>, Failure>(list)
        }),
{
}

/// Whether `wire` is an `IKE_AUTH` message of this end with some payloads.
pub open spec fn spoken(sa: Completed, message_id: u32, is_response: bool, iv: Seq<u8>, wire: Seq<u8>) -> bool {
    exists|parts: Seq<(PayloadType, Seq<u8>)>| #[trigger]
        sa.sealed(sa.role, header_of(sa, ExchangeType::IkeAuth, message_id, is_response), parts, iv) == Ok::<
            Seq<u8>,
            Failure,
        >(wire)
}

/// The initiator goes on with a request of the next Message ID.
pub proof fn law_initiator_goes_on(peer: Peer, message: Seq<u8>, challenge: Seq<u8>, iv: Seq<u8>)
    ensures
        ({
            let (_, says) = peer.stepped(message, challenge, iv);
            let next = ((bytes::at32(message, 20) + 1) % 0x1_0000_0000) as u32;
            &&& says matches Ok(Event::Reply(wire)) ==> spoken(peer.sa, next, false, iv, wire)
            &&& says matches Ok(Event::Established(Some(wire))) ==> spoken(peer.sa, next, false, iv, wire)
        }),
{
}

/// The responder answers under the Message ID it was asked with.
pub proof fn law_responder_answers(server: Server, message: Seq<u8>, challenge: Seq<u8>, iv: Seq<u8>)
    ensures
        ({
            let (_, says) = server.stepped(message, challenge, iv);
            let asked = bytes::at32(message, 20);
            &&& says matches Ok(Event::Reply(wire)) ==> spoken(server.sa, asked, true, iv, wire)
            &&& says matches Ok(Event::Established(Some(wire))) ==> spoken(server.sa, asked, true, iv, wire)
        }),
{
}

/// A message that does not open moves neither end.
pub proof fn law_unheard_message_moves_nothing(
    peer: Peer,
    server: Server,
    message: Seq<u8>,
    challenge: Seq<u8>,
    iv: Seq<u8>,
)
    ensures
        received(peer.sa, message) is Err ==> peer.stepped(message, challenge, iv).0 == peer,
        received(server.sa, message) is Err ==> server.stepped(message, challenge, iv).0 == server,
{
}

/// The request that asks for EAP: IDi; CP where an address is wanted; the certificates of
/// a client that has any, with the CERTREQ behind them, and then SAi2, TSi and TSr; of one
/// that has none these come first, and the CERTREQ behind them; and last INITIAL_CONTACT.
pub proof fn law_opening_content(peer: Peer)
    ensures
        ({
            let parts = peer.opening();
            let asked = if peer.want_cfg {
                1int
            } else {
                0
            };
            let n = peer.client_certs.len();
            let q = peer.certreq().len();
            let at = 1 + asked + (if n > 0 { n + q } else { 0 });
            &&& parts.len() == 5 + asked + n + q
            &&& parts[0].0 == PayloadType::IdInitiator
            &&& forall|i: int|
                0 <= i < n ==> #[trigger] parts[1 + asked + i] == (
                    PayloadType::Certificate,
                    seq![4u8] + peer.client_certs[i],
                )
            &&& q == (if peer.send_certreq { 1nat } else { 0 })
            &&& q == 1 && n > 0 ==> parts[1 + asked + n].0 == PayloadType::CertRequest
            &&& q == 1 && n == 0 ==> parts[4 + asked].0 == PayloadType::CertRequest
            &&& holds_child(parts, at, child::sai2_of(peer.offer, peer.child_spi), peer.ts_offer.ts(), peer.ts_offer.ts())
            &&& parts.last() == (PayloadType::Notify, seq![0u8, 0u8, 0x40u8, 0u8])
        }),
{
    let n = peer.client_certs.len();
    let certs = ike_auth::cert_parts(peer.client_certs);
    let (middle, behind) = if n > 0 {
        (certs + peer.certreq(), Seq::empty())
    } else {
        (Seq::empty(), peer.certreq())
    };
    law_eap_request_content(peer.id, peer.child_spi, peer.want_cfg, peer.offer, peer.ts_offer, middle, behind);
    let parts = peer.opening();
    let asked = if peer.want_cfg {
        1int
    } else {
        0
    };
    assert(parts == ike_auth::eap_request_parts(
        peer.id,
        peer.child_spi,
        peer.want_cfg,
        peer.offer,
        peer.ts_offer,
        middle,
        behind,
    ));
    assert forall|i: int| 0 <= i < middle.len() implies #[trigger] parts[1 + asked + i] == middle[i] by {
        assert(parts.subrange(1 + asked, 1 + asked + middle.len())[i] == middle[i]);
    }
    assert forall|i: int| 0 <= i < n implies #[trigger] parts[1 + asked + i] == (
        PayloadType::Certificate,
        seq![4u8] + peer.client_certs[i],
    ) by {
        assert(middle[i] == certs[i]);
        assert(Presented::x509(peer.client_certs[i]).octets() =~= seq![4u8] + peer.client_certs[i]);
    }
    if peer.certreq().len() == 1 {
        if n > 0 {
            assert(middle[n as int] == peer.certreq()[0]);
        } else {
            assert(parts.subrange(4 + asked + middle.len(), parts.len() - 1)[0] == behind[0]);
        }
    }
}

/// The message that ends the exchange: IDr and AUTH; then the address where one is
/// assigned and the CHILD SA under our SPI, or notify 38 in their place; and last
/// MOBIKE_SUPPORTED exactly where both ends are for it.
pub proof fn law_final_message_content(server: Server, child: Option<(Seq<Selector>, Seq<Selector>)>)
    ensures
        ({
            let parts = server.final_parts(child);
            let given = if server.assigned is Some && child is Some {
                1int
            } else {
                0
            };
            let moved = if server.mobike && server.peer_mobike {
                1int
            } else {
                0
            };
            let sar2 = Offered {
                num: 1,
                protocol_id: 3,
                spi: bytes::be32(server.child_spi),
                transforms: seq![
                    Transform { transform_type: 1, transform_id: 20, key_length: Some(256) },
                    Transform { transform_type: 5, transform_id: 0, key_length: None },
                ],
            };
            &&& parts.len() == 2 + (if child is Some { 3 + given } else { 1 }) + moved
            &&& parts[0] == (PayloadType::IdResponder, seq![server.id.id_type, 0u8, 0u8, 0u8] + server.id.data)
            &&& parts[1].0 == PayloadType::Authentication
            &&& given == 1 ==> parts[2] == (
                PayloadType::Configuration,
                Settings::reply_ipv4(server.assigned->0.ip, None, server.assigned->0.dns).octets(),
            )
            &&& child matches Some((tsi, tsr)) ==> holds_child(parts, 2 + given, seq![sar2], tsi, tsr)
            &&& child is None ==> parts[2] == (PayloadType::Notify, seq![0u8, 0u8, 0u8, 38u8])
            &&& moved == 1 ==> parts.last() == (PayloadType::Notify, seq![0u8, 0u8, 0x40u8, 0x0cu8])
        }),
{
    let refused = bare_notice(38).octets();
    assert(refused =~= seq![0u8, 0u8, 0u8, 38u8]);
    let moved = bare_notice(16396).octets();
    assert(moved =~= seq![0u8, 0u8, 0x40u8, 0x0cu8]);
}

/// The first message a responder takes leaves it the SPI of the CHILD SA asked for, the
/// selectors of TSi and of TSr in their places, and the body of IDi.
pub proof fn law_first_message_is_noted(server: Server, list: Seq<(PayloadType, Seq<u8>)>, challenge: Seq<u8>)
    requires
        found(list, PayloadType::Eap) is None,
        found(list, PayloadType::Authentication) is None,
        server.turned(list, challenge).says is Ok,
        server.turned(list, challenge).says->Ok_0 is Reply,
    ensures
        ({
            let next = server.turned(list, challenge).next;
            let tsi = found(list, PayloadType::TrafficSelectorInitiator);
            let tsr = found(list, PayloadType::TrafficSelectorResponder);
            &&& found(list, PayloadType::SecurityAssociation) is Some && tsi is Some && tsr is Some
            &&& next.peer_child_spi == child::spi_in(found(list, PayloadType::SecurityAssociation)->0)
            &&& ts::read(tsi->0) is Ok && ts::read(tsr->0) is Ok
            &&& next.peer_ts == Some((ts::read(tsi->0)->Ok_0, ts::read(tsr->0)->Ok_0))
            &&& found(list, PayloadType::IdInitiator) matches Some(idi) ==> next.peer_idi == idi
            &&& next.peer_mobike == (server.peer_mobike || notifies(list, 16396))
            &&& next.sa == server.sa && next.id == server.id && next.auth == server.auth && next.users == server.users
            &&& next.child_spi == server.child_spi && next.assigned == server.assigned
            &&& next.mobike == server.mobike
        }),
{
    reveal(Server::turned);
}

/// The selectors granted are those asked for, narrowed to the client's address on its side
/// (any IPv4 address without one), and to any IPv4 address on ours.
pub proof fn law_selectors_are_narrowed_by_side(server: Server)
    ensures
        server.peer_ts matches Some((tsi, tsr)) ==> {
            let side = match server.assigned {
                Some(assigned) => seq![Selector::ipv4_host(assigned.ip)],
                None => seq![Selector::ipv4_any()],
            };
            let (a, b) = (ts::narrowed_to(tsi, side), ts::narrowed_to(tsr, seq![Selector::ipv4_any()]));
            &&& server.narrowed() is Ok <==> a is Some && b is Some
            &&& server.narrowed() matches Ok((granted_i, granted_r)) ==> a == Some(granted_i) && b == Some(granted_r)
        },
{
}

/// What the final message grants is what the initiator then holds: the SPI of SAr2, the
/// selectors of TSr, and the address of the configuration, if there is one.
pub proof fn law_granted_child_is_kept(peer: Peer, sar2: Seq<u8>, tsr: Option<Seq<Selector>>, config: Option<Settings>)
    ensures
        ({
            let now = peer.with_child(sar2, tsr, config);
            &&& now.peer_child_spi == child::spi_in(sar2)
            &&& now.granted_ts == tsr
            &&& config matches Some(settings) ==> now.assigned_ip4 == settings.assigned_ipv4() && now.configuration
                == Some(settings)
            &&& config is None ==> now.assigned_ip4 == peer.assigned_ip4 && now.configuration == peer.configuration
            &&& now.sa == peer.sa && now.child_spi == peer.child_spi && now.server_verified == peer.server_verified
        }),
{
}

/// An EAP-Success (code 3) is taken, and answered with AUTH, exactly once the server
/// proved itself, where it is empty and of the Identifier of our last Response; another
/// one ends the exchange, and so does a packet that is no Request (code 1).
pub proof fn law_success_answers_our_last_response(peer: Peer, packet: Packet, challenge: Seq<u8>)
    ensures
        ({
            let heard = peer.hearing(packet, challenge);
            let (_, response) = peer.last_request->0;
            let due = peer.step is ServerProven && peer.last_request is Some && response.identifier
                == packet.identifier && packet.data.len() == 0;
            &&& packet.code == 3 && due ==> heard.next.step is AuthSent && heard.says is Ok && heard.says->Ok_0 is Reply
            &&& packet.code == 3 && !due ==> heard.says is Ok && heard.says->Ok_0 is Failed
            &&& packet.code != 3 && packet.code != 1 ==> heard.says is Ok && heard.says->Ok_0 is Failed
        }),
{
}

/// A Request that comes once more is answered with the Response it got, and changes
/// nothing; another one under its Identifier ends the exchange.
pub proof fn law_repeated_request_gets_its_response(peer: Peer, packet: Packet, challenge: Seq<u8>)
    requires
        packet.code == 1,
        peer.last_request matches Some((request, _)) && request.identifier == packet.identifier,
    ensures
        ({
            let heard = peer.hearing(packet, challenge);
            let (request, response) = peer.last_request->0;
            &&& packet == request ==> heard.next == peer && heard.says == Ok::<Say, Failure>(
                Say::Reply(seq![(PayloadType::Eap, response.octets())]),
            )
            &&& packet != request ==> heard.says is Ok && heard.says->Ok_0 is Failed
        }),
{
}

/// The payload picked out of a message is the first of its type.
pub proof fn law_first_payload_is_the_first(first: PayloadType, body: Seq<u8>, want: PayloadType)
    requires
        message::chain(first, body) is Ok,
    ensures
        match ike_auth::first_payload(first, body, want) {
            Some(data) => exists|i: int|
                0 <= i < message::chain(first, body)->Ok_0.len() && leads(
                    #[trigger] message::chain(first, body)->Ok_0[i],
                    want,
                    data,
                ) && none_before(message::chain(first, body)->Ok_0, want, i),
            None => none_before(
                message::chain(first, body)->Ok_0,
                want,
                message::chain(first, body)->Ok_0.len() as int,
            ),
        },
    decreases body.len(),
{
    let all = message::chain(first, body)->Ok_0;
    if first != PayloadType::NoNext {
        let payload = message::head(first, body)->Ok_0;
        let others = message::chain(message::next_type(body), message::after_head(body))->Ok_0;
        assert(all == seq![payload] + others);
        assert(all[0] == payload);
        assert forall|j: int| 1 <= j < all.len() implies #[trigger] all[j] == others[j - 1] by {
        }
        if payload.payload_type != want {
            law_first_payload_is_the_first(message::next_type(body), message::after_head(body), want);
            if let Some(data) = ike_auth::first_payload(first, body, want) {
                let i = choose|i: int|
                    0 <= i < others.len() && leads(#[trigger] others[i], want, data) && none_before(others, want, i);
                assert(all[i + 1] == others[i]);
                assert(none_before(all, want, i + 1));
            }
        } else {
            assert(leads(all[0], want, payload.data));
        }
    }
}

/// Whether a payload is of the type `want` and holds `data`.
pub open spec fn leads(payload: Framed, want: PayloadType, data: Seq<u8>) -> bool {
    payload.payload_type == want && payload.data == data
}

/// Whether none of the first `end` payloads is of the type `want`.
pub open spec fn none_before(payloads: Seq<Framed>, want: PayloadType, end: int) -> bool {
    forall|j: int| 0 <= j < end ==> (#[trigger] payloads[j]).payload_type != want
}

} // verus!
