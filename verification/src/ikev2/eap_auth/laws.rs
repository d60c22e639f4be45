//! What holds of the EAP exchange as a whole: the order each side keeps to, and
//! that two ends which share a password come to the same SA.

use vstd::prelude::*;

use crate::bytes;
use crate::error::Failure;
use crate::ikev2::auth_laws;
use crate::ikev2::auth_laws::of_ipv4;
use crate::ikev2::child;
use crate::ikev2::eap;
use crate::ikev2::eap::{Packet, Responded};
use crate::ikev2::eap_auth::initiator::{eap_part, esp_in, refused, Move, Peer, Standing};
use crate::ikev2::eap_auth::responder::{identity_request, AuthStep, Server, Turn, MSCHAP_ID, SERVER_NAME};
use crate::ikev2::eap_auth::{found, found_from, goes_out, Say, Trust};
use crate::ikev2::ike_auth::{
    assigned_ip, cert_parts, child_parts, config_part, initial_contact_part, mobike_part, psk_proof, reply_part,
    responder_octets, Prover,
};
use crate::ikev2::message::PayloadType;
use crate::ikev2::mobike::bare_notice;
use crate::ikev2::mschapv2;
use crate::ikev2::negotiate;
use crate::ikev2::payload::identity;
use crate::ikev2::payload::identity::Proof;
use crate::ikev2::payload::notify_type;
use crate::ikev2::payload::sa;
use crate::ikev2::payload::sa::Offered;
use crate::ikev2::payload::ts;
use crate::ikev2::payload::ts::Selector;

verus! {

/// An initiator that is to authenticate the server says nothing but that the
/// exchange failed until it has, and it has only by a message that proves who the
/// server is.
pub proof fn law_nothing_before_server_is_verified(peer: Peer, list: Seq<(PayloadType, Seq<u8>)>, challenge: Seq<u8>)
    requires
        !(peer.verify is Insecure),
        !peer.server_verified,
    ensures
        ({
            let made = peer.moved(list, challenge);
            if peer.noting(list).trusts(list) {
                made.kept.server_verified
            } else {
                !made.kept.server_verified && !made.next.server_verified && made.says == Ok::<Say, Failure>(
                    Say::Failed(None),
                )
            }
        }),
{
    reveal(Peer::moved);
}

/// An initiator goes from step to step in order: it answers a Challenge, then takes
/// the authenticator response that proves the server knows the password, then
/// EAP-Success; and the exchange is established only by a final AUTH that confirms
/// the key, after its own went out.
pub proof fn law_initiator_keeps_order(peer: Peer, list: Seq<(PayloadType, Seq<u8>)>, challenge: Seq<u8>)
    ensures
        ({
            let made = peer.moved(list, challenge);
            &&& made.next.step is Answered && made.next.step != peer.step ==> peer.step is Selecting
            &&& made.next.step is ServerProven && !(peer.step is ServerProven) ==> {
                &&& peer.step is Answered
                &&& found(list, PayloadType::Eap) matches Some(body)
                &&& Packet::read(body) matches Ok(packet)
                &&& peer.proven(packet.data)
            }
            &&& made.next.step is AuthSent && !(peer.step is AuthSent) ==> peer.step is ServerProven
            &&& made.next.step is Selecting ==> peer.step is Selecting
            &&& made.says matches Ok(Say::Established(_)) ==> {
                &&& peer.step is AuthSent
                &&& found(list, PayloadType::Authentication) matches Some(body)
                &&& Proof::read(body) == Ok::<Proof, Failure>(peer.noting(list).expected_auth())
            }
        }),
{
    reveal(Peer::moved);
}

/// A duplicate of the Request an initiator last answered gets the same Response,
/// and changes nothing.
pub proof fn law_duplicate_gets_same_response(
    peer: Peer,
    request: Packet,
    response: Packet,
    list: Seq<(PayloadType, Seq<u8>)>,
    challenge: Seq<u8>,
)
    requires
        peer.last_request == Some((request, response)),
        request.code == eap::code::REQUEST,
        peer.server_verified || peer.verify is Insecure,
        !(peer.step is AuthSent),
        found(list, PayloadType::IdResponder) is None,
        found(list, PayloadType::Eap) matches Some(body) && Packet::read(body) == Ok::<Packet, Failure>(request),
    ensures
        peer.moved(list, challenge) == (Move { kept: peer, next: peer, says: Ok(Say::Reply(eap_part(response))), challenged: false }),
{
    reveal(Peer::moved);
    assert(Peer { server_verified: peer.server_verified || peer.to_check(list), ..peer } == peer);
}

/// What an initiator makes of a message is the same whatever challenge it might
/// draw, unless it takes an MSCHAPv2 Challenge, which it then answers.
pub proof fn law_initiator_challenge_is_drawn_where_used(
    peer: Peer,
    list: Seq<(PayloadType, Seq<u8>)>,
    challenge: Seq<u8>,
    other: Seq<u8>,
)
    ensures
        peer.moved(list, challenge).challenged == peer.moved(list, other).challenged,
        !peer.moved(list, challenge).challenged ==> peer.moved(list, challenge) == peer.moved(list, other),
        peer.moved(list, challenge).challenged ==> peer.step is Selecting && goes_out(
            peer.moved(list, challenge).says,
        ),
{
    reveal(Peer::moved);
}

/// What a responder makes of a message is the same whatever challenge it might
/// draw, unless it takes the identity of a user it knows, which it then challenges.
pub proof fn law_responder_challenge_is_drawn_where_used(
    server: Server,
    list: Seq<(PayloadType, Seq<u8>)>,
    challenge: Seq<u8>,
    other: Seq<u8>,
)
    ensures
        server.turned(list, challenge).challenged == server.turned(list, other).challenged,
        !server.turned(list, challenge).challenged ==> server.turned(list, challenge) == server.turned(list, other),
        server.turned(list, challenge).challenged ==> server.step is Identity && goes_out(
            server.turned(list, challenge).says,
        ),
{
    reveal(Server::turned);
}

/// A responder that is done takes nothing more.
pub proof fn law_done_takes_nothing(server: Server, list: Seq<(PayloadType, Seq<u8>)>, challenge: Seq<u8>)
    requires
        server.step == AuthStep::Done,
    ensures
        server.turned(list, challenge).says == Ok::<Say, Failure>(Say::Failed(None)),
        server.turned(list, challenge).kept.step == AuthStep::Done,
{
    reveal(Server::turned);
}

/// A responder goes from step to step in order: it takes an EAP Response only for
/// the Request it has outstanding, counts the password as proven only by the
/// NT-Response it works out itself, and is established only by an AUTH that
/// confirms the key, after it sent EAP-Success.
pub proof fn law_responder_keeps_order(server: Server, list: Seq<(PayloadType, Seq<u8>)>, challenge: Seq<u8>)
    ensures
        ({
            let turn = server.turned(list, challenge);
            &&& turn.says matches Ok(Say::Reply(_)) ==> (server.step == AuthStep::Start || {
                &&& server.outstanding() is Some
                &&& found(list, PayloadType::Authentication) is None
                &&& found(list, PayloadType::Eap) matches Some(body)
                &&& Packet::read(body) matches Ok(packet)
                &&& packet.code == eap::code::RESPONSE
                &&& server.outstanding() == Some(packet.identifier)
            })
            &&& turn.next.step is Identity && turn.next.step != server.step ==> server.step is Start
            &&& turn.next.step is Challenge && turn.next.step != server.step ==> server.step is Identity
                && server.users.contains_key(turn.next.user) && turn.next.password == server.users[turn.next.user]
            &&& turn.next.step is Success && turn.next.step != server.step ==> {
                &&& server.step is Challenge
                &&& found(list, PayloadType::Eap) matches Some(body)
                &&& Packet::read(body) matches Ok(packet)
                &&& Responded::read(packet.data) matches Ok(resp)
                &&& resp.nt_response == mschapv2::nt_response(
                    server.auth_challenge,
                    resp.peer_challenge,
                    server.user,
                    server.password,
                )
            }
            &&& turn.next.step is Succeeded && turn.next.step != server.step ==> server.step is Success
            &&& turn.says matches Ok(Say::Established(_)) ==> {
                &&& server.step is Succeeded
                &&& found(list, PayloadType::Authentication) matches Some(body)
                &&& Proof::read(body) == Ok::<Proof, Failure>(server.expected_auth())
            }
        }),
{
    reveal(Server::turned);
}

proof fn lemma_found_from(a: Seq<(PayloadType, Seq<u8>)>, b: Seq<(PayloadType, Seq<u8>)>, want: PayloadType, from: int)
    requires
        0 <= from <= a.len(),
    ensures
        found_from(a + b, want, from) == (match found_from(a, want, from) {
            Some(body) => Some(body),
            None => found_from(b, want, 0),
        }),
    decreases a.len() - from,
{
    if from < a.len() {
        assert((a + b)[from] == a[from]);
        lemma_found_from(a, b, want, from + 1);
    } else {
        lemma_found_behind(a, b, want, 0);
    }
}

proof fn lemma_found_behind(
    a: Seq<(PayloadType, Seq<u8>)>,
    b: Seq<(PayloadType, Seq<u8>)>,
    want: PayloadType,
    from: int,
)
    requires
        0 <= from <= b.len(),
    ensures
        found_from(a + b, want, a.len() + from) == found_from(b, want, from),
    decreases b.len() - from,
{
    if from < b.len() {
        assert((a + b)[a.len() + from] == b[from]);
        lemma_found_behind(a, b, want, from + 1);
    }
}

/// What is found in a list of two parts: what the first holds, or else the second.
proof fn lemma_found(a: Seq<(PayloadType, Seq<u8>)>, b: Seq<(PayloadType, Seq<u8>)>, want: PayloadType)
    ensures
        found(a + b, want) == (match found(a, want) {
            Some(body) => Some(body),
            None => found(b, want),
        }),
{
    lemma_found_from(a, b, want, 0);
}

/// What is found in a list of one payload.
proof fn lemma_found_one(payload_type: PayloadType, body: Seq<u8>, want: PayloadType)
    ensures
        found(seq![(payload_type, body)], want) == (if payload_type == want {
            Some(body)
        } else {
            None
        }),
{
    reveal_with_fuel(found_from, 3);
}

proof fn lemma_found_none(list: Seq<(PayloadType, Seq<u8>)>, kind: PayloadType, want: PayloadType, from: int)
    requires
        forall|i: int| 0 <= i < list.len() ==> (#[trigger] list[i]).0 == kind,
        kind != want,
        0 <= from <= list.len(),
    ensures
        found_from(list, want, from) is None,
    decreases list.len() - from,
{
    if from < list.len() {
        lemma_found_none(list, kind, want, from + 1);
    }
}

/// What is found of a type in the first message: `kind` is none that the caller
/// chose to add.
proof fn lemma_found_opening(peer: Peer, want: PayloadType)
    requires
        want != PayloadType::Certificate,
        want != PayloadType::CertRequest,
        want != PayloadType::Configuration,
        want != PayloadType::Notify,
    ensures
        found(peer.opening(), want) == (if want == PayloadType::IdInitiator {
            Some(peer.id.octets())
        } else if want == PayloadType::SecurityAssociation {
            Some(sa::proposal_octets(child::sai2_of(peer.offer, peer.child_spi)))
        } else if want == PayloadType::TrafficSelectorInitiator {
            Some(ts::octets(peer.ts_offer.ts()))
        } else if want == PayloadType::TrafficSelectorResponder {
            Some(ts::octets(peer.ts_offer.ts()))
        } else {
            None
        }),
{
    let none = Seq::<(PayloadType, Seq<u8>)>::empty();
    let (middle, after) = if peer.client_certs.len() > 0 {
        (cert_parts(peer.client_certs) + peer.certreq(), none)
    } else {
        (none, peer.certreq())
    };
    let id = seq![(PayloadType::IdInitiator, peer.id.octets())];
    let config = config_part(peer.want_cfg);
    let offered = child_parts(peer.child_spi, peer.offer, peer.ts_offer);
    let contact = initial_contact_part();
    assert(peer.opening() == id + config + middle + offered + after + contact);
    lemma_found(id + config + middle + offered + after, contact, want);
    lemma_found(id + config + middle + offered, after, want);
    lemma_found(id + config + middle, offered, want);
    lemma_found(id + config, middle, want);
    lemma_found(id, config, want);
    lemma_found(cert_parts(peer.client_certs), peer.certreq(), want);
    lemma_found_none(cert_parts(peer.client_certs), PayloadType::Certificate, want, 0);
    lemma_found_none(peer.certreq(), PayloadType::CertRequest, want, 0);
    lemma_found_none(config, PayloadType::Configuration, want, 0);
    lemma_found_none(contact, PayloadType::Notify, want, 0);
    lemma_found_one(PayloadType::IdInitiator, peer.id.octets(), want);
    reveal_with_fuel(found_from, 5);
}

/// What is found of a type in the message that authenticates the server.
proof fn lemma_found_greeting(server: Server, want: PayloadType)
    requires
        want != PayloadType::Certificate,
    ensures
        ({
            let shown = server.auth.proof_over(
                server.sa.suite.prf(),
                responder_octets(server.sa, server.id.octets()),
            );
            found(server.greeting(), want) == (if want == PayloadType::IdResponder {
                Some(server.id.octets())
            } else if want == PayloadType::Authentication {
                Some(shown.octets())
            } else if want == PayloadType::Eap {
                Some(identity_request(1).octets())
            } else {
                None
            })
        }),
{
    let shown = server.auth.proof_over(server.sa.suite.prf(), responder_octets(server.sa, server.id.octets()));
    let id = seq![(PayloadType::IdResponder, server.id.octets())];
    let certs = server.auth.certs();
    let auth = seq![(PayloadType::Authentication, shown.octets())];
    let asked = eap_part(identity_request(1));
    lemma_found(id + certs + auth, asked, want);
    lemma_found(id + certs, auth, want);
    lemma_found(id, certs, want);
    lemma_found_none(certs, PayloadType::Certificate, want, 0);
    lemma_found_one(PayloadType::IdResponder, server.id.octets(), want);
    lemma_found_one(PayloadType::Authentication, shown.octets(), want);
    lemma_found_one(PayloadType::Eap, identity_request(1).octets(), want);
}

/// What is found of a type in the final message.
proof fn lemma_found_final(server: Server, child: Option<(Seq<Selector>, Seq<Selector>)>, want: PayloadType)
    requires
        want != PayloadType::Notify,
    ensures
        found(server.final_parts(child), want) == (if want == PayloadType::IdResponder {
            Some(server.id.octets())
        } else if want == PayloadType::Authentication {
            Some(server.own_auth().octets())
        } else {
            match child {
                None => None,
                Some((tsi, tsr)) => if want == PayloadType::Configuration && server.assigned is Some {
                    Some(server.assigned->0.reply().octets())
                } else if want == PayloadType::SecurityAssociation {
                    Some(sa::proposal_octets(seq![default_answer(server.child_spi)]))
                } else if want == PayloadType::TrafficSelectorInitiator {
                    Some(ts::octets(tsi))
                } else if want == PayloadType::TrafficSelectorResponder {
                    Some(ts::octets(tsr))
                } else {
                    None
                },
            }
        }),
{
    let head = seq![
        (PayloadType::IdResponder, server.id.octets()),
        (PayloadType::Authentication, server.own_auth().octets()),
    ];
    let moves = mobike_part(server.follows());
    lemma_found_none(moves, PayloadType::Notify, want, 0);
    match child {
        None => {
            let told = seq![(PayloadType::Notify, bare_notice(notify_type::TS_UNACCEPTABLE).octets())];
            lemma_found(head + told, moves, want);
            lemma_found(head, told, want);
            lemma_found_none(told, PayloadType::Notify, want, 0);
            reveal_with_fuel(found_from, 4);
        },
        Some((tsi, tsr)) => {
            let reply = reply_part(server.assigned);
            let granted = seq![
                (
                    PayloadType::SecurityAssociation,
                    sa::proposal_octets(seq![default_answer(server.child_spi)]),
                ),
                (PayloadType::TrafficSelectorInitiator, ts::octets(tsi)),
                (PayloadType::TrafficSelectorResponder, ts::octets(tsr)),
            ];
            lemma_found(head + (reply + granted), moves, want);
            lemma_found(head, reply + granted, want);
            lemma_found(reply, granted, want);
            reveal_with_fuel(found_from, 5);
        },
    }
}

/// The proposal the final message answers with.
pub open spec fn default_answer(child_spi: u32) -> Offered {
    child::esp_offered(1, child_spi, seq![child::gcm256(), child::no_esn()])
}

proof fn lemma_default_answer(child_spi: u32)
    ensures
        ({
            let body = sa::proposal_octets(seq![default_answer(child_spi)]);
            &&& child::spi_in(body) == Some(child_spi)
            &&& esp_in(body) == negotiate::esp_suite_of(seq![child::gcm256(), child::no_esn()])
        }),
{
    let answer = default_answer(child_spi);
    let one = seq![answer];
    sa::lemma_proposal_len(answer, true);
    assert(bytes::be32(child_spi).len() == 4) by {
        broadcast use bytes::group_lengths;
    }
    assert(forall|k: int| 0 <= k < one.len() ==> #[trigger] one[k] == answer);
    sa::law_sa_round_trip(one);
    assert(negotiate::first_esp(one, 0) == Some(0int));
    let wire = bytes::be32(child_spi);
    assert(wire.subrange(0, 4) =~= wire);
    bytes::lemma_at32_be32(wire, 0, child_spi);
}

/// A responder that authenticates itself with a pre-shared key is trusted by an
/// initiator that has the same key and came to the same SA.
pub proof fn law_psk_server_is_trusted(peer: Peer, server: Server, psk: Seq<u8>)
    requires
        peer.sa.agrees_with(server.sa),
        peer.verify == Trust::Psk(psk),
        server.auth == Prover::Psk(psk),
    ensures
        peer.trusts(server.greeting()),
{
    let shown = psk_proof(server.sa.suite.prf(), psk, responder_octets(server.sa, server.id.octets()));
    lemma_found_greeting(server, PayloadType::IdResponder);
    lemma_found_greeting(server, PayloadType::Authentication);
    identity::law_authentication_round_trip(shown);
}

/// What comes of it when `parts` is the initiator's message, each message is handed
/// to the other end and the answer to that handed back, at most `rounds` times over:
/// the last the initiator made of a message, and the last the responder did.
#[verifier::opaque]
pub open spec fn exchanged(
    peer: Peer,
    server: Server,
    parts: Seq<(PayloadType, Seq<u8>)>,
    peer_challenge: Seq<u8>,
    auth_challenge: Seq<u8>,
    rounds: nat,
) -> (Move, Turn)
    decreases rounds,
{
    let turn = server.turned(parts, auth_challenge);
    match turn.says {
        Ok(Say::Reply(answer)) => {
            let made = peer.moved(answer, peer_challenge);
            match made.says {
                Ok(Say::Reply(more)) => if rounds > 0 {
                    exchanged(made.next, turn.next, more, peer_challenge, auth_challenge, (rounds - 1) as nat)
                } else {
                    (made, turn)
                },
                _ => (made, turn),
            }
        },
        Ok(Say::Established(Some(answer))) => (peer.moved(answer, peer_challenge), turn),
        _ => (peer.failing(None), turn),
    }
}

/// An initiator and a responder that came to the same SA and have an exchange
/// before them which can succeed: the initiator trusts how the responder
/// authenticates itself, and the responder knows the initiator's password.
pub open spec fn well_met(peer: Peer, server: Server) -> bool {
    &&& peer.sa.agrees_with(server.sa)
    &&& peer.step is Selecting
    &&& peer.last_request is None
    &&& peer.server_idr.len() == 0
    &&& !peer.server_verified
    &&& server.step is Start
    &&& peer.trusts(server.greeting())
    &&& server.users.contains_key(peer.user)
    &&& server.users[peer.user] == peer.password
    &&& peer.user.len() + 59 < 0x1_0000
}

/// The initiator once it answered the Identity Request.
spec fn peer_identified(peer: Peer, server: Server) -> Peer {
    Peer {
        server_idr: server.id.octets(),
        server_verified: true,
        last_request: Some(
            (
                identity_request(1),
                Packet {
                    code: eap::code::RESPONSE,
                    identifier: 1,
                    data: seq![eap::eap_type::IDENTITY] + peer.user,
                },
            ),
        ),
        ..peer
    }
}

spec fn identity_response(peer: Peer) -> Packet {
    Packet { code: eap::code::RESPONSE, identifier: 1, data: seq![eap::eap_type::IDENTITY] + peer.user }
}

spec fn challenge_request(auth_challenge: Seq<u8>) -> Packet {
    Packet {
        code: eap::code::REQUEST,
        identifier: 2,
        data: eap::challenge_data(MSCHAP_ID, auth_challenge, SERVER_NAME@),
    }
}

spec fn challenge_response(nt: Seq<u8>, peer: Peer, peer_challenge: Seq<u8>) -> Packet {
    Packet {
        code: eap::code::RESPONSE,
        identifier: 2,
        data: eap::response_data(MSCHAP_ID, peer_challenge, nt, peer.user),
    }
}

spec fn success_request(nt: Seq<u8>, peer: Peer, peer_challenge: Seq<u8>, auth_challenge: Seq<u8>) -> Packet {
    Packet {
        code: eap::code::REQUEST,
        identifier: 3,
        data: eap::success_data(
            MSCHAP_ID,
            mschapv2::server_text(peer.password, nt, peer_challenge, auth_challenge, peer.user),
        ),
    }
}

spec fn success_response() -> Packet {
    Packet { code: eap::code::RESPONSE, identifier: 3, data: seq![eap::eap_type::MSCHAPV2, eap::op::SUCCESS] }
}

spec fn eap_success() -> Packet {
    Packet { code: eap::code::SUCCESS, identifier: 3, data: Seq::empty() }
}

/// What an EAP packet on its own is found as.
proof fn lemma_packet(packet: Packet)
    requires
        4 + packet.data.len() < 0x1_0000,
    ensures
        found(eap_part(packet), PayloadType::Eap) == Some(packet.octets()),
        found(eap_part(packet), PayloadType::Authentication) is None,
        found(eap_part(packet), PayloadType::IdResponder) is None,
        Packet::read(packet.octets()) == Ok::<Packet, Failure>(packet),
{
    lemma_found_one(PayloadType::Eap, packet.octets(), PayloadType::Eap);
    lemma_found_one(PayloadType::Eap, packet.octets(), PayloadType::Authentication);
    lemma_found_one(PayloadType::Eap, packet.octets(), PayloadType::IdResponder);
    eap::law_packet_round_trip(packet, Seq::empty());
    assert(packet.octets() + Seq::<u8>::empty() =~= packet.octets());
}

/// The first round: the responder greets, the initiator gives its identity.
proof fn lemma_greeted(peer: Peer, server: Server, peer_challenge: Seq<u8>, auth_challenge: Seq<u8>)
    requires
        well_met(peer, server),
    ensures
        ({
            let turn = server.turned(peer.opening(), auth_challenge);
            let made = peer.moved(server.greeting(), peer_challenge);
            &&& turn.says == Ok::<Say, Failure>(Say::Reply(server.greeting()))
            &&& turn.next == (Server {
                peer_child_spi: child::spi_in(sa::proposal_octets(child::sai2_of(peer.offer, peer.child_spi))),
                peer_ts: Some((peer.ts_offer.ts(), peer.ts_offer.ts())),
                peer_idi: peer.id.octets(),
                step: AuthStep::Identity { id: 1 },
                peer_mobike: turn.next.peer_mobike,
                ..server
            })
            &&& made.says == Ok::<Say, Failure>(Say::Reply(eap_part(identity_response(peer))))
            &&& made.next == peer_identified(peer, server)
        }),
{
    reveal(Peer::moved);
    reveal(Server::turned);
    lemma_found_opening(peer, PayloadType::Eap);
    lemma_found_opening(peer, PayloadType::Authentication);
    lemma_found_opening(peer, PayloadType::SecurityAssociation);
    lemma_found_opening(peer, PayloadType::TrafficSelectorInitiator);
    lemma_found_opening(peer, PayloadType::TrafficSelectorResponder);
    lemma_found_opening(peer, PayloadType::IdInitiator);
    auth_laws::lemma_ts_offer_reads_back(peer.ts_offer);
    lemma_found_greeting(server, PayloadType::IdResponder);
    lemma_found_greeting(server, PayloadType::Authentication);
    lemma_found_greeting(server, PayloadType::Eap);
    lemma_packet(identity_request(1));
    let noted = peer.noting(server.greeting());
    assert(noted.trusts(server.greeting()) == peer.trusts(server.greeting()));
    let checked = Peer { server_verified: true, ..noted };
    assert(checked.answered(identity_request(1), peer_challenge) == Ok::<
        Result<(Peer, Seq<u8>), Option<crate::ikev2::eap_auth::Reason>>,
        Failure,
    >(Ok((checked, seq![eap::eap_type::IDENTITY] + peer.user))));
}

/// An initiator that has verified the server hears an EAP packet on its own.
proof fn lemma_hears(peer: Peer, packet: Packet, challenge: Seq<u8>)
    requires
        peer.server_verified,
        !(peer.step is AuthSent),
        4 + packet.data.len() < 0x1_0000,
    ensures
        peer.moved(eap_part(packet), challenge) == peer.hearing(packet, challenge),
{
    reveal(Peer::moved);
    lemma_packet(packet);
    let list = eap_part(packet);
    assert(Peer { server_verified: peer.server_verified || peer.to_check(list), ..peer } == peer);
}

/// A responder hears the Response to the Request it has outstanding.
proof fn lemma_server_hears(server: Server, packet: Packet, challenge: Seq<u8>) -> (mobike: bool)
    requires
        server.outstanding() == Some(packet.identifier),
        packet.code == eap::code::RESPONSE,
        4 + packet.data.len() < 0x1_0000,
    ensures
        server.turned(eap_part(packet), challenge) == (Server { peer_mobike: mobike, ..server }).answered(
            packet,
            challenge,
        ),
{
    reveal(Server::turned);
    lemma_packet(packet);
    server.peer_mobike || crate::ikev2::mobike::notifies(eap_part(packet), notify_type::MOBIKE_SUPPORTED)
}

/// The first round: the responder greets, the initiator gives its identity.
proof fn lemma_first_round(
    peer: Peer,
    server: Server,
    peer_challenge: Seq<u8>,
    auth_challenge: Seq<u8>,
    rounds: nat,
) -> (out: (Peer, Server))
    requires
        well_met(peer, server),
        rounds > 0,
    ensures
        exchanged(peer, server, peer.opening(), peer_challenge, auth_challenge, rounds) == exchanged(
            out.0,
            out.1,
            eap_part(identity_response(peer)),
            peer_challenge,
            auth_challenge,
            (rounds - 1) as nat,
        ),
        out.0 == peer_identified(peer, server),
        out.1 == (Server {
            peer_child_spi: child::spi_in(sa::proposal_octets(child::sai2_of(peer.offer, peer.child_spi))),
            peer_ts: Some((peer.ts_offer.ts(), peer.ts_offer.ts())),
            peer_idi: peer.id.octets(),
            step: AuthStep::Identity { id: 1 },
            peer_mobike: out.1.peer_mobike,
            ..server
        }),
{
    lemma_greeted(peer, server, peer_challenge, auth_challenge);
    reveal(exchanged);
    let turn = server.turned(peer.opening(), auth_challenge);
    let made = peer.moved(server.greeting(), peer_challenge);
    (made.next, turn.next)
}

/// The second round: the responder challenges, the initiator answers.
proof fn lemma_second_round(
    peer: Peer,
    server: Server,
    peer_challenge: Seq<u8>,
    auth_challenge: Seq<u8>,
    rounds: nat,
) -> (out: (Peer, Server))
    requires
        peer.step is Selecting,
        peer.server_verified,
        peer.last_request matches Some((request, _)) && request.identifier == 1,
        peer.user.len() + 59 < 0x1_0000,
        server.step == (AuthStep::Identity { id: 1 }),
        server.users.contains_key(peer.user),
        server.users[peer.user] == peer.password,
        peer_challenge.len() == 16,
        auth_challenge.len() == 16,
        rounds > 0,
    ensures
        exchanged(
            peer,
            server,
            eap_part(identity_response(peer)),
            peer_challenge,
            auth_challenge,
            rounds,
        ) == exchanged(
            out.0,
            out.1,
            eap_part(challenge_response(out.0.nt_response, peer, peer_challenge)),
            peer_challenge,
            auth_challenge,
            (rounds - 1) as nat,
        ),
        out.0 == (Peer {
            last_request: Some(
                (
                    challenge_request(auth_challenge),
                    challenge_response(out.0.nt_response, peer, peer_challenge),
                ),
            ),
            ..peer.challenged(MSCHAP_ID, auth_challenge, peer_challenge)
        }),
        out.1 == (Server {
            user: peer.user,
            password: peer.password,
            auth_challenge,
            step: AuthStep::Challenge { id: 2 },
            peer_mobike: out.1.peer_mobike,
            ..server
        }),
{
    let turn = lemma_challenge_turn(peer, server, auth_challenge);
    let made = lemma_challenge_move(peer, peer_challenge, auth_challenge);
    reveal(exchanged);
    (made.next, turn.next)
}

proof fn lemma_challenge_turn(peer: Peer, server: Server, auth_challenge: Seq<u8>) -> (turn: Turn)
    requires
        peer.user.len() + 59 < 0x1_0000,
        server.step == (AuthStep::Identity { id: 1 }),
        server.users.contains_key(peer.user),
        server.users[peer.user] == peer.password,
    ensures
        server.turned(eap_part(identity_response(peer)), auth_challenge) == turn,
        turn.says == Ok::<Say, Failure>(Say::Reply(eap_part(challenge_request(auth_challenge)))),
        turn.next == (Server {
            user: peer.user,
            password: peer.password,
            auth_challenge,
            step: AuthStep::Challenge { id: 2 },
            peer_mobike: turn.next.peer_mobike,
            ..server
        }),
{
    let told = identity_response(peer);
    let mobike = lemma_server_hears(server, told, auth_challenge);
    assert(bytes::from(told.data, 1) =~= peer.user);
    (Server { peer_mobike: mobike, ..server }).answered(told, auth_challenge)
}

proof fn lemma_challenge_move(peer: Peer, peer_challenge: Seq<u8>, auth_challenge: Seq<u8>) -> (made: Move)
    requires
        peer.step is Selecting,
        peer.server_verified,
        peer.last_request matches Some((request, _)) && request.identifier == 1,
        auth_challenge.len() == 16,
    ensures
        peer.moved(eap_part(challenge_request(auth_challenge)), peer_challenge) == made,
        made.says == Ok::<Say, Failure>(
            Say::Reply(eap_part(challenge_response(made.next.nt_response, peer, peer_challenge))),
        ),
        made.next == (Peer {
            last_request: Some(
                (
                    challenge_request(auth_challenge),
                    challenge_response(made.next.nt_response, peer, peer_challenge),
                ),
            ),
            ..peer.challenged(MSCHAP_ID, auth_challenge, peer_challenge)
        }),
{
    let asked = challenge_request(auth_challenge);
    assert(asked.data.len() == 26) by {
        broadcast use bytes::group_lengths;
    }
    lemma_hears(peer, asked, peer_challenge);
    eap::law_challenge_round_trip(MSCHAP_ID, auth_challenge, SERVER_NAME@);
    assert(asked.data[0] == eap::eap_type::MSCHAPV2 && asked.data[1] == eap::op::CHALLENGE);
    assert(peer.hearing(asked, peer_challenge) == peer.asked(asked, peer_challenge));
    peer.asked(asked, peer_challenge)
}

/// The third round: the responder proves it knows the password, the initiator
/// acknowledges it.
proof fn lemma_third_round(
    peer: Peer,
    server: Server,
    peer_challenge: Seq<u8>,
    auth_challenge: Seq<u8>,
    rounds: nat,
) -> (out: (Peer, Server))
    requires
        peer.step == (Standing::Answered { mschap_id: MSCHAP_ID, auth_challenge, peer_challenge }),
        peer.server_verified,
        peer.last_request matches Some((request, _)) && request.identifier == 2,
        peer.nt_response == mschapv2::nt_response(auth_challenge, peer_challenge, peer.user, peer.password),
        peer.user.len() + 59 < 0x1_0000,
        server.step == (AuthStep::Challenge { id: 2 }),
        server.user == peer.user,
        server.password == peer.password,
        server.auth_challenge == auth_challenge,
        peer_challenge.len() == 16,
        auth_challenge.len() == 16,
        rounds > 0,
    ensures
        exchanged(
            peer,
            server,
            eap_part(challenge_response(peer.nt_response, peer, peer_challenge)),
            peer_challenge,
            auth_challenge,
            rounds,
        ) == exchanged(
            out.0,
            out.1,
            eap_part(success_response()),
            peer_challenge,
            auth_challenge,
            (rounds - 1) as nat,
        ),
        out.0 == (Peer { last_request: out.0.last_request, step: Standing::ServerProven, ..peer }),
        out.0.last_request matches Some((_, response)) && response.identifier == 3,
        out.1 == (Server {
            nt_response: peer.nt_response,
            step: AuthStep::Success { id: 3 },
            peer_mobike: out.1.peer_mobike,
            ..server
        }),
{
    let turn = lemma_success_turn(peer, server, peer_challenge, auth_challenge);
    let made = lemma_success_move(peer, peer_challenge, auth_challenge);
    reveal(exchanged);
    (made.next, turn.next)
}

proof fn lemma_success_turn(peer: Peer, server: Server, peer_challenge: Seq<u8>, auth_challenge: Seq<u8>) -> (turn:
    Turn)
    requires
        peer.nt_response == mschapv2::nt_response(auth_challenge, peer_challenge, peer.user, peer.password),
        peer.user.len() + 59 < 0x1_0000,
        server.step == (AuthStep::Challenge { id: 2 }),
        server.user == peer.user,
        server.password == peer.password,
        server.auth_challenge == auth_challenge,
        peer_challenge.len() == 16,
    ensures
        server.turned(eap_part(challenge_response(peer.nt_response, peer, peer_challenge)), auth_challenge) == turn,
        turn.says == Ok::<Say, Failure>(
            Say::Reply(eap_part(success_request(peer.nt_response, peer, peer_challenge, auth_challenge))),
        ),
        turn.next == (Server {
            nt_response: peer.nt_response,
            step: AuthStep::Success { id: 3 },
            peer_mobike: turn.next.peer_mobike,
            ..server
        }),
{
    let nt = peer.nt_response;
    let told = challenge_response(nt, peer, peer_challenge);
    assert(nt.len() == 24);
    assert(told.data.len() == 55 + peer.user.len()) by {
        broadcast use bytes::group_lengths;
    }
    let mobike = lemma_server_hears(server, told, auth_challenge);
    let heard = Server { peer_mobike: mobike, ..server };
    eap::law_response_round_trip(MSCHAP_ID, peer_challenge, nt, peer.user);
    let resp = Responded { mschap_id: MSCHAP_ID, peer_challenge, nt_response: nt, name: peer.user };
    assert(told.data[0] == eap::eap_type::MSCHAPV2 && told.data[1] == eap::op::RESPONSE);
    assert(heard.answered(told, auth_challenge) == heard.weighing(resp, 3));
    heard.weighing(resp, 3)
}

proof fn lemma_success_move(peer: Peer, peer_challenge: Seq<u8>, auth_challenge: Seq<u8>) -> (made: Move)
    requires
        peer.step == (Standing::Answered { mschap_id: MSCHAP_ID, auth_challenge, peer_challenge }),
        peer.server_verified,
        peer.last_request matches Some((request, _)) && request.identifier == 2,
    ensures
        peer.moved(
            eap_part(success_request(peer.nt_response, peer, peer_challenge, auth_challenge)),
            peer_challenge,
        ) == made,
        made.says == Ok::<Say, Failure>(Say::Reply(eap_part(success_response()))),
        made.next == (Peer { last_request: made.next.last_request, step: Standing::ServerProven, ..peer }),
        made.next.last_request matches Some((_, response)) && response.identifier == 3,
{
    let nt = peer.nt_response;
    let asked = success_request(nt, peer, peer_challenge, auth_challenge);
    let shown = mschapv2::server_proof(peer.password, nt, peer_challenge, auth_challenge, peer.user);
    assert(shown.len() == 20);
    eap::law_success_round_trip(MSCHAP_ID, shown);
    assert(asked.data[0] == eap::eap_type::MSCHAPV2 && asked.data[1] == eap::op::SUCCESS && asked.data[2]
        == MSCHAP_ID);
    assert(peer.proven(asked.data));
    lemma_hears(peer, asked, peer_challenge);
    assert(peer.hearing(asked, peer_challenge) == peer.asked(asked, peer_challenge));
    peer.asked(asked, peer_challenge)
}

/// The fourth round: the responder sends EAP-Success, the initiator its AUTH.
proof fn lemma_fourth_round(
    peer: Peer,
    server: Server,
    peer_challenge: Seq<u8>,
    auth_challenge: Seq<u8>,
    rounds: nat,
) -> (out: (Peer, Server))
    requires
        peer.step is ServerProven,
        peer.server_verified,
        peer.last_request matches Some((_, response)) && response.identifier == 3,
        server.step == (AuthStep::Success { id: 3 }),
        rounds > 0,
    ensures
        exchanged(
            peer,
            server,
            eap_part(success_response()),
            peer_challenge,
            auth_challenge,
            rounds,
        ) == exchanged(
            out.0,
            out.1,
            seq![(PayloadType::Authentication, peer.own_auth().octets())],
            peer_challenge,
            auth_challenge,
            (rounds - 1) as nat,
        ),
        out.0 == (Peer { step: Standing::AuthSent, ..peer }),
        out.1 == (Server { step: AuthStep::Succeeded, peer_mobike: out.1.peer_mobike, ..server }),
{
    let mobike = lemma_server_hears(server, success_response(), auth_challenge);
    let turn = (Server { peer_mobike: mobike, ..server }).answered(success_response(), auth_challenge);
    assert(turn.says == Ok::<Say, Failure>(Say::Reply(eap_part(eap_success()))));
    lemma_hears(peer, eap_success(), peer_challenge);
    let made = peer.hearing(eap_success(), peer_challenge);
    assert(peer.succeeds(eap_success()));
    reveal(exchanged);
    (made.next, turn.next)
}

/// The last round: each confirms the key to the other.
proof fn lemma_last_round(
    peer: Peer,
    server: Server,
    peer_challenge: Seq<u8>,
    auth_challenge: Seq<u8>,
    rounds: nat,
)
    requires
        peer.sa.agrees_with(server.sa),
        peer.step is AuthSent,
        peer.server_verified,
        peer.server_idr == server.id.octets(),
        server.step is Succeeded,
        server.peer_idi == peer.id.octets(),
        server.user == peer.user,
        server.password == peer.password,
        server.nt_response == peer.nt_response,
        server.peer_ts == Some((peer.ts_offer.ts(), peer.ts_offer.ts())),
        server.peer_child_spi == child::spi_in(sa::proposal_octets(child::sai2_of(peer.offer, peer.child_spi))),
        takes_default(peer.offer),
        of_ipv4(server.assigned),
    ensures
        ({
            let parts = seq![(PayloadType::Authentication, peer.own_auth().octets())];
            let (made, turn) = exchanged(peer, server, parts, peer_challenge, auth_challenge, rounds);
            concluded(made, turn, peer, server, server.narrowed())
        }),
{
    lemma_confirmed(peer, server, peer_challenge, auth_challenge);
    reveal(exchanged);
}

/// What the last round comes to for the initiator: the CHILD SA, or the reason
/// there is none.
pub open spec fn concluded(
    made: Move,
    turn: Turn,
    peer: Peer,
    server: Server,
    child: Result<(Seq<Selector>, Seq<Selector>), Failure>,
) -> bool {
    &&& turn.says matches Ok(Say::Established(Some(_)))
    &&& turn.next.user == peer.user
    &&& turn.next.step == AuthStep::Done
    &&& match child {
        Ok((_, tsr)) => {
            &&& made.says == Ok::<Say, Failure>(Say::Established(None))
            &&& made.next.peer_child_spi == Some(server.child_spi)
            &&& made.next.peer_esp_suite == negotiate::esp_suite_of(seq![child::gcm256(), child::no_esn()])
            &&& made.next.granted_ts == Some(tsr)
            &&& server.assigned is Some ==> made.next.assigned_ip4 == assigned_ip(server.assigned)
            &&& turn.next.peer_child_spi == child::spi_in(
                sa::proposal_octets(child::sai2_of(peer.offer, peer.child_spi)),
            )
        },
        Err(_) => {
            &&& made.says == Err::<Say, Failure>(
                Failure::PeerRejected {
                    notify_type: notify_type::TS_UNACCEPTABLE,
                    name: notify_type::name(notify_type::TS_UNACCEPTABLE),
                },
            )
            &&& turn.next.peer_child_spi is None
        },
    }
}

/// The last round: each confirms the key to the other.
proof fn lemma_confirmed(peer: Peer, server: Server, peer_challenge: Seq<u8>, auth_challenge: Seq<u8>)
    requires
        peer.sa.agrees_with(server.sa),
        peer.step is AuthSent,
        peer.server_verified,
        peer.server_idr == server.id.octets(),
        server.step is Succeeded,
        server.peer_idi == peer.id.octets(),
        server.user == peer.user,
        server.password == peer.password,
        server.nt_response == peer.nt_response,
        server.peer_ts == Some((peer.ts_offer.ts(), peer.ts_offer.ts())),
        server.peer_child_spi == child::spi_in(sa::proposal_octets(child::sai2_of(peer.offer, peer.child_spi))),
        takes_default(peer.offer),
        of_ipv4(server.assigned),
    ensures
        ({
            let turn = server.turned(
                seq![(PayloadType::Authentication, peer.own_auth().octets())],
                auth_challenge,
            );
            &&& turn.says matches Ok(Say::Established(Some(parts)))
            &&& concluded(peer.moved(parts, peer_challenge), turn, peer, server, server.narrowed())
        }),
{
    reveal(Server::turned);
    let list = seq![(PayloadType::Authentication, peer.own_auth().octets())];
    lemma_found_one(PayloadType::Authentication, peer.own_auth().octets(), PayloadType::Eap);
    lemma_found_one(PayloadType::Authentication, peer.own_auth().octets(), PayloadType::Authentication);
    identity::law_authentication_round_trip(peer.own_auth());
    assert(peer.own_auth() == server.expected_auth());
    assert(server.own_auth() == peer.expected_auth());
    identity::law_authentication_round_trip(server.own_auth());
    let told = Server { peer_mobike: server.turned(list, auth_challenge).next.peer_mobike, ..server };
    assert(told.expected_auth() == server.expected_auth());
    assert(told.narrowed() == server.narrowed());
    assert(told.own_auth() == server.own_auth());
    let policy = child::client_policy(assigned_ip(server.assigned))[0];
    assert(child::client_policy(assigned_ip(server.assigned)) =~= seq![policy]);
    auth_laws::lemma_narrowed_reads_back(peer.ts_offer, policy);
    auth_laws::lemma_narrowed_reads_back(peer.ts_offer, Selector::ipv4_any());
    assert(peer.server_idr.len() > 0);
    match server.narrowed() {
        Ok((tsi, tsr)) => {
            let child = Some((tsi, tsr));
            assert(server.turned(list, auth_challenge).says == Ok::<Say, Failure>(
                Say::Established(Some(told.final_parts(child))),
            ));
            lemma_final_taken(peer, told, tsi, tsr, peer_challenge);
        },
        Err(_) => {
            let without = Server { peer_child_spi: None, ..told };
            assert(server.turned(list, auth_challenge).says == Ok::<Say, Failure>(
                Say::Established(Some(without.final_parts(None))),
            ));
            assert(without.own_auth() == server.own_auth());
            lemma_refusal_taken(peer, without, peer_challenge);
        },
    }
}

/// Whether an initiator with this offer takes AES-GCM-16/256 without ESN.
pub open spec fn takes_default(offer: Seq<Offered>) -> bool {
    negotiate::esp_suite_of(seq![child::gcm256(), child::no_esn()]) matches Some(suite) ==> suite.within(offer)
}

proof fn lemma_final_taken(
    peer: Peer,
    server: Server,
    tsi: Seq<Selector>,
    tsr: Seq<Selector>,
    peer_challenge: Seq<u8>,
)
    requires
        peer.step is AuthSent,
        peer.server_verified,
        peer.server_idr.len() > 0,
        server.own_auth() == peer.expected_auth(),
        takes_default(peer.offer),
        of_ipv4(server.assigned),
        ts::read(ts::octets(tsi)) == Ok::<Seq<Selector>, Failure>(tsi),
        ts::read(ts::octets(tsr)) == Ok::<Seq<Selector>, Failure>(tsr),
        ts::all_within(tsi, peer.ts_offer.ts()),
        ts::all_within(tsr, peer.ts_offer.ts()),
    ensures
        ({
            let made = peer.moved(server.final_parts(Some((tsi, tsr))), peer_challenge);
            &&& made.says == Ok::<Say, Failure>(Say::Established(None))
            &&& made.next.peer_child_spi == Some(server.child_spi)
            &&& made.next.peer_esp_suite == negotiate::esp_suite_of(seq![child::gcm256(), child::no_esn()])
            &&& made.next.granted_ts == Some(tsr)
            &&& server.assigned is Some ==> made.next.assigned_ip4 == assigned_ip(server.assigned)
        }),
{
    reveal(Peer::moved);
    let child = Some((tsi, tsr));
    lemma_found_final(server, child, PayloadType::IdResponder);
    lemma_found_final(server, child, PayloadType::Authentication);
    lemma_found_final(server, child, PayloadType::Eap);
    lemma_found_final(server, child, PayloadType::SecurityAssociation);
    lemma_found_final(server, child, PayloadType::TrafficSelectorInitiator);
    lemma_found_final(server, child, PayloadType::TrafficSelectorResponder);
    lemma_found_final(server, child, PayloadType::Configuration);
    identity::law_authentication_round_trip(server.own_auth());
    lemma_default_answer(server.child_spi);
    if let Some(assigned) = server.assigned {
        auth_laws::lemma_reply(assigned);
    }
    let list = server.final_parts(child);
    assert(Peer { server_verified: peer.server_verified || peer.to_check(list), ..peer } == peer);
}

proof fn lemma_refusal_taken(peer: Peer, server: Server, peer_challenge: Seq<u8>)
    requires
        peer.step is AuthSent,
        peer.server_verified,
        peer.server_idr.len() > 0,
        server.own_auth() == peer.expected_auth(),
    ensures
        peer.moved(server.final_parts(None), peer_challenge).says == Err::<Say, Failure>(
            Failure::PeerRejected {
                notify_type: notify_type::TS_UNACCEPTABLE,
                name: notify_type::name(notify_type::TS_UNACCEPTABLE),
            },
        ),
{
    reveal(Peer::moved);
    lemma_found_final(server, None, PayloadType::IdResponder);
    lemma_found_final(server, None, PayloadType::Authentication);
    lemma_found_final(server, None, PayloadType::Eap);
    lemma_found_final(server, None, PayloadType::SecurityAssociation);
    identity::law_authentication_round_trip(server.own_auth());
    auth_laws::lemma_bare_notice(notify_type::TS_UNACCEPTABLE);
    let list = server.final_parts(None);
    assert(list[0].0 == PayloadType::IdResponder);
    assert(list[1].0 == PayloadType::Authentication);
    assert(list[2] == (PayloadType::Notify, bare_notice(notify_type::TS_UNACCEPTABLE).octets()));
    assert(child::child_error_of(list[2].1) == Some(notify_type::TS_UNACCEPTABLE));
    reveal_with_fuel(refused, 4);
    assert(Peer { server_verified: peer.server_verified || peer.to_check(list), ..peer } == peer);
}

/// Two ends that came to the same SA and share a password complete the exchange:
/// from the initiator's first message on, each takes what the other says, until the
/// responder has established the SA, and the initiator with it: with the CHILD SA
/// they agreed on, or the reason there is none.
pub proof fn law_exchange_completes(
    peer: Peer,
    server: Server,
    peer_challenge: Seq<u8>,
    auth_challenge: Seq<u8>,
)
    requires
        well_met(peer, server),
        takes_default(peer.offer),
        of_ipv4(server.assigned),
        peer_challenge.len() == 16,
        auth_challenge.len() == 16,
    ensures
        ({
            let (made, turn) = exchanged(peer, server, peer.opening(), peer_challenge, auth_challenge, 4);
            let asked = Server { peer_ts: Some((peer.ts_offer.ts(), peer.ts_offer.ts())), ..server };
            concluded(made, turn, peer, server, asked.narrowed())
        }),
{
    let (p1, s1) = lemma_first_round(peer, server, peer_challenge, auth_challenge, 4);
    assert(identity_response(p1) == identity_response(peer));
    let (p2, s2) = lemma_second_round(p1, s1, peer_challenge, auth_challenge, 3);
    assert(challenge_response(p2.nt_response, p1, peer_challenge) == challenge_response(
        p2.nt_response,
        p2,
        peer_challenge,
    ));
    let (p3, s3) = lemma_third_round(p2, s2, peer_challenge, auth_challenge, 2);
    let (p4, s4) = lemma_fourth_round(p3, s3, peer_challenge, auth_challenge, 1);
    assert(p4.own_auth() == p3.own_auth());
    lemma_last_round(p4, s4, peer_challenge, auth_challenge, 0);
}

} // verus!
