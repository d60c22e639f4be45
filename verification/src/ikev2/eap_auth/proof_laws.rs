//! What the two ends of the EAP exchange say and accept, written out over the octets of
//! the packets and the HMACs that prove who sends them.

use vstd::prelude::*;

use crate::bytes;
use crate::crypto::hash;
use crate::error::Failure;
use crate::ikev2::eap;
use crate::ikev2::eap::{Packet, Responded};
use crate::ikev2::eap_auth::initiator::{following, Peer, Standing};
use crate::ikev2::eap_auth::responder::{next_identifier, AuthStep, Server};
use crate::ikev2::eap_auth::{found, found_from, goes_out, Say, Trust};
use crate::ikev2::exchange::Completed;
use crate::ikev2::ike_auth::{Claim, Prover};
use crate::ikev2::key_laws;
use crate::ikev2::key_laws::psk_mac;
use crate::ikev2::message::PayloadType;
use crate::ikev2::mschapv2;
use crate::ikev2::mschapv2_laws;
use crate::ikev2::payload::identity::Proof;

verus! {

/// What the initiator signs: its first message, the responder's nonce, and HMAC under
/// SK_pi over its ID.
pub open spec fn signed_by_initiator(sa: Completed, id: Seq<u8>) -> Seq<u8> {
    sa.init_message + sa.nr + hash::hmac_of(sa.suite.prf().base(), sa.keys.sk_pi, id)
}

/// What the responder signs: its first message, the initiator's nonce, and HMAC under
/// SK_pr over its ID.
pub open spec fn signed_by_responder(sa: Completed, id: Seq<u8>) -> Seq<u8> {
    sa.resp_message + sa.ni + hash::hmac_of(sa.suite.prf().base(), sa.keys.sk_pr, id)
}

/// Whether the body of an AUTH payload is of method 2 with this value.
pub open spec fn is_mac(body: Seq<u8>, value: Seq<u8>) -> bool {
    body.len() >= 4 && body[0] == 2 && body.subrange(4, body.len() as int) == value
}

/// The payload found of a type is the first of it.
pub proof fn law_found_is_the_first(list: Seq<(PayloadType, Seq<u8>)>, want: PayloadType)
    ensures
        match found(list, want) {
            Some(body) => exists|i: int|
                0 <= i < list.len() && #[trigger] list[i] == (want, body) && forall|j: int|
                    0 <= j < i ==> (#[trigger] list[j]).0 != want,
            None => forall|j: int| 0 <= j < list.len() ==> (#[trigger] list[j]).0 != want,
        },
{
    lemma_found_from(list, want, 0);
}

proof fn lemma_found_from(list: Seq<(PayloadType, Seq<u8>)>, want: PayloadType, from: int)
    requires
        0 <= from <= list.len(),
    ensures
        match found_from(list, want, from) {
            Some(body) => exists|i: int|
                from <= i < list.len() && #[trigger] list[i] == (want, body) && forall|j: int|
                    from <= j < i ==> (#[trigger] list[j]).0 != want,
            None => forall|j: int| from <= j < list.len() ==> (#[trigger] list[j]).0 != want,
        },
    decreases list.len() - from,
{
    if from < list.len() {
        lemma_found_from(list, want, from + 1);
        if list[from].0 == want {
            assert(list[from] == (want, list[from].1));
        }
    }
}

/// An initiator takes the exchange for established only once it sent its own AUTH, and
/// only on an AUTH of method 2: HMAC keyed through the MSK over what the responder signs
/// with the ID it first gave. The MSK is that of its password and of the NT-Response it
/// sent.
pub proof fn law_initiator_establishes_on_proof(
    peer: Peer,
    list: Seq<(PayloadType, Seq<u8>)>,
    challenge: Seq<u8>,
)
    requires
        peer.moved(list, challenge).says matches Ok(Say::Established(_)),
    ensures
        ({
            let idr = if peer.server_idr.len() == 0 && found(list, PayloadType::IdResponder) is Some {
                found(list, PayloadType::IdResponder)->0
            } else {
                peer.server_idr
            };
            &&& peer.step is AuthSent
            &&& found(list, PayloadType::Eap) is None
            &&& found(list, PayloadType::Authentication) matches Some(body) && is_mac(
                body,
                psk_mac(
                    peer.sa.suite.prf(),
                    mschapv2::msk_of(peer.password, peer.nt_response),
                    signed_by_responder(peer.sa, idr),
                ),
            )
            &&& found(list, PayloadType::SecurityAssociation) is Some
            &&& peer.verify is Insecure || peer.server_verified || peer.noting(list).trusts(list)
        }),
{
    reveal(Peer::moved);
    let noted = peer.noting(list);
    key_laws::law_psk_auth(
        peer.sa.suite.prf(),
        mschapv2::msk_of(peer.password, peer.nt_response),
        signed_by_responder(peer.sa, noted.server_idr),
    );
    key_laws::law_signed_octets(peer.sa, noted.server_idr);
}

/// A server that is to know a pre-shared key is trusted exactly where its AUTH is of
/// method 2: HMAC keyed through that key over what the responder signs with the ID in the
/// same message. One with a certificate is, where the claim that was vouched for is the
/// one it makes over those octets, by method 1, 9 or 14.
pub proof fn law_server_is_trusted_by_its_proof(peer: Peer, list: Seq<(PayloadType, Seq<u8>)>, psk: Seq<u8>)
    requires
        found(list, PayloadType::IdResponder) is Some,
        found(list, PayloadType::Authentication) is Some,
    ensures
        ({
            let idr = found(list, PayloadType::IdResponder)->0;
            let body = found(list, PayloadType::Authentication)->0;
            let octets = signed_by_responder(peer.sa, idr);
            &&& peer.verify == Trust::Psk(psk) ==> (peer.trusts(list) <==> is_mac(
                body,
                psk_mac(peer.sa.suite.prf(), psk, octets),
            ))
            &&& peer.verify matches Trust::TrustedCas { vouched, .. } ==> (peer.trusts(list) ==> {
                &&& vouched matches Some(claim) && claim.octets == octets && claim.certs.len() > 0 && (claim.auth.method
                    == 1 || claim.auth.method == 9 || claim.auth.method == 14)
                &&& body.len() >= 4 && vouched->0.auth == (Proof {
                    method: body[0],
                    data: body.subrange(4, body.len() as int),
                })
            })
        }),
{
    let idr = found(list, PayloadType::IdResponder)->0;
    key_laws::law_psk_auth(peer.sa.suite.prf(), psk, signed_by_responder(peer.sa, idr));
    key_laws::law_signed_octets(peer.sa, idr);
}

/// Once the server proved that it knows the password, an EAP-Success with the Identifier
/// of our last Response and no data is answered with our AUTH of method 2: HMAC keyed
/// through the MSK over what the initiator signs.
pub proof fn law_initiator_proves_itself(
    peer: Peer,
    list: Seq<(PayloadType, Seq<u8>)>,
    challenge: Seq<u8>,
    body: Seq<u8>,
    request: Packet,
    response: Packet,
)
    requires
        found(list, PayloadType::Eap) == Some(body),
        found(list, PayloadType::IdResponder) is None,
        peer.server_verified || peer.verify is Insecure,
        peer.step is ServerProven,
        peer.last_request == Some((request, response)),
        body == seq![3u8, response.identifier, 0u8, 4u8],
    ensures
        ({
            let made = peer.moved(list, challenge);
            let id = seq![peer.id.id_type, 0u8, 0u8, 0u8] + peer.id.data;
            &&& made.next.step is AuthSent
            &&& made.says == Ok::<Say, Failure>(
                Say::Reply(
                    seq![
                        (
                            PayloadType::Authentication,
                            seq![2u8, 0u8, 0u8, 0u8] + psk_mac(
                                peer.sa.suite.prf(),
                                mschapv2::msk_of(peer.password, peer.nt_response),
                                signed_by_initiator(peer.sa, id),
                            ),
                        ),
                    ],
                ),
            )
        }),
{
    reveal(Peer::moved);
    let id = seq![peer.id.id_type, 0u8, 0u8, 0u8] + peer.id.data;
    assert(peer.id.octets() == id);
    key_laws::law_psk_auth(
        peer.sa.suite.prf(),
        mschapv2::msk_of(peer.password, peer.nt_response),
        signed_by_initiator(peer.sa, id),
    );
    key_laws::law_signed_octets(peer.sa, id);
    let packet = Packet { code: 3, identifier: response.identifier, data: Seq::empty() };
    assert(body.subrange(4, 4) =~= Seq::<u8>::empty());
    assert(Packet::read(body) == Ok::<Packet, Failure>(packet));
    let checked = Peer { server_verified: peer.server_verified || peer.to_check(list), ..peer };
    assert(peer.noting(list) == peer);
    assert(checked.own_auth() == peer.own_auth());
}

/// What a new Request is answered with while no method has begun: the identity with the
/// user name, a Challenge with a Response to it, another method with a Nak that names 26;
/// a notification is always answered bare. Anything else ends the exchange.
pub proof fn law_initiator_answers_by_type(peer: Peer, packet: Packet, challenge: Seq<u8>)
    requires
        packet.data.len() > 0,
        peer.step is Selecting,
    ensures
        ({
            let kind = packet.data[0];
            let says = |data: Seq<u8>|
                peer.asked(packet, challenge).says == Ok::<Say, Failure>(
                    Say::Reply(
                        seq![
                            (
                                PayloadType::Eap,
                                Packet { code: 2, identifier: packet.identifier, data }.octets(),
                            ),
                        ],
                    ),
                );
            &&& kind == 1 ==> says(seq![1u8] + peer.user) && peer.asked(packet, challenge).next.step is Selecting
            &&& kind == 2 ==> says(seq![2u8]) && peer.asked(packet, challenge).next.step is Selecting
            &&& kind > 3 && kind != 26 ==> says(seq![3u8, 26u8]) && peer.asked(packet, challenge).next.step is Selecting
            &&& kind == 26 && packet.data.len() >= 22 && packet.data[1] == 1 && packet.data[3] * 256 + packet.data[4]
                == packet.data.len() - 1 && packet.data[5] == 16 ==> {
                let auth_challenge = packet.data.subrange(6, 22);
                let nt = mschapv2::nt_response(auth_challenge, challenge, peer.user, peer.password);
                &&& says(eap::response_data(packet.data[2], challenge, nt, peer.user))
                &&& peer.asked(packet, challenge).next.nt_response == nt
                &&& peer.asked(packet, challenge).next.step == (Standing::Answered {
                    mschap_id: packet.data[2],
                    auth_challenge,
                    peer_challenge: challenge,
                })
            }
            &&& kind == 0 || kind == 3 ==> peer.asked(packet, challenge).says == Ok::<Say, Failure>(Say::Failed(None))
        }),
{
    mschapv2_laws::law_eap_packet_layout(packet, packet.data);
}

/// The server has proved that it knows the password only by a Success Request under the
/// MS-CHAPv2-ID of its Challenge that holds the authenticator response to our Response;
/// it is acknowledged with type 26 and opcode 3.
pub proof fn law_initiator_takes_the_server_for_proven(
    peer: Peer,
    packet: Packet,
    challenge: Seq<u8>,
    mschap_id: u8,
    auth_challenge: Seq<u8>,
    peer_challenge: Seq<u8>,
)
    requires
        peer.step == (Standing::Answered { mschap_id, auth_challenge, peer_challenge }),
        packet.data.len() > 1,
        packet.data[0] == 26,
    ensures
        ({
            let expected = mschapv2::server_proof(
                peer.password,
                peer.nt_response,
                peer_challenge,
                auth_challenge,
                peer.user,
            );
            let proven = packet.data[1] == 3 && eap::read_success(packet.data) == Ok::<Seq<u8>, Failure>(expected)
                && packet.data[2] == mschap_id;
            let made = peer.asked(packet, challenge);
            &&& made.next.step is ServerProven <==> proven
            &&& proven ==> made.says == Ok::<Say, Failure>(
                Say::Reply(
                    seq![
                        (
                            PayloadType::Eap,
                            Packet { code: 2, identifier: packet.identifier, data: seq![26u8, 3u8] }.octets(),
                        ),
                    ],
                ),
            )
            &&& !proven ==> !goes_out(made.says)
        }),
{
    mschapv2_laws::law_eap_packet_layout(packet, packet.data);
}

/// The first answer of a responder with a pre-shared key: its ID, its AUTH of method 2
/// over what it signs, and a Request for the identity with the Identifier 1.
pub proof fn law_responder_greets(server: Server, psk: Seq<u8>)
    requires
        server.auth == Prover::Psk(psk),
    ensures
        ({
            let id = seq![server.id.id_type, 0u8, 0u8, 0u8] + server.id.data;
            server.greeting() == seq![
                (PayloadType::IdResponder, id),
                (
                    PayloadType::Authentication,
                    seq![2u8, 0u8, 0u8, 0u8] + psk_mac(server.sa.suite.prf(), psk, signed_by_responder(server.sa, id)),
                ),
                (PayloadType::Eap, seq![1u8, 1u8, 0u8, 5u8, 1u8]),
            ]
        }),
{
    let id = seq![server.id.id_type, 0u8, 0u8, 0u8] + server.id.data;
    key_laws::law_psk_auth(server.sa.suite.prf(), psk, signed_by_responder(server.sa, id));
    key_laws::law_signed_octets(server.sa, id);
    assert(crate::ikev2::eap_auth::responder::identity_request(1).octets() =~= seq![1u8, 1u8, 0u8, 5u8, 1u8]);
    assert(server.greeting() =~= seq![
        (PayloadType::IdResponder, id),
        (
            PayloadType::Authentication,
            seq![2u8, 0u8, 0u8, 0u8] + psk_mac(server.sa.suite.prf(), psk, signed_by_responder(server.sa, id)),
        ),
        (PayloadType::Eap, seq![1u8, 1u8, 0u8, 5u8, 1u8]),
    ]);
}

/// A responder establishes the SA only once EAP succeeded, and only on an AUTH of method
/// 2: HMAC keyed through the MSK over what the initiator signs with the ID it first gave.
/// It answers with its ID and its own AUTH, keyed through the same MSK over what it signs
/// itself.
pub proof fn law_responder_establishes_on_proof(
    server: Server,
    list: Seq<(PayloadType, Seq<u8>)>,
    challenge: Seq<u8>,
)
    requires
        server.turned(list, challenge).says matches Ok(Say::Established(_)),
    ensures
        ({
            let turn = server.turned(list, challenge);
            let msk = mschapv2::msk_of(server.password, server.nt_response);
            let id = seq![server.id.id_type, 0u8, 0u8, 0u8] + server.id.data;
            &&& server.step == AuthStep::Succeeded
            &&& found(list, PayloadType::Eap) is None
            &&& found(list, PayloadType::Authentication) matches Some(body) && is_mac(
                body,
                psk_mac(server.sa.suite.prf(), msk, signed_by_initiator(server.sa, server.peer_idi)),
            )
            &&& turn.says->Ok_0->Established_0 matches Some(parts) && parts[0] == (PayloadType::IdResponder, id)
                && parts[1] == (
                PayloadType::Authentication,
                seq![2u8, 0u8, 0u8, 0u8] + psk_mac(server.sa.suite.prf(), msk, signed_by_responder(server.sa, id)),
            )
        }),
{
    reveal(Server::turned);
    let msk = mschapv2::msk_of(server.password, server.nt_response);
    let id = seq![server.id.id_type, 0u8, 0u8, 0u8] + server.id.data;
    key_laws::law_psk_auth(server.sa.suite.prf(), msk, signed_by_initiator(server.sa, server.peer_idi));
    key_laws::law_psk_auth(server.sa.suite.prf(), msk, signed_by_responder(server.sa, id));
    key_laws::law_signed_octets(server.sa, server.peer_idi);
    key_laws::law_signed_octets(server.sa, id);
}

/// How the responder follows its own Requests, each under the Identifier after the last:
/// the identity of a known user with a Challenge of its own, under that user's password;
/// the right Response with the authenticator response; its acknowledgement with an
/// EAP-Success under the same Identifier. Anyone else is refused.
pub proof fn law_responder_answers_by_step(server: Server, packet: Packet, challenge: Seq<u8>)
    ensures
        ({
            let turn = server.answered(packet, challenge);
            let after = if packet.identifier == 255 {
                0u8
            } else {
                (packet.identifier + 1) as u8
            };
            let says = |code: u8, identifier: u8, data: Seq<u8>|
                turn.says == Ok::<Say, Failure>(
                    Say::Reply(seq![(PayloadType::Eap, Packet { code, identifier, data }.octets())]),
                );
            let ended = turn.says == Ok::<Say, Failure>(Say::Failed(None)) && turn.kept.step == AuthStep::Done;
            &&& server.step is Identity ==> {
                let claimed = packet.data.subrange(1, packet.data.len() as int);
                let known = packet.data.len() > 0 && packet.data[0] == 1 && server.users.contains_key(claimed);
                &&& known ==> {
                    &&& says(1, after, eap::challenge_data(1, challenge, mschapv2_laws::ascii("ryke"@)))
                    &&& turn.next.user == claimed && turn.next.password == server.users[claimed]
                    &&& turn.next.auth_challenge == challenge && turn.next.step == (AuthStep::Challenge { id: after })
                }
                &&& !known ==> ended
            }
            &&& server.step is Challenge && packet.data.len() > 1 && packet.data[0] == 26 && packet.data[1] == 2
                && Responded::read(packet.data) is Ok ==> {
                let peer_challenge = packet.data.subrange(6, 22);
                let expected = mschapv2::nt_response(
                    server.auth_challenge,
                    peer_challenge,
                    server.user,
                    server.password,
                );
                let right = packet.data[2] == 1 && packet.data.subrange(30, 54) == expected;
                &&& right ==> {
                    &&& says(
                        1,
                        after,
                        eap::success_data(
                            1,
                            mschapv2::server_text(
                                server.password,
                                expected,
                                peer_challenge,
                                server.auth_challenge,
                                server.user,
                            ),
                        ),
                    )
                    &&& turn.next.nt_response == expected && turn.next.step == (AuthStep::Success { id: after })
                }
                &&& !right ==> ended
            }
            &&& server.step is Success ==> {
                let acknowledged = packet.data.len() > 1 && packet.data[0] == 26 && packet.data[1] == 3;
                &&& acknowledged ==> says(3, packet.identifier, Seq::empty()) && turn.next.step == AuthStep::Succeeded
                &&& !acknowledged ==> ended
            }
        }),
{
    reveal_strlit("ryke");
    assert(crate::ikev2::eap_auth::responder::SERVER_NAME@ =~= mschapv2_laws::ascii("ryke"@));
    mschapv2_laws::law_eap_packet_layout(packet, packet.data);
}

/// An EAP packet is heard by a responder only as a Response (2) under the Identifier of
/// its outstanding Request, in a message without AUTH.
pub proof fn law_responder_hears_only_answers(server: Server, body: Seq<u8>, with_auth: bool, challenge: Seq<u8>)
    requires
        goes_out(server.hearing(body, with_auth, challenge).says),
    ensures
        !with_auth,
        body.len() >= 4,
        body[0] == 2,
        server.step == (AuthStep::Identity { id: body[1] }) || server.step == (AuthStep::Challenge { id: body[1] })
            || server.step == (AuthStep::Success { id: body[1] }),
        server.hearing(body, with_auth, challenge) == server.answered(
            Packet { code: 2, identifier: body[1], data: body.subrange(4, body[2] * 256 + body[3]) },
            challenge,
        ),
{
    mschapv2_laws::law_eap_packet_layout(Packet { code: 0, identifier: 0, data: Seq::empty() }, body);
}

/// An initiator's answer goes out under the Message ID after the one it answers, counted
/// modulo 2^32; a responder's under the same one.
pub proof fn law_message_ids_count_on(message_id: u32, id: u8)
    ensures
        following(message_id) == (message_id + 1) % 0x1_0000_0000,
        next_identifier(id) == (id + 1) % 0x100,
{
}

} // verus!
