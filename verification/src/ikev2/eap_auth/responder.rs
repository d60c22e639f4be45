//! The EAP-MSCHAPv2 responder (server).

use vstd::prelude::*;

use crate::bytes;
use crate::entropy::Entropy;
use crate::error::{viewed, viewed_option, Failure, IkeError};
use crate::ikev2::child;
use crate::ikev2::child::{assigned_ipv4_policy, esp_offer, esp_spi_from_sa, narrow_requested_ts};
use crate::ikev2::eap;
use crate::ikev2::eap::{EapPacket, Packet, Responded};
use crate::ikev2::eap_auth::initiator::eap_part;
use crate::ikev2::eap_auth::{
    decrypt, find, found, goes_out, received, say, told, Drawn, EapEvent, Event, Say, ServerAuth, Unasked,
};
use crate::ikev2::exchange::{Completed, CompletedSaInit};
use crate::ikev2::ike_auth::{
    add_certs, add_part, assigned_ip, initiator_octets, ip_of, mobike_part, octets_of_initiator, octets_of_responder,
    psk_auth_payload, psk_proof, refuse_child, reply_part, responder_octets, starting, verify_psk, viewed_assigned,
    Assigned, AssignedConfig, Prover,
};
use crate::ikev2::message;
use crate::ikev2::message::{IkeHeader, PayloadType};
use crate::ikev2::mobike;
use crate::ikev2::mobike::bare_notice;
use crate::ikev2::mschapv2;
use crate::ikev2::payload::identity::{Identity, Proof};
use crate::ikev2::payload::sa;
use crate::ikev2::payload::ts;
use crate::ikev2::payload::ts::Selector;
use crate::ikev2::payload::{notify_type, Authentication, Identification, TrafficSelectors};

verus! {

broadcast use crate::bytes::group_lengths;

/// Where an [`EapResponder`]'s exchange stands: what it takes next and, while
/// EAP runs, the Identifier of the Request it has outstanding.
#[derive(Debug, Clone, Copy, PartialEq, Eq, Structural)]
pub enum AuthStep {
    /// The initiator's first `IKE_AUTH` request: no AUTH, no EAP.
    Start,
    /// The Identity Response.
    Identity { id: u8 },
    /// The MSCHAPv2 Response to our Challenge.
    Challenge { id: u8 },
    /// The MSCHAPv2 Success Response acknowledging our Success Request.
    Success { id: u8 },
    /// We sent EAP-Success: the initiator's MSK-keyed AUTH.
    Succeeded,
    /// Established or failed: nothing more is taken.
    Done,
}

/// The MS-CHAPv2-ID of our Challenge and Success Requests.
pub const MSCHAP_ID: u8 = 1;

/// The name our Challenge gives: "ryke".
pub const SERVER_NAME: [u8; 4] = [0x72, 0x79, 0x6b, 0x65];

/// EAP-MSCHAPv2 **responder** (server): authenticates itself ([`ServerAuth`]),
/// verifies the client's EAP password, then exchanges the MSK-keyed AUTHs.
///
/// It takes each initiator request once, in order; a retransmitted request
/// is the caller's to answer with the response it already gave, not one to hand
/// back in.
pub struct EapResponder {
    sa: CompletedSaInit,
    id: Identification,
    auth: ServerAuth,
    user: Vec<u8>,
    password: String,
    /// All accepted credentials (username, password); of several for one
    /// username the last counts. The client's claimed EAP identity selects one
    /// at the Identity step; an unknown identity is rejected.
    users: Vec<(Vec<u8>, String)>,
    child_spi: u32,
    step: AuthStep,
    auth_challenge: [u8; 16],
    nt_response: [u8; 24],
    peer_idi: Vec<u8>,
    /// The initiator's ESP SPI (from SAi2 in msg-1), needed to derive the CHILD
    /// SA -- dropped when the final message refuses it (`TS_UNACCEPTABLE`).
    peer_child_spi: Option<u32>,
    /// The TSi and TSr of msg-1, answered narrowed in the final message.
    peer_ts: Option<(TrafficSelectors, TrafficSelectors)>,
    /// Inner-network assignment for this client's Configuration Payload (CFG_REPLY)
    /// in the final message — so the per-client inner IP is handed out over EAP
    /// just like the PSK path.
    assigned: Option<AssignedConfig>,
    /// Whether the consumer implements MOBIKE -- see [`set_mobike`](Self::set_mobike).
    mobike: bool,
    /// Whether the initiator sent `N(MOBIKE_SUPPORTED)` in any `IKE_AUTH` request.
    peer_mobike: bool,
}

/// An [`EapResponder`] as a value of the specification.
#[verifier::ext_equal]
pub struct Server {
    pub sa: Completed,
    pub id: Identity,
    pub auth: Prover,
    pub user: Seq<u8>,
    pub password: Seq<char>,
    pub users: Map<Seq<u8>, Seq<char>>,
    pub child_spi: u32,
    pub step: AuthStep,
    pub auth_challenge: Seq<u8>,
    pub nt_response: Seq<u8>,
    pub peer_idi: Seq<u8>,
    pub peer_child_spi: Option<u32>,
    pub peer_ts: Option<(Seq<Selector>, Seq<Selector>)>,
    pub assigned: Option<Assigned>,
    pub mobike: bool,
    pub peer_mobike: bool,
}

/// The passwords a list of credentials gives: the last for each username.
pub open spec fn credentials(users: Seq<(Vec<u8>, String)>) -> Map<Seq<u8>, Seq<char>>
    decreases users.len(),
{
    if users.len() == 0 {
        Map::empty()
    } else {
        credentials(users.drop_last()).insert(users.last().0@, users.last().1@)
    }
}

/// A pair of selectors taken by their views.
pub open spec fn viewed_ts_pair(pair: Option<(TrafficSelectors, TrafficSelectors)>) -> Option<
    (Seq<Selector>, Seq<Selector>),
> {
    match pair {
        Some((tsi, tsr)) => Some((tsi@, tsr@)),
        None => None,
    }
}

impl View for EapResponder {
    type V = Server;

    closed spec fn view(&self) -> Server {
        Server {
            sa: self.sa@,
            id: self.id@,
            auth: self.auth@,
            user: self.user@,
            password: self.password@,
            users: credentials(self.users@),
            child_spi: self.child_spi,
            step: self.step,
            auth_challenge: self.auth_challenge@,
            nt_response: self.nt_response@,
            peer_idi: self.peer_idi@,
            peer_child_spi: self.peer_child_spi,
            peer_ts: viewed_ts_pair(self.peer_ts),
            assigned: viewed_option(self.assigned),
            mobike: self.mobike,
            peer_mobike: self.peer_mobike,
        }
    }
}

/// What a responder makes of a message: the state it keeps where its answer cannot
/// be sealed, or is none; the one it comes to else; and what it says.
#[verifier::ext_equal]
pub struct Turn {
    pub kept: Server,
    pub next: Server,
    pub says: Result<Say, Failure>,
    /// Whether a challenge is drawn for it.
    pub challenged: bool,
}

impl Turn {
    /// This turn with what it says sealed, under the Message ID it answers.
    pub open spec fn sealed(self, sa: Completed, message_id: u32, iv: Seq<u8>) -> (Server, Result<Event, Failure>) {
        told(self.kept, self.next, self.says, sa, message_id, true, iv)
    }
}

/// The EAP Identity Request.
pub open spec fn identity_request(id: u8) -> Packet {
    Packet { code: eap::code::REQUEST, identifier: id, data: seq![eap::eap_type::IDENTITY] }
}

/// The Identifier after this one: they count on modulo 2^8.
pub open spec fn next_identifier(id: u8) -> u8 {
    if id == u8::MAX {
        0
    } else {
        (id + 1) as u8
    }
}

impl Server {
    /// The turn that ends the exchange.
    pub open spec fn failing(self) -> Turn {
        let done = Server { step: AuthStep::Done, ..self };
        Turn { kept: done, next: done, says: Ok(Say::Failed(None)), challenged: false }
    }

    /// The turn that reports a failure.
    pub open spec fn refusing(self, failure: Failure) -> Turn {
        Turn { kept: self, next: self, says: Err(failure), challenged: false }
    }

    /// The key both final AUTH payloads are made with.
    pub open spec fn msk(self) -> Seq<u8> {
        mschapv2::msk_of(self.password, self.nt_response)
    }

    /// The initiator's AUTH that confirms the key.
    pub open spec fn expected_auth(self) -> Proof {
        psk_proof(self.sa.suite.prf(), self.msk(), initiator_octets(self.sa, self.peer_idi))
    }

    /// Our AUTH that confirms the key.
    pub open spec fn own_auth(self) -> Proof {
        psk_proof(self.sa.suite.prf(), self.msk(), responder_octets(self.sa, self.id.octets()))
    }

    /// The payloads that authenticate us and start EAP.
    pub open spec fn greeting(self) -> Seq<(PayloadType, Seq<u8>)> {
        let shown = self.auth.proof_over(self.sa.suite.prf(), responder_octets(self.sa, self.id.octets()));
        seq![(PayloadType::IdResponder, self.id.octets())] + self.auth.certs() + seq![
            (PayloadType::Authentication, shown.octets()),
        ] + eap_part(identity_request(1))
    }

    /// Whether MOBIKE is in force.
    pub open spec fn follows(self) -> bool {
        self.mobike && self.peer_mobike
    }

    /// What is made of a message with these payloads; `challenge` is the one to
    /// challenge the client with.
    #[verifier::opaque]
    pub open spec fn turned(self, list: Seq<(PayloadType, Seq<u8>)>, challenge: Seq<u8>) -> Turn {
        let told = Server {
            peer_mobike: self.peer_mobike || mobike::notifies(list, notify_type::MOBIKE_SUPPORTED),
            ..self
        };
        match (found(list, PayloadType::Eap), found(list, PayloadType::Authentication)) {
            (None, None) => told.opening(list),
            (None, Some(body)) => told.confirming(body),
            (Some(body), auth) => told.hearing(body, auth is Some, challenge),
        }
    }

    /// What is made of the first message: authenticate ourselves and start EAP.
    pub open spec fn opening(self, list: Seq<(PayloadType, Seq<u8>)>) -> Turn {
        match found(list, PayloadType::SecurityAssociation) {
            None => self.failing(),
            Some(sai2) => if self.step != AuthStep::Start {
                self.failing()
            } else {
                let named = Server { peer_child_spi: child::spi_in(sai2), ..self };
                match named.asked_for(list) {
                    Err(failure) => named.refusing(failure),
                    Ok((tsi, tsr)) => {
                        let noted = Server {
                            peer_ts: Some((tsi, tsr)),
                            peer_idi: match found(list, PayloadType::IdInitiator) {
                                Some(idi) => idi,
                                None => Seq::empty(),
                            },
                            ..named
                        };
                        Turn {
                            kept: noted,
                            next: Server { step: AuthStep::Identity { id: 1 }, ..noted },
                            says: Ok(Say::Reply(noted.greeting())),
                            challenged: false,
                        }
                    },
                }
            },
        }
    }

    /// The TSi and TSr of a request for a CHILD SA, which must carry both.
    pub open spec fn asked_for(self, list: Seq<(PayloadType, Seq<u8>)>) -> Result<
        (Seq<Selector>, Seq<Selector>),
        Failure,
    > {
        match found(list, PayloadType::TrafficSelectorInitiator) {
            None => Err(Failure::MissingPayload("TSi"@)),
            Some(tsi) => match found(list, PayloadType::TrafficSelectorResponder) {
                None => Err(Failure::MissingPayload("TSr"@)),
                Some(tsr) => match ts::read(tsi) {
                    Err(failure) => Err(failure),
                    Ok(tsi) => match ts::read(tsr) {
                        Err(failure) => Err(failure),
                        Ok(tsr) => Ok((tsi, tsr)),
                    },
                },
            },
        }
    }

    /// What is made of the initiator's AUTH, once EAP has succeeded.
    pub open spec fn confirming(self, body: Seq<u8>) -> Turn {
        if self.step != AuthStep::Succeeded {
            self.failing()
        } else {
            match Proof::read(body) {
                Err(failure) => self.refusing(failure),
                Ok(got) => if got != self.expected_auth() {
                    self.failing()
                } else {
                    self.granting()
                },
            }
        }
    }

    /// The selectors of the CHILD SA: what the first message asked for, narrowed to
    /// the address the client is assigned.
    pub open spec fn narrowed(self) -> Result<(Seq<Selector>, Seq<Selector>), Failure> {
        let (tsi, tsr) = match self.peer_ts {
            Some((tsi, tsr)) => (Some(tsi), Some(tsr)),
            None => (None, None),
        };
        child::narrowed(tsi, tsr, child::client_policy(assigned_ip(self.assigned)), child::server_policy())
    }

    /// The payloads of the final message.
    pub open spec fn final_parts(self, child: Option<(Seq<Selector>, Seq<Selector>)>) -> Seq<(PayloadType, Seq<u8>)> {
        let granted = match child {
            Some((tsi, tsr)) => reply_part(self.assigned) + seq![
                (
                    PayloadType::SecurityAssociation,
                    sa::proposal_octets(
                        seq![child::esp_offered(1, self.child_spi, seq![child::gcm256(), child::no_esn()])],
                    ),
                ),
                (PayloadType::TrafficSelectorInitiator, ts::octets(tsi)),
                (PayloadType::TrafficSelectorResponder, ts::octets(tsr)),
            ],
            None => seq![(PayloadType::Notify, bare_notice(notify_type::TS_UNACCEPTABLE).octets())],
        };
        seq![
            (PayloadType::IdResponder, self.id.octets()),
            (PayloadType::Authentication, self.own_auth().octets()),
        ] + granted + mobike_part(self.follows())
    }

    /// The turn that answers the initiator's AUTH with ours and the CHILD SA, or
    /// with the reason there is none: the IKE SA stands either way.
    pub open spec fn granting(self) -> Turn {
        match self.narrowed() {
            Ok((tsi, tsr)) => Turn {
                kept: self,
                next: Server { step: AuthStep::Done, ..self },
                says: Ok(Say::Established(Some(self.final_parts(Some((tsi, tsr)))))),
                challenged: false,
            },
            Err(Failure::TsUnacceptable) => {
                let without = Server { peer_child_spi: None, ..self };
                Turn {
                    kept: without,
                    next: Server { step: AuthStep::Done, ..without },
                    says: Ok(Say::Established(Some(without.final_parts(None)))),
                    challenged: false,
                }
            },
            Err(failure) => self.refusing(failure),
        }
    }

    /// The Identifier of the Request that is outstanding.
    pub open spec fn outstanding(self) -> Option<u8> {
        match self.step {
            AuthStep::Identity { id } => Some(id),
            AuthStep::Challenge { id } => Some(id),
            AuthStep::Success { id } => Some(id),
            _ => None,
        }
    }

    /// What is made of an EAP payload, beside an AUTH or not.
    pub open spec fn hearing(self, body: Seq<u8>, with_auth: bool, challenge: Seq<u8>) -> Turn {
        match self.outstanding() {
            None => self.failing(),
            Some(id) => if with_auth {
                self.failing()
            } else {
                match Packet::read(body) {
                    Err(failure) => self.refusing(failure),
                    Ok(packet) => if packet.code != eap::code::RESPONSE || packet.identifier != id {
                        self.failing()
                    } else {
                        self.answered(packet, challenge)
                    },
                }
            },
        }
    }

    /// What is made of the Response to the Request that is outstanding.
    pub open spec fn answered(self, packet: Packet, challenge: Seq<u8>) -> Turn {
        let next = next_identifier(packet.identifier);
        if self.step is Identity && packet.method() == Some(eap::eap_type::IDENTITY) {
            let claimed = bytes::from(packet.data, 1);
            if self.users.contains_key(claimed) {
                self.asking(
                    Server {
                        user: claimed,
                        password: self.users[claimed],
                        auth_challenge: challenge,
                        step: AuthStep::Challenge { id: next },
                        ..self
                    },
                    Packet {
                        code: eap::code::REQUEST,
                        identifier: next,
                        data: eap::challenge_data(MSCHAP_ID, challenge, SERVER_NAME@),
                    },
                    true,
                )
            } else {
                self.failing()
            }
        } else if packet.method() != Some(eap::eap_type::MSCHAPV2) {
            self.failing()
        } else if self.step is Challenge && packet.opcode() == Some(eap::op::RESPONSE) {
            match Responded::read(packet.data) {
                Err(failure) => self.refusing(failure),
                Ok(resp) => self.weighing(resp, next),
            }
        } else if self.step is Success && packet.opcode() == Some(eap::op::SUCCESS) {
            self.asking(
                Server { step: AuthStep::Succeeded, ..self },
                Packet { code: eap::code::SUCCESS, identifier: packet.identifier, data: Seq::empty() },
                false,
            )
        } else {
            self.failing()
        }
    }

    /// What is made of the Response to our Challenge: it must be under the
    /// Challenge's MS-CHAPv2-ID, and hold the NT-Response we work out.
    pub open spec fn weighing(self, resp: Responded, next: u8) -> Turn {
        if resp.mschap_id != MSCHAP_ID {
            self.failing()
        } else {
            let expected = mschapv2::nt_response(self.auth_challenge, resp.peer_challenge, self.user, self.password);
            let weighed = Server { nt_response: expected, ..self };
            if resp.nt_response != expected {
                weighed.failing()
            } else {
                self.asking(
                    Server { step: AuthStep::Success { id: next }, ..weighed },
                    Packet {
                        code: eap::code::REQUEST,
                        identifier: next,
                        data: eap::success_data(
                            MSCHAP_ID,
                            mschapv2::server_text(
                                self.password,
                                expected,
                                resp.peer_challenge,
                                self.auth_challenge,
                                self.user,
                            ),
                        ),
                    },
                    false,
                )
            }
        }
    }

    /// The turn that sends an EAP packet, with a challenge drawn for it or not.
    pub open spec fn asking(self, next: Server, packet: Packet, challenged: bool) -> Turn {
        Turn { kept: next, next, says: Ok(Say::Reply(eap_part(packet))), challenged }
    }

    /// What a message from the initiator comes to.
    pub open spec fn stepped(self, message: Seq<u8>, challenge: Seq<u8>, iv: Seq<u8>) -> (Server, Result<
        Event,
        Failure,
    >) {
        match received(self.sa, message) {
            Err(failure) => (self, Err(failure)),
            Ok((message_id, list)) => self.turned(list, challenge).sealed(self.sa, message_id, iv),
        }
    }
}

/// The state a fresh responder starts in.
pub open spec fn fresh_server(
    sa: Completed,
    id: Identity,
    auth: Prover,
    users: Map<Seq<u8>, Seq<char>>,
    child_spi: u32,
) -> Server {
    Server {
        sa,
        id,
        auth,
        user: Seq::empty(),
        password: Seq::empty(),
        users,
        child_spi,
        step: AuthStep::Start,
        auth_challenge: bytes::zeros(16),
        nt_response: bytes::zeros(24),
        peer_idi: Seq::empty(),
        peer_child_spi: None,
        peer_ts: None,
        assigned: None,
        mobike: false,
        peer_mobike: false,
    }
}

impl EapResponder {
    pub fn new(
        sa: CompletedSaInit,
        id: Identification,
        auth: ServerAuth,
        user: Vec<u8>,
        password: String,
        child_spi: u32,
    ) -> (responder: Self)
        requires
            sa@.suite.keyed(),
        ensures
            responder@ == fresh_server(sa@, id@, auth@, map![user@ => password@], child_spi),
    {
        let ghost (name, secret) = (user@, password@);
        let mut users: Vec<(Vec<u8>, String)> = Vec::new();
        users.push((user, password));
        proof {
            assert(users@.drop_last() =~= Seq::<(Vec<u8>, String)>::empty());
            assert(credentials(users@.drop_last()) =~= Map::<Seq<u8>, Seq<char>>::empty());
            assert(credentials(users@) =~= map![name => secret]);
        }
        Self::new_multi(sa, id, auth, users, child_spi)
    }

    /// Like [`new`](Self::new) but accepts multiple credentials; the client's EAP
    /// identity picks which password to verify against (an unknown one fails).
    pub fn new_multi(
        sa: CompletedSaInit,
        id: Identification,
        auth: ServerAuth,
        users: Vec<(Vec<u8>, String)>,
        child_spi: u32,
    ) -> (responder: Self)
        requires
            sa@.suite.keyed(),
        ensures
            responder@ == fresh_server(sa@, id@, auth@, credentials(users@), child_spi),
    {
        let responder = EapResponder {
            sa,
            id,
            auth,
            user: Vec::new(),
            password: String::new(),
            users,
            child_spi,
            step: AuthStep::Start,
            auth_challenge: [0u8; 16],
            nt_response: [0u8; 24],
            peer_idi: Vec::new(),
            peer_child_spi: None,
            peer_ts: None,
            assigned: None,
            mobike: false,
            peer_mobike: false,
        };
        assert(responder@ =~= fresh_server(sa@, id@, auth@, credentials(users@), child_spi));
        responder
    }

    /// Set the inner-network assignment sent in the final message's Configuration
    /// Payload (a native client needs it to configure its tunnel interface).
    pub fn set_assigned(&mut self, assigned: Option<AssignedConfig>)
        ensures
            final(self)@ == (Server { assigned: viewed_option(assigned), ..old(self)@ }),
    {
        self.assigned = assigned;
    }

    /// Declare that the consumer implements MOBIKE (RFC 4555): it answers an
    /// INFORMATIONAL carrying `N(UPDATE_SA_ADDRESSES)` (see
    /// [`crate::ikev2::mobike`]) by moving the IKE SA and its CHILD SAs to that
    /// request's observed source address. Off by default: only then, and only if
    /// the initiator offered it (§3.1), does the final message carry
    /// `N(MOBIKE_SUPPORTED)` -- see [`mobike_enabled`](Self::mobike_enabled).
    pub fn set_mobike(&mut self, enabled: bool)
        ensures
            final(self)@ == (Server { mobike: enabled, ..old(self)@ }),
    {
        self.mobike = enabled;
    }

    /// Whether MOBIKE is in force for this IKE SA -- we opted in and the
    /// initiator offered it -- i.e. whether the consumer must honor
    /// `UPDATE_SA_ADDRESSES` from this peer. Meaningful once
    /// [`EapEvent::Established`] has been returned.
    pub fn mobike_enabled(&self) -> (enabled: bool)
        ensures
            enabled == self@.follows(),
    {
        self.mobike && self.peer_mobike
    }

    /// The initiator's ESP SPI (captured from SAi2), for deriving the CHILD SA
    /// after [`EapEvent::Established`] -- `None` then if the final message
    /// refused the CHILD SA with `TS_UNACCEPTABLE` (the IKE SA stands, RFC
    /// 7296 §1.2): the initiator's selectors left nothing the address it is
    /// assigned, or IPv4 without one, can carry (§2.9).
    pub fn peer_child_spi(&self) -> (spi: Option<u32>)
        ensures
            spi == self@.peer_child_spi,
    {
        self.peer_child_spi
    }

    /// The credential (username) selected by the client's EAP identity. Empty
    /// until the Identity step has run; meaningful once authentication succeeds.
    pub fn user(&self) -> (user: &[u8])
        ensures
            user@ == self@.user,
    {
        &self.user
    }

    /// Process an initiator message and produce the next step. The challenge is drawn
    /// in the turn that sends it, and an initialization vector with each message.
    pub fn handle<E: Entropy>(&mut self, message: &[u8], entropy: &mut E) -> (out: Result<EapEvent, IkeError>)
        requires
            old(self)@.sa.suite.keyed(),
        ensures
            final(self)@.sa == old(self)@.sa,
            exists|challenge: Seq<u8>, iv: Seq<u8>|
                (final(self)@, viewed(out)) == #[trigger] old(self)@.stepped(message@, challenge, iv)
                    && challenge.len() == 16 && iv.len() == 8,
            old(self)@.sa.tampered(old(self)@.sa.peer(), message@) ==> final(self)@ == old(self)@ && viewed(out) == Err::<
                Event,
                Failure,
            >(Failure::BadIntegrity),
    {
        let (message_id, list) = match decrypt(&self.sa, message) {
            Ok(opened) => opened,
            Err(error) => {
                assert((self@, Err::<Event, Failure>(error@)) == old(self)@.stepped(
                    message@,
                    bytes::zeros(16),
                    bytes::zeros(8),
                ));
                return Err(error);
            },
        };
        let mut drawn = Drawn::nothing();
        let out = self.advance(message_id, &list, &mut drawn, entropy);
        assert((self@, viewed(out)) == old(self)@.stepped(message@, drawn.challenge(), drawn.iv()));
        out
    }

    /// Process an initiator message and produce the next step, with this challenge
    /// (for the MSCHAPv2 Challenge) and initialization vector.
    pub fn handle_with(&mut self, message: &[u8], challenge: &[u8; 16], iv: &[u8; 8]) -> (out: Result<
        EapEvent,
        IkeError,
    >)
        requires
            old(self)@.sa.suite.keyed(),
        ensures
            (final(self)@, viewed(out)) == old(self)@.stepped(message@, challenge@, iv@),
            final(self)@.sa == old(self)@.sa,
            forall|header: IkeHeader, written: Seq<(PayloadType, Seq<u8>)>, seed: Seq<u8>|
                #[trigger] old(self)@.sa.carries(old(self)@.sa.peer(), header, written, seed, message@) ==> (
                final(self)@,
                viewed(out),
                ) == old(self)@.turned(written, challenge@).sealed(old(self)@.sa, header.message_id, iv@),
            old(self)@.sa.tampered(old(self)@.sa.peer(), message@) ==> final(self)@ == old(self)@ && viewed(out) == Err::<
                Event,
                Failure,
            >(Failure::BadIntegrity),
    {
        let (message_id, list) = match decrypt(&self.sa, message) {
            Ok(opened) => opened,
            Err(error) => {
                return Err(error);
            },
        };
        let mut given = Drawn { challenge: Some(*challenge), iv: Some(*iv) };
        let out = self.advance(message_id, &list, &mut given, &mut Unasked);
        assert(given.challenge() == challenge@ && given.iv() == iv@);
        out
    }

    /// End the exchange: this responder takes nothing more.
    fn fail(&mut self) -> (out: Result<EapEvent, IkeError>)
        ensures
            final(self)@ == old(self)@.failing().kept,
            viewed(out) == Ok::<Event, Failure>(Event::Failed(None)),
    {
        self.step = AuthStep::Done;
        Ok(EapEvent::Failed(None))
    }

    /// Take the next initiator message, in the step it belongs to.
    fn advance<E: Entropy>(
        &mut self,
        message_id: u32,
        list: &[(PayloadType, Vec<u8>)],
        drawn: &mut Drawn,
        entropy: &mut E,
    ) -> (out: Result<EapEvent, IkeError>)
        requires
            old(self)@.sa.suite.keyed(),
        ensures
            (final(self)@, viewed(out)) == old(self)@.turned(message::bodies(list@), final(drawn).challenge()).sealed(
                old(self)@.sa,
                message_id,
                final(drawn).iv(),
            ),
            old(drawn).drawn_to(
                *final(drawn),
                old(self)@.turned(message::bodies(list@), final(drawn).challenge()).challenged,
                goes_out(old(self)@.turned(message::bodies(list@), final(drawn).challenge()).says),
            ),
            final(self)@.sa == old(self)@.sa,
    {
        reveal(Server::turned);
        self.peer_mobike = self.peer_mobike || mobike::peer_supports_mobike(list);
        match (find(list, PayloadType::Eap), find(list, PayloadType::Authentication)) {
            // msg-1: IDi + SA + TS, no AUTH, no EAP → authenticate ourselves and
            // start EAP with an Identity request: SK{ IDr, [CERT,] AUTH, EAP }.
            (None, None) => self.open(message_id, list, drawn, entropy),
            // Final: the initiator's MSK-keyed AUTH (no EAP, has AUTH) -- only
            // once EAP has succeeded: before that there is no MSK, and the one
            // computed from nothing is anyone's to compute (RFC 7296 §2.16).
            (None, Some(body)) => self.confirm(message_id, body, drawn, entropy),
            // Otherwise an EAP response drives the next step. It must answer
            // the Request we have outstanding, by Identifier (RFC 3748 §4.1) and
            // by step; an initiator's AUTH has no place in it.
            (Some(body), None) => self.hear(message_id, body, false, drawn, entropy),
            (Some(body), Some(_)) => self.hear(message_id, body, true, drawn, entropy),
        }
    }

    /// Take the initiator's first message.
    fn open<E: Entropy>(
        &mut self,
        message_id: u32,
        list: &[(PayloadType, Vec<u8>)],
        drawn: &mut Drawn,
        entropy: &mut E,
    ) -> (out: Result<EapEvent, IkeError>)
        requires
            old(self)@.sa.suite.keyed(),
        ensures
            (final(self)@, viewed(out)) == old(self)@.opening(message::bodies(list@)).sealed(
                old(self)@.sa,
                message_id,
                final(drawn).iv(),
            ),
            old(drawn).drawn_to(*final(drawn), false, goes_out(old(self)@.opening(message::bodies(list@)).says)),
            final(self)@.sa == old(self)@.sa,
    {
        let sai2 = match find(list, PayloadType::SecurityAssociation) {
            Some(sai2) => sai2,
            None => {
                return self.fail();
            },
        };
        if self.step != AuthStep::Start {
            return self.fail();
        }
        // Capture the initiator's ESP SPI (for the CHILD SA) and its IDi
        // verbatim (its final AUTH signs over it).

        self.peer_child_spi = esp_spi_from_sa(sai2);
        // RFC 7296 §1.2, §3.13: the request for a CHILD SA carries TSi and TSr.
        let tsi = match find(list, PayloadType::TrafficSelectorInitiator) {
            Some(tsi) => tsi,
            None => {
                return Err(IkeError::MissingPayload("TSi"));
            },
        };
        let tsr = match find(list, PayloadType::TrafficSelectorResponder) {
            Some(tsr) => tsr,
            None => {
                return Err(IkeError::MissingPayload("TSr"));
            },
        };
        let tsi = match TrafficSelectors::parse(tsi) {
            Ok(tsi) => tsi,
            Err(error) => {
                return Err(error);
            },
        };
        let tsr = match TrafficSelectors::parse(tsr) {
            Ok(tsr) => tsr,
            Err(error) => {
                return Err(error);
            },
        };
        self.peer_ts = Some((tsi, tsr));
        self.peer_idi = match find(list, PayloadType::IdInitiator) {
            Some(idi) => bytes::copy(idi),
            None => Vec::new(),
        };
        let inner = self.greet();
        assert(self.peer_idi@ =~= (match found(message::bodies(list@), PayloadType::IdInitiator) {
            Some(idi) => idi,
            None => Seq::empty(),
        }));
        match say(&self.sa, message_id, true, &inner, drawn, entropy) {
            Ok(message) => {
                self.step = AuthStep::Identity { id: 1 };
                Ok(EapEvent::Reply(message))
            },
            Err(error) => Err(error),
        }
    }

    /// The payloads that authenticate us and start EAP.
    fn greet(&self) -> (inner: Vec<(PayloadType, Vec<u8>)>)
        requires
            self@.sa.suite.keyed(),
        ensures
            message::bodies(inner@) == self@.greeting(),
    {
        let idr = self.id.to_bytes();
        let octets = octets_of_responder(&self.sa, &idr);
        let mut inner = starting(PayloadType::IdResponder, idr);
        match &self.auth {
            ServerAuth::Psk(psk) => {
                let auth = psk_auth_payload(self.sa.suite.prf_algorithm(), psk, &octets);
                add_part(&mut inner, PayloadType::Authentication, auth.to_bytes());
            },
            ServerAuth::Cert { chain, auth } => {
                // Send the chain (leaf first) unconditionally — iOS often
                // sends no CERTREQ, so gating on one would break the default.
                add_certs(&mut inner, chain);
                add_part(&mut inner, PayloadType::Authentication, auth.to_bytes());
            },
        }
        let mut data: Vec<u8> = Vec::new();
        data.push(eap::eap_type::IDENTITY);
        let packet = EapPacket { code: eap::code::REQUEST, identifier: 1, data };
        assert(packet@ =~= identity_request(1));
        add_part(&mut inner, PayloadType::Eap, packet.to_bytes());
        assert(message::bodies(inner@) =~= self@.greeting());
        inner
    }

    /// Take the initiator's MSK-keyed AUTH.
    fn confirm<E: Entropy>(&mut self, message_id: u32, body: &[u8], drawn: &mut Drawn, entropy: &mut E) -> (out:
        Result<EapEvent, IkeError>)
        requires
            old(self)@.sa.suite.keyed(),
        ensures
            (final(self)@, viewed(out)) == old(self)@.confirming(body@).sealed(
                old(self)@.sa,
                message_id,
                final(drawn).iv(),
            ),
            old(drawn).drawn_to(*final(drawn), false, goes_out(old(self)@.confirming(body@).says)),
            final(self)@.sa == old(self)@.sa,
    {
        if self.step != AuthStep::Succeeded {
            return self.fail();
        }
        let got = match Authentication::parse(body) {
            Ok(got) => got,
            Err(error) => {
                return Err(error);
            },
        };
        let msk = mschapv2::derive_msk(self.password.as_str(), &self.nt_response);
        let octets = octets_of_initiator(&self.sa, &self.peer_idi);
        // RFC 7296 §2.16: the EAP AUTH is the Shared Key MIC keyed by the MSK.
        let verdict = verify_psk(self.sa.suite.prf_algorithm(), &got, &msk, &octets);
        assert(verdict is Ok == (got@ == self@.expected_auth()));
        if verdict.is_err() {
            return self.fail();
        }
        self.grant(message_id, &msk, drawn, entropy)
    }

    /// Send our final AUTH(MSK) + SAr2 + TSi + TSr.
    fn grant<E: Entropy>(&mut self, message_id: u32, msk: &[u8; 64], drawn: &mut Drawn, entropy: &mut E) -> (out:
        Result<EapEvent, IkeError>)
        requires
            old(self)@.sa.suite.keyed(),
            msk@ == old(self)@.msk(),
        ensures
            (final(self)@, viewed(out)) == old(self)@.granting().sealed(
                old(self)@.sa,
                message_id,
                final(drawn).iv(),
            ),
            old(drawn).drawn_to(*final(drawn), false, goes_out(old(self)@.granting().says)),
            final(self)@.sa == old(self)@.sa,
    {
        let idr = self.id.to_bytes();
        let octets = octets_of_responder(&self.sa, &idr);
        let auth = psk_auth_payload(self.sa.suite.prf_algorithm(), msk, &octets);
        assert(auth@ == self@.own_auth());
        let mut inner = starting(PayloadType::IdResponder, idr);
        add_part(&mut inner, PayloadType::Authentication, auth.to_bytes());
        let ghost head = message::bodies(inner@);
        // Assign the client its inner IP via a Configuration Payload
        // (CFG_REPLY) and narrow TSi to that /32, mirroring the PSK path,
        // so the per-client IP works over EAP too.
        let assigned = match &self.assigned {
            Some(assigned) => Some(assigned),
            None => None,
        };
        assert(viewed_assigned(assigned) == self@.assigned);
        let (policy_i, policy_r) = assigned_ipv4_policy(ip_of(assigned));
        let (tsi, tsr) = match &self.peer_ts {
            Some((tsi, tsr)) => (Some(tsi), Some(tsr)),
            None => (None, None),
        };
        let narrowed = narrow_requested_ts(tsi, tsr, &policy_i, &policy_r);
        assert(child::viewed_pair(narrowed) == self@.narrowed());
        let ghost parts = match self@.narrowed() {
            Ok((tsi, tsr)) => self@.final_parts(Some((tsi, tsr))),
            Err(_) => self@.final_parts(None),
        };
        match narrowed {
            Ok((tsi, tsr)) => {
                if let Some(assigned) = assigned {
                    add_part(&mut inner, PayloadType::Configuration, assigned.to_reply().to_bytes());
                }
                add_part(&mut inner, PayloadType::SecurityAssociation, esp_offer(self.child_spi).to_bytes());
                add_part(&mut inner, PayloadType::TrafficSelectorInitiator, tsi.to_bytes());
                add_part(&mut inner, PayloadType::TrafficSelectorResponder, tsr.to_bytes());
            },
            // RFC 7296 §1.2, §2.9: the IKE SA stands, the CHILD SA is refused.
            Err(IkeError::TsUnacceptable) => {
                refuse_child(&mut inner, notify_type::TS_UNACCEPTABLE);
                self.peer_child_spi = None;
            },
            Err(error) => {
                return Err(error);
            },
        }
        // Advertise MOBIKE -- so the client migrates the SA across network
        // changes (Wi-Fi↔cellular / NAT rebind) via UPDATE_SA_ADDRESSES
        // instead of reconnecting -- only when the consumer follows it
        // there and the client offered it (RFC 4555 §3.1).
        if self.mobike_enabled() {
            add_part(&mut inner, PayloadType::Notify, mobike::mobike_supported().to_bytes());
        }
        assert(message::bodies(inner@) =~= parts);
        match say(&self.sa, message_id, true, &inner, drawn, entropy) {
            Ok(message) => {
                self.step = AuthStep::Done;
                Ok(EapEvent::Established(Some(message)))
            },
            Err(error) => Err(error),
        }
    }

    /// Take an EAP payload, beside an AUTH or not.
    fn hear<E: Entropy>(
        &mut self,
        message_id: u32,
        body: &[u8],
        with_auth: bool,
        drawn: &mut Drawn,
        entropy: &mut E,
    ) -> (out: Result<EapEvent, IkeError>)
        requires
            old(self)@.sa.suite.keyed(),
        ensures
            (final(self)@, viewed(out)) == old(self)@.hearing(body@, with_auth, final(drawn).challenge()).sealed(
                old(self)@.sa,
                message_id,
                final(drawn).iv(),
            ),
            old(drawn).drawn_to(
                *final(drawn),
                old(self)@.hearing(body@, with_auth, final(drawn).challenge()).challenged,
                goes_out(old(self)@.hearing(body@, with_auth, final(drawn).challenge()).says),
            ),
            final(self)@.sa == old(self)@.sa,
    {
        let id: u8 = match self.step {
            AuthStep::Identity { id } => id,
            AuthStep::Challenge { id } => id,
            AuthStep::Success { id } => id,
            _ => {
                return self.fail();
            },
        };
        if with_auth {
            return self.fail();
        }
        let packet = match EapPacket::parse(body) {
            Ok(packet) => packet,
            Err(error) => {
                return Err(error);
            },
        };
        if packet.code != eap::code::RESPONSE || packet.identifier != id {
            return self.fail();
        }
        self.answer(message_id, &packet, drawn, entropy)
    }

    /// The password of this username: the last it was given with.
    fn password_of(&self, name: &[u8]) -> (password: Option<String>)
        ensures
            match password {
                Some(password) => self@.users.contains_key(name@) && self@.users[name@] == password@,
                None => !self@.users.contains_key(name@),
            },
    {
        let ghost all = self.users@;
        let mut i: usize = self.users.len();
        assert(all.take(i as int) =~= all);
        while i > 0
            invariant
                all == self.users@,
                i <= all.len(),
                credentials(all.take(i as int)).contains_key(name@) == credentials(all).contains_key(name@),
                credentials(all.take(i as int)).contains_key(name@) ==> credentials(all.take(i as int))[name@]
                    == credentials(all)[name@],
            decreases i,
        {
            i = i - 1;
            assert(all.take(i + 1).drop_last() =~= all.take(i as int));
            if bytes::same(&self.users[i].0, name) {
                return Some(self.users[i].1.clone());
            }
        }
        None
    }

    /// Take the Response to the Request that is outstanding.
    fn answer<E: Entropy>(&mut self, message_id: u32, packet: &EapPacket, drawn: &mut Drawn, entropy: &mut E) -> (out:
        Result<EapEvent, IkeError>)
        requires
            old(self)@.sa.suite.keyed(),
        ensures
            (final(self)@, viewed(out)) == old(self)@.answered(packet@, final(drawn).challenge()).sealed(
                old(self)@.sa,
                message_id,
                final(drawn).iv(),
            ),
            old(drawn).drawn_to(
                *final(drawn),
                old(self)@.answered(packet@, final(drawn).challenge()).challenged,
                goes_out(old(self)@.answered(packet@, final(drawn).challenge()).says),
            ),
            final(self)@.sa == old(self)@.sa,
    {
        let method: u8 = match packet.eap_type() {
            Some(method) => method,
            None => {
                return self.fail();
            },
        };
        let next: u8 = packet.identifier.wrapping_add(1);
        let op = packet.op();
        if matches!(self.step, AuthStep::Identity { .. }) && method == eap::eap_type::IDENTITY {
            // The claimed identity selects this client's credentials; an
            // unknown username is rejected here, before any challenge.
            let claimed = bytes::copy(bytes::tail(&packet.data, 1));
            let password = match self.password_of(&claimed) {
                Some(password) => password,
                None => {
                    return self.fail();
                },
            };
            // Got the identity → send an MSCHAPv2 Challenge.
            self.user = claimed;
            self.password = password;
            let challenge = drawn.draw_challenge(entropy);
            self.auth_challenge = challenge;
            self.step = AuthStep::Challenge { id: next };
            let data = eap::build_challenge(MSCHAP_ID, &challenge, &SERVER_NAME);
            let request = EapPacket { code: eap::code::REQUEST, identifier: next, data };
            assert(self@ =~= Server {
                user: claimed@,
                password: old(self)@.users[claimed@],
                auth_challenge: challenge@,
                step: AuthStep::Challenge { id: next },
                ..old(self)@
            });
            return self.send(message_id, &request, drawn, entropy);
        }
        if method != eap::eap_type::MSCHAPV2 {
            return self.fail();
        }
        if matches!(self.step, AuthStep::Challenge { .. }) && op == Some(eap::op::RESPONSE) {
            return match eap::parse_response(&packet.data) {
                Ok(resp) => self.weigh(message_id, &resp, next, drawn, entropy),
                Err(error) => Err(error),
            };
        }
        if matches!(self.step, AuthStep::Success { .. }) && op == Some(eap::op::SUCCESS) {
            // Client acked → send EAP-Success, with the Identifier of
            // the Response it answers (RFC 3748 §4.2).
            self.step = AuthStep::Succeeded;
            let success = EapPacket { code: eap::code::SUCCESS, identifier: packet.identifier, data: Vec::new() };
            assert(success.data@ =~= Seq::<u8>::empty());
            assert(self@ =~= Server { step: AuthStep::Succeeded, ..old(self)@ });
            return self.send(message_id, &success, drawn, entropy);
        }
        self.fail()
    }

    /// Take the Response to our Challenge.
    fn weigh<E: Entropy>(
        &mut self,
        message_id: u32,
        resp: &eap::Response,
        next: u8,
        drawn: &mut Drawn,
        entropy: &mut E,
    ) -> (out: Result<EapEvent, IkeError>)
        requires
            old(self)@.sa.suite.keyed(),
        ensures
            (final(self)@, viewed(out)) == old(self)@.weighing(resp@, next).sealed(
                old(self)@.sa,
                message_id,
                final(drawn).iv(),
            ),
            old(drawn).drawn_to(*final(drawn), false, goes_out(old(self)@.weighing(resp@, next).says)),
            final(self)@.sa == old(self)@.sa,
    {
        // The Response copies its Challenge's identifier (RFC 1994
        // §4.1, which MS-CHAPv2 keeps -- RFC 2759 §4).
        if resp.mschap_id != MSCHAP_ID {
            return self.fail();
        }
        self.nt_response = mschapv2::generate_nt_response(
            &self.auth_challenge,
            &resp.peer_challenge,
            &self.user,
            self.password.as_str(),
        );
        if !bytes::same(&self.nt_response, &resp.nt_response) {
            return self.fail();
        }
        let text = mschapv2::generate_authenticator_response(
            self.password.as_str(),
            &self.nt_response,
            &resp.peer_challenge,
            &self.auth_challenge,
            &self.user,
        );
        self.step = AuthStep::Success { id: next };
        let data = eap::build_success(MSCHAP_ID, text.as_str());
        let request = EapPacket { code: eap::code::REQUEST, identifier: next, data };
        assert(self@ =~= Server { nt_response: self.nt_response@, step: AuthStep::Success { id: next }, ..old(self)@ });
        self.send(message_id, &request, drawn, entropy)
    }

    /// Send an EAP packet.
    fn send<E: Entropy>(&self, message_id: u32, packet: &EapPacket, drawn: &mut Drawn, entropy: &mut E) -> (out:
        Result<EapEvent, IkeError>)
        requires
            self@.sa.suite.keyed(),
        ensures
            (self@, viewed(out)) == told(
                self@,
                self@,
                Ok(Say::Reply(eap_part(packet@))),
                self@.sa,
                message_id,
                true,
                final(drawn).iv(),
            ),
            old(drawn).drawn_to(*final(drawn), false, true),
    {
        let inner = starting(PayloadType::Eap, packet.to_bytes());
        match say(&self.sa, message_id, true, &inner, drawn, entropy) {
            Ok(message) => Ok(EapEvent::Reply(message)),
            Err(error) => Err(error),
        }
    }
}

} // verus!
