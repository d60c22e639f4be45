//! The EAP-MSCHAPv2 initiator (client).

use vstd::prelude::*;

use crate::bytes;
use crate::entropy;
use crate::entropy::Entropy;
use crate::error::{viewed, viewed_option, Failure, IkeError};
use crate::ikev2::auth;
use crate::ikev2::child;
use crate::ikev2::child::{check_granted_ts, child_sa_error_of, esp_offer, esp_spi_from_sa, ChildTsOffer};
use crate::ikev2::eap;
use crate::ikev2::eap::{EapPacket, Packet};
use crate::ikev2::eap_auth::{
    asked_octets, decrypt, failure_reason, failure_text, find, found, goes_out, hashes_to_ask, received, say, told,
    viewed_slice, Drawn, EapEvent, EapFailureReason, Event, Reason, Say, ServerVerify, Trust, Unasked,
};
use crate::ikev2::exchange::{Completed, CompletedSaInit};
use crate::ikev2::ike_auth;
use crate::ikev2::ike_auth::{
    accepted_method, auth_header, cert_parts, eap_request_parts, initiator_eap_request,
    initiator_eap_request_with_certreq, initiator_eap_request_with_certs, initiator_octets, octets_of_initiator,
    octets_of_responder, psk_auth_payload, psk_proof, responder_octets, starting, verify_psk, CertClaim, Claim,
};
use crate::ikev2::message;
use crate::ikev2::message::{IkeHeader, PayloadType};
use crate::ikev2::mschapv2;
use crate::ikev2::negotiate;
use crate::ikev2::negotiate::ChosenEspSuite;
use crate::ikev2::payload::cert::Presented;
use crate::ikev2::payload::config::{viewed_address, Settings};
use crate::ikev2::payload::identity::{Identity, Proof};
use crate::ikev2::payload::sa;
use crate::ikev2::payload::sa::Offered;
use crate::ikev2::payload::ts;
use crate::ikev2::payload::ts::Selector;
use crate::ikev2::payload::{
    auth_method, notify_type, notify_type_name, Authentication, Certificate, Configuration, Identification,
    SecurityAssociation, TrafficSelectors,
};
use crate::role::Role;

verus! {

broadcast use crate::bytes::group_lengths;

/// Where an [`EapInitiator`]'s EAP conversation stands.
#[derive(Debug, Clone, Copy, PartialEq, Eq)]
enum PeerStep {
    /// No method has begun: Identity and Notification Requests are answered,
    /// and a Request for a method we don't run gets a Nak.
    Selecting,
    /// We answered the MSCHAPv2 Challenge, under its MS-CHAPv2-ID: the
    /// Success Request is next.
    Answered { mschap_id: u8, auth_challenge: [u8; 16], peer_challenge: [u8; 16] },
    /// The authenticator response verified and we acknowledged it:
    /// EAP-Success is next.
    ServerProven,
    /// EAP-Success came and our MSK-keyed AUTH went out: the final message
    /// is next.
    AuthSent,
}

/// Where the EAP conversation of an initiator stands, as a value of the
/// specification.
#[verifier::ext_equal]
pub enum Standing {
    /// No method has begun.
    Selecting,
    /// The MSCHAPv2 Challenge is answered.
    Answered { mschap_id: u8, auth_challenge: Seq<u8>, peer_challenge: Seq<u8> },
    /// The authenticator response verified.
    ServerProven,
    /// EAP-Success came and our AUTH went out.
    AuthSent,
}

/// EAP-MSCHAPv2 **initiator** (client) — the phone's role.
pub struct EapInitiator {
    sa: CompletedSaInit,
    id: Identification,
    user: Vec<u8>,
    password: String,
    child_spi: u32,
    esp_offer: SecurityAssociation,
    nt_response: [u8; 24],
    verify: ServerVerify,
    server_verified: bool,
    step: PeerStep,
    /// The last EAP Request we answered and our Response to it, to answer a
    /// duplicate the same way.
    last_request: Option<(EapPacket, EapPacket)>,
    /// The responder's IDr as its first IKE_AUTH response carried it (payload
    /// body, no generic header), or empty until then. RFC 7296 §2.16 has the
    /// responder send IDr only once: the final message holds just AUTH (+ SA/
    /// TS/CP), yet that AUTH is signed over the same IDr (§2.15), so the final
    /// check must use this remembered value, not whatever the last message
    /// happens to repeat -- a gateway such as strongSwan does not repeat it.
    server_idr: Vec<u8>,
    send_certreq: bool,
    /// The responder's own CHILD SA SPI (from SAr2 in the final message) —
    /// the SPI we must stamp on outbound ESP so the peer's inbound SA accepts
    /// it. `None` until [`EapEvent::Established`].
    peer_child_spi: Option<u32>,
    /// The ESP cipher the responder named in SAr2, once known — set only
    /// after [`EapEvent::Established`].
    peer_esp_suite: Option<ChosenEspSuite>,
    /// The inner IPv4 the responder assigned us (CFG_REPLY), if any.
    assigned_ip4: Option<[u8; 4]>,
    /// The responder's actual granted `TSr` from the final message, if any --
    /// often more authoritative than CFG_REPLY's `INTERNAL_IP4_SUBNET`.
    granted_ts: Option<TrafficSelectors>,
    /// The full CFG_REPLY Configuration payload, if the responder sent one --
    /// a superset of `assigned_ip4`/`granted_ts` for callers that want the
    /// other attributes too (DNS servers, split-tunnel subnets, IPv6).
    configuration: Option<Configuration>,
    /// Whether to carry a CFG_REQUEST in the EAP-triggering first message --
    /// see [`Self::set_want_cfg`].
    want_cfg: bool,
    /// The client's own X.509 chain (`client_certs[0]` = leaf) to attach to
    /// the EAP-triggering first message -- see [`Self::set_client_certs`].
    client_certs: Vec<Vec<u8>>,
    /// TSi/TSr offered for the CHILD SA in the first message -- see
    /// [`Self::set_ts_offer`].
    ts_offer: ChildTsOffer,
}

/// An [`EapInitiator`] as a value of the specification.
#[verifier::ext_equal]
pub struct Peer {
    pub sa: Completed,
    pub id: Identity,
    pub user: Seq<u8>,
    pub password: Seq<char>,
    pub child_spi: u32,
    pub offer: Seq<Offered>,
    pub nt_response: Seq<u8>,
    pub verify: Trust,
    pub server_verified: bool,
    pub step: Standing,
    pub last_request: Option<(Packet, Packet)>,
    pub server_idr: Seq<u8>,
    pub send_certreq: bool,
    pub peer_child_spi: Option<u32>,
    pub peer_esp_suite: Option<ChosenEspSuite>,
    pub assigned_ip4: Option<Seq<u8>>,
    pub granted_ts: Option<Seq<Selector>>,
    pub configuration: Option<Settings>,
    pub want_cfg: bool,
    pub client_certs: Seq<Seq<u8>>,
    pub ts_offer: ChildTsOffer,
}

impl PeerStep {
    spec fn standing(self) -> Standing {
        match self {
            PeerStep::Selecting => Standing::Selecting,
            PeerStep::Answered { mschap_id, auth_challenge, peer_challenge } => Standing::Answered {
                mschap_id,
                auth_challenge: auth_challenge@,
                peer_challenge: peer_challenge@,
            },
            PeerStep::ServerProven => Standing::ServerProven,
            PeerStep::AuthSent => Standing::AuthSent,
        }
    }
}

/// A remembered Request and Response taken by their views.
pub open spec fn viewed_exchange(pair: Option<(EapPacket, EapPacket)>) -> Option<(Packet, Packet)> {
    match pair {
        Some((request, response)) => Some((request@, response@)),
        None => None,
    }
}

impl View for EapInitiator {
    type V = Peer;

    closed spec fn view(&self) -> Peer {
        Peer {
            sa: self.sa@,
            id: self.id@,
            user: self.user@,
            password: self.password@,
            child_spi: self.child_spi,
            offer: self.esp_offer@,
            nt_response: self.nt_response@,
            verify: self.verify@,
            server_verified: self.server_verified,
            step: self.step.standing(),
            last_request: viewed_exchange(self.last_request),
            server_idr: self.server_idr@,
            send_certreq: self.send_certreq,
            peer_child_spi: self.peer_child_spi,
            peer_esp_suite: self.peer_esp_suite,
            assigned_ip4: viewed_address(self.assigned_ip4),
            granted_ts: viewed_option(self.granted_ts),
            configuration: viewed_option(self.configuration),
            want_cfg: self.want_cfg,
            client_certs: bytes::contents(self.client_certs@),
            ts_offer: self.ts_offer,
        }
    }
}

/// The certificates among `list`, from index `from` on; a Certificate payload that
/// cannot be read is passed over.
pub open spec fn presented(list: Seq<(PayloadType, Seq<u8>)>, from: int) -> Seq<Seq<u8>>
    decreases list.len() - from,
{
    if from < 0 || from >= list.len() {
        Seq::empty()
    } else if list[from].0 == PayloadType::Certificate && Presented::read(list[from].1) is Ok {
        seq![Presented::read(list[from].1)->Ok_0.data] + presented(list, from + 1)
    } else {
        presented(list, from + 1)
    }
}

/// What a server claims by certificate in these payloads, if they hold an IDr, a
/// certificate and an AUTH that can be read.
pub open spec fn server_claimed(sa: Completed, list: Seq<(PayloadType, Seq<u8>)>) -> Option<Claim> {
    match (found(list, PayloadType::IdResponder), found(list, PayloadType::Authentication)) {
        (Some(idr), Some(body)) => match Proof::read(body) {
            Ok(auth) => if presented(list, 0).len() > 0 {
                Some(Claim { certs: presented(list, 0), auth, octets: responder_octets(sa, idr) })
            } else {
                None
            },
            Err(_) => None,
        },
        _ => None,
    }
}

/// The first CHILD-SA error among `list`, from index `from` on.
pub open spec fn refused(list: Seq<(PayloadType, Seq<u8>)>, from: int) -> Option<u16>
    decreases list.len() - from,
{
    if from < 0 || from >= list.len() {
        None
    } else if list[from].0 == PayloadType::Notify && child::child_error_of(list[from].1) is Some {
        child::child_error_of(list[from].1)
    } else {
        refused(list, from + 1)
    }
}

/// The selectors an optional TS payload body holds.
pub open spec fn read_ts(body: Option<Seq<u8>>) -> Result<Option<Seq<Selector>>, Failure> {
    match body {
        None => Ok(None),
        Some(body) => match ts::read(body) {
            Ok(selectors) => Ok(Some(selectors)),
            Err(failure) => Err(failure),
        },
    }
}

/// The cipher an SA payload body names, if it can be read.
pub open spec fn esp_in(body: Seq<u8>) -> Option<ChosenEspSuite> {
    match sa::read_proposals(body) {
        Ok(proposals) => negotiate::selected_esp(proposals),
        Err(_) => None,
    }
}

/// The configuration an optional Configuration payload body holds, if it can be
/// read.
pub open spec fn config_in(body: Option<Seq<u8>>) -> Option<Settings> {
    match body {
        None => None,
        Some(body) => match Settings::read(body) {
            Ok(settings) => Some(settings),
            Err(_) => None,
        },
    }
}

/// What an initiator makes of a message: the state it keeps where it does not
/// answer, or its answer cannot be sealed; the one it comes to else; and what it
/// says.
#[verifier::ext_equal]
pub struct Move {
    pub kept: Peer,
    pub next: Peer,
    pub says: Result<Say, Failure>,
    /// Whether a challenge is drawn for it.
    pub challenged: bool,
}

impl Peer {
    /// The move that ends the exchange.
    pub open spec fn failing(self, reason: Option<Reason>) -> Move {
        Move { kept: self, next: self, says: Ok(Say::Failed(reason)), challenged: false }
    }

    /// The move that reports a failure.
    pub open spec fn refusing(self, failure: Failure) -> Move {
        Move { kept: self, next: self, says: Err(failure), challenged: false }
    }

    /// The key both final AUTH payloads are made with.
    pub open spec fn msk(self) -> Seq<u8> {
        mschapv2::msk_of(self.password, self.nt_response)
    }

    /// The responder's AUTH that confirms the key.
    pub open spec fn expected_auth(self) -> Proof {
        psk_proof(self.sa.suite.prf(), self.msk(), responder_octets(self.sa, self.server_idr))
    }

    /// Our AUTH that confirms the key.
    pub open spec fn own_auth(self) -> Proof {
        psk_proof(self.sa.suite.prf(), self.msk(), initiator_octets(self.sa, self.id.octets()))
    }

    /// The CERTREQ to ask the server for its certificate by.
    pub open spec fn certreq(self) -> Seq<(PayloadType, Seq<u8>)> {
        let hashes = match self.verify {
            Trust::TrustedCas { ca_hashes, .. } => ca_hashes,
            _ => Seq::empty(),
        };
        if self.send_certreq {
            seq![(PayloadType::CertRequest, asked_octets(hashes))]
        } else {
            Seq::empty()
        }
    }

    /// The payloads of the first message.
    pub open spec fn opening(self) -> Seq<(PayloadType, Seq<u8>)> {
        if self.client_certs.len() > 0 {
            eap_request_parts(
                self.id,
                self.child_spi,
                self.want_cfg,
                self.offer,
                self.ts_offer,
                cert_parts(self.client_certs) + self.certreq(),
                Seq::empty(),
            )
        } else {
            eap_request_parts(
                self.id,
                self.child_spi,
                self.want_cfg,
                self.offer,
                self.ts_offer,
                Seq::empty(),
                self.certreq(),
            )
        }
    }

    /// The first message.
    pub open spec fn started(self, iv: Seq<u8>) -> Result<Seq<u8>, Failure> {
        self.sa.sealed(Role::Initiator, auth_header(self.sa, false), self.opening(), iv)
    }

    /// Whether these payloads authenticate the server.
    pub open spec fn trusts(self, list: Seq<(PayloadType, Seq<u8>)>) -> bool {
        match (found(list, PayloadType::IdResponder), found(list, PayloadType::Authentication)) {
            (Some(idr), Some(body)) => match self.verify {
                Trust::Insecure => true,
                Trust::Psk(psk) => Proof::read(body) == Ok::<Proof, Failure>(
                    psk_proof(self.sa.suite.prf(), psk, responder_octets(self.sa, idr)),
                ),
                Trust::TrustedCas { vouched, .. } => match server_claimed(self.sa, list) {
                    Some(claim) => accepted_method(claim.auth.method) && vouched == Some(claim),
                    None => false,
                },
            },
            _ => false,
        }
    }

    /// This initiator with the server's IDr from these payloads, the first that came.
    pub open spec fn noting(self, list: Seq<(PayloadType, Seq<u8>)>) -> Peer {
        match found(list, PayloadType::IdResponder) {
            Some(idr) => if self.server_idr.len() == 0 {
                Peer { server_idr: idr, ..self }
            } else {
                self
            },
            None => self,
        }
    }

    /// Whether these payloads are the ones by which the server authenticates itself.
    pub open spec fn to_check(self, list: Seq<(PayloadType, Seq<u8>)>) -> bool {
        !self.server_verified && found(list, PayloadType::IdResponder) is Some && found(
            list,
            PayloadType::Authentication,
        ) is Some
    }

    /// What is made of a message with these payloads; `challenge` is the one to
    /// answer an MSCHAPv2 Challenge with.
    #[verifier::opaque]
    pub open spec fn moved(self, list: Seq<(PayloadType, Seq<u8>)>, challenge: Seq<u8>) -> Move {
        let noted = self.noting(list);
        if noted.to_check(list) && !noted.trusts(list) {
            noted.failing(None)
        } else {
            let checked = Peer { server_verified: noted.server_verified || noted.to_check(list), ..noted };
            if !(checked.verify is Insecure) && !checked.server_verified {
                checked.failing(None)
            } else {
                checked.taking(list, challenge)
            }
        }
    }

    /// What is made of a message from a server that is verified, or need not be.
    pub open spec fn taking(self, list: Seq<(PayloadType, Seq<u8>)>, challenge: Seq<u8>) -> Move {
        match found(list, PayloadType::Eap) {
            None => self.concluding(list),
            Some(body) => if self.step is AuthSent {
                self.failing(None)
            } else {
                match Packet::read(body) {
                    Err(failure) => self.refusing(failure),
                    Ok(packet) => self.hearing(packet, challenge),
                }
            },
        }
    }

    /// What is made of the final message, which has no EAP payload.
    pub open spec fn concluding(self, list: Seq<(PayloadType, Seq<u8>)>) -> Move {
        if !(self.step is AuthSent) {
            self.failing(None)
        } else {
            match found(list, PayloadType::Authentication) {
                None => self.failing(None),
                Some(body) => match Proof::read(body) {
                    Err(failure) => self.refusing(failure),
                    Ok(got) => match found(list, PayloadType::SecurityAssociation) {
                        None => match refused(list, 0) {
                            Some(error) => if got == self.expected_auth() {
                                self.refusing(
                                    Failure::PeerRejected { notify_type: error, name: notify_type::name(error) },
                                )
                            } else {
                                self.failing(None)
                            },
                            None => self.failing(None),
                        },
                        Some(sar2) => if got == self.expected_auth() {
                            self.establishing(list, sar2)
                        } else {
                            self.failing(None)
                        },
                    },
                },
            }
        }
    }

    /// What is made of the final message once its AUTH has verified: SAr2 must be
    /// built from what we offered, and both TS payloads be within it.
    pub open spec fn establishing(self, list: Seq<(PayloadType, Seq<u8>)>, sar2: Seq<u8>) -> Move {
        if esp_in(sar2) is Some && !esp_in(sar2).unwrap().within(self.offer) {
            self.refusing(Failure::NoProposalChosen)
        } else {
            match read_ts(found(list, PayloadType::TrafficSelectorInitiator)) {
                Err(failure) => self.refusing(failure),
                Ok(tsi) => match read_ts(found(list, PayloadType::TrafficSelectorResponder)) {
                    Err(failure) => self.refusing(failure),
                    Ok(tsr) => match child::granted(self.ts_offer.ts(), tsi, tsr) {
                        Err(failure) => self.refusing(failure),
                        Ok(()) => Move {
                            kept: self,
                            next: self.with_child(sar2, tsr, config_in(found(list, PayloadType::Configuration))),
                            says: Ok(Say::Established(None)),
                            challenged: false,
                        },
                    },
                },
            }
        }
    }

    /// This initiator with the CHILD SA the final message grants.
    pub open spec fn with_child(self, sar2: Seq<u8>, tsr: Option<Seq<Selector>>, config: Option<Settings>) -> Peer {
        Peer {
            peer_child_spi: child::spi_in(sar2),
            peer_esp_suite: esp_in(sar2),
            assigned_ip4: match config {
                Some(settings) => settings.assigned_ipv4(),
                None => self.assigned_ip4,
            },
            configuration: match config {
                Some(settings) => Some(settings),
                None => self.configuration,
            },
            granted_ts: tsr,
            ..self
        }
    }

    /// What is made of an EAP packet.
    pub open spec fn hearing(self, packet: Packet, challenge: Seq<u8>) -> Move {
        if packet.code == eap::code::SUCCESS {
            if self.succeeds(packet) {
                Move {
                    kept: self,
                    next: Peer { step: Standing::AuthSent, ..self },
                    says: Ok(Say::Reply(seq![(PayloadType::Authentication, self.own_auth().octets())])),
                    challenged: false,
                }
            } else {
                self.failing(None)
            }
        } else if packet.code != eap::code::REQUEST {
            self.failing(None)
        } else {
            match self.last_request {
                Some((request, response)) => if packet.identifier == request.identifier {
                    if packet == request {
                        Move { kept: self, next: self, says: Ok(Say::Reply(eap_part(response))), challenged: false }
                    } else {
                        self.failing(None)
                    }
                } else {
                    self.asked(packet, challenge)
                },
                None => self.asked(packet, challenge),
            }
        }
    }

    /// Whether an EAP-Success answers the Response we sent last, once the server
    /// proved it knows the password.
    pub open spec fn succeeds(self, packet: Packet) -> bool {
        &&& self.step is ServerProven
        &&& self.last_request matches Some((_, response))
        &&& response.identifier == packet.identifier
        &&& packet.data.len() == 0
    }

    /// Whether an EAP Request is an MSCHAPv2 Challenge that comes when we take one.
    pub open spec fn challenges(self, packet: Packet) -> bool {
        self.step is Selecting && packet.method() == Some(eap::eap_type::MSCHAPV2) && packet.opcode() == Some(
            eap::op::CHALLENGE,
        )
    }

    /// What is made of a new EAP Request.
    pub open spec fn asked(self, packet: Packet, challenge: Seq<u8>) -> Move {
        match self.answered(packet, challenge) {
            Err(failure) => self.refusing(failure),
            Ok(Err(reason)) => self.failing(reason),
            Ok(Ok((peer, data))) => {
                let response = Packet { code: eap::code::RESPONSE, identifier: packet.identifier, data };
                Move {
                    kept: peer,
                    next: Peer { last_request: Some((packet, response)), ..peer },
                    says: Ok(Say::Reply(eap_part(response))),
                    challenged: self.challenges(packet),
                }
            },
        }
    }

    /// The Type-Data of our Response to a new EAP Request and the state it leaves,
    /// or what ends the exchange. Each Request is taken only in the step it belongs
    /// to.
    pub open spec fn answered(self, packet: Packet, challenge: Seq<u8>) -> Result<
        Result<(Peer, Seq<u8>), Option<Reason>>,
        Failure,
    > {
        let method = packet.method();
        let op = packet.opcode();
        if self.step is Selecting && method == Some(eap::eap_type::IDENTITY) {
            Ok(Ok((self, seq![eap::eap_type::IDENTITY] + self.user)))
        } else if !(self.step is AuthSent) && method == Some(eap::eap_type::NOTIFICATION) {
            Ok(Ok((self, seq![eap::eap_type::NOTIFICATION])))
        } else if self.challenges(packet) {
            match eap::read_challenge(packet.data) {
                Err(failure) => Err(failure),
                Ok((mschap_id, auth_challenge, _)) => Ok(
                    Ok(
                        (
                            self.challenged(mschap_id, auth_challenge, challenge),
                            eap::response_data(
                                mschap_id,
                                challenge,
                                mschapv2::nt_response(auth_challenge, challenge, self.user, self.password),
                                self.user,
                            ),
                        ),
                    ),
                ),
            }
        } else if self.step is Answered && method == Some(eap::eap_type::MSCHAPV2) && op == Some(eap::op::SUCCESS) {
            if self.proven(packet.data) {
                Ok(
                    Ok(
                        (
                            Peer { step: Standing::ServerProven, ..self },
                            seq![eap::eap_type::MSCHAPV2, eap::op::SUCCESS],
                        ),
                    ),
                )
            } else {
                Ok(Err(None))
            }
        } else if method == Some(eap::eap_type::MSCHAPV2) && op == Some(eap::op::FAILURE) {
            Ok(Err(Some(Reason::read(failure_text(packet.data)))))
        } else if self.step is Selecting && method is Some && method.unwrap() > eap::eap_type::NAK && method.unwrap()
            != eap::eap_type::MSCHAPV2 {
            Ok(Ok((self, seq![eap::eap_type::NAK, eap::eap_type::MSCHAPV2])))
        } else {
            Ok(Err(None))
        }
    }

    /// This initiator once it answered a Challenge with one of its own.
    pub open spec fn challenged(self, mschap_id: u8, auth_challenge: Seq<u8>, peer_challenge: Seq<u8>) -> Peer {
        Peer {
            nt_response: mschapv2::nt_response(auth_challenge, peer_challenge, self.user, self.password),
            step: Standing::Answered { mschap_id, auth_challenge, peer_challenge },
            ..self
        }
    }

    /// Whether a Success Request carries the authenticator response that proves the
    /// server knows the password, under the MS-CHAPv2-ID of our Response.
    pub open spec fn proven(self, data: Seq<u8>) -> bool {
        match self.step {
            Standing::Answered { mschap_id, auth_challenge, peer_challenge } => {
                &&& eap::read_success(data) == Ok::<Seq<u8>, Failure>(
                    mschapv2::server_proof(
                        self.password,
                        self.nt_response,
                        peer_challenge,
                        auth_challenge,
                        self.user,
                    ),
                )
                &&& data[2] == mschap_id
            },
            _ => false,
        }
    }

    /// What a message from the responder comes to.
    pub open spec fn stepped(self, message: Seq<u8>, challenge: Seq<u8>, iv: Seq<u8>) -> (Peer, Result<Event, Failure>) {
        match received(self.sa, message) {
            Err(failure) => (self, Err(failure)),
            Ok((message_id, list)) => self.moved(list, challenge).sealed(self.sa, message_id, iv),
        }
    }
}

impl Move {
    /// This move with what it says sealed, under the Message ID that follows
    /// `message_id`.
    pub open spec fn sealed(self, sa: Completed, message_id: u32, iv: Seq<u8>) -> (Peer, Result<Event, Failure>) {
        told(self.kept, self.next, self.says, sa, following(message_id), false, iv)
    }
}

/// The Message ID after this one: they count on modulo 2^32.
pub open spec fn following(message_id: u32) -> u32 {
    if message_id == u32::MAX {
        0
    } else {
        (message_id + 1) as u32
    }
}

/// The payload that carries an EAP packet.
pub open spec fn eap_part(packet: Packet) -> Seq<(PayloadType, Seq<u8>)> {
    seq![(PayloadType::Eap, packet.octets())]
}

/// The state a fresh initiator starts in.
pub open spec fn fresh_peer(
    sa: Completed,
    id: Identity,
    user: Seq<u8>,
    password: Seq<char>,
    child_spi: u32,
    offer: Seq<Offered>,
    verify: Trust,
) -> Peer {
    Peer {
        sa,
        id,
        user,
        password,
        child_spi,
        offer,
        nt_response: bytes::zeros(24),
        verify,
        server_verified: false,
        step: Standing::Selecting,
        last_request: None,
        server_idr: Seq::empty(),
        send_certreq: false,
        peer_child_spi: None,
        peer_esp_suite: None,
        assigned_ip4: None,
        granted_ts: None,
        configuration: None,
        want_cfg: false,
        client_certs: Seq::empty(),
        ts_offer: ChildTsOffer::Ipv4,
    }
}

/// The certificates among `list`; a Certificate payload that cannot be read is
/// passed over.
fn presented_certs(list: &[(PayloadType, Vec<u8>)]) -> (certs: Vec<Vec<u8>>)
    ensures
        bytes::contents(certs@) == presented(message::bodies(list@), 0),
{
    let ghost all = message::bodies(list@);
    let mut certs: Vec<Vec<u8>> = Vec::new();
    assert(bytes::contents(certs@) + presented(all, 0) =~= presented(all, 0));
    for i in 0..list.len()
        invariant
            all == message::bodies(list@),
            bytes::contents(certs@) + presented(all, i as int) == presented(all, 0),
    {
        assert(all[i as int] == (list@[i as int].0, list@[i as int].1@));
        if list[i].0 == PayloadType::Certificate {
            if let Ok(cert) = Certificate::parse(&list[i].1) {
                let ghost before = certs@;
                certs.push(cert.data);
                proof {
                    let data = Presented::read(all[i as int].1)->Ok_0.data;
                    assert(bytes::contents(certs@) =~= bytes::contents(before).push(data));
                    assert(bytes::contents(before) + (seq![data] + presented(all, i + 1)) =~= bytes::contents(certs@)
                        + presented(all, i + 1));
                }
            }
        }
    }
    assert(bytes::contents(certs@) + presented(all, list@.len() as int) =~= bytes::contents(certs@));
    certs
}

/// What a server claims by certificate in these payloads.
fn claim_in(sa: &CompletedSaInit, list: &[(PayloadType, Vec<u8>)]) -> (claim: Option<CertClaim>)
    requires
        sa@.suite.keyed(),
    ensures
        viewed_option(claim) == server_claimed(sa@, message::bodies(list@)),
{
    let (idr, body) = match (find(list, PayloadType::IdResponder), find(list, PayloadType::Authentication)) {
        (Some(idr), Some(body)) => (idr, body),
        _ => {
            return None;
        },
    };
    let auth = match Authentication::parse(body) {
        Ok(auth) => auth,
        Err(_) => {
            return None;
        },
    };
    // Every CERT payload, in order: [0] is the leaf, the rest intermediates.
    let certs = presented_certs(list);
    if certs.len() == 0 {
        return None;
    }
    Some(CertClaim { certs, auth, octets: octets_of_responder(sa, idr) })
}

/// The first CHILD-SA error among `list`.
fn refusal(list: &[(PayloadType, Vec<u8>)]) -> (error: Option<u16>)
    ensures
        error == refused(message::bodies(list@), 0),
{
    let ghost all = message::bodies(list@);
    for i in 0..list.len()
        invariant
            all == message::bodies(list@),
            refused(all, 0) == refused(all, i as int),
    {
        assert(all[i as int] == (list@[i as int].0, list@[i as int].1@));
        if list[i].0 == PayloadType::Notify {
            if let Some(error) = child_sa_error_of(&list[i].1) {
                return Some(error);
            }
        }
    }
    None
}

/// Optional selectors with their error taken by its view.
pub open spec fn viewed_read(result: Result<Option<TrafficSelectors>, IkeError>) -> Result<
    Option<Seq<Selector>>,
    Failure,
> {
    match result {
        Ok(selectors) => Ok(viewed_option(selectors)),
        Err(error) => Err(error@),
    }
}

/// The selectors an optional TS payload body holds.
fn parse_ts(body: Option<&[u8]>) -> (out: Result<Option<TrafficSelectors>, IkeError>)
    ensures
        viewed_read(out) == read_ts(viewed_slice(body)),
{
    match body {
        None => Ok(None),
        Some(body) => match TrafficSelectors::parse(body) {
            Ok(selectors) => Ok(Some(selectors)),
            Err(error) => Err(error),
        },
    }
}

/// Whether two EAP packets are the same.
fn same_packet(a: &EapPacket, b: &EapPacket) -> (same: bool)
    ensures
        same == (a@ == b@),
{
    let same = a.code == b.code && a.identifier == b.identifier && bytes::same(&a.data, &b.data);
    assert(same ==> a@ =~= b@);
    same
}

/// The payload that carries an EAP packet.
fn eap_payload(packet: &EapPacket) -> (list: Vec<(PayloadType, Vec<u8>)>)
    ensures
        message::bodies(list@) == eap_part(packet@),
{
    starting(PayloadType::Eap, packet.to_bytes())
}

/// One octet of data, or two.
fn octets_of(first: u8, second: Option<u8>) -> (out: Vec<u8>)
    ensures
        out@ == (match second {
            Some(second) => seq![first, second],
            None => seq![first],
        }),
{
    let mut out: Vec<u8> = Vec::new();
    out.push(first);
    if let Some(second) = second {
        out.push(second);
    }
    out
}

impl EapInitiator {
    pub fn new(
        sa: CompletedSaInit,
        id: Identification,
        user: Vec<u8>,
        password: String,
        child_spi: u32,
        verify: ServerVerify,
    ) -> (initiator: Self)
        ensures
            initiator@ == fresh_peer(
                sa@,
                id@,
                user@,
                password@,
                child_spi,
                seq![child::esp_offered(1, 0, seq![child::gcm256(), child::no_esn()])],
                verify@,
            ),
    {
        Self::new_with_esp_offer(sa, id, user, password, child_spi, esp_offer(0), verify)
    }

    /// Like [`Self::new`], but with a caller-supplied CHILD SA proposal
    /// template instead of the default AES-GCM-256 one — see
    /// [`crate::ikev2::ike_auth::initiator_auth_request_with_cfg`]'s doc for
    /// `esp_offer`'s contract (its own SPI field is ignored/overwritten).
    pub fn new_with_esp_offer(
        sa: CompletedSaInit,
        id: Identification,
        user: Vec<u8>,
        password: String,
        child_spi: u32,
        esp_offer: SecurityAssociation,
        verify: ServerVerify,
    ) -> (initiator: Self)
        ensures
            initiator@ == fresh_peer(sa@, id@, user@, password@, child_spi, esp_offer@, verify@),
    {
        let initiator = EapInitiator {
            sa,
            id,
            user,
            password,
            child_spi,
            esp_offer,
            nt_response: [0u8; 24],
            verify,
            server_verified: false,
            step: PeerStep::Selecting,
            last_request: None,
            server_idr: Vec::new(),
            send_certreq: false,
            peer_child_spi: None,
            peer_esp_suite: None,
            assigned_ip4: None,
            granted_ts: None,
            configuration: None,
            want_cfg: false,
            client_certs: Vec::new(),
            ts_offer: ChildTsOffer::Ipv4,
        };
        assert(initiator@ =~= fresh_peer(sa@, id@, user@, password@, child_spi, esp_offer@, verify@));
        initiator
    }

    /// Include a `CERTREQ` in the first message (mirrors a strongSwan client) —
    /// used to exercise a responder's CERTREQ-based cert selection. With
    /// [`ServerVerify::TrustedCas`], the hashes sent are those of its trusted
    /// CAs (RFC 7296 §3.7) so the responder can pick a matching certificate to
    /// present; otherwise a single all-zero placeholder hash is sent (no CA
    /// list is known to hash).
    pub fn set_send_certreq(&mut self, on: bool)
        ensures
            final(self)@ == (Peer { send_certreq: on, ..old(self)@ }),
    {
        self.send_certreq = on;
    }

    /// Attach the client's own X.509 certificate chain (`chain[0]` = leaf) to
    /// the EAP-triggering first message — for a FortiGate policy configured
    /// for "Certificate + EAP": the gateway wants to see the client's
    /// certificate for its own identity/policy matching, on top of EAP
    /// actually deciding whether the connection is authenticated. An empty
    /// chain (the default) reproduces plain EAP-MSCHAPv2 with no certs
    /// attached at all.
    pub fn set_client_certs(&mut self, chain: Vec<Vec<u8>>)
        ensures
            final(self)@ == (Peer { client_certs: bytes::contents(chain@), ..old(self)@ }),
    {
        self.client_certs = chain;
    }

    /// Carry a CFG_REQUEST ([`Configuration::request_ipv4`]) in the
    /// EAP-triggering first message -- RFC 7296 §2.19 lets mode-config run
    /// alongside any authentication method; some responders require it to
    /// complete before they'll finish an EAP exchange at all. Off by default,
    /// matching the wire behavior of a plain EAP-MSCHAPv2 client that never
    /// asks for an inner address.
    pub fn set_want_cfg(&mut self, on: bool)
        ensures
            final(self)@ == (Peer { want_cfg: on, ..old(self)@ }),
    {
        self.want_cfg = on;
    }

    /// Choose the TSi/TSr the CHILD SA is offered with in the first message
    /// (default [`ChildTsOffer::Ipv4`]) -- see [`ChildTsOffer`].
    pub fn set_ts_offer(&mut self, offer: ChildTsOffer)
        ensures
            final(self)@ == (Peer { ts_offer: offer, ..old(self)@ }),
    {
        self.ts_offer = offer;
    }

    fn certreq_ca_hashes(&self) -> (hashes: Vec<[u8; 20]>)
        ensures
            crate::ikev2::payload::cert::request_octets(hashes@) == asked_octets(
                match self@.verify {
                    Trust::TrustedCas { ca_hashes, .. } => ca_hashes,
                    _ => Seq::empty(),
                },
            ),
    {
        match &self.verify {
            ServerVerify::TrustedCas { ca_hashes, .. } => hashes_to_ask(ca_hashes),
            _ => {
                let none: Vec<[u8; 20]> = Vec::new();
                assert(none@ =~= Seq::<[u8; 20]>::empty());
                hashes_to_ask(&none)
            },
        }
    }

    /// The completed `IKE_SA_INIT` state — `sk_d`/nonces/role, what the data
    /// plane is keyed from. Valid any time; only meaningful once
    /// [`EapEvent::Established`] confirms the CHILD SA actually exists.
    pub fn ike_sa(&self) -> (sa: &CompletedSaInit)
        ensures
            sa@ == self@.sa,
    {
        &self.sa
    }

    /// The SPI we proposed for our own inbound CHILD SA.
    pub fn child_spi(&self) -> (spi: u32)
        ensures
            spi == self@.child_spi,
    {
        self.child_spi
    }

    /// The peer's CHILD SA SPI (from SAr2), once known — set only after
    /// [`EapEvent::Established`].
    pub fn peer_child_spi(&self) -> (spi: Option<u32>)
        ensures
            spi == self@.peer_child_spi,
    {
        self.peer_child_spi
    }

    /// The ESP cipher the responder named in SAr2, once known — set only
    /// after [`EapEvent::Established`].
    pub fn peer_esp_suite(&self) -> (suite: Option<ChosenEspSuite>)
        ensures
            suite == self@.peer_esp_suite,
    {
        self.peer_esp_suite
    }

    /// The inner IPv4 the responder assigned us via CFG_REPLY, if any.
    pub fn assigned_ip4(&self) -> (ip: Option<[u8; 4]>)
        ensures
            viewed_address(ip) == self@.assigned_ip4,
    {
        self.assigned_ip4
    }

    /// The responder's actual granted `TSr` from the final message, if any.
    pub fn granted_ts(&self) -> (selectors: Option<&TrafficSelectors>)
        ensures
            child::viewed_ts(selectors) == self@.granted_ts,
    {
        match &self.granted_ts {
            Some(selectors) => Some(selectors),
            None => None,
        }
    }

    /// The full CFG_REPLY Configuration payload, once known -- lets a caller
    /// read attributes [`Self::assigned_ip4`]/[`Self::granted_ts`] don't
    /// surface directly.
    pub fn configuration(&self) -> (config: Option<&Configuration>)
        ensures
            match config {
                Some(config) => self@.configuration == Some(config@),
                None => self@.configuration is None,
            },
    {
        match &self.configuration {
            Some(config) => Some(config),
            None => None,
        }
    }

    /// What the server's message claims by certificate, if it is one that
    /// authenticates the server so: what is to be checked before
    /// [`Self::vouch`] can let [`Self::handle`] take that message.
    pub fn server_claim(&self, message: &[u8]) -> (claim: Result<Option<CertClaim>, IkeError>)
        requires
            self@.sa.suite.keyed(),
        ensures
            match received(self@.sa, message@) {
                Err(failure) => claim matches Err(error) && error@ == failure,
                Ok((_, list)) => claim matches Ok(claim) && viewed_option(claim) == server_claimed(self@.sa, list),
            },
    {
        match decrypt(&self.sa, message) {
            Ok((_, list)) => Ok(claim_in(&self.sa, &list)),
            Err(error) => Err(error),
        }
    }

    /// Vouch for a claim that was found to build a valid path to one of the trusted
    /// CAs, to name who was expected, and to be signed. Without trusted CAs there is
    /// nothing to vouch for.
    pub fn vouch(&mut self, claim: CertClaim)
        ensures
            final(self)@ == (Peer {
                verify: match old(self)@.verify {
                    Trust::TrustedCas { ca_hashes, .. } => Trust::TrustedCas { ca_hashes, vouched: Some(claim@) },
                    other => other,
                },
                ..old(self)@
            }),
    {
        if let ServerVerify::TrustedCas { ca_hashes, .. } = &self.verify {
            let hashes = crate::ikev2::payload::cert::copy_hashes(ca_hashes);
            self.verify = ServerVerify::TrustedCas { ca_hashes: hashes, vouched: Some(claim) };
        }
    }

    /// Authenticate the server from its first response (`SK{ IDr, [CERT,] AUTH,
    /// EAP }`): the way [`ServerVerify`] asks. Returns `false` on any
    /// failure so the caller can abort.
    fn verify_server(&self, list: &[(PayloadType, Vec<u8>)]) -> (trusted: bool)
        requires
            self@.sa.suite.keyed(),
        ensures
            trusted == self@.trusts(message::bodies(list@)),
    {
        let (idr, body) = match (find(list, PayloadType::IdResponder), find(list, PayloadType::Authentication)) {
            (Some(idr), Some(body)) => (idr, body),
            _ => {
                return false;
            },
        };
        match &self.verify {
            ServerVerify::Insecure => true,
            ServerVerify::Psk(psk) => {
                let auth = match Authentication::parse(body) {
                    Ok(auth) => auth,
                    Err(_) => {
                        return false;
                    },
                };
                let octets = octets_of_responder(&self.sa, idr);
                verify_psk(self.sa.suite.prf_algorithm(), &auth, psk, &octets).is_ok()
            },
            ServerVerify::TrustedCas { vouched, .. } => {
                let claim = match claim_in(&self.sa, list) {
                    Some(claim) => claim,
                    None => {
                        return false;
                    },
                };
                // The three methods direct certificate authentication takes.
                let method: u8 = claim.auth.method;
                if method != auth_method::DIGITAL_SIGNATURE && method != auth_method::RSA_SIG && method
                    != auth_method::ECDSA_SHA256_P256 {
                    return false;
                }
                match vouched {
                    Some(vouched) => vouched.names(&claim.certs, &claim.auth, &claim.octets),
                    None => false,
                }
            },
        }
    }

    /// First message: `SK{ IDi, SAi2, TSi, TSr }` (no AUTH — request EAP).
    pub fn start<E: Entropy>(&self, entropy: &mut E) -> (out: Result<Vec<u8>, IkeError>)
        requires
            self@.sa.suite.cipher() is Some,
        ensures
            exists|iv: Seq<u8>| #[trigger]
                self@.started(iv) == viewed(out) && iv.len() == 8,
    {
        let drawn = entropy::random_bytes(entropy, 8);
        let iv = bytes::array8(&drawn, 0);
        let out = self.start_with(&iv);
        assert(self@.started(iv@) == viewed(out));
        out
    }

    /// First message, with this initialization vector.
    pub fn start_with(&self, iv: &[u8; 8]) -> (out: Result<Vec<u8>, IkeError>)
        requires
            self@.sa.suite.cipher() is Some,
        ensures
            viewed(out) == self@.started(iv@),
    {
        if self.client_certs.len() > 0 {
            let ca_hashes = if self.send_certreq {
                Some(self.certreq_ca_hashes())
            } else {
                None
            };
            assert(ike_auth::certreq_part(ike_auth::viewed_hashes(ca_hashes)) =~= self@.certreq());
            initiator_eap_request_with_certs(
                &self.sa,
                &self.id,
                self.child_spi,
                self.want_cfg,
                &self.esp_offer,
                self.ts_offer,
                &self.client_certs,
                ca_hashes,
                iv,
            )
        } else if self.send_certreq {
            let ca_hashes = self.certreq_ca_hashes();
            assert(ike_auth::certreq_part(Some(ca_hashes@)) =~= self@.certreq());
            initiator_eap_request_with_certreq(
                &self.sa,
                &self.id,
                self.child_spi,
                self.want_cfg,
                &self.esp_offer,
                self.ts_offer,
                ca_hashes,
                iv,
            )
        } else {
            assert(self@.certreq() =~= Seq::<(PayloadType, Seq<u8>)>::empty());
            initiator_eap_request(
                &self.sa,
                &self.id,
                self.child_spi,
                self.want_cfg,
                &self.esp_offer,
                self.ts_offer,
                iv,
            )
        }
    }

    /// Process a responder message and produce the next step. A challenge of our own
    /// is drawn for the Response to an MSCHAPv2 Challenge, and an initialization
    /// vector with each message.
    pub fn handle<E: Entropy>(&mut self, message: &[u8], entropy: &mut E) -> (out: Result<EapEvent, IkeError>)
        requires
            old(self)@.sa.suite.keyed(),
        ensures
            final(self)@.sa == old(self)@.sa,
            exists|challenge: Seq<u8>, iv: Seq<u8>|
                (final(self)@, viewed(out)) == #[trigger] old(self)@.stepped(message@, challenge, iv)
                    && challenge.len() == 16 && iv.len() == 8,
            old(self)@.sa.tampered(old(self)@.sa.peer(), message@) ==> final(self)@ == old(self)@ && viewed(out) == Err::<
                Event,
                Failure,
            >(Failure::BadIntegrity),
    {
        let (message_id, list) = match decrypt(&self.sa, message) {
            Ok(opened) => opened,
            Err(error) => {
                assert((self@, Err::<Event, Failure>(error@)) == old(self)@.stepped(
                    message@,
                    bytes::zeros(16),
                    bytes::zeros(8),
                ));
                return Err(error);
            },
        };
        let mut drawn = Drawn::nothing();
        let out = self.take(message_id, &list, &mut drawn, entropy);
        assert((self@, viewed(out)) == old(self)@.stepped(message@, drawn.challenge(), drawn.iv()));
        out
    }

    /// Process a responder message and produce the next step, with this peer
    /// challenge (for the Response to an MSCHAPv2 Challenge) and initialization
    /// vector.
    pub fn handle_with(&mut self, message: &[u8], challenge: &[u8; 16], iv: &[u8; 8]) -> (out: Result<
        EapEvent,
        IkeError,
    >)
        requires
            old(self)@.sa.suite.keyed(),
        ensures
            (final(self)@, viewed(out)) == old(self)@.stepped(message@, challenge@, iv@),
            final(self)@.sa == old(self)@.sa,
            forall|header: IkeHeader, written: Seq<(PayloadType, Seq<u8>)>, seed: Seq<u8>|
                #[trigger] old(self)@.sa.carries(old(self)@.sa.peer(), header, written, seed, message@) ==> (
                final(self)@,
                viewed(out),
                ) == old(self)@.moved(written, challenge@).sealed(old(self)@.sa, header.message_id, iv@),
            old(self)@.sa.tampered(old(self)@.sa.peer(), message@) ==> final(self)@ == old(self)@ && viewed(out) == Err::<
                Event,
                Failure,
            >(Failure::BadIntegrity),
    {
        let (message_id, list) = match decrypt(&self.sa, message) {
            Ok(opened) => opened,
            Err(error) => {
                return Err(error);
            },
        };
        let mut given = Drawn { challenge: Some(*challenge), iv: Some(*iv) };
        let out = self.take(message_id, &list, &mut given, &mut Unasked);
        assert(given.challenge() == challenge@ && given.iv() == iv@);
        out
    }

    /// Process the payloads of a responder message.
    fn take<E: Entropy>(
        &mut self,
        message_id: u32,
        list: &[(PayloadType, Vec<u8>)],
        drawn: &mut Drawn,
        entropy: &mut E,
    ) -> (out: Result<EapEvent, IkeError>)
        requires
            old(self)@.sa.suite.keyed(),
        ensures
            (final(self)@, viewed(out)) == old(self)@.moved(message::bodies(list@), final(drawn).challenge()).sealed(
                old(self)@.sa,
                message_id,
                final(drawn).iv(),
            ),
            old(drawn).drawn_to(
                *final(drawn),
                old(self)@.moved(message::bodies(list@), final(drawn).challenge()).challenged,
                goes_out(old(self)@.moved(message::bodies(list@), final(drawn).challenge()).says),
            ),
            final(self)@.sa == old(self)@.sa,
    {
        if !self.let_in(list) {
            return Ok(EapEvent::Failed(None));
        }
        self.take_admitted(message_id, list, drawn, entropy)
    }

    /// Note the server's IDr and, in the response by which it authenticates itself,
    /// verify it: whether the message with these payloads is to be taken at all.
    fn let_in(&mut self, list: &[(PayloadType, Vec<u8>)]) -> (let_in: bool)
        requires
            old(self)@.sa.suite.keyed(),
        ensures
            forall|challenge: Seq<u8>|
                #[trigger] old(self)@.moved(message::bodies(list@), challenge) == if let_in {
                    final(self)@.taking(message::bodies(list@), challenge)
                } else {
                    final(self)@.failing(None)
                },
            final(self)@.sa == old(self)@.sa,
    {
        reveal(Peer::moved);
        let ghost all = message::bodies(list@);
        if self.server_idr.len() == 0 {
            if let Some(idr) = find(list, PayloadType::IdResponder) {
                self.server_idr = bytes::copy(idr);
            }
        }
        let ghost noted = old(self)@.noting(all);
        assert(self@ =~= noted);
        // The server authenticates itself in its first response (the one that
        // also carries IDr). Verify it once, before answering any EAP request —
        // so we never send our EAP credentials to an unauthenticated server.
        if !self.server_verified && find(list, PayloadType::IdResponder).is_some() && find(
            list,
            PayloadType::Authentication,
        ).is_some() {
            if !self.verify_server(list) {
                return false;
            }
            self.server_verified = true;
        }
        let ghost checked = Peer { server_verified: noted.server_verified || noted.to_check(all), ..noted };
        assert(self@ =~= checked);
        // Credential firewall: when we require server authentication, refuse to
        // do *anything* else until the server is verified. Otherwise a rogue peer
        // could send a first message with no IDr/AUTH (skipping verify_server) and
        // walk us through EAP, harvesting the username + a crackable MSCHAPv2
        // response. `Insecure` opts out (only for a PSK server in a trusted path).
        matches!(self.verify, ServerVerify::Insecure) || self.server_verified
    }

    /// Take a message from a server that is verified, or need not be.
    fn take_admitted<E: Entropy>(
        &mut self,
        message_id: u32,
        list: &[(PayloadType, Vec<u8>)],
        drawn: &mut Drawn,
        entropy: &mut E,
    ) -> (out: Result<EapEvent, IkeError>)
        requires
            old(self)@.sa.suite.keyed(),
        ensures
            (final(self)@, viewed(out)) == old(self)@.taking(message::bodies(list@), final(drawn).challenge()).sealed(
                old(self)@.sa,
                message_id,
                final(drawn).iv(),
            ),
            old(drawn).drawn_to(
                *final(drawn),
                old(self)@.taking(message::bodies(list@), final(drawn).challenge()).challenged,
                goes_out(old(self)@.taking(message::bodies(list@), final(drawn).challenge()).says),
            ),
            final(self)@.sa == old(self)@.sa,
    {
        let body = match find(list, PayloadType::Eap) {
            Some(body) => body,
            None => {
                let ghost made = self@.concluding(message::bodies(list@));
                let out = self.conclude(list);
                assert((self@, viewed(out)) == made.sealed(old(self)@.sa, message_id, drawn.iv()));
                return out;
            },
        };
        if matches!(self.step, PeerStep::AuthSent) {
            return Ok(EapEvent::Failed(None));
        }
        let packet = match EapPacket::parse(body) {
            Ok(packet) => packet,
            Err(error) => {
                return Err(error);
            },
        };
        self.hear(message_id, packet, drawn, entropy)
    }

    /// No EAP → the responder's final message, which answers our MSK-keyed AUTH:
    /// before that went out there is no MSK to check it with. Key-confirm its
    /// MSK-keyed AUTH (mirroring what the responder does to us); presence alone
    /// is not enough — it must prove it derived the same EAP MSK.
    fn conclude(&mut self, list: &[(PayloadType, Vec<u8>)]) -> (out: Result<EapEvent, IkeError>)
        requires
            old(self)@.sa.suite.keyed(),
        ensures
            forall|sa: Completed, message_id: u32, iv: Seq<u8>|
                (final(self)@, viewed(out)) == #[trigger] old(self)@.concluding(message::bodies(list@)).sealed(
                    sa,
                    message_id,
                    iv,
                ),
            final(self)@.sa == old(self)@.sa,
    {
        if !matches!(self.step, PeerStep::AuthSent) {
            return Ok(EapEvent::Failed(None));
        }
        let body = match find(list, PayloadType::Authentication) {
            Some(body) => body,
            None => {
                return Ok(EapEvent::Failed(None));
            },
        };
        let got = match Authentication::parse(body) {
            Ok(got) => got,
            Err(error) => {
                return Err(error);
            },
        };
        let msk = mschapv2::derive_msk(self.password.as_str(), &self.nt_response);
        let octets = octets_of_responder(&self.sa, &self.server_idr);
        let verified = verify_psk(self.sa.suite.prf_algorithm(), &got, &msk, &octets).is_ok();
        assert(verified == (got@ == self@.expected_auth()));
        let sar2 = match find(list, PayloadType::SecurityAssociation) {
            Some(sar2) => sar2,
            None => {
                // RFC 7296 §1.2: a CHILD SA that fails inside IKE_AUTH leaves the
                // IKE SA established, so this final message is a valid AUTH plus
                // an error notify and no SA/TS. Once the MSK-keyed AUTH has
                // verified, that is a rejection with a stated reason.
                if verified {
                    if let Some(error) = refusal(list) {
                        return Err(IkeError::PeerRejected { notify_type: error, name: notify_type_name(error) });
                    }
                }
                return Ok(EapEvent::Failed(None));
            },
        };
        if !verified {
            return Ok(EapEvent::Failed(None));
        }
        self.establish(list, sar2)
    }

    /// The final message's AUTH has verified: take the CHILD SA it grants.
    fn establish(&mut self, list: &[(PayloadType, Vec<u8>)], sar2: &[u8]) -> (out: Result<EapEvent, IkeError>)
        ensures
            forall|sa: Completed, message_id: u32, iv: Seq<u8>|
                (final(self)@, viewed(out)) == #[trigger] old(self)@.establishing(
                    message::bodies(list@),
                    sar2@,
                ).sealed(sa, message_id, iv),
            final(self)@.sa == old(self)@.sa,
    {
        let esp_suite = match SecurityAssociation::parse(sar2) {
            Ok(sa) => negotiate::select_esp(&sa),
            Err(_) => None,
        };
        assert(esp_suite == esp_in(sar2@));
        // RFC 7296 §2.7: the responder's SAr2 must be built from the ESP proposal
        // we actually offered, not merely one `select_esp` knows how to decode.
        // Once the MSK-keyed AUTH has verified, a mismatch here is a downgrade
        // attempt, not a malformed message.
        if let Some(suite) = &esp_suite {
            if !suite.matches_offer(&self.esp_offer) {
                return Err(IkeError::NoProposalChosen);
            }
        }
        // RFC 7296 §2.9: both TS payloads, each within what we proposed.
        let tsi = match parse_ts(find(list, PayloadType::TrafficSelectorInitiator)) {
            Ok(tsi) => tsi,
            Err(error) => {
                return Err(error);
            },
        };
        let tsr = match parse_ts(find(list, PayloadType::TrafficSelectorResponder)) {
            Ok(tsr) => tsr,
            Err(error) => {
                return Err(error);
            },
        };
        let tsi_ref = match &tsi {
            Some(ts) => Some(ts),
            None => None,
        };
        let tsr_ref = match &tsr {
            Some(ts) => Some(ts),
            None => None,
        };
        match check_granted_ts(&self.ts_offer.selectors(), tsi_ref, tsr_ref) {
            Ok(()) => (),
            Err(error) => {
                return Err(error);
            },
        }
        self.peer_child_spi = esp_spi_from_sa(sar2);
        self.peer_esp_suite = esp_suite;
        if let Some(body) = find(list, PayloadType::Configuration) {
            if let Ok(config) = Configuration::parse(body) {
                self.assigned_ip4 = config.assigned_ipv4();
                self.configuration = Some(config);
            }
        }
        self.granted_ts = tsr;
        assert(self@ =~= old(self)@.with_child(
            sar2@,
            viewed_option(tsr),
            config_in(found(message::bodies(list@), PayloadType::Configuration)),
        ));
        Ok(EapEvent::Established(None))
    }

    /// Take an EAP packet.
    fn hear<E: Entropy>(&mut self, message_id: u32, packet: EapPacket, drawn: &mut Drawn, entropy: &mut E) -> (out:
        Result<EapEvent, IkeError>)
        requires
            old(self)@.sa.suite.keyed(),
            !(old(self)@.step is AuthSent),
        ensures
            (final(self)@, viewed(out)) == old(self)@.hearing(packet@, final(drawn).challenge()).sealed(
                old(self)@.sa,
                message_id,
                final(drawn).iv(),
            ),
            old(drawn).drawn_to(
                *final(drawn),
                old(self)@.hearing(packet@, final(drawn).challenge()).challenged,
                goes_out(old(self)@.hearing(packet@, final(drawn).challenge()).says),
            ),
            final(self)@.sa == old(self)@.sa,
    {
        let next_id: u32 = message_id.wrapping_add(1);
        if packet.code == eap::code::SUCCESS {
            // RFC 3748 §4.2: EAP-Success counts only once the method has
            // finished -- here, once the server proved it knows the
            // password. A "canned" one before that is no success.
            if !matches!(self.step, PeerStep::ServerProven) {
                return Ok(EapEvent::Failed(None));
            }
            // It is the reply to the Response we sent last, so it carries
            // that one's Identifier, and no data: its Length is 4 (§4.2).
            // Octets past that Length are padding, which `parse` already
            // left out (§4). An IKE_AUTH response is not sent again in
            // another form, so a Success that does not answer ours ends
            // the exchange rather than being waited past.
            let answers_ours = match &self.last_request {
                Some((_, response)) => response.identifier == packet.identifier,
                None => false,
            };
            if !answers_ours || packet.data.len() > 0 {
                return Ok(EapEvent::Failed(None));
            }
            // EAP done: send AUTH keyed by the MSK.
            let msk = mschapv2::derive_msk(self.password.as_str(), &self.nt_response);
            let octets = octets_of_initiator(&self.sa, &self.id.to_bytes());
            let auth = psk_auth_payload(self.sa.suite.prf_algorithm(), &msk, &octets);
            assert(auth@ == self@.own_auth());
            let inner = starting(PayloadType::Authentication, auth.to_bytes());
            return match say(&self.sa, next_id, false, &inner, drawn, entropy) {
                Ok(message) => {
                    self.step = PeerStep::AuthSent;
                    Ok(EapEvent::Reply(message))
                },
                Err(error) => Err(error),
            };
        }
        if packet.code != eap::code::REQUEST {
            return Ok(EapEvent::Failed(None));
        }
        // RFC 3748 §4.1: a duplicate of the Request we last answered gets
        // the same Response, and is not processed again. Another Request
        // under its Identifier is no duplicate.

        if let Some((request, response)) = &self.last_request {
            if packet.identifier == request.identifier {
                if !same_packet(&packet, request) {
                    return Ok(EapEvent::Failed(None));
                }
                return match say(&self.sa, next_id, false, &eap_payload(response), drawn, entropy) {
                    Ok(message) => Ok(EapEvent::Reply(message)),
                    Err(error) => Err(error),
                };
            }
        }
        let data = match self.answer(&packet, drawn, entropy) {
            Ok(Ok(data)) => data,
            Ok(Err(reason)) => {
                return Ok(EapEvent::Failed(reason));
            },
            Err(error) => {
                return Err(error);
            },
        };
        let response = EapPacket { code: eap::code::RESPONSE, identifier: packet.identifier, data };
        match say(&self.sa, next_id, false, &eap_payload(&response), drawn, entropy) {
            Ok(message) => {
                self.last_request = Some((packet, response));
                Ok(EapEvent::Reply(message))
            },
            Err(error) => Err(error),
        }
    }

    /// The Type-Data of our Response to a new EAP Request, or `Err` to end
    /// the exchange -- with the server's reason when it gave one. Each
    /// Request is taken only in the step it belongs to.
    fn answer<E: Entropy>(&mut self, packet: &EapPacket, drawn: &mut Drawn, entropy: &mut E) -> (out: Result<
        Result<Vec<u8>, Option<EapFailureReason>>,
        IkeError,
    >)
        ensures
            match old(self)@.answered(packet@, final(drawn).challenge()) {
                Err(failure) => final(self)@ == old(self)@ && (out matches Err(error) && error@ == failure),
                Ok(Err(reason)) => final(self)@ == old(self)@ && (out matches Ok(Err(why)) && viewed_option(why)
                    == reason),
                Ok(Ok((peer, data))) => final(self)@ == peer && (out matches Ok(Ok(octets)) && octets@ == data),
            },
            old(drawn).drawn_to(*final(drawn), old(self)@.challenges(packet@) && out is Ok, false),
            final(self)@.sa == old(self)@.sa,
    {
        let method: u8 = match packet.eap_type() {
            Some(method) => method,
            None => {
                return Ok(Err(None));
            },
        };
        let op = packet.op();
        let selecting = matches!(self.step, PeerStep::Selecting);
        if selecting && method == eap::eap_type::IDENTITY {
            let mut data = octets_of(eap::eap_type::IDENTITY, None);
            bytes::push_all(&mut data, &self.user);
            return Ok(Ok(data));
        }
        // RFC 3748 §5.2: a Notification Request gets a Notification
        // Response (no Type-Data), whatever else is going on, and
        // changes nothing.

        if method == eap::eap_type::NOTIFICATION && !matches!(self.step, PeerStep::AuthSent) {
            return Ok(Ok(octets_of(eap::eap_type::NOTIFICATION, None)));
        }
        if method == eap::eap_type::MSCHAPV2 {
            if selecting && op == Some(eap::op::CHALLENGE) {
                let (mschap_id, auth_challenge, _name) = match eap::parse_challenge(&packet.data) {
                    Ok(parsed) => parsed,
                    Err(error) => {
                        return Err(error);
                    },
                };
                let challenge = drawn.draw_challenge(entropy);
                self.nt_response = mschapv2::generate_nt_response(
                    &auth_challenge,
                    &challenge,
                    &self.user,
                    self.password.as_str(),
                );
                self.step = PeerStep::Answered { mschap_id, auth_challenge, peer_challenge: challenge };
                assert(self@ =~= old(self)@.challenged(mschap_id, auth_challenge@, challenge@));
                return Ok(
                    Ok(
                        eap::build_response(
                            mschap_id,
                            &auth_challenge,
                            &challenge,
                            &self.user,
                            self.password.as_str(),
                        ),
                    ),
                );
            }
            if op == Some(eap::op::SUCCESS) {
                if let PeerStep::Answered { mschap_id, auth_challenge, peer_challenge } = self.step {
                    // RFC 2759 §8.8, draft-kamath-pppext-eap-mschapv2 §2.3: the
                    // server proves it knows the password with the authenticator
                    // response; if that is missing or wrong the session ends
                    // without an answer -- and so without the MSK-keyed AUTH.
                    // It answers our Response, so it carries that one's
                    // MS-CHAPv2-ID (RFC 2759 §5 keeps the CHAP Success format,
                    // RFC 1994 §4.2).
                    let expected = mschapv2::authenticator_response(
                        self.password.as_str(),
                        &self.nt_response,
                        &peer_challenge,
                        &auth_challenge,
                        &self.user,
                    );
                    return match eap::parse_success(&packet.data) {
                        Ok(got) => {
                            if packet.data[2] == mschap_id && bytes::same(&got, &expected) {
                                self.step = PeerStep::ServerProven;
                                Ok(Ok(octets_of(eap::eap_type::MSCHAPV2, Some(eap::op::SUCCESS))))
                            } else {
                                Ok(Err(None))
                            }
                        },
                        Err(_) => Ok(Err(None)),
                    };
                }
            }
            if op == Some(eap::op::FAILURE) {
                // The server's own stated reason, e.g. "E=691 R=1 C=<chal> V=3"
                // (RFC 2759 -- E=691 is ERROR_AUTHENTICATION_FAILURE, a
                // rejected username/password, not a protocol problem).
                return Ok(Err(Some(failure_reason(&packet.data))));
            }
            return Ok(Err(None));
        }
        // RFC 3748 §5.3.1, §5.3.2: until a method has begun, a Request
        // for one we don't run (Expanded Types included -- we support
        // none) gets a Legacy Nak naming MSCHAPv2. Types 1-3 are no
        // methods, and once MSCHAPv2 has begun no other runs (§2.1).

        if selecting && method > eap::eap_type::NAK {
            return Ok(Ok(octets_of(eap::eap_type::NAK, Some(eap::eap_type::MSCHAPV2))));
        }
        Ok(Err(None))
    }
}

} // verus!
