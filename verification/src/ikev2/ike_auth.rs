//! The `IKE_AUTH` exchange (RFC 7296 §1.2), implemented for both roles.
//!
//! ```text
//! Initiator → HDR, SK { IDi, AUTH, SAi2, TSi, TSr }
//! Responder → HDR, SK { IDr, AUTH, SAr2, TSi, TSr }
//! ```
//!
//! Everything rides inside the encrypted [`crate::ikev2::sk`] payload, keyed by the
//! `IKE_SA_INIT`-derived keys. Each side proves it sent its SA_INIT message via
//! the AUTH payload (see [`crate::ikev2::auth`]). Because the responder can only
//! decrypt the initiator's `SK{}` (and vice versa) if both derived the same
//! keys, a successful `IKE_AUTH` *proves* the SA_INIT key agreement.
//!
//! Keys of certificates are not handled here: a certificate signature is made
//! and checked by whoever holds the keys and the trusted CAs. What is to be
//! signed is [`crate::ikev2::auth::initiator_signed_octets`] and its counterpart;
//! what a peer claims is a [`CertClaim`], and a configuration names the claim
//! that was checked and found good.

use vstd::prelude::*;

use crate::bytes;
use crate::crypto::PrfAlgorithm;
use crate::error::{viewed, viewed_option, Failure, IkeError};
use crate::ikev2::auth;
use crate::ikev2::auth::{initiator_signed_octets, psk_auth, responder_signed_octets};
use crate::ikev2::child;
use crate::ikev2::exchange::{Completed, CompletedSaInit};
use crate::ikev2::informational::{open_from, seal_from};
use crate::ikev2::message;
use crate::ikev2::message::{payloads, ExchangeType, Flags, Framed, IkeHeader, PayloadType, RawPayload};
use crate::ikev2::mobike;
use crate::ikev2::mobike::bare_notice;
use crate::ikev2::negotiate;
use crate::ikev2::negotiate::ChosenEspSuite;
use crate::ikev2::payload::basic::Notice;
use crate::ikev2::payload::cert;
use crate::ikev2::payload::cert::Presented;
use crate::ikev2::payload::config::{viewed_address, Settings};
use crate::ikev2::payload::identity::{Identity, Proof};
use crate::ikev2::payload::sa;
use crate::ikev2::payload::sa::Offered;
use crate::ikev2::payload::ts;
use crate::ikev2::payload::ts::Selector;
use crate::ikev2::payload::{
    auth_method, notify_type, notify_type_name, sighash, Authentication, CertRequest, Certificate, Configuration,
    Identification, Notify, Proposal, SecurityAssociation, TrafficSelectors,
};
use crate::role::Role;

pub use crate::ikev2::child::{
    answer_esp_offer, assigned_ipv4_policy, check_granted_ts, child_sa_error_of, esp_offer, esp_offer_for_cipher,
    esp_spi, narrow_requested_ts, sai2, ChildTsOffer,
};

verus! {

broadcast use crate::bytes::group_lengths;

/// How this side proves its own identity in `IKE_AUTH`.
///
/// The secret is not wiped by itself; callers holding a PSK for longer than one
/// exchange should wipe it when done.
#[derive(Clone)]
pub enum LocalAuth {
    /// Pre-shared key (Auth Method 2).
    Psk(Vec<u8>),
    /// An X.509 chain (`chain[0]` = leaf, the rest intermediates), and the AUTH
    /// payload the leaf's key signed, of the method [`cert_auth_method`] gives.
    Cert { chain: Vec<Vec<u8>>, auth: Authentication },
}

/// What a peer that authenticates by certificate claims: the certificates it
/// sent (`certs[0]` = leaf), its AUTH payload, and the octets that signs.
#[derive(Debug, Clone, PartialEq, Eq)]
pub struct CertClaim {
    pub certs: Vec<Vec<u8>>,
    pub auth: Authentication,
    pub octets: Vec<u8>,
}

/// How this side authenticates the peer in `IKE_AUTH`.
#[derive(Clone)]
pub enum PeerAuth {
    /// Pre-shared key — the peer's AUTH must match this secret.
    Psk(Vec<u8>),
    /// Certificates: `ca_hashes` are what a request asks the peer for, and
    /// `vouched` is the claim that was found to build a valid path to a trusted
    /// CA, to name who was expected, and to be signed.
    Cert { ca_hashes: Vec<[u8; 20]>, vouched: Option<CertClaim> },
}

/// One side's `IKE_AUTH` configuration: our identity, how we prove it, and how
/// we authenticate the peer.
#[derive(Clone)]
pub struct AuthConfig {
    pub id: Identification,
    pub local: LocalAuth,
    pub peer: PeerAuth,
}

/// A [`LocalAuth`] as a value of the specification.
#[verifier::ext_equal]
pub enum Prover {
    Psk(Seq<u8>),
    Cert { chain: Seq<Seq<u8>>, auth: Proof },
}

/// A [`CertClaim`] as a value of the specification.
#[verifier::ext_equal]
pub struct Claim {
    pub certs: Seq<Seq<u8>>,
    pub auth: Proof,
    pub octets: Seq<u8>,
}

/// A [`PeerAuth`] as a value of the specification.
#[verifier::ext_equal]
pub enum Verifier {
    Psk(Seq<u8>),
    Cert { ca_hashes: Seq<[u8; 20]>, vouched: Option<Claim> },
}

/// An [`AuthConfig`] as a value of the specification.
#[verifier::ext_equal]
pub struct Config {
    pub id: Identity,
    pub local: Prover,
    pub peer: Verifier,
}

impl View for LocalAuth {
    type V = Prover;

    open spec fn view(&self) -> Prover {
        match self {
            LocalAuth::Psk(psk) => Prover::Psk(psk@),
            LocalAuth::Cert { chain, auth } => Prover::Cert { chain: bytes::contents(chain@), auth: auth@ },
        }
    }
}

impl View for CertClaim {
    type V = Claim;

    open spec fn view(&self) -> Claim {
        Claim { certs: bytes::contents(self.certs@), auth: self.auth@, octets: self.octets@ }
    }
}

impl View for PeerAuth {
    type V = Verifier;

    open spec fn view(&self) -> Verifier {
        match self {
            PeerAuth::Psk(psk) => Verifier::Psk(psk@),
            PeerAuth::Cert { ca_hashes, vouched } => Verifier::Cert {
                ca_hashes: ca_hashes@,
                vouched: viewed_option(*vouched),
            },
        }
    }
}

impl View for AuthConfig {
    type V = Config;

    open spec fn view(&self) -> Config {
        Config { id: self.id@, local: self.local@, peer: self.peer@ }
    }
}

impl AuthConfig {
    /// Mutual pre-shared-key auth with a single shared secret.
    pub fn psk(id: Identification, psk: Vec<u8>) -> (config: Self)
        ensures
            config@ == (Config { id: id@, local: Prover::Psk(psk@), peer: Verifier::Psk(psk@) }),
    {
        let ours = bytes::copy(&psk);
        AuthConfig { id, local: LocalAuth::Psk(ours), peer: PeerAuth::Psk(psk) }
    }
}

/// The inner-network config a responder hands the initiator in the `IKE_AUTH`
/// Configuration Payload (CFG_REPLY). A native IKEv2 client (iOS/Android) needs
/// at least the address to bring up its tunnel interface; the DNS servers make
/// name resolution work once all traffic is captured (full tunnel).
#[derive(Debug, Clone)]
pub struct AssignedConfig {
    /// The inner/virtual IPv4 assigned to the client (used as a host /32).
    pub ip: [u8; 4],
    /// DNS resolvers, reachable through the tunnel: the first is pushed. May be empty.
    pub dns: Vec<[u8; 4]>,
}

/// An [`AssignedConfig`] as a value of the specification.
#[verifier::ext_equal]
pub struct Assigned {
    pub ip: Seq<u8>,
    /// The first resolver, if there is one.
    pub dns: Option<Seq<u8>>,
}

impl View for AssignedConfig {
    type V = Assigned;

    open spec fn view(&self) -> Assigned {
        Assigned {
            ip: self.ip@,
            dns: if self.dns@.len() == 0 {
                None
            } else {
                Some(self.dns@[0]@)
            },
        }
    }
}

/// An optional assignment taken by its view.
pub open spec fn viewed_assigned(assigned: Option<&AssignedConfig>) -> Option<Assigned> {
    match assigned {
        Some(assigned) => Some(assigned@),
        None => None,
    }
}

impl Assigned {
    /// The CFG_REPLY that hands this assignment out.
    pub open spec fn reply(self) -> Settings {
        Settings::reply_ipv4(self.ip, None, self.dns)
    }
}

/// The address an optional assignment hands out.
pub open spec fn assigned_ip(assigned: Option<Assigned>) -> Option<Seq<u8>> {
    match assigned {
        Some(assigned) => Some(assigned.ip),
        None => None,
    }
}

impl AssignedConfig {
    /// The CFG_REPLY that hands this assignment out.
    pub(crate) fn to_reply(&self) -> (reply: Configuration)
        ensures
            reply@ == self@.reply(),
    {
        let dns = if self.dns.len() == 0 {
            None
        } else {
            Some(self.dns[0])
        };
        Configuration::reply_ipv4(self.ip, None, dns)
    }
}

/// The address an optional assignment hands out.
pub(crate) fn ip_of(assigned: Option<&AssignedConfig>) -> (ip: Option<[u8; 4]>)
    ensures
        viewed_address(ip) == assigned_ip(viewed_assigned(assigned)),
{
    match assigned {
        Some(assigned) => Some(assigned.ip),
        None => None,
    }
}

/// Append a payload to a list of them.
pub(crate) fn add_part(list: &mut Vec<(PayloadType, Vec<u8>)>, payload_type: PayloadType, body: Vec<u8>)
    ensures
        message::bodies(final(list)@) == message::bodies(old(list)@).push((payload_type, body@)),
{
    list.push((payload_type, body));
    assert(message::bodies(list@) =~= message::bodies(old(list)@).push((payload_type, body@)));
}

/// The Certificate payloads of a chain.
pub open spec fn cert_parts(chain: Seq<Seq<u8>>) -> Seq<(PayloadType, Seq<u8>)> {
    chain.map_values(|der: Seq<u8>| (PayloadType::Certificate, Presented::x509(der).octets()))
}

/// Append the Certificate payloads of a chain.
pub(crate) fn add_certs(list: &mut Vec<(PayloadType, Vec<u8>)>, chain: &[Vec<u8>])
    ensures
        message::bodies(final(list)@) == message::bodies(old(list)@) + cert_parts(bytes::contents(chain@)),
{
    let ghost before = message::bodies(list@);
    let ghost parts = cert_parts(bytes::contents(chain@));
    for i in 0..chain.len()
        invariant
            parts == cert_parts(bytes::contents(chain@)),
            message::bodies(list@) == before + parts.take(i as int),
    {
        let cert = Certificate::x509(bytes::copy(&chain[i]));
        add_part(list, PayloadType::Certificate, cert.to_bytes());
        proof {
            assert(parts[i as int] == (PayloadType::Certificate, cert@.octets()));
            assert(message::bodies(list@) =~= before + parts.take(i + 1));
        }
    }
    assert(parts.take(parts.len() as int) =~= parts);
}

/// The header of an `IKE_AUTH` message; Message ID 1, `IKE_SA_INIT` being 0.
pub open spec fn auth_header(sa: Completed, is_response: bool) -> IkeHeader {
    IkeHeader {
        initiator_spi: sa.spi_i,
        responder_spi: sa.spi_r,
        next_payload: PayloadType::NoNext,
        major_version: 2,
        minor_version: 0,
        exchange_type: ExchangeType::IkeAuth,
        flags: Flags { initiator: !is_response, version: false, response: is_response },
        message_id: 1,
        length: 0,
    }
}

/// The header of an `IKE_AUTH` message.
pub fn ike_auth_header(sa: &CompletedSaInit, is_response: bool) -> (header: IkeHeader)
    ensures
        header == auth_header(sa@, is_response),
{
    IkeHeader {
        initiator_spi: sa.spi_i,
        responder_spi: sa.spi_r,
        next_payload: PayloadType::NoNext,
        major_version: 2,
        minor_version: 0,
        exchange_type: ExchangeType::IkeAuth,
        // The Initiator (I) flag marks messages from the original initiator.
        flags: Flags { initiator: !is_response, version: false, response: is_response },
        message_id: 1,
        length: 0,
    }
}

/// The ID + AUTH (+ any CERT, + the ESP SA) payloads pulled from a decrypted
/// `IKE_AUTH`.
#[derive(Debug, Clone, PartialEq, Eq)]
pub struct AuthPayloads {
    /// The raw ID payload body (ID Type + RESERVED + data) — this *is* the
    /// RestOf*IDPayload the AUTH signs over.
    pub id_body: Vec<u8>,
    pub auth: Authentication,
    /// Any CERT payloads, in order: `[0]` is the leaf, the rest intermediates.
    pub certs: Vec<Vec<u8>>,
    /// The peer's SA payload (SAi2 / SAr2), if present (a malformed one fails
    /// the parse).
    pub child_sa: Option<SecurityAssociation>,
    /// The inner IPv4 the peer assigned us via a Configuration Payload
    /// (CFG_REPLY, INTERNAL_IP4_ADDRESS) — set only on the initiator's parse of
    /// the responder's response.
    pub assigned_ip4: Option<[u8; 4]>,
    /// The TSi payload, if present (a malformed one fails the parse).
    pub tsi: Option<TrafficSelectors>,
    /// The responder's actual granted `TSr` — what the negotiated CHILD_SA
    /// really covers, independent of (and often more authoritative than) any
    /// CFG_REPLY `INTERNAL_IP4_SUBNET`. `None` only if the payload is missing
    /// (a malformed one fails the parse).
    pub tsr: Option<TrafficSelectors>,
    /// Whether the peer sent `N(INITIAL_CONTACT)` (RFC 7296 §2.4) — this is
    /// the initiator's first SA with us since it last restarted, so any prior
    /// IKE SA we hold for the same peer identity is stale and should be torn
    /// down once this one authenticates.
    pub initial_contact: bool,
    /// The first CHILD-SA error notify the peer sent (see
    /// [`notify_type::is_child_sa_error`]) -- RFC 7296 §1.2: the IKE SA is
    /// still established when the CHILD SA of `IKE_AUTH` fails, so the response
    /// then carries a valid ID/AUTH and this notify but no SA/TS payloads.
    pub child_error: Option<u16>,
    /// Whether the peer sent `N(MOBIKE_SUPPORTED)` (RFC 4555 §3.1) -- a
    /// responder may echo it, enabling MOBIKE, only when this is set.
    pub mobike_supported: bool,
}

/// An [`AuthPayloads`] as a value of the specification.
#[verifier::ext_equal]
pub struct Gotten {
    pub id_body: Seq<u8>,
    pub auth: Proof,
    pub certs: Seq<Seq<u8>>,
    pub child_sa: Option<Seq<Offered>>,
    pub assigned_ip4: Option<Seq<u8>>,
    pub tsi: Option<Seq<Selector>>,
    pub tsr: Option<Seq<Selector>>,
    pub initial_contact: bool,
    pub child_error: Option<u16>,
    pub mobike_supported: bool,
}

impl View for AuthPayloads {
    type V = Gotten;

    open spec fn view(&self) -> Gotten {
        Gotten {
            id_body: self.id_body@,
            auth: self.auth@,
            certs: bytes::contents(self.certs@),
            child_sa: viewed_option(self.child_sa),
            assigned_ip4: viewed_address(self.assigned_ip4),
            tsi: viewed_option(self.tsi),
            tsr: viewed_option(self.tsr),
            initial_contact: self.initial_contact,
            child_error: self.child_error,
            mobike_supported: self.mobike_supported,
        }
    }
}

/// What was found so far in the payloads of an `IKE_AUTH` message.
struct Scan {
    id_body: Option<Vec<u8>>,
    auth: Option<Authentication>,
    certs: Vec<Vec<u8>>,
    child_sa: Option<SecurityAssociation>,
    assigned_ip4: Option<[u8; 4]>,
    tsi: Option<TrafficSelectors>,
    tsr: Option<TrafficSelectors>,
    initial_contact: bool,
    child_error: Option<u16>,
    mobike_supported: bool,
}

/// What was found so far in the payloads of an `IKE_AUTH` message.
#[verifier::ext_equal]
pub struct Found {
    pub id_body: Option<Seq<u8>>,
    pub auth: Option<Proof>,
    pub certs: Seq<Seq<u8>>,
    pub child_sa: Option<Seq<Offered>>,
    pub assigned_ip4: Option<Seq<u8>>,
    pub tsi: Option<Seq<Selector>>,
    pub tsr: Option<Seq<Selector>>,
    pub initial_contact: bool,
    pub child_error: Option<u16>,
    pub mobike_supported: bool,
}

impl View for Scan {
    type V = Found;

    closed spec fn view(&self) -> Found {
        Found {
            id_body: viewed_option(self.id_body),
            auth: viewed_option(self.auth),
            certs: bytes::contents(self.certs@),
            child_sa: viewed_option(self.child_sa),
            assigned_ip4: viewed_address(self.assigned_ip4),
            tsi: viewed_option(self.tsi),
            tsr: viewed_option(self.tsr),
            initial_contact: self.initial_contact,
            child_error: self.child_error,
            mobike_supported: self.mobike_supported,
        }
    }
}

impl Found {
    /// Nothing found yet.
    pub open spec fn nothing() -> Found {
        Found {
            id_body: None,
            auth: None,
            certs: Seq::empty(),
            child_sa: None,
            assigned_ip4: None,
            tsi: None,
            tsr: None,
            initial_contact: false,
            child_error: None,
            mobike_supported: false,
        }
    }

    /// A notify of this type taken in: of the CHILD SA errors the first counts.
    pub open spec fn with_notify(self, notify_type: u16) -> Found {
        if notify_type == notify_type::INITIAL_CONTACT {
            Found { initial_contact: true, ..self }
        } else if notify_type == notify_type::MOBIKE_SUPPORTED {
            Found { mobike_supported: true, ..self }
        } else if self.child_error is None && notify_type::child_sa_error(notify_type) {
            Found { child_error: Some(notify_type), ..self }
        } else {
            self
        }
    }

    /// One payload taken in: a later one of a type takes the place of an earlier,
    /// but for certificates, which add up. A malformed AUTH, SA or TS payload
    /// makes the message malformed; a malformed certificate, configuration or
    /// notify is passed over.
    pub open spec fn with(self, payload: Framed) -> Result<Found, Failure> {
        match payload.payload_type {
            PayloadType::IdInitiator => Ok(Found { id_body: Some(payload.data), ..self }),
            PayloadType::IdResponder => Ok(Found { id_body: Some(payload.data), ..self }),
            PayloadType::Authentication => match Proof::read(payload.data) {
                Err(failure) => Err(failure),
                Ok(auth) => Ok(Found { auth: Some(auth), ..self }),
            },
            PayloadType::Certificate => match Presented::read(payload.data) {
                Err(_) => Ok(self),
                Ok(cert) => Ok(Found { certs: self.certs.push(cert.data), ..self }),
            },
            PayloadType::SecurityAssociation => match sa::read_proposals(payload.data) {
                Err(failure) => Err(failure),
                Ok(child_sa) => Ok(Found { child_sa: Some(child_sa), ..self }),
            },
            PayloadType::Configuration => match Settings::read(payload.data) {
                Err(_) => Ok(self),
                Ok(config) => Ok(Found { assigned_ip4: config.assigned_ipv4(), ..self }),
            },
            PayloadType::TrafficSelectorInitiator => match ts::read(payload.data) {
                Err(failure) => Err(failure),
                Ok(tsi) => Ok(Found { tsi: Some(tsi), ..self }),
            },
            PayloadType::TrafficSelectorResponder => match ts::read(payload.data) {
                Err(failure) => Err(failure),
                Ok(tsr) => Ok(Found { tsr: Some(tsr), ..self }),
            },
            PayloadType::Notify => match Notice::read(payload.data) {
                Err(_) => Ok(self),
                Ok(notify) => Ok(self.with_notify(notify.notify_type)),
            },
            _ => Ok(self),
        }
    }

    /// Every payload of the chain taken in, one after the other, up to the first
    /// that is malformed.
    pub open spec fn with_all(self, first: PayloadType, body: Seq<u8>) -> Result<Found, Failure>
        decreases body.len(),
    {
        if first == PayloadType::NoNext {
            Ok(self)
        } else {
            match message::head(first, body) {
                Err(failure) => Err(failure),
                Ok(payload) => match self.with(payload) {
                    Err(failure) => Err(failure),
                    Ok(more) => more.with_all(message::next_type(body), message::after_head(body)),
                },
            }
        }
    }

    /// What the payloads make up: an `IKE_AUTH` message has an ID and an AUTH.
    pub open spec fn concluded(self) -> Result<Gotten, Failure> {
        match self.id_body {
            None => Err(Failure::MissingPayload("ID"@)),
            Some(id_body) => match self.auth {
                None => Err(Failure::MissingPayload("AUTH"@)),
                Some(auth) => Ok(
                    Gotten {
                        id_body,
                        auth,
                        certs: self.certs,
                        child_sa: self.child_sa,
                        assigned_ip4: self.assigned_ip4,
                        tsi: self.tsi,
                        tsr: self.tsr,
                        initial_contact: self.initial_contact,
                        child_error: self.child_error,
                        mobike_supported: self.mobike_supported,
                    },
                ),
            },
        }
    }
}

impl Gotten {
    /// The payloads of an `IKE_AUTH` message whose SK payload holds this chain.
    pub open spec fn read(first: PayloadType, inner: Seq<u8>) -> Result<Gotten, Failure> {
        match Found::nothing().with_all(first, inner) {
            Err(failure) => Err(failure),
            Ok(found) => found.concluded(),
        }
    }
}

impl Scan {
    /// Nothing found yet.
    fn nothing() -> (scan: Scan)
        ensures
            scan@ == Found::nothing(),
    {
        let scan = Scan {
            id_body: None,
            auth: None,
            certs: Vec::new(),
            child_sa: None,
            assigned_ip4: None,
            tsi: None,
            tsr: None,
            initial_contact: false,
            child_error: None,
            mobike_supported: false,
        };
        assert(scan@ =~= Found::nothing());
        scan
    }

    /// Take a notify of this type in.
    fn with_notify(self, notify_type: u16) -> (scan: Scan)
        ensures
            scan@ == self@.with_notify(notify_type),
    {
        let mut scan = self;
        if notify_type == notify_type::INITIAL_CONTACT {
            scan.initial_contact = true;
        } else if notify_type == notify_type::MOBIKE_SUPPORTED {
            scan.mobike_supported = true;
        } else if scan.child_error.is_none() && notify_type::is_child_sa_error(notify_type) {
            scan.child_error = Some(notify_type);
        }
        scan
    }

    /// Take one payload in.
    fn with(self, payload: &RawPayload) -> (scan: Result<Scan, IkeError>)
        ensures
            viewed(scan) == self@.with(payload@),
    {
        let mut scan = self;
        match payload.payload_type {
            PayloadType::IdInitiator | PayloadType::IdResponder => {
                scan.id_body = Some(bytes::copy(payload.data));
            },
            PayloadType::Authentication => match Authentication::parse(payload.data) {
                Ok(auth) => {
                    scan.auth = Some(auth);
                },
                Err(error) => {
                    return Err(error);
                },
            },
            PayloadType::Certificate => match Certificate::parse(payload.data) {
                Ok(cert) => {
                    let ghost before = scan.certs@;
                    scan.certs.push(cert.data);
                    assert(bytes::contents(scan.certs@) =~= bytes::contents(before).push(cert.data@));
                },
                Err(_) => (),
            },
            PayloadType::SecurityAssociation => match SecurityAssociation::parse(payload.data) {
                Ok(sa) => {
                    scan.child_sa = Some(sa);
                },
                Err(error) => {
                    return Err(error);
                },
            },
            PayloadType::Configuration => match Configuration::parse(payload.data) {
                Ok(config) => {
                    scan.assigned_ip4 = config.assigned_ipv4();
                },
                Err(_) => (),
            },
            PayloadType::TrafficSelectorInitiator => match TrafficSelectors::parse(payload.data) {
                Ok(tsi) => {
                    scan.tsi = Some(tsi);
                },
                Err(error) => {
                    return Err(error);
                },
            },
            PayloadType::TrafficSelectorResponder => match TrafficSelectors::parse(payload.data) {
                Ok(tsr) => {
                    scan.tsr = Some(tsr);
                },
                Err(error) => {
                    return Err(error);
                },
            },
            PayloadType::Notify => match Notify::parse(payload.data) {
                Ok(notify) => {
                    return Ok(scan.with_notify(notify.notify_type));
                },
                Err(_) => (),
            },
            // A certificate request is not acted on here.
            _ => (),
        }
        Ok(scan)
    }

    /// What the payloads make up.
    fn concluded(self) -> (out: Result<AuthPayloads, IkeError>)
        ensures
            viewed(out) == self@.concluded(),
    {
        let id_body = match self.id_body {
            Some(id_body) => id_body,
            None => {
                return Err(IkeError::MissingPayload("ID"));
            },
        };
        let auth = match self.auth {
            Some(auth) => auth,
            None => {
                return Err(IkeError::MissingPayload("AUTH"));
            },
        };
        Ok(
            AuthPayloads {
                id_body,
                auth,
                certs: self.certs,
                child_sa: self.child_sa,
                assigned_ip4: self.assigned_ip4,
                tsi: self.tsi,
                tsr: self.tsr,
                initial_contact: self.initial_contact,
                child_error: self.child_error,
                mobike_supported: self.mobike_supported,
            },
        )
    }
}

/// The payloads of a decrypted `IKE_AUTH` message.
pub fn parse_auth_inner(first: PayloadType, inner: &[u8]) -> (out: Result<AuthPayloads, IkeError>)
    ensures
        viewed(out) == Gotten::read(first, inner@),
{
    let mut scan = Scan::nothing();
    let mut iter = payloads(first, inner);
    let ghost whole = Found::nothing().with_all(first, inner@);
    loop
        invariant_except_break
            !iter.finished(),
            scan@.with_all(iter.first(), iter.remaining()) == whole,
        invariant
            whole == Found::nothing().with_all(first, inner@),
        ensures
            whole == Ok::<Found, Failure>(scan@),
        decreases iter.remaining().len(),
    {
        match iter.next() {
            None => {
                break;
            },
            Some(Err(error)) => {
                return Err(error);
            },
            Some(Ok(payload)) => match scan.with(&payload) {
                Ok(more) => {
                    scan = more;
                },
                Err(error) => {
                    return Err(error);
                },
            },
        }
    }
    scan.concluded()
}

/// The pre-shared-key AUTH over these octets.
pub open spec fn psk_proof(algo: PrfAlgorithm, psk: Seq<u8>, octets: Seq<u8>) -> Proof {
    Proof { method: auth_method::SHARED_KEY, data: auth::psk_value(algo, psk, octets) }
}

/// The pre-shared-key AUTH payload over `signed_octets`.
pub fn psk_auth_payload(algo: PrfAlgorithm, psk: &[u8], signed_octets: &[u8]) -> (payload: Authentication)
    ensures
        payload@ == psk_proof(algo, psk@, signed_octets@),
{
    Authentication { method: auth_method::SHARED_KEY, data: psk_auth(algo, psk, signed_octets) }
}

/// Whether `auth` is the pre-shared-key AUTH over `expected_octets`. Every octet
/// of the value is compared, whatever the first difference.
pub fn verify_psk(algo: PrfAlgorithm, auth: &Authentication, psk: &[u8], expected_octets: &[u8]) -> (verdict: Result<
    (),
    IkeError,
>)
    ensures
        child::viewed_unit(verdict) == (if auth@ == psk_proof(algo, psk@, expected_octets@) {
            Ok(())
        } else {
            Err(Failure::AuthFailed)
        }),
{
    let expected = psk_auth(algo, psk, expected_octets);
    if auth.method == auth_method::SHARED_KEY && bytes::same(&auth.data, &expected) {
        assert(auth@ =~= psk_proof(algo, psk@, expected_octets@));
        Ok(())
    } else {
        Err(IkeError::AuthFailed)
    }
}

/// The kinds of keys a certificate signature is made with.
#[derive(Debug, Clone, Copy, PartialEq, Eq, Structural)]
pub enum KeyKind {
    EcdsaP256,
    Rsa,
}

/// The Auth Method of a certificate signature with a key of this kind.
pub open spec fn signing_method(kind: KeyKind, peer_signature_hashes: Seq<u16>) -> u8 {
    if peer_signature_hashes.contains(sighash::SHA2_256) {
        auth_method::DIGITAL_SIGNATURE
    } else {
        match kind {
            KeyKind::EcdsaP256 => auth_method::ECDSA_SHA256_P256,
            KeyKind::Rsa => auth_method::RSA_SIG,
        }
    }
}

/// The signature method of a certificate AUTH, by what the peer negotiated and
/// by our key: RFC 7427 Digital Signature (method 14, works for either an RSA or
/// an ECDSA key) when the peer advertised SHA-256 in
/// `SIGNATURE_HASH_ALGORITHMS`, otherwise the matching classic method for our
/// key -- ECDSA-P256-SHA256 (method 9, RFC 4754) for an EC key, or RSA Digital
/// Signature (method 1, RFC 7296 §3.8) for an RSA key. A native EAP client
/// (iOS) sends no `SIGNATURE_HASH_ALGORITHMS`, so it needs one of the classic
/// methods. All three are accepted by our own [`verify_peer_auth`], so emission
/// and verification stay symmetric.
pub fn cert_auth_method(kind: KeyKind, peer_signature_hashes: &[u16]) -> (method: u8)
    ensures
        method == signing_method(kind, peer_signature_hashes@),
        accepted_method(method),
{
    for i in 0..peer_signature_hashes.len()
        invariant
            forall|j: int| 0 <= j < i ==> peer_signature_hashes@[j] != sighash::SHA2_256,
    {
        if peer_signature_hashes[i] == sighash::SHA2_256 {
            return auth_method::DIGITAL_SIGNATURE;
        }
    }
    match kind {
        KeyKind::EcdsaP256 => auth_method::ECDSA_SHA256_P256,
        KeyKind::Rsa => auth_method::RSA_SIG,
    }
}

impl Prover {
    /// The AUTH that proves our identity over these octets.
    pub open spec fn proof_over(self, algo: PrfAlgorithm, octets: Seq<u8>) -> Proof {
        match self {
            Prover::Psk(psk) => psk_proof(algo, psk, octets),
            Prover::Cert { auth, .. } => auth,
        }
    }

    /// The Certificate payloads that go with it.
    pub open spec fn certs(self) -> Seq<(PayloadType, Seq<u8>)> {
        match self {
            Prover::Psk(_) => Seq::empty(),
            Prover::Cert { chain, .. } => cert_parts(chain),
        }
    }
}

/// Our AUTH payload (and any CERT payloads to precede it) over `signed_octets`,
/// per our [`LocalAuth`] config.
pub fn build_local_auth(cfg: &AuthConfig, sa: &CompletedSaInit, signed_octets: &[u8]) -> (out: (
    Authentication,
    Vec<(PayloadType, Vec<u8>)>,
))
    requires
        PrfAlgorithm::named(sa@.suite.prf_id) is Some,
    ensures
        out.0@ == cfg@.local.proof_over(sa@.suite.prf(), signed_octets@),
        message::bodies(out.1@) == cfg@.local.certs(),
{
    let mut certs: Vec<(PayloadType, Vec<u8>)> = Vec::new();
    assert(message::bodies(certs@) =~= Seq::<(PayloadType, Seq<u8>)>::empty());
    match &cfg.local {
        LocalAuth::Psk(psk) => (psk_auth_payload(sa.suite.prf_algorithm(), psk, signed_octets), certs),
        LocalAuth::Cert { chain, auth } => {
            add_certs(&mut certs, chain);
            assert(message::bodies(certs@) =~= cert_parts(bytes::contents(chain@)));
            (Authentication { method: auth.method, data: bytes::copy(&auth.data) }, certs)
        },
    }
}

/// Whether a certificate AUTH of this method is accepted: the three
/// [`cert_auth_method`] gives.
pub open spec fn accepted_method(method: u8) -> bool {
    ||| method == auth_method::DIGITAL_SIGNATURE
    ||| method == auth_method::RSA_SIG
    ||| method == auth_method::ECDSA_SHA256_P256
}

impl Verifier {
    /// What the peer's AUTH over these octets comes to.
    pub open spec fn verdict(self, algo: PrfAlgorithm, got: Gotten, octets: Seq<u8>) -> Result<(), Failure> {
        match self {
            Verifier::Psk(psk) => if got.auth == psk_proof(algo, psk, octets) {
                Ok(())
            } else {
                Err(Failure::AuthFailed)
            },
            Verifier::Cert { vouched, .. } => if !accepted_method(got.auth.method) {
                Err(Failure::AuthFailed)
            } else if got.certs.len() == 0 {
                Err(Failure::MissingPayload("CERT"@))
            } else if vouched == Some(Claim { certs: got.certs, auth: got.auth, octets }) {
                Ok(())
            } else {
                Err(Failure::AuthFailed)
            },
        }
    }

    /// The CERTREQ that asks the peer for its certificate, when we authenticate it
    /// by one.
    pub open spec fn certreq(self) -> Seq<(PayloadType, Seq<u8>)> {
        match self {
            Verifier::Psk(_) => Seq::empty(),
            Verifier::Cert { ca_hashes, .. } => seq![(PayloadType::CertRequest, cert::request_octets(ca_hashes))],
        }
    }
}

/// Whether two lists of octet strings are the same.
pub(crate) fn same_list(a: &[Vec<u8>], b: &[Vec<u8>]) -> (equal: bool)
    ensures
        equal == (bytes::contents(a@) == bytes::contents(b@)),
{
    let ghost left = bytes::contents(a@);
    let ghost right = bytes::contents(b@);
    if a.len() != b.len() {
        assert(left.len() != right.len());
        return false;
    }
    for i in 0..a.len()
        invariant
            a@.len() == b@.len(),
            left == bytes::contents(a@),
            right == bytes::contents(b@),
            forall|j: int| 0 <= j < i ==> left[j] == right[j],
    {
        if !bytes::same(&a[i], &b[i]) {
            assert(left[i as int] != right[i as int]);
            return false;
        }
        assert(left[i as int] == right[i as int]);
    }
    assert(left =~= right);
    true
}

/// Verify the peer's AUTH over `expected_octets`, per our [`PeerAuth`] config. By
/// certificate, the same three methods are accepted that [`cert_auth_method`]
/// can itself give -- a peer running the same fallback logic we do must not be
/// rejected for it.
pub fn verify_peer_auth(algo: PrfAlgorithm, cfg: &AuthConfig, got: &AuthPayloads, expected_octets: &[u8]) -> (verdict: Result<
    (),
    IkeError,
>)
    ensures
        child::viewed_unit(verdict) == cfg@.peer.verdict(algo, got@, expected_octets@),
{
    match &cfg.peer {
        PeerAuth::Psk(psk) => verify_psk(algo, &got.auth, psk, expected_octets),
        PeerAuth::Cert { vouched, .. } => {
            let method: u8 = got.auth.method;
            if method != auth_method::DIGITAL_SIGNATURE && method != auth_method::RSA_SIG && method
                != auth_method::ECDSA_SHA256_P256 {
                return Err(IkeError::AuthFailed);
            }
            if got.certs.len() == 0 {
                return Err(IkeError::MissingPayload("CERT"));
            }
            match vouched {
                Some(claim) => {
                    if claim.names(&got.certs, &got.auth, expected_octets) {
                        Ok(())
                    } else {
                        Err(IkeError::AuthFailed)
                    }
                },
                None => Err(IkeError::AuthFailed),
            }
        },
    }
}

impl CertClaim {
    /// Whether this is the claim of these certificates and this AUTH over these
    /// octets.
    pub(crate) fn names(&self, certs: &[Vec<u8>], auth: &Authentication, octets: &[u8]) -> (same: bool)
        ensures
            same == (self@ == Claim { certs: bytes::contents(certs@), auth: auth@, octets: octets@ }),
    {
        let same = same_list(&self.certs, certs) && self.auth.method == auth.method && bytes::same(
            &self.auth.data,
            &auth.data,
        ) && bytes::same(&self.octets, octets);
        assert(same ==> self@ =~= Claim { certs: bytes::contents(certs@), auth: auth@, octets: octets@ });
        same
    }
}

/// What the initiator's AUTH on `sa` signs, for this ID payload body.
pub open spec fn initiator_octets(sa: Completed, id_body: Seq<u8>) -> Seq<u8> {
    auth::signed(sa.suite.prf(), sa.init_message, sa.nr, sa.keys.sk_pi, id_body)
}

/// What the responder's AUTH on `sa` signs, for this ID payload body.
pub open spec fn responder_octets(sa: Completed, id_body: Seq<u8>) -> Seq<u8> {
    auth::signed(sa.suite.prf(), sa.resp_message, sa.ni, sa.keys.sk_pr, id_body)
}

/// What the initiator's AUTH on `sa` signs.
pub(crate) fn octets_of_initiator(sa: &CompletedSaInit, id_body: &[u8]) -> (octets: Vec<u8>)
    requires
        PrfAlgorithm::named(sa@.suite.prf_id) is Some,
    ensures
        octets@ == initiator_octets(sa@, id_body@),
{
    initiator_signed_octets(sa.suite.prf_algorithm(), &sa.init_message, &sa.nr, &sa.keys.sk_pi, id_body)
}

/// What the responder's AUTH on `sa` signs.
pub(crate) fn octets_of_responder(sa: &CompletedSaInit, id_body: &[u8]) -> (octets: Vec<u8>)
    requires
        PrfAlgorithm::named(sa@.suite.prf_id) is Some,
    ensures
        octets@ == responder_octets(sa@, id_body@),
{
    responder_signed_octets(sa.suite.prf_algorithm(), &sa.resp_message, &sa.ni, &sa.keys.sk_pr, id_body)
}

/// What a message of `role` on `sa` claims by certificate, if its chain has an ID
/// and an AUTH.
pub open spec fn claimed(sa: Completed, role: Role, first: PayloadType, inner: Seq<u8>) -> Result<Claim, Failure> {
    match Gotten::read(first, inner) {
        Err(failure) => Err(failure),
        Ok(got) => Ok(
            Claim {
                certs: got.certs,
                auth: got.auth,
                octets: match role {
                    Role::Initiator => initiator_octets(sa, got.id_body),
                    Role::Responder => responder_octets(sa, got.id_body),
                },
            },
        ),
    }
}

/// What the peer's `IKE_AUTH` message claims by certificate: what is to be checked
/// against the trusted CAs before [`PeerAuth::Cert`] can vouch for it.
pub fn peer_cert_claim(sa: &CompletedSaInit, message: &[u8]) -> (claim: Result<CertClaim, IkeError>)
    requires
        sa@.suite.keyed(),
    ensures
        viewed(claim) == (match sa@.opened(sa@.peer(), message@) {
            Err(failure) => Err(failure),
            Ok((first, inner)) => claimed(sa@, sa@.peer(), first, inner),
        }),
{
    let from_initiator = matches!(sa.role, Role::Responder);
    let role = if from_initiator {
        Role::Initiator
    } else {
        Role::Responder
    };
    let (first, inner) = match open_from(sa, role, message) {
        Ok(opened) => opened,
        Err(error) => {
            return Err(error);
        },
    };
    let got = match parse_auth_inner(first, &inner) {
        Ok(got) => got,
        Err(error) => {
            return Err(error);
        },
    };
    let octets = if from_initiator {
        octets_of_initiator(sa, &got.id_body)
    } else {
        octets_of_responder(sa, &got.id_body)
    };
    Ok(CertClaim { certs: got.certs, auth: got.auth, octets })
}

/// The CFG_REQUEST of a client that wants an inner address.
pub open spec fn config_part(want_cfg: bool) -> Seq<(PayloadType, Seq<u8>)> {
    if want_cfg {
        seq![(PayloadType::Configuration, Settings::request_ipv4().octets())]
    } else {
        Seq::empty()
    }
}

/// The SAi2, TSi and TSr of a request for a CHILD SA.
pub open spec fn child_parts(child_spi: u32, offer: Seq<Offered>, ts_offer: ChildTsOffer) -> Seq<
    (PayloadType, Seq<u8>),
> {
    seq![
        (PayloadType::SecurityAssociation, sa::proposal_octets(child::sai2_of(offer, child_spi))),
        (PayloadType::TrafficSelectorInitiator, ts::octets(ts_offer.ts())),
        (PayloadType::TrafficSelectorResponder, ts::octets(ts_offer.ts())),
    ]
}

/// `N(INITIAL_CONTACT)` (RFC 7296 §2.4).
pub open spec fn initial_contact_part() -> Seq<(PayloadType, Seq<u8>)> {
    seq![(PayloadType::Notify, bare_notice(notify_type::INITIAL_CONTACT).octets())]
}

/// The payloads of an `IKE_AUTH` request.
pub open spec fn request_parts(
    sa: Completed,
    cfg: Config,
    child_spi: u32,
    want_cfg: bool,
    offer: Seq<Offered>,
    ts_offer: ChildTsOffer,
) -> Seq<(PayloadType, Seq<u8>)> {
    let auth = cfg.local.proof_over(sa.suite.prf(), initiator_octets(sa, cfg.id.octets()));
    seq![(PayloadType::IdInitiator, cfg.id.octets())] + config_part(want_cfg) + initial_contact_part()
        + cfg.local.certs() + cfg.peer.certreq() + seq![(PayloadType::Authentication, auth.octets())]
        + child_parts(child_spi, offer, ts_offer)
}

/// Append the CFG_REQUEST of a client that wants an inner address.
fn add_config(list: &mut Vec<(PayloadType, Vec<u8>)>, want_cfg: bool)
    ensures
        message::bodies(final(list)@) == message::bodies(old(list)@) + config_part(want_cfg),
{
    let ghost before = message::bodies(list@);
    if want_cfg {
        add_part(list, PayloadType::Configuration, Configuration::request_ipv4().to_bytes());
    }
    assert(message::bodies(list@) =~= before + config_part(want_cfg));
}

/// Append the SAi2, TSi and TSr of a request for a CHILD SA.
fn add_child(list: &mut Vec<(PayloadType, Vec<u8>)>, child_spi: u32, esp_offer: &SecurityAssociation, ts_offer: ChildTsOffer)
    ensures
        message::bodies(final(list)@) == message::bodies(old(list)@) + child_parts(child_spi, esp_offer@, ts_offer),
{
    let ghost before = message::bodies(list@);
    let offered = sai2(esp_offer, child_spi);
    let ts = ts_offer.selectors();
    add_part(list, PayloadType::SecurityAssociation, offered.to_bytes());
    add_part(list, PayloadType::TrafficSelectorInitiator, ts.to_bytes());
    add_part(list, PayloadType::TrafficSelectorResponder, ts.to_bytes());
    assert(message::bodies(list@) =~= before + child_parts(child_spi, esp_offer@, ts_offer));
}

/// Append `N(INITIAL_CONTACT)`. RFC 7296 §2.4: we hold no state across restarts,
/// so this is always our first (and only) SA with this peer -- it tells the
/// responder to tear down any stale SA it still has for our identity.
fn add_initial_contact(list: &mut Vec<(PayloadType, Vec<u8>)>)
    ensures
        message::bodies(final(list)@) == message::bodies(old(list)@) + initial_contact_part(),
{
    let ghost before = message::bodies(list@);
    add_part(list, PayloadType::Notify, mobike::bare_notify(notify_type::INITIAL_CONTACT).to_bytes());
    assert(message::bodies(list@) =~= before + initial_contact_part());
}

/// A list of payloads that starts with this one.
pub(crate) fn starting(payload_type: PayloadType, body: Vec<u8>) -> (list: Vec<(PayloadType, Vec<u8>)>)
    ensures
        message::bodies(list@) == seq![(payload_type, body@)],
{
    let mut list: Vec<(PayloadType, Vec<u8>)> = Vec::new();
    assert(message::bodies(list@) =~= Seq::<(PayloadType, Seq<u8>)>::empty());
    add_part(&mut list, payload_type, body);
    assert(message::bodies(list@) =~= seq![(payload_type, body@)]);
    list
}

/// Initiator: build the encrypted `IKE_AUTH` request
/// `SK { IDi, AUTH, SAi2, TSi, TSr }`.
pub fn initiator_auth_request(
    sa: &CompletedSaInit,
    cfg: &AuthConfig,
    child_spi: u32,
    esp_offer: &SecurityAssociation,
    iv: &[u8; 8],
) -> (out: Result<Vec<u8>, IkeError>)
    requires
        sa@.suite.keyed(),
    ensures
        viewed(out) == sa@.sealed(
            Role::Initiator,
            auth_header(sa@, false),
            request_parts(sa@, cfg@, child_spi, false, esp_offer@, ChildTsOffer::Ipv4),
            iv@,
        ),
{
    initiator_auth_request_with_cfg(sa, cfg, child_spi, false, esp_offer, ChildTsOffer::Ipv4, iv)
}

/// Like [`initiator_auth_request`], but also carries a CFG_REQUEST
/// ([`Configuration::request_ipv4`]) when `want_cfg` is set — for a direct
/// (non-EAP) PSK/cert client that still wants an inner IP/DNS/subnet assigned
/// (e.g. a pure-certificate profile with mode-config enabled). Placed right
/// after IDi, matching [`initiator_eap_request`]'s payload order. `esp_offer`
/// is the CHILD SA proposal template (see [`esp_offer`] for the default
/// AES-GCM-256 one) — its own SPI field is ignored; [`sai2`] always overwrites
/// it with `child_spi`, and leaves its DH groups out. `ts_offer` picks the
/// TSi/TSr this CHILD SA is offered with (see [`ChildTsOffer`]); every other
/// builder below takes it the same way.
pub fn initiator_auth_request_with_cfg(
    sa: &CompletedSaInit,
    cfg: &AuthConfig,
    child_spi: u32,
    want_cfg: bool,
    esp_offer: &SecurityAssociation,
    ts_offer: ChildTsOffer,
    iv: &[u8; 8],
) -> (out: Result<Vec<u8>, IkeError>)
    requires
        sa@.suite.keyed(),
    ensures
        viewed(out) == sa@.sealed(
            Role::Initiator,
            auth_header(sa@, false),
            request_parts(sa@, cfg@, child_spi, want_cfg, esp_offer@, ts_offer),
            iv@,
        ),
{
    let idi_body = cfg.id.to_bytes();
    let octets = octets_of_initiator(sa, &idi_body);
    let (auth, mut cert_payloads) = build_local_auth(cfg, sa, &octets);
    let mut inner = starting(PayloadType::IdInitiator, idi_body);
    add_config(&mut inner, want_cfg);
    add_initial_contact(&mut inner);
    append(&mut inner, &mut cert_payloads);
    // Ask the responder for its certificate when we authenticate it by cert.
    if let PeerAuth::Cert { ca_hashes, .. } = &cfg.peer {
        let request = CertRequest::x509(cert::copy_hashes(ca_hashes));
        add_part(&mut inner, PayloadType::CertRequest, request.to_bytes());
    }
    add_part(&mut inner, PayloadType::Authentication, auth.to_bytes());
    add_child(&mut inner, child_spi, esp_offer, ts_offer);
    assert(message::bodies(inner@) =~= request_parts(sa@, cfg@, child_spi, want_cfg, esp_offer@, ts_offer));
    seal_from(sa, Role::Initiator, ike_auth_header(sa, false), &inner, iv)
}

/// Move the payloads of `more` to the end of `list`.
fn append(list: &mut Vec<(PayloadType, Vec<u8>)>, more: &mut Vec<(PayloadType, Vec<u8>)>)
    ensures
        message::bodies(final(list)@) == message::bodies(old(list)@) + message::bodies(old(more)@),
{
    list.append(more);
    assert(message::bodies(list@) =~= message::bodies(old(list)@) + message::bodies(old(more)@));
}

/// The CERTREQ of a request that lists CAs.
pub open spec fn certreq_part(ca_hashes: Option<Seq<[u8; 20]>>) -> Seq<(PayloadType, Seq<u8>)> {
    match ca_hashes {
        Some(hashes) => seq![(PayloadType::CertRequest, cert::request_octets(hashes))],
        None => Seq::empty(),
    }
}

/// Optional hashes taken by their contents.
pub open spec fn viewed_hashes(ca_hashes: Option<Vec<[u8; 20]>>) -> Option<Seq<[u8; 20]>> {
    match ca_hashes {
        Some(hashes) => Some(hashes@),
        None => None,
    }
}

/// The payloads of the first `IKE_AUTH` request of a client that authenticates by
/// EAP; `middle` stands before the SA payload, `after` behind the selectors.
pub open spec fn eap_request_parts(
    id: Identity,
    child_spi: u32,
    want_cfg: bool,
    offer: Seq<Offered>,
    ts_offer: ChildTsOffer,
    middle: Seq<(PayloadType, Seq<u8>)>,
    after: Seq<(PayloadType, Seq<u8>)>,
) -> Seq<(PayloadType, Seq<u8>)> {
    seq![(PayloadType::IdInitiator, id.octets())] + config_part(want_cfg) + middle + child_parts(
        child_spi,
        offer,
        ts_offer,
    ) + after + initial_contact_part()
}

/// Initiator: build the **EAP-mode** `IKE_AUTH` request `SK { IDi, [CFG],
/// SAi2, TSi, TSr }` — no AUTH payload, which tells the responder the
/// initiator will authenticate via EAP (RFC 7296 §2.16). The multi-message
/// EAP exchange then follows. Carries a CFG_REQUEST
/// ([`Configuration::request_ipv4`]) when `want_cfg` is set — RFC 7296
/// §2.19 lets mode-config run alongside any authentication method; some
/// responders require it to complete before they'll finish an EAP exchange
/// at all, so this is opt-in rather than unconditional. See
/// [`initiator_auth_request_with_cfg`] for `esp_offer`'s contract.
pub fn initiator_eap_request(
    sa: &CompletedSaInit,
    id: &Identification,
    child_spi: u32,
    want_cfg: bool,
    esp_offer: &SecurityAssociation,
    ts_offer: ChildTsOffer,
    iv: &[u8; 8],
) -> (out: Result<Vec<u8>, IkeError>)
    requires
        sa@.suite.cipher() is Some,
    ensures
        viewed(out) == sa@.sealed(
            Role::Initiator,
            auth_header(sa@, false),
            eap_request_parts(id@, child_spi, want_cfg, esp_offer@, ts_offer, Seq::empty(), Seq::empty()),
            iv@,
        ),
{
    let mut inner = starting(PayloadType::IdInitiator, id.to_bytes());
    add_config(&mut inner, want_cfg);
    add_child(&mut inner, child_spi, esp_offer, ts_offer);
    add_initial_contact(&mut inner);
    assert(message::bodies(inner@) =~= eap_request_parts(
        id@,
        child_spi,
        want_cfg,
        esp_offer@,
        ts_offer,
        Seq::empty(),
        Seq::empty(),
    ));
    seal_from(sa, Role::Initiator, ike_auth_header(sa, false), &inner, iv)
}

/// Like [`initiator_eap_request`] but also carries a `CERTREQ` payload listing
/// `ca_hashes` — mirrors a client that advertises the CAs it trusts.
/// Lets a responder that selects its cert by CERTREQ presence be exercised.
/// Also honors `want_cfg` the same way [`initiator_eap_request`] does.
pub fn initiator_eap_request_with_certreq(
    sa: &CompletedSaInit,
    id: &Identification,
    child_spi: u32,
    want_cfg: bool,
    esp_offer: &SecurityAssociation,
    ts_offer: ChildTsOffer,
    ca_hashes: Vec<[u8; 20]>,
    iv: &[u8; 8],
) -> (out: Result<Vec<u8>, IkeError>)
    requires
        sa@.suite.cipher() is Some,
    ensures
        viewed(out) == sa@.sealed(
            Role::Initiator,
            auth_header(sa@, false),
            eap_request_parts(
                id@,
                child_spi,
                want_cfg,
                esp_offer@,
                ts_offer,
                Seq::empty(),
                certreq_part(Some(ca_hashes@)),
            ),
            iv@,
        ),
{
    let ghost after = certreq_part(Some(ca_hashes@));
    let mut inner = starting(PayloadType::IdInitiator, id.to_bytes());
    add_config(&mut inner, want_cfg);
    add_child(&mut inner, child_spi, esp_offer, ts_offer);
    add_part(&mut inner, PayloadType::CertRequest, CertRequest::x509(ca_hashes).to_bytes());
    add_initial_contact(&mut inner);
    assert(message::bodies(inner@) =~= eap_request_parts(
        id@,
        child_spi,
        want_cfg,
        esp_offer@,
        ts_offer,
        Seq::empty(),
        after,
    ));
    seal_from(sa, Role::Initiator, ike_auth_header(sa, false), &inner, iv)
}

/// Like [`initiator_eap_request`], but also attaches the client's own X.509
/// certificate chain (`certs[0]` = leaf) and, optionally, a `CERTREQ` listing
/// `ca_hashes`. There is still no AUTH payload here (RFC 7296 §2.16: the
/// initiator authenticates via the EAP exchange that follows, not this
/// message), so the attached certs are bare identity presentation, not a
/// signature — this is not RFC 4739 Multiple Authentication, it mirrors what a
/// client sends against a gateway policy of "Certificate + EAP": the gateway
/// wants to see the client's certificate for its own identity/policy matching,
/// on top of EAP actually deciding whether the connection is authenticated.
/// Payload order matches [`initiator_auth_request_with_cfg`]'s (IDi, CFG,
/// CERT.., CERTREQ, SA, TSi, TSr) for consistency between the two "attach a
/// cert" call sites. Also honors `want_cfg` the same way
/// [`initiator_eap_request`] does.
pub fn initiator_eap_request_with_certs(
    sa: &CompletedSaInit,
    id: &Identification,
    child_spi: u32,
    want_cfg: bool,
    esp_offer: &SecurityAssociation,
    ts_offer: ChildTsOffer,
    certs: &[Vec<u8>],
    ca_hashes: Option<Vec<[u8; 20]>>,
    iv: &[u8; 8],
) -> (out: Result<Vec<u8>, IkeError>)
    requires
        sa@.suite.cipher() is Some,
    ensures
        viewed(out) == sa@.sealed(
            Role::Initiator,
            auth_header(sa@, false),
            eap_request_parts(
                id@,
                child_spi,
                want_cfg,
                esp_offer@,
                ts_offer,
                cert_parts(bytes::contents(certs@)) + certreq_part(viewed_hashes(ca_hashes)),
                Seq::empty(),
            ),
            iv@,
        ),
{
    let ghost middle = cert_parts(bytes::contents(certs@)) + certreq_part(viewed_hashes(ca_hashes));
    let mut inner = starting(PayloadType::IdInitiator, id.to_bytes());
    add_config(&mut inner, want_cfg);
    add_certs(&mut inner, certs);
    if let Some(hashes) = ca_hashes {
        add_part(&mut inner, PayloadType::CertRequest, CertRequest::x509(hashes).to_bytes());
    }
    add_child(&mut inner, child_spi, esp_offer, ts_offer);
    add_initial_contact(&mut inner);
    assert(message::bodies(inner@) =~= eap_request_parts(
        id@,
        child_spi,
        want_cfg,
        esp_offer@,
        ts_offer,
        middle,
        Seq::empty(),
    ));
    seal_from(sa, Role::Initiator, ike_auth_header(sa, false), &inner, iv)
}

/// The CHILD SA a responder grants: the proposal it answers with, the peer's SPI,
/// and the traffic selectors.
#[verifier::ext_equal]
pub struct Granted {
    pub sar2: Offered,
    pub peer_spi: u32,
    pub tsi: Seq<Selector>,
    pub tsr: Seq<Selector>,
}

/// The CHILD SA an SAi2 and narrowed selectors come to, or the notify that
/// refuses it: the proposals are weighed first (RFC 7296 §2.7).
pub open spec fn child_of(
    sai2: Seq<Offered>,
    child_spi: u32,
    narrowed: Result<(Seq<Selector>, Seq<Selector>), Failure>,
) -> Result<Granted, u16> {
    match child::answered_offer(sai2, child_spi) {
        None => Err(notify_type::NO_PROPOSAL_CHOSEN),
        Some((sar2, peer_spi)) => match narrowed {
            Ok((tsi, tsr)) => Ok(Granted { sar2, peer_spi, tsi, tsr }),
            Err(_) => Err(notify_type::TS_UNACCEPTABLE),
        },
    }
}

/// The CFG_REPLY of a responder that assigned an address.
pub open spec fn reply_part(assigned: Option<Assigned>) -> Seq<(PayloadType, Seq<u8>)> {
    match assigned {
        Some(assigned) => seq![(PayloadType::Configuration, assigned.reply().octets())],
        None => Seq::empty(),
    }
}

/// What a response says of the CHILD SA: what it is, or why there is none.
pub open spec fn granted_parts(child: Result<Granted, u16>, assigned: Option<Assigned>) -> Seq<
    (PayloadType, Seq<u8>),
> {
    match child {
        Ok(granted) => reply_part(assigned) + seq![
            (PayloadType::SecurityAssociation, sa::proposal_octets(seq![granted.sar2])),
            (PayloadType::TrafficSelectorInitiator, ts::octets(granted.tsi)),
            (PayloadType::TrafficSelectorResponder, ts::octets(granted.tsr)),
        ],
        Err(error) => seq![(PayloadType::Notify, bare_notice(error).octets())],
    }
}

/// `N(MOBIKE_SUPPORTED)`, when MOBIKE is in force.
pub open spec fn mobike_part(mobike: bool) -> Seq<(PayloadType, Seq<u8>)> {
    if mobike {
        seq![(PayloadType::Notify, bare_notice(notify_type::MOBIKE_SUPPORTED).octets())]
    } else {
        Seq::empty()
    }
}

/// The payloads of an `IKE_AUTH` response.
pub open spec fn response_parts(
    sa: Completed,
    cfg: Config,
    child: Result<Granted, u16>,
    assigned: Option<Assigned>,
    mobike: bool,
) -> Seq<(PayloadType, Seq<u8>)> {
    let auth = cfg.local.proof_over(sa.suite.prf(), responder_octets(sa, cfg.id.octets()));
    seq![(PayloadType::IdResponder, cfg.id.octets())] + cfg.local.certs() + seq![
        (PayloadType::Authentication, auth.octets()),
    ] + granted_parts(child, assigned) + mobike_part(mobike)
}

/// What [`responder_process_auth_with_mobike`] returns, as a value of the
/// specification.
#[verifier::ext_equal]
pub struct Answer {
    pub response: Seq<u8>,
    pub peer_id: Identity,
    pub peer_child_spi: Option<u32>,
    pub initial_contact: bool,
    pub mobike: bool,
}

/// The answer to the initiator's `IKE_AUTH` request whose SK payload holds this
/// payload chain.
pub open spec fn answered(
    sa: Completed,
    cfg: Config,
    child_spi: u32,
    iv: Seq<u8>,
    assigned: Option<Assigned>,
    mobike: bool,
    first: PayloadType,
    inner: Seq<u8>,
) -> Result<Answer, Failure> {
    match Gotten::read(first, inner) {
        Err(failure) => Err(failure),
        Ok(got) => match cfg.peer.verdict(sa.suite.prf(), got, initiator_octets(sa, got.id_body)) {
            Err(failure) => Err(failure),
            Ok(()) => match Identity::read(got.id_body) {
                Err(failure) => Err(failure),
                Ok(peer_id) => answered_peer(sa, cfg, child_spi, iv, assigned, mobike, got, peer_id),
            },
        },
    }
}

/// The answer to a request of an initiator that proved it is `peer_id`.
pub open spec fn answered_peer(
    sa: Completed,
    cfg: Config,
    child_spi: u32,
    iv: Seq<u8>,
    assigned: Option<Assigned>,
    mobike: bool,
    got: Gotten,
    peer_id: Identity,
) -> Result<Answer, Failure> {
    let narrowed = child::narrowed(
        got.tsi,
        got.tsr,
        child::client_policy(assigned_ip(assigned)),
        child::server_policy(),
    );
    match got.child_sa {
        None => Err(Failure::MissingPayload("SA"@)),
        Some(sai2) => if narrowed is Err && narrowed->Err_0 != Failure::TsUnacceptable {
            Err(narrowed->Err_0)
        } else {
            let child = child_of(sai2, child_spi, narrowed);
            let mobike = mobike && got.mobike_supported;
            let parts = response_parts(sa, cfg, child, assigned, mobike);
            match sa.sealed(Role::Responder, auth_header(sa, true), parts, iv) {
                Err(failure) => Err(failure),
                Ok(response) => Ok(
                    Answer {
                        response,
                        peer_id,
                        peer_child_spi: match child {
                            Ok(granted) => Some(granted.peer_spi),
                            Err(_) => None,
                        },
                        initial_contact: got.initial_contact,
                        mobike,
                    },
                ),
            }
        },
    }
}

/// What [`responder_process_auth_with_mobike`] returns: the response, the
/// peer's identity, the peer's ESP SPI for the CHILD SA (`None` when no CHILD SA
/// was granted), whether it sent `INITIAL_CONTACT`, and whether MOBIKE is in
/// force.
pub type AuthAnswer = (Vec<u8>, Identification, Option<u32>, bool, bool);

/// An [`AuthAnswer`] taken by its view.
pub open spec fn viewed_answer(result: Result<AuthAnswer, IkeError>) -> Result<Answer, Failure> {
    match result {
        Ok((response, peer_id, peer_child_spi, initial_contact, mobike)) => Ok(
            Answer { response: response@, peer_id: peer_id@, peer_child_spi, initial_contact, mobike },
        ),
        Err(error) => Err(error@),
    }
}

/// Responder: decrypt + verify the initiator's `IKE_AUTH` request, then build
/// the encrypted response `SK { IDr, AUTH, SAr2, TSi, TSr }`. TSi and TSr are
/// the request's narrowed to what this responder carries (RFC 7296 §2.9): on
/// the initiator's side the address it is `assigned`, or any IPv4 address
/// without one, and any IPv4 address on ours. When either comes to nothing, or
/// no proposal fits, the IKE SA is still created, the CHILD SA not: the response
/// is `SK { IDr, AUTH, N(TS_UNACCEPTABLE) }`, or with `N(NO_PROPOSAL_CHOSEN)`
/// (§1.2), and the initiator's CHILD SA SPI is returned as `None`. Returns the
/// response bytes, the initiator's verified identity, its CHILD SA SPI, and
/// whether it sent `N(INITIAL_CONTACT)` (RFC 7296 §2.4) -- the caller should
/// tear down any prior IKE/CHILD SA it holds for the same peer identity when
/// this is set, since it only has meaning once AUTH has verified.
///
/// Does not enable MOBIKE: see [`responder_process_auth_with_mobike`].
pub fn responder_process_auth(
    sa: &CompletedSaInit,
    request: &[u8],
    cfg: &AuthConfig,
    child_spi: u32,
    iv: &[u8; 8],
    assigned: Option<&AssignedConfig>,
) -> (out: Result<(Vec<u8>, Identification, Option<u32>, bool), IkeError>)
    requires
        sa@.suite.keyed(),
    ensures
        viewed_plain(out) == (match sa@.opened(Role::Initiator, request@) {
            Err(failure) => Err(failure),
            Ok((first, inner)) => answered(
                sa@,
                cfg@,
                child_spi,
                iv@,
                viewed_assigned(assigned),
                false,
                first,
                inner,
            ),
        }),
        forall|header: IkeHeader, written: Seq<(PayloadType, Seq<u8>)>, seed: Seq<u8>|
            #[trigger] sa@.carries(Role::Initiator, header, written, seed, request@) ==> viewed_plain(out) == answered(
                sa@,
                cfg@,
                child_spi,
                iv@,
                viewed_assigned(assigned),
                false,
                message::first_type(written),
                message::encoded(written),
            ),
        sa@.tampered(Role::Initiator, request@) ==> viewed_plain(out) == Err::<Answer, Failure>(Failure::BadIntegrity),
{
    match responder_process_auth_with_mobike(sa, request, cfg, child_spi, iv, assigned, false) {
        Ok((response, peer_id, peer_child_spi, initial_contact, _)) => Ok(
            (response, peer_id, peer_child_spi, initial_contact),
        ),
        Err(error) => Err(error),
    }
}

/// An answer without MOBIKE taken by its view.
pub open spec fn viewed_plain(result: Result<(Vec<u8>, Identification, Option<u32>, bool), IkeError>) -> Result<
    Answer,
    Failure,
> {
    match result {
        Ok((response, peer_id, peer_child_spi, initial_contact)) => Ok(
            Answer { response: response@, peer_id: peer_id@, peer_child_spi, initial_contact, mobike: false },
        ),
        Err(error) => Err(error@),
    }
}

/// Like [`responder_process_auth`], but `mobike` states whether the caller
/// implements MOBIKE (RFC 4555): it answers an INFORMATIONAL carrying
/// `N(UPDATE_SA_ADDRESSES)` (see [`crate::ikev2::mobike`]) by moving the IKE SA
/// and its CHILD SAs to that request's observed source address. Only then, and
/// only if the initiator offered it (§3.1), does the response carry
/// `N(MOBIKE_SUPPORTED)` -- advertising it without that handling would have a
/// MOBIKE client migrate onto a path we never follow. The extra returned flag
/// is whether MOBIKE is in force for this IKE SA, i.e. whether the caller must
/// honor `UPDATE_SA_ADDRESSES` from this peer.
///
/// What an initiator put into its request is what it is answered by.
pub fn responder_process_auth_with_mobike(
    sa: &CompletedSaInit,
    request: &[u8],
    cfg: &AuthConfig,
    child_spi: u32,
    iv: &[u8; 8],
    assigned: Option<&AssignedConfig>,
    mobike: bool,
) -> (out: Result<AuthAnswer, IkeError>)
    requires
        sa@.suite.keyed(),
    ensures
        viewed_answer(out) == (match sa@.opened(Role::Initiator, request@) {
            Err(failure) => Err(failure),
            Ok((first, inner)) => answered(
                sa@,
                cfg@,
                child_spi,
                iv@,
                viewed_assigned(assigned),
                mobike,
                first,
                inner,
            ),
        }),
        forall|header: IkeHeader, written: Seq<(PayloadType, Seq<u8>)>, seed: Seq<u8>|
            #[trigger] sa@.carries(Role::Initiator, header, written, seed, request@) ==> viewed_answer(out)
                == answered(
                sa@,
                cfg@,
                child_spi,
                iv@,
                viewed_assigned(assigned),
                mobike,
                message::first_type(written),
                message::encoded(written),
            ),
        sa@.tampered(Role::Initiator, request@) ==> viewed_answer(out) == Err::<Answer, Failure>(
            Failure::BadIntegrity,
        ),
{
    // The initiator encrypts with SK_ei.
    let (first, inner) = match open_from(sa, Role::Initiator, request) {
        Ok(opened) => opened,
        Err(error) => {
            return Err(error);
        },
    };
    let got = match parse_auth_inner(first, &inner) {
        Ok(got) => got,
        Err(error) => {
            return Err(error);
        },
    };
    let octets = octets_of_initiator(sa, &got.id_body);
    match verify_peer_auth(sa.suite.prf_algorithm(), cfg, &got, &octets) {
        Ok(()) => (),
        Err(error) => {
            return Err(error);
        },
    }
    let peer_id = match Identification::parse(&got.id_body) {
        Ok(peer_id) => peer_id,
        Err(error) => {
            return Err(error);
        },
    };
    answer_peer(sa, cfg, child_spi, iv, assigned, mobike, &got, peer_id)
}

/// Answer a request of an initiator that proved it is `peer_id`.
fn answer_peer(
    sa: &CompletedSaInit,
    cfg: &AuthConfig,
    child_spi: u32,
    iv: &[u8; 8],
    assigned: Option<&AssignedConfig>,
    mobike: bool,
    got: &AuthPayloads,
    peer_id: Identification,
) -> (out: Result<AuthAnswer, IkeError>)
    requires
        sa@.suite.keyed(),
    ensures
        viewed_answer(out) == answered_peer(
            sa@,
            cfg@,
            child_spi,
            iv@,
            viewed_assigned(assigned),
            mobike,
            got@,
            peer_id@,
        ),
{
    let sai2 = match &got.child_sa {
        Some(sai2) => sai2,
        None => {
            return Err(IkeError::MissingPayload("SA"));
        },
    };
    let (policy_i, policy_r) = assigned_ipv4_policy(ip_of(assigned));
    let tsi = match &got.tsi {
        Some(ts) => Some(ts),
        None => None,
    };
    let tsr = match &got.tsr {
        Some(ts) => Some(ts),
        None => None,
    };
    let child_ts = match narrow_requested_ts(tsi, tsr, &policy_i, &policy_r) {
        Ok(ts) => Some(ts),
        Err(IkeError::TsUnacceptable) => None,
        Err(error) => {
            return Err(error);
        },
    };
    // Our AUTH signs resp_message | Ni | prf(SK_pr, IDr) — it does NOT cover the
    // CP/SA/TS payloads, so adding a CFG_REPLY below needs no AUTH recomputation.
    let idr_body = cfg.id.to_bytes();
    let our_octets = octets_of_responder(sa, &idr_body);
    let (auth, mut cert_payloads) = build_local_auth(cfg, sa, &our_octets);
    let mut inner = starting(PayloadType::IdResponder, idr_body);
    append(&mut inner, &mut cert_payloads);
    add_part(&mut inner, PayloadType::Authentication, auth.to_bytes());
    let ghost head = message::bodies(inner@);
    // RFC 7296 §1.2: either failing, the IKE SA stands and the CHILD SA is
    // refused with the reason -- the proposals weighed first, as §2.7 has it.
    let ghost child = child_of(
        sai2@,
        child_spi,
        child::narrowed(
            got@.tsi,
            got@.tsr,
            child::client_policy(assigned_ip(viewed_assigned(assigned))),
            child::server_policy(),
        ),
    );
    let peer_child_spi = match (answer_esp_offer(sai2, child_spi), child_ts) {
        (None, _) => {
            refuse_child(&mut inner, notify_type::NO_PROPOSAL_CHOSEN);
            None
        },
        (Some(_), None) => {
            refuse_child(&mut inner, notify_type::TS_UNACCEPTABLE);
            None
        },
        (Some((sar2, peer_spi)), Some((tsi, tsr))) => {
            grant_child(&mut inner, sar2, &tsi, &tsr, assigned);
            assert(child is Ok && child->Ok_0.peer_spi == peer_spi);
            assert(message::bodies(inner@) =~= head + granted_parts(child, viewed_assigned(assigned)));
            Some(peer_spi)
        },
    };
    assert(message::bodies(inner@) =~= head + granted_parts(child, viewed_assigned(assigned)));
    // RFC 4555 §3.1: the responder includes MOBIKE_SUPPORTED only if the
    // initiator did, and we only when the caller actually follows the client
    // across address changes -- then it migrates instead of reconnecting.
    let mobike = mobike && got.mobike_supported;
    if mobike {
        add_part(&mut inner, PayloadType::Notify, mobike::mobike_supported().to_bytes());
    }
    assert(message::bodies(inner@) =~= response_parts(sa@, cfg@, child, viewed_assigned(assigned), mobike));
    match seal_from(sa, Role::Responder, ike_auth_header(sa, true), &inner, iv) {
        Ok(response) => Ok((response, peer_id, peer_child_spi, got.initial_contact, mobike)),
        Err(error) => Err(error),
    }
}

/// Append the notify that refuses the CHILD SA.
pub(crate) fn refuse_child(list: &mut Vec<(PayloadType, Vec<u8>)>, error: u16)
    ensures
        message::bodies(final(list)@) == message::bodies(old(list)@) + seq![
            (PayloadType::Notify, bare_notice(error).octets()),
        ],
{
    let ghost before = message::bodies(list@);
    add_part(list, PayloadType::Notify, mobike::bare_notify(error).to_bytes());
    assert(message::bodies(list@) =~= before + seq![(PayloadType::Notify, bare_notice(error).octets())]);
}

/// Append what grants the CHILD SA: CP(CFG_REPLY) with the assigned inner IP
/// (+ DNS), which a native client needs to configure its tunnel interface
/// (RFC 7296 §2.19: after AUTH, before SA/TS), SAr2, TSi and TSr.
pub(crate) fn grant_child(
    list: &mut Vec<(PayloadType, Vec<u8>)>,
    sar2: Proposal,
    tsi: &TrafficSelectors,
    tsr: &TrafficSelectors,
    assigned: Option<&AssignedConfig>,
)
    ensures
        message::bodies(final(list)@) == message::bodies(old(list)@) + reply_part(viewed_assigned(assigned)) + seq![
            (PayloadType::SecurityAssociation, sa::proposal_octets(seq![sar2@])),
            (PayloadType::TrafficSelectorInitiator, ts::octets(tsi@)),
            (PayloadType::TrafficSelectorResponder, ts::octets(tsr@)),
        ],
{
    let ghost before = message::bodies(list@);
    if let Some(assigned) = assigned {
        add_part(list, PayloadType::Configuration, assigned.to_reply().to_bytes());
    }
    assert(message::bodies(list@) =~= before + reply_part(viewed_assigned(assigned)));
    let ghost offered = sar2@;
    let mut proposals: Vec<Proposal> = Vec::new();
    proposals.push(sar2);
    let answer = SecurityAssociation { proposals };
    assert(answer@ =~= seq![offered]);
    add_part(list, PayloadType::SecurityAssociation, answer.to_bytes());
    add_part(list, PayloadType::TrafficSelectorInitiator, tsi.to_bytes());
    add_part(list, PayloadType::TrafficSelectorResponder, tsr.to_bytes());
    assert(message::bodies(list@) =~= before + reply_part(viewed_assigned(assigned)) + seq![
        (PayloadType::SecurityAssociation, sa::proposal_octets(seq![offered])),
        (PayloadType::TrafficSelectorInitiator, ts::octets(tsi@)),
        (PayloadType::TrafficSelectorResponder, ts::octets(tsr@)),
    ]);
}

/// The body of the first payload of type `want` in a chain, up to where the chain
/// ends or turns malformed.
pub open spec fn first_payload(first: PayloadType, body: Seq<u8>, want: PayloadType) -> Option<Seq<u8>>
    decreases body.len(),
{
    if first == PayloadType::NoNext {
        None
    } else {
        match message::head(first, body) {
            Err(_) => None,
            Ok(payload) => if payload.payload_type == want {
                Some(payload.data)
            } else {
                first_payload(message::next_type(body), message::after_head(body), want)
            },
        }
    }
}

/// The body of the first payload of type `want` in a chain, up to where the chain
/// ends or turns malformed.
fn find_first<'a>(first: PayloadType, inner: &'a [u8], want: PayloadType) -> (found: Option<&'a [u8]>)
    ensures
        match found {
            Some(data) => first_payload(first, inner@, want) == Some(data@),
            None => first_payload(first, inner@, want) is None,
        },
{
    let mut iter = payloads(first, inner);
    loop
        invariant
            !iter.finished(),
            first_payload(iter.first(), iter.remaining(), want) == first_payload(first, inner@, want),
        decreases iter.remaining().len(),
    {
        match iter.next() {
            None => {
                return None;
            },
            Some(Err(_)) => {
                return None;
            },
            Some(Ok(payload)) => {
                if payload.payload_type == want {
                    return Some(payload.data);
                }
            },
        }
    }
}

/// Decrypt an `IKE_AUTH` request and return the peer's claimed identity (`IDi`)
/// **without** verifying its AUTH — so a responder can select a per-user PSK by
/// identity before it can build the [`AuthConfig`] to verify with. The IDi lives
/// inside the protected `SK{}`, so it still requires the `IKE_SA_INIT` keys:
/// nobody can present an arbitrary identity without the DH secrets.
pub fn peer_id_from_auth(sa: &CompletedSaInit, request: &[u8]) -> (id: Result<Identification, IkeError>)
    requires
        sa@.suite.cipher() is Some,
    ensures
        viewed(id) == (match sa@.opened(Role::Initiator, request@) {
            Err(failure) => Err(failure),
            Ok((first, inner)) => match Gotten::read(first, inner) {
                Err(failure) => Err(failure),
                Ok(got) => Identity::read(got.id_body),
            },
        }),
{
    let (first, inner) = match open_from(sa, Role::Initiator, request) {
        Ok(opened) => opened,
        Err(error) => {
            return Err(error);
        },
    };
    match parse_auth_inner(first, &inner) {
        Ok(got) => Identification::parse(&got.id_body),
        Err(error) => Err(error),
    }
}

/// The initiator's identity (`IDi`) from an `IKE_AUTH` request, whether or not it
/// carries an AUTH payload. An EAP first message has an ID but no AUTH, so
/// [`peer_id_from_auth`] (which requires AUTH) can't read it — this extracts the
/// `IDi` directly. Returns `None` if the message can't be opened or has no ID.
pub fn peer_id_from_request(sa: &CompletedSaInit, request: &[u8]) -> (id: Option<Identification>)
    requires
        sa@.suite.cipher() is Some,
    ensures
        viewed_option(id) == (match sa@.opened(Role::Initiator, request@) {
            Err(_) => None,
            Ok((first, inner)) => match first_payload(first, inner, PayloadType::IdInitiator) {
                None => None,
                Some(body) => match Identity::read(body) {
                    Ok(id) => Some(id),
                    Err(_) => None,
                },
            },
        }),
{
    let (first, inner) = match open_from(sa, Role::Initiator, request) {
        Ok(opened) => opened,
        Err(_) => {
            return None;
        },
    };
    match find_first(first, &inner, PayloadType::IdInitiator) {
        Some(body) => match Identification::parse(body) {
            Ok(id) => Some(id),
            Err(_) => None,
        },
        None => None,
    }
}

/// Whether an `IKE_AUTH` request is the first message of an **EAP** exchange —
/// i.e. it carries no `AUTH` payload (the initiator is saying "I'll authenticate
/// with EAP", RFC 7296 §2.16). A PSK/cert client always includes `AUTH`.
pub fn is_eap_request(sa: &CompletedSaInit, request: &[u8]) -> (eap: bool)
    requires
        sa@.suite.cipher() is Some,
    ensures
        eap == (match sa@.opened(Role::Initiator, request@) {
            Err(_) => false,
            Ok((first, inner)) => first_payload(first, inner, PayloadType::Authentication) is None,
        }),
        forall|header: IkeHeader, written: Seq<(PayloadType, Seq<u8>)>, seed: Seq<u8>|
            #[trigger] sa@.carries(Role::Initiator, header, written, seed, request@) ==> eap
                == !message::has_payload(written, PayloadType::Authentication),
        sa@.tampered(Role::Initiator, request@) ==> !eap,
{
    proof {
        lemma_carried_payloads_are_found(sa@, request@, PayloadType::Authentication);
    }
    match open_from(sa, Role::Initiator, request) {
        Ok((first, inner)) => find_first(first, &inner, PayloadType::Authentication).is_none(),
        Err(_) => false,
    }
}

/// An EAP request carries no AUTH payload whatever it asks for, and the request of a
/// client with a pre-shared key or a certificate always does: [`is_eap_request`]
/// tells the one from the other.
pub proof fn law_only_eap_requests_lack_auth(
    sa: Completed,
    cfg: Config,
    id: Identity,
    child_spi: u32,
    want_cfg: bool,
    offer: Seq<Offered>,
    ts_offer: ChildTsOffer,
    chain: Seq<Seq<u8>>,
    ca_hashes: Option<Seq<[u8; 20]>>,
)
    ensures
        !message::has_payload(
            eap_request_parts(
                id,
                child_spi,
                want_cfg,
                offer,
                ts_offer,
                cert_parts(chain) + certreq_part(ca_hashes),
                Seq::empty(),
            ),
            PayloadType::Authentication,
        ),
        !message::has_payload(
            eap_request_parts(id, child_spi, want_cfg, offer, ts_offer, Seq::empty(), certreq_part(ca_hashes)),
            PayloadType::Authentication,
        ),
        message::has_payload(
            request_parts(sa, cfg, child_spi, want_cfg, offer, ts_offer),
            PayloadType::Authentication,
        ),
{
    let before = seq![(PayloadType::IdInitiator, cfg.id.octets())] + config_part(want_cfg) + initial_contact_part()
        + cfg.local.certs() + cfg.peer.certreq();
    let parts = request_parts(sa, cfg, child_spi, want_cfg, offer, ts_offer);
    assert(parts[before.len() as int].0 == PayloadType::Authentication);
}

/// A payload of a list is found in the chain of the list, and only such a one.
proof fn lemma_first_payload_of_list(written: Seq<(PayloadType, Seq<u8>)>, want: PayloadType)
    requires
        message::frameable(written),
        want != PayloadType::NoNext,
    ensures
        first_payload(message::first_type(written), message::encoded(written), want) is Some == message::has_payload(
            written,
            want,
        ),
    decreases written.len(),
{
    if written.len() > 0 {
        let rest = written.drop_first();
        message::lemma_encoded_head(written);
        lemma_first_payload_of_list(rest, want);
        assert(message::has_payload(written, want) == (written[0].0 == want || message::has_payload(rest, want))) by {
            if message::has_payload(written, want) && written[0].0 != want {
                let i = choose|i: int| 0 <= i < written.len() && (#[trigger] written[i]).0 == want;
                assert(rest[i - 1] == written[i]);
            }
            if message::has_payload(rest, want) {
                let i = choose|i: int| 0 <= i < rest.len() && (#[trigger] rest[i]).0 == want;
                assert(written[i + 1] == rest[i]);
            }
        }
    }
}

proof fn lemma_carried_payloads_are_found(sa: Completed, request: Seq<u8>, want: PayloadType)
    requires
        want != PayloadType::NoNext,
    ensures
        forall|header: IkeHeader, written: Seq<(PayloadType, Seq<u8>)>, seed: Seq<u8>|
            #[trigger] sa.carries(Role::Initiator, header, written, seed, request) ==> first_payload(
                message::first_type(written),
                message::encoded(written),
                want,
            ) is Some == message::has_payload(written, want),
{
    assert forall|header: IkeHeader, written: Seq<(PayloadType, Seq<u8>)>, seed: Seq<u8>| #[trigger]
        sa.carries(Role::Initiator, header, written, seed, request) implies first_payload(
        message::first_type(written),
        message::encoded(written),
        want,
    ) is Some == message::has_payload(written, want) by {
        lemma_first_payload_of_list(written, want);
    }
}

/// Whether the client's `IKE_AUTH` carries a `CERTREQ` payload, listing the CAs
/// it trusts; native iOS/Android clients typically send none. A responder can
/// use this to keep a CERTREQ client on its existing cert while serving native
/// (no-CERTREQ) clients an alternate one.
pub fn client_sent_certreq(sa: &CompletedSaInit, request: &[u8]) -> (listed: bool)
    requires
        sa@.suite.cipher() is Some,
    ensures
        listed == (match sa@.opened(Role::Initiator, request@) {
            Err(_) => false,
            Ok((first, inner)) => first_payload(first, inner, PayloadType::CertRequest) is Some,
        }),
        forall|header: IkeHeader, written: Seq<(PayloadType, Seq<u8>)>, seed: Seq<u8>|
            #[trigger] sa@.carries(Role::Initiator, header, written, seed, request@) ==> listed
                == message::has_payload(written, PayloadType::CertRequest),
        sa@.tampered(Role::Initiator, request@) ==> !listed,
{
    proof {
        lemma_carried_payloads_are_found(sa@, request@, PayloadType::CertRequest);
    }
    match open_from(sa, Role::Initiator, request) {
        Ok((first, inner)) => find_first(first, &inner, PayloadType::CertRequest).is_some(),
        Err(_) => false,
    }
}

/// The responder's verified identity, its chosen CHILD SA SPI, the ESP cipher
/// it named (from the same SA payload -- one of our proposals, so `None` only
/// if the caller offered a combination [`negotiate::select_esp`] cannot
/// decode), the assigned inner IPv4 (if any), and its actual granted `TSr`
/// (always `Some` since [`initiator_verify_auth`] requires it) -- see
/// [`AuthPayloads::tsr`] for why this is often more authoritative than the
/// CFG_REPLY subnet for deciding what to route through the tunnel. Returned by
/// [`initiator_verify_auth`].
pub type VerifiedAuth = (
    Identification,
    u32,
    Option<ChosenEspSuite>,
    Option<[u8; 4]>,
    Option<TrafficSelectors>,
);

/// A [`VerifiedAuth`] as a value of the specification.
#[verifier::ext_equal]
pub struct Verified {
    pub peer_id: Identity,
    pub peer_child_spi: u32,
    pub esp_suite: Option<ChosenEspSuite>,
    pub assigned_ip4: Option<Seq<u8>>,
    pub tsr: Option<Seq<Selector>>,
}

/// A [`VerifiedAuth`] taken by its view.
pub open spec fn viewed_verified(result: Result<VerifiedAuth, IkeError>) -> Result<Verified, Failure> {
    match result {
        Ok((peer_id, peer_child_spi, esp_suite, assigned_ip4, tsr)) => Ok(
            Verified {
                peer_id: peer_id@,
                peer_child_spi,
                esp_suite,
                assigned_ip4: viewed_address(assigned_ip4),
                tsr: viewed_option(tsr),
            },
        ),
        Err(error) => Err(error@),
    }
}

/// The SPI and cipher of the CHILD SA a responder answered `offer` with: one of
/// the proposals that were sent.
pub open spec fn child_taken(sar2: Seq<Offered>, offer: Seq<Offered>) -> Result<
    (u32, Option<ChosenEspSuite>),
    Failure,
> {
    let sent = child::sai2_of(offer, 0);
    if !negotiate::accepts(sar2, sent) {
        Err(Failure::NoProposalChosen)
    } else {
        match child::spi_of(sar2[0]) {
            Err(failure) => Err(failure),
            Ok(spi) => match negotiate::selected_esp(sar2) {
                Some(suite) => if suite.within(sent) {
                    Ok((spi, Some(suite)))
                } else {
                    Err(Failure::NoProposalChosen)
                },
                None => Ok((spi, None)),
            },
        }
    }
}

/// What the responder's `IKE_AUTH` response whose SK payload holds this payload
/// chain comes to.
pub open spec fn verified(
    sa: Completed,
    cfg: Config,
    offer: Seq<Offered>,
    ts_offer: ChildTsOffer,
    first: PayloadType,
    inner: Seq<u8>,
) -> Result<Verified, Failure> {
    match Gotten::read(first, inner) {
        Err(failure) => Err(failure),
        Ok(got) => match cfg.peer.verdict(sa.suite.prf(), got, responder_octets(sa, got.id_body)) {
            Err(failure) => Err(failure),
            Ok(()) => verified_peer(got, offer, ts_offer),
        },
    }
}

/// What a response of a responder whose AUTH verified comes to. One that refuses
/// the CHILD SA is a rejection with a stated reason.
pub open spec fn verified_peer(got: Gotten, offer: Seq<Offered>, ts_offer: ChildTsOffer) -> Result<Verified, Failure> {
    match got.child_sa {
        None => match got.child_error {
            Some(error) => Err(Failure::PeerRejected { notify_type: error, name: notify_type::name(error) }),
            None => Err(Failure::MissingPayload("SA"@)),
        },
        Some(sar2) => match child_taken(sar2, offer) {
            Err(failure) => Err(failure),
            Ok((peer_child_spi, esp_suite)) => match child::granted(ts_offer.ts(), got.tsi, got.tsr) {
                Err(failure) => Err(failure),
                Ok(()) => match Identity::read(got.id_body) {
                    Err(failure) => Err(failure),
                    Ok(peer_id) => Ok(
                        Verified {
                            peer_id,
                            peer_child_spi,
                            esp_suite,
                            assigned_ip4: got.assigned_ip4,
                            tsr: got.tsr,
                        },
                    ),
                },
            },
        },
    }
}

/// The SPI and cipher of a CHILD SA with their error taken by its view.
pub open spec fn viewed_child(result: Result<(u32, Option<ChosenEspSuite>), IkeError>) -> Result<
    (u32, Option<ChosenEspSuite>),
    Failure,
> {
    match result {
        Ok(child) => Ok(child),
        Err(error) => Err(error@),
    }
}

/// One of the proposals we sent, by its number, with one transform of each
/// of its types (RFC 7296 §2.7, §3.3.1, §3.3.6) -- carrying the peer's SPI.
fn take_child(sar2: &SecurityAssociation, esp_offer: &SecurityAssociation) -> (child: Result<
    (u32, Option<ChosenEspSuite>),
    IkeError,
>)
    ensures
        viewed_child(child) == child_taken(sar2@, esp_offer@),
{
    let sent = sai2(esp_offer, 0);
    let proposal = match negotiate::accepted_proposal(sar2, &sent) {
        Ok(proposal) => proposal,
        Err(error) => {
            return Err(error);
        },
    };
    let spi = match esp_spi(proposal) {
        Ok(spi) => spi,
        Err(error) => {
            return Err(error);
        },
    };
    match negotiate::select_esp(sar2) {
        Some(suite) => {
            if !suite.matches_offer(&sent) {
                return Err(IkeError::NoProposalChosen);
            }
            Ok((spi, Some(suite)))
        },
        None => Ok((spi, None)),
    }
}

/// Initiator: decrypt + verify the responder's `IKE_AUTH` response. `esp_offer`
/// must be the same CHILD SA proposal template this side actually sent (see
/// [`initiator_auth_request_with_cfg`]'s doc) -- the responder's SAr2 is
/// checked against it (RFC 7296 §2.7) so a peer can't answer with an
/// ENCR/INTEG/ESN combination it never actually saw offered (see
/// [`ChosenEspSuite::matches_offer`]'s doc for why that matters). `ts_offer`
/// must be the one the request proposed: the TSi and TSr answered are
/// checked against it ([`check_granted_ts`]). See [`VerifiedAuth`] for the
/// returned fields.
///
/// A refused CHILD SA is reported only once the AUTH has verified: a peer that
/// authenticated but refused it (RFC 7296 §1.2) is a rejection with a stated
/// reason, not a "missing SA payload".
pub fn initiator_verify_auth(
    sa: &CompletedSaInit,
    response: &[u8],
    cfg: &AuthConfig,
    esp_offer: &SecurityAssociation,
    ts_offer: ChildTsOffer,
) -> (out: Result<VerifiedAuth, IkeError>)
    requires
        sa@.suite.keyed(),
    ensures
        viewed_verified(out) == (match sa@.opened(Role::Responder, response@) {
            Err(failure) => Err(failure),
            Ok((first, inner)) => verified(sa@, cfg@, esp_offer@, ts_offer, first, inner),
        }),
        forall|header: IkeHeader, written: Seq<(PayloadType, Seq<u8>)>, seed: Seq<u8>|
            #[trigger] sa@.carries(Role::Responder, header, written, seed, response@) ==> viewed_verified(out)
                == verified(
                sa@,
                cfg@,
                esp_offer@,
                ts_offer,
                message::first_type(written),
                message::encoded(written),
            ),
        sa@.tampered(Role::Responder, response@) ==> viewed_verified(out) == Err::<Verified, Failure>(
            Failure::BadIntegrity,
        ),
{
    // The responder encrypts with SK_er.
    let (first, inner) = match open_from(sa, Role::Responder, response) {
        Ok(opened) => opened,
        Err(error) => {
            return Err(error);
        },
    };
    let got = match parse_auth_inner(first, &inner) {
        Ok(got) => got,
        Err(error) => {
            return Err(error);
        },
    };
    let octets = octets_of_responder(sa, &got.id_body);
    match verify_peer_auth(sa.suite.prf_algorithm(), cfg, &got, &octets) {
        Ok(()) => (),
        Err(error) => {
            return Err(error);
        },
    }
    let sar2 = match &got.child_sa {
        Some(sar2) => sar2,
        None => {
            if let Some(error) = got.child_error {
                return Err(IkeError::PeerRejected { notify_type: error, name: notify_type_name(error) });
            }
            return Err(IkeError::MissingPayload("SA"));
        },
    };
    let (peer_child_spi, esp_suite) = match take_child(sar2, esp_offer) {
        Ok(child) => child,
        Err(error) => {
            return Err(error);
        },
    };
    let tsi = match &got.tsi {
        Some(ts) => Some(ts),
        None => None,
    };
    let tsr = match &got.tsr {
        Some(ts) => Some(ts),
        None => None,
    };
    match check_granted_ts(&ts_offer.selectors(), tsi, tsr) {
        Ok(()) => (),
        Err(error) => {
            return Err(error);
        },
    }
    match Identification::parse(&got.id_body) {
        Ok(peer_id) => Ok((peer_id, peer_child_spi, esp_suite, got.assigned_ip4, got.tsr)),
        Err(error) => Err(error),
    }
}

} // verus!
