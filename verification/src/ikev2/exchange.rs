//! The `IKE_SA_INIT` exchange (RFC 7296 §1.2), implemented for both roles.
//!
//! ```text
//! Initiator  →  HDR, SAi1, KEi, Ni
//! Responder  →  HDR, SAr1, KEr, Nr
//! ```
//!
//! After the round trip, both sides independently compute the same SKEYSEED and
//! SK_* set from the shared DH secret, the two nonces, and the two SPIs.
//!
//! Ephemeral inputs (DH private scalar, nonce, SPI) are supplied by the caller
//! via [`LocalSecret`] rather than drawn inside the exchange -- this keeps it
//! deterministic; production callers pass OS randomness.

use vstd::prelude::*;
use vstd::string::StringExecFns;

use crate::addr::{Endpoint, IpAddress};
use crate::bytes;
use crate::crypto;
use crate::crypto::prf::{session_keys, Keys};
use crate::crypto::{DhGroup, SessionKeys};
use crate::entropy;
use crate::entropy::Entropy;
use crate::error::{viewed, viewed_option, Failure, IkeError};
use crate::ikev2::message;
use crate::ikev2::message::{payloads, ExchangeType, Flags, Framed, IkeHeader, MessageBuilder, PayloadType, RawPayload};
use crate::ikev2::natt;
use crate::ikev2::negotiate;
use crate::ikev2::negotiate::ChosenSuite;
use crate::ikev2::payload::basic;
use crate::ikev2::payload::basic::{Exchanged, Notice};
use crate::ikev2::payload::sa;
use crate::ikev2::payload::sa::Offered;
use crate::ikev2::payload::{
    notify_type, notify_type_name, protocol_id, sighash, transform_id, transform_type, KeyExchange, Nonce, Notify,
    Proposal, SecurityAssociation, Transform,
};
use crate::ikev2::sk;
use crate::role::Role;
use crate::text;
use crate::wipe;

verus! {

broadcast use crate::bytes::group_lengths;

/// Our per-exchange ephemeral inputs. In production these come from the OS RNG;
/// in tests they are fixed for determinism.
#[derive(Clone)]
pub struct LocalSecret {
    /// The private scalar of the Diffie-Hellman exchange.
    pub dh_private: [u8; 32],
    /// Our nonce (Ni if we initiate, Nr if we respond).
    pub nonce: Vec<u8>,
    /// Our SPI (SPIi if we initiate, SPIr if we respond); must be non-zero.
    pub spi: u64,
}

/// A [`LocalSecret`] as a value of the specification.
#[verifier::ext_equal]
pub struct Secret {
    pub dh_private: Seq<u8>,
    pub nonce: Seq<u8>,
    pub spi: u64,
}

impl View for LocalSecret {
    type V = Secret;

    open spec fn view(&self) -> Secret {
        Secret { dh_private: self.dh_private@, nonce: self.nonce@, spi: self.spi }
    }
}

impl LocalSecret {
    /// Draw fresh ephemeral inputs from an entropy source. `nonce_len` must be
    /// at least 16 (RFC 7296 §2.10); 32 is a good default. The SPI is forced
    /// non-zero.
    pub fn generate<E: Entropy>(entropy: &mut E, nonce_len: usize) -> (secret: Self)
        ensures
            secret.nonce@.len() == nonce_len,
            secret.spi != 0,
    {
        let dh_private = entropy::random_array32(entropy);
        let nonce = entropy::random_bytes(entropy, nonce_len);
        let spi = entropy.next_u64();
        Self::drawn(dh_private, nonce, spi)
    }

    /// The ephemeral inputs these random draws make: an SPI of zero is reserved
    /// (RFC 7296 §3.1), so 1 takes its place.
    pub fn drawn(dh_private: [u8; 32], nonce: Vec<u8>, spi: u64) -> (secret: Self)
        ensures
            secret.dh_private == dh_private,
            secret.nonce == nonce,
            secret.spi == if spi == 0 {
                1
            } else {
                spi
            },
    {
        LocalSecret {
            dh_private,
            nonce,
            spi: if spi == 0 {
                1
            } else {
                spi
            },
        }
    }

    /// Wipe the private scalar and the nonce; the SPI is no secret and stays.
    pub fn zeroize(&mut self)
        ensures
            final(self).dh_private@ == bytes::zeros(32),
            final(self).nonce@.len() == 0,
            final(self).spi == old(self).spi,
    {
        wipe::wipe_array(&mut self.dh_private);
        wipe::wipe_vec(&mut self.nonce);
    }

    /// The secret in words that give nothing of it away: the private scalar and
    /// the nonce by their lengths, the SPI in decimal.
    pub fn redacted(&self) -> (out: String)
        ensures
            out@ == "LocalSecret { dh_private: [32 bytes REDACTED], nonce: ["@ + text::decimal(self.nonce@.len())
                + " bytes REDACTED], spi: "@ + text::decimal(self.spi as nat) + " }"@,
    {
        let mut out = String::from_str("LocalSecret { dh_private: [32 bytes REDACTED], nonce: [");
        text::push_decimal(&mut out, self.nonce.len() as u64);
        out.append(" bytes REDACTED], spi: ");
        text::push_decimal(&mut out, self.spi);
        out.append(" }");
        out
    }
}

/// The result of a completed `IKE_SA_INIT`, from one side's perspective.
///
/// Carries everything `IKE_AUTH` needs: the derived keys, the two nonces, and
/// the two SA_INIT messages verbatim (the AUTH payload signs over them,
/// RFC 7296 §2.15).
#[derive(Clone, PartialEq, Eq)]
pub struct CompletedSaInit {
    pub role: Role,
    pub spi_i: u64,
    pub spi_r: u64,
    pub suite: ChosenSuite,
    pub keys: SessionKeys,
    /// Initiator and responder nonces.
    pub ni: Vec<u8>,
    pub nr: Vec<u8>,
    /// The `IKE_SA_INIT` request and response, exactly as they went on the wire.
    pub init_message: Vec<u8>,
    pub resp_message: Vec<u8>,
    /// The RFC 7427 signature hashes the *peer* advertised in its `IKE_SA_INIT`
    /// (empty if none). A method-14 signer must pick one of these; an empty list
    /// means the peer forbids Digital Signature auth.
    pub peer_signature_hashes: Vec<u16>,
    /// Whether the peer's `IKE_SA_INIT` advertised `IKEV2_FRAGMENTATION_SUPPORTED`
    /// (RFC 7383 §2.4). A caller MUST NOT send it SKF fragments unless this is
    /// true.
    pub peer_supports_fragmentation: bool,
}

/// A [`CompletedSaInit`] as a value of the specification.
#[verifier::ext_equal]
pub struct Completed {
    pub role: Role,
    pub spi_i: u64,
    pub spi_r: u64,
    pub suite: ChosenSuite,
    pub keys: Keys,
    pub ni: Seq<u8>,
    pub nr: Seq<u8>,
    pub init_message: Seq<u8>,
    pub resp_message: Seq<u8>,
    pub peer_signature_hashes: Seq<u16>,
    pub peer_supports_fragmentation: bool,
}

impl View for CompletedSaInit {
    type V = Completed;

    open spec fn view(&self) -> Completed {
        Completed {
            role: self.role,
            spi_i: self.spi_i,
            spi_r: self.spi_r,
            suite: self.suite,
            keys: self.keys@,
            ni: self.ni@,
            nr: self.nr@,
            init_message: self.init_message@,
            resp_message: self.resp_message@,
            peer_signature_hashes: self.peer_signature_hashes@,
            peer_supports_fragmentation: self.peer_supports_fragmentation,
        }
    }
}

impl Completed {
    /// Whether the suite is one we run and the keys are as long as it asks.
    pub open spec fn valid(self) -> bool {
        self.suite.runnable() && self.keys.fits(self.suite.lengths())
    }
}

/// The payloads an `IKE_SA_INIT` message carries that we act on.
#[derive(Debug, Clone, PartialEq, Eq)]
pub struct SaInitPayloads {
    pub sa: SecurityAssociation,
    pub ke: KeyExchange,
    pub nonce: Nonce,
    /// The peer's advertised RFC 7427 signature hashes (empty if it sent none).
    pub signature_hashes: Vec<u16>,
    /// A COOKIE notify the initiator echoed back (RFC 7296 §2.6), if any.
    pub cookie: Option<Vec<u8>>,
    /// The peer's `NAT_DETECTION_DESTINATION_IP` notify data, if it sent one.
    pub nat_dest: Option<Vec<u8>>,
    /// The peer's `NAT_DETECTION_SOURCE_IP` notify data, if it sent one.
    pub nat_source: Option<Vec<u8>>,
    /// Whether the sender advertised `IKEV2_FRAGMENTATION_SUPPORTED` (RFC 7383
    /// §2.4): a message MUST NOT be fragmented to a peer unless it announced
    /// support for reassembling fragments here.
    pub fragmentation_supported: bool,
}

/// A [`SaInitPayloads`] as a value of the specification.
#[verifier::ext_equal]
pub struct Heard {
    pub sa: Seq<Offered>,
    pub ke: Exchanged,
    pub nonce: Seq<u8>,
    pub signature_hashes: Seq<u16>,
    pub cookie: Option<Seq<u8>>,
    pub nat_dest: Option<Seq<u8>>,
    pub nat_source: Option<Seq<u8>>,
    pub fragmentation_supported: bool,
}

impl View for SaInitPayloads {
    type V = Heard;

    open spec fn view(&self) -> Heard {
        Heard {
            sa: self.sa@,
            ke: self.ke@,
            nonce: self.nonce@,
            signature_hashes: self.signature_hashes@,
            cookie: viewed_option(self.cookie),
            nat_dest: viewed_option(self.nat_dest),
            nat_source: viewed_option(self.nat_source),
            fragmentation_supported: self.fragmentation_supported,
        }
    }
}

/// What was found so far in the payloads of an `IKE_SA_INIT` message.
struct Scan {
    sa: Option<SecurityAssociation>,
    ke: Option<KeyExchange>,
    nonce: Option<Nonce>,
    signature_hashes: Vec<u16>,
    cookie: Option<Vec<u8>>,
    invalid_ke_group: Option<u16>,
    nat_dest: Option<Vec<u8>>,
    nat_source: Option<Vec<u8>>,
    fragmentation_supported: bool,
}

/// What was found so far in the payloads of an `IKE_SA_INIT` message.
#[verifier::ext_equal]
pub struct Noted {
    pub sa: Option<Seq<Offered>>,
    pub ke: Option<Exchanged>,
    pub nonce: Option<Seq<u8>>,
    pub signature_hashes: Seq<u16>,
    pub cookie: Option<Seq<u8>>,
    pub invalid_ke_group: Option<u16>,
    pub nat_dest: Option<Seq<u8>>,
    pub nat_source: Option<Seq<u8>>,
    pub fragmentation_supported: bool,
}

impl View for Scan {
    type V = Noted;

    closed spec fn view(&self) -> Noted {
        Noted {
            sa: viewed_option(self.sa),
            ke: viewed_option(self.ke),
            nonce: viewed_option(self.nonce),
            signature_hashes: self.signature_hashes@,
            cookie: viewed_option(self.cookie),
            invalid_ke_group: self.invalid_ke_group,
            nat_dest: viewed_option(self.nat_dest),
            nat_source: viewed_option(self.nat_source),
            fragmentation_supported: self.fragmentation_supported,
        }
    }
}

/// The hash identifiers in the data of a `SIGNATURE_HASH_ALGORITHMS` notify: a bare
/// list of 16-bit numbers. A trailing odd octet is ignored.
pub open spec fn signature_hashes(data: Seq<u8>) -> Seq<u16> {
    Seq::new(data.len() / 2, |i: int| bytes::at16(data, 2 * i))
}

impl Noted {
    /// Nothing found yet.
    pub open spec fn nothing() -> Noted {
        Noted {
            sa: None,
            ke: None,
            nonce: None,
            signature_hashes: Seq::empty(),
            cookie: None,
            invalid_ke_group: None,
            nat_dest: None,
            nat_source: None,
            fragmentation_supported: false,
        }
    }

    /// A notify taken in. COOKIE and INVALID_KE_PAYLOAD are no refusals: a
    /// responder that sends either kept no state and expects a retry (RFC 7296
    /// §2.6, §2.7). Any other error type is one.
    pub open spec fn with_notify(self, notify: Notice) -> Result<Noted, Failure> {
        if notify.notify_type == notify_type::COOKIE {
            if 1 <= notify.data.len() <= 64 {
                Ok(Noted { cookie: Some(notify.data), ..self })
            } else {
                Ok(self)
            }
        } else if notify.notify_type == notify_type::INVALID_KE_PAYLOAD {
            Ok(
                Noted {
                    invalid_ke_group: if notify.data.len() == 2 {
                        Some(bytes::at16(notify.data, 0))
                    } else {
                        None
                    },
                    ..self
                },
            )
        } else if notify.error() {
            Err(
                Failure::PeerRejected {
                    notify_type: notify.notify_type,
                    name: notify_type::name(notify.notify_type),
                },
            )
        } else if notify.notify_type == notify_type::SIGNATURE_HASH_ALGORITHMS {
            Ok(Noted { signature_hashes: signature_hashes(notify.data), ..self })
        } else if notify.notify_type == notify_type::NAT_DETECTION_DESTINATION_IP {
            Ok(Noted { nat_dest: Some(notify.data), ..self })
        } else if notify.notify_type == notify_type::NAT_DETECTION_SOURCE_IP {
            Ok(Noted { nat_source: Some(notify.data), ..self })
        } else if notify.notify_type == notify_type::IKEV2_FRAGMENTATION_SUPPORTED {
            Ok(Noted { fragmentation_supported: true, ..self })
        } else {
            Ok(self)
        }
    }

    /// One payload taken in: a later one of a type takes the place of an earlier.
    pub open spec fn with(self, payload: Framed) -> Result<Noted, Failure> {
        match payload.payload_type {
            PayloadType::SecurityAssociation => match sa::read_proposals(payload.data) {
                Err(failure) => Err(failure),
                Ok(sa) => Ok(Noted { sa: Some(sa), ..self }),
            },
            PayloadType::KeyExchange => match Exchanged::read(payload.data) {
                Err(failure) => Err(failure),
                Ok(ke) => Ok(Noted { ke: Some(ke), ..self }),
            },
            PayloadType::Nonce => match basic::read_nonce(payload.data) {
                Err(failure) => Err(failure),
                Ok(nonce) => Ok(Noted { nonce: Some(nonce), ..self }),
            },
            PayloadType::Notify => match Notice::read(payload.data) {
                Err(_) => Ok(self),
                Ok(notify) => self.with_notify(notify),
            },
            _ => Ok(self),
        }
    }

    /// Every payload of the chain taken in, one after the other, up to the first
    /// that is malformed or refuses the exchange.
    pub open spec fn with_all(self, first: PayloadType, body: Seq<u8>) -> Result<Noted, Failure>
        decreases body.len(),
    {
        if first == PayloadType::NoNext {
            Ok(self)
        } else {
            match message::head(first, body) {
                Err(failure) => Err(failure),
                Ok(payload) => match self.with(payload) {
                    Err(failure) => Err(failure),
                    Ok(more) => more.with_all(message::next_type(body), message::after_head(body)),
                },
            }
        }
    }

    /// What the payloads make up. Without an SA payload they are a challenge, or
    /// not an `IKE_SA_INIT` message.
    pub open spec fn concluded(self) -> Result<Heard, Failure> {
        match self.sa {
            None => if let Some(group) = self.invalid_ke_group {
                Err(Failure::InvalidKeGroup(group))
            } else if let Some(cookie) = self.cookie {
                Err(Failure::CookieRequired { cookie })
            } else {
                Err(Failure::MissingPayload("SA"@))
            },
            Some(sa) => match self.ke {
                None => Err(Failure::MissingPayload("KE"@)),
                Some(ke) => match self.nonce {
                    None => Err(Failure::MissingPayload("Nonce"@)),
                    Some(nonce) => Ok(
                        Heard {
                            sa,
                            ke,
                            nonce,
                            signature_hashes: self.signature_hashes,
                            cookie: self.cookie,
                            nat_dest: self.nat_dest,
                            nat_source: self.nat_source,
                            fragmentation_supported: self.fragmentation_supported,
                        },
                    ),
                },
            },
        }
    }
}

impl Heard {
    /// The payloads of the `IKE_SA_INIT` message with this header and body.
    pub open spec fn read(header: IkeHeader, body: Seq<u8>) -> Result<Heard, Failure> {
        if header.length != 28 + body.len() {
            Err(Failure::BadLength { declared: header.length as nat, available: 28 + body.len() })
        } else {
            match Noted::nothing().with_all(header.next_payload, body) {
                Err(failure) => Err(failure),
                Ok(noted) => noted.concluded(),
            }
        }
    }

    /// The payloads of a whole `IKE_SA_INIT` message.
    pub open spec fn of(wire: Seq<u8>) -> Result<Heard, Failure> {
        match IkeHeader::read(wire) {
            Err(failure) => Err(failure),
            Ok(header) => Self::read(header, bytes::from(wire, 28)),
        }
    }
}

/// Decode a `SIGNATURE_HASH_ALGORITHMS` notify's data.
fn parse_signature_hashes(data: &[u8]) -> (hashes: Vec<u16>)
    ensures
        hashes@ == signature_hashes(data@),
{
    let mut hashes: Vec<u16> = Vec::new();
    for i in 0..data.len() / 2
        invariant
            hashes@ == signature_hashes(data@).take(i as int),
    {
        assert(2 * i + 2 <= data.len());
        hashes.push(bytes::get16(data, 2 * i));
        assert(hashes@ =~= signature_hashes(data@).take(i + 1));
    }
    assert(hashes@ =~= signature_hashes(data@));
    hashes
}

impl Scan {
    /// Nothing found yet.
    fn nothing() -> (scan: Scan)
        ensures
            scan@ == Noted::nothing(),
    {
        let scan = Scan {
            sa: None,
            ke: None,
            nonce: None,
            signature_hashes: Vec::new(),
            cookie: None,
            invalid_ke_group: None,
            nat_dest: None,
            nat_source: None,
            fragmentation_supported: false,
        };
        assert(scan@ =~= Noted::nothing());
        scan
    }

    /// Take a notify in.
    fn with_notify(self, notify: Notify) -> (scan: Result<Scan, IkeError>)
        ensures
            viewed(scan) == self@.with_notify(notify@),
    {
        let mut scan = self;
        if notify.notify_type == notify_type::COOKIE {
            if 1 <= notify.data.len() && notify.data.len() <= 64 {
                scan.cookie = Some(notify.data);
            }
        } else if notify.notify_type == notify_type::INVALID_KE_PAYLOAD {
            scan.invalid_ke_group = if notify.data.len() == 2 {
                Some(bytes::get16(&notify.data, 0))
            } else {
                None
            };
        } else if notify.is_error() {
            return Err(
                IkeError::PeerRejected {
                    notify_type: notify.notify_type,
                    name: notify_type_name(notify.notify_type),
                },
            );
        } else if notify.notify_type == notify_type::SIGNATURE_HASH_ALGORITHMS {
            scan.signature_hashes = parse_signature_hashes(&notify.data);
        } else if notify.notify_type == notify_type::NAT_DETECTION_DESTINATION_IP {
            scan.nat_dest = Some(notify.data);
        } else if notify.notify_type == notify_type::NAT_DETECTION_SOURCE_IP {
            scan.nat_source = Some(notify.data);
        } else if notify.notify_type == notify_type::IKEV2_FRAGMENTATION_SUPPORTED {
            scan.fragmentation_supported = true;
        }
        Ok(scan)
    }

    /// Take one payload in.
    fn with(self, payload: &RawPayload) -> (scan: Result<Scan, IkeError>)
        ensures
            viewed(scan) == self@.with(payload@),
    {
        let mut scan = self;
        match payload.payload_type {
            PayloadType::SecurityAssociation => match SecurityAssociation::parse(payload.data) {
                Ok(sa) => {
                    scan.sa = Some(sa);
                },
                Err(error) => {
                    return Err(error);
                },
            },
            PayloadType::KeyExchange => match KeyExchange::parse(payload.data) {
                Ok(ke) => {
                    scan.ke = Some(ke);
                },
                Err(error) => {
                    return Err(error);
                },
            },
            PayloadType::Nonce => match Nonce::parse(payload.data) {
                Ok(nonce) => {
                    scan.nonce = Some(nonce);
                },
                Err(error) => {
                    return Err(error);
                },
            },
            PayloadType::Notify => match Notify::parse(payload.data) {
                Ok(notify) => {
                    return scan.with_notify(notify);
                },
                Err(_) => (),
            },
            // Vendor IDs and certificate requests are not acted on here.
            _ => (),
        }
        Ok(scan)
    }

    /// What the payloads make up.
    fn concluded(self) -> (out: Result<SaInitPayloads, IkeError>)
        ensures
            viewed(out) == self@.concluded(),
    {
        let sa = match self.sa {
            Some(sa) => sa,
            None => {
                if let Some(group) = self.invalid_ke_group {
                    return Err(IkeError::InvalidKeGroup(group));
                }
                if let Some(cookie) = self.cookie {
                    return Err(IkeError::CookieRequired { cookie });
                }
                return Err(IkeError::MissingPayload("SA"));
            },
        };
        let ke = match self.ke {
            Some(ke) => ke,
            None => {
                return Err(IkeError::MissingPayload("KE"));
            },
        };
        let nonce = match self.nonce {
            Some(nonce) => nonce,
            None => {
                return Err(IkeError::MissingPayload("Nonce"));
            },
        };
        Ok(
            SaInitPayloads {
                sa,
                ke,
                nonce,
                signature_hashes: self.signature_hashes,
                cookie: self.cookie,
                nat_dest: self.nat_dest,
                nat_source: self.nat_source,
                fragmentation_supported: self.fragmentation_supported,
            },
        )
    }
}

/// What follows the header of a message.
fn body_of(wire: &[u8]) -> (body: &[u8])
    requires
        28 <= wire@.len(),
    ensures
        body@ == bytes::from(wire@, 28),
        28 + body.len() <= usize::MAX,
{
    assert(wire.len() <= usize::MAX);
    bytes::tail(wire, IkeHeader::LEN)
}

/// The payloads of the `IKE_SA_INIT` message with this header and body.
///
/// The header's Length is the whole message's (RFC 7296 §3.1). Nothing
/// protects an `IKE_SA_INIT`, and AUTH later signs its exact octets, so one
/// that disagrees with the datagram carrying it is not taken as one.
pub fn parse_sa_init(header: &IkeHeader, body: &[u8]) -> (out: Result<SaInitPayloads, IkeError>)
    requires
        28 + body.len() <= usize::MAX,
    ensures
        viewed(out) == Heard::read(*header, body@),
{
    let available: usize = IkeHeader::LEN + body.len();
    if header.length as usize != available {
        return Err(IkeError::BadLength { declared: header.length as usize, available });
    }
    let mut scan = Scan::nothing();
    let mut iter = payloads(header.next_payload, body);
    let ghost whole = Noted::nothing().with_all(header.next_payload, body@);
    loop
        invariant_except_break
            !iter.finished(),
            scan@.with_all(iter.first(), iter.remaining()) == whole,
        invariant
            whole == Noted::nothing().with_all(header.next_payload, body@),
            header.length == 28 + body@.len(),
        ensures
            whole == Ok::<Noted, Failure>(scan@),
        decreases iter.remaining().len(),
    {
        match iter.next() {
            None => {
                break;
            },
            Some(Err(error)) => {
                return Err(error);
            },
            Some(Ok(payload)) => match scan.with(&payload) {
                Ok(more) => {
                    scan = more;
                },
                Err(error) => {
                    return Err(error);
                },
            },
        }
    }
    scan.concluded()
}

/// The `SIGNATURE_HASH_ALGORITHMS` notify (RFC 7427 §4) advertising the hash we
/// can verify: SHA-256 alone, which every native client offers.
pub open spec fn sighash_notice() -> Notice {
    Notice::status(notify_type::SIGNATURE_HASH_ALGORITHMS, bytes::be16(sighash::SHA2_256))
}

/// The `IKEV2_FRAGMENTATION_SUPPORTED` notify (RFC 7383 §2.4).
pub open spec fn fragmentation_notice() -> Notice {
    Notice::status(notify_type::IKEV2_FRAGMENTATION_SUPPORTED, Seq::empty())
}

/// The signature hashes we advertise, and can verify, in an RFC 7427 Digital
/// Signature AUTH. Only SHA-256 -- every native iOS and Android client offers
/// it -- so this is what we both advertise and require of a method-14 signer.
pub const SUPPORTED_SIGNATURE_HASHES: [u16; 1] = [sighash::SHA2_256];

/// The `SIGNATURE_HASH_ALGORITHMS` notify advertising the hashes we can verify
/// -- required in `IKE_SA_INIT` before Digital Signature auth.
fn sighash_notify() -> (notify: Notify)
    ensures
        notify@ == sighash_notice(),
{
    let mut data: Vec<u8> = Vec::new();
    bytes::push16(&mut data, SUPPORTED_SIGNATURE_HASHES[0]);
    assert(data@ =~= bytes::be16(sighash::SHA2_256));
    Notify::status(notify_type::SIGNATURE_HASH_ALGORITHMS, data)
}

/// The `IKEV2_FRAGMENTATION_SUPPORTED` notify, which every `IKE_SA_INIT` built
/// here carries: whoever puts the building blocks together reassembles every
/// fragmented message the peer sends ([`crate::ikev2::fragment`]).
fn fragmentation_supported_notify() -> (notify: Notify)
    ensures
        notify@ == fragmentation_notice(),
{
    let notify = Notify::status(notify_type::IKEV2_FRAGMENTATION_SUPPORTED, Vec::new());
    assert(notify@ =~= fragmentation_notice());
    notify
}

/// The header of an `IKE_SA_INIT` message; the builder fills in its Next Payload
/// and Length.
pub open spec fn sa_init_header(spi_i: u64, spi_r: u64, flags: Flags) -> IkeHeader {
    IkeHeader {
        initiator_spi: spi_i,
        responder_spi: spi_r,
        next_payload: PayloadType::NoNext,
        major_version: 2,
        minor_version: 0,
        exchange_type: ExchangeType::IkeSaInit,
        flags,
        message_id: 0,
        length: 0,
    }
}

/// The flags of a request from the original initiator.
pub open spec fn request_flags() -> Flags {
    Flags { initiator: true, version: false, response: false }
}

/// The flags of a response from the original responder.
pub open spec fn response_flags() -> Flags {
    Flags { initiator: false, version: false, response: true }
}

/// The header of an `IKE_SA_INIT` message.
pub fn base_header(spi_i: u64, spi_r: u64, flags: Flags) -> (header: IkeHeader)
    ensures
        header == sa_init_header(spi_i, spi_r, flags),
{
    IkeHeader {
        initiator_spi: spi_i,
        responder_spi: spi_r,
        next_payload: PayloadType::NoNext,
        major_version: 2,
        minor_version: 0,
        exchange_type: ExchangeType::IkeSaInit,
        flags,
        message_id: 0,
        length: 0,
    }
}

/// One notify as a payload.
pub open spec fn notify_part(notify: Notice) -> (PayloadType, Seq<u8>) {
    (PayloadType::Notify, notify.octets())
}

/// The payloads of an `IKE_SA_INIT` message: a COOKIE first when there is one,
/// then SA, KE and Nonce, and the notifies.
pub open spec fn sa_init_parts(
    cookie: Option<Seq<u8>>,
    sa: Seq<Offered>,
    ke: Exchanged,
    nonce: Seq<u8>,
    extra: Seq<Notice>,
) -> Seq<(PayloadType, Seq<u8>)> {
    let lead = match cookie {
        Some(cookie) => seq![notify_part(Notice::status(notify_type::COOKIE, cookie))],
        None => Seq::empty(),
    };
    lead + seq![
        (PayloadType::SecurityAssociation, sa::proposal_octets(sa)),
        (PayloadType::KeyExchange, ke.octets()),
        (PayloadType::Nonce, nonce),
        notify_part(sighash_notice()),
        notify_part(fragmentation_notice()),
    ] + extra.map_values(|n: Notice| notify_part(n))
}

/// Notifies, each taken by its view.
pub open spec fn notices(notifies: Seq<Notify>) -> Seq<Notice> {
    notifies.map_values(|n: Notify| n@)
}

/// Build an `IKE_SA_INIT` message.
pub fn build_sa_init(
    header: IkeHeader,
    sa: &SecurityAssociation,
    dh_group: u16,
    dh_public: &[u8],
    nonce: &[u8],
    extra_notifies: &[Notify],
) -> (out: Vec<u8>)
    ensures
        out@ == message::message(
            header,
            sa_init_parts(
                None,
                sa@,
                (Exchanged { dh_group, data: dh_public@ }),
                nonce@,
                notices(extra_notifies@),
            ),
        ),
{
    build_sa_init_with_cookie(header, None, sa, dh_group, dh_public, nonce, extra_notifies)
}

/// An optional slice taken by its contents.
pub open spec fn slice_option(value: Option<&[u8]>) -> Option<Seq<u8>> {
    match value {
        Some(value) => Some(value@),
        None => None,
    }
}

/// [`build_sa_init`], led by a COOKIE notify when `cookie` is `Some`: a retry
/// after a COOKIE challenge carries it "as the first payload, and all other
/// payloads unchanged" (RFC 7296 §2.6).
fn build_sa_init_with_cookie(
    header: IkeHeader,
    cookie: Option<&[u8]>,
    sa: &SecurityAssociation,
    dh_group: u16,
    dh_public: &[u8],
    nonce: &[u8],
    extra_notifies: &[Notify],
) -> (out: Vec<u8>)
    ensures
        out@ == message::message(
            header,
            sa_init_parts(
                slice_option(cookie),
                sa@,
                (Exchanged { dh_group, data: dh_public@ }),
                nonce@,
                notices(extra_notifies@),
            ),
        ),
{
    let ke = KeyExchange { dh_group, data: bytes::copy(dh_public) };
    let mut builder = MessageBuilder::new(header);
    if let Some(cookie) = cookie {
        builder = builder.push(
            PayloadType::Notify,
            Notify::status(notify_type::COOKIE, bytes::copy(cookie)).to_bytes(),
        );
    }
    builder = builder.push(PayloadType::SecurityAssociation, sa.to_bytes());
    builder = builder.push(PayloadType::KeyExchange, ke.to_bytes());
    builder = builder.push(PayloadType::Nonce, bytes::copy(nonce));
    builder = builder.push(PayloadType::Notify, sighash_notify().to_bytes());
    builder = builder.push(PayloadType::Notify, fragmentation_supported_notify().to_bytes());
    let ghost lead = builder.parts();
    let ghost extra = notices(extra_notifies@).map_values(|n: Notice| notify_part(n));
    assert(lead + extra =~= sa_init_parts(
        slice_option(cookie),
        sa@,
        Exchanged { dh_group, data: dh_public@ },
        nonce@,
        notices(extra_notifies@),
    ));
    assert(lead + extra.take(0) =~= lead);
    for i in 0..extra_notifies.len()
        invariant
            extra == notices(extra_notifies@).map_values(|n: Notice| notify_part(n)),
            builder.header() == header,
            builder.parts() == lead + extra.take(i as int),
    {
        builder = builder.push(PayloadType::Notify, extra_notifies[i].to_bytes());
        assert(lead + extra.take(i + 1) =~= (lead + extra.take(i as int)).push(extra[i as int]));
    }
    assert(extra.take(extra.len() as int) =~= extra);
    builder.build()
}

/// The peer's public value, checked against the negotiated group's ID and length.
pub open spec fn public_in(ke: Exchanged, group: DhGroup) -> Result<Seq<u8>, Failure> {
    if ke.dh_group != group.id() {
        Err(Failure::DhGroupMismatch { expected: group.id(), got: ke.dh_group })
    } else if ke.data.len() != group.public_size() {
        Err(Failure::BadKeyExchange { group: ke.dh_group, len: ke.data.len() })
    } else {
        Ok(ke.data)
    }
}

/// The peer's public value, checked against the negotiated group's ID and length.
fn dh_peer(ke: &KeyExchange, group: DhGroup) -> (out: Result<&Vec<u8>, IkeError>)
    ensures
        match out {
            Ok(public) => public_in(ke@, group) == Ok::<Seq<u8>, Failure>(public@),
            Err(error) => public_in(ke@, group) == Err::<Seq<u8>, Failure>(error@),
        },
{
    if ke.dh_group != group.transform_id() {
        return Err(IkeError::DhGroupMismatch { expected: group.transform_id(), got: ke.dh_group });
    }
    if ke.data.len() != group.public_len() {
        return Err(IkeError::BadKeyExchange { group: ke.dh_group, len: ke.data.len() });
    }
    Ok(&ke.data)
}

/// The DH group an offer advertises: that of its first proposal's first DH
/// transform, X25519 when that names none we run.
pub open spec fn offered_group(offer: Seq<Offered>) -> DhGroup {
    if offer.len() == 0 {
        DhGroup::X25519
    } else {
        match negotiate::first_of_type(offer[0].transforms, transform_type::DH, 0) {
            None => DhGroup::X25519,
            Some(transform) => match DhGroup::named(transform.transform_id) {
                None => DhGroup::X25519,
                Some(group) => group,
            },
        }
    }
}

/// The DH group our own offer advertises (its first proposal's DH transform).
fn offer_dh_group(offer: &SecurityAssociation) -> (group: DhGroup)
    ensures
        group == offered_group(offer@),
{
    if offer.proposals.len() == 0 {
        return DhGroup::X25519;
    }
    assert(offer@[0] == offer.proposals@[0]@);
    match negotiate::first_transform(&offer.proposals[0], transform_type::DH) {
        Some(transform) => match DhGroup::from_transform_id(transform.transform_id) {
            Some(group) => group,
            None => DhGroup::X25519,
        },
        None => DhGroup::X25519,
    }
}

/// Our default offered proposal: AES-GCM-16-256, PRF-HMAC-SHA256, X25519.
pub open spec fn default_proposal() -> Offered {
    Offered {
        num: 1,
        protocol_id: protocol_id::IKE,
        spi: Seq::empty(),
        transforms: seq![
            Transform {
                transform_type: transform_type::ENCR,
                transform_id: transform_id::AES_GCM_16,
                key_length: Some(256),
            },
            negotiate::plain(transform_type::PRF, transform_id::PRF_HMAC_SHA2_256),
            negotiate::plain(transform_type::DH, transform_id::X25519),
        ],
    }
}

/// Our default offered proposal: AES-GCM-16-256, PRF-HMAC-SHA256, X25519.
/// (No ESN -- that transform type is only valid for ESP and AH, RFC 7296 §3.3.3.)
pub fn default_offer() -> (offer: SecurityAssociation)
    ensures
        offer@ == seq![default_proposal()],
{
    let transforms: Vec<Transform> = vec![
        Transform {
            transform_type: transform_type::ENCR,
            transform_id: transform_id::AES_GCM_16,
            key_length: Some(256),
        },
        Transform {
            transform_type: transform_type::PRF,
            transform_id: transform_id::PRF_HMAC_SHA2_256,
            key_length: None,
        },
        Transform { transform_type: transform_type::DH, transform_id: transform_id::X25519, key_length: None },
    ];
    let proposal = Proposal { num: 1, protocol_id: protocol_id::IKE, spi: Vec::new(), transforms };
    assert(proposal@ =~= default_proposal());
    let offer = SecurityAssociation { proposals: vec![proposal] };
    assert(offer@ =~= seq![default_proposal()]);
    offer
}

/// The `IKE_SA_INIT` request of `local`: its SPI, its public value in `group` and
/// its nonce.
pub open spec fn request_wire(
    local: Secret,
    offer: Seq<Offered>,
    cookie: Option<Seq<u8>>,
    group: DhGroup,
    extra: Seq<Notice>,
) -> Seq<u8> {
    message::message(
        sa_init_header(local.spi, 0, request_flags()),
        sa_init_parts(
            cookie,
            offer,
            Exchanged { dh_group: group.id(), data: group.public_of(local.dh_private) },
            local.nonce,
            extra,
        ),
    )
}

/// Initiator step 1: build the `IKE_SA_INIT` request from our offer.
pub fn initiator_request(local: &LocalSecret, offer: &SecurityAssociation) -> (request: Vec<u8>)
    ensures
        request@ == request_wire(local@, offer@, None, offered_group(offer@), Seq::empty()),
{
    let group = offer_dh_group(offer);
    let public = group.public(&local.dh_private);
    let header = base_header(local.spi, 0, Flags { initiator: true, version: false, response: false });
    let none: [Notify; 0] = [];
    assert(notices(none@) =~= Seq::<Notice>::empty());
    build_sa_init(header, offer, group.transform_id(), &public, &local.nonce, &none)
}

/// The NAT detection notifies of a request that claims to come from `ours`. When
/// NAT traversal is forced, the source is the hash of an address no packet ever
/// comes from.
pub open spec fn request_nat_notices(spi: u64, ours: Endpoint, peer: Endpoint, force: bool) -> Seq<Notice> {
    seq![
        Notice::status(
            notify_type::NAT_DETECTION_SOURCE_IP,
            if force {
                natt::address_hash_of(spi, 0, bytes::zeros(ours.ip.octets().len()), 0)
            } else {
                natt::address_hash_of(spi, 0, ours.ip.octets(), ours.port)
            },
        ),
        Notice::status(
            notify_type::NAT_DETECTION_DESTINATION_IP,
            natt::address_hash_of(spi, 0, peer.ip.octets(), peer.port),
        ),
    ]
}

/// Initiator step 1, **NAT-detecting** variant (RFC 7296 §2.23): also emits
/// `NAT_DETECTION_SOURCE_IP` and `NAT_DETECTION_DESTINATION_IP` notifies so we can
/// tell, from the response, whether either end sits behind a NAT and the
/// exchange (and later ESP) needs to float to UDP 4500. `our_addr` is the local
/// address our packets will actually carry as their source (the specific
/// interface IP the OS routes through to reach `peer_addr`, not a wildcard).
/// `peer_addr` is where we're sending, i.e. the gateway's `IKE_SA_INIT` address.
pub fn initiator_request_natt(
    local: &LocalSecret,
    offer: &SecurityAssociation,
    our_addr: Endpoint,
    peer_addr: Endpoint,
) -> (request: Vec<u8>)
    ensures
        request@ == request_wire(
            local@,
            offer@,
            None,
            offered_group(offer@),
            request_nat_notices(local.spi, our_addr, peer_addr, false),
        ),
{
    initiator_request_natt_with(local, offer, our_addr, peer_addr, false)
}

/// [`initiator_request_natt`], optionally **forcing** NAT-T (`force_natt`):
/// `NAT_DETECTION_SOURCE_IP` then carries the hash of an address we can't have,
/// so the responder concludes we sit behind a NAT and floats to UDP 4500 --
/// after which it also sends ESP as ESP-in-UDP to our source port instead of raw
/// IP protocol 50. For a platform whose data plane can only receive ESP
/// inside UDP; the caller must float too, see [`NatStatus::forced`].
pub fn initiator_request_natt_with(
    local: &LocalSecret,
    offer: &SecurityAssociation,
    our_addr: Endpoint,
    peer_addr: Endpoint,
    force_natt: bool,
) -> (request: Vec<u8>)
    ensures
        request@ == request_wire(
            local@,
            offer@,
            None,
            offered_group(offer@),
            request_nat_notices(local.spi, our_addr, peer_addr, force_natt),
        ),
{
    initiator_request_natt_retry(local, offer, our_addr, peer_addr, force_natt, None, None)
}

/// [`initiator_request_natt_with`], for a **retry** after the responder
/// challenged the previous `IKE_SA_INIT` attempt and kept no state (RFC 7296
/// §2.6 COOKIE, §1.2 and §2.7 INVALID_KE_PAYLOAD -- see
/// [`IkeError::CookieRequired`] and [`IkeError::InvalidKeGroup`]):
///
/// * `cookie`, when `Some`, is echoed back as a COOKIE notify, so the
///   responder recognizes this as the same return-routability check passing
///   rather than a fresh, unrelated request.
/// * `group`, when `Some`, replaces the offer's own preferred group in the
///   Key Exchange payload only -- the responder already chose it out of what
///   the offer's SA already proposed (that's the only way it could have named
///   it), so the SA payload itself doesn't need to change.
///
/// The two are independent, so a chain of COOKIE then INVALID_KE_PAYLOAD (or
/// the reverse) is answered by setting both at once on the exchange's final
/// retry.
pub fn initiator_request_natt_retry(
    local: &LocalSecret,
    offer: &SecurityAssociation,
    our_addr: Endpoint,
    peer_addr: Endpoint,
    force_natt: bool,
    cookie: Option<&[u8]>,
    group: Option<DhGroup>,
) -> (request: Vec<u8>)
    ensures
        request@ == request_wire(
            local@,
            offer@,
            slice_option(cookie),
            match group {
                Some(group) => group,
                None => offered_group(offer@),
            },
            request_nat_notices(local.spi, our_addr, peer_addr, force_natt),
        ),
{
    let group = match group {
        Some(group) => group,
        None => offer_dh_group(offer),
    };
    let public = group.public(&local.dh_private);
    let header = base_header(local.spi, 0, Flags { initiator: true, version: false, response: false });
    // The wildcard address on port 0: no packet is ever sourced from it, so its
    // hash can't match whatever source address the responder observes.
    let claimed = if force_natt {
        Endpoint { ip: wildcard_for(our_addr.ip), port: 0 }
    } else {
        our_addr
    };
    // SPIr is unknown at this point: the header carries 0, and the responder
    // reconstructs the same hash input from that same 0.
    let extra: Vec<Notify> = vec![
        natt::source_ip_notify(local.spi, 0, claimed.ip, claimed.port),
        natt::destination_ip_notify(local.spi, 0, peer_addr.ip, peer_addr.port),
    ];
    assert(notices(extra@) =~= request_nat_notices(local.spi, our_addr, peer_addr, force_natt));
    build_sa_init_with_cookie(header, cookie, offer, group.transform_id(), &public, &local.nonce, &extra)
}

/// The unspecified address of the same family.
fn wildcard_for(ip: IpAddress) -> (out: IpAddress)
    ensures
        out.octets() == bytes::zeros(ip.octets().len()),
{
    let out = match ip {
        IpAddress::V4(_) => IpAddress::V4([0u8; 4]),
        IpAddress::V6(_) => IpAddress::V6([0u8; 16]),
    };
    assert(out.octets() =~= bytes::zeros(ip.octets().len()));
    out
}

/// What an `IKE_SA_INIT` initiator carries into its next attempt after the
/// responder answered with a stateless challenge instead of an SA (RFC 7296
/// §2.6, §2.6.1, §1.2): the latest COOKIE to echo, and the DH group the
/// responder named in INVALID_KE_PAYLOAD. Everything else -- SPIi, SAi1, Ni
/// -- is resent unchanged.
#[derive(Debug)]
pub struct SaInitRetry {
    /// The cookie to echo as the first payload of the next attempt.
    pub cookie: Option<Vec<u8>>,
    /// The group to send the KE in instead of the offer's first one.
    pub group: Option<DhGroup>,
    /// How many COOKIE challenges were answered.
    pub cookies: u32,
}

/// A [`SaInitRetry`] as a value of the specification.
#[verifier::ext_equal]
pub struct Retrying {
    pub cookie: Option<Seq<u8>>,
    pub group: Option<DhGroup>,
    /// How many COOKIE challenges were answered.
    pub answered: nat,
}

impl View for SaInitRetry {
    type V = Retrying;

    open spec fn view(&self) -> Retrying {
        Retrying { cookie: viewed_option(self.cookie), group: self.group, answered: self.cookies as nat }
    }
}

impl Default for SaInitRetry {
    /// No challenge answered yet.
    fn default() -> (retry: Self)
        ensures
            retry@ == (Retrying { cookie: None, group: None, answered: 0 }),
    {
        SaInitRetry { cookie: None, group: None, cookies: 0 }
    }
}

/// Whether `offer` proposes the DH group `id`.
pub open spec fn proposes_group(offer: Seq<Offered>, id: u16) -> bool {
    exists|i: int|
        0 <= i < offer.len() && negotiate::names((#[trigger] offer[i]).transforms, transform_type::DH, id)
}

/// The group to send the KE in once the responder asked for `id`: one `offer`
/// proposes, other than the one already sent.
pub open spec fn corrected_group(offer: Seq<Offered>, id: u16) -> Option<DhGroup> {
    match DhGroup::named(id) {
        Some(group) => if proposes_group(offer, id) && group != offered_group(offer) {
            Some(group)
        } else {
            None
        },
        None => None,
    }
}

impl Retrying {
    /// What the next attempt carries after the challenge `failure`; `None` to give
    /// up with it.
    pub open spec fn absorbing(self, failure: Failure, offer: Seq<Offered>) -> Option<Retrying> {
        match failure {
            Failure::CookieRequired { cookie } => if self.answered < SaInitRetry::MAX_COOKIES {
                Some(Retrying { cookie: Some(cookie), group: self.group, answered: self.answered + 1 })
            } else {
                None
            },
            Failure::InvalidKeGroup(id) => if self.group is None && corrected_group(offer, id) is Some {
                Some(
                    Retrying {
                        cookie: self.cookie,
                        group: corrected_group(offer, id),
                        answered: self.answered,
                    },
                )
            } else {
                None
            },
            _ => None,
        }
    }
}

impl SaInitRetry {
    /// COOKIE challenges answered before giving up (§2.6: "The initiator
    /// should limit the number of cookie exchanges it tries"). Three covers
    /// §2.6.1's longer exchange -- a cookie, then a fresh one after the KE was
    /// corrected -- plus one more from a responder that rotated its secret.
    pub const MAX_COOKIES: u32 = 3;

    /// Take in the challenge `err` from the last attempt: `Ok(())` to retry
    /// with [`Self::cookie`] and [`Self::group`], or the error to give up with.
    /// An INVALID_KE_PAYLOAD is honoured once, and only when it names a group
    /// `offer` proposes other than the one already sent: the KE's group MUST
    /// be one the same message's SA proposes (§3.4), and resending the same
    /// KE could only draw the same answer.
    pub fn absorb(&mut self, err: IkeError, offer: &SecurityAssociation) -> (out: Result<(), IkeError>)
        ensures
            match old(self)@.absorbing(err@, offer@) {
                Some(retry) => out is Ok && final(self)@ == retry,
                None => {
                    &&& out matches Err(error)
                    &&& error@ == err@
                    &&& final(self)@ == old(self)@
                },
            },
    {
        match err {
            IkeError::CookieRequired { cookie } => {
                if self.cookies < Self::MAX_COOKIES {
                    self.cookies = self.cookies + 1;
                    self.cookie = Some(cookie);
                    Ok(())
                } else {
                    Err(IkeError::CookieRequired { cookie })
                }
            },
            IkeError::InvalidKeGroup(id) => {
                if self.group.is_none() {
                    if let Some(group) = DhGroup::from_transform_id(id) {
                        if names_group(offer, id) && group != offer_dh_group(offer) {
                            self.group = Some(group);
                            return Ok(());
                        }
                    }
                }
                Err(IkeError::InvalidKeGroup(id))
            },
            err => Err(err),
        }
    }
}

/// Whether `offer` proposes the DH group `id`.
fn names_group(offer: &SecurityAssociation, id: u16) -> (found: bool)
    ensures
        found == proposes_group(offer@, id),
{
    for i in 0..offer.proposals.len()
        invariant
            forall|j: int|
                0 <= j < i ==> !negotiate::names((#[trigger] offer@[j]).transforms, transform_type::DH, id),
    {
        assert(offer@[i as int] == offer.proposals@[i as int]@);
        if negotiate::names_transform(&offer.proposals[i], transform_type::DH, id) {
            return true;
        }
    }
    false
}

impl Retrying {
    /// How many more challenges will be answered.
    pub open spec fn left(self) -> int {
        (SaInitRetry::MAX_COOKIES - self.answered) + if self.group is None {
            1int
        } else {
            0
        }
    }
}

/// Every challenge answered leaves one less to answer, so an initiator gives up
/// after three cookies and one group correction at the latest.
pub proof fn law_retries_are_bounded(retry: Retrying, failure: Failure, offer: Seq<Offered>)
    requires
        retry.answered <= SaInitRetry::MAX_COOKIES,
    ensures
        retry.absorbing(failure, offer) matches Some(next) ==> {
            &&& next.left() == retry.left() - 1
            &&& next.answered <= SaInitRetry::MAX_COOKIES
        },
        retry.left() >= 0,
{
}

/// A COOKIE challenge policy (RFC 7296 §2.6) -- return-routability against
/// spoofed-source `IKE_SA_INIT` floods. When `required`, the responder answers a
/// request lacking the matching cookie with a COOKIE notify only (no
/// Diffie-Hellman, no half-open state), so an attacker who can't receive at the
/// claimed source address can never make it do work.
pub struct CookiePolicy<'a> {
    /// A responder-private secret, rotated periodically.
    pub secret: &'a [u8],
    /// The observed source address of the request (its octets), bound into the
    /// cookie so a cookie is only valid from the address it was issued to.
    pub peer: &'a [u8],
    /// Whether to demand a cookie right now (e.g. when half-open SAs are high).
    pub required: bool,
}

/// A [`CookiePolicy`] as a value of the specification.
#[verifier::ext_equal]
pub struct Gate {
    pub secret: Seq<u8>,
    pub peer: Seq<u8>,
    pub required: bool,
}

impl<'a> View for CookiePolicy<'a> {
    type V = Gate;

    open spec fn view(&self) -> Gate {
        Gate { secret: self.secret@, peer: self.peer@, required: self.required }
    }
}

/// The IKEv2 COOKIE value: `SHA-256(secret | SPIi | Ni | peer address)`.
pub open spec fn cookie_of(secret: Seq<u8>, spi_i: u64, ni: Seq<u8>, peer: Seq<u8>) -> Seq<u8> {
    crypto::hash::sha256_of(secret + bytes::be64(spi_i) + ni + peer)@
}

/// The IKEv2 COOKIE value: `SHA-256(secret | SPIi | Ni | peer address)`.
pub fn ike_cookie(secret: &[u8], spi_i: u64, ni: &[u8], peer: &[u8]) -> (cookie: Vec<u8>)
    ensures
        cookie@ == cookie_of(secret@, spi_i, ni@, peer@),
{
    let mut input = bytes::copy(secret);
    bytes::push64(&mut input, spi_i);
    bytes::push_all(&mut input, ni);
    bytes::push_all(&mut input, peer);
    assert(input@ =~= secret@ + bytes::be64(spi_i) + ni@ + peer@);
    crypto::hash::sha256_digest(&input)
}

/// A bare `IKE_SA_INIT` response to `spi_i` that carries one notify.
pub open spec fn challenge_wire(spi_i: u64, notify: Notice) -> Seq<u8> {
    message::message(sa_init_header(spi_i, 0, response_flags()), seq![notify_part(notify)])
}

/// A bare `IKE_SA_INIT` response that carries one notify.
fn build_challenge(spi_i: u64, notify: &Notify) -> (out: Vec<u8>)
    ensures
        out@ == challenge_wire(spi_i, notify@),
{
    let header = base_header(spi_i, 0, Flags { initiator: false, version: false, response: true });
    let builder = MessageBuilder::new(header).push(PayloadType::Notify, notify.to_bytes());
    assert(builder.parts() =~= seq![notify_part(notify@)]);
    builder.build()
}

/// A bare `IKE_SA_INIT` response carrying only a COOKIE notify.
fn build_cookie_challenge(spi_i: u64, cookie: &[u8]) -> (out: Vec<u8>)
    ensures
        out@ == challenge_wire(spi_i, Notice::status(notify_type::COOKIE, cookie@)),
{
    build_challenge(spi_i, &Notify::status(notify_type::COOKIE, bytes::copy(cookie)))
}

/// Build a bare `IKE_SA_INIT` response carrying only an `INVALID_KE_PAYLOAD`
/// notify naming the DH group we want the initiator to use.
fn build_invalid_ke(spi_i: u64, group: u16) -> (out: Vec<u8>)
    ensures
        out@ == challenge_wire(
            spi_i,
            Notice::status(notify_type::INVALID_KE_PAYLOAD, bytes::be16(group)),
        ),
{
    let mut data: Vec<u8> = Vec::new();
    bytes::push16(&mut data, group);
    assert(data@ =~= bytes::be16(group));
    build_challenge(spi_i, &Notify::status(notify_type::INVALID_KE_PAYLOAD, data))
}

/// The outcome of responding to an `IKE_SA_INIT` request.
pub enum SaInitResult {
    /// The SA is half-open: send `response` and keep `sa` awaiting `IKE_AUTH`.
    Established { response: Vec<u8>, sa: CompletedSaInit },
    /// The initiator's Key Exchange payload was for a Diffie-Hellman group we did
    /// not select; send `response` (an `INVALID_KE_PAYLOAD` notify naming `group`)
    /// and keep NO state -- the initiator resends `IKE_SA_INIT` with the right KE
    /// (RFC 7296 §1.2, §2.7). Native clients (iOS, Android) rely on this.
    InvalidKe { response: Vec<u8>, group: u16 },
    /// A cookie is required (anti-DoS): send `response` (a COOKIE notify) and keep
    /// NO state; the initiator resends `IKE_SA_INIT` echoing the cookie.
    CookieRequired { response: Vec<u8> },
}

/// A [`SaInitResult`] as a value of the specification.
#[verifier::ext_equal]
pub enum Reply {
    Established { response: Seq<u8>, sa: Completed },
    InvalidKe { response: Seq<u8>, group: u16 },
    CookieRequired { response: Seq<u8> },
}

impl View for SaInitResult {
    type V = Reply;

    open spec fn view(&self) -> Reply {
        match *self {
            SaInitResult::Established { response, sa } => Reply::Established { response: response@, sa: sa@ },
            SaInitResult::InvalidKe { response, group } => Reply::InvalidKe { response: response@, group },
            SaInitResult::CookieRequired { response } => Reply::CookieRequired { response: response@ },
        }
    }
}

/// The NAT detection notifies of a response (RFC 7296 §2.23): SOURCE is the hash
/// of our own address, DESTINATION that of the peer's as we observed it. A client
/// behind a NAT sees the DESTINATION hash disagree with its local address.
pub open spec fn response_nat_notices(spi_i: u64, spi_r: u64, addresses: Option<(Endpoint, Endpoint)>) -> Seq<Notice> {
    match addresses {
        None => Seq::empty(),
        Some((ours, peer)) => seq![
            Notice::status(
                notify_type::NAT_DETECTION_SOURCE_IP,
                natt::address_hash_of(spi_i, spi_r, ours.ip.octets(), ours.port),
            ),
            Notice::status(
                notify_type::NAT_DETECTION_DESTINATION_IP,
                natt::address_hash_of(spi_i, spi_r, peer.ip.octets(), peer.port),
            ),
        ],
    }
}

/// The response of `local` that takes up `offered` with `suite`.
pub open spec fn response_wire(
    spi_i: u64,
    local: Secret,
    suite: ChosenSuite,
    offered: Offered,
    group: DhGroup,
    extra: Seq<Notice>,
) -> Seq<u8> {
    message::message(
        sa_init_header(spi_i, local.spi, response_flags()),
        sa_init_parts(
            None,
            seq![suite.proposed(negotiate::has_type(offered.transforms, transform_type::INTEG))],
            Exchanged { dh_group: suite.dh_id, data: group.public_of(local.dh_private) },
            local.nonce,
            extra,
        ),
    )
}

/// Whether the cookie policy lets a request with this SPI, nonce and cookie
/// through.
pub open spec fn admitted(gate: Option<Gate>, spi_i: u64, nonce: Seq<u8>, cookie: Option<Seq<u8>>) -> bool {
    match gate {
        Some(gate) => gate.required ==> cookie == Some(cookie_of(gate.secret, spi_i, nonce, gate.peer)),
        None => true,
    }
}

/// How the responder `local` answers a request with this SPI and these payloads,
/// once the cookie policy let it through.
pub open spec fn answered(
    request: Seq<u8>,
    spi_i: u64,
    heard: Heard,
    local: Secret,
    addresses: Option<(Endpoint, Endpoint)>,
) -> Result<Reply, Failure> {
    match negotiate::selected(heard.sa) {
        None => Err(Failure::NoProposalChosen),
        Some((i, suite)) => {
            let group = DhGroup::named(suite.dh_id).unwrap();
            match basic::read_nonce_for_prf(heard.nonce, suite.prf()) {
                Err(failure) => Err(failure),
                Ok(_) => if heard.ke.dh_group != group.id() {
                    match addresses {
                        Some(_) => Ok(
                            Reply::InvalidKe {
                                response: challenge_wire(
                                    spi_i,
                                    Notice::status(
                                        notify_type::INVALID_KE_PAYLOAD,
                                        bytes::be16(group.id()),
                                    ),
                                ),
                                group: group.id(),
                            },
                        ),
                        None => Err(
                            Failure::DhGroupMismatch { expected: group.id(), got: heard.ke.dh_group },
                        ),
                    }
                } else {
                    match public_in(heard.ke, group) {
                        Err(failure) => Err(failure),
                        Ok(public) => match group.shared_of(local.dh_private, public) {
                            Err(failure) => Err(failure),
                            Ok(shared) => {
                                let response = response_wire(
                                    spi_i,
                                    local,
                                    suite,
                                    heard.sa[i],
                                    group,
                                    response_nat_notices(spi_i, local.spi, addresses),
                                );
                                Ok(
                                    Reply::Established {
                                        response,
                                        sa: Completed {
                                            role: Role::Responder,
                                            spi_i,
                                            spi_r: local.spi,
                                            suite,
                                            keys: session_keys(
                                                suite.prf(),
                                                shared,
                                                heard.nonce,
                                                local.nonce,
                                                spi_i,
                                                local.spi,
                                                suite.lengths(),
                                            ),
                                            ni: heard.nonce,
                                            nr: local.nonce,
                                            init_message: request,
                                            resp_message: response,
                                            peer_signature_hashes: heard.signature_hashes,
                                            peer_supports_fragmentation: heard.fragmentation_supported,
                                        },
                                    },
                                )
                            },
                        },
                    }
                },
            }
        },
    }
}

/// How the responder `local` answers an `IKE_SA_INIT` request.
#[verifier::opaque]
pub open spec fn responded(
    request: Seq<u8>,
    local: Secret,
    addresses: Option<(Endpoint, Endpoint)>,
    gate: Option<Gate>,
) -> Result<Reply, Failure> {
    match IkeHeader::read(request) {
        Err(failure) => Err(failure),
        Ok(header) => match Heard::read(header, bytes::from(request, 28)) {
            Err(failure) => Err(failure),
            Ok(heard) => {
                let spi_i = header.initiator_spi;
                if !admitted(gate, spi_i, heard.nonce, heard.cookie) {
                    let gate = gate.unwrap();
                    Ok(
                        Reply::CookieRequired {
                            response: challenge_wire(
                                spi_i,
                                Notice::status(
                                    notify_type::COOKIE,
                                    cookie_of(gate.secret, spi_i, heard.nonce, gate.peer),
                                ),
                            ),
                        },
                    )
                } else {
                    answered(request, spi_i, heard, local, addresses)
                }
            },
        },
    }
}

/// The keys of a suite we run fit the counter of `prf+`.
pub proof fn lemma_lengths(suite: ChosenSuite)
    requires
        suite.runnable(),
    ensures
        suite.lengths().total() <= 255 * suite.prf().size(),
        sk::key_fits_len(suite.cipher().unwrap(), suite.lengths().encr as nat),
{
    let cipher = suite.cipher().unwrap();
    assert(suite.encr_key_bits <= 256);
    if let Some(id) = suite.integ_id {
        assert(crate::crypto::IntegAlgorithm::named(id) is Some);
    }
}

/// Whether the public value of `private`, if the suite's group is a curve, is one the
/// other end takes.
pub open spec fn curve_value_stands(private: Seq<u8>, suite: ChosenSuite) -> bool {
    let group = DhGroup::named(suite.dh_id).unwrap();
    !group.is_modp() ==> group.takes(group.public_of(private))
}

/// Whether the cookie the request carried is the one expected.
fn cookie_matches(cookie: &Option<Vec<u8>>, expected: &[u8]) -> (matches: bool)
    ensures
        matches == (viewed_option(*cookie) == Some(expected@)),
{
    match cookie {
        Some(cookie) => bytes::same(cookie, expected),
        None => false,
    }
}

/// Choose a suite from the payloads of a request and answer it.
fn answer(
    request: &[u8],
    spi_i: u64,
    heard: SaInitPayloads,
    local: &LocalSecret,
    addresses: Option<(Endpoint, Endpoint)>,
) -> (out: Result<SaInitResult, IkeError>)
    ensures
        viewed(out) == answered(request@, spi_i, heard@, local@, addresses),
        out matches Ok(SaInitResult::Established { sa, .. }) ==> sa@.valid() && curve_value_stands(local@.dh_private, sa@.suite),
{
    let (offered, suite) = match negotiate::select_with_proposal(&heard.sa) {
        Some(picked) => picked,
        None => {
            return Err(IkeError::NoProposalChosen);
        },
    };
    match Nonce::parse_for_prf(&heard.nonce.data, suite.prf_algorithm()) {
        Ok(_) => (),
        Err(error) => {
            return Err(error);
        },
    }
    let group = match DhGroup::from_transform_id(suite.dh_id) {
        Some(group) => group,
        None => {
            return Err(IkeError::NoProposalChosen);
        },
    };
    // The initiator sends a KE payload for its best-guess group; if we selected a
    // different one (it offered several, we support a different subset), tell it
    // to retry with ours.
    if heard.ke.dh_group != group.transform_id() {
        return match addresses {
            Some(_) => Ok(
                SaInitResult::InvalidKe {
                    response: build_invalid_ke(spi_i, group.transform_id()),
                    group: group.transform_id(),
                },
            ),
            None => Err(
                IkeError::DhGroupMismatch { expected: group.transform_id(), got: heard.ke.dh_group },
            ),
        };
    }
    let peer_public = match dh_peer(&heard.ke, group) {
        Ok(public) => public,
        Err(error) => {
            return Err(error);
        },
    };
    let our_public = group.public(&local.dh_private);
    let shared = match group.shared(&local.dh_private, peer_public) {
        Ok(shared) => shared,
        Err(error) => {
            return Err(error);
        },
    };
    let spi_r: u64 = local.spi;
    proof {
        lemma_lengths(suite);
    }
    let keys = crypto::derive_session_keys(
        suite.prf_algorithm(),
        &shared,
        &heard.nonce.data,
        &local.nonce,
        spi_i,
        spi_r,
        suite.key_lengths(),
    );
    let mut extra: Vec<Notify> = Vec::new();
    if let Some((our_addr, peer_addr)) = addresses {
        extra.push(natt::source_ip_notify(spi_i, spi_r, our_addr.ip, our_addr.port));
        extra.push(natt::destination_ip_notify(spi_i, spi_r, peer_addr.ip, peer_addr.port));
    }
    assert(notices(extra@) =~= response_nat_notices(spi_i, spi_r, addresses));
    let header = base_header(spi_i, spi_r, Flags { initiator: false, version: false, response: true });
    let sar1 = SecurityAssociation { proposals: vec![suite.answer_to(offered)] };
    assert(sar1@ =~= seq![suite.proposed(negotiate::has_type(offered@.transforms, transform_type::INTEG))]);
    let response = build_sa_init(header, &sar1, suite.dh_id, &our_public, &local.nonce, &extra);
    let completed = CompletedSaInit {
        role: Role::Responder,
        spi_i,
        spi_r,
        suite,
        keys,
        ni: bytes::copy(&heard.nonce.data),
        nr: bytes::copy(&local.nonce),
        init_message: bytes::copy(request),
        resp_message: bytes::copy(&response),
        peer_signature_hashes: heard.signature_hashes,
        peer_supports_fragmentation: heard.fragmentation_supported,
    };
    Ok(SaInitResult::Established { response, sa: completed })
}

/// An optional policy taken by its view.
pub open spec fn gate_of(policy: Option<CookiePolicy>) -> Option<Gate> {
    match policy {
        Some(policy) => Some(policy@),
        None => None,
    }
}

fn responder_respond_inner(
    request: &[u8],
    local: &LocalSecret,
    addresses: Option<(Endpoint, Endpoint)>,
    cookie: Option<CookiePolicy>,
) -> (out: Result<SaInitResult, IkeError>)
    ensures
        viewed(out) == responded(request@, local@, addresses, gate_of(cookie)),
        out matches Ok(SaInitResult::Established { sa, .. }) ==> sa@.valid() && curve_value_stands(local@.dh_private, sa@.suite),
{
    reveal(responded);
    let header = match IkeHeader::parse(request) {
        Ok(header) => header,
        Err(error) => {
            return Err(error);
        },
    };
    let heard = match parse_sa_init(&header, body_of(request)) {
        Ok(heard) => heard,
        Err(error) => {
            return Err(error);
        },
    };
    // Anti-DoS cookie check (RFC 7296 §2.6), BEFORE any Diffie-Hellman: a spoofed
    // source that can't receive the challenge never makes us do the expensive DH
    // or hold half-open state.
    if let Some(policy) = cookie {
        if policy.required {
            let expected = ike_cookie(policy.secret, header.initiator_spi, &heard.nonce.data, policy.peer);
            if !cookie_matches(&heard.cookie, &expected) {
                return Ok(
                    SaInitResult::CookieRequired {
                        response: build_cookie_challenge(header.initiator_spi, &expected),
                    },
                );
            }
        }
    }
    answer(request, header.initiator_spi, heard, local, addresses)
}

/// A response with its SA, or an error, each taken by its view.
pub open spec fn viewed_response(result: Result<(Vec<u8>, CompletedSaInit), IkeError>) -> Result<
    (Seq<u8>, Completed),
    Failure,
> {
    match result {
        Ok((response, sa)) => Ok((response@, sa@)),
        Err(error) => Err(error@),
    }
}

/// Responder: consume the request, choose a suite, derive keys, and build the
/// response. Returns the response octets and our completed state.
pub fn responder_respond(request: &[u8], local: &LocalSecret) -> (out: Result<
    (Vec<u8>, CompletedSaInit),
    IkeError,
>)
    ensures
        viewed_response(out) == (match responded(request@, local@, None, None) {
            Ok(Reply::Established { response, sa }) => Ok((response, sa)),
            Ok(_) => Err(Failure::NoProposalChosen),
            Err(failure) => Err(failure),
        }),
        out matches Ok((_, sa)) ==> sa@.valid() && curve_value_stands(local@.dh_private, sa@.suite),
{
    match responder_respond_inner(request, local, None, None) {
        Ok(SaInitResult::Established { response, sa }) => Ok((response, sa)),
        // Without addresses and a policy neither challenge is ever made.
        Ok(_) => Err(IkeError::NoProposalChosen),
        Err(error) => Err(error),
    }
}

/// Without addresses and a cookie policy a responder makes no challenge: it
/// establishes the SA or fails.
pub proof fn law_plain_responder_never_challenges(request: Seq<u8>, local: Secret)
    ensures
        responded(request, local, None, None) matches Ok(reply) ==> reply is Established,
{
    reveal(responded);
}

/// SA_INIT responder **with NAT traversal and DH-group renegotiation**: like
/// [`responder_respond`], but also emits `NAT_DETECTION_SOURCE_IP` and
/// `NAT_DETECTION_DESTINATION_IP` notifies so a native (NAT'd) client detects the
/// NAT and floats IKE and ESP to UDP 4500 (RFC 7296 §2.23), and returns an
/// [`SaInitResult::InvalidKe`] (rather than erroring) when the client guessed the
/// wrong DH group, so it can retry. `our_addr` is our address as the peer reaches
/// us; `peer_addr` is the address we observed the request coming from.
pub fn responder_respond_natt(
    request: &[u8],
    local: &LocalSecret,
    our_addr: Endpoint,
    peer_addr: Endpoint,
    cookie: Option<CookiePolicy>,
) -> (out: Result<SaInitResult, IkeError>)
    ensures
        viewed(out) == responded(request@, local@, Some((our_addr, peer_addr)), gate_of(cookie)),
        out matches Ok(SaInitResult::Established { sa, .. }) ==> sa@.valid() && curve_value_stands(local@.dh_private, sa@.suite),
{
    responder_respond_inner(request, local, Some((our_addr, peer_addr)), cookie)
}

/// What the initiator `local` makes of the payloads `heard` in the response from
/// `spi_r`, its own request having carried `asked`.
pub open spec fn accepted(
    local: Secret,
    request: Seq<u8>,
    response: Seq<u8>,
    spi_r: u64,
    heard: Heard,
    asked: Heard,
) -> Result<Completed, Failure> {
    if !negotiate::accepts(heard.sa, asked.sa) {
        Err(Failure::NoProposalChosen)
    } else {
        match negotiate::selected_suite(heard.sa) {
            None => Err(Failure::NoProposalChosen),
            Some(suite) => if !suite.within(asked.sa) {
                Err(Failure::NoProposalChosen)
            } else {
                let group = DhGroup::named(suite.dh_id).unwrap();
                match basic::read_nonce_for_prf(heard.nonce, suite.prf()) {
                    Err(failure) => Err(failure),
                    Ok(_) => match public_in(heard.ke, group) {
                        Err(failure) => Err(failure),
                        Ok(public) => match group.shared_of(local.dh_private, public) {
                            Err(failure) => Err(failure),
                            Ok(shared) => Ok(
                                Completed {
                                    role: Role::Initiator,
                                    spi_i: local.spi,
                                    spi_r,
                                    suite,
                                    keys: session_keys(
                                        suite.prf(),
                                        shared,
                                        local.nonce,
                                        heard.nonce,
                                        local.spi,
                                        spi_r,
                                        suite.lengths(),
                                    ),
                                    ni: local.nonce,
                                    nr: heard.nonce,
                                    init_message: request,
                                    resp_message: response,
                                    peer_signature_hashes: heard.signature_hashes,
                                    peer_supports_fragmentation: heard.fragmentation_supported,
                                },
                            ),
                        },
                    },
                }
            },
        }
    }
}

/// What the initiator `local` makes of the response to its request.
#[verifier::opaque]
pub open spec fn completed(local: Secret, request: Seq<u8>, response: Seq<u8>) -> Result<Completed, Failure> {
    match IkeHeader::read(response) {
        Err(failure) => Err(failure),
        Ok(header) => match Heard::read(header, bytes::from(response, 28)) {
            Err(failure) => Err(failure),
            Ok(heard) => match Heard::of(request) {
                Err(failure) => Err(failure),
                Ok(asked) => accepted(local, request, response, header.responder_spi, heard, asked),
            },
        },
    }
}

/// Whether `sa` is what the responder came to as well, whoever answered our
/// request with `response`: the same keys, suite, SPIs and nonces.
pub open spec fn agrees_with_responder(local: Secret, request: Seq<u8>, response: Seq<u8>, sa: Completed) -> bool {
    forall|theirs: Secret, addresses: Option<(Endpoint, Endpoint)>, gate: Option<Gate>|
        carries(request, local) && sound(theirs) && (#[trigger] responded(request, theirs, addresses, gate)) is Ok
            && responded(request, theirs, addresses, gate)->Ok_0 is Established && responded(
            request,
            theirs,
            addresses,
            gate,
        )->Ok_0->Established_response == response ==> sa.agrees_with(
            responded(request, theirs, addresses, gate)->Ok_0->sa,
        )
}

/// Whether the responder `theirs`, which took `suite` from `offer`, is answered to
/// the end: its answer can take up what it chose, its nonce is long enough for the
/// PRF, and its public value is one to be taken.
pub open spec fn completable(offer: Seq<Offered>, theirs: Secret, suite: ChosenSuite) -> bool {
    let group = DhGroup::named(suite.dh_id).unwrap();
    &&& negotiate::answerable(offer)
    &&& 2 * theirs.nonce.len() >= suite.prf().size()
    &&& group.takes(group.public_of(theirs.dh_private))
}

/// Whether `reply`, with which `theirs` answers the request of `local`, is an
/// established SA and `response`, and the exchange is to be completed.
pub open spec fn to_complete(
    local: Secret,
    request: Seq<u8>,
    response: Seq<u8>,
    theirs: Secret,
    reply: Result<Reply, Failure>,
) -> bool {
    &&& carries(request, local)
    &&& sound(theirs)
    &&& reply matches Ok(Reply::Established { response: answer, sa: theirs_sa })
    &&& answer == response
    &&& completable(Heard::of(request)->Ok_0.sa, theirs, theirs_sa.suite)
}

/// Whether the initiator completes with what the responder came to, whoever answered
/// its request with `response`.
pub open spec fn completes_with_responder(
    local: Secret,
    request: Seq<u8>,
    response: Seq<u8>,
    result: Result<Completed, Failure>,
) -> bool {
    forall|theirs: Secret, addresses: Option<(Endpoint, Endpoint)>, gate: Option<Gate>|
        to_complete(
            local,
            request,
            response,
            theirs,
            #[trigger] responded(request, theirs, addresses, gate),
        ) ==> result is Ok && result->Ok_0.agrees_with(responded(request, theirs, addresses, gate)->Ok_0->sa)
}

/// Whether every check of the answer to `request` that comes before the
/// Diffie-Hellman passes.
spec fn checks_out(request: Seq<u8>, response: Seq<u8>) -> bool {
    &&& Heard::of(request) matches Ok(asked)
    &&& Heard::of(response) matches Ok(heard)
    &&& negotiate::accepts(heard.sa, asked.sa)
    &&& negotiate::selected_suite(heard.sa) matches Some(suite)
    &&& suite.within(asked.sa)
    &&& basic::read_nonce_for_prf(heard.nonce, suite.prf()) is Ok
    &&& public_in(heard.ke, DhGroup::named(suite.dh_id).unwrap()) is Ok
}

/// Initiator step 2: consume the response and derive keys. `request` is the
/// octets returned by [`initiator_request`] (retained for the AUTH payload).
///
/// A responder that established an SA is answered to the end: both hold the same
/// keys, suite, SPIs and nonces.
pub fn initiator_complete(local: &LocalSecret, request: &[u8], response: &[u8]) -> (out: Result<
    CompletedSaInit,
    IkeError,
>)
    ensures
        viewed(out) == completed(local@, request@, response@),
        out matches Ok(sa) ==> sa@.valid() && agrees_with_responder(local@, request@, response@, sa@),
        completes_with_responder(local@, request@, response@, viewed(out)),
{
    reveal(completed);
    proof {
        lemma_answers_check_out(local@, request@, response@);
    }
    let header = match IkeHeader::parse(response) {
        Ok(header) => header,
        Err(error) => {
            return Err(error);
        },
    };
    let heard = match parse_sa_init(&header, body_of(response)) {
        Ok(heard) => heard,
        Err(error) => {
            return Err(error);
        },
    };
    let our_header = match IkeHeader::parse(request) {
        Ok(header) => header,
        Err(error) => {
            return Err(error);
        },
    };
    let asked = match parse_sa_init(&our_header, body_of(request)) {
        Ok(asked) => asked,
        Err(error) => {
            return Err(error);
        },
    };
    // The answer must be one of our proposals, by its number, with exactly one
    // transform of each type it had (RFC 7296 §2.7, §3.3.1, §3.3.6)...
    match negotiate::accepted_proposal(&heard.sa, &asked.sa) {
        Ok(_) => (),
        Err(error) => {
            return Err(error);
        },
    }
    // ...naming a suite we support, and one we actually offered, not merely one
    // we'd support from some other peer.
    let suite = match negotiate::select(&heard.sa) {
        Some(suite) => suite,
        None => {
            return Err(IkeError::NoProposalChosen);
        },
    };
    if !suite.matches_offer(&asked.sa) {
        return Err(IkeError::NoProposalChosen);
    }
    match Nonce::parse_for_prf(&heard.nonce.data, suite.prf_algorithm()) {
        Ok(_) => (),
        Err(error) => {
            return Err(error);
        },
    }
    let group = match DhGroup::from_transform_id(suite.dh_id) {
        Some(group) => group,
        None => {
            return Err(IkeError::NoProposalChosen);
        },
    };
    let peer_public = match dh_peer(&heard.ke, group) {
        Ok(public) => public,
        Err(error) => {
            return Err(error);
        },
    };
    let secret = group.shared(&local.dh_private, peer_public);
    proof {
        assert(Heard::of(response@) == Ok::<Heard, Failure>(heard@));
        assert forall|theirs: Secret, addresses: Option<(Endpoint, Endpoint)>, gate: Option<Gate>|
            to_complete(
                local@,
                request@,
                response@,
                theirs,
                #[trigger] responded(request@, theirs, addresses, gate),
            ) implies completed(local@, request@, response@) is Ok && completed(
            local@,
            request@,
            response@,
        )->Ok_0.agrees_with(responded(request@, theirs, addresses, gate)->Ok_0->sa) by {
            lemma_answer_is_heard(local@, request@, theirs, addresses, gate);
            law_initiator_completes(local@, request@, theirs, addresses, gate);
        }
    }
    let shared = match secret {
        Ok(shared) => shared,
        Err(error) => {
            return Err(error);
        },
    };
    let spi_i: u64 = local.spi;
    let spi_r: u64 = header.responder_spi;
    proof {
        lemma_lengths(suite);
    }
    let keys = crypto::derive_session_keys(
        suite.prf_algorithm(),
        &shared,
        &local.nonce,
        &heard.nonce.data,
        spi_i,
        spi_r,
        suite.key_lengths(),
    );
    let sa = CompletedSaInit {
        role: Role::Initiator,
        spi_i,
        spi_r,
        suite,
        keys,
        ni: bytes::copy(&local.nonce),
        nr: bytes::copy(&heard.nonce.data),
        init_message: bytes::copy(request),
        resp_message: bytes::copy(response),
        peer_signature_hashes: heard.signature_hashes,
        peer_supports_fragmentation: heard.fragmentation_supported,
    };
    proof {
        assert(completed(local@, request@, response@) == Ok::<Completed, Failure>(sa@));
        assert(Heard::of(response@) == Ok::<Heard, Failure>(heard@));
        assert(DhGroup::named(heard.ke.dh_group) == Some(group));
        assert forall|theirs: Secret, addresses: Option<(Endpoint, Endpoint)>, gate: Option<Gate>|
            carries(request@, local@) && sound(theirs) && (#[trigger] responded(request@, theirs, addresses, gate)) is Ok
                && responded(request@, theirs, addresses, gate)->Ok_0 is Established && responded(
                request@,
                theirs,
                addresses,
                gate,
            )->Ok_0->Established_response == response@ implies sa@.agrees_with(
            responded(request@, theirs, addresses, gate)->Ok_0->sa,
        ) by {
            lemma_agreement(local@, request@, response@, theirs, addresses, gate);
        }
    }
    Ok(sa)
}

/// What [`initiator_complete_natt`] found out about NAT on the path (RFC 7296
/// §2.23). Split into its parts (rather than a single bool) so a caller can
/// tell "the responder never sent a NAT_DETECTION notify at all" apart from
/// "it sent one and the addresses genuinely matched" -- both look like "no
/// float needed" from `float_to_4500()` alone, but they mean very different
/// things when a client behind a NAT expects to have to float and doesn't.
#[derive(Debug, Clone, Copy, PartialEq, Eq)]
pub struct NatStatus {
    /// The response carried a `NAT_DETECTION_DESTINATION_IP` notify (the
    /// responder's guess of *our* address) we could actually compare.
    pub dest_notify_present: bool,
    /// The response carried a `NAT_DETECTION_SOURCE_IP` notify (the
    /// responder's own claimed address) we could actually compare.
    pub source_notify_present: bool,
    /// Our claimed address disagreed with what the responder observed --
    /// meaningless if `dest_notify_present` is false.
    pub we_are_natted: bool,
    /// The responder's claimed address disagreed with what we observed the
    /// response arrive from -- meaningless if `source_notify_present` is false.
    pub peer_is_natted: bool,
    /// We asked for NAT-T whatever detection says ([`initiator_request_natt_with`]'s
    /// `force_natt`), so the peer floats too. Always `false` straight out of
    /// [`initiator_complete_natt`]: whoever forced it knows, and sets it.
    pub forced: bool,
}

impl NatStatus {
    /// Whether the exchange should float to UDP 4500 (RFC 7296 §2.23): either
    /// end being NAT'd is enough, and so is having forced it.
    pub fn float_to_4500(&self) -> (float: bool)
        ensures
            float == (self.we_are_natted || self.peer_is_natted || self.forced),
    {
        self.we_are_natted || self.peer_is_natted || self.forced
    }
}

/// What the NAT detection notifies of a response say.
pub open spec fn nat_status(heard: Heard, spi_i: u64, spi_r: u64, ours: Endpoint, peer: Endpoint) -> NatStatus {
    NatStatus {
        dest_notify_present: heard.nat_dest is Some,
        source_notify_present: heard.nat_source is Some,
        we_are_natted: heard.nat_dest is Some && heard.nat_dest != Some(
            natt::address_hash_of(spi_i, spi_r, ours.ip.octets(), ours.port),
        ),
        peer_is_natted: heard.nat_source is Some && heard.nat_source != Some(
            natt::address_hash_of(spi_i, spi_r, peer.ip.octets(), peer.port),
        ),
        forced: false,
    }
}

/// Initiator step 2, **NAT-detecting** variant: like [`initiator_complete`], but
/// also reads the responder's `NAT_DETECTION_*` notifies (present only if
/// [`initiator_request_natt`] built the request) and returns a [`NatStatus`]
/// telling the caller whether (and why) to float to UDP 4500. `our_addr` and
/// `peer_addr` must be the exact same addresses passed to
/// `initiator_request_natt` for this exchange.
pub fn initiator_complete_natt(
    local: &LocalSecret,
    request: &[u8],
    response: &[u8],
    our_addr: Endpoint,
    peer_addr: Endpoint,
) -> (out: Result<(CompletedSaInit, NatStatus), IkeError>)
    ensures
        match out {
            Ok((sa, status)) => {
                &&& completed(local@, request@, response@) == Ok::<Completed, Failure>(sa@)
                &&& sa@.valid()
                &&& agrees_with_responder(local@, request@, response@, sa@)
                &&& completes_with_responder(local@, request@, response@, Ok(sa@))
                &&& Heard::of(response@) matches Ok(heard)
                &&& status == nat_status(
                    heard,
                    local.spi,
                    IkeHeader::read(response@)->Ok_0.responder_spi,
                    our_addr,
                    peer_addr,
                )
            },
            Err(error) => {
                &&& completed(local@, request@, response@) == Err::<Completed, Failure>(error@)
                &&& completes_with_responder(local@, request@, response@, Err(error@))
            },
        },
{
    reveal(completed);
    proof {
        lemma_answers_check_out(local@, request@, response@);
    }
    let header = match IkeHeader::parse(response) {
        Ok(header) => header,
        Err(error) => {
            return Err(error);
        },
    };
    let heard = match parse_sa_init(&header, body_of(response)) {
        Ok(heard) => heard,
        Err(error) => {
            return Err(error);
        },
    };
    let spi_i: u64 = local.spi;
    let spi_r: u64 = header.responder_spi;
    let we_are_natted = match &heard.nat_dest {
        Some(hash) => natt::we_are_behind_nat(hash, spi_i, spi_r, our_addr.ip, our_addr.port),
        None => false,
    };
    let peer_is_natted = match &heard.nat_source {
        Some(hash) => natt::peer_is_behind_nat(hash, spi_i, spi_r, peer_addr.ip, peer_addr.port),
        None => false,
    };
    let status = NatStatus {
        dest_notify_present: heard.nat_dest.is_some(),
        source_notify_present: heard.nat_source.is_some(),
        we_are_natted,
        peer_is_natted,
        forced: false,
    };
    match initiator_complete(local, request, response) {
        Ok(sa) => Ok((sa, status)),
        Err(error) => Err(error),
    }
}

impl Noted {
    /// Payloads taken in one after the other.
    pub open spec fn with_list(self, parts: Seq<(PayloadType, Seq<u8>)>) -> Result<Noted, Failure>
        decreases parts.len(),
    {
        if parts.len() == 0 {
            Ok(self)
        } else {
            match self.with(Framed { payload_type: parts[0].0, critical: false, data: parts[0].1 }) {
                Err(failure) => Err(failure),
                Ok(more) => more.with_list(parts.drop_first()),
            }
        }
    }
}

proof fn lemma_with_all(noted: Noted, parts: Seq<(PayloadType, Seq<u8>)>)
    requires
        message::frameable(parts),
    ensures
        noted.with_all(message::first_type(parts), message::encoded(parts)) == noted.with_list(parts),
    decreases parts.len(),
{
    if parts.len() > 0 {
        message::lemma_encoded_head(parts);
        assert(parts[0].0 != PayloadType::NoNext);
        if let Ok(more) = noted.with(Framed { payload_type: parts[0].0, critical: false, data: parts[0].1 }) {
            lemma_with_all(more, parts.drop_first());
        }
    }
}

/// Whether a notify is a short status about no SA in particular.
spec fn short_status(notify: Notice) -> bool {
    notify.notify_type >= 16384 && notify.spi.len() == 0 && notify.data.len() <= 256
}

/// Whether none of `statuses` is a COOKIE.
spec fn no_cookie(statuses: Seq<Notice>) -> bool {
    forall|i: int| 0 <= i < statuses.len() ==> (#[trigger] statuses[i]).notify_type != notify_type::COOKIE
}

/// Whether a cookie, if there is one, has a length a cookie may have.
pub open spec fn echoable(cookie: Option<Seq<u8>>) -> bool {
    cookie matches Some(cookie) ==> 1 <= cookie.len() <= 64
}

/// Status notifies leave the SA, the KE and the Nonce found so far alone, and the
/// cookie where none of them is one.
proof fn lemma_statuses_keep(noted: Noted, statuses: Seq<Notice>)
    requires
        forall|i: int| 0 <= i < statuses.len() ==> short_status(#[trigger] statuses[i]),
    ensures
        noted.with_list(statuses.map_values(|n: Notice| notify_part(n))) matches Ok(more) && more.sa == noted.sa
            && more.ke == noted.ke && more.nonce == noted.nonce && (no_cookie(statuses) ==> more.cookie
            == noted.cookie),
    decreases statuses.len(),
{
    let parts = statuses.map_values(|n: Notice| notify_part(n));
    if statuses.len() > 0 {
        let n = statuses[0];
        assert(short_status(n));
        basic::law_notify_round_trip(n);
        let rest = statuses.drop_first();
        assert forall|i: int| 0 <= i < rest.len() implies short_status(#[trigger] rest[i]) by {
            assert(rest[i] == statuses[i + 1]);
        }
        assert(no_cookie(statuses) ==> no_cookie(rest));
        assert(parts.drop_first() =~= rest.map_values(|n: Notice| notify_part(n)));
        assert(parts[0] == notify_part(n));
        let more = noted.with(Framed { payload_type: parts[0].0, critical: false, data: parts[0].1 })->Ok_0;
        lemma_statuses_keep(more, rest);
    }
}

proof fn lemma_with_list_joins(noted: Noted, a: Seq<(PayloadType, Seq<u8>)>, b: Seq<(PayloadType, Seq<u8>)>)
    requires
        noted.with_list(a) is Ok,
    ensures
        noted.with_list(a + b) == noted.with_list(a)->Ok_0.with_list(b),
    decreases a.len(),
{
    if a.len() == 0 {
        assert(a + b =~= b);
    } else {
        assert((a + b).drop_first() =~= a.drop_first() + b);
        assert((a + b)[0] == a[0]);
        let more = noted.with(Framed { payload_type: a[0].0, critical: false, data: a[0].1 })->Ok_0;
        lemma_with_list_joins(more, a.drop_first(), b);
    }
}

/// Whether an offer keeps its shape on the wire.
pub open spec fn encodable_offer(offer: Seq<Offered>) -> bool {
    &&& forall|i: int|
        0 <= i < offer.len() ==> (#[trigger] offer[i]).encodable() && offer[i].octets(true).len() < 0x1_0000
    &&& sa::proposal_octets(offer).len() < 0xfffc
}

proof fn lemma_core_parts(noted: Noted, sa: Seq<Offered>, ke: Exchanged, nonce: Seq<u8>)
    requires
        encodable_offer(sa),
        16 <= nonce.len() <= 256,
    ensures
        noted.with_list(
            seq![
                (PayloadType::SecurityAssociation, sa::proposal_octets(sa)),
                (PayloadType::KeyExchange, ke.octets()),
                (PayloadType::Nonce, nonce),
            ],
        ) == Ok::<Noted, Failure>((Noted { sa: Some(sa), ke: Some(ke), nonce: Some(nonce), ..noted })),
{
    sa::law_sa_round_trip(sa);
    basic::law_key_exchange_round_trip(ke);
    let a = (PayloadType::SecurityAssociation, sa::proposal_octets(sa));
    let b = (PayloadType::KeyExchange, ke.octets());
    let c = (PayloadType::Nonce, nonce);
    let one = Noted { sa: Some(sa), ..noted };
    let two = Noted { ke: Some(ke), ..one };
    let three = Noted { nonce: Some(nonce), ..two };
    assert(seq![a, b, c].drop_first() =~= seq![b, c]);
    assert(seq![b, c].drop_first() =~= seq![c]);
    assert(seq![c].drop_first() =~= Seq::<(PayloadType, Seq<u8>)>::empty());
    assert(three.with_list(Seq::empty()) == Ok::<Noted, Failure>(three));
    assert(two.with_list(seq![c]) == Ok::<Noted, Failure>(three));
    assert(one.with_list(seq![b, c]) == Ok::<Noted, Failure>(three));
    assert(noted.with_list(seq![a, b, c]) == Ok::<Noted, Failure>(three));
}

/// The SA, KE and Nonce payloads, and the SPIs, of an `IKE_SA_INIT` message that
/// was built are read back from it.
proof fn lemma_sa_init_heard(
    spi_i: u64,
    spi_r: u64,
    flags: Flags,
    cookie: Option<Seq<u8>>,
    sa: Seq<Offered>,
    ke: Exchanged,
    nonce: Seq<u8>,
    extra: Seq<Notice>,
)
    requires
        encodable_offer(sa),
        ke.data.len() <= 1024,
        16 <= nonce.len() <= 256,
        extra.len() <= 2,
        forall|i: int| 0 <= i < extra.len() ==> short_status(#[trigger] extra[i]),
        cookie matches Some(cookie) ==> cookie.len() <= 256,
    ensures
        ({
            let wire = message::message(
                sa_init_header(spi_i, spi_r, flags),
                sa_init_parts(cookie, sa, ke, nonce, extra),
            );
            &&& IkeHeader::read(wire) matches Ok(header)
            &&& header.initiator_spi == spi_i
            &&& header.responder_spi == spi_r
            &&& Heard::of(wire) matches Ok(heard)
            &&& heard.sa == sa
            &&& heard.ke == ke
            &&& heard.nonce == nonce
            &&& no_cookie(extra) && echoable(cookie) ==> heard.cookie == cookie
        }),
{
    let header = sa_init_header(spi_i, spi_r, flags);
    let parts = sa_init_parts(cookie, sa, ke, nonce, extra);
    let lead = match cookie {
        Some(cookie) => seq![Notice::status(notify_type::COOKIE, cookie)],
        None => Seq::empty(),
    };
    let core = seq![
        (PayloadType::SecurityAssociation, sa::proposal_octets(sa)),
        (PayloadType::KeyExchange, ke.octets()),
        (PayloadType::Nonce, nonce),
    ];
    let tail = seq![sighash_notice(), fragmentation_notice()] + extra;
    let front = lead.map_values(|n: Notice| notify_part(n));
    let back = tail.map_values(|n: Notice| notify_part(n));
    assert(parts =~= front + (core + back));
    assert forall|i: int| 0 <= i < tail.len() implies short_status(#[trigger] tail[i]) by {
        if i >= 2 {
            assert(tail[i] == extra[i - 2]);
        }
    }
    lemma_statuses_keep(Noted::nothing(), lead);
    assert(no_cookie(extra) ==> no_cookie(tail)) by {
        assert forall|i: int| no_cookie(extra) && 0 <= i < tail.len() implies (#[trigger] tail[i]).notify_type
            != notify_type::COOKIE by {
            if i >= 2 {
                assert(tail[i] == extra[i - 2]);
            }
        }
    }
    if let Some(cookie) = cookie {
        let notice = Notice::status(notify_type::COOKIE, cookie);
        basic::law_notify_round_trip(notice);
        assert(front.drop_first() =~= Seq::<(PayloadType, Seq<u8>)>::empty());
        assert(front[0] == notify_part(notice));
        reveal_with_fuel(Noted::with_list, 2);
    } else {
        assert(front =~= Seq::<(PayloadType, Seq<u8>)>::empty());
    }
    let one = Noted::nothing().with_list(front)->Ok_0;
    lemma_core_parts(one, sa, ke, nonce);
    let two = Noted { sa: Some(sa), ke: Some(ke), nonce: Some(nonce), ..one };
    lemma_statuses_keep(two, tail);
    lemma_with_list_joins(one, core, back);
    lemma_with_list_joins(Noted::nothing(), front, core + back);
    assert(message::frameable(parts)) by {
        assert forall|i: int| 0 <= i < parts.len() implies {
            &&& (#[trigger] parts[i]).0.canonical()
            &&& parts[i].0 != PayloadType::NoNext
            &&& 4 + parts[i].1.len() < 0x1_0000
        } by {
            if i < front.len() {
                assert(parts[i] == front[i]);
            } else if i < front.len() + 3 {
                assert(parts[i] == core[i - front.len()]);
            } else {
                let j = i - front.len() - 3;
                assert(parts[i] == back[j]);
                assert(short_status(tail[j]));
            }
        }
    }
    lemma_with_all(Noted::nothing(), parts);
    message::lemma_encoded_len(parts);
    message::law_message_round_trip(header, parts);
    let wire = message::message(header, parts);
    broadcast use message::lemma_header_len;
    assert(bytes::from(wire, 28) =~= message::encoded(parts));
}

/// Whether an `IKE_SA_INIT` request carries the values of `local`.
pub open spec fn carries(request: Seq<u8>, local: Secret) -> bool {
    &&& IkeHeader::read(request) matches Ok(header)
    &&& header.initiator_spi == local.spi
    &&& Heard::of(request) matches Ok(heard)
    &&& heard.nonce == local.nonce
    &&& DhGroup::named(heard.ke.dh_group) matches Some(group)
    &&& heard.ke.data == group.public_of(local.dh_private)
}

/// A request that was built carries the values it was built from, and the offer.
pub proof fn law_request_carries_its_values(
    local: Secret,
    offer: Seq<Offered>,
    cookie: Option<Seq<u8>>,
    group: DhGroup,
    addresses: Option<(Endpoint, Endpoint, bool)>,
)
    requires
        encodable_offer(offer),
        16 <= local.nonce.len() <= 256,
        cookie matches Some(cookie) ==> cookie.len() <= 64,
    ensures
        ({
            let extra = match addresses {
                Some((ours, peer, force)) => request_nat_notices(local.spi, ours, peer, force),
                None => Seq::empty(),
            };
            let request = request_wire(local, offer, cookie, group, extra);
            &&& carries(request, local)
            &&& Heard::of(request)->Ok_0.sa == offer
            &&& Heard::of(request)->Ok_0.ke.dh_group == group.id()
            &&& echoable(cookie) ==> Heard::of(request)->Ok_0.cookie == cookie
        }),
{
    let extra = match addresses {
        Some((ours, peer, force)) => request_nat_notices(local.spi, ours, peer, force),
        None => Seq::empty(),
    };
    let ke = Exchanged { dh_group: group.id(), data: group.public_of(local.dh_private) };
    crypto::dh::lemma_public_len(group, local.dh_private);
    lemma_sa_init_heard(local.spi, 0, request_flags(), cookie, offer, ke, local.nonce, extra);
}

impl Completed {
    /// Whether both ends of the exchange came to the same SA.
    pub open spec fn agrees_with(self, other: Completed) -> bool {
        &&& self.keys == other.keys
        &&& self.suite == other.suite
        &&& self.spi_i == other.spi_i
        &&& self.spi_r == other.spi_r
        &&& self.ni == other.ni
        &&& self.nr == other.nr
        &&& self.init_message == other.init_message
        &&& self.resp_message == other.resp_message
    }
}

/// A responder whose secrets have the lengths they must have.
pub open spec fn sound(secret: Secret) -> bool {
    secret.dh_private.len() == 32 && 16 <= secret.nonce.len() <= 256
}

/// What an initiator that `carries` its values in `request` hears in the answer to it.
proof fn lemma_answer_is_heard(
    local: Secret,
    request: Seq<u8>,
    theirs: Secret,
    addresses: Option<(Endpoint, Endpoint)>,
    gate: Option<Gate>,
)
    requires
        carries(request, local),
        sound(theirs),
        responded(request, theirs, addresses, gate) matches Ok(Reply::Established { .. }),
    ensures
        ({
            let asked = Heard::of(request)->Ok_0;
            let response = responded(request, theirs, addresses, gate)->Ok_0->Established_response;
            let sa = responded(request, theirs, addresses, gate)->Ok_0->sa;
            &&& negotiate::selected(asked.sa) matches Some((i, suite))
            &&& 0 <= i < asked.sa.len()
            &&& suite == sa.suite
            &&& negotiate::suite_of(asked.sa[i]) == Some(suite)
            &&& DhGroup::named(suite.dh_id) matches Some(group)
            &&& group.id() == suite.dh_id
            &&& IkeHeader::read(response) matches Ok(header)
            &&& header.responder_spi == theirs.spi
            &&& Heard::of(response) matches Ok(heard)
            &&& heard.sa == seq![
                suite.proposed(negotiate::has_type(asked.sa[i].transforms, transform_type::INTEG)),
            ]
            &&& heard.ke == Exchanged { dh_group: suite.dh_id, data: group.public_of(theirs.dh_private) }
            &&& heard.nonce == theirs.nonce
        }),
{
    reveal(responded);
    let asked = Heard::of(request)->Ok_0;
    let (i, suite) = negotiate::selected(asked.sa)->0;
    let group = DhGroup::named(suite.dh_id).unwrap();
    let offered = asked.sa[i];
    let none = negotiate::has_type(offered.transforms, transform_type::INTEG);
    negotiate::lemma_selected(asked.sa);
    negotiate::lemma_chosen_runs(offered);
    let ke = Exchanged { dh_group: suite.dh_id, data: group.public_of(theirs.dh_private) };
    let extra = response_nat_notices(local.spi, theirs.spi, addresses);
    let answer = seq![suite.proposed(none)];
    sa::lemma_proposal_len(suite.proposed(none), true);
    sa::lemma_proposal_len(suite.proposed(none), false);
    assert(answer.drop_first() =~= Seq::<Offered>::empty());
    assert(sa::proposal_octets(answer.drop_first()).len() == 0);
    assert(sa::proposal_octets(answer).len() < 0xfffc);
    crypto::dh::lemma_public_len(group, theirs.dh_private);
    lemma_sa_init_heard(local.spi, theirs.spi, response_flags(), None, answer, ke, theirs.nonce, extra);
}

proof fn lemma_answer_checks_out(
    local: Secret,
    request: Seq<u8>,
    theirs: Secret,
    addresses: Option<(Endpoint, Endpoint)>,
    gate: Option<Gate>,
)
    requires
        carries(request, local),
        sound(theirs),
        responded(request, theirs, addresses, gate) matches Ok(Reply::Established { sa, .. }) && completable(
            Heard::of(request)->Ok_0.sa,
            theirs,
            sa.suite,
        ),
    ensures
        checks_out(request, responded(request, theirs, addresses, gate)->Ok_0->Established_response),
{
    let asked = Heard::of(request)->Ok_0;
    lemma_answer_is_heard(local, request, theirs, addresses, gate);
    let (i, suite) = negotiate::selected(asked.sa)->0;
    negotiate::law_answer_names_the_choice(asked.sa[i]);
    negotiate::law_answer_is_accepted(asked.sa);
}

proof fn lemma_answers_check_out(local: Secret, request: Seq<u8>, response: Seq<u8>)
    ensures
        forall|theirs: Secret, addresses: Option<(Endpoint, Endpoint)>, gate: Option<Gate>|
            to_complete(
                local,
                request,
                response,
                theirs,
                #[trigger] responded(request, theirs, addresses, gate),
            ) ==> checks_out(request, response),
{
    assert forall|theirs: Secret, addresses: Option<(Endpoint, Endpoint)>, gate: Option<Gate>|
        to_complete(
            local,
            request,
            response,
            theirs,
            #[trigger] responded(request, theirs, addresses, gate),
        ) implies checks_out(request, response) by {
        lemma_answer_checks_out(local, request, theirs, addresses, gate);
    }
}

/// The exchange completes: when a responder answers our request with an established
/// SA, the initiator comes to an SA from that answer, with the same keys, suite,
/// SPIs and nonces. [`DhGroup::shared`] promises that the two ends share one secret.
pub proof fn law_initiator_completes(
    local: Secret,
    request: Seq<u8>,
    theirs: Secret,
    addresses: Option<(Endpoint, Endpoint)>,
    gate: Option<Gate>,
)
    requires
        carries(request, local),
        sound(theirs),
        responded(request, theirs, addresses, gate) matches Ok(Reply::Established { sa, .. }) && {
            let group = DhGroup::named(sa.suite.dh_id).unwrap();
            &&& completable(Heard::of(request)->Ok_0.sa, theirs, sa.suite)
            &&& group.agrees(local.dh_private, group.public_of(theirs.dh_private))
        },
    ensures
        responded(request, theirs, addresses, gate) matches Ok(Reply::Established { response, sa }) && {
            &&& completed(local, request, response) matches Ok(ours)
            &&& ours.agrees_with(sa)
        },
{
    lemma_answer_is_heard(local, request, theirs, addresses, gate);
    lemma_answer_checks_out(local, request, theirs, addresses, gate);
    let asked = Heard::of(request)->Ok_0;
    let (i, suite) = negotiate::selected(asked.sa)->0;
    negotiate::law_answer_names_the_choice(asked.sa[i]);
    reveal(responded);
    reveal(completed);
}

/// Two ends that start from an offer with something for both in it come to the same
/// SA: the responder establishes one from the initiator's request, and the initiator
/// completes with it. The first group guessed is the one chosen here; where it is
/// not, the responder says which to retry with. [`DhGroup::shared`] promises that
/// the two ends share one secret.
pub proof fn law_exchange_establishes(local: Secret, offer: Seq<Offered>, group: DhGroup, theirs: Secret)
    requires
        encodable_offer(offer),
        sound(local),
        sound(theirs),
        negotiate::selected(offer) matches Some((_, suite)) && {
            &&& suite.dh_id == group.id()
            &&& 2 * local.nonce.len() >= suite.prf().size()
            &&& completable(offer, theirs, suite)
        },
        group.shared_of(theirs.dh_private, group.public_of(local.dh_private)) is Ok,
        group.agrees(local.dh_private, group.public_of(theirs.dh_private)),
    ensures
        ({
            let request = request_wire(local, offer, None, group, Seq::empty());
            &&& responded(request, theirs, None, None) matches Ok(Reply::Established { response, sa })
            &&& negotiate::selected_suite(offer) == Some(sa.suite)
            &&& completed(local, request, response) matches Ok(ours)
            &&& ours.agrees_with(sa)
        }),
{
    let request = request_wire(local, offer, None, group, Seq::empty());
    law_request_carries_its_values(local, offer, None, group, None);
    let (i, suite) = negotiate::selected(offer)->0;
    negotiate::lemma_selected(offer);
    negotiate::lemma_chosen_runs(offer[i]);
    crypto::dh::lemma_taken(group, theirs.dh_private, group.public_of(local.dh_private));
    assert(responded(request, theirs, None, None) matches Ok(Reply::Established { sa, .. }) && sa.suite == suite) by {
        reveal(responded);
    }
    law_initiator_completes(local, request, theirs, None, None);
}

/// Two ends that start from our default offer come to the same SA, where X25519 gives
/// the responder a secret.
pub proof fn law_default_offer_establishes(local: Secret, theirs: Secret)
    requires
        sound(local),
        sound(theirs),
        DhGroup::X25519.shared_of(theirs.dh_private, DhGroup::X25519.public_of(local.dh_private)) is Ok,
        DhGroup::X25519.agrees(local.dh_private, DhGroup::X25519.public_of(theirs.dh_private)),
    ensures
        ({
            let offer = seq![default_proposal()];
            let request = request_wire(local, offer, None, offered_group(offer), Seq::empty());
            &&& responded(request, theirs, None, None) matches Ok(Reply::Established { response, sa })
            &&& completed(local, request, response) matches Ok(ours)
            &&& ours.agrees_with(sa)
        }),
{
    let proposal = default_proposal();
    let offer = seq![proposal];
    let suite = ChosenSuite {
        proposal_num: 1,
        encr_id: transform_id::AES_GCM_16,
        encr_key_bits: 256,
        prf_id: transform_id::PRF_HMAC_SHA2_256,
        integ_id: None,
        dh_id: transform_id::X25519,
    };
    assert(suite.proposed(false) =~= proposal);
    assert(negotiate::eligible(suite)) by {
        assert(negotiate::prf_candidates()[2] == suite.prf_id);
        assert(negotiate::dh_candidates()[0] == suite.dh_id);
    }
    negotiate::law_single_suite_is_chosen(suite, false);
    assert(!negotiate::has_type(proposal.transforms, transform_type::ESN));
    reveal_with_fuel(negotiate::first_of_type, 4);
    assert(offered_group(offer) == DhGroup::X25519);
    assert(encodable_offer(offer)) by {
        sa::lemma_proposal_len(proposal, true);
        sa::lemma_proposal_len(proposal, false);
        assert(offer.drop_first() =~= Seq::<Offered>::empty());
        assert(sa::proposal_octets(offer.drop_first()).len() == 0);
    }
    crypto::dh::lemma_x25519_public_len(theirs.dh_private);
    law_exchange_establishes(local, offer, DhGroup::X25519, theirs);
}

/// What an initiator hears in a bare challenge.
proof fn lemma_challenge_is_heard(local: Secret, request: Seq<u8>, spi_i: u64, notice: Notice)
    requires
        notice.spi.len() == 0,
        notice.data.len() <= 64,
    ensures
        notice.notify_type == notify_type::COOKIE && notice.data.len() > 0 ==> completed(
            local,
            request,
            challenge_wire(spi_i, notice),
        ) == Err::<Completed, Failure>(Failure::CookieRequired { cookie: notice.data }),
        notice.notify_type == notify_type::INVALID_KE_PAYLOAD && notice.data.len() == 2 ==> completed(
            local,
            request,
            challenge_wire(spi_i, notice),
        ) == Err::<Completed, Failure>(Failure::InvalidKeGroup(bytes::at16(notice.data, 0))),
{
    reveal(completed);
    let header = sa_init_header(spi_i, 0, response_flags());
    let parts = seq![notify_part(notice)];
    let wire = message::message(header, parts);
    basic::law_notify_round_trip(notice);
    assert(message::frameable(parts));
    message::lemma_encoded_len(parts);
    message::law_message_round_trip(header, parts);
    lemma_with_all(Noted::nothing(), parts);
    assert(parts.drop_first() =~= Seq::<(PayloadType, Seq<u8>)>::empty());
    reveal_with_fuel(Noted::with_list, 2);
    broadcast use message::lemma_header_len;
    assert(bytes::from(wire, 28) =~= message::encoded(parts));
}

/// The request of `local` from where `addresses` say.
pub open spec fn attempt(
    local: Secret,
    offer: Seq<Offered>,
    cookie: Option<Seq<u8>>,
    group: DhGroup,
    addresses: Option<(Endpoint, Endpoint, bool)>,
) -> Seq<u8> {
    let extra = match addresses {
        Some((ours, peer, force)) => request_nat_notices(local.spi, ours, peer, force),
        None => Seq::empty(),
    };
    request_wire(local, offer, cookie, group, extra)
}

/// A cookie challenge is met by a retry: the initiator hears the cookie in it, and a
/// request that echoes the cookie is not challenged for one again.
pub proof fn law_cookie_retry_is_admitted(
    local: Secret,
    offer: Seq<Offered>,
    cookie: Option<Seq<u8>>,
    group: DhGroup,
    addresses: Option<(Endpoint, Endpoint, bool)>,
    theirs: Secret,
    observed: Option<(Endpoint, Endpoint)>,
    gate: Gate,
)
    requires
        encodable_offer(offer),
        16 <= local.nonce.len() <= 256,
        echoable(cookie),
    ensures
        responded(attempt(local, offer, cookie, group, addresses), theirs, observed, Some(gate)) matches Ok(
            Reply::CookieRequired { response },
        ) ==> {
            let asked = cookie_of(gate.secret, local.spi, local.nonce, gate.peer);
            let retry = attempt(local, offer, Some(asked), group, addresses);
            &&& completed(local, attempt(local, offer, cookie, group, addresses), response) == Err::<
                Completed,
                Failure,
            >(Failure::CookieRequired { cookie: asked })
            &&& !(responded(retry, theirs, observed, Some(gate)) matches Ok(Reply::CookieRequired { .. }))
        },
{
    let asked = cookie_of(gate.secret, local.spi, local.nonce, gate.peer);
    assert(asked.len() == 32);
    law_request_carries_its_values(local, offer, cookie, group, addresses);
    law_request_carries_its_values(local, offer, Some(asked), group, addresses);
    lemma_challenge_is_heard(
        local,
        attempt(local, offer, cookie, group, addresses),
        local.spi,
        Notice::status(notify_type::COOKIE, asked),
    );
    reveal(responded);
}

/// A group correction is met by a retry: the initiator hears the group in it, which is
/// one it offered and did not send, and a request in that group is not corrected
/// again.
#[verifier::spinoff_prover]
#[verifier::rlimit(60)]
pub proof fn law_group_correction_is_met(
    local: Secret,
    offer: Seq<Offered>,
    cookie: Option<Seq<u8>>,
    addresses: Option<(Endpoint, Endpoint, bool)>,
    theirs: Secret,
    observed: Option<(Endpoint, Endpoint)>,
    gate: Option<Gate>,
)
    requires
        encodable_offer(offer),
        16 <= local.nonce.len() <= 256,
        echoable(cookie),
    ensures
        ({
            let request = attempt(local, offer, cookie, offered_group(offer), addresses);
            responded(request, theirs, observed, gate) matches Ok(Reply::InvalidKe { response, group: id }) ==> {
                &&& completed(local, request, response) == Err::<Completed, Failure>(Failure::InvalidKeGroup(id))
                &&& corrected_group(offer, id) matches Some(group)
                &&& !(responded(attempt(local, offer, cookie, group, addresses), theirs, observed, gate) matches Ok(
                    Reply::InvalidKe { .. },
                ))
            }
        }),
{
    let request = attempt(local, offer, cookie, offered_group(offer), addresses);
    law_request_carries_its_values(local, offer, cookie, offered_group(offer), addresses);
    if let Ok(Reply::InvalidKe { response, group: id }) = responded(request, theirs, observed, gate) {
        reveal(responded);
        let (i, suite) = negotiate::selected(offer)->0;
        negotiate::lemma_selected(offer);
        negotiate::lemma_chosen_runs(offer[i]);
        negotiate::law_choice_is_offered(offer[i]);
        let group = DhGroup::named(suite.dh_id).unwrap();
        assert(id == suite.dh_id);
        let data = bytes::be16(id);
        assert(data.subrange(0, 2) =~= data);
        bytes::lemma_at16_be16(data, 0, id);
        lemma_challenge_is_heard(
            local,
            request,
            local.spi,
            Notice::status(notify_type::INVALID_KE_PAYLOAD, data),
        );
        law_request_carries_its_values(local, offer, cookie, group, addresses);
        assert(proposes_group(offer, id));
    }
}

proof fn lemma_agreement(
    local: Secret,
    request: Seq<u8>,
    response: Seq<u8>,
    theirs: Secret,
    addresses: Option<(Endpoint, Endpoint)>,
    gate: Option<Gate>,
)
    requires
        carries(request, local),
        sound(theirs),
        responded(request, theirs, addresses, gate) matches Ok(Reply::Established { response: r, sa })
            && r == response,
        completed(local, request, response) is Ok,
        Heard::of(response) matches Ok(heard) ==> (DhGroup::named(heard.ke.dh_group) matches Some(group)
            ==> group.agrees(local.dh_private, heard.ke.data)),
    ensures
        completed(local, request, response)->Ok_0.agrees_with(
            responded(request, theirs, addresses, gate)->Ok_0->sa,
        ),
{
    lemma_answer_is_heard(local, request, theirs, addresses, gate);
    let asked = Heard::of(request)->Ok_0;
    let (i, suite) = negotiate::selected(asked.sa)->0;
    let group = DhGroup::named(suite.dh_id).unwrap();
    negotiate::law_answer_names_the_choice(asked.sa[i]);
    reveal(responded);
    reveal(completed);
    crypto::dh::lemma_taken(group, local.dh_private, group.public_of(theirs.dh_private));
}

} // verus!
