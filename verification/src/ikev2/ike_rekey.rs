//! IKE-SA rekey (RFC 7296 §2.18) via the `CREATE_CHILD_SA` exchange.
//!
//! ```text
//! Initiator → SK { SA(new IKE SPIi), Ni, KEi }
//! Responder → SK { SA(new IKE SPIr), Nr, KEr }
//! ```
//!
//! A fresh Diffie-Hellman gives a new shared secret; the new IKE keys are
//! `SKEYSEED = prf(SK_d(old), g^ir | Ni | Nr)` then `prf+` over the *new* SPIs
//! (see [`crate::crypto::derive_rekey_session_keys`]). The CHILD SAs are **not**
//! touched — they are inherited by the new IKE SA, which the consumer installs.
//! Without this, a native client (iOS refreshes its IKE SA on its ~1h lifetime)
//! fails the rekey and tears the whole tunnel down.
//!
//! Both halves live here: [`build_ike_rekey_request`] /
//! [`initiator_complete_ike_rekey`] for the side that starts the rekey (a
//! client keeping ahead of its own lifetime), [`responder_process_ike_rekey`]
//! for the side that answers it (a gateway's timer firing first, or a
//! native client rekeying against us acting as a server).

use vstd::prelude::*;

use crate::bytes;
use crate::crypto;
use crate::crypto::prf::rekey_session_keys;
use crate::crypto::DhGroup;
use crate::error::{viewed, viewed_option, Failure, IkeError};
use crate::ikev2::exchange::{curve_value_stands, lemma_lengths, viewed_response, Completed, CompletedSaInit};
use crate::ikev2::informational::{header_of, lemma_carried_id, lemma_tampered_header, open_from_peer, our_header, seal_from};
use crate::ikev2::message;
use crate::ikev2::message::{payloads, ExchangeType, Framed, IkeHeader, PayloadType, RawPayload};
use crate::ikev2::negotiate;
use crate::ikev2::negotiate::ChosenSuite;
use crate::ikev2::payload::basic;
use crate::ikev2::payload::basic::{Exchanged, Notice};
use crate::ikev2::payload::sa;
use crate::ikev2::payload::sa::Offered;
use crate::ikev2::payload::{
    notify_type, notify_type_name, transform_id, transform_type, KeyExchange, Nonce, Notify, Proposal, SecurityAssociation,
};
use crate::role::Role;

verus! {

broadcast use crate::bytes::group_lengths;

/// Whether a payload of this type is among `payloads`.
fn any_of_type(payloads: &[(PayloadType, Vec<u8>)], payload_type: PayloadType) -> (found: bool)
    ensures
        found == message::has_payload(message::bodies(payloads@), payload_type),
{
    let ghost all = message::bodies(payloads@);
    for i in 0..payloads.len()
        invariant
            all == message::bodies(payloads@),
            forall|j: int| 0 <= j < i ==> (#[trigger] all[j]).0 != payload_type,
    {
        assert(all[i as int].0 == payloads@[i as int].0);
        if payloads[i].0 == payload_type {
            return true;
        }
    }
    false
}

/// Whether a decrypted CREATE_CHILD_SA is an **IKE-SA** rekey (has a KeyExchange
/// and no Traffic Selectors) rather than a CHILD-SA rekey. The consumer routes on
/// this before calling [`responder_process_ike_rekey`].
pub fn is_ike_sa_rekey(inner: &[(PayloadType, Vec<u8>)]) -> (rekey: bool)
    ensures
        rekey == ({
            let payloads = message::bodies(inner@);
            &&& message::has_payload(payloads, PayloadType::KeyExchange)
            &&& !message::has_payload(payloads, PayloadType::TrafficSelectorInitiator)
            &&& !message::has_payload(payloads, PayloadType::TrafficSelectorResponder)
        }),
{
    any_of_type(inner, PayloadType::KeyExchange) && !any_of_type(inner, PayloadType::TrafficSelectorInitiator)
        && !any_of_type(inner, PayloadType::TrafficSelectorResponder)
}

/// The one proposal that rekeys an SA: the suite it runs, numbered 1, with the SPI
/// of the new SA.
pub open spec fn rekey_proposal(suite: ChosenSuite, spi: u64) -> Offered {
    Offered { num: 1, spi: bytes::be64(spi), ..suite.proposed(false) }
}

/// The payloads of a request that rekeys an SA running `suite`.
pub open spec fn rekey_request_parts(suite: ChosenSuite, spi_i: u64, ni: Seq<u8>, dh_private: Seq<u8>) -> Seq<
    (PayloadType, Seq<u8>),
> {
    let ke = Exchanged {
        dh_group: suite.dh_id,
        data: DhGroup::named(suite.dh_id).unwrap().public_of(dh_private),
    };
    seq![
        (PayloadType::SecurityAssociation, sa::proposal_octets(seq![rekey_proposal(suite, spi_i)])),
        (PayloadType::Nonce, ni),
        (PayloadType::KeyExchange, ke.octets()),
    ]
}

/// The octets of an IKE SPI.
fn spi_bytes(spi: u64) -> (out: Vec<u8>)
    ensures
        out@ == bytes::be64(spi),
{
    let mut out: Vec<u8> = Vec::new();
    bytes::push64(&mut out, spi);
    assert(out@ =~= bytes::be64(spi));
    out
}

/// A Security Association of one proposal.
fn only(proposal: Proposal) -> (sa: SecurityAssociation)
    ensures
        sa@ == seq![proposal@],
{
    let ghost offered = proposal@;
    let mut proposals: Vec<Proposal> = Vec::new();
    proposals.push(proposal);
    let sa = SecurityAssociation { proposals };
    assert(sa@ =~= seq![offered]);
    sa
}

/// The payloads of a rekey message: SA, nonce and KE.
fn rekey_payloads(sa: &SecurityAssociation, nonce: &[u8], ke: &KeyExchange) -> (list: Vec<(PayloadType, Vec<u8>)>)
    ensures
        message::bodies(list@) == seq![
            (PayloadType::SecurityAssociation, sa::proposal_octets(sa@)),
            (PayloadType::Nonce, nonce@),
            (PayloadType::KeyExchange, ke@.octets()),
        ],
{
    let mut list: Vec<(PayloadType, Vec<u8>)> = Vec::new();
    list.push((PayloadType::SecurityAssociation, sa.to_bytes()));
    list.push((PayloadType::Nonce, bytes::copy(nonce)));
    list.push((PayloadType::KeyExchange, ke.to_bytes()));
    assert(message::bodies(list@) =~= seq![
        (PayloadType::SecurityAssociation, sa::proposal_octets(sa@)),
        (PayloadType::Nonce, nonce@),
        (PayloadType::KeyExchange, ke@.octets()),
    ]);
    list
}

/// Initiator: build the request that rekeys `old_sa` (RFC 7296 §1.3.2):
/// `SK { SA(IKE, new SPIi), Ni, KEi }`, protected by the *old* IKE SA. It
/// proposes exactly the suite `old_sa` already runs -- a rekey never
/// renegotiates the algorithms -- with a fresh ephemeral DH share from
/// `dh_private`, for the group that suite names. `message_id` is the next one
/// of the old SA; the new SA's own Message IDs start again at 0.
pub fn build_ike_rekey_request(
    old_sa: &CompletedSaInit,
    message_id: u32,
    new_spi_i: u64,
    ni: &[u8],
    dh_private: &[u8],
    iv: &[u8; 8],
) -> (out: Result<Vec<u8>, IkeError>)
    requires
        old_sa@.suite.cipher() is Some,
        dh_private@.len() == 32,
    ensures
        viewed(out) == (if DhGroup::named(old_sa@.suite.dh_id) is None {
            Err(Failure::NoProposalChosen)
        } else {
            old_sa@.sealed(
                old_sa@.role,
                header_of(old_sa@, ExchangeType::CreateChildSa, message_id, false),
                rekey_request_parts(old_sa@.suite, new_spi_i, ni@, dh_private@),
                iv@,
            )
        }),
{
    let group = match DhGroup::from_transform_id(old_sa.suite.dh_id) {
        Some(group) => group,
        None => {
            return Err(IkeError::NoProposalChosen);
        },
    };
    let ke = KeyExchange { dh_group: old_sa.suite.dh_id, data: group.public(dh_private) };
    let offer = ike_rekey_offer(&old_sa.suite, new_spi_i);
    let inner = rekey_payloads(&offer, ni, &ke);
    assert(message::bodies(inner@) =~= rekey_request_parts(old_sa@.suite, new_spi_i, ni@, dh_private@));
    let header = our_header(old_sa, ExchangeType::CreateChildSa, message_id, false);
    seal_from(old_sa, old_sa.role, header, &inner, iv)
}

/// The SA payload [`build_ike_rekey_request`] sends: a single proposal, the
/// suite the SA runs, carrying `new_spi_i`.
fn ike_rekey_offer(suite: &ChosenSuite, new_spi_i: u64) -> (offer: SecurityAssociation)
    ensures
        offer@ == seq![rekey_proposal(*suite, new_spi_i)],
{
    let mut proposal = suite.to_proposal();
    // A single-proposal offer: numbered from 1 whatever number the first
    // handshake's pick had.
    proposal.num = 1;
    proposal.spi = spi_bytes(new_spi_i);
    assert(proposal@ =~= rekey_proposal(*suite, new_spi_i));
    only(proposal)
}

/// What was found so far in the payloads of a rekey message.
struct Scan {
    sa: Option<Vec<u8>>,
    nonce: Option<Vec<u8>>,
    ke: Option<Vec<u8>>,
}

/// What was found so far in the payloads of a rekey message: the bodies of the SA,
/// nonce and KE payloads.
#[verifier::ext_equal]
pub struct Rekeying {
    pub sa: Option<Seq<u8>>,
    pub nonce: Option<Seq<u8>>,
    pub ke: Option<Seq<u8>>,
}

impl View for Scan {
    type V = Rekeying;

    closed spec fn view(&self) -> Rekeying {
        Rekeying { sa: viewed_option(self.sa), nonce: viewed_option(self.nonce), ke: viewed_option(self.ke) }
    }
}

impl Rekeying {
    /// Nothing found yet.
    pub open spec fn nothing() -> Rekeying {
        Rekeying { sa: None, nonce: None, ke: None }
    }

    /// One payload taken in: a later one of a type takes the place of an earlier.
    /// In an answer, an error notify is a refusal.
    pub open spec fn with(self, payload: Framed, answer: bool) -> Result<Rekeying, Failure> {
        match payload.payload_type {
            PayloadType::SecurityAssociation => Ok(Rekeying { sa: Some(payload.data), ..self }),
            PayloadType::Nonce => Ok(Rekeying { nonce: Some(payload.data), ..self }),
            PayloadType::KeyExchange => Ok(Rekeying { ke: Some(payload.data), ..self }),
            PayloadType::Notify => match Notice::read(payload.data) {
                Ok(notify) => if answer && notify.error() {
                    Err(
                        Failure::PeerRejected {
                            notify_type: notify.notify_type,
                            name: notify_type::name(notify.notify_type),
                        },
                    )
                } else {
                    Ok(self)
                },
                Err(_) => Ok(self),
            },
            _ => Ok(self),
        }
    }

    /// Every payload of the chain taken in, one after the other.
    pub open spec fn with_all(self, first: PayloadType, body: Seq<u8>, answer: bool) -> Result<Rekeying, Failure>
        decreases body.len(),
    {
        if first == PayloadType::NoNext {
            Ok(self)
        } else {
            match message::head(first, body) {
                Err(failure) => Err(failure),
                Ok(payload) => match self.with(payload, answer) {
                    Err(failure) => Err(failure),
                    Ok(more) => more.with_all(message::next_type(body), message::after_head(body), answer),
                },
            }
        }
    }
}

/// The payloads of a rekey message whose SK payload holds this chain.
fn scan(first: PayloadType, inner: &[u8], answer: bool) -> (out: Result<Scan, IkeError>)
    ensures
        viewed(out) == Rekeying::nothing().with_all(first, inner@, answer),
{
    let mut found = Scan { sa: None, nonce: None, ke: None };
    assert(found@ =~= Rekeying::nothing());
    let mut iter = payloads(first, inner);
    let ghost whole = Rekeying::nothing().with_all(first, inner@, answer);
    loop
        invariant_except_break
            !iter.finished(),
            found@.with_all(iter.first(), iter.remaining(), answer) == whole,
        invariant
            whole == Rekeying::nothing().with_all(first, inner@, answer),
        ensures
            whole == Ok::<Rekeying, Failure>(found@),
        decreases iter.remaining().len(),
    {
        match iter.next() {
            None => {
                break;
            },
            Some(Err(error)) => {
                return Err(error);
            },
            Some(Ok(payload)) => match found.with(&payload, answer) {
                Ok(more) => {
                    found = more;
                },
                Err(error) => {
                    return Err(error);
                },
            },
        }
    }
    Ok(found)
}

impl Scan {
    /// Take one payload in.
    fn with(self, payload: &RawPayload, answer: bool) -> (scan: Result<Scan, IkeError>)
        ensures
            viewed(scan) == self@.with(payload@, answer),
    {
        let mut scan = self;
        match payload.payload_type {
            PayloadType::SecurityAssociation => {
                scan.sa = Some(bytes::copy(payload.data));
            },
            PayloadType::Nonce => {
                scan.nonce = Some(bytes::copy(payload.data));
            },
            PayloadType::KeyExchange => {
                scan.ke = Some(bytes::copy(payload.data));
            },
            PayloadType::Notify => match Notify::parse(payload.data) {
                Ok(notify) => {
                    if answer && notify.is_error() {
                        return Err(
                            IkeError::PeerRejected {
                                notify_type: notify.notify_type,
                                name: notify_type_name(notify.notify_type),
                            },
                        );
                    }
                },
                Err(_) => (),
            },
            _ => (),
        }
        Ok(scan)
    }
}

/// The SPI of a proposal that rekeys an IKE SA, of eight octets.
pub open spec fn ike_spi_of(proposal: Offered) -> Result<u64, Failure> {
    if proposal.spi.len() == 8 {
        Ok(bytes::at64(proposal.spi, 0))
    } else {
        Err(Failure::Crypto("expected an 8-byte IKE SPI"@))
    }
}

/// The shared secret of our private value and the peer's KE, of the suite's group.
pub open spec fn secret_of(suite: ChosenSuite, dh_private: Seq<u8>, ke: Exchanged) -> Result<Seq<u8>, Failure> {
    let group = DhGroup::named(suite.dh_id).unwrap();
    if ke.dh_group != group.id() {
        Err(Failure::DhGroupMismatch { expected: group.id(), got: ke.dh_group })
    } else {
        group.shared_of(dh_private, ke.data)
    }
}

/// The IKE SA that takes the place of `old`.
pub open spec fn rekeyed(
    old: Completed,
    role: Role,
    suite: ChosenSuite,
    shared: Seq<u8>,
    spi_i: u64,
    spi_r: u64,
    ni: Seq<u8>,
    nr: Seq<u8>,
) -> Completed {
    Completed {
        role,
        spi_i,
        spi_r,
        suite,
        keys: rekey_session_keys(suite.prf(), old.keys.sk_d, shared, ni, nr, spi_i, spi_r, suite.lengths()),
        ni,
        nr,
        init_message: Seq::empty(),
        resp_message: Seq::empty(),
        peer_signature_hashes: old.peer_signature_hashes,
        peer_supports_fragmentation: old.peer_supports_fragmentation,
    }
}

/// A fresh copy of a list of hash identifiers.
fn copy_ids(ids: &Vec<u16>) -> (out: Vec<u16>)
    ensures
        out@ == ids@,
{
    let mut out: Vec<u16> = Vec::new();
    for i in 0..ids.len()
        invariant
            out@ == ids@.take(i as int),
    {
        out.push(ids[i]);
        assert(out@ =~= ids@.take(i + 1));
    }
    assert(out@ =~= ids@);
    out
}

/// The IKE SA that takes the place of `old_sa`.
fn rekey(
    old_sa: &CompletedSaInit,
    role: Role,
    suite: ChosenSuite,
    shared: &[u8],
    spi_i: u64,
    spi_r: u64,
    ni: &[u8],
    nr: &[u8],
) -> (sa: CompletedSaInit)
    requires
        suite.runnable(),
    ensures
        sa@ == rekeyed(old_sa@, role, suite, shared@, spi_i, spi_r, ni@, nr@),
        sa@.valid(),
{
    proof {
        lemma_lengths(suite);
    }
    let keys = crypto::derive_rekey_session_keys(
        suite.prf_algorithm(),
        &old_sa.keys.sk_d,
        shared,
        ni,
        nr,
        spi_i,
        spi_r,
        suite.key_lengths(),
    );
    let sa = CompletedSaInit {
        role,
        spi_i,
        spi_r,
        suite,
        keys,
        ni: bytes::copy(ni),
        nr: bytes::copy(nr),
        // Not an IKE_SA_INIT and AUTH is not re-run for a rekeyed IKE SA.
        init_message: Vec::new(),
        resp_message: Vec::new(),
        peer_signature_hashes: copy_ids(&old_sa.peer_signature_hashes),
        peer_supports_fragmentation: old_sa.peer_supports_fragmentation,
    };
    assert(sa@ =~= rekeyed(old_sa@, role, suite, shared@, spi_i, spi_r, ni@, nr@));
    sa
}

/// The shared secret of our private value and the peer's KE, of the suite's group.
fn agree(suite: &ChosenSuite, dh_private: &[u8], ke: &KeyExchange) -> (secret: Result<Vec<u8>, IkeError>)
    requires
        suite.runnable(),
        dh_private@.len() == 32,
    ensures
        viewed(secret) == secret_of(*suite, dh_private@, ke@),
        ke.dh_group == suite.dh_id ==> DhGroup::named(suite.dh_id).unwrap().agrees(dh_private@, ke@.data),
        secret is Ok ==> curve_value_stands(dh_private@, *suite),
{
    let group = match DhGroup::from_transform_id(suite.dh_id) {
        Some(group) => group,
        None => {
            return Err(IkeError::NoProposalChosen);
        },
    };
    if ke.dh_group != group.transform_id() {
        return Err(IkeError::DhGroupMismatch { expected: group.transform_id(), got: ke.dh_group });
    }
    group.shared(dh_private, &ke.data)
}

/// Whether two suites name the same algorithms, whatever the number of the
/// proposal they were chosen from.
pub open spec fn same_algorithms(a: ChosenSuite, b: ChosenSuite) -> bool {
    &&& a.encr_id == b.encr_id
    &&& a.encr_key_bits == b.encr_key_bits
    &&& a.prf_id == b.prf_id
    &&& a.integ_id == b.integ_id
    &&& a.dh_id == b.dh_id
}

/// Whether two suites name the same algorithms.
fn is_same(a: &ChosenSuite, b: &ChosenSuite) -> (same: bool)
    ensures
        same == same_algorithms(*a, *b),
{
    a.encr_id == b.encr_id && a.encr_key_bits == b.encr_key_bits && a.prf_id == b.prf_id && sa::same_key_length(
        a.integ_id,
        b.integ_id,
    ) && a.dh_id == b.dh_id
}

/// The SA that comes of these payloads of an answer to our rekey.
pub open spec fn taken(
    old: Completed,
    ni: Seq<u8>,
    spi_i: u64,
    dh_private: Seq<u8>,
    offered: Seq<Offered>,
    nr: Seq<u8>,
    ke: Exchanged,
) -> Result<Completed, Failure> {
    if !negotiate::accepts(offered, seq![rekey_proposal(old.suite, spi_i)]) {
        Err(Failure::NoProposalChosen)
    } else {
        match ike_spi_of(offered[0]) {
            Err(failure) => Err(failure),
            Ok(spi_r) => match negotiate::selected_suite(offered) {
                None => Err(Failure::NoProposalChosen),
                Some(suite) => if !same_algorithms(suite, old.suite) {
                    Err(Failure::NoProposalChosen)
                } else {
                    match basic::read_nonce_for_prf(nr, suite.prf()) {
                        Err(failure) => Err(failure),
                        Ok(_) => match secret_of(suite, dh_private, ke) {
                            Err(failure) => Err(failure),
                            Ok(shared) => Ok(rekeyed(old, Role::Initiator, suite, shared, spi_i, spi_r, ni, nr)),
                        },
                    }
                },
            },
        }
    }
}

/// The SA that comes of an answer to our rekey whose SK payload holds this payload
/// chain.
pub open spec fn completed(
    old: Completed,
    ni: Seq<u8>,
    spi_i: u64,
    dh_private: Seq<u8>,
    first: PayloadType,
    inner: Seq<u8>,
) -> Result<Completed, Failure> {
    match Rekeying::nothing().with_all(first, inner, true) {
        Err(failure) => Err(failure),
        Ok(found) => match found.sa {
            None => Err(Failure::MissingPayload("SA"@)),
            Some(sa) => match sa::read_proposals(sa) {
                Err(failure) => Err(failure),
                Ok(offered) => match found.nonce {
                    None => Err(Failure::MissingPayload("Nonce"@)),
                    Some(nr) => match found.ke {
                        None => Err(Failure::MissingPayload("KE"@)),
                        Some(ke) => match Exchanged::read(ke) {
                            Err(failure) => Err(failure),
                            Ok(ke) => taken(old, ni, spi_i, dh_private, offered, nr, ke),
                        },
                    },
                },
            },
        },
    }
}

/// Initiator: finish the rekey from the peer's `response`, deriving the new IKE
/// SA (we are its initiator: `spi_i` is `new_spi_i`, `spi_r` the one the peer
/// put in its SA payload). `ni`, `new_spi_i` and `dh_private` are what
/// [`build_ike_rekey_request`] was given. A response carrying an error notify
/// (`NO_ADDITIONAL_SAS`, `NO_PROPOSAL_CHOSEN`, `INVALID_KE_PAYLOAD`, ...) is
/// [`IkeError::PeerRejected`]; one that picks a different suite than the one
/// offered, or answers with another DH group, is refused rather than trusted.
///
/// The new SA is the one the peer came to, and a peer that granted the rekey is
/// answered to the end.
pub fn initiator_complete_ike_rekey(
    old_sa: &CompletedSaInit,
    ni: &[u8],
    new_spi_i: u64,
    dh_private: &[u8],
    response: &[u8],
) -> (out: Result<CompletedSaInit, IkeError>)
    requires
        old_sa@.suite.cipher() is Some,
        dh_private@.len() == 32,
    ensures
        viewed(out) == (match old_sa@.opened(old_sa@.peer(), response@) {
            Err(failure) => Err(failure),
            Ok((first, inner)) => completed(old_sa@, ni@, new_spi_i, dh_private@, first, inner),
        }),
        out matches Ok(sa) ==> sa@.valid() && agrees_with_rekeyed(
            old_sa@,
            ni@,
            new_spi_i,
            dh_private@,
            response@,
            sa@,
        ),
        completes_rekey(old_sa@, ni@, new_spi_i, dh_private@, response@, viewed(out)),
        old_sa@.tampered(old_sa@.peer(), response@) ==> viewed(out) == Err::<Completed, Failure>(
            Failure::BadIntegrity,
        ),
{
    let (first, inner) = match open_from_peer(old_sa, response) {
        Ok(opened) => opened,
        Err(error) => {
            return Err(error);
        },
    };
    proof {
        lemma_rekeys_check_out(old_sa@, ni@, new_spi_i, dh_private@, response@, first, inner@);
    }
    let found = match scan(first, &inner, true) {
        Ok(found) => found,
        Err(error) => {
            return Err(error);
        },
    };
    let sa = match &found.sa {
        Some(body) => match SecurityAssociation::parse(body) {
            Ok(sa) => sa,
            Err(error) => {
                return Err(error);
            },
        },
        None => {
            return Err(IkeError::MissingPayload("SA"));
        },
    };
    let nr = match &found.nonce {
        Some(nr) => nr,
        None => {
            return Err(IkeError::MissingPayload("Nonce"));
        },
    };
    let ke = match &found.ke {
        Some(body) => match KeyExchange::parse(body) {
            Ok(ke) => ke,
            Err(error) => {
                return Err(error);
            },
        },
        None => {
            return Err(IkeError::MissingPayload("KE"));
        },
    };
    // Our one proposal, by its number, with one transform of each of its types
    // (RFC 7296 §2.7, §3.3.1, §3.3.6); its SPI is the peer's, not ours.
    let proposal = match negotiate::accepted_proposal(&sa, &ike_rekey_offer(&old_sa.suite, new_spi_i)) {
        Ok(proposal) => proposal,
        Err(error) => {
            return Err(error);
        },
    };
    if proposal.spi.len() != 8 {
        return Err(IkeError::Crypto("expected an 8-byte IKE SPI"));
    }
    let new_spi_r: u64 = bytes::get64(&proposal.spi, 0);
    let suite = match negotiate::select(&sa) {
        Some(suite) => suite,
        None => {
            return Err(IkeError::NoProposalChosen);
        },
    };
    if !is_same(&suite, &old_sa.suite) {
        return Err(IkeError::NoProposalChosen);
    }
    // RFC 7296 §3.9 and §2.10: Nr is 16 to 256 octets and at least half the key
    // of the PRF that makes the new SKEYSEED from it.
    match Nonce::parse_for_prf(nr, suite.prf_algorithm()) {
        Ok(_) => (),
        Err(error) => {
            return Err(error);
        },
    }
    let secret = agree(&suite, dh_private, &ke);
    proof {
        lemma_rekey_agrees(old_sa@, ni@, new_spi_i, dh_private@, response@, first, inner@, suite, ke@);
    }
    let shared = match secret {
        Ok(shared) => shared,
        Err(error) => {
            return Err(error);
        },
    };
    Ok(rekey(old_sa, Role::Initiator, suite, &shared, new_spi_i, new_spi_r, ni, nr))
}

/// The payloads a rekey request whose SK payload holds this payload chain is
/// answered with, and the SA that comes of it.
pub open spec fn rekey_answered(
    old: Completed,
    spi_r: u64,
    dh_private: Seq<u8>,
    nr: Seq<u8>,
    first: PayloadType,
    inner: Seq<u8>,
) -> Result<(Seq<(PayloadType, Seq<u8>)>, Completed), Failure> {
    match Rekeying::nothing().with_all(first, inner, false) {
        Err(failure) => Err(failure),
        Ok(found) => match found.sa {
            None => Err(Failure::MissingPayload("SA"@)),
            Some(sa) => match found.nonce {
                None => Err(Failure::MissingPayload("Nonce"@)),
                Some(ni) => match found.ke {
                    None => Err(Failure::MissingPayload("KE"@)),
                    Some(ke) => match Exchanged::read(ke) {
                        Err(failure) => Err(failure),
                        Ok(ke) => match sa::read_proposals(sa) {
                            Err(failure) => Err(failure),
                            Ok(offered) => granted(old, spi_r, dh_private, nr, offered, ni, ke),
                        },
                    },
                },
            },
        },
    }
}

/// The payloads of our answer to a rekey, from the suite and the proposal it was
/// chosen from.
pub open spec fn rekey_answer_parts(
    suite: ChosenSuite,
    offered: Offered,
    spi_r: u64,
    dh_private: Seq<u8>,
    nr: Seq<u8>,
) -> Seq<(PayloadType, Seq<u8>)> {
    let none = negotiate::has_type(offered.transforms, transform_type::INTEG);
    let answer = Offered { spi: bytes::be64(spi_r), ..suite.proposed(none) };
    let ke = Exchanged {
        dh_group: suite.dh_id,
        data: DhGroup::named(suite.dh_id).unwrap().public_of(dh_private),
    };
    seq![
        (PayloadType::SecurityAssociation, sa::proposal_octets(seq![answer])),
        (PayloadType::Nonce, nr),
        (PayloadType::KeyExchange, ke.octets()),
    ]
}

/// The payloads a rekey request with these contents is answered with, and the SA
/// that comes of it. The new SA's SPIi is the one in the proposal we choose
/// (RFC 7296 §3.3.1), not in whichever came first.
pub open spec fn granted(
    old: Completed,
    spi_r: u64,
    dh_private: Seq<u8>,
    nr: Seq<u8>,
    offered: Seq<Offered>,
    ni: Seq<u8>,
    ke: Exchanged,
) -> Result<(Seq<(PayloadType, Seq<u8>)>, Completed), Failure> {
    match negotiate::selected(offered) {
        None => Err(Failure::NoProposalChosen),
        Some((i, suite)) => match ike_spi_of(offered[i]) {
            Err(failure) => Err(failure),
            Ok(spi_i) => match basic::read_nonce_for_prf(ni, suite.prf()) {
                Err(failure) => Err(failure),
                Ok(_) => match secret_of(suite, dh_private, ke) {
                    Err(failure) => Err(failure),
                    Ok(shared) => Ok(
                        (
                            rekey_answer_parts(suite, offered[i], spi_r, dh_private, nr),
                            rekeyed(old, Role::Responder, suite, shared, spi_i, spi_r, ni, nr),
                        ),
                    ),
                },
            },
        },
    }
}

/// Responder: process an IKE-SA rekey request (SK-wrapped under the *old* IKE SA),
/// derive the new IKE SA, and build the response. `new_spi_r` is our new IKE SPI,
/// `dh_private` our fresh ephemeral DH secret, `nr` our new nonce. Returns
/// `(response_bytes, new_ike_sa)`; the caller migrates the CHILD SAs onto it and
/// retires the old IKE SA when the peer deletes it.
pub fn responder_process_ike_rekey(
    old_sa: &CompletedSaInit,
    request: &[u8],
    new_spi_r: u64,
    dh_private: &[u8],
    nr: &[u8],
    iv: &[u8; 8],
) -> (out: Result<(Vec<u8>, CompletedSaInit), IkeError>)
    requires
        old_sa@.suite.cipher() is Some,
        dh_private@.len() == 32,
    ensures
        viewed_response(out) == (match IkeHeader::read(request@) {
            Err(failure) => Err(failure),
            Ok(header) => match old_sa@.opened(old_sa@.peer(), request@) {
                Err(failure) => Err(failure),
                Ok((first, inner)) => match rekey_answered(
                    old_sa@,
                    new_spi_r,
                    dh_private@,
                    nr@,
                    first,
                    inner,
                ) {
                    Err(failure) => Err(failure),
                    Ok((parts, sa)) => match old_sa@.sealed(
                        old_sa@.role,
                        header_of(old_sa@, ExchangeType::CreateChildSa, header.message_id, true),
                        parts,
                        iv@,
                    ) {
                        Err(failure) => Err(failure),
                        Ok(response) => Ok((response, sa)),
                    },
                },
            },
        }),
        out matches Ok((_, sa)) ==> sa@.valid() && curve_value_stands(dh_private@, sa@.suite),
        forall|header: IkeHeader, written: Seq<(PayloadType, Seq<u8>)>, seed: Seq<u8>|
            #[trigger] old_sa@.carries(old_sa@.peer(), header, written, seed, request@) ==> viewed_response(out) == (
            match rekey_answered(
                old_sa@,
                new_spi_r,
                dh_private@,
                nr@,
                message::first_type(written),
                message::encoded(written),
            ) {
                Err(failure) => Err(failure),
                Ok((parts, sa)) => match old_sa@.sealed(
                    old_sa@.role,
                    header_of(old_sa@, ExchangeType::CreateChildSa, header.message_id, true),
                    parts,
                    iv@,
                ) {
                    Err(failure) => Err(failure),
                    Ok(response) => Ok((response, sa)),
                },
            }),
        old_sa@.tampered(old_sa@.peer(), request@) ==> viewed_response(out) == Err::<(Seq<u8>, Completed), Failure>(
            Failure::BadIntegrity,
        ),
{
    proof {
        if old_sa@.tampered(old_sa@.peer(), request@) {
            lemma_tampered_header(old_sa@, old_sa@.peer(), request@);
        }
        assert forall|header: IkeHeader, written: Seq<(PayloadType, Seq<u8>)>, seed: Seq<u8>| #[trigger]
            old_sa@.carries(old_sa@.peer(), header, written, seed, request@) implies IkeHeader::read(request@) is Ok
            && IkeHeader::read(request@)->Ok_0.message_id == header.message_id by {
            lemma_carried_id(old_sa@, old_sa@.peer(), header, written, seed, request@);
        }
    }
    let header = match IkeHeader::parse(request) {
        Ok(header) => header,
        Err(error) => {
            return Err(error);
        },
    };
    let (first, inner) = match open_from_peer(old_sa, request) {
        Ok(opened) => opened,
        Err(error) => {
            return Err(error);
        },
    };
    let found = match scan(first, &inner, false) {
        Ok(found) => found,
        Err(error) => {
            return Err(error);
        },
    };
    let sa_body = match &found.sa {
        Some(body) => body,
        None => {
            return Err(IkeError::MissingPayload("SA"));
        },
    };
    let ni = match &found.nonce {
        Some(ni) => ni,
        None => {
            return Err(IkeError::MissingPayload("Nonce"));
        },
    };
    let ke = match &found.ke {
        Some(body) => match KeyExchange::parse(body) {
            Ok(ke) => ke,
            Err(error) => {
                return Err(error);
            },
        },
        None => {
            return Err(IkeError::MissingPayload("KE"));
        },
    };
    let sa = match SecurityAssociation::parse(sa_body) {
        Ok(sa) => sa,
        Err(error) => {
            return Err(error);
        },
    };
    let (inner_out, new_sa) = match grant(old_sa, new_spi_r, dh_private, nr, &sa, ni, &ke) {
        Ok(granted) => granted,
        Err(error) => {
            return Err(error);
        },
    };
    // The rekey exchange is protected by the OLD IKE SA (its header SPIs, its keys).
    let header_out = our_header(old_sa, ExchangeType::CreateChildSa, header.message_id, true);
    match seal_from(old_sa, old_sa.role, header_out, &inner_out, iv) {
        Ok(response) => Ok((response, new_sa)),
        Err(error) => Err(error),
    }
}

/// A list of payloads with an SA, or an error, each taken by its view.
pub open spec fn viewed_grant(result: Result<(Vec<(PayloadType, Vec<u8>)>, CompletedSaInit), IkeError>) -> Result<
    (Seq<(PayloadType, Seq<u8>)>, Completed),
    Failure,
> {
    match result {
        Ok((parts, sa)) => Ok((message::bodies(parts@), sa@)),
        Err(error) => Err(error@),
    }
}

/// The payloads a rekey request with these contents is answered with, and the SA
/// that comes of it.
fn grant(
    old_sa: &CompletedSaInit,
    new_spi_r: u64,
    dh_private: &[u8],
    nr: &[u8],
    sa: &SecurityAssociation,
    ni: &[u8],
    ke: &KeyExchange,
) -> (out: Result<(Vec<(PayloadType, Vec<u8>)>, CompletedSaInit), IkeError>)
    requires
        dh_private@.len() == 32,
    ensures
        viewed_grant(out) == granted(old_sa@, new_spi_r, dh_private@, nr@, sa@, ni@, ke@),
        out matches Ok((_, new_sa)) ==> new_sa@.valid() && curve_value_stands(dh_private@, new_sa@.suite),
{
    let (proposal, suite) = match negotiate::select_with_proposal(sa) {
        Some(picked) => picked,
        None => {
            return Err(IkeError::NoProposalChosen);
        },
    };
    if proposal.spi.len() != 8 {
        return Err(IkeError::Crypto("expected an 8-byte IKE SPI"));
    }
    let spi_i: u64 = bytes::get64(&proposal.spi, 0);
    // RFC 7296 §3.9 and §2.10, as for Nr in `initiator_complete_ike_rekey`.
    match Nonce::parse_for_prf(ni, suite.prf_algorithm()) {
        Ok(_) => (),
        Err(error) => {
            return Err(error);
        },
    }
    let shared = match agree(&suite, dh_private, ke) {
        Ok(shared) => shared,
        Err(error) => {
            return Err(error);
        },
    };
    let group = match DhGroup::from_transform_id(suite.dh_id) {
        Some(group) => group,
        None => {
            return Err(IkeError::NoProposalChosen);
        },
    };
    // Response inner: SA(new IKE proposal carrying our new SPI) | Nr | KEr.
    let mut answer = suite.answer_to(proposal);
    answer.spi = spi_bytes(new_spi_r);
    let ke_out = KeyExchange { dh_group: suite.dh_id, data: group.public(dh_private) };
    let ghost none = negotiate::has_type(proposal@.transforms, transform_type::INTEG);
    assert(answer@ =~= Offered { spi: bytes::be64(new_spi_r), ..suite.proposed(none) });
    let inner_out = rekey_payloads(&only(answer), nr, &ke_out);
    assert(message::bodies(inner_out@) =~= rekey_answer_parts(suite, proposal@, new_spi_r, dh_private@, nr@));
    let new_sa = rekey(old_sa, Role::Responder, suite, &shared, spi_i, new_spi_r, ni, nr);
    Ok((inner_out, new_sa))
}

/// What the other end of `old`, with these secrets, grants to our rekey of it: the
/// payloads of its answer, and the SA it comes to.
pub open spec fn granted_to(
    old: Completed,
    ni: Seq<u8>,
    spi_i: u64,
    dh_private: Seq<u8>,
    old_r: Completed,
    spi_r: u64,
    dh_r: Seq<u8>,
    nr: Seq<u8>,
) -> Result<(Seq<(PayloadType, Seq<u8>)>, Completed), Failure> {
    let request = rekey_request_parts(old.suite, spi_i, ni, dh_private);
    rekey_answered(old_r, spi_r, dh_r, nr, message::first_type(request), message::encoded(request))
}

/// Whether `response` is what the other end of `old`, with these secrets, answers
/// our rekey of it with.
pub open spec fn rekey_answers(
    old: Completed,
    ni: Seq<u8>,
    spi_i: u64,
    dh_private: Seq<u8>,
    old_r: Completed,
    spi_r: u64,
    dh_r: Seq<u8>,
    nr: Seq<u8>,
    header: IkeHeader,
    seed: Seq<u8>,
    response: Seq<u8>,
) -> bool {
    &&& message::frameable(rekey_request_parts(old.suite, spi_i, ni, dh_private))
    &&& old.agrees_with(old_r)
    &&& dh_r.len() == 32
    &&& granted_to(old, ni, spi_i, dh_private, old_r, spi_r, dh_r, nr) matches Ok((parts, _))
    &&& old.carries(old.peer(), header, parts, seed, response)
}

/// Whether `sa` is what the responder came to as well, whoever answered our rekey
/// with `response`: the same keys, suite, SPIs and nonces.
pub open spec fn agrees_with_rekeyed(
    old: Completed,
    ni: Seq<u8>,
    spi_i: u64,
    dh_private: Seq<u8>,
    response: Seq<u8>,
    sa: Completed,
) -> bool {
    forall|old_r: Completed, spi_r: u64, dh_r: Seq<u8>, nr: Seq<u8>, header: IkeHeader, seed: Seq<u8>| #[trigger]
        rekey_answers(old, ni, spi_i, dh_private, old_r, spi_r, dh_r, nr, header, seed, response) ==> sa.agrees_with(
            granted_to(old, ni, spi_i, dh_private, old_r, spi_r, dh_r, nr)->Ok_0.1,
        )
}

/// Whether a rekey of `old` that the other end grants with these secrets is to be
/// completed: its nonce has a length a nonce may have and is long enough for the
/// PRF, and its public value is one to be taken.
pub open spec fn rekey_completable(old: Completed, dh_r: Seq<u8>, nr: Seq<u8>) -> bool {
    let group = DhGroup::named(old.suite.dh_id).unwrap();
    &&& old.suite.runnable()
    &&& 16 <= nr.len() <= 256
    &&& 2 * nr.len() >= old.suite.prf().size()
    &&& group.takes(group.public_of(dh_r))
}

/// Whether the initiator completes with what the responder came to, whoever answered
/// our rekey with `response`.
pub open spec fn completes_rekey(
    old: Completed,
    ni: Seq<u8>,
    spi_i: u64,
    dh_private: Seq<u8>,
    response: Seq<u8>,
    result: Result<Completed, Failure>,
) -> bool {
    forall|old_r: Completed, spi_r: u64, dh_r: Seq<u8>, nr: Seq<u8>, header: IkeHeader, seed: Seq<u8>| #[trigger]
        rekey_answers(old, ni, spi_i, dh_private, old_r, spi_r, dh_r, nr, header, seed, response)
            && rekey_completable(old, dh_r, nr) ==> result is Ok && result->Ok_0.agrees_with(
            granted_to(old, ni, spi_i, dh_private, old_r, spi_r, dh_r, nr)->Ok_0.1,
        )
}

proof fn lemma_rekey_reads_back(offered: Offered, nonce: Seq<u8>, ke: Exchanged, answer: bool)
    requires
        message::frameable(
            seq![
                (PayloadType::SecurityAssociation, sa::proposal_octets(seq![offered])),
                (PayloadType::Nonce, nonce),
                (PayloadType::KeyExchange, ke.octets()),
            ],
        ),
    ensures
        ({
            let parts = seq![
                (PayloadType::SecurityAssociation, sa::proposal_octets(seq![offered])),
                (PayloadType::Nonce, nonce),
                (PayloadType::KeyExchange, ke.octets()),
            ];
            Rekeying::nothing().with_all(message::first_type(parts), message::encoded(parts), answer) == Ok::<
                Rekeying,
                Failure,
            >(
                (Rekeying {
                    sa: Some(sa::proposal_octets(seq![offered])),
                    nonce: Some(nonce),
                    ke: Some(ke.octets()),
                }),
            )
        }),
{
    let parts = seq![
        (PayloadType::SecurityAssociation, sa::proposal_octets(seq![offered])),
        (PayloadType::Nonce, nonce),
        (PayloadType::KeyExchange, ke.octets()),
    ];
    let two = parts.drop_first();
    let one = two.drop_first();
    message::lemma_encoded_head(parts);
    message::lemma_encoded_head(two);
    message::lemma_encoded_head(one);
    assert(two[0] == parts[1]);
    assert(one[0] == parts[2]);
    assert(one.drop_first().len() == 0);
    let f1 = Rekeying { sa: Some(parts[0].1), ..Rekeying::nothing() };
    let f2 = Rekeying { nonce: Some(nonce), ..f1 };
    let f3 = Rekeying { ke: Some(ke.octets()), ..f2 };
    assert(f3.with_all(message::first_type(one.drop_first()), message::encoded(one.drop_first()), answer) == Ok::<
        Rekeying,
        Failure,
    >(f3));
    assert(f2.with_all(message::first_type(one), message::encoded(one), answer) == Ok::<Rekeying, Failure>(f3));
    assert(f1.with_all(message::first_type(two), message::encoded(two), answer) == Ok::<Rekeying, Failure>(f3));
}

/// What is chosen from a proposal does not depend on its SPI.
proof fn lemma_suite_with_whatever_spi(
    proposal: Offered,
    spi: Seq<u8>,
    ciphers: Seq<negotiate::EncrCandidate>,
    dh_id: u16,
)
    ensures
        negotiate::suite_with((Offered { spi, ..proposal }), ciphers, dh_id) == negotiate::suite_with(
            proposal,
            ciphers,
            dh_id,
        ),
    decreases ciphers.len(),
{
    if ciphers.len() > 0 {
        lemma_suite_with_whatever_spi(proposal, spi, ciphers.drop_first(), dh_id);
    }
}

proof fn lemma_choice_whatever_spi(proposal: Offered, spi: Seq<u8>)
    ensures
        negotiate::suite_of((Offered { spi, ..proposal })) == negotiate::suite_of(proposal),
        negotiate::selected_suite(seq![Offered { spi, ..proposal }]) == negotiate::selected_suite(seq![proposal]),
{
    let other = Offered { spi, ..proposal };
    if let Some(dh_id) = negotiate::first_offered(
        proposal.transforms,
        transform_type::DH,
        negotiate::dh_candidates(),
    ) {
        lemma_suite_with_whatever_spi(proposal, spi, negotiate::encr_candidates(), dh_id);
    }
    assert(other.transforms == proposal.transforms);
    reveal_with_fuel(negotiate::selected_from, 2);
    assert(seq![other][0] == other);
    assert(seq![proposal][0] == proposal);
}

proof fn lemma_one_reads_back(offered: Offered)
    requires
        offered.spi.len() == 8,
        offered.transforms.len() <= 4,
    ensures
        sa::read_proposals(sa::proposal_octets(seq![offered])) == Ok::<Seq<Offered>, Failure>(seq![offered]),
{
    let one = seq![offered];
    sa::lemma_proposal_len(offered, true);
    assert(forall|k: int| 0 <= k < one.len() ==> #[trigger] one[k] == offered);
    sa::law_sa_round_trip(one);
}

proof fn lemma_spi_reads_back(proposal: Offered, spi: u64)
    requires
        proposal.spi == bytes::be64(spi),
    ensures
        ike_spi_of(proposal) == Ok::<u64, Failure>(spi),
{
    let wire = bytes::be64(spi);
    assert(wire.subrange(0, 8) =~= wire);
    bytes::lemma_at64_be64(wire, 0, spi);
}

/// What is granted to our rekey, and what we read in the answer.
proof fn lemma_grant_reads_back(
    old: Completed,
    ni: Seq<u8>,
    spi_i: u64,
    dh_private: Seq<u8>,
    old_r: Completed,
    spi_r: u64,
    dh_r: Seq<u8>,
    nr: Seq<u8>,
)
    requires
        granted_to(old, ni, spi_i, dh_private, old_r, spi_r, dh_r, nr) matches Ok((parts, _)) && message::frameable(
            parts,
        ),
        message::frameable(rekey_request_parts(old.suite, spi_i, ni, dh_private)),
        old.agrees_with(old_r),
    ensures
        ({
            let (parts, theirs) = granted_to(old, ni, spi_i, dh_private, old_r, spi_r, dh_r, nr)->Ok_0;
            let offer = rekey_proposal(old.suite, spi_i);
            let suite = theirs.suite;
            let group = DhGroup::named(suite.dh_id).unwrap();
            let none = negotiate::has_type(offer.transforms, transform_type::INTEG);
            let answer = Offered { spi: bytes::be64(spi_r), ..suite.proposed(none) };
            let their_ke = Exchanged { dh_group: suite.dh_id, data: group.public_of(dh_r) };
            let our_ke = Exchanged {
                dh_group: old.suite.dh_id,
                data: DhGroup::named(old.suite.dh_id).unwrap().public_of(dh_private),
            };
            &&& negotiate::selected(seq![offer]) == Some((0int, suite))
            &&& negotiate::suite_of(offer) == Some(suite)
            &&& DhGroup::named(suite.dh_id) is Some
            &&& group.id() == suite.dh_id
            &&& secret_of(suite, dh_r, our_ke) matches Ok(shared)
            &&& theirs == rekeyed(old_r, Role::Responder, suite, shared, spi_i, spi_r, ni, nr)
            &&& Rekeying::nothing().with_all(message::first_type(parts), message::encoded(parts), true) == Ok::<
                Rekeying,
                Failure,
            >(
                (Rekeying {
                    sa: Some(sa::proposal_octets(seq![answer])),
                    nonce: Some(nr),
                    ke: Some(their_ke.octets()),
                }),
            )
            &&& sa::read_proposals(sa::proposal_octets(seq![answer])) == Ok::<Seq<Offered>, Failure>(seq![answer])
            &&& Exchanged::read(their_ke.octets()) == Ok::<Exchanged, Failure>(their_ke)
            &&& ike_spi_of(answer) == Ok::<u64, Failure>(spi_r)
            &&& negotiate::selected_suite(seq![answer]) == Some(suite)
        }),
{
    let offer = rekey_proposal(old.suite, spi_i);
    let our_ke = Exchanged {
        dh_group: old.suite.dh_id,
        data: DhGroup::named(old.suite.dh_id).unwrap().public_of(dh_private),
    };
    lemma_rekey_reads_back(offer, ni, our_ke, false);
    lemma_one_reads_back(offer);
    lemma_spi_reads_back(offer, spi_i);
    basic::law_key_exchange_round_trip(our_ke);
    negotiate::lemma_selected(seq![offer]);
    negotiate::lemma_chosen_runs(offer);
    let (i, suite) = negotiate::selected(seq![offer])->0;
    let none = negotiate::has_type(offer.transforms, transform_type::INTEG);
    let plain = suite.proposed(none);
    let answer = Offered { spi: bytes::be64(spi_r), ..plain };
    let their_ke = Exchanged {
        dh_group: suite.dh_id,
        data: DhGroup::named(suite.dh_id).unwrap().public_of(dh_r),
    };
    assert(rekey_answer_parts(suite, offer, spi_r, dh_r, nr) == seq![
        (PayloadType::SecurityAssociation, sa::proposal_octets(seq![answer])),
        (PayloadType::Nonce, nr),
        (PayloadType::KeyExchange, their_ke.octets()),
    ]);
    lemma_rekey_reads_back(answer, nr, their_ke, true);
    lemma_one_reads_back(answer);
    lemma_spi_reads_back(answer, spi_r);
    basic::law_key_exchange_round_trip(their_ke);
    negotiate::law_answer_names_the_choice(offer);
    lemma_choice_whatever_spi(plain, bytes::be64(spi_r));
}

/// A suite chosen from the one proposal that rekeys an SA names the algorithms the SA
/// runs, and the answer with it takes that proposal up.
proof fn lemma_rekey_keeps_algorithms(suite: ChosenSuite, spi_i: u64, spi_r: u64)
    requires
        suite.runnable(),
    ensures
        ({
            let offer = rekey_proposal(suite, spi_i);
            let none = negotiate::has_type(offer.transforms, transform_type::INTEG);
            negotiate::suite_of(offer) matches Some(chosen) ==> {
                &&& same_algorithms(chosen, suite)
                &&& negotiate::accepts(
                    seq![Offered { spi: bytes::be64(spi_r), ..chosen.proposed(none) }],
                    seq![offer],
                )
            }
        }),
{
    let offer = rekey_proposal(suite, spi_i);
    let none = negotiate::has_type(offer.transforms, transform_type::INTEG);
    let transforms = offer.transforms;
    assert(transforms == suite.transforms(false));
    assert(transforms.len() <= 4);
    assert(transforms[0] == suite.encr());
    assert(transforms[1] == negotiate::plain(transform_type::PRF, suite.prf_id));
    assert(transforms.last() == negotiate::plain(transform_type::DH, suite.dh_id));
    assert(suite.integ_id matches Some(id) ==> transforms[2] == negotiate::plain(transform_type::INTEG, id));
    assert(suite.integ_id is None ==> transforms.len() == 3);
    if let Some(chosen) = negotiate::suite_of(offer) {
        negotiate::law_choice_is_offered(offer);
        negotiate::lemma_chosen_runs(offer);
        assert(negotiate::numbered(seq![offer], offer.num, 0) == Some(0int));
        assert(transforms.contains(chosen.encr()));
        assert(chosen.encr() == suite.encr());
        if chosen.integ_id is None && none {
            assert(chosen.transforms(none)[2] == negotiate::plain(
                transform_type::INTEG,
                transform_id::INTEG_NONE,
            ));
            assert(transforms.contains(chosen.transforms(none)[2]));
        }
        assert(same_algorithms(chosen, suite));
        assert(seq![offer][0] == offer);
        assert(negotiate::selected_from(seq![offer], 0) == Some((0int, chosen)));
        assert(!negotiate::has_type(transforms, transform_type::ESN));
        negotiate::law_answer_is_accepted(seq![offer]);
        let plain = chosen.proposed(none);
        let answer = Offered { spi: bytes::be64(spi_r), ..plain };
        assert(seq![answer][0].transforms == seq![plain][0].transforms);
    }
}

/// A rekey completes: when the other end of an SA grants our rekey of it, we come to
/// an SA from its answer, with the same keys, suite, SPIs and nonces.
/// [`DhGroup::shared`] promises that the two ends share one secret.
pub proof fn law_rekey_completes(
    old: Completed,
    ni: Seq<u8>,
    spi_i: u64,
    dh_private: Seq<u8>,
    old_r: Completed,
    spi_r: u64,
    dh_r: Seq<u8>,
    nr: Seq<u8>,
)
    requires
        message::frameable(rekey_request_parts(old.suite, spi_i, ni, dh_private)),
        old.agrees_with(old_r),
        dh_r.len() == 32,
        granted_to(old, ni, spi_i, dh_private, old_r, spi_r, dh_r, nr) matches Ok((parts, _)) && message::frameable(
            parts,
        ),
        rekey_completable(old, dh_r, nr),
        DhGroup::named(old.suite.dh_id).unwrap().agrees(
            dh_private,
            DhGroup::named(old.suite.dh_id).unwrap().public_of(dh_r),
        ),
    ensures
        granted_to(old, ni, spi_i, dh_private, old_r, spi_r, dh_r, nr) matches Ok((parts, theirs)) && {
            &&& completed(old, ni, spi_i, dh_private, message::first_type(parts), message::encoded(parts)) matches Ok(
                ours,
            )
            &&& ours.agrees_with(theirs)
        },
{
    lemma_grant_reads_back(old, ni, spi_i, dh_private, old_r, spi_r, dh_r, nr);
    lemma_rekey_keeps_algorithms(old.suite, spi_i, spi_r);
}

/// The other end of an SA grants a rekey of it: the request offers the suite both run,
/// and where its nonce fits the PRF and a secret comes of its public value, the
/// answer takes that suite up.
pub proof fn law_rekey_is_granted(
    old: Completed,
    ni: Seq<u8>,
    spi_i: u64,
    dh_private: Seq<u8>,
    old_r: Completed,
    spi_r: u64,
    dh_r: Seq<u8>,
    nr: Seq<u8>,
)
    requires
        negotiate::eligible(old.suite),
        old.agrees_with(old_r),
        16 <= ni.len() <= 256,
        2 * ni.len() >= old.suite.prf().size(),
        message::frameable(rekey_request_parts(old.suite, spi_i, ni, dh_private)),
        DhGroup::named(old.suite.dh_id).unwrap().shared_of(
            dh_r,
            DhGroup::named(old.suite.dh_id).unwrap().public_of(dh_private),
        ) is Ok,
    ensures
        granted_to(old, ni, spi_i, dh_private, old_r, spi_r, dh_r, nr) matches Ok((_, sa)) && same_algorithms(
            sa.suite,
            old.suite,
        ),
{
    let offer = rekey_proposal(old.suite, spi_i);
    let suite = ChosenSuite { proposal_num: 1, ..old.suite };
    let our_ke = Exchanged {
        dh_group: old.suite.dh_id,
        data: DhGroup::named(old.suite.dh_id).unwrap().public_of(dh_private),
    };
    assert(offer == Offered { spi: bytes::be64(spi_i), ..suite.proposed(false) });
    negotiate::law_single_suite_is_chosen(suite, false);
    lemma_choice_whatever_spi(suite.proposed(false), bytes::be64(spi_i));
    negotiate::lemma_selected(seq![offer]);
    negotiate::lemma_chosen_runs(offer);
    lemma_rekey_reads_back(offer, ni, our_ke, false);
    lemma_one_reads_back(offer);
    lemma_spi_reads_back(offer, spi_i);
    basic::law_key_exchange_round_trip(our_ke);
}

/// A rekey message of a valid SA is sealed and carries its payloads.
proof fn lemma_rekey_is_sealed(
    sa: Completed,
    header: IkeHeader,
    offered: Offered,
    nonce: Seq<u8>,
    ke: Exchanged,
    iv: Seq<u8>,
)
    requires
        sa.valid(),
        header.carrying(PayloadType::Encrypted).canonical(),
        offered.spi.len() == 8,
        offered.transforms.len() <= 4,
        nonce.len() <= 256,
        ke.data.len() <= 1024,
        iv.len() == 8,
    ensures
        ({
            let parts = seq![
                (PayloadType::SecurityAssociation, sa::proposal_octets(seq![offered])),
                (PayloadType::Nonce, nonce),
                (PayloadType::KeyExchange, ke.octets()),
            ];
            &&& message::frameable(parts)
            &&& sa.sealed(sa.role, header, parts, iv) matches Ok(wire)
            &&& sa.carries(sa.role, header, parts, iv, wire)
        }),
{
    let parts = seq![
        (PayloadType::SecurityAssociation, sa::proposal_octets(seq![offered])),
        (PayloadType::Nonce, nonce),
        (PayloadType::KeyExchange, ke.octets()),
    ];
    let one = seq![offered];
    sa::lemma_proposal_len(offered, true);
    sa::lemma_proposal_len(offered, false);
    assert(one.drop_first() =~= Seq::<Offered>::empty());
    assert(sa::proposal_octets(one.drop_first()).len() == 0);
    assert(sa::proposal_octets(one).len() <= 64);
    assert(ke.octets().len() <= 1028);
    assert(message::frameable(parts));
    let two = parts.drop_first();
    let last = two.drop_first();
    message::lemma_encoded_head(parts);
    message::lemma_encoded_head(two);
    message::lemma_encoded_head(last);
    assert(message::encoded(parts).len() <= 2048);
    lemma_lengths(sa.suite);
}

/// What rekeys a valid SA goes through: the request carries its payloads and, where
/// the other end grants it, so does the answer.
pub proof fn law_rekey_messages_are_carried(
    old: Completed,
    ni: Seq<u8>,
    spi_i: u64,
    dh_private: Seq<u8>,
    old_r: Completed,
    spi_r: u64,
    dh_r: Seq<u8>,
    nr: Seq<u8>,
    message_id: u32,
    iv: Seq<u8>,
)
    requires
        old.valid(),
        old_r.valid(),
        old.agrees_with(old_r),
        old_r.role == old.peer(),
        ni.len() <= 256,
        nr.len() <= 256,
        dh_r.len() == 32,
        iv.len() == 8,
    ensures
        ({
            let header = header_of(old, ExchangeType::CreateChildSa, message_id, false);
            let request = rekey_request_parts(old.suite, spi_i, ni, dh_private);
            &&& old.sealed(old.role, header, request, iv) matches Ok(wire)
            &&& old_r.carries(old_r.peer(), header, request, iv, wire)
        }),
        granted_to(old, ni, spi_i, dh_private, old_r, spi_r, dh_r, nr) matches Ok((parts, _)) ==> {
            let header = header_of(old_r, ExchangeType::CreateChildSa, message_id, true);
            &&& old_r.sealed(old_r.role, header, parts, iv) matches Ok(response)
            &&& rekey_answers(old, ni, spi_i, dh_private, old_r, spi_r, dh_r, nr, header, iv, response)
        },
{
    let offer = rekey_proposal(old.suite, spi_i);
    let our_ke = Exchanged {
        dh_group: old.suite.dh_id,
        data: DhGroup::named(old.suite.dh_id).unwrap().public_of(dh_private),
    };
    crypto::dh::lemma_public_len(DhGroup::named(old.suite.dh_id).unwrap(), dh_private);
    let asking = header_of(old, ExchangeType::CreateChildSa, message_id, false);
    lemma_rekey_is_sealed(old, asking, offer, ni, our_ke, iv);
    if let Ok((parts, theirs)) = granted_to(old, ni, spi_i, dh_private, old_r, spi_r, dh_r, nr) {
        lemma_rekey_reads_back(offer, ni, our_ke, false);
        lemma_one_reads_back(offer);
        basic::law_key_exchange_round_trip(our_ke);
        negotiate::lemma_selected(seq![offer]);
        let (_, suite) = negotiate::selected(seq![offer])->0;
        let none = negotiate::has_type(offer.transforms, transform_type::INTEG);
        let answer = Offered { spi: bytes::be64(spi_r), ..suite.proposed(none) };
        let group = DhGroup::named(suite.dh_id).unwrap();
        let their_ke = Exchanged { dh_group: suite.dh_id, data: group.public_of(dh_r) };
        crypto::dh::lemma_public_len(group, dh_r);
        let answering = header_of(old_r, ExchangeType::CreateChildSa, message_id, true);
        lemma_rekey_is_sealed(old_r, answering, answer, nr, their_ke, iv);
        assert(parts == rekey_answer_parts(suite, offer, spi_r, dh_r, nr));
    }
}

/// Whether every check of the answer to our rekey that comes before the
/// Diffie-Hellman passes.
spec fn rekey_checks_out(old: Completed, spi_i: u64, first: PayloadType, inner: Seq<u8>) -> bool {
    &&& Rekeying::nothing().with_all(first, inner, true) matches Ok(found)
    &&& found.sa matches Some(body)
    &&& sa::read_proposals(body) matches Ok(offered)
    &&& found.nonce matches Some(nr)
    &&& found.ke matches Some(ke)
    &&& Exchanged::read(ke) matches Ok(ke)
    &&& negotiate::accepts(offered, seq![rekey_proposal(old.suite, spi_i)])
    &&& ike_spi_of(offered[0]) is Ok
    &&& negotiate::selected_suite(offered) matches Some(suite)
    &&& same_algorithms(suite, old.suite)
    &&& basic::read_nonce_for_prf(nr, suite.prf()) is Ok
    &&& ke.dh_group == suite.dh_id
}

proof fn lemma_rekeys_check_out(
    old: Completed,
    ni: Seq<u8>,
    spi_i: u64,
    dh_private: Seq<u8>,
    response: Seq<u8>,
    first: PayloadType,
    inner: Seq<u8>,
)
    requires
        carried(old, response, first, inner),
    ensures
        forall|old_r: Completed, spi_r: u64, dh_r: Seq<u8>, nr: Seq<u8>, header: IkeHeader, seed: Seq<u8>| #[trigger]
            rekey_answers(old, ni, spi_i, dh_private, old_r, spi_r, dh_r, nr, header, seed, response)
                && rekey_completable(old, dh_r, nr) ==> rekey_checks_out(old, spi_i, first, inner),
{
    assert forall|old_r: Completed, spi_r: u64, dh_r: Seq<u8>, nr: Seq<u8>, header: IkeHeader, seed: Seq<u8>|
        #[trigger] rekey_answers(old, ni, spi_i, dh_private, old_r, spi_r, dh_r, nr, header, seed, response)
            && rekey_completable(old, dh_r, nr) implies rekey_checks_out(old, spi_i, first, inner) by {
        let (parts, _) = granted_to(old, ni, spi_i, dh_private, old_r, spi_r, dh_r, nr)->Ok_0;
        assert(old.carries(old.peer(), header, parts, seed, response));
        lemma_grant_reads_back(old, ni, spi_i, dh_private, old_r, spi_r, dh_r, nr);
        lemma_rekey_keeps_algorithms(old.suite, spi_i, spi_r);
    }
}

/// Whether `first` and `inner` are what any message from the peer of `old` that is
/// `response` has inside.
spec fn carried(old: Completed, response: Seq<u8>, first: PayloadType, inner: Seq<u8>) -> bool {
    forall|header: IkeHeader, written: Seq<(PayloadType, Seq<u8>)>, seed: Seq<u8>|
        #[trigger] old.carries(old.peer(), header, written, seed, response) ==> first == message::first_type(written)
            && inner == message::encoded(written)
}

proof fn lemma_rekey_agrees(
    old: Completed,
    ni: Seq<u8>,
    spi_i: u64,
    dh_private: Seq<u8>,
    response: Seq<u8>,
    first: PayloadType,
    inner: Seq<u8>,
    suite: ChosenSuite,
    ke: Exchanged,
)
    requires
        carried(old, response, first, inner),
        Rekeying::nothing().with_all(first, inner, true) matches Ok(found) && (found.ke matches Some(body)
            && Exchanged::read(body) == Ok::<Exchanged, Failure>(ke)) && (found.sa matches Some(body)
            && (sa::read_proposals(body) matches Ok(offered) && negotiate::selected_suite(offered) == Some(suite))),
        same_algorithms(suite, old.suite),
        ke.dh_group == suite.dh_id ==> DhGroup::named(suite.dh_id).unwrap().agrees(dh_private, ke.data),
    ensures
        completed(old, ni, spi_i, dh_private, first, inner) matches Ok(sa) ==> agrees_with_rekeyed(
            old,
            ni,
            spi_i,
            dh_private,
            response,
            sa,
        ),
        completes_rekey(
            old,
            ni,
            spi_i,
            dh_private,
            response,
            completed(old, ni, spi_i, dh_private, first, inner),
        ),
{
    let result = completed(old, ni, spi_i, dh_private, first, inner);
    assert forall|old_r: Completed, spi_r: u64, dh_r: Seq<u8>, nr: Seq<u8>, header: IkeHeader, seed: Seq<u8>|
        #[trigger] rekey_answers(old, ni, spi_i, dh_private, old_r, spi_r, dh_r, nr, header, seed, response) && (result
            is Ok || rekey_completable(old, dh_r, nr)) implies result is Ok && result->Ok_0.agrees_with(
        granted_to(old, ni, spi_i, dh_private, old_r, spi_r, dh_r, nr)->Ok_0.1,
    ) by {
        let (parts, theirs) = granted_to(old, ni, spi_i, dh_private, old_r, spi_r, dh_r, nr)->Ok_0;
        assert(old.carries(old.peer(), header, parts, seed, response));
        lemma_grant_reads_back(old, ni, spi_i, dh_private, old_r, spi_r, dh_r, nr);
        let group = DhGroup::named(suite.dh_id).unwrap();
        if result is Ok {
            crypto::dh::lemma_taken(group, dh_private, group.public_of(dh_r));
        } else {
            law_rekey_completes(old, ni, spi_i, dh_private, old_r, spi_r, dh_r, nr);
        }
    }
}

} // verus!
