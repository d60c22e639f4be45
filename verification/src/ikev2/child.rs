//! The CHILD SA that `IKE_AUTH` creates: what is offered for it, what an offer is
//! answered with, and the traffic it carries (RFC 7296 §1.2, §2.7, §2.9).

use vstd::prelude::*;

use crate::bytes;
use crate::error::{Failure, IkeError};
use crate::ikev2::negotiate;
use crate::ikev2::negotiate::{has_type, plain};
use crate::ikev2::payload::basic::Notice;
use crate::ikev2::payload::sa::Offered;
use crate::ikev2::payload::ts;
use crate::ikev2::payload::ts::Selector;
use crate::ikev2::payload::{
    notify_type, protocol_id, transform_id, transform_type, Notify, Proposal, SecurityAssociation, TrafficSelector,
    TrafficSelectors, Transform,
};
use crate::ikev2::sk::SkCipher;

verus! {

broadcast use crate::bytes::group_lengths;

/// AES-GCM-16 with a 256-bit key, as an ENCR transform.
pub open spec fn gcm256() -> Transform {
    Transform {
        transform_type: transform_type::ENCR,
        transform_id: transform_id::AES_GCM_16,
        key_length: Some(256),
    }
}

/// No extended sequence numbers, as an ESN transform.
pub open spec fn no_esn() -> Transform {
    plain(transform_type::ESN, transform_id::ESN_NONE)
}

/// An ESP proposal with this SPI.
pub open spec fn esp_offered(num: u8, spi: u32, transforms: Seq<Transform>) -> Offered {
    Offered { num, protocol_id: protocol_id::ESP, spi: bytes::be32(spi), transforms }
}

/// A transform of this type and ID without a Key Length.
fn bare(ttype: u8, id: u16) -> (transform: Transform)
    ensures
        transform == plain(ttype, id),
{
    Transform { transform_type: ttype, transform_id: id, key_length: None }
}

/// The octets of an ESP SPI.
fn spi_bytes(spi: u32) -> (out: Vec<u8>)
    ensures
        out@ == bytes::be32(spi),
{
    let mut out: Vec<u8> = Vec::new();
    bytes::push32(&mut out, spi);
    assert(out@ =~= bytes::be32(spi));
    out
}

/// A Security Association of one ESP proposal.
fn one_proposal(spi: u32, transforms: Vec<Transform>) -> (sa: SecurityAssociation)
    ensures
        sa@ == seq![esp_offered(1, spi, transforms@)],
{
    let mut proposals: Vec<Proposal> = Vec::new();
    proposals.push(Proposal { num: 1, protocol_id: protocol_id::ESP, spi: spi_bytes(spi), transforms });
    let sa = SecurityAssociation { proposals };
    assert(sa@ =~= seq![esp_offered(1, spi, transforms@)]);
    sa
}

/// A default ESP CHILD SA offer: AES-GCM-16-256 + ESN none, with the given SPI.
pub fn esp_offer(spi: u32) -> (offer: SecurityAssociation)
    ensures
        offer@ == seq![esp_offered(1, spi, seq![gcm256(), no_esn()])],
{
    let mut transforms: Vec<Transform> = Vec::new();
    transforms.push(
        Transform {
            transform_type: transform_type::ENCR,
            transform_id: transform_id::AES_GCM_16,
            key_length: Some(256),
        },
    );
    transforms.push(bare(transform_type::ESN, transform_id::ESN_NONE));
    assert(transforms@ =~= seq![gcm256(), no_esn()]);
    one_proposal(spi, transforms)
}

/// The ENCR transform that names a cipher. A cipher whose key has one length goes
/// without a Key Length.
pub open spec fn encr_of(cipher: SkCipher) -> Transform {
    let (transform_id, key_length) = match cipher {
        SkCipher::Aes128Gcm => (transform_id::AES_GCM_16, Some(128u16)),
        SkCipher::Aes192Gcm => (transform_id::AES_GCM_16, Some(192u16)),
        SkCipher::Aes256Gcm => (transform_id::AES_GCM_16, Some(256u16)),
        SkCipher::ChaCha20Poly1305 => (transform_id::CHACHA20_POLY1305, None),
        SkCipher::TripleDesCbc(_) => (transform_id::TRIPLE_DES, None),
        SkCipher::Aes128Cbc(_) => (transform_id::AES_CBC, Some(128u16)),
        SkCipher::Aes192Cbc(_) => (transform_id::AES_CBC, Some(192u16)),
        SkCipher::Aes256Cbc(_) => (transform_id::AES_CBC, Some(256u16)),
    };
    Transform { transform_type: transform_type::ENCR, transform_id, key_length }
}

/// The transforms of an ESP offer for a cipher.
pub open spec fn transforms_of(cipher: SkCipher) -> Seq<Transform> {
    match cipher.integ() {
        Some(integ) => seq![encr_of(cipher), plain(transform_type::INTEG, integ.id()), no_esn()],
        None => seq![encr_of(cipher), no_esn()],
    }
}

/// An ESP CHILD SA offer for a specific already-negotiated `cipher`, with the
/// given SPI -- used at CHILD SA rekey time so the `CREATE_CHILD_SA` exchange
/// preserves the tunnel's existing algorithm instead of [`esp_offer`]'s fixed
/// AES-GCM-256 default.
pub fn esp_offer_for_cipher(spi: u32, cipher: SkCipher) -> (offer: SecurityAssociation)
    ensures
        offer@ == seq![esp_offered(1, spi, transforms_of(cipher))],
{
    let (transform_id, key_length) = match cipher {
        SkCipher::Aes128Gcm => (transform_id::AES_GCM_16, Some(128u16)),
        SkCipher::Aes192Gcm => (transform_id::AES_GCM_16, Some(192u16)),
        SkCipher::Aes256Gcm => (transform_id::AES_GCM_16, Some(256u16)),
        // Both have exactly one key size, so the Key Length goes unsaid.
        SkCipher::ChaCha20Poly1305 => (transform_id::CHACHA20_POLY1305, None),
        SkCipher::TripleDesCbc(_) => (transform_id::TRIPLE_DES, None),
        SkCipher::Aes128Cbc(_) => (transform_id::AES_CBC, Some(128u16)),
        SkCipher::Aes192Cbc(_) => (transform_id::AES_CBC, Some(192u16)),
        SkCipher::Aes256Cbc(_) => (transform_id::AES_CBC, Some(256u16)),
    };
    let mut transforms: Vec<Transform> = Vec::new();
    transforms.push(Transform { transform_type: transform_type::ENCR, transform_id, key_length });
    if let Some(integ) = cipher.integ_algorithm() {
        transforms.push(bare(transform_type::INTEG, integ.transform_id()));
    }
    transforms.push(bare(transform_type::ESN, transform_id::ESN_NONE));
    assert(transforms@ =~= transforms_of(cipher));
    one_proposal(spi, transforms)
}

/// What the initiator puts in TSi/TSr of the IKE_AUTH CHILD SA.
///
/// [`Self::Ipv4`] is the conservative default: a CHILD SA for IPv4 only, with
/// IPv6 (if wanted) added afterwards as a CHILD SA of its own -- the shape
/// peers that keep one selector family per policy accept.
/// [`Self::Unified`] is what RFC 7296 §2.9 describes: one payload offering
/// `0.0.0.0/0` and `::/0` together, so a single CHILD SA covers both families
/// when the peer supports it. A peer that can't answers by narrowing the reply
/// or by rejecting the CHILD SA.
#[derive(Debug, Clone, Copy, PartialEq, Eq, Structural)]
pub enum ChildTsOffer {
    Ipv4,
    Unified,
}

impl Default for ChildTsOffer {
    fn default() -> (offer: Self)
        ensures
            offer == ChildTsOffer::Ipv4,
    {
        ChildTsOffer::Ipv4
    }
}

impl ChildTsOffer {
    /// The selectors this offer puts in both TSi and TSr.
    pub open spec fn ts(self) -> Seq<Selector> {
        match self {
            ChildTsOffer::Ipv4 => seq![Selector::ipv4_any()],
            ChildTsOffer::Unified => seq![Selector::ipv4_any(), Selector::ipv6_any()],
        }
    }

    /// The selectors this offer puts in both TSi and TSr.
    pub fn selectors(self) -> (ts: TrafficSelectors)
        ensures
            ts@ == self.ts(),
    {
        match self {
            ChildTsOffer::Ipv4 => TrafficSelectors::ipv4_full_tunnel(),
            ChildTsOffer::Unified => TrafficSelectors::unified_full_tunnel(),
        }
    }
}

/// The transforms that are not of the D-H type.
pub open spec fn without_dh(transforms: Seq<Transform>) -> Seq<Transform>
    decreases transforms.len(),
{
    if transforms.len() == 0 {
        Seq::empty()
    } else if transforms.last().transform_type == transform_type::DH {
        without_dh(transforms.drop_last())
    } else {
        without_dh(transforms.drop_last()).push(transforms.last())
    }
}

/// The transforms that are not a D-H group: a D-H transform that names none stays.
pub open spec fn without_groups(transforms: Seq<Transform>) -> Seq<Transform>
    decreases transforms.len(),
{
    if transforms.len() == 0 {
        Seq::empty()
    } else if transforms.last().transform_type == transform_type::DH && transforms.last().transform_id
        != transform_id::DH_NONE {
        without_groups(transforms.drop_last())
    } else {
        without_groups(transforms.drop_last()).push(transforms.last())
    }
}

/// A proposal as it goes into an `IKE_AUTH` request: with our SPI and without
/// D-H groups.
pub open spec fn stamped(proposal: Offered, spi: u32) -> Offered {
    Offered { spi: bytes::be32(spi), transforms: without_dh(proposal.transforms), ..proposal }
}

/// The SAi2 an `IKE_AUTH` request carries for an offer.
pub open spec fn sai2_of(offer: Seq<Offered>, spi: u32) -> Seq<Offered> {
    offer.map_values(|p: Offered| stamped(p, spi))
}

/// The SAi2 an `IKE_AUTH` request carries for the caller's `offer`: `spi`
/// stamped onto every proposal -- the SPI is ours to choose per-connection, so
/// the offer's own SPI value (if any) is always overwritten here rather than
/// sent as-is -- and no DH transform. RFC 7296 §1.2: the SA payloads of
/// `IKE_AUTH` "cannot contain Transform Type 4 (Diffie-Hellman group) with any
/// value other than NONE. Implementations SHOULD omit the whole transform
/// substructure"; the groups a caller's offer names are its PFS policy for the
/// CHILD SA's rekeys.
pub fn sai2(offer: &SecurityAssociation, spi: u32) -> (sa: SecurityAssociation)
    ensures
        sa@ == sai2_of(offer@, spi),
{
    let mut proposals: Vec<Proposal> = Vec::new();
    for i in 0..offer.proposals.len()
        invariant
            proposals@.map_values(|p: Proposal| p@) == sai2_of(offer@, spi).take(i as int),
    {
        let proposal = &offer.proposals[i];
        let mut transforms: Vec<Transform> = Vec::new();
        let ghost all = proposal.transforms@;
        assert(all.take(0) =~= Seq::<Transform>::empty());
        for j in 0..proposal.transforms.len()
            invariant
                all == proposal.transforms@,
                transforms@ == without_dh(all.take(j as int)),
        {
            assert(all.take(j + 1).drop_last() =~= all.take(j as int));
            if proposal.transforms[j].transform_type != transform_type::DH {
                transforms.push(proposal.transforms[j]);
            }
        }
        assert(all.take(all.len() as int) =~= all);
        let stamped = Proposal {
            num: proposal.num,
            protocol_id: proposal.protocol_id,
            spi: spi_bytes(spi),
            transforms,
        };
        let ghost before = proposals@;
        proposals.push(stamped);
        proof {
            assert(offer@[i as int] == proposal@);
            assert(stamped@ =~= self::stamped(proposal@, spi));
            assert(proposals@.map_values(|p: Proposal| p@) =~= before.map_values(|p: Proposal| p@).push(stamped@));
            assert(sai2_of(offer@, spi).take(i + 1) =~= sai2_of(offer@, spi).take(i as int).push(stamped@));
        }
    }
    assert(sai2_of(offer@, spi).take(offer@.len() as int) =~= sai2_of(offer@, spi));
    SecurityAssociation { proposals }
}

/// The SPI of an ESP proposal, of four octets (RFC 7296 §3.3.1).
pub open spec fn spi_of(proposal: Offered) -> Result<u32, Failure> {
    if proposal.spi.len() == 4 {
        Ok(bytes::at32(proposal.spi, 0))
    } else {
        Err(Failure::Crypto("expected a 4-byte ESP SPI"@))
    }
}

/// An SPI with its error taken by its view.
pub open spec fn viewed_spi(result: Result<u32, IkeError>) -> Result<u32, Failure> {
    match result {
        Ok(spi) => Ok(spi),
        Err(error) => Err(error@),
    }
}

/// The 4-octet SPI of an ESP proposal (RFC 7296 §3.3.1).
pub fn esp_spi(proposal: &Proposal) -> (spi: Result<u32, IkeError>)
    ensures
        viewed_spi(spi) == spi_of(proposal@),
{
    if proposal.spi.len() != 4 {
        return Err(IkeError::Crypto("expected a 4-byte ESP SPI"));
    }
    Ok(bytes::get32(&proposal.spi, 0))
}

/// The SPI of the first ESP proposal in an SA payload, if it can be read.
pub open spec fn spi_in(body: Seq<u8>) -> Option<u32> {
    match crate::ikev2::payload::sa::read_proposals(body) {
        Err(_) => None,
        Ok(proposals) => match negotiate::first_esp(proposals, 0) {
            None => None,
            Some(i) => match spi_of(proposals[i]) {
                Ok(spi) => Some(spi),
                Err(_) => None,
            },
        },
    }
}

/// The SPI of the first ESP proposal in the SA payload `body`, if it can be read.
pub fn esp_spi_from_sa(body: &[u8]) -> (spi: Option<u32>)
    ensures
        spi == spi_in(body@),
{
    match SecurityAssociation::parse(body) {
        Err(_) => None,
        Ok(sa) => match negotiate::esp_proposal(&sa) {
            None => None,
            Some(proposal) => match esp_spi(proposal) {
                Ok(spi) => Some(spi),
                Err(_) => None,
            },
        },
    }
}

/// Whether an ESP proposal may carry a transform of this type for us to answer it.
pub open spec fn esp_transform_type(transform_type: u8) -> bool {
    ||| transform_type == transform_type::ENCR
    ||| transform_type == transform_type::INTEG
    ||| transform_type == transform_type::DH
    ||| transform_type == transform_type::ESN
}

/// Whether every one of `transforms` is of a type we understand in an ESP proposal.
pub open spec fn all_esp_types(transforms: Seq<Transform>) -> bool {
    forall|i: int| 0 <= i < transforms.len() ==> esp_transform_type((#[trigger] transforms[i]).transform_type)
}

/// Whether `transforms`, if it has any of this type, has one that names nothing.
pub open spec fn allows_none(transforms: Seq<Transform>, transform_type: u8) -> bool {
    has_type(transforms, transform_type) ==> transforms.contains(plain(transform_type, 0))
}

/// Whether our data plane can run a proposal with these transforms: AES-GCM-16
/// with a 256-bit key, without an integrity algorithm of its own, a D-H exchange
/// or extended sequence numbers.
pub open spec fn runs(transforms: Seq<Transform>) -> bool {
    &&& all_esp_types(transforms)
    &&& transforms.contains(gcm256())
    &&& allows_none(transforms, transform_type::INTEG)
    &&& allows_none(transforms, transform_type::DH)
    &&& allows_none(transforms, transform_type::ESN)
}

/// The transform of this type that names nothing, where `transforms` has any of
/// this type.
pub open spec fn none_of(transforms: Seq<Transform>, transform_type: u8) -> Seq<Transform> {
    if has_type(transforms, transform_type) {
        seq![plain(transform_type, 0)]
    } else {
        Seq::empty()
    }
}

/// What a proposal we can run is answered with: one transform of each type it
/// included (RFC 7296 §2.7).
pub open spec fn answering(transforms: Seq<Transform>) -> Seq<Transform> {
    seq![gcm256()] + none_of(transforms, transform_type::INTEG) + none_of(transforms, transform_type::DH) + none_of(
        transforms,
        transform_type::ESN,
    )
}

/// The answer to the first of `proposals`, from `from` on, that we can run, with
/// the peer's SPI from it.
pub open spec fn answered_from(proposals: Seq<Offered>, child_spi: u32, from: int) -> Option<(Offered, u32)>
    decreases proposals.len() - from,
{
    if from < 0 || from >= proposals.len() {
        None
    } else {
        let transforms = without_groups(proposals[from].transforms);
        if proposals[from].protocol_id == protocol_id::ESP && proposals[from].spi.len() == 4 && runs(transforms) {
            Some(
                (
                    esp_offered(proposals[from].num, child_spi, answering(transforms)),
                    bytes::at32(proposals[from].spi, 0),
                ),
            )
        } else {
            answered_from(proposals, child_spi, from + 1)
        }
    }
}

/// The proposal an initiator's SAi2 is answered with, and the initiator's SPI
/// from it.
pub open spec fn answered_offer(proposals: Seq<Offered>, child_spi: u32) -> Option<(Offered, u32)> {
    answered_from(proposals, child_spi, 0)
}

/// An answer taken by its view.
pub open spec fn viewed_answer(answer: Option<(Proposal, u32)>) -> Option<(Offered, u32)> {
    match answer {
        Some((proposal, spi)) => Some((proposal@, spi)),
        None => None,
    }
}

/// The answer's transforms for a proposal with these, if we can run it.
fn answer_transforms(transforms: &Vec<Transform>) -> (answer: Option<Vec<Transform>>)
    ensures
        match answer {
            Some(answer) => runs(transforms@) && answer@ == answering(transforms@),
            None => !runs(transforms@),
        },
{
    let encr = Transform {
        transform_type: transform_type::ENCR,
        transform_id: transform_id::AES_GCM_16,
        key_length: Some(256),
    };
    let mut integ = false;
    let mut dh = false;
    let mut esn = false;
    let ghost seen = transforms@;
    for i in 0..transforms.len()
        invariant
            seen == transforms@,
            forall|j: int| 0 <= j < i ==> esp_transform_type((#[trigger] seen[j]).transform_type),
            integ == has_type(seen.take(i as int), transform_type::INTEG),
            dh == has_type(seen.take(i as int), transform_type::DH),
            esn == has_type(seen.take(i as int), transform_type::ESN),
    {
        let ttype: u8 = transforms[i].transform_type;
        proof {
            lemma_has_type_step(seen, i as int, transform_type::INTEG);
            lemma_has_type_step(seen, i as int, transform_type::DH);
            lemma_has_type_step(seen, i as int, transform_type::ESN);
        }
        if ttype == transform_type::INTEG {
            integ = true;
        } else if ttype == transform_type::DH {
            dh = true;
        } else if ttype == transform_type::ESN {
            esn = true;
        } else if ttype != transform_type::ENCR {
            assert(!esp_transform_type(seen[i as int].transform_type));
            return None;
        }
    }
    assert(seen.take(seen.len() as int) =~= seen);
    if !negotiate::holds(transforms, &encr) || (integ && !negotiate::holds(
        transforms,
        &bare(transform_type::INTEG, 0),
    )) || (dh && !negotiate::holds(transforms, &bare(transform_type::DH, 0))) || (esn && !negotiate::holds(
        transforms,
        &bare(transform_type::ESN, 0),
    )) {
        return None;
    }
    let mut answer: Vec<Transform> = Vec::new();
    answer.push(encr);
    if integ {
        answer.push(bare(transform_type::INTEG, 0));
    }
    if dh {
        answer.push(bare(transform_type::DH, 0));
    }
    if esn {
        answer.push(bare(transform_type::ESN, 0));
    }
    assert(answer@ =~= answering(transforms@));
    Some(answer)
}

proof fn lemma_has_type_step(transforms: Seq<Transform>, i: int, transform_type: u8)
    requires
        0 <= i < transforms.len(),
    ensures
        has_type(transforms.take(i + 1), transform_type) == (has_type(transforms.take(i), transform_type)
            || transforms[i].transform_type == transform_type),
{
    let more = transforms.take(i + 1);
    let less = transforms.take(i);
    if has_type(less, transform_type) {
        let k = choose|k: int| 0 <= k < less.len() && (#[trigger] less[k]).transform_type == transform_type;
        assert(more[k] == less[k]);
    }
    if transforms[i].transform_type == transform_type {
        assert(more[i] == transforms[i]);
    }
    if has_type(more, transform_type) {
        let k = choose|k: int| 0 <= k < more.len() && (#[trigger] more[k]).transform_type == transform_type;
        if k < i {
            assert(less[k] == more[k]);
        }
    }
}

/// Responder: the proposal to answer an initiator's SAi2 with, and the
/// initiator's SPI from it -- `None` when none fits, to be answered
/// `NO_PROPOSAL_CHOSEN` (RFC 7296 §1.2, §2.7). The CHILD SA this side derives
/// runs AES-GCM-16/256, so that is what is taken: the first ESP proposal
/// offering it without ESN, with one transform of each type the proposal
/// included, numbered as the peer did and carrying our `child_spi`. A DH group
/// in SAi2 -- which §1.2 rules out -- is passed over rather than run: there is
/// no KE in `IKE_AUTH`.
pub fn answer_esp_offer(sai2: &SecurityAssociation, child_spi: u32) -> (answer: Option<(Proposal, u32)>)
    ensures
        viewed_answer(answer) == answered_offer(sai2@, child_spi),
{
    for i in 0..sai2.proposals.len()
        invariant
            answered_offer(sai2@, child_spi) == answered_from(sai2@, child_spi, i as int),
    {
        let proposal = &sai2.proposals[i];
        assert(sai2@[i as int] == proposal@);
        let mut transforms: Vec<Transform> = Vec::new();
        let ghost all = proposal.transforms@;
        assert(all.take(0) =~= Seq::<Transform>::empty());
        for j in 0..proposal.transforms.len()
            invariant
                all == proposal.transforms@,
                transforms@ == without_groups(all.take(j as int)),
        {
            assert(all.take(j + 1).drop_last() =~= all.take(j as int));
            let transform = proposal.transforms[j];
            if transform.transform_type != transform_type::DH || transform.transform_id == transform_id::DH_NONE {
                transforms.push(transform);
            }
        }
        assert(all.take(all.len() as int) =~= all);
        if proposal.protocol_id == protocol_id::ESP && proposal.spi.len() == 4 {
            if let Some(answer) = answer_transforms(&transforms) {
                let accepted = Proposal {
                    num: proposal.num,
                    protocol_id: protocol_id::ESP,
                    spi: spi_bytes(child_spi),
                    transforms: answer,
                };
                assert(accepted@ =~= esp_offered(proposal@.num, child_spi, answering(transforms@)));
                return Some((accepted, bytes::get32(&proposal.spi, 0)));
            }
        }
    }
    None
}

/// Why traffic selectors were not answered within an offer, if they were not.
pub open spec fn granted(
    offer: Seq<Selector>,
    tsi: Option<Seq<Selector>>,
    tsr: Option<Seq<Selector>>,
) -> Result<(), Failure> {
    match tsi {
        None => Err(Failure::MissingPayload("TSi"@)),
        Some(tsi) => match tsr {
            None => Err(Failure::MissingPayload("TSr"@)),
            Some(tsr) => if ts::all_within(tsi, offer) && ts::all_within(tsr, offer) {
                Ok(())
            } else {
                Err(Failure::TsOutsideOffer)
            },
        },
    }
}

/// Optional selectors taken by their views.
pub open spec fn viewed_ts(ts: Option<&TrafficSelectors>) -> Option<Seq<Selector>> {
    match ts {
        Some(ts) => Some(ts@),
        None => None,
    }
}

/// A verdict with its error taken by its view.
pub open spec fn viewed_unit(result: Result<(), IkeError>) -> Result<(), Failure> {
    match result {
        Ok(()) => Ok(()),
        Err(error) => Err(error@),
    }
}

/// The traffic selectors a response creating a CHILD SA answered a request
/// proposing `offer` as both TSi and TSr with: both present (RFC 7296 §2.9:
/// "Two TS payloads appear in each of the messages in the exchange that
/// creates a Child SA pair"), and each a subset of `offer` -- the responder
/// narrows "to some subset of the initiator's proposal"
/// ([`TrafficSelectors::is_within`]). Anything else is
/// [`IkeError::MissingPayload`] or [`IkeError::TsOutsideOffer`].
pub fn check_granted_ts(
    offer: &TrafficSelectors,
    tsi: Option<&TrafficSelectors>,
    tsr: Option<&TrafficSelectors>,
) -> (verdict: Result<(), IkeError>)
    ensures
        viewed_unit(verdict) == granted(offer@, viewed_ts(tsi), viewed_ts(tsr)),
{
    let tsi = match tsi {
        Some(tsi) => tsi,
        None => {
            return Err(IkeError::MissingPayload("TSi"));
        },
    };
    let tsr = match tsr {
        Some(tsr) => tsr,
        None => {
            return Err(IkeError::MissingPayload("TSr"));
        },
    };
    if tsi.is_within(offer) && tsr.is_within(offer) {
        Ok(())
    } else {
        Err(IkeError::TsOutsideOffer)
    }
}

/// The selectors a responder answers a CHILD SA request with.
pub open spec fn narrowed(
    tsi: Option<Seq<Selector>>,
    tsr: Option<Seq<Selector>>,
    policy_i: Seq<Selector>,
    policy_r: Seq<Selector>,
) -> Result<(Seq<Selector>, Seq<Selector>), Failure> {
    match tsi {
        None => Err(Failure::MissingPayload("TSi"@)),
        Some(tsi) => match tsr {
            None => Err(Failure::MissingPayload("TSr"@)),
            Some(tsr) => match (ts::narrowed_to(tsi, policy_i), ts::narrowed_to(tsr, policy_r)) {
                (Some(tsi), Some(tsr)) => Ok((tsi, tsr)),
                _ => Err(Failure::TsUnacceptable),
            },
        },
    }
}

/// A pair of selectors taken by their views.
pub open spec fn viewed_pair(result: Result<(TrafficSelectors, TrafficSelectors), IkeError>) -> Result<
    (Seq<Selector>, Seq<Selector>),
    Failure,
> {
    match result {
        Ok((tsi, tsr)) => Ok((tsi@, tsr@)),
        Err(error) => Err(error@),
    }
}

/// The selectors a responder answers a CHILD SA request with (RFC 7296
/// §2.9): the request's TSi and TSr, which it must carry, narrowed to
/// `policy_i` (the initiator's side) and `policy_r` (ours) --
/// [`TrafficSelectors::narrowed_to`]. When either comes to nothing the
/// request is refused with `TsUnacceptable`, answered `TS_UNACCEPTABLE`.
pub fn narrow_requested_ts(
    tsi: Option<&TrafficSelectors>,
    tsr: Option<&TrafficSelectors>,
    policy_i: &TrafficSelectors,
    policy_r: &TrafficSelectors,
) -> (answer: Result<(TrafficSelectors, TrafficSelectors), IkeError>)
    ensures
        viewed_pair(answer) == narrowed(viewed_ts(tsi), viewed_ts(tsr), policy_i@, policy_r@),
{
    let tsi = match tsi {
        Some(tsi) => tsi,
        None => {
            return Err(IkeError::MissingPayload("TSi"));
        },
    };
    let tsr = match tsr {
        Some(tsr) => tsr,
        None => {
            return Err(IkeError::MissingPayload("TSr"));
        },
    };
    match (tsi.narrowed_to(policy_i), tsr.narrowed_to(policy_r)) {
        (Some(tsi), Some(tsr)) => Ok((tsi, tsr)),
        _ => Err(IkeError::TsUnacceptable),
    }
}

/// The traffic a responder carries for a client on its side: the IPv4 address it
/// is assigned, or any IPv4 address without one.
pub open spec fn client_policy(assigned: Option<Seq<u8>>) -> Seq<Selector> {
    match assigned {
        Some(ip) => seq![Selector::ipv4_host(ip)],
        None => seq![Selector::ipv4_any()],
    }
}

/// The traffic a responder carries on its own side: any IPv4 address.
pub open spec fn server_policy() -> Seq<Selector> {
    seq![Selector::ipv4_any()]
}

/// The traffic a responder carries for a client: on its side the
/// IPv4 address it is `assigned`, or any IPv4 address without one; on ours
/// any IPv4 address.
pub fn assigned_ipv4_policy(assigned: Option<[u8; 4]>) -> (policy: (TrafficSelectors, TrafficSelectors))
    ensures
        policy.0@ == client_policy(crate::ikev2::payload::config::viewed_address(assigned)),
        policy.1@ == server_policy(),
{
    let client = match assigned {
        Some(ip) => {
            let mut selectors: Vec<TrafficSelector> = Vec::new();
            selectors.push(TrafficSelector::ipv4_host(ip));
            let ts = TrafficSelectors { selectors };
            assert(ts@ =~= seq![Selector::ipv4_host(ip@)]);
            ts
        },
        None => TrafficSelectors::ipv4_full_tunnel(),
    };
    (client, TrafficSelectors::ipv4_full_tunnel())
}

/// The type of a notify that refuses only the CHILD SA of an `IKE_AUTH`.
pub open spec fn child_error_of(body: Seq<u8>) -> Option<u16> {
    match Notice::read(body) {
        Ok(notify) => if notify_type::child_sa_error(notify.notify_type) {
            Some(notify.notify_type)
        } else {
            None
        },
        Err(_) => None,
    }
}

/// The type of `body` (a Notify payload body) if it is a CHILD-SA error
/// notify -- one RFC 7296 §1.2 allows in an otherwise successful `IKE_AUTH`.
pub fn child_sa_error_of(body: &[u8]) -> (error: Option<u16>)
    ensures
        error == child_error_of(body@),
{
    match Notify::parse(body) {
        Ok(notify) => if notify_type::is_child_sa_error(notify.notify_type) {
            Some(notify.notify_type)
        } else {
            None
        },
        Err(_) => None,
    }
}

/// Whether no proposal of `offer` has a D-H transform, and each is told apart from
/// the others by its number and protocol: what [`sai2`] makes of an offer with
/// proposals numbered as RFC 7296 §3.3.1 has it.
pub open spec fn plain_offer(offer: Seq<Offered>) -> bool {
    &&& forall|i: int| 0 <= i < offer.len() ==> !has_type((#[trigger] offer[i]).transforms, transform_type::DH)
    &&& forall|i: int, j: int|
        0 <= i < j < offer.len() ==> (#[trigger] offer[i]).num != (#[trigger] offer[j]).num || offer[i].protocol_id
            != offer[j].protocol_id
}

/// Transforms without a D-H one are left as they are.
pub proof fn lemma_without_groups(transforms: Seq<Transform>)
    requires
        !has_type(transforms, transform_type::DH),
    ensures
        without_groups(transforms) == transforms,
    decreases transforms.len(),
{
    if transforms.len() > 0 {
        let before = transforms.drop_last();
        assert(transforms[transforms.len() - 1].transform_type != transform_type::DH);
        assert(!has_type(before, transform_type::DH)) by {
            if has_type(before, transform_type::DH) {
                let k = choose|k: int|
                    0 <= k < before.len() && (#[trigger] before[k]).transform_type == transform_type::DH;
                assert(transforms[k].transform_type == transform_type::DH);
            }
        }
        lemma_without_groups(before);
        assert(before.push(transforms.last()) =~= transforms);
    } else {
        assert(without_groups(transforms) =~= transforms);
    }
}

proof fn lemma_counterpart(offer: Seq<Offered>, i: int, from: int)
    requires
        plain_offer(offer),
        0 <= from <= i < offer.len(),
    ensures
        negotiate::counterpart(offer, offer[i].num, offer[i].protocol_id, from) == Some(i),
    decreases i - from,
{
    if from < i {
        assert(offer[from].num != offer[i].num || offer[from].protocol_id != offer[i].protocol_id);
        lemma_counterpart(offer, i, from + 1);
    }
}

proof fn lemma_answering(transforms: Seq<Transform>)
    requires
        !has_type(transforms, transform_type::DH),
    ensures
        negotiate::count_of(answering(transforms), transform_type::ENCR) == 1,
        negotiate::count_of(answering(transforms), transform_type::INTEG) == if has_type(
            transforms,
            transform_type::INTEG,
        ) {
            1nat
        } else {
            0
        },
        negotiate::count_of(answering(transforms), transform_type::ESN) == if has_type(
            transforms,
            transform_type::ESN,
        ) {
            1nat
        } else {
            0
        },
{
    reveal_with_fuel(negotiate::count_of, 5);
    let integ = none_of(transforms, transform_type::INTEG);
    let esn = none_of(transforms, transform_type::ESN);
    let answer = answering(transforms);
    if has_type(transforms, transform_type::INTEG) && has_type(transforms, transform_type::ESN) {
        assert(answer =~= seq![gcm256(), plain(transform_type::INTEG, 0), plain(transform_type::ESN, 0)]);
        assert(answer.drop_last() =~= seq![gcm256(), plain(transform_type::INTEG, 0)]);
        assert(answer.drop_last().drop_last() =~= seq![gcm256()]);
    } else if has_type(transforms, transform_type::INTEG) {
        assert(answer =~= seq![gcm256(), plain(transform_type::INTEG, 0)]);
        assert(answer.drop_last() =~= seq![gcm256()]);
    } else if has_type(transforms, transform_type::ESN) {
        assert(answer =~= seq![gcm256(), plain(transform_type::ESN, 0)]);
        assert(answer.drop_last() =~= seq![gcm256()]);
    } else {
        assert(answer =~= seq![gcm256()]);
    }
    assert(seq![gcm256()].drop_last() =~= Seq::<Transform>::empty());
}

proof fn lemma_answered(offer: Seq<Offered>, child_spi: u32, from: int)
    requires
        plain_offer(offer),
        0 <= from <= offer.len(),
    ensures
        answered_from(offer, child_spi, from) matches Some((answer, _)) ==> negotiate::accepts(seq![answer], offer)
            && answer.spi == bytes::be32(child_spi),
    decreases offer.len() - from,
{
    if from < offer.len() {
        let transforms = offer[from].transforms;
        lemma_without_groups(transforms);
        if offer[from].protocol_id == protocol_id::ESP && offer[from].spi.len() == 4 && runs(transforms) {
            let answer = esp_offered(offer[from].num, child_spi, answering(transforms));
            lemma_counterpart(offer, from, 0);
            lemma_answering(transforms);
            assert forall|i: int| 0 <= i < answer.transforms.len() implies {
                &&& negotiate::count_of(answer.transforms, (#[trigger] answer.transforms[i]).transform_type) == 1
                &&& transforms.contains(answer.transforms[i])
            } by {
                let transform = answer.transforms[i];
                assert(transform == gcm256() || transform == plain(transform_type::INTEG, 0) || transform == plain(
                    transform_type::ESN,
                    0,
                ));
            }
            assert forall|i: int| 0 <= i < transforms.len() implies negotiate::count_of(
                answer.transforms,
                (#[trigger] transforms[i]).transform_type,
            ) == 1 by {
                assert(esp_transform_type(transforms[i].transform_type));
                assert(has_type(transforms, transforms[i].transform_type));
            }
            assert(negotiate::takes_up(answer, offer[from]));
        } else {
            lemma_answered(offer, child_spi, from + 1);
        }
    }
}

/// The initiator takes what the responder answers: the proposal an offer is
/// answered with takes one of the offer's up, with the responder's SPI.
pub proof fn law_child_answer_is_accepted(offer: Seq<Offered>, child_spi: u32)
    requires
        plain_offer(offer),
    ensures
        answered_offer(offer, child_spi) matches Some((answer, _)) ==> negotiate::accepts(seq![answer], offer)
            && spi_of(answer) == Ok::<u32, Failure>(child_spi),
{
    lemma_answered(offer, child_spi, 0);
    let wire = bytes::be32(child_spi);
    assert(wire.subrange(0, 4) =~= wire);
    bytes::lemma_at32_be32(wire, 0, child_spi);
}

} // verus!
