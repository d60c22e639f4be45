//! Suite negotiation for `IKE_SA_INIT`.
//!
//! From the initiator's Security Association, pick a proposal we support and
//! describe the chosen suite (transforms and key lengths for the schedule).
//! The initiator reads the single suite the *responder* echoed back with the
//! same functions.
//!
//! ENCR candidates, strongest first: ChaCha20-Poly1305, AES-GCM-16 (256/192/
//! 128), AES-CBC (256/192/128), 3DES. PRF/INTEG candidates, strongest first:
//! SHA2-512, SHA2-384, SHA2-256, SHA-1. DH candidates, strongest first:
//! X25519, ECP-521/384/256, MODP-8192 down to MODP-1024.
//!
//! PRF_HMAC_MD5, AUTH_HMAC_MD5_96 and MODP-768 (group 1) are deliberately
//! absent from these tables: RFC 8247 marks all three MUST NOT for IKEv2, so
//! they are neither offered nor accepted, even though the payloads can still
//! represent them.
//!
//! An **IKE** proposal carries ENCR, PRF, INTEG for a cipher that is not a
//! combined-mode one, and D-H — but *not* ESN, which is only valid for ESP and
//! AH proposals (RFC 7296 §3.3.3): it is neither required nor emitted here.

use vstd::prelude::*;

use crate::crypto::{DhGroup, IntegAlgorithm, KeyLengths, PrfAlgorithm};
use crate::error::{Failure, IkeError};
use crate::ikev2::payload::sa::Offered;
use crate::ikev2::payload::{protocol_id, transform_id, transform_type, Proposal, SecurityAssociation, Transform};
use crate::ikev2::sk::SkCipher;

verus! {

/// The concrete suite chosen from an initiator proposal.
#[derive(Debug, Clone, Copy, PartialEq, Eq)]
pub struct ChosenSuite {
    pub proposal_num: u8,
    pub encr_id: u16,
    pub encr_key_bits: u16,
    pub prf_id: u16,
    /// `None` for an AEAD cipher (AES-GCM), which needs no separate integrity.
    pub integ_id: Option<u16>,
    pub dh_id: u16,
}

/// A cipher we may choose: its Transform ID, the Key Length it is offered with
/// (none for a cipher whose key has one length, RFC 7296 §3.3.5), and whether
/// it is a combined-mode one.
#[derive(Debug, Clone, Copy, PartialEq, Eq)]
pub struct EncrCandidate {
    pub id: u16,
    pub key_length: Option<u16>,
    pub aead: bool,
}

/// The transform of this type and ID without a Key Length.
pub open spec fn plain(transform_type: u8, transform_id: u16) -> Transform {
    Transform { transform_type, transform_id, key_length: None }
}

/// The ciphers we may choose, strongest first.
pub open spec fn encr_candidates() -> Seq<EncrCandidate> {
    seq![
        EncrCandidate { id: transform_id::CHACHA20_POLY1305, key_length: None, aead: true },
        EncrCandidate { id: transform_id::AES_GCM_16, key_length: Some(256), aead: true },
        EncrCandidate { id: transform_id::AES_GCM_16, key_length: Some(192), aead: true },
        EncrCandidate { id: transform_id::AES_GCM_16, key_length: Some(128), aead: true },
        EncrCandidate { id: transform_id::AES_CBC, key_length: Some(256), aead: false },
        EncrCandidate { id: transform_id::AES_CBC, key_length: Some(192), aead: false },
        EncrCandidate { id: transform_id::AES_CBC, key_length: Some(128), aead: false },
        EncrCandidate { id: transform_id::TRIPLE_DES, key_length: None, aead: false },
    ]
}

/// The PRFs we may choose, strongest first.
pub open spec fn prf_candidates() -> Seq<u16> {
    seq![
        transform_id::PRF_HMAC_SHA2_512,
        transform_id::PRF_HMAC_SHA2_384,
        transform_id::PRF_HMAC_SHA2_256,
        transform_id::PRF_HMAC_SHA1,
    ]
}

/// The integrity algorithms we may choose, strongest first.
pub open spec fn integ_candidates() -> Seq<u16> {
    seq![
        transform_id::AUTH_HMAC_SHA2_512_256,
        transform_id::AUTH_HMAC_SHA2_384_192,
        transform_id::AUTH_HMAC_SHA2_256_128,
        transform_id::AUTH_HMAC_SHA1_96,
    ]
}

/// The groups we may choose, strongest first.
pub open spec fn dh_candidates() -> Seq<u16> {
    seq![
        transform_id::X25519,
        transform_id::ECP521,
        transform_id::ECP384,
        transform_id::ECP256,
        transform_id::MODP_8192,
        transform_id::MODP_6144,
        transform_id::MODP_4096,
        transform_id::MODP_3072,
        transform_id::MODP_2048,
        transform_id::MODP_1536,
        transform_id::MODP_1024,
    ]
}

/// The key size of a cipher whose key has one length, which carries no Key
/// Length on the wire: ChaCha20-Poly1305 takes 256 bits (RFC 7634 §2), 3DES
/// three 8-octet DES keys.
pub open spec fn fixed_bits(encr_id: u16) -> Option<u16> {
    if encr_id == transform_id::CHACHA20_POLY1305 {
        Some(256)
    } else if encr_id == transform_id::TRIPLE_DES {
        Some(192)
    } else {
        None
    }
}

/// The Key Length a cipher of `bits` bits is offered with.
pub open spec fn wire_key_length(encr_id: u16, bits: u16) -> Option<u16> {
    if fixed_bits(encr_id) is Some {
        None
    } else {
        Some(bits)
    }
}

/// The first of `ids` that `transforms` offers under `transform_type`, without a
/// Key Length.
pub open spec fn first_offered(transforms: Seq<Transform>, transform_type: u8, ids: Seq<u16>) -> Option<u16>
    decreases ids.len(),
{
    if ids.len() == 0 {
        None
    } else if transforms.contains(plain(transform_type, ids[0])) {
        Some(ids[0])
    } else {
        first_offered(transforms, transform_type, ids.drop_first())
    }
}

/// Whether an IKE proposal may carry a transform of this type for us to answer
/// it: ENCR, PRF, INTEG and D-H (RFC 7296 §3.3.3), plus ESN, which some
/// initiators add by mistake and which is ignored.
pub open spec fn ike_transform_type(transform_type: u8) -> bool {
    ||| transform_type == transform_type::ENCR
    ||| transform_type == transform_type::PRF
    ||| transform_type == transform_type::INTEG
    ||| transform_type == transform_type::DH
    ||| transform_type == transform_type::ESN
}

/// Whether `transforms` has one of this type.
pub open spec fn has_type(transforms: Seq<Transform>, transform_type: u8) -> bool {
    exists|i: int| 0 <= i < transforms.len() && (#[trigger] transforms[i]).transform_type == transform_type
}

/// The suite the first acceptable of `ciphers` makes of `proposal` with the
/// group `dh_id`. A combined-mode cipher takes no integrity algorithm, or the
/// one that names none (RFC 7296 §3.3): where integrity algorithms are offered,
/// that one has to be among them.
pub open spec fn suite_with(proposal: Offered, ciphers: Seq<EncrCandidate>, dh_id: u16) -> Option<ChosenSuite>
    decreases ciphers.len(),
{
    if ciphers.len() == 0 {
        None
    } else {
        let cipher = ciphers[0];
        let transforms = proposal.transforms;
        let offered = transforms.contains(
            Transform {
                transform_type: transform_type::ENCR,
                transform_id: cipher.id,
                key_length: cipher.key_length,
            },
        );
        let prf = first_offered(transforms, transform_type::PRF, prf_candidates());
        let integ = if cipher.aead {
            None
        } else {
            first_offered(transforms, transform_type::INTEG, integ_candidates())
        };
        let integ_fits = if cipher.aead {
            !has_type(transforms, transform_type::INTEG) || transforms.contains(
                plain(transform_type::INTEG, transform_id::INTEG_NONE),
            )
        } else {
            integ is Some
        };
        if offered && integ_fits && prf is Some {
            Some(
                ChosenSuite {
                    proposal_num: proposal.num,
                    encr_id: cipher.id,
                    encr_key_bits: match cipher.key_length {
                        Some(bits) => bits,
                        None => fixed_bits(cipher.id).unwrap(),
                    },
                    prf_id: prf.unwrap(),
                    integ_id: integ,
                    dh_id,
                },
            )
        } else {
            suite_with(proposal, ciphers.drop_first(), dh_id)
        }
    }
}

/// The suite we choose from one proposal, if it is acceptable. One with a
/// transform type we do not understand is not (RFC 7296 §3.3.6).
pub open spec fn suite_of(proposal: Offered) -> Option<ChosenSuite> {
    if proposal.protocol_id != protocol_id::IKE {
        None
    } else if exists|i: int|
        0 <= i < proposal.transforms.len() && !ike_transform_type(
            (#[trigger] proposal.transforms[i]).transform_type,
        ) {
        None
    } else {
        match first_offered(proposal.transforms, transform_type::DH, dh_candidates()) {
            None => None,
            Some(dh_id) => suite_with(proposal, encr_candidates(), dh_id),
        }
    }
}

/// The first acceptable of `proposals` from index `from` on, and the suite
/// chosen from it.
pub open spec fn selected_from(proposals: Seq<Offered>, from: int) -> Option<(int, ChosenSuite)>
    decreases proposals.len() - from,
{
    if from < 0 || from >= proposals.len() {
        None
    } else {
        match suite_of(proposals[from]) {
            Some(suite) => Some((from, suite)),
            None => selected_from(proposals, from + 1),
        }
    }
}

/// The index of the first acceptable proposal, and the suite chosen from it.
pub open spec fn selected(proposals: Seq<Offered>) -> Option<(int, ChosenSuite)> {
    selected_from(proposals, 0)
}

/// The suite chosen from the first acceptable proposal.
pub open spec fn selected_suite(proposals: Seq<Offered>) -> Option<ChosenSuite> {
    match selected(proposals) {
        Some((_, suite)) => Some(suite),
        None => None,
    }
}

/// The index of the first of `proposals`, from `from` on, with this number.
pub open spec fn numbered(proposals: Seq<Offered>, num: u8, from: int) -> Option<int>
    decreases proposals.len() - from,
{
    if from < 0 || from >= proposals.len() {
        None
    } else if proposals[from].num == num {
        Some(from)
    } else {
        numbered(proposals, num, from + 1)
    }
}

impl ChosenSuite {
    /// The cipher this suite names.
    pub open spec fn cipher(self) -> Option<SkCipher> {
        SkCipher::named(self.encr_id, self.encr_key_bits, self.integ_id)
    }

    /// Whether this suite names algorithms we implement, as every suite
    /// [`select`] returns does.
    pub open spec fn runnable(self) -> bool {
        &&& PrfAlgorithm::named(self.prf_id) is Some
        &&& self.cipher() is Some
        &&& DhGroup::named(self.dh_id) is Some
        &&& self.integ_id != Some(transform_id::INTEG_NONE)
    }

    /// Whether this suite names a PRF and a cipher we implement, which is all that
    /// messages under its keys ask of it.
    pub open spec fn keyed(self) -> bool {
        PrfAlgorithm::named(self.prf_id) is Some && self.cipher() is Some
    }

    /// The negotiated PRF.
    pub open spec fn prf(self) -> PrfAlgorithm {
        PrfAlgorithm::named(self.prf_id).unwrap()
    }

    /// The key lengths this suite implies.
    pub open spec fn lengths(self) -> KeyLengths {
        KeyLengths {
            prf: self.prf().size() as usize,
            integ: match self.integ_id {
                Some(id) => match IntegAlgorithm::named(id) {
                    Some(integ) => integ.base().size() as usize,
                    None => 0,
                },
                None => 0,
            },
            encr: (self.encr_key_bits / 8 + if self.encr_id == transform_id::AES_GCM_16 || self.encr_id
                == transform_id::CHACHA20_POLY1305 {
                4int
            } else {
                0
            }) as usize,
        }
    }

    /// The encryption transform of this suite as it is offered.
    pub open spec fn encr(self) -> Transform {
        Transform {
            transform_type: transform_type::ENCR,
            transform_id: self.encr_id,
            key_length: wire_key_length(self.encr_id, self.encr_key_bits),
        }
    }

    /// The transforms that name this suite, one of each type, in the order ENCR,
    /// PRF, INTEG, D-H; `none` has a suite without integrity say so.
    pub open spec fn transforms(self, none: bool) -> Seq<Transform> {
        let integ = match self.integ_id {
            Some(id) => seq![plain(transform_type::INTEG, id)],
            None => if none {
                seq![plain(transform_type::INTEG, transform_id::INTEG_NONE)]
            } else {
                Seq::empty()
            },
        };
        seq![self.encr(), plain(transform_type::PRF, self.prf_id)] + integ + seq![
            plain(transform_type::DH, self.dh_id),
        ]
    }

    /// This suite as a proposal with one transform of each type.
    pub open spec fn proposed(self, none: bool) -> Offered {
        Offered {
            num: self.proposal_num,
            protocol_id: protocol_id::IKE,
            spi: Seq::empty(),
            transforms: self.transforms(none),
        }
    }

    /// Whether every transform this suite names is in the proposal of `offer`
    /// with its number.
    pub open spec fn within(self, offer: Seq<Offered>) -> bool {
        match numbered(offer, self.proposal_num, 0) {
            None => false,
            Some(i) => {
                let transforms = offer[i].transforms;
                &&& transforms.contains(self.encr())
                &&& transforms.contains(plain(transform_type::PRF, self.prf_id))
                &&& self.integ_id matches Some(id) ==> transforms.contains(
                    plain(transform_type::INTEG, id),
                )
                &&& transforms.contains(plain(transform_type::DH, self.dh_id))
            },
        }
    }

    /// The negotiated PRF, for `prf` and `prf+` based key derivation.
    pub fn prf_algorithm(&self) -> (algo: PrfAlgorithm)
        requires
            PrfAlgorithm::named(self.prf_id) is Some,
        ensures
            algo == self.prf(),
    {
        match PrfAlgorithm::from_transform_id(self.prf_id) {
            Some(algo) => algo,
            None => PrfAlgorithm::Sha256,
        }
    }

    /// The negotiated SK payload cipher (RFC 7296 §3.14). Every suite
    /// [`select`] returns has one.
    pub fn sk_cipher(&self) -> (cipher: SkCipher)
        requires
            self.cipher() is Some,
        ensures
            Some(cipher) == self.cipher(),
    {
        match SkCipher::from_chosen_suite(self) {
            Some(cipher) => cipher,
            None => SkCipher::Aes256Gcm,
        }
    }

    /// Key lengths this suite implies.
    ///
    /// Both AEAD ciphers (AES-GCM, ChaCha20-Poly1305) carry a 4-octet salt
    /// after their `SK_e` key (RFC 5282 §4, RFC 7634 §2); the classic
    /// ciphers (AES-CBC, 3DES) have no salt. `prf` and `integ` lengths are
    /// those of the negotiated algorithms.
    pub fn key_lengths(&self) -> (lengths: KeyLengths)
        requires
            PrfAlgorithm::named(self.prf_id) is Some,
        ensures
            lengths == self.lengths(),
    {
        let salt: usize = if self.encr_id == transform_id::AES_GCM_16 || self.encr_id
            == transform_id::CHACHA20_POLY1305 {
            4
        } else {
            0
        };
        let integ: usize = match self.integ_id {
            Some(id) => match IntegAlgorithm::from_transform_id(id) {
                Some(integ) => integ.key_len(),
                None => 0,
            },
            None => 0,
        };
        KeyLengths {
            prf: self.prf_algorithm().output_len(),
            integ,
            encr: (self.encr_key_bits / 8) as usize + salt,
        }
    }

    /// Re-express as a proposal with a single transform per type (ENCR, PRF,
    /// INTEG where the suite has one, D-H — no ESN). A fixed-key cipher
    /// (ChaCha20-Poly1305, 3DES) goes without a Key Length: "The Key Length
    /// attribute MUST NOT be used with transforms that use a fixed-length
    /// key" (RFC 7296 §3.3.5).
    pub fn to_proposal(&self) -> (proposal: Proposal)
        ensures
            proposal@ == self.proposed(false),
    {
        self.as_proposal(false)
    }

    /// The proposal that answers `offered`, the one this suite was chosen from:
    /// "exactly one transform of each type included in the proposal" (RFC 7296
    /// §2.7), so a combined-mode cipher offered with an INTEG NONE is answered
    /// with it.
    pub fn answer_to(&self, offered: &Proposal) -> (proposal: Proposal)
        ensures
            proposal@ == self.proposed(has_type(offered@.transforms, transform_type::INTEG)),
    {
        self.as_proposal(offers_type(offered, transform_type::INTEG))
    }

    fn as_proposal(&self, none: bool) -> (proposal: Proposal)
        ensures
            proposal@ == self.proposed(none),
    {
        let key_length = if fixed_key_bits(self.encr_id).is_some() {
            None
        } else {
            Some(self.encr_key_bits)
        };
        let mut transforms: Vec<Transform> = Vec::new();
        transforms.push(Transform { transform_type: transform_type::ENCR, transform_id: self.encr_id, key_length });
        transforms.push(
            Transform { transform_type: transform_type::PRF, transform_id: self.prf_id, key_length: None },
        );
        match self.integ_id {
            Some(id) => transforms.push(
                Transform { transform_type: transform_type::INTEG, transform_id: id, key_length: None },
            ),
            None => {
                if none {
                    transforms.push(
                        Transform {
                            transform_type: transform_type::INTEG,
                            transform_id: transform_id::INTEG_NONE,
                            key_length: None,
                        },
                    );
                }
            },
        }
        transforms.push(Transform { transform_type: transform_type::DH, transform_id: self.dh_id, key_length: None });
        let proposal = Proposal {
            num: self.proposal_num,
            protocol_id: protocol_id::IKE,
            spi: Vec::new(),
            transforms,
        };
        assert(proposal@.transforms =~= self.transforms(none));
        assert(proposal@ =~= self.proposed(none));
        proposal
    }

    /// Whether every transform this suite names was actually present in
    /// `offer`'s proposal of the matching number. RFC 7296 §2.7: the
    /// responder "MUST select a single suite... from the SA payload" the
    /// initiator sent -- it doesn't get to synthesize a combination from
    /// transforms we would merely support in general. Without this check, a
    /// misbehaving or on-path responder could echo back e.g. AES-CBC-128 in
    /// response to an AES-GCM-256-only offer -- a silent downgrade.
    pub fn matches_offer(&self, offer: &SecurityAssociation) -> (matches: bool)
        ensures
            matches == self.within(offer@),
    {
        let mut i: usize = 0;
        while i < offer.proposals.len() && offer.proposals[i].num != self.proposal_num
            invariant
                i <= offer.proposals@.len(),
                numbered(offer@, self.proposal_num, 0) == numbered(offer@, self.proposal_num, i as int),
            decreases offer.proposals@.len() - i,
        {
            assert(offer@[i as int] == offer.proposals@[i as int]@);
            i = i + 1;
        }
        if i == offer.proposals.len() {
            return false;
        }
        assert(offer@[i as int] == offer.proposals@[i as int]@);
        let proposal = &offer.proposals[i];
        let key_length = if fixed_key_bits(self.encr_id).is_some() {
            None
        } else {
            Some(self.encr_key_bits)
        };
        if !offers(proposal, transform_type::ENCR, self.encr_id, key_length) {
            return false;
        }
        if !offers(proposal, transform_type::PRF, self.prf_id, None) {
            return false;
        }
        if let Some(integ) = self.integ_id {
            if !offers(proposal, transform_type::INTEG, integ, None) {
                return false;
            }
        }
        offers(proposal, transform_type::DH, self.dh_id, None)
    }
}

/// The actual key size of a fixed-key cipher.
fn fixed_key_bits(encr_id: u16) -> (bits: Option<u16>)
    ensures
        bits == fixed_bits(encr_id),
{
    match encr_id {
        transform_id::CHACHA20_POLY1305 => Some(256),
        transform_id::TRIPLE_DES => Some(192),
        _ => None,
    }
}

/// Whether `proposal` offers transform `id` of type `ttype` with the Key
/// Length `key_length` -- `None` for a transform without one: a fixed-length
/// cipher, PRF, INTEG or D-H group. On those "The Key Length attribute MUST
/// NOT be used" (RFC 7296 §3.3.5), so one that carries it anyway is not a
/// transform we understand.
fn offers(proposal: &Proposal, ttype: u8, id: u16, key_length: Option<u16>) -> (offered: bool)
    ensures
        offered == proposal@.transforms.contains(
            Transform { transform_type: ttype, transform_id: id, key_length },
        ),
{
    holds(&proposal.transforms, &Transform { transform_type: ttype, transform_id: id, key_length })
}

/// Whether `wanted` is among `transforms`.
pub(crate) fn holds(transforms: &Vec<Transform>, wanted: &Transform) -> (found: bool)
    ensures
        found == transforms@.contains(*wanted),
{
    for i in 0..transforms.len()
        invariant
            forall|j: int| 0 <= j < i ==> transforms@[j] != *wanted,
    {
        if transforms[i].same(wanted) {
            return true;
        }
    }
    false
}

/// Whether `proposal` has a transform of this type.
fn offers_type(proposal: &Proposal, ttype: u8) -> (found: bool)
    ensures
        found == has_type(proposal@.transforms, ttype),
{
    for i in 0..proposal.transforms.len()
        invariant
            forall|j: int| 0 <= j < i ==> (#[trigger] proposal.transforms@[j]).transform_type != ttype,
    {
        if proposal.transforms[i].transform_type == ttype {
            return true;
        }
    }
    false
}

/// The first of `ids` that `proposal` offers under `ttype`.
fn first_of(proposal: &Proposal, ttype: u8, ids: &[u16]) -> (id: Option<u16>)
    ensures
        id == first_offered(proposal@.transforms, ttype, ids@),
{
    assert(ids@.skip(0) =~= ids@);
    for i in 0..ids.len()
        invariant
            first_offered(proposal@.transforms, ttype, ids@) == first_offered(
                proposal@.transforms,
                ttype,
                ids@.skip(i as int),
            ),
    {
        assert(ids@.skip(i as int).drop_first() =~= ids@.skip(i + 1));
        if offers(proposal, ttype, ids[i], None) {
            return Some(ids[i]);
        }
    }
    assert(ids@.skip(ids@.len() as int) =~= Seq::<u16>::empty());
    None
}

/// Pick the first initiator proposal we fully support, or `None`.
pub fn select(sa: &SecurityAssociation) -> (suite: Option<ChosenSuite>)
    ensures
        suite == selected_suite(sa@),
        suite matches Some(suite) ==> suite.runnable(),
{
    match select_with_proposal(sa) {
        Some((_, suite)) => Some(suite),
        None => None,
    }
}

/// [`select`], also returning the proposal the suite was picked from -- whose
/// SPI is the one the peer wants if that proposal is chosen (RFC 7296 §3.3.1).
pub fn select_with_proposal(sa: &SecurityAssociation) -> (picked: Option<(&Proposal, ChosenSuite)>)
    ensures
        match picked {
            None => selected(sa@) is None,
            Some((proposal, suite)) => {
                &&& selected(sa@) matches Some((i, chosen))
                &&& 0 <= i < sa@.len()
                &&& proposal@ == sa@[i]
                &&& suite == chosen
                &&& suite.runnable()
            },
        },
{
    for i in 0..sa.proposals.len()
        invariant
            selected(sa@) == selected_from(sa@, i as int),
    {
        assert(sa@[i as int] == sa.proposals@[i as int]@);
        if let Some(suite) = select_from_proposal(&sa.proposals[i]) {
            return Some((&sa.proposals[i], suite));
        }
    }
    None
}

/// Every suite of a candidate cipher, PRF, integrity algorithm and group is one
/// we implement.
proof fn lemma_candidates_run(transforms: Seq<Transform>)
    ensures
        first_offered(transforms, transform_type::PRF, prf_candidates()) matches Some(
            id,
        ) ==> PrfAlgorithm::named(id) is Some,
        first_offered(transforms, transform_type::INTEG, integ_candidates()) matches Some(
            id,
        ) ==> IntegAlgorithm::named(id) is Some && id != transform_id::INTEG_NONE,
        first_offered(transforms, transform_type::DH, dh_candidates()) matches Some(
            id,
        ) ==> DhGroup::named(id) is Some,
{
    lemma_first_offered_is_one(transforms, transform_type::PRF, prf_candidates());
    lemma_first_offered_is_one(transforms, transform_type::INTEG, integ_candidates());
    lemma_first_offered_is_one(transforms, transform_type::DH, dh_candidates());
}

/// What is picked from a list is on it, and offered.
proof fn lemma_first_offered_is_one(transforms: Seq<Transform>, transform_type: u8, ids: Seq<u16>)
    ensures
        first_offered(transforms, transform_type, ids) matches Some(id) ==> (exists|i: int|
            0 <= i < ids.len() && ids[i] == id) && transforms.contains(plain(transform_type, id)),
    decreases ids.len(),
{
    if ids.len() > 0 {
        if transforms.contains(plain(transform_type, ids[0])) {
            assert(ids[0] == ids[0]);
        } else {
            lemma_first_offered_is_one(transforms, transform_type, ids.drop_first());
            if let Some(id) = first_offered(transforms, transform_type, ids.drop_first()) {
                let i = choose|i: int| 0 <= i < ids.drop_first().len() && ids.drop_first()[i] == id;
                assert(ids[i + 1] == id);
            }
        }
    }
}

/// The ciphers we may choose, strongest first.
fn ciphers() -> (list: Vec<EncrCandidate>)
    ensures
        list@ == encr_candidates(),
{
    let mut list: Vec<EncrCandidate> = Vec::new();
    list.push(EncrCandidate { id: transform_id::CHACHA20_POLY1305, key_length: None, aead: true });
    list.push(EncrCandidate { id: transform_id::AES_GCM_16, key_length: Some(256), aead: true });
    list.push(EncrCandidate { id: transform_id::AES_GCM_16, key_length: Some(192), aead: true });
    list.push(EncrCandidate { id: transform_id::AES_GCM_16, key_length: Some(128), aead: true });
    list.push(EncrCandidate { id: transform_id::AES_CBC, key_length: Some(256), aead: false });
    list.push(EncrCandidate { id: transform_id::AES_CBC, key_length: Some(192), aead: false });
    list.push(EncrCandidate { id: transform_id::AES_CBC, key_length: Some(128), aead: false });
    list.push(EncrCandidate { id: transform_id::TRIPLE_DES, key_length: None, aead: false });
    assert(list@ =~= encr_candidates());
    list
}

/// The groups we may choose, strongest first.
fn groups() -> (list: Vec<u16>)
    ensures
        list@ == dh_candidates(),
{
    let list: Vec<u16> = vec![
        transform_id::X25519,
        transform_id::ECP521,
        transform_id::ECP384,
        transform_id::ECP256,
        transform_id::MODP_8192,
        transform_id::MODP_6144,
        transform_id::MODP_4096,
        transform_id::MODP_3072,
        transform_id::MODP_2048,
        transform_id::MODP_1536,
        transform_id::MODP_1024,
    ];
    assert(list@ =~= dh_candidates());
    list
}

/// The PRF `proposal` is answered with.
fn pick_prf(proposal: &Proposal) -> (id: Option<u16>)
    ensures
        id == first_offered(proposal@.transforms, transform_type::PRF, prf_candidates()),
{
    let list: Vec<u16> = vec![
        transform_id::PRF_HMAC_SHA2_512,
        transform_id::PRF_HMAC_SHA2_384,
        transform_id::PRF_HMAC_SHA2_256,
        transform_id::PRF_HMAC_SHA1,
    ];
    assert(list@ =~= prf_candidates());
    first_of(proposal, transform_type::PRF, &list)
}

/// The integrity algorithm `proposal` is answered with under a classic cipher.
fn pick_integ(proposal: &Proposal) -> (id: Option<u16>)
    ensures
        id == first_offered(proposal@.transforms, transform_type::INTEG, integ_candidates()),
{
    let list: Vec<u16> = vec![
        transform_id::AUTH_HMAC_SHA2_512_256,
        transform_id::AUTH_HMAC_SHA2_384_192,
        transform_id::AUTH_HMAC_SHA2_256_128,
        transform_id::AUTH_HMAC_SHA1_96,
    ];
    assert(list@ =~= integ_candidates());
    first_of(proposal, transform_type::INTEG, &list)
}

/// The DH group `id` names, if IKEv2 may run it: one of the candidates, so
/// never MODP-768, which RFC 8247 §2.4 forbids. Transform Type 4 is one
/// registry for the IKE SA and a CHILD SA's PFS alike (RFC 7296 §3.3.2), so
/// the same list holds for both.
pub fn ikev2_dh_group(id: u16) -> (group: Option<DhGroup>)
    ensures
        group == (if dh_candidates().contains(id) {
            DhGroup::named(id)
        } else {
            None
        }),
{
    let list = groups();
    for i in 0..list.len()
        invariant
            list@ == dh_candidates(),
            forall|j: int| 0 <= j < i ==> list@[j] != id,
    {
        if list[i] == id {
            assert(dh_candidates().contains(id));
            return DhGroup::from_transform_id(id);
        }
    }
    None
}

/// The suite we choose from `proposal`, if it is acceptable.
pub fn select_from_proposal(proposal: &Proposal) -> (suite: Option<ChosenSuite>)
    ensures
        suite == suite_of(proposal@),
        suite matches Some(suite) ==> suite.runnable(),
{
    if proposal.protocol_id != protocol_id::IKE {
        return None;
    }
    // RFC 7296 §3.3.6: "If the responder receives a proposal that contains a
    // Transform Type it does not understand ... it MUST consider this proposal
    // unacceptable".
    for i in 0..proposal.transforms.len()
        invariant
            proposal.protocol_id == protocol_id::IKE,
            forall|j: int|
                0 <= j < i ==> ike_transform_type((#[trigger] proposal.transforms@[j]).transform_type),
    {
        let ttype: u8 = proposal.transforms[i].transform_type;
        if ttype != transform_type::ENCR && ttype != transform_type::PRF && ttype != transform_type::INTEG && ttype
            != transform_type::DH && ttype != transform_type::ESN {
            assert(!ike_transform_type(proposal@.transforms[i as int].transform_type));
            return None;
        }
    }
    let dh_id: u16 = match first_of(proposal, transform_type::DH, &groups()) {
        Some(id) => id,
        None => {
            return None;
        },
    };
    // §2.7: the accepted suite "MUST contain exactly one transform of each
    // type included in the proposal", so one that lists integrity algorithms
    // needs one of them answered -- which for a combined-mode cipher can only
    // be NONE (§3.3).
    let aead_fits = !offers_type(proposal, transform_type::INTEG) || offers(
        proposal,
        transform_type::INTEG,
        transform_id::INTEG_NONE,
        None,
    );
    let list = ciphers();
    proof {
        lemma_candidates_run(proposal@.transforms);
    }
    assert(list@.skip(0) =~= list@);
    for i in 0..list.len()
        invariant
            list@ == encr_candidates(),
            suite_of(proposal@) == suite_with(proposal@, encr_candidates().skip(i as int), dh_id),
            DhGroup::named(dh_id) is Some,
            aead_fits == (!has_type(proposal@.transforms, transform_type::INTEG)
                || proposal@.transforms.contains(plain(transform_type::INTEG, transform_id::INTEG_NONE))),
            first_offered(proposal@.transforms, transform_type::PRF, prf_candidates()) matches Some(
                id,
            ) ==> PrfAlgorithm::named(id) is Some,
            first_offered(proposal@.transforms, transform_type::INTEG, integ_candidates()) matches Some(
                id,
            ) ==> IntegAlgorithm::named(id) is Some && id != transform_id::INTEG_NONE,
    {
        proof {
            let rest = encr_candidates().skip(i as int);
            assert(rest[0] == encr_candidates()[i as int]);
            assert(rest.drop_first() =~= encr_candidates().skip(i + 1));
        }
        let cipher = list[i];
        if offers(proposal, transform_type::ENCR, cipher.id, cipher.key_length) {
            let encr_key_bits: u16 = match cipher.key_length {
                Some(bits) => bits,
                None => match fixed_key_bits(cipher.id) {
                    Some(bits) => bits,
                    None => 0,
                },
            };
            let integ_id = if cipher.aead {
                None
            } else {
                pick_integ(proposal)
            };
            let integ_fits = if cipher.aead {
                aead_fits
            } else {
                integ_id.is_some()
            };
            if integ_fits {
                if let Some(prf_id) = pick_prf(proposal) {
                    return Some(
                        ChosenSuite {
                            proposal_num: proposal.num,
                            encr_id: cipher.id,
                            encr_key_bits,
                            prf_id,
                            integ_id,
                            dh_id,
                        },
                    );
                }
            }
        }
    }
    assert(encr_candidates().skip(list@.len() as int) =~= Seq::<EncrCandidate>::empty());
    None
}

/// How many of `transforms` are of this type.
pub open spec fn count_of(transforms: Seq<Transform>, transform_type: u8) -> nat
    decreases transforms.len(),
{
    if transforms.len() == 0 {
        0
    } else {
        count_of(transforms.drop_last(), transform_type) + if transforms.last().transform_type
            == transform_type {
            1nat
        } else {
            0
        }
    }
}

/// Whether `answered` takes `offered` up: each of its transforms is one that was
/// offered, attributes and all, and it has exactly one of each type the offer
/// includes (RFC 7296 §2.7, §3.3.6).
///
/// Two leniencies, both meaning "nothing": the ESN transform may be left out
/// where no ESN was on offer, and an ESP answer may spell out that there is no
/// Diffie-Hellman exchange where none was offered.
pub open spec fn takes_up(answered: Offered, offered: Offered) -> bool {
    &&& forall|i: int|
        0 <= i < answered.transforms.len() ==> {
            &&& count_of(answered.transforms, (#[trigger] answered.transforms[i]).transform_type) == 1
            &&& offered.transforms.contains(answered.transforms[i]) || (answered.protocol_id == protocol_id::ESP
                && answered.transforms[i] == plain(transform_type::DH, transform_id::DH_NONE)
                && count_of(offered.transforms, transform_type::DH) == 0)
        }
    &&& forall|i: int|
        0 <= i < offered.transforms.len() ==> {
            ||| count_of(answered.transforms, (#[trigger] offered.transforms[i]).transform_type) == 1
            ||| offered.transforms[i].transform_type == transform_type::ESN && offered.transforms.contains(
                plain(transform_type::ESN, transform_id::ESN_NONE),
            )
        }
}

/// The index of the first of `proposals`, from `from` on, with this number and protocol.
pub open spec fn counterpart(proposals: Seq<Offered>, num: u8, protocol_id: u8, from: int) -> Option<int>
    decreases proposals.len() - from,
{
    if from < 0 || from >= proposals.len() {
        None
    } else if proposals[from].num == num && proposals[from].protocol_id == protocol_id {
        Some(from)
    } else {
        counterpart(proposals, num, protocol_id, from + 1)
    }
}

/// Whether `answer` is a single proposal that takes up the one of `offer` with
/// its number and protocol.
pub open spec fn accepts(answer: Seq<Offered>, offer: Seq<Offered>) -> bool {
    answer.len() == 1 && match counterpart(offer, answer[0].num, answer[0].protocol_id, 0) {
        None => false,
        Some(i) => takes_up(answer[0], offer[i]),
    }
}

/// How many of `transforms` are of this type.
fn count(transforms: &Vec<Transform>, ttype: u8) -> (n: usize)
    ensures
        n == count_of(transforms@, ttype),
{
    let mut n: usize = 0;
    assert(transforms@.take(0) =~= Seq::<Transform>::empty());
    for i in 0..transforms.len()
        invariant
            n <= i,
            n == count_of(transforms@.take(i as int), ttype),
    {
        assert(transforms@.take(i + 1).drop_last() =~= transforms@.take(i as int));
        if transforms[i].transform_type == ttype {
            n = n + 1;
        }
    }
    assert(transforms@.take(transforms@.len() as int) =~= transforms@);
    n
}

/// Whether `answered` takes `offered` up.
fn is_taken_up(answered: &Proposal, offered: &Proposal) -> (consistent: bool)
    ensures
        consistent == takes_up(answered@, offered@),
{
    let dh_none = Transform {
        transform_type: transform_type::DH,
        transform_id: transform_id::DH_NONE,
        key_length: None,
    };
    let esn_none = Transform {
        transform_type: transform_type::ESN,
        transform_id: transform_id::ESN_NONE,
        key_length: None,
    };
    let no_pfs = answered.protocol_id == protocol_id::ESP && count(&offered.transforms, transform_type::DH) == 0;
    let no_esn = holds(&offered.transforms, &esn_none);
    for i in 0..answered.transforms.len()
        invariant
            dh_none == plain(transform_type::DH, transform_id::DH_NONE),
            no_pfs == (answered@.protocol_id == protocol_id::ESP && count_of(
                offered@.transforms,
                transform_type::DH,
            ) == 0),
            forall|j: int|
                0 <= j < i ==> {
                    &&& count_of(answered@.transforms, (#[trigger] answered@.transforms[j]).transform_type) == 1
                    &&& offered@.transforms.contains(answered@.transforms[j]) || (no_pfs
                        && answered@.transforms[j] == dh_none)
                },
    {
        let transform = &answered.transforms[i];
        assert(*transform == answered@.transforms[i as int]);
        if count(&answered.transforms, transform.transform_type) != 1 {
            return false;
        }
        if !holds(&offered.transforms, transform) && !(no_pfs && transform.same(&dh_none)) {
            return false;
        }
    }
    for i in 0..offered.transforms.len()
        invariant
            no_esn == offered@.transforms.contains(plain(transform_type::ESN, transform_id::ESN_NONE)),
            forall|j: int|
                0 <= j < i ==> {
                    ||| count_of(answered@.transforms, (#[trigger] offered@.transforms[j]).transform_type) == 1
                    ||| offered@.transforms[j].transform_type == transform_type::ESN && no_esn
                },
    {
        let ttype: u8 = offered.transforms[i].transform_type;
        assert(ttype == offered@.transforms[i as int].transform_type);
        if count(&answered.transforms, ttype) != 1 && !(ttype == transform_type::ESN && no_esn) {
            return false;
        }
    }
    true
}

/// The one proposal of `answer`, the SA payload a responder took our `offer`
/// with, provided the answer is "consistent with one of [our] proposals"
/// (RFC 7296 §3.3.6): a single proposal, with the number and of the protocol of
/// the one of ours it accepts, with exactly one transform of each type included
/// in that proposal, each one we offered in it, attributes and all. The SPI
/// isn't compared: the answer carries the responder's own.
///
/// `NoProposalChosen` when the answer is anything else.
pub fn accepted_proposal<'a>(
    answer: &'a SecurityAssociation,
    offer: &SecurityAssociation,
) -> (accepted: Result<&'a Proposal, IkeError>)
    ensures
        match accepted {
            Ok(proposal) => accepts(answer@, offer@) && proposal@ == answer@[0],
            Err(error) => !accepts(answer@, offer@) && error@ == Failure::NoProposalChosen,
        },
{
    if answer.proposals.len() != 1 {
        return Err(IkeError::NoProposalChosen);
    }
    let answered = &answer.proposals[0];
    assert(answered@ == answer@[0]);
    let mut i: usize = 0;
    while i < offer.proposals.len() && !(offer.proposals[i].num == answered.num && offer.proposals[i].protocol_id
        == answered.protocol_id)
        invariant
            i <= offer.proposals@.len(),
            counterpart(offer@, answered@.num, answered@.protocol_id, 0) == counterpart(
                offer@,
                answered@.num,
                answered@.protocol_id,
                i as int,
            ),
        decreases offer.proposals@.len() - i,
    {
        assert(offer@[i as int] == offer.proposals@[i as int]@);
        i = i + 1;
    }
    if i == offer.proposals.len() {
        return Err(IkeError::NoProposalChosen);
    }
    assert(offer@[i as int] == offer.proposals@[i as int]@);
    if is_taken_up(answered, &offer.proposals[i]) {
        Ok(answered)
    } else {
        Err(IkeError::NoProposalChosen)
    }
}

/// The ESP CHILD SA cipher named by an `SAr2`/`SAi2` payload: the
/// ENCR and INTEG transforms the peer selected from our offer. Unlike
/// [`ChosenSuite`], which *we* choose from among several offered IKE
/// proposals, this reads back a single already-resolved transform per
/// type from the peer's answer -- there is no PRF (ESP has none), and a PFS
/// group is not looked at.
#[derive(Debug, Clone, Copy, PartialEq, Eq)]
pub struct ChosenEspSuite {
    pub encr_id: u16,
    pub encr_key_bits: u16,
    pub integ_id: Option<u16>,
    /// Whether the proposal named `ESN_ENABLED` -- an absent ESN transform
    /// (some peers omit it) is taken as `false`.
    pub esn: bool,
}

/// The first of `transforms`, from `from` on, of this type.
pub open spec fn first_of_type(transforms: Seq<Transform>, transform_type: u8, from: int) -> Option<Transform>
    decreases transforms.len() - from,
{
    if from < 0 || from >= transforms.len() {
        None
    } else if transforms[from].transform_type == transform_type {
        Some(transforms[from])
    } else {
        first_of_type(transforms, transform_type, from + 1)
    }
}

/// Whether a transform of this type and ID is among `transforms`, whatever its
/// attributes.
pub open spec fn names(transforms: Seq<Transform>, transform_type: u8, transform_id: u16) -> bool {
    exists|i: int|
        0 <= i < transforms.len() && (#[trigger] transforms[i]).transform_type == transform_type
            && transforms[i].transform_id == transform_id
}

/// The index of the first ESP proposal of `proposals` from `from` on.
pub open spec fn first_esp(proposals: Seq<Offered>, from: int) -> Option<int>
    decreases proposals.len() - from,
{
    if from < 0 || from >= proposals.len() {
        None
    } else if proposals[from].protocol_id == protocol_id::ESP {
        Some(from)
    } else {
        first_esp(proposals, from + 1)
    }
}

/// The suite the first transforms of each type in `transforms` name.
pub open spec fn esp_suite_of(transforms: Seq<Transform>) -> Option<ChosenEspSuite> {
    match first_of_type(transforms, transform_type::ENCR, 0) {
        None => None,
        Some(encr) => {
            let bits = if encr.key_length is Some {
                encr.key_length
            } else {
                fixed_bits(encr.transform_id)
            };
            match bits {
                None => None,
                Some(bits) => Some(
                    ChosenEspSuite {
                        encr_id: encr.transform_id,
                        encr_key_bits: bits,
                        integ_id: match first_of_type(transforms, transform_type::INTEG, 0) {
                            Some(integ) => Some(integ.transform_id),
                            None => None,
                        },
                        esn: names(transforms, transform_type::ESN, transform_id::ESN_ENABLED),
                    },
                ),
            }
        },
    }
}

/// The suite the first ESP proposal of `proposals` names.
pub open spec fn selected_esp(proposals: Seq<Offered>) -> Option<ChosenEspSuite> {
    match first_esp(proposals, 0) {
        None => None,
        Some(i) => esp_suite_of(proposals[i].transforms),
    }
}

impl ChosenEspSuite {
    /// The cipher this suite names, if it is one we implement.
    pub open spec fn cipher(self) -> Option<SkCipher> {
        SkCipher::named(self.encr_id, self.encr_key_bits, self.integ_id)
    }

    /// Whether `transforms` offers every transform this suite names. No integrity
    /// algorithm fits only an offer without any; no ESN transform means no ESN.
    pub open spec fn within_transforms(self, transforms: Seq<Transform>) -> bool {
        &&& transforms.contains(
            Transform {
                transform_type: transform_type::ENCR,
                transform_id: self.encr_id,
                key_length: wire_key_length(self.encr_id, self.encr_key_bits),
            },
        )
        &&& match self.integ_id {
            Some(id) => transforms.contains(plain(transform_type::INTEG, id)),
            None => !has_type(transforms, transform_type::INTEG),
        }
        &&& if has_type(transforms, transform_type::ESN) {
            names(
                transforms,
                transform_type::ESN,
                if self.esn {
                    transform_id::ESN_ENABLED
                } else {
                    transform_id::ESN_NONE
                },
            )
        } else {
            !self.esn
        }
    }

    /// Whether one of the ESP proposals of `offer` offers every transform this
    /// suite names.
    pub open spec fn within(self, offer: Seq<Offered>) -> bool {
        exists|i: int|
            0 <= i < offer.len() && (#[trigger] offer[i]).protocol_id == protocol_id::ESP
                && self.within_transforms(offer[i].transforms)
    }

    /// The cipher this suite implies. `None` if the peer named an ENCR and
    /// INTEG combination we do not implement.
    pub fn sk_cipher(&self) -> (cipher: Option<SkCipher>)
        ensures
            cipher == self.cipher(),
    {
        SkCipher::from_encr_integ(self.encr_id, self.encr_key_bits, self.integ_id)
    }

    /// Whether every transform this suite names was actually present in one
    /// of `offer`'s ESP proposals -- any of them: the answer's proposal
    /// number says which ([`accepted_proposal`] holds it to that). RFC 7296
    /// §2.7 requires the peer's answer to be built from the ESP proposal *we*
    /// sent. Without this check, a misbehaving or on-path peer could answer
    /// e.g. AES-CBC-128 with HMAC-SHA1 to an AES-GCM-256-only offer, or turn
    /// ESN on when we only offered `ESN_NONE`.
    pub fn matches_offer(&self, offer: &SecurityAssociation) -> (matches: bool)
        ensures
            matches == self.within(offer@),
    {
        for i in 0..offer.proposals.len()
            invariant
                forall|j: int|
                    0 <= j < i && (#[trigger] offer@[j]).protocol_id == protocol_id::ESP
                        ==> !self.within_transforms(offer@[j].transforms),
        {
            assert(offer@[i as int] == offer.proposals@[i as int]@);
            if offer.proposals[i].protocol_id == protocol_id::ESP && self.matches_proposal(&offer.proposals[i]) {
                return true;
            }
        }
        false
    }

    fn matches_proposal(&self, proposal: &Proposal) -> (matches: bool)
        ensures
            matches == self.within_transforms(proposal@.transforms),
    {
        let key_length = if fixed_key_bits(self.encr_id).is_some() {
            None
        } else {
            Some(self.encr_key_bits)
        };
        if !offers(proposal, transform_type::ENCR, self.encr_id, key_length) {
            return false;
        }
        match self.integ_id {
            Some(integ) => {
                if !offers(proposal, transform_type::INTEG, integ, None) {
                    return false;
                }
            },
            None => {
                if offers_type(proposal, transform_type::INTEG) {
                    return false;
                }
            },
        }
        let esn_id: u16 = if self.esn {
            transform_id::ESN_ENABLED
        } else {
            transform_id::ESN_NONE
        };
        if offers_type(proposal, transform_type::ESN) {
            names_transform(proposal, transform_type::ESN, esn_id)
        } else {
            !self.esn
        }
    }
}

/// Whether `proposal` names a transform of this type and ID, whatever its attributes.
pub(crate) fn names_transform(proposal: &Proposal, ttype: u8, id: u16) -> (found: bool)
    ensures
        found == names(proposal@.transforms, ttype, id),
{
    for i in 0..proposal.transforms.len()
        invariant
            forall|j: int|
                0 <= j < i ==> !((#[trigger] proposal@.transforms[j]).transform_type == ttype
                    && proposal@.transforms[j].transform_id == id),
    {
        assert(proposal@.transforms[i as int] == proposal.transforms@[i as int]);
        if proposal.transforms[i].transform_type == ttype && proposal.transforms[i].transform_id == id {
            return true;
        }
    }
    false
}

/// The first transform of this type in `proposal`.
pub(crate) fn first_transform(proposal: &Proposal, ttype: u8) -> (transform: Option<Transform>)
    ensures
        transform == first_of_type(proposal@.transforms, ttype, 0),
{
    for i in 0..proposal.transforms.len()
        invariant
            first_of_type(proposal@.transforms, ttype, 0) == first_of_type(
                proposal@.transforms,
                ttype,
                i as int,
            ),
    {
        if proposal.transforms[i].transform_type == ttype {
            return Some(proposal.transforms[i]);
        }
    }
    None
}

/// The first ESP proposal of `sa`.
pub(crate) fn esp_proposal(sa: &SecurityAssociation) -> (proposal: Option<&Proposal>)
    ensures
        match proposal {
            None => first_esp(sa@, 0) is None,
            Some(proposal) => {
                &&& first_esp(sa@, 0) matches Some(i)
                &&& 0 <= i < sa@.len()
                &&& proposal@ == sa@[i]
            },
        },
{
    for i in 0..sa.proposals.len()
        invariant
            first_esp(sa@, 0) == first_esp(sa@, i as int),
    {
        assert(sa@[i as int] == sa.proposals@[i as int]@);
        if sa.proposals[i].protocol_id == protocol_id::ESP {
            return Some(&sa.proposals[i]);
        }
    }
    None
}

/// Extract the [`ChosenEspSuite`] from an ESP proposal (`SAr2`/`SAi2`).
/// `None` if `sa` carries no ESP proposal, or that proposal has no ENCR
/// transform with a key size (a malformed peer answer).
pub fn select_esp(sa: &SecurityAssociation) -> (suite: Option<ChosenEspSuite>)
    ensures
        suite == selected_esp(sa@),
{
    let proposal = match esp_proposal(sa) {
        Some(proposal) => proposal,
        None => {
            return None;
        },
    };
    let encr = match first_transform(proposal, transform_type::ENCR) {
        Some(encr) => encr,
        None => {
            return None;
        },
    };
    let encr_key_bits: u16 = match encr.key_length {
        Some(bits) => bits,
        None => match fixed_key_bits(encr.transform_id) {
            Some(bits) => bits,
            None => {
                return None;
            },
        },
    };
    let integ_id = match first_transform(proposal, transform_type::INTEG) {
        Some(integ) => Some(integ.transform_id),
        None => None,
    };
    let esn = names_transform(proposal, transform_type::ESN, transform_id::ESN_ENABLED);
    Some(ChosenEspSuite { encr_id: encr.transform_id, encr_key_bits, integ_id, esn })
}

/// What is selected is one of the proposals, and what it yields.
pub proof fn lemma_selected(proposals: Seq<Offered>)
    ensures
        selected(proposals) matches Some((i, suite)) ==> 0 <= i < proposals.len() && suite_of(proposals[i]) == Some(
            suite,
        ),
{
    lemma_selected_from(proposals, 0);
}

proof fn lemma_selected_from(proposals: Seq<Offered>, from: int)
    requires
        0 <= from,
    ensures
        selected_from(proposals, from) matches Some((i, suite)) ==> from <= i < proposals.len() && suite_of(
            proposals[i],
        ) == Some(suite),
    decreases proposals.len() - from,
{
    if from < proposals.len() && suite_of(proposals[from]) is None {
        lemma_selected_from(proposals, from + 1);
    }
}

proof fn lemma_suite_with(proposal: Offered, ciphers: Seq<EncrCandidate>, dh_id: u16)
    requires
        forall|i: int|
            0 <= i < ciphers.len() ==> (#[trigger] ciphers[i]).key_length is None == fixed_bits(ciphers[i].id) is Some,
    ensures
        suite_with(proposal, ciphers, dh_id) matches Some(suite) ==> {
            &&& suite.proposal_num == proposal.num
            &&& suite.dh_id == dh_id
            &&& proposal.transforms.contains(suite.encr())
            &&& proposal.transforms.contains(plain(transform_type::PRF, suite.prf_id))
            &&& suite.integ_id matches Some(id) ==> proposal.transforms.contains(
                plain(transform_type::INTEG, id),
            )
            &&& suite.integ_id is None && has_type(proposal.transforms, transform_type::INTEG)
                ==> proposal.transforms.contains(plain(transform_type::INTEG, transform_id::INTEG_NONE))
        },
    decreases ciphers.len(),
{
    if ciphers.len() > 0 {
        assert(ciphers[0].key_length is None == fixed_bits(ciphers[0].id) is Some);
        lemma_first_offered_is_one(proposal.transforms, transform_type::PRF, prf_candidates());
        lemma_first_offered_is_one(proposal.transforms, transform_type::INTEG, integ_candidates());
        assert forall|i: int| 0 <= i < ciphers.drop_first().len() implies (#[trigger] ciphers.drop_first()[i]).key_length is None
            == fixed_bits(ciphers.drop_first()[i].id) is Some by {
            assert(ciphers.drop_first()[i] == ciphers[i + 1]);
        }
        lemma_suite_with(proposal, ciphers.drop_first(), dh_id);
    }
}

/// What we choose from an offer is in it: every transform of the suite stands
/// in the proposal it was chosen from.
pub proof fn law_choice_is_offered(proposal: Offered)
    ensures
        suite_of(proposal) matches Some(suite) ==> {
            &&& suite.proposal_num == proposal.num
            &&& suite.within(seq![proposal])
            &&& forall|i: int|
                0 <= i < suite.transforms(has_type(proposal.transforms, transform_type::INTEG)).len()
                    ==> proposal.transforms.contains(
                    #[trigger] suite.transforms(has_type(proposal.transforms, transform_type::INTEG))[i],
                )
        },
{
    if let Some(suite) = suite_of(proposal) {
        let dh_id = first_offered(proposal.transforms, transform_type::DH, dh_candidates())->0;
        lemma_first_offered_is_one(proposal.transforms, transform_type::DH, dh_candidates());
        lemma_suite_with(proposal, encr_candidates(), dh_id);
        assert(numbered(seq![proposal], proposal.num, 0) == Some(0int));
    }
}

/// Whether an answer can take up what is chosen from `offer`: no proposal before
/// the chosen one has its number, and it carries no ESN transform other than none,
/// which no IKE answer repeats.
pub open spec fn answerable(offer: Seq<Offered>) -> bool {
    selected(offer) matches Some((i, _)) ==> {
        &&& forall|j: int| 0 <= j < i ==> (#[trigger] offer[j]).num != offer[i].num
        &&& has_type(offer[i].transforms, transform_type::ESN) ==> offer[i].transforms.contains(
            plain(transform_type::ESN, transform_id::ESN_NONE),
        )
    }
}

proof fn lemma_found_by_number(offer: Seq<Offered>, i: int, from: int)
    requires
        0 <= from <= i < offer.len(),
        forall|j: int| 0 <= j < i ==> (#[trigger] offer[j]).num != offer[i].num,
    ensures
        numbered(offer, offer[i].num, from) == Some(i),
        counterpart(offer, offer[i].num, offer[i].protocol_id, from) == Some(i),
    decreases i - from,
{
    if from < i {
        lemma_found_by_number(offer, i, from + 1);
    }
}

/// An initiator accepts what a responder answers from its offer: the answer with
/// the suite chosen takes the offer up, and the suite is within it.
pub proof fn law_answer_is_accepted(offer: Seq<Offered>)
    requires
        answerable(offer),
    ensures
        selected(offer) matches Some((i, suite)) ==> {
            &&& accepts(seq![suite.proposed(has_type(offer[i].transforms, transform_type::INTEG))], offer)
            &&& suite.within(offer)
        },
{
    if let Some((i, suite)) = selected(offer) {
        lemma_selected(offer);
        law_choice_is_offered(offer[i]);
        lemma_choice_is_taken_up(offer[i]);
        lemma_found_by_number(offer, i, 0);
        lemma_found_by_number(seq![offer[i]], 0, 0);
    }
}

proof fn lemma_choice_is_taken_up(proposal: Offered)
    requires
        suite_of(proposal) is Some,
        has_type(proposal.transforms, transform_type::ESN) ==> proposal.transforms.contains(
            plain(transform_type::ESN, transform_id::ESN_NONE),
        ),
    ensures
        takes_up(suite_of(proposal)->0.proposed(has_type(proposal.transforms, transform_type::INTEG)), proposal),
{
    let suite = suite_of(proposal)->0;
    let none = has_type(proposal.transforms, transform_type::INTEG);
    let answered = suite.proposed(none);
    let transforms = suite.transforms(none);
    law_choice_is_offered(proposal);
    let dh_id = first_offered(proposal.transforms, transform_type::DH, dh_candidates())->0;
    lemma_suite_with(proposal, encr_candidates(), dh_id);
    assert(count_of(transforms, transform_type::ENCR) == 1 && count_of(transforms, transform_type::PRF) == 1
        && count_of(transforms, transform_type::DH) == 1 && count_of(transforms, transform_type::INTEG) == if suite.integ_id is Some || none {
        1nat
    } else {
        0
    }) by {
        reveal_with_fuel(count_of, 5);
        if suite.integ_id is Some || none {
            assert(transforms.len() == 4);
            assert(transforms[2].transform_type == transform_type::INTEG);
        } else {
            assert(transforms.len() == 3);
        }
    }
    assert forall|i: int| 0 <= i < proposal.transforms.len() implies {
        ||| count_of(answered.transforms, (#[trigger] proposal.transforms[i]).transform_type) == 1
        ||| proposal.transforms[i].transform_type == transform_type::ESN && proposal.transforms.contains(
            plain(transform_type::ESN, transform_id::ESN_NONE),
        )
    } by {
        assert(ike_transform_type(proposal.transforms[i].transform_type));
    }
}

proof fn lemma_first_offered_only(transforms: Seq<Transform>, transform_type: u8, ids: Seq<u16>, id: u16)
    requires
        ids.contains(id),
        transforms.contains(plain(transform_type, id)),
        forall|other: u16| #[trigger]
            transforms.contains(plain(transform_type, other)) && ids.contains(other) ==> other == id,
    ensures
        first_offered(transforms, transform_type, ids) == Some(id),
    decreases ids.len(),
{
    if ids.len() > 0 {
        if !transforms.contains(plain(transform_type, ids[0])) {
            let rest = ids.drop_first();
            let i = choose|i: int| 0 <= i < ids.len() && ids[i] == id;
            assert(rest[i - 1] == id);
            assert forall|other: u16| #[trigger]
                transforms.contains(plain(transform_type, other)) && rest.contains(other) implies other == id by {
                let j = choose|j: int| 0 <= j < rest.len() && rest[j] == other;
                assert(ids[j + 1] == other);
            }
            lemma_first_offered_only(transforms, transform_type, rest, id);
        } else {
            assert(ids.contains(ids[0]));
        }
    }
}

/// The transform of a candidate cipher.
spec fn candidate_transform(cipher: EncrCandidate) -> Transform {
    Transform { transform_type: transform_type::ENCR, transform_id: cipher.id, key_length: cipher.key_length }
}

proof fn lemma_suite_with_source(proposal: Offered, ciphers: Seq<EncrCandidate>, dh_id: u16)
    ensures
        suite_with(proposal, ciphers, dh_id) matches Some(suite) ==> exists|i: int|
            0 <= i < ciphers.len() && made_with(proposal, #[trigger] ciphers[i], suite),
    decreases ciphers.len(),
{
    if ciphers.len() > 0 {
        let rest = ciphers.drop_first();
        lemma_suite_with_source(proposal, rest, dh_id);
        if let Some(suite) = suite_with(proposal, ciphers, dh_id) {
            if suite_with(proposal, rest, dh_id) == Some(suite) && !made_with(proposal, ciphers[0], suite) {
                let i = choose|i: int| 0 <= i < rest.len() && made_with(proposal, #[trigger] rest[i], suite);
                assert(ciphers[i + 1] == rest[i]);
            } else {
                assert(made_with(proposal, ciphers[0], suite));
            }
        }
    }
}

/// Whether `suite` is what `cipher` makes of `proposal`.
spec fn made_with(proposal: Offered, cipher: EncrCandidate, suite: ChosenSuite) -> bool {
    &&& suite.encr_id == cipher.id
    &&& suite.encr_key_bits == match cipher.key_length {
        Some(bits) => bits,
        None => fixed_bits(cipher.id).unwrap(),
    }
    &&& Some(suite.prf_id) == first_offered(proposal.transforms, transform_type::PRF, prf_candidates())
    &&& suite.integ_id == if cipher.aead {
        None
    } else {
        first_offered(proposal.transforms, transform_type::INTEG, integ_candidates())
    }
    &&& !cipher.aead ==> suite.integ_id is Some
}

proof fn lemma_suite_with_only(
    proposal: Offered,
    ciphers: Seq<EncrCandidate>,
    dh_id: u16,
    suite: ChosenSuite,
    cipher: EncrCandidate,
)
    requires
        ciphers.contains(cipher),
        made_with(proposal, cipher, suite),
        proposal.num == suite.proposal_num,
        dh_id == suite.dh_id,
        proposal.transforms.contains(candidate_transform(cipher)),
        cipher.aead ==> !has_type(proposal.transforms, transform_type::INTEG) || proposal.transforms.contains(
            plain(transform_type::INTEG, transform_id::INTEG_NONE),
        ),
        forall|other: EncrCandidate|
            ciphers.contains(other) && proposal.transforms.contains(#[trigger] candidate_transform(other))
                ==> other == cipher,
    ensures
        suite_with(proposal, ciphers, dh_id) == Some(suite),
    decreases ciphers.len(),
{
    let first = ciphers[0];
    if proposal.transforms.contains(candidate_transform(first)) {
        assert(ciphers.contains(first));
    } else {
        let rest = ciphers.drop_first();
        let i = choose|i: int| 0 <= i < ciphers.len() && ciphers[i] == cipher;
        assert(rest[i - 1] == cipher);
        assert forall|other: EncrCandidate|
            rest.contains(other) && proposal.transforms.contains(#[trigger] candidate_transform(other)) implies other
            == cipher by {
            let j = choose|j: int| 0 <= j < rest.len() && rest[j] == other;
            assert(ciphers[j + 1] == other);
        }
        lemma_suite_with_only(proposal, rest, dh_id, suite, cipher);
    }
}

/// Whether this is a suite that may be chosen: its algorithms are among those we
/// choose from.
pub open spec fn eligible(suite: ChosenSuite) -> bool {
    &&& suite.runnable()
    &&& prf_candidates().contains(suite.prf_id)
    &&& dh_candidates().contains(suite.dh_id)
    &&& suite.integ_id matches Some(id) ==> integ_candidates().contains(id)
}

/// A proposal that names one suite, with algorithms we choose from, is answered with
/// that suite.
pub proof fn law_single_suite_is_chosen(suite: ChosenSuite, none: bool)
    requires
        eligible(suite),
    ensures
        suite_of(suite.proposed(none)) == Some(suite),
        selected(seq![suite.proposed(none)]) == Some((0int, suite)),
{
    let answer = suite.proposed(none);
    let transforms = answer.transforms;
    let all = encr_candidates();
    let aead = suite.integ_id is None;
    let cipher = EncrCandidate {
        id: suite.encr_id,
        key_length: wire_key_length(suite.encr_id, suite.encr_key_bits),
        aead,
    };
    assert(all[0].aead && all[1].aead && all[2].aead && all[3].aead && !all[4].aead && !all[5].aead && !all[6].aead
        && !all[7].aead);
    assert(cipher == all[0] || cipher == all[1] || cipher == all[2] || cipher == all[3] || cipher == all[4] || cipher
        == all[5] || cipher == all[6] || cipher == all[7]);
    assert(all.contains(cipher));
    assert(transforms[0] == candidate_transform(cipher));
    assert(transforms[1] == plain(transform_type::PRF, suite.prf_id));
    assert(transforms.last() == plain(transform_type::DH, suite.dh_id));
    assert(transforms.len() <= 4);
    assert forall|i: int| 0 <= i < transforms.len() implies ike_transform_type(
        (#[trigger] transforms[i]).transform_type,
    ) by {}
    assert(transforms.contains(transforms[0]) && transforms.contains(transforms[1]) && transforms.contains(
        transforms[transforms.len() - 1],
    ));
    lemma_first_offered_only(transforms, transform_type::DH, dh_candidates(), suite.dh_id);
    lemma_first_offered_only(transforms, transform_type::PRF, prf_candidates(), suite.prf_id);
    if let Some(id) = suite.integ_id {
        assert(transforms[2] == plain(transform_type::INTEG, id));
        assert(transforms.contains(transforms[2]));
        lemma_first_offered_only(transforms, transform_type::INTEG, integ_candidates(), id);
    } else if none {
        assert(transforms[2] == plain(transform_type::INTEG, transform_id::INTEG_NONE));
        assert(transforms.contains(transforms[2]));
    }
    lemma_suite_with_only(answer, all, suite.dh_id, suite, cipher);
    assert(selected_from(seq![answer], 0) == Some((0int, suite)));
}

/// What a responder answers names the suite it chose: whoever reads the answer
/// with the same preferences arrives at the same suite.
pub proof fn law_answer_names_the_choice(proposal: Offered)
    ensures
        suite_of(proposal) matches Some(suite) ==> selected_suite(
            seq![suite.proposed(has_type(proposal.transforms, transform_type::INTEG))],
        ) == Some(suite),
{
    lemma_chosen_runs(proposal);
    if let Some(suite) = suite_of(proposal) {
        law_single_suite_is_chosen(suite, has_type(proposal.transforms, transform_type::INTEG));
    }
}

/// The algorithms of a suite that was chosen are ones we run.
pub proof fn lemma_chosen_runs(proposal: Offered)
    ensures
        suite_of(proposal) matches Some(suite) ==> eligible(suite) && DhGroup::named(suite.dh_id)->0.id()
            == suite.dh_id,
{
    lemma_candidates_run(proposal.transforms);
    lemma_first_offered_is_one(proposal.transforms, transform_type::PRF, prf_candidates());
    lemma_first_offered_is_one(proposal.transforms, transform_type::INTEG, integ_candidates());
    lemma_first_offered_is_one(proposal.transforms, transform_type::DH, dh_candidates());
    if let Some(suite) = suite_of(proposal) {
        let dh_id = first_offered(proposal.transforms, transform_type::DH, dh_candidates())->0;
        lemma_suite_with(proposal, encr_candidates(), dh_id);
        lemma_suite_with_source(proposal, encr_candidates(), dh_id);
        let c = choose|i: int|
            0 <= i < encr_candidates().len() && made_with(proposal, #[trigger] encr_candidates()[i], suite);
        assert(made_with(proposal, encr_candidates()[c], suite));
        assert(suite.cipher() is Some);
    }
}

} // verus!
