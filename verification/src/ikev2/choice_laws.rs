//! Which suite is chosen of a peer's proposals, and which answer to ours is taken,
//! stated over the numbers of the transforms that were offered.

use vstd::prelude::*;

use crate::crypto::DhGroup;
use crate::error::Failure;
use crate::ikev2::exchange;
use crate::ikev2::negotiate;
use crate::ikev2::negotiate::{ChosenSuite, EncrCandidate};
use crate::ikev2::payload::sa::{Offered, Transform};

verus! {

/// Whether a proposal offers this transform, with this Key Length or none.
pub open spec fn offers(proposal: Offered, transform_type: u8, transform_id: u16, key_length: Option<u16>) -> bool {
    exists|i: int|
        0 <= i < proposal.transforms.len() && #[trigger] proposal.transforms[i] == (Transform {
            transform_type,
            transform_id,
            key_length,
        })
}

/// Whether a proposal has any transform of this type.
pub open spec fn offers_any(proposal: Offered, transform_type: u8) -> bool {
    exists|i: int| 0 <= i < proposal.transforms.len() && (#[trigger] proposal.transforms[i]).transform_type == transform_type
}

/// Whether a combined-mode cipher of a proposal can be taken: it asks for no integrity
/// algorithm, or allows none.
pub open spec fn allows_combined(proposal: Offered) -> bool {
    !offers_any(proposal, 3) || offers(proposal, 3, 0, None)
}

/// Whether a proposal offers an integrity algorithm we take: HMAC-SHA-1-96 or one of
/// the three HMAC-SHA-2 ones.
pub open spec fn offers_integrity(proposal: Offered) -> bool {
    offers(proposal, 3, 2, None) || offers(proposal, 3, 12, None) || offers(proposal, 3, 13, None) || offers(
        proposal,
        3,
        14,
        None,
    )
}

/// Whether this cipher, with this Key Length or none, is one of a proposal that we can
/// take.
pub open spec fn takeable(proposal: Offered, id: u16, bits: Option<u16>) -> bool {
    &&& offers(proposal, 1, id, bits)
    &&& {
        ||| id == 28 && bits is None && allows_combined(proposal)
        ||| id == 20 && (bits == Some(128u16) || bits == Some(192u16) || bits == Some(256u16)) && allows_combined(
            proposal,
        )
        ||| id == 12 && (bits == Some(128u16) || bits == Some(192u16) || bits == Some(256u16)) && offers_integrity(
            proposal,
        )
        ||| id == 3 && bits is None && offers_integrity(proposal)
    }
}

/// Whether this Diffie-Hellman group is one that may be taken: 1024 bits or more of
/// MODP, one of three curves, or X25519.
pub open spec fn takeable_group(id: u16) -> bool {
    id == 2 || id == 5 || 14 <= id <= 21 || id == 31
}

/// Whether this PRF is one that may be taken.
pub open spec fn takeable_prf(id: u16) -> bool {
    id == 2 || 5 <= id <= 7
}

proof fn lemma_contains(proposal: Offered, transform_type: u8, transform_id: u16, key_length: Option<u16>)
    ensures
        offers(proposal, transform_type, transform_id, key_length) == proposal.transforms.contains(
            Transform { transform_type, transform_id, key_length },
        ),
{
    let wanted = Transform { transform_type, transform_id, key_length };
    if proposal.transforms.contains(wanted) {
        let i = choose|i: int| 0 <= i < proposal.transforms.len() && proposal.transforms[i] == wanted;
        assert(proposal.transforms[i] == wanted);
    }
}

/// What is picked from a list is the first of it that is offered.
proof fn lemma_first_offered(proposal: Offered, transform_type: u8, ids: Seq<u16>)
    ensures
        match negotiate::first_offered(proposal.transforms, transform_type, ids) {
            Some(id) => exists|c: int|
                0 <= c < ids.len() && #[trigger] ids[c] == id && offers(proposal, transform_type, id, None) && forall|
                    j: int,
                | 0 <= j < c ==> !offers(proposal, transform_type, #[trigger] ids[j], None),
            None => forall|j: int| 0 <= j < ids.len() ==> !offers(proposal, transform_type, #[trigger] ids[j], None),
        },
    decreases ids.len(),
{
    if ids.len() > 0 {
        lemma_contains(proposal, transform_type, ids[0], None);
        let rest = ids.drop_first();
        lemma_first_offered(proposal, transform_type, rest);
        if offers(proposal, transform_type, ids[0], None) {
            assert(ids[0] == ids[0]);
        } else {
            assert forall|j: int| 0 <= j < ids.len() && negotiate::first_offered(
                proposal.transforms,
                transform_type,
                ids,
            ) is None implies !offers(proposal, transform_type, #[trigger] ids[j], None) by {
                if j > 0 {
                    assert(rest[j - 1] == ids[j]);
                }
            }
            if let Some(id) = negotiate::first_offered(proposal.transforms, transform_type, rest) {
                let c = choose|c: int|
                    0 <= c < rest.len() && #[trigger] rest[c] == id && offers(proposal, transform_type, id, None)
                        && forall|j: int| 0 <= j < c ==> !offers(proposal, transform_type, #[trigger] rest[j], None);
                assert(rest[c] == id);
                assert(ids[c + 1] == id);
                assert forall|j: int| 0 <= j < c + 1 implies !offers(
                    proposal,
                    transform_type,
                    #[trigger] ids[j],
                    None,
                ) by {
                    if j > 0 {
                        assert(rest[j - 1] == ids[j]);
                    }
                }
            }
        }
    }
}

/// Whether a candidate cipher can be taken from a proposal.
spec fn fits(proposal: Offered, cipher: EncrCandidate) -> bool {
    let transforms = proposal.transforms;
    &&& offers(proposal, 1, cipher.id, cipher.key_length)
    &&& if cipher.aead {
        allows_combined(proposal)
    } else {
        negotiate::first_offered(transforms, 3, negotiate::integ_candidates()) is Some
    }
    &&& negotiate::first_offered(transforms, 2, negotiate::prf_candidates()) is Some
}

/// A suite is made with the first candidate cipher that can be taken.
proof fn lemma_first_cipher(proposal: Offered, ciphers: Seq<EncrCandidate>, dh_id: u16)
    ensures
        match negotiate::suite_with(proposal, ciphers, dh_id) {
            Some(suite) => exists|c: int|
                0 <= c < ciphers.len() && fits(proposal, #[trigger] ciphers[c]) && suite.encr_id == ciphers[c].id
                    && suite.dh_id == dh_id && suite.proposal_num == proposal.num && Some(suite.prf_id)
                    == negotiate::first_offered(proposal.transforms, 2, negotiate::prf_candidates()) && (
                ciphers[c].key_length matches Some(bits) ==> suite.encr_key_bits == bits) && (
                ciphers[c].key_length is None ==> suite.encr_key_bits == negotiate::fixed_bits(ciphers[c].id)->0)
                    && suite.integ_id == (if ciphers[c].aead {
                    None
                } else {
                    negotiate::first_offered(proposal.transforms, 3, negotiate::integ_candidates())
                }) && forall|j: int| 0 <= j < c ==> !fits(proposal, #[trigger] ciphers[j]),
            None => forall|j: int| 0 <= j < ciphers.len() ==> !fits(proposal, #[trigger] ciphers[j]),
        },
    decreases ciphers.len(),
{
    if ciphers.len() > 0 {
        let cipher = ciphers[0];
        let rest = ciphers.drop_first();
        lemma_contains(proposal, 1, cipher.id, cipher.key_length);
        lemma_contains(proposal, 3, 0, None);
        assert(offers_any(proposal, 3) == negotiate::has_type(proposal.transforms, 3));
        lemma_first_cipher(proposal, rest, dh_id);
        if fits(proposal, cipher) {
            assert(fits(proposal, ciphers[0]));
        } else {
            assert(!fits(proposal, ciphers[0]));
            match negotiate::suite_with(proposal, rest, dh_id) {
                Some(suite) => {
                    let c = choose|c: int|
                        0 <= c < rest.len() && fits(proposal, #[trigger] rest[c]) && suite.encr_id == rest[c].id
                            && suite.dh_id == dh_id && suite.proposal_num == proposal.num && Some(suite.prf_id)
                            == negotiate::first_offered(proposal.transforms, 2, negotiate::prf_candidates()) && (
                        rest[c].key_length matches Some(bits) ==> suite.encr_key_bits == bits) && (
                        rest[c].key_length is None ==> suite.encr_key_bits == negotiate::fixed_bits(rest[c].id)->0)
                            && suite.integ_id == (if rest[c].aead {
                            None
                        } else {
                            negotiate::first_offered(proposal.transforms, 3, negotiate::integ_candidates())
                        }) && forall|j: int| 0 <= j < c ==> !fits(proposal, #[trigger] rest[j]);
                    assert(ciphers[c + 1] == rest[c]);
                    assert forall|j: int| 0 <= j < c + 1 implies !fits(proposal, #[trigger] ciphers[j]) by {
                        if j > 0 {
                            assert(rest[j - 1] == ciphers[j]);
                        }
                    }
                },
                None => {
                    assert forall|j: int| 0 <= j < ciphers.len() implies !fits(proposal, #[trigger] ciphers[j]) by {
                        if j > 0 {
                            assert(rest[j - 1] == ciphers[j]);
                        }
                    }
                },
            }
        }
    }
}

/// What the lists of PRFs, integrity algorithms and groups pick, by numbers.
proof fn lemma_picks(proposal: Offered)
    ensures
        match negotiate::first_offered(proposal.transforms, 2, negotiate::prf_candidates()) {
            Some(id) => takeable_prf(id) && offers(proposal, 2, id, None) && forall|other: u16|
                takeable_prf(other) && #[trigger] offers(proposal, 2, other, None) ==> other <= id,
            None => forall|other: u16| takeable_prf(other) ==> !#[trigger] offers(proposal, 2, other, None),
        },
        match negotiate::first_offered(proposal.transforms, 3, negotiate::integ_candidates()) {
            Some(id) => (id == 2 || 12 <= id <= 14) && offers(proposal, 3, id, None) && forall|other: u16|
                (other == 2 || 12 <= other <= 14) && #[trigger] offers(proposal, 3, other, None) ==> other <= id,
            None => !offers_integrity(proposal),
        },
        match negotiate::first_offered(proposal.transforms, 4, negotiate::dh_candidates()) {
            Some(id) => takeable_group(id) && offers(proposal, 4, id, None) && forall|other: u16|
                takeable_group(other) && #[trigger] offers(proposal, 4, other, None) ==> other <= id,
            None => forall|other: u16| takeable_group(other) ==> !#[trigger] offers(proposal, 4, other, None),
        },
{
    let prfs = negotiate::prf_candidates();
    let integs = negotiate::integ_candidates();
    let groups = negotiate::dh_candidates();
    lemma_first_offered(proposal, 2, prfs);
    lemma_first_offered(proposal, 3, integs);
    lemma_first_offered(proposal, 4, groups);
    assert(prfs[0] == 7 && prfs[1] == 6 && prfs[2] == 5 && prfs[3] == 2);
    assert(integs[0] == 14 && integs[1] == 13 && integs[2] == 12 && integs[3] == 2);
    assert(groups[0] == 31 && groups[1] == 21 && groups[2] == 20 && groups[3] == 19 && groups[4] == 18 && groups[5] == 17
        && groups[6] == 16 && groups[7] == 15 && groups[8] == 14 && groups[9] == 5 && groups[10] == 2);
}

/// The strongest of what a proposal offers is chosen, where the higher number is the
/// stronger: no takeable cipher, PRF, integrity algorithm or group of a higher number
/// than the chosen one was offered, nor the chosen cipher with a longer key. What is
/// chosen was offered, under the proposal's number; a combined-mode cipher (20, 28) goes
/// without an integrity algorithm, any other with one.
pub proof fn law_strongest_is_chosen(proposal: Offered)
    ensures
        negotiate::suite_of(proposal) matches Some(suite) ==> {
            &&& suite.proposal_num == proposal.num
            &&& forall|id: u16, bits: Option<u16>| #[trigger]
                takeable(proposal, id, bits) ==> id <= suite.encr_id && (id == suite.encr_id ==> (
                bits matches Some(bits) ==> bits <= suite.encr_key_bits))
            &&& takeable(
                proposal,
                suite.encr_id,
                if suite.encr_id == 28 || suite.encr_id == 3 {
                    None
                } else {
                    Some(suite.encr_key_bits)
                },
            )
            &&& suite.encr_id == 28 ==> suite.encr_key_bits == 256
            &&& suite.encr_id == 3 ==> suite.encr_key_bits == 192
            &&& takeable_prf(suite.prf_id) && offers(proposal, 2, suite.prf_id, None)
            &&& forall|id: u16|
                takeable_prf(id) && #[trigger] offers(proposal, 2, id, None) ==> id <= suite.prf_id
            &&& takeable_group(suite.dh_id) && offers(proposal, 4, suite.dh_id, None)
            &&& forall|id: u16|
                takeable_group(id) && #[trigger] offers(proposal, 4, id, None) ==> id <= suite.dh_id
            &&& (suite.encr_id == 20 || suite.encr_id == 28) ==> suite.integ_id is None
            &&& (suite.encr_id == 12 || suite.encr_id == 3) ==> {
                &&& suite.integ_id matches Some(chosen) && (chosen == 2 || 12 <= chosen <= 14) && offers(
                    proposal,
                    3,
                    chosen,
                    None,
                )
                &&& forall|id: u16|
                    (id == 2 || 12 <= id <= 14) && #[trigger] offers(proposal, 3, id, None) ==> id <= suite.integ_id->0
            }
        },
{
    if let Some(suite) = negotiate::suite_of(proposal) {
        let dh_id = negotiate::first_offered(proposal.transforms, 4, negotiate::dh_candidates())->0;
        let ciphers = negotiate::encr_candidates();
        lemma_picks(proposal);
        lemma_first_cipher(proposal, ciphers, dh_id);
        lemma_candidate_numbers();
        let c = choose|c: int|
            0 <= c < ciphers.len() && fits(proposal, #[trigger] ciphers[c]) && suite.encr_id == ciphers[c].id
                && suite.dh_id == dh_id && suite.proposal_num == proposal.num && Some(suite.prf_id)
                == negotiate::first_offered(proposal.transforms, 2, negotiate::prf_candidates()) && (
            ciphers[c].key_length matches Some(bits) ==> suite.encr_key_bits == bits) && (
            ciphers[c].key_length is None ==> suite.encr_key_bits == negotiate::fixed_bits(ciphers[c].id)->0)
                && suite.integ_id == (if ciphers[c].aead {
                None
            } else {
                negotiate::first_offered(proposal.transforms, 3, negotiate::integ_candidates())
            }) && forall|j: int| 0 <= j < c ==> !fits(proposal, #[trigger] ciphers[j]);
        assert(fits(proposal, ciphers[c]));
        assert forall|id: u16, bits: Option<u16>| #[trigger] takeable(proposal, id, bits) implies id <= suite.encr_id && (
        id == suite.encr_id ==> (bits matches Some(bits) ==> bits <= suite.encr_key_bits)) by {
            let at = place(id, bits);
            assert(0 <= at < 8 && ciphers[at].id == id && ciphers[at].key_length == bits);
            assert(fits(proposal, ciphers[at]));
            assert(c <= at);
        }
    }
}

/// Where a cipher stands in the list of candidates.
spec fn place(id: u16, bits: Option<u16>) -> int {
    if id == 28 {
        0
    } else if id == 20 {
        if bits == Some(256u16) {
            1
        } else if bits == Some(192u16) {
            2
        } else {
            3
        }
    } else if id == 12 {
        if bits == Some(256u16) {
            4
        } else if bits == Some(192u16) {
            5
        } else {
            6
        }
    } else {
        7
    }
}

proof fn lemma_candidate_numbers()
    ensures
        ({
            let ciphers = negotiate::encr_candidates();
            &&& ciphers.len() == 8
            &&& ciphers[0] == (EncrCandidate { id: 28, key_length: None, aead: true })
            &&& ciphers[1] == (EncrCandidate { id: 20, key_length: Some(256), aead: true })
            &&& ciphers[2] == (EncrCandidate { id: 20, key_length: Some(192), aead: true })
            &&& ciphers[3] == (EncrCandidate { id: 20, key_length: Some(128), aead: true })
            &&& ciphers[4] == (EncrCandidate { id: 12, key_length: Some(256), aead: false })
            &&& ciphers[5] == (EncrCandidate { id: 12, key_length: Some(192), aead: false })
            &&& ciphers[6] == (EncrCandidate { id: 12, key_length: Some(128), aead: false })
            &&& ciphers[7] == (EncrCandidate { id: 3, key_length: None, aead: false })
        }),
{
}

/// A proposal is taken exactly where it is for IKE, has transforms of the types 1 to 5
/// only, and offers a takeable group, PRF and cipher.
pub proof fn law_proposal_is_taken_when_it_can_be(proposal: Offered)
    ensures
        negotiate::suite_of(proposal) is Some <==> {
            &&& proposal.protocol_id == 1
            &&& forall|i: int|
                0 <= i < proposal.transforms.len() ==> 1 <= (#[trigger] proposal.transforms[i]).transform_type <= 5
            &&& exists|id: u16| takeable_group(id) && #[trigger] offers(proposal, 4, id, None)
            &&& exists|id: u16| takeable_prf(id) && #[trigger] offers(proposal, 2, id, None)
            &&& exists|id: u16, bits: Option<u16>| #[trigger] takeable(proposal, id, bits)
        },
{
    lemma_picks(proposal);
    lemma_candidate_numbers();
    let ciphers = negotiate::encr_candidates();
    if negotiate::suite_of(proposal) is Some {
        law_strongest_is_chosen(proposal);
        let suite = negotiate::suite_of(proposal)->0;
        assert(offers(proposal, 4, suite.dh_id, None));
        assert(offers(proposal, 2, suite.prf_id, None));
        let bits = if suite.encr_id == 28 || suite.encr_id == 3 {
            None
        } else {
            Some(suite.encr_key_bits)
        };
        assert(takeable(proposal, suite.encr_id, bits));
    }
    if (exists|id: u16, bits: Option<u16>| #[trigger] takeable(proposal, id, bits)) && (exists|id: u16|
        takeable_prf(id) && #[trigger] offers(proposal, 2, id, None)) {
        let (id, bits) = choose|id: u16, bits: Option<u16>| #[trigger] takeable(proposal, id, bits);
        let at = place(id, bits);
        assert(ciphers[at].id == id && ciphers[at].key_length == bits);
        assert(fits(proposal, ciphers[at]));
        if let Some(dh_id) = negotiate::first_offered(proposal.transforms, 4, negotiate::dh_candidates()) {
            lemma_first_cipher(proposal, ciphers, dh_id);
        }
    }
}

/// The first proposal that can be taken is, whatever comes after it.
pub proof fn law_first_takeable_proposal_is_chosen(proposals: Seq<Offered>)
    ensures
        match negotiate::selected(proposals) {
            Some((at, suite)) => {
                &&& 0 <= at < proposals.len()
                &&& negotiate::suite_of(proposals[at]) == Some(suite)
                &&& negotiate::selected_suite(proposals) == Some(suite)
                &&& forall|j: int| 0 <= j < at ==> negotiate::suite_of(#[trigger] proposals[j]) is None
            },
            None => {
                &&& negotiate::selected_suite(proposals) is None
                &&& forall|j: int|
                    0 <= j < proposals.len() ==> negotiate::suite_of(#[trigger] proposals[j]) is None
            },
        },
{
    lemma_first_from(proposals, 0);
}

proof fn lemma_first_from(proposals: Seq<Offered>, from: int)
    requires
        0 <= from <= proposals.len(),
    ensures
        match negotiate::selected_from(proposals, from) {
            Some((at, suite)) => {
                &&& from <= at < proposals.len()
                &&& negotiate::suite_of(proposals[at]) == Some(suite)
                &&& forall|j: int| from <= j < at ==> negotiate::suite_of(#[trigger] proposals[j]) is None
            },
            None => forall|j: int|
                from <= j < proposals.len() ==> negotiate::suite_of(#[trigger] proposals[j]) is None,
        },
    decreases proposals.len() - from,
{
    if from < proposals.len() {
        lemma_first_from(proposals, from + 1);
    }
}

/// A suite is answered as one IKE proposal under the number it was taken from: its
/// cipher (with a Key Length unless it is 28 or 3), its PRF, its integrity algorithm (or
/// NONE where `none` says so), its group, in this order.
pub proof fn law_suite_as_proposal(suite: ChosenSuite, none: bool)
    ensures
        ({
            let proposal = suite.proposed(none);
            let transforms = proposal.transforms;
            let bits = if suite.encr_id == 28 || suite.encr_id == 3 {
                None
            } else {
                Some(suite.encr_key_bits)
            };
            &&& proposal.num == suite.proposal_num && proposal.protocol_id == 1 && proposal.spi.len() == 0
            &&& transforms[0] == (Transform { transform_type: 1, transform_id: suite.encr_id, key_length: bits })
            &&& transforms[1] == (Transform { transform_type: 2, transform_id: suite.prf_id, key_length: None })
            &&& match suite.integ_id {
                Some(id) => transforms.len() == 4 && transforms[2] == (Transform {
                    transform_type: 3,
                    transform_id: id,
                    key_length: None,
                }),
                None => if none {
                    transforms.len() == 4 && transforms[2] == (Transform {
                        transform_type: 3,
                        transform_id: 0,
                        key_length: None,
                    })
                } else {
                    transforms.len() == 3
                },
            }
            &&& transforms.last() == (Transform { transform_type: 4, transform_id: suite.dh_id, key_length: None })
        }),
{
}

/// How many transforms of a type a list has is none, one or more.
proof fn lemma_count(transforms: Seq<Transform>, transform_type: u8)
    ensures
        negotiate::count_of(transforms, transform_type) == 0 <==> forall|i: int|
            0 <= i < transforms.len() ==> (#[trigger] transforms[i]).transform_type != transform_type,
        negotiate::count_of(transforms, transform_type) == 1 ==> forall|i: int, j: int|
            0 <= i < j < transforms.len() && (#[trigger] transforms[i]).transform_type == transform_type ==> (
            #[trigger] transforms[j]).transform_type != transform_type,
    decreases transforms.len(),
{
    if transforms.len() > 0 {
        let before = transforms.drop_last();
        lemma_count(before, transform_type);
        assert(forall|i: int| 0 <= i < before.len() ==> before[i] == #[trigger] transforms[i]);
        if negotiate::count_of(transforms, transform_type) == 0 {
            assert forall|i: int| 0 <= i < transforms.len() implies (#[trigger] transforms[i]).transform_type
                != transform_type by {
                if i < before.len() {
                    assert(before[i] == transforms[i]);
                }
            }
        }
        if forall|i: int| 0 <= i < transforms.len() ==> (#[trigger] transforms[i]).transform_type != transform_type {
            assert forall|i: int| 0 <= i < before.len() implies (#[trigger] before[i]).transform_type != transform_type by {
                assert(before[i] == transforms[i]);
            }
        }
        if negotiate::count_of(transforms, transform_type) == 1 {
            assert forall|i: int, j: int|
                0 <= i < j < transforms.len() && (#[trigger] transforms[i]).transform_type == transform_type implies (
            #[trigger] transforms[j]).transform_type != transform_type by {
                assert(before[i] == transforms[i]);
                if j < before.len() {
                    assert(before[j] == transforms[j]);
                }
            }
        }
    }
}

/// An answer to our proposals is taken only where it is one proposal, of the number and
/// protocol of one of ours, whose transforms are all of that one (for ESP, NONE for a
/// group where it asked for none), no two of them of one type, and none missing of a
/// type that was offered, but for ESN where that could be left out.
pub proof fn law_answer_keeps_to_the_offer(answer: Seq<Offered>, offer: Seq<Offered>)
    requires
        negotiate::accepts(answer, offer),
    ensures
        answer.len() == 1,
        exists|at: int|
            0 <= at < offer.len() && (#[trigger] offer[at]).num == answer[0].num && offer[at].protocol_id
                == answer[0].protocol_id && (forall|i: int|
                0 <= i < answer[0].transforms.len() ==> {
                    ||| offer[at].transforms.contains(#[trigger] answer[0].transforms[i])
                    ||| answer[0].protocol_id == 3 && answer[0].transforms[i] == (Transform {
                        transform_type: 4,
                        transform_id: 0,
                        key_length: None,
                    }) && !offers_any(offer[at], 4)
                }) && (forall|i: int|
                0 <= i < offer[at].transforms.len() ==> {
                    ||| offers_any(answer[0], (#[trigger] offer[at].transforms[i]).transform_type)
                    ||| offer[at].transforms[i].transform_type == 5 && offers(offer[at], 5, 0, None)
                }) && forall|j: int|
                0 <= j < at ==> (#[trigger] offer[j]).num != answer[0].num || offer[j].protocol_id
                    != answer[0].protocol_id,
        forall|i: int, j: int|
            0 <= i < j < answer[0].transforms.len() ==> (#[trigger] answer[0].transforms[i]).transform_type != (
            #[trigger] answer[0].transforms[j]).transform_type,
{
    lemma_counterpart(offer, answer[0].num, answer[0].protocol_id, 0);
    let at = negotiate::counterpart(offer, answer[0].num, answer[0].protocol_id, 0)->0;
    let answered = answer[0].transforms;
    let offered = offer[at].transforms;
    lemma_contains(offer[at], 5, 0, None);
    lemma_count(offered, 4);
    assert forall|i: int, j: int| 0 <= i < j < answered.len() implies (#[trigger] answered[i]).transform_type != (
    #[trigger] answered[j]).transform_type by {
        lemma_count(answered, answered[i].transform_type);
    }
    assert forall|i: int| 0 <= i < offered.len() implies {
        ||| offers_any(answer[0], (#[trigger] offered[i]).transform_type)
        ||| offered[i].transform_type == 5 && offers(offer[at], 5, 0, None)
    } by {
        lemma_count(answered, offered[i].transform_type);
    }
    assert(offer[at].num == answer[0].num);
}

proof fn lemma_counterpart(proposals: Seq<Offered>, num: u8, protocol_id: u8, from: int)
    requires
        0 <= from <= proposals.len(),
    ensures
        match negotiate::counterpart(proposals, num, protocol_id, from) {
            Some(at) => from <= at < proposals.len() && proposals[at].num == num && proposals[at].protocol_id
                == protocol_id && forall|j: int|
                from <= j < at ==> (#[trigger] proposals[j]).num != num || proposals[j].protocol_id != protocol_id,
            None => forall|j: int|
                from <= j < proposals.len() ==> (#[trigger] proposals[j]).num != num || proposals[j].protocol_id
                    != protocol_id,
        },
    decreases proposals.len() - from,
{
    if from < proposals.len() {
        lemma_counterpart(proposals, num, protocol_id, from + 1);
    }
}

/// A cookie is echoed up to three times; a group is corrected once, to one that the offer
/// proposes and that was not the one sent. Any other failure ends the attempt.
pub proof fn law_retry(retry: exchange::Retrying, offer: Seq<Offered>, cookie: Seq<u8>, id: u16, group: DhGroup)
    ensures
        retry.absorbing(Failure::CookieRequired { cookie }, offer) == if retry.answered < 3 {
            Some(
                exchange::Retrying { cookie: Some(cookie), group: retry.group, answered: retry.answered + 1 },
            )
        } else {
            None
        },
        retry.absorbing(Failure::InvalidKeGroup(id), offer) == Some(
            exchange::Retrying { cookie: retry.cookie, group: Some(group), answered: retry.answered },
        ) <==> retry.group is None && DhGroup::named(id) == Some(group) && group != exchange::offered_group(offer)
            && exists|i: int, j: int|
            0 <= i < offer.len() && 0 <= j < offer[i].transforms.len() && (
            #[trigger] offer[i].transforms[j]).transform_type == 4 && offer[i].transforms[j].transform_id == id,
        retry.absorbing(Failure::InvalidKeGroup(id), offer) matches Some(next) ==> next.group is Some,
        forall|failure: Failure|
            !(failure is CookieRequired) && !(failure is InvalidKeGroup) ==> (#[trigger] retry.absorbing(
                failure,
                offer,
            )) is None,
{
    if exchange::proposes_group(offer, id) {
        let i = choose|i: int| 0 <= i < offer.len() && negotiate::names((#[trigger] offer[i]).transforms, 4, id);
        let j = choose|j: int|
            0 <= j < offer[i].transforms.len() && (#[trigger] offer[i].transforms[j]).transform_type == 4
                && offer[i].transforms[j].transform_id == id;
        assert(offer[i].transforms[j].transform_id == id);
    }
    if exists|i: int, j: int|
        0 <= i < offer.len() && 0 <= j < offer[i].transforms.len() && (#[trigger] offer[i].transforms[j]).transform_type
            == 4 && offer[i].transforms[j].transform_id == id {
        let (i, j) = choose|i: int, j: int|
            0 <= i < offer.len() && 0 <= j < offer[i].transforms.len() && (
            #[trigger] offer[i].transforms[j]).transform_type == 4 && offer[i].transforms[j].transform_id == id;
        assert(negotiate::names(offer[i].transforms, 4, id));
    }
}

/// The group a request's public value is of is the first that its first proposal names,
/// where we know it, and X25519 otherwise.
pub proof fn law_offered_group(offer: Seq<Offered>, at: int)
    ensures
        offer.len() == 0 ==> exchange::offered_group(offer) == DhGroup::X25519,
        offer.len() > 0 && 0 <= at < offer[0].transforms.len() && offer[0].transforms[at].transform_type == 4 && (forall|
            j: int,
        | 0 <= j < at ==> (#[trigger] offer[0].transforms[j]).transform_type != 4) ==> exchange::offered_group(offer)
            == match DhGroup::named(offer[0].transforms[at].transform_id) {
            Some(group) => group,
            None => DhGroup::X25519,
        },
        offer.len() > 0 && (forall|j: int|
            0 <= j < offer[0].transforms.len() ==> (#[trigger] offer[0].transforms[j]).transform_type != 4)
            ==> exchange::offered_group(offer) == DhGroup::X25519,
{
    if offer.len() > 0 {
        let transforms = offer[0].transforms;
        lemma_first_typed(transforms, 0);
        if 0 <= at < transforms.len() && transforms[at].transform_type == 4 && (forall|j: int|
            0 <= j < at ==> (#[trigger] transforms[j]).transform_type != 4) {
            let found = negotiate::first_of_type(transforms, 4, 0)->0;
            let i = choose|i: int|
                0 <= i < transforms.len() && #[trigger] transforms[i] == found && found.transform_type == 4 && forall|
                    j: int,
                | 0 <= j < i ==> (#[trigger] transforms[j]).transform_type != 4;
            assert(transforms[at].transform_type == 4);
            assert(i == at);
        }
    }
}

proof fn lemma_first_typed(transforms: Seq<Transform>, from: int)
    requires
        0 <= from <= transforms.len(),
    ensures
        match negotiate::first_of_type(transforms, 4, from) {
            Some(found) => exists|i: int|
                from <= i < transforms.len() && #[trigger] transforms[i] == found && found.transform_type == 4 && forall|
                    j: int,
                | from <= j < i ==> (#[trigger] transforms[j]).transform_type != 4,
            None => forall|j: int| from <= j < transforms.len() ==> (#[trigger] transforms[j]).transform_type != 4,
        },
    decreases transforms.len() - from,
{
    if from < transforms.len() {
        lemma_first_typed(transforms, from + 1);
        if transforms[from].transform_type == 4 {
            assert(transforms[from] == transforms[from]);
        }
    }
}

} // verus!
