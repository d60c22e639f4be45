//! Which traffic and which CHILD SA two ends agree on: narrowing by what a packet has to
//! have, and the ESP proposals by the numbers of their transforms.

use vstd::prelude::*;

use crate::bytes;
use crate::crypto::number::number;
use crate::error::Failure;
use crate::ikev2::child;
use crate::ikev2::choice_laws::{offers, offers_any};
use crate::ikev2::negotiate;
use crate::ikev2::negotiate::ChosenEspSuite;
use crate::ikev2::payload::sa::{Offered, Transform};
use crate::ikev2::payload::ts;
use crate::ikev2::payload::ts::Selector;
use crate::ikev2::sk::SkCipher;

verus! {

/// Whether a packet with this protocol, port and address (of type 7 for IPv4, 8 for
/// IPv6) is one a selector is for.
pub open spec fn covers(selector: Selector, ts_type: u8, protocol: u8, port: u16, addr: Seq<u8>) -> bool {
    &&& ts_type == 7 && addr.len() == 4 || ts_type == 8 && addr.len() == 16
    &&& selector.ts_type == ts_type
    &&& selector.start_addr.len() == addr.len() && selector.end_addr.len() == addr.len()
    &&& selector.protocol == 0 || selector.protocol == protocol
    &&& selector.start_port <= port <= selector.end_port
    &&& number(selector.start_addr) <= number(addr) <= number(selector.end_addr)
}

/// Whether one of the selectors is for such a packet.
pub open spec fn covered(selectors: Seq<Selector>, ts_type: u8, protocol: u8, port: u16, addr: Seq<u8>) -> bool {
    exists|i: int|
        0 <= i < selectors.len() && covers(#[trigger] selectors[i], ts_type, protocol, port, addr)
}

/// What two selectors have in common is for a packet exactly where both are, and they
/// have something in common wherever a packet shows it.
pub proof fn law_common_is_the_intersection(
    a: Selector,
    b: Selector,
    ts_type: u8,
    protocol: u8,
    port: u16,
    addr: Seq<u8>,
)
    ensures
        covers(a, ts_type, protocol, port, addr) && covers(b, ts_type, protocol, port, addr) ==> a.overlaps(b),
        a.overlaps(b) ==> (covers(a.common(b), ts_type, protocol, port, addr) <==> covers(
            a,
            ts_type,
            protocol,
            port,
            addr,
        ) && covers(b, ts_type, protocol, port, addr)),
{
}

proof fn lemma_narrowed_one(
    selector: Selector,
    policy: Seq<Selector>,
    ts_type: u8,
    protocol: u8,
    port: u16,
    addr: Seq<u8>,
)
    ensures
        covered(ts::narrowed_one(selector, policy), ts_type, protocol, port, addr) <==> covers(
            selector,
            ts_type,
            protocol,
            port,
            addr,
        ) && covered(policy, ts_type, protocol, port, addr),
    decreases policy.len(),
{
    if policy.len() > 0 {
        let before = policy.drop_last();
        let last = policy.last();
        lemma_narrowed_one(selector, before, ts_type, protocol, port, addr);
        law_common_is_the_intersection(selector, last, ts_type, protocol, port, addr);
        let out = ts::narrowed_one(selector, policy);
        let most = ts::narrowed_one(selector, before);
        if covered(out, ts_type, protocol, port, addr) {
            let i = choose|i: int| 0 <= i < out.len() && covers(#[trigger] out[i], ts_type, protocol, port, addr);
            if i < most.len() {
                assert(covers(most[i], ts_type, protocol, port, addr));
                let j = choose|j: int|
                    0 <= j < before.len() && covers(#[trigger] before[j], ts_type, protocol, port, addr);
                assert(covers(policy[j], ts_type, protocol, port, addr));
            } else {
                assert(covers(policy[policy.len() - 1], ts_type, protocol, port, addr));
            }
        }
        if covers(selector, ts_type, protocol, port, addr) && covered(policy, ts_type, protocol, port, addr) {
            let j = choose|j: int| 0 <= j < policy.len() && covers(#[trigger] policy[j], ts_type, protocol, port, addr);
            if j < before.len() {
                assert(covers(before[j], ts_type, protocol, port, addr));
                let i = choose|i: int| 0 <= i < most.len() && covers(#[trigger] most[i], ts_type, protocol, port, addr);
                assert(covers(out[i], ts_type, protocol, port, addr));
            } else {
                assert(covers(out[most.len() as int], ts_type, protocol, port, addr));
            }
        }
    }
}

/// What proposed selectors are narrowed to is for a packet exactly where a proposed one
/// and one of the policy are; where that is no packet at all there is nothing left.
pub proof fn law_narrowing_is_the_intersection(
    selectors: Seq<Selector>,
    policy: Seq<Selector>,
    ts_type: u8,
    protocol: u8,
    port: u16,
    addr: Seq<u8>,
)
    ensures
        covered(ts::narrowed(selectors, policy), ts_type, protocol, port, addr) <==> covered(
            selectors,
            ts_type,
            protocol,
            port,
            addr,
        ) && covered(policy, ts_type, protocol, port, addr),
        match ts::narrowed_to(selectors, policy) {
            Some(left) => left.len() > 0 && (covered(left, ts_type, protocol, port, addr) <==> covered(
                selectors,
                ts_type,
                protocol,
                port,
                addr,
            ) && covered(policy, ts_type, protocol, port, addr)),
            None => !(covered(selectors, ts_type, protocol, port, addr) && covered(
                policy,
                ts_type,
                protocol,
                port,
                addr,
            )),
        },
    decreases selectors.len(),
{
    if selectors.len() > 0 {
        let before = selectors.drop_last();
        let last = selectors.last();
        law_narrowing_is_the_intersection(before, policy, ts_type, protocol, port, addr);
        lemma_narrowed_one(last, policy, ts_type, protocol, port, addr);
        let out = ts::narrowed(selectors, policy);
        let most = ts::narrowed(before, policy);
        let more = ts::narrowed_one(last, policy);
        assert(out == most + more);
        if covered(out, ts_type, protocol, port, addr) {
            let i = choose|i: int| 0 <= i < out.len() && covers(#[trigger] out[i], ts_type, protocol, port, addr);
            if i < most.len() {
                assert(covers(most[i], ts_type, protocol, port, addr));
                let j = choose|j: int|
                    0 <= j < before.len() && covers(#[trigger] before[j], ts_type, protocol, port, addr);
                assert(covers(selectors[j], ts_type, protocol, port, addr));
            } else {
                assert(covers(more[i - most.len()], ts_type, protocol, port, addr));
                assert(covers(selectors[selectors.len() - 1], ts_type, protocol, port, addr));
            }
        }
        if covered(selectors, ts_type, protocol, port, addr) && covered(policy, ts_type, protocol, port, addr) {
            let j = choose|j: int|
                0 <= j < selectors.len() && covers(#[trigger] selectors[j], ts_type, protocol, port, addr);
            if j < before.len() {
                assert(covers(before[j], ts_type, protocol, port, addr));
                let i = choose|i: int| 0 <= i < most.len() && covers(#[trigger] most[i], ts_type, protocol, port, addr);
                assert(covers(out[i], ts_type, protocol, port, addr));
            } else {
                let i = choose|i: int| 0 <= i < more.len() && covers(#[trigger] more[i], ts_type, protocol, port, addr);
                assert(covers(out[most.len() + i], ts_type, protocol, port, addr));
            }
        }
    }
    if covered(ts::narrowed(selectors, policy), ts_type, protocol, port, addr) {
        assert(ts::narrowed(selectors, policy).len() > 0);
    }
}

/// One selector is within another only where every packet of it is one of the other's,
/// and it is wherever its first and its last packet are and the other asks for no
/// protocol that it leaves open.
pub proof fn law_within_is_inclusion(
    inner: Selector,
    outer: Selector,
    ts_type: u8,
    protocol: u8,
    port: u16,
    addr: Seq<u8>,
)
    ensures
        inner.within(outer) && covers(inner, ts_type, protocol, port, addr) ==> covers(
            outer,
            ts_type,
            protocol,
            port,
            addr,
        ),
        covers(outer, inner.ts_type, inner.protocol, inner.start_port, inner.start_addr) && covers(
            outer,
            inner.ts_type,
            inner.protocol,
            inner.end_port,
            inner.end_addr,
        ) ==> inner.within(outer),
        inner.within(outer) && outer.protocol != 0 ==> inner.protocol == outer.protocol,
{
}

/// What was granted is taken exactly where both payloads are there and each of their
/// selectors is within one that we proposed.
pub proof fn law_grant_is_within_the_offer(
    offer: Seq<Selector>,
    tsi: Option<Seq<Selector>>,
    tsr: Option<Seq<Selector>>,
)
    ensures
        child::granted(offer, tsi, tsr) is Ok <==> {
            &&& tsi matches Some(list) && forall|i: int|
                0 <= i < list.len() ==> #[trigger] ts::within_one(list[i], offer)
            &&& tsr matches Some(list) && forall|i: int|
                0 <= i < list.len() ==> #[trigger] ts::within_one(list[i], offer)
        },
        forall|selector: Selector| #[trigger]
            ts::within_one(selector, offer) <==> exists|i: int|
                0 <= i < offer.len() && selector.within(#[trigger] offer[i]),
        tsi is None ==> child::granted(offer, tsi, tsr) == Err::<(), Failure>(Failure::MissingPayload("TSi"@)),
        tsi is Some && tsr is None ==> child::granted(offer, tsi, tsr) == Err::<(), Failure>(
            Failure::MissingPayload("TSr"@),
        ),
{
    if let (Some(a), Some(b)) = (tsi, tsr) {
        if child::granted(offer, tsi, tsr) is Ok {
            assert forall|i: int| 0 <= i < a.len() implies #[trigger] ts::within_one(a[i], offer) by {
                assert(ts::within_one(a[i], offer));
            }
            assert forall|i: int| 0 <= i < b.len() implies #[trigger] ts::within_one(b[i], offer) by {
                assert(ts::within_one(b[i], offer));
            }
        }
    }
}

/// A responder narrows TSi to what it assigned, or all of IPv4, and TSr to all of IPv4.
pub proof fn law_policies(ip: Seq<u8>)
    ensures
        child::client_policy(Some(ip)) == seq![Selector::ipv4_host(ip)],
        child::client_policy(None) == seq![Selector::ipv4_any()],
        child::server_policy() == seq![Selector::ipv4_any()],
        forall|tsi: Seq<Selector>, tsr: Seq<Selector>, i: Seq<Selector>, r: Seq<Selector>|
            (#[trigger] child::narrowed(Some(tsi), Some(tsr), i, r)) matches Ok((a, b)) ==> ts::narrowed_to(tsi, i)
                == Some(a) && ts::narrowed_to(tsr, r) == Some(b),
{
}

/// What is left of a list of transforms without its groups, and without its groups but
/// NONE.
proof fn lemma_without(transforms: Seq<Transform>, wanted: Transform)
    ensures
        child::without_dh(transforms).contains(wanted) <==> transforms.contains(wanted) && wanted.transform_type != 4,
        child::without_groups(transforms).contains(wanted) <==> transforms.contains(wanted) && !(wanted.transform_type == 4
            && wanted.transform_id != 0),
    decreases transforms.len(),
{
    if transforms.len() > 0 {
        let before = transforms.drop_last();
        let last = transforms.last();
        lemma_without(before, wanted);
        assert(transforms =~= before.push(last));
        lemma_push_contains(before, last, wanted);
        lemma_push_contains(child::without_dh(before), last, wanted);
        lemma_push_contains(child::without_groups(before), last, wanted);
    }
}

proof fn lemma_push_contains(list: Seq<Transform>, last: Transform, wanted: Transform)
    ensures
        list.push(last).contains(wanted) <==> list.contains(wanted) || last == wanted,
{
    if list.contains(wanted) {
        let i = choose|i: int| 0 <= i < list.len() && list[i] == wanted;
        assert(list.push(last)[i] == wanted);
    }
    if last == wanted {
        assert(list.push(last)[list.len() as int] == wanted);
    }
    if list.push(last).contains(wanted) {
        let i = choose|i: int| 0 <= i < list.push(last).len() && list.push(last)[i] == wanted;
        if i < list.len() {
            assert(list[i] == wanted);
        }
    }
}

/// What we send to be granted a CHILD SA is each proposal of the offer, in order, under
/// the SPI we picked and without its Diffie-Hellman groups.
pub proof fn law_offer_goes_out_with_our_spi(offer: Seq<Offered>, spi: u32, i: int)
    requires
        0 <= i < offer.len(),
    ensures
        ({
            let sent = child::sai2_of(offer, spi);
            &&& sent.len() == offer.len()
            &&& sent[i].num == offer[i].num && sent[i].protocol_id == offer[i].protocol_id
            &&& sent[i].spi == bytes::be32(spi)
            &&& forall|t: Transform| #[trigger]
                sent[i].transforms.contains(t) <==> offer[i].transforms.contains(t) && t.transform_type != 4
        }),
{
    let sent = child::sai2_of(offer, spi);
    assert forall|t: Transform| #[trigger] sent[i].transforms.contains(t) <==> offer[i].transforms.contains(t)
        && t.transform_type != 4 by {
        lemma_without(offer[i].transforms, t);
    }
}

/// Whether a proposal for a CHILD SA is one we can grant: ESP under an SPI of four
/// octets, AES-GCM with 256 bits, and, where it has transforms of those types, no
/// integrity algorithm, no group and no extended sequence numbers among them.
pub open spec fn grantable(proposal: Offered) -> bool {
    &&& proposal.protocol_id == 3 && proposal.spi.len() == 4
    &&& offers(proposal, 1, 20, Some(256))
    &&& forall|i: int|
        0 <= i < proposal.transforms.len() ==> {
            let kind = (#[trigger] proposal.transforms[i]).transform_type;
            kind == 1 || kind == 3 || kind == 4 || kind == 5
        }
    &&& offers_any(proposal, 3) ==> offers(proposal, 3, 0, None)
    &&& offers_any(proposal, 5) ==> offers(proposal, 5, 0, None)
    &&& offers_none_group(proposal) ==> offers(proposal, 4, 0, None)
}

/// Whether a proposal names NONE for a group, with whatever attributes.
pub open spec fn offers_none_group(proposal: Offered) -> bool {
    exists|i: int|
        0 <= i < proposal.transforms.len() && (#[trigger] proposal.transforms[i]).transform_type == 4
            && proposal.transforms[i].transform_id == 0
}

proof fn lemma_runs(proposal: Offered)
    ensures
        ({
            let left = child::without_groups(proposal.transforms);
            &&& grantable(proposal) <==> proposal.protocol_id == 3 && proposal.spi.len() == 4 && child::runs(left)
            &&& negotiate::has_type(left, 3) == offers_any(proposal, 3)
            &&& negotiate::has_type(left, 5) == offers_any(proposal, 5)
            &&& negotiate::has_type(left, 4) == offers_none_group(proposal)
        }),
{
    let all = proposal.transforms;
    let left = child::without_groups(all);
    assert forall|i: int| 0 <= i < left.len() implies all.contains(#[trigger] left[i]) && !(left[i].transform_type == 4
        && left[i].transform_id != 0) by {
        assert(left.contains(left[i]));
        lemma_without(all, left[i]);
    }
    assert forall|i: int| 0 <= i < all.len() && !((#[trigger] all[i]).transform_type == 4 && all[i].transform_id
        != 0) implies left.contains(all[i]) by {
        assert(all.contains(all[i]));
        lemma_without(all, all[i]);
    }
    lemma_without(all, Transform { transform_type: 1, transform_id: 20, key_length: Some(256) });
    lemma_without(all, Transform { transform_type: 3, transform_id: 0, key_length: None });
    lemma_without(all, Transform { transform_type: 4, transform_id: 0, key_length: None });
    lemma_without(all, Transform { transform_type: 5, transform_id: 0, key_length: None });
    lemma_has(all, left, 3);
    lemma_has(all, left, 5);
    assert(offers(proposal, 1, 20, Some(256)) == all.contains(
        Transform { transform_type: 1, transform_id: 20, key_length: Some(256) },
    ));
    assert(offers(proposal, 3, 0, None) == all.contains(
        Transform { transform_type: 3, transform_id: 0, key_length: None },
    ));
    assert(offers(proposal, 4, 0, None) == all.contains(
        Transform { transform_type: 4, transform_id: 0, key_length: None },
    ));
    assert(offers(proposal, 5, 0, None) == all.contains(
        Transform { transform_type: 5, transform_id: 0, key_length: None },
    ));
    if negotiate::has_type(left, 4) {
        let i = choose|i: int| 0 <= i < left.len() && (#[trigger] left[i]).transform_type == 4;
        assert(all.contains(left[i]));
        let j = choose|j: int| 0 <= j < all.len() && all[j] == left[i];
        assert(all[j].transform_type == 4 && all[j].transform_id == 0);
    }
    if offers_none_group(proposal) {
        let j = choose|j: int|
            0 <= j < all.len() && (#[trigger] all[j]).transform_type == 4 && all[j].transform_id == 0;
        assert(left.contains(all[j]));
        let i = choose|i: int| 0 <= i < left.len() && left[i] == all[j];
        assert(left[i].transform_type == 4);
    }
    if child::all_esp_types(left) {
        assert forall|i: int| 0 <= i < all.len() implies child::esp_transform_type(
            (#[trigger] all[i]).transform_type,
        ) by {
            if !(all[i].transform_type == 4 && all[i].transform_id != 0) {
                assert(left.contains(all[i]));
                let j = choose|j: int| 0 <= j < left.len() && left[j] == all[i];
                assert(child::esp_transform_type(left[j].transform_type));
            }
        }
    }
    if forall|i: int|
        0 <= i < all.len() ==> {
            let kind = (#[trigger] all[i]).transform_type;
            kind == 1 || kind == 3 || kind == 4 || kind == 5
        } {
        assert forall|i: int| 0 <= i < left.len() implies child::esp_transform_type(
            (#[trigger] left[i]).transform_type,
        ) by {
            assert(all.contains(left[i]));
            let j = choose|j: int| 0 <= j < all.len() && all[j] == left[i];
            assert(all[j].transform_type == left[i].transform_type);
        }
    }
}

proof fn lemma_has(all: Seq<Transform>, left: Seq<Transform>, kind: u8)
    requires
        kind != 4,
        forall|i: int| 0 <= i < left.len() ==> all.contains(#[trigger] left[i]),
        forall|i: int|
            0 <= i < all.len() && !((#[trigger] all[i]).transform_type == 4 && all[i].transform_id != 0)
                ==> left.contains(all[i]),
    ensures
        negotiate::has_type(left, kind) == negotiate::has_type(all, kind),
{
    if negotiate::has_type(left, kind) {
        let i = choose|i: int| 0 <= i < left.len() && (#[trigger] left[i]).transform_type == kind;
        assert(all.contains(left[i]));
        let j = choose|j: int| 0 <= j < all.len() && all[j] == left[i];
        assert(all[j].transform_type == kind);
    }
    if negotiate::has_type(all, kind) {
        let j = choose|j: int| 0 <= j < all.len() && (#[trigger] all[j]).transform_type == kind;
        assert(left.contains(all[j]));
        let i = choose|i: int| 0 <= i < left.len() && left[i] == all[j];
        assert(left[i].transform_type == kind);
    }
}

/// A CHILD SA is granted from the first proposal that can be: as ESP under its number
/// and our SPI, with AES-GCM of 256 bits, and NONE of every other type it names. The
/// peer's SPI is the proposal's.
pub proof fn law_child_answer(proposals: Seq<Offered>, child_spi: u32)
    ensures
        match child::answered_offer(proposals, child_spi) {
            Some((answer, peer_spi)) => exists|at: int|
                0 <= at < proposals.len() && is_child_answer(#[trigger] proposals[at], answer, peer_spi, child_spi)
                    && forall|j: int| 0 <= j < at ==> !grantable(#[trigger] proposals[j]),
            None => forall|j: int| 0 <= j < proposals.len() ==> !grantable(#[trigger] proposals[j]),
        },
{
    lemma_child_answer(proposals, child_spi, 0);
}

/// Whether this is how a proposal for a CHILD SA is granted.
pub open spec fn is_child_answer(proposal: Offered, answer: Offered, peer_spi: u32, child_spi: u32) -> bool {
    let integ = if offers_any(proposal, 3) {
        1int
    } else {
        0
    };
    let group = if offers_none_group(proposal) {
        1int
    } else {
        0
    };
    let esn = if offers_any(proposal, 5) {
        1int
    } else {
        0
    };
    &&& grantable(proposal)
    &&& answer.num == proposal.num && answer.protocol_id == 3 && answer.spi == bytes::be32(child_spi)
    &&& proposal.spi == bytes::be32(peer_spi)
    &&& answer.transforms.len() == 1 + integ + group + esn
    &&& answer.transforms[0] == (Transform { transform_type: 1, transform_id: 20, key_length: Some(256) })
    &&& integ == 1 ==> answer.transforms[1] == (Transform { transform_type: 3, transform_id: 0, key_length: None })
    &&& group == 1 ==> answer.transforms[1 + integ] == (Transform {
        transform_type: 4,
        transform_id: 0,
        key_length: None,
    })
    &&& esn == 1 ==> answer.transforms[1 + integ + group] == (Transform {
        transform_type: 5,
        transform_id: 0,
        key_length: None,
    })
}

proof fn lemma_child_answer(proposals: Seq<Offered>, child_spi: u32, from: int)
    requires
        0 <= from <= proposals.len(),
    ensures
        match child::answered_from(proposals, child_spi, from) {
            Some((answer, peer_spi)) => exists|at: int|
                from <= at < proposals.len() && is_child_answer(#[trigger] proposals[at], answer, peer_spi, child_spi)
                    && forall|j: int| from <= j < at ==> !grantable(#[trigger] proposals[j]),
            None => forall|j: int| from <= j < proposals.len() ==> !grantable(#[trigger] proposals[j]),
        },
    decreases proposals.len() - from,
{
    if from < proposals.len() {
        lemma_runs(proposals[from]);
        lemma_child_answer(proposals, child_spi, from + 1);
        if grantable(proposals[from]) {
            bytes::law_written_as_read(proposals[from].spi, 0);
            assert(proposals[from].spi.subrange(0, 4) =~= proposals[from].spi);
            let (answer, peer_spi) = child::answered_from(proposals, child_spi, from)->0;
            assert(is_child_answer(proposals[from], answer, peer_spi, child_spi));
        } else if let Some((answer, peer_spi)) = child::answered_from(proposals, child_spi, from + 1) {
            let at = choose|at: int|
                from + 1 <= at < proposals.len() && is_child_answer(
                    #[trigger] proposals[at],
                    answer,
                    peer_spi,
                    child_spi,
                ) && forall|j: int| from + 1 <= j < at ==> !grantable(#[trigger] proposals[j]);
            assert(is_child_answer(proposals[at], answer, peer_spi, child_spi));
        }
    }
}

/// The transforms that offer a cipher for a CHILD SA: its number, its Key Length where it
/// has one, its integrity algorithm where it needs one, no extended sequence numbers.
pub proof fn law_esp_transforms(cipher: SkCipher)
    ensures
        ({
            let list = child::transforms_of(cipher);
            let encr = |id: u16, bits: Option<u16>|
                list[0] == (Transform { transform_type: 1, transform_id: id, key_length: bits });
            &&& list.last() == (Transform { transform_type: 5, transform_id: 0, key_length: None })
            &&& match cipher {
                SkCipher::Aes128Gcm => list.len() == 2 && encr(20, Some(128)),
                SkCipher::Aes192Gcm => list.len() == 2 && encr(20, Some(192)),
                SkCipher::Aes256Gcm => list.len() == 2 && encr(20, Some(256)),
                SkCipher::ChaCha20Poly1305 => list.len() == 2 && encr(28, None),
                SkCipher::TripleDesCbc(integ) => list.len() == 3 && encr(3, None) && list[1] == (Transform {
                    transform_type: 3,
                    transform_id: integ.id(),
                    key_length: None,
                }),
                SkCipher::Aes128Cbc(integ) => list.len() == 3 && encr(12, Some(128)) && list[1] == (Transform {
                    transform_type: 3,
                    transform_id: integ.id(),
                    key_length: None,
                }),
                SkCipher::Aes192Cbc(integ) => list.len() == 3 && encr(12, Some(192)) && list[1] == (Transform {
                    transform_type: 3,
                    transform_id: integ.id(),
                    key_length: None,
                }),
                SkCipher::Aes256Cbc(integ) => list.len() == 3 && encr(12, Some(256)) && list[1] == (Transform {
                    transform_type: 3,
                    transform_id: integ.id(),
                    key_length: None,
                }),
            }
        }),
{
}

/// The suite an answer names is that of its first ESP proposal: of its first cipher, with
/// the Key Length it has or, for 28 and 3, the one it must have; of its first integrity
/// algorithm; with extended sequence numbers where one of its transforms enables them.
pub proof fn law_esp_suite(proposals: Seq<Offered>, at: int)
    requires
        0 <= at < proposals.len(),
        proposals[at].protocol_id == 3,
        forall|j: int| 0 <= j < at ==> (#[trigger] proposals[j]).protocol_id != 3,
    ensures
        ({
            let transforms = proposals[at].transforms;
            let encr = negotiate::first_of_type(transforms, 1, 0);
            let integ = negotiate::first_of_type(transforms, 3, 0);
            match negotiate::selected_esp(proposals) {
                Some(suite) => {
                    &&& encr matches Some(encr) && suite.encr_id == encr.transform_id && (match encr.key_length {
                        Some(bits) => suite.encr_key_bits == bits,
                        None => suite.encr_id == 28 && suite.encr_key_bits == 256 || suite.encr_id == 3
                            && suite.encr_key_bits == 192,
                    })
                    &&& match integ {
                        Some(integ) => suite.integ_id == Some(integ.transform_id),
                        None => suite.integ_id is None,
                    }
                    &&& suite.esn <==> exists|i: int|
                        0 <= i < transforms.len() && (#[trigger] transforms[i]).transform_type == 5
                            && transforms[i].transform_id == 1
                },
                None => encr matches Some(encr) ==> encr.key_length is None && encr.transform_id != 28
                    && encr.transform_id != 3,
            }
        }),
{
    lemma_first_esp(proposals, 0, at);
}

proof fn lemma_first_esp(proposals: Seq<Offered>, from: int, at: int)
    requires
        0 <= from <= at < proposals.len(),
        proposals[at].protocol_id == 3,
        forall|j: int| from <= j < at ==> (#[trigger] proposals[j]).protocol_id != 3,
    ensures
        negotiate::first_esp(proposals, from) == Some(at),
    decreases at - from,
{
    if from < at {
        assert(proposals[from].protocol_id != 3);
        lemma_first_esp(proposals, from + 1, at);
    }
}

/// The first transform of a type is one of the list, of that type, and none before it is.
pub proof fn law_first_of_type(transforms: Seq<Transform>, transform_type: u8, from: int)
    requires
        0 <= from <= transforms.len(),
    ensures
        match negotiate::first_of_type(transforms, transform_type, from) {
            Some(found) => exists|i: int|
                from <= i < transforms.len() && #[trigger] transforms[i] == found && found.transform_type == transform_type
                    && forall|j: int| from <= j < i ==> (#[trigger] transforms[j]).transform_type != transform_type,
            None => forall|j: int|
                from <= j < transforms.len() ==> (#[trigger] transforms[j]).transform_type != transform_type,
        },
    decreases transforms.len() - from,
{
    if from < transforms.len() {
        law_first_of_type(transforms, transform_type, from + 1);
        if transforms[from].transform_type == transform_type {
            assert(transforms[from] == transforms[from]);
        }
    }
}

/// An ESP suite keeps to an offer where one of its ESP proposals has the cipher with that
/// Key Length, that integrity algorithm (or none at all), and that use of extended
/// sequence numbers.
pub proof fn law_esp_suite_keeps_to_the_offer(suite: ChosenEspSuite, offer: Seq<Offered>)
    ensures
        suite.within(offer) <==> exists|i: int|
            0 <= i < offer.len() && (#[trigger] offer[i]).protocol_id == 3 && offers(
                offer[i],
                1,
                suite.encr_id,
                if suite.encr_id == 28 || suite.encr_id == 3 {
                    None
                } else {
                    Some(suite.encr_key_bits)
                },
            ) && (match suite.integ_id {
                Some(id) => offers(offer[i], 3, id, None),
                None => !offers_any(offer[i], 3),
            }) && (if offers_any(offer[i], 5) {
                exists|j: int|
                    0 <= j < offer[i].transforms.len() && (#[trigger] offer[i].transforms[j]).transform_type == 5
                        && offer[i].transforms[j].transform_id == (if suite.esn { 1u16 } else { 0u16 })
            } else {
                !suite.esn
            }),
{
    let bits = if suite.encr_id == 28 || suite.encr_id == 3 {
        None
    } else {
        Some(suite.encr_key_bits)
    };
    assert forall|i: int| 0 <= i < offer.len() implies offers(#[trigger] offer[i], 1, suite.encr_id, bits)
        == offer[i].transforms.contains(
        Transform { transform_type: 1, transform_id: suite.encr_id, key_length: bits },
    ) && (suite.integ_id matches Some(id) ==> offers(offer[i], 3, id, None) == offer[i].transforms.contains(
        Transform { transform_type: 3, transform_id: id, key_length: None },
    )) by {}
    if suite.within(offer) {
        let i = choose|i: int|
            0 <= i < offer.len() && (#[trigger] offer[i]).protocol_id == 3 && suite.within_transforms(
                offer[i].transforms,
            );
        assert(offer[i].protocol_id == 3);
        assert(offers(offer[i], 1, suite.encr_id, bits));
    }
}

} // verus!
