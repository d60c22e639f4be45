//! What holds of an `IKE_AUTH` exchange between two ends that share a secret.

use vstd::prelude::*;

use crate::bytes;
use crate::error::Failure;
use crate::ikev2::child;
use crate::ikev2::child::ChildTsOffer;
use crate::ikev2::exchange::Completed;
use crate::ikev2::ike_auth::{
    answered, assigned_ip, auth_header, child_of, child_taken, granted_parts, initiator_octets, mobike_part,
    psk_proof, request_parts, responder_octets, response_parts, verified, Answer, Assigned, Config, Found, Gotten,
    Granted, Prover, Verified, Verifier,
};
use crate::ikev2::message;
use crate::ikev2::message::{Framed, PayloadType};
use crate::ikev2::mobike::bare_notice;
use crate::ikev2::negotiate;
use crate::ikev2::negotiate::has_type;
use crate::ikev2::payload::basic;
use crate::ikev2::payload::config;
use crate::ikev2::payload::config::{Setting, Settings};
use crate::ikev2::payload::identity;
use crate::ikev2::payload::sa;
use crate::ikev2::payload::sa::{Offered, Transform};
use crate::ikev2::payload::ts;
use crate::ikev2::payload::ts::Selector;
use crate::ikev2::payload::{notify_type, protocol_id, transform_id, transform_type};
use crate::role::Role;

verus! {

broadcast use crate::bytes::group_lengths;

impl Found {
    /// The payloads of a list from index `from` on taken in, one after the other.
    pub open spec fn with_from(self, parts: Seq<(PayloadType, Seq<u8>)>, from: int) -> Result<Found, Failure>
        decreases parts.len() - from,
    {
        if from < 0 || from >= parts.len() {
            Ok(self)
        } else {
            match self.with((Framed { payload_type: parts[from].0, critical: false, data: parts[from].1 })) {
                Err(failure) => Err(failure),
                Ok(more) => more.with_from(parts, from + 1),
            }
        }
    }
}

/// A chain that was written for a list of payloads is taken in as that list.
proof fn lemma_list_taken_in(found: Found, parts: Seq<(PayloadType, Seq<u8>)>, from: int)
    requires
        message::frameable(parts),
        0 <= from <= parts.len(),
    ensures
        found.with_all(message::first_type(parts.skip(from)), message::encoded(parts.skip(from))) == found.with_from(
            parts,
            from,
        ),
    decreases parts.len() - from,
{
    let rest = parts.skip(from);
    if from < parts.len() {
        assert(message::frameable(rest)) by {
            assert forall|i: int| 0 <= i < rest.len() implies {
                &&& (#[trigger] rest[i]).0.canonical()
                &&& rest[i].0 != PayloadType::NoNext
                &&& 4 + rest[i].1.len() < 0x1_0000
            } by {
                assert(rest[i] == parts[from + i]);
            }
        }
        message::lemma_encoded_head(rest);
        assert(rest.drop_first() =~= parts.skip(from + 1));
        assert(rest[0] == parts[from]);
        let payload = Framed { payload_type: parts[from].0, critical: false, data: parts[from].1 };
        if let Ok(more) = found.with(payload) {
            lemma_list_taken_in(more, parts, from + 1);
        }
    }
}

/// Whether every proposal of an offer has as many transforms as can be counted.
pub open spec fn countable(offer: Seq<Offered>) -> bool {
    forall|i: int| 0 <= i < offer.len() ==> (#[trigger] offer[i]).transforms.len() < 0x100
}

proof fn lemma_without_dh_len(transforms: Seq<Transform>)
    ensures
        child::without_dh(transforms).len() <= transforms.len(),
    decreases transforms.len(),
{
    if transforms.len() > 0 {
        lemma_without_dh_len(transforms.drop_last());
    }
}

proof fn lemma_sai2_reads_back(offer: Seq<Offered>, spi: u32)
    requires
        countable(offer),
    ensures
        sa::read_proposals(sa::proposal_octets(child::sai2_of(offer, spi))) == Ok::<Seq<Offered>, Failure>(
            child::sai2_of(offer, spi),
        ),
{
    let sent = child::sai2_of(offer, spi);
    assert forall|i: int| 0 <= i < sent.len() implies (#[trigger] sent[i]).encodable() && sent[i].octets(
        true,
    ).len() < 0x1_0000 by {
        assert(sent[i] == child::stamped(offer[i], spi));
        assert(offer[i].transforms.len() < 0x100);
        lemma_without_dh_len(offer[i].transforms);
        sa::lemma_proposal_len(sent[i], true);
    }
    sa::law_sa_round_trip(sent);
}

/// What is offered of traffic selectors reads back.
pub proof fn lemma_ts_offer_reads_back(ts_offer: ChildTsOffer)
    ensures
        ts::read(ts::octets(ts_offer.ts())) == Ok::<Seq<Selector>, Failure>(ts_offer.ts()),
{
    assert forall|i: int| 0 <= i < ts_offer.ts().len() implies (#[trigger] ts_offer.ts()[i]).encodable() by {
        assert(Selector::ipv4_any().encodable());
        assert(Selector::ipv6_any().encodable());
    }
    ts::law_selectors_round_trip(ts_offer.ts());
}

/// A notify without data reads back.
pub proof fn lemma_bare_notice(notify_type: u16)
    ensures
        basic::Notice::read(bare_notice(notify_type).octets()) == Ok::<basic::Notice, Failure>(
            bare_notice(notify_type),
        ),
{
    basic::law_notify_round_trip(bare_notice(notify_type));
}

/// What a responder gets out of a pre-shared-key request.
pub open spec fn requested(
    sa: Completed,
    cfg: Config,
    psk: Seq<u8>,
    child_spi: u32,
    want_cfg: bool,
    offer: Seq<Offered>,
    ts_offer: ChildTsOffer,
) -> Gotten {
    Gotten {
        id_body: cfg.id.octets(),
        auth: psk_proof(sa.suite.prf(), psk, initiator_octets(sa, cfg.id.octets())),
        certs: Seq::empty(),
        child_sa: Some(child::sai2_of(offer, child_spi)),
        assigned_ip4: None,
        tsi: Some(ts_offer.ts()),
        tsr: Some(ts_offer.ts()),
        initial_contact: true,
        child_error: None,
        mobike_supported: false,
    }
}

proof fn lemma_config_request()
    ensures
        Settings::read(Settings::request_ipv4().octets()) == Ok::<Settings, Failure>(Settings::request_ipv4()),
        Settings::request_ipv4().assigned_ipv4() is None,
{
    config::law_configuration_round_trip(Settings::request_ipv4());
    reveal_with_fuel(config::first_address, 5);
}

/// A pre-shared-key request reads back as what was put into it.
pub proof fn law_psk_request_reads_back(
    sa: Completed,
    cfg: Config,
    psk: Seq<u8>,
    child_spi: u32,
    want_cfg: bool,
    offer: Seq<Offered>,
    ts_offer: ChildTsOffer,
)
    requires
        cfg.local == Prover::Psk(psk),
        cfg.peer is Psk,
        countable(offer),
        message::frameable(request_parts(sa, cfg, child_spi, want_cfg, offer, ts_offer)),
    ensures
        ({
            let parts = request_parts(sa, cfg, child_spi, want_cfg, offer, ts_offer);
            Gotten::read(message::first_type(parts), message::encoded(parts)) == Ok::<Gotten, Failure>(
                requested(sa, cfg, psk, child_spi, want_cfg, offer, ts_offer),
            )
        }),
{
    let parts = request_parts(sa, cfg, child_spi, want_cfg, offer, ts_offer);
    let got = requested(sa, cfg, psk, child_spi, want_cfg, offer, ts_offer);
    let auth = got.auth;
    let f0 = Found::nothing();
    let f1 = Found { id_body: Some(cfg.id.octets()), ..f0 };
    let f2 = Found { initial_contact: true, ..f1 };
    let f3 = Found { auth: Some(auth), ..f2 };
    let f4 = Found { child_sa: Some(child::sai2_of(offer, child_spi)), ..f3 };
    let f5 = Found { tsi: Some(ts_offer.ts()), ..f4 };
    let f6 = Found { tsr: Some(ts_offer.ts()), ..f5 };
    lemma_takes_id(f0, PayloadType::IdInitiator, cfg.id.octets());
    lemma_takes_request(f1);
    lemma_takes_notify(f1, notify_type::INITIAL_CONTACT);
    lemma_takes_auth(f2, auth);
    lemma_takes_sai2(f3, offer, child_spi);
    lemma_ts_offer_reads_back(ts_offer);
    lemma_takes_tsi(f4, ts_offer.ts());
    lemma_takes_tsr(f5, ts_offer.ts());
    lemma_request_list(sa, cfg, psk, child_spi, want_cfg, offer, ts_offer);
    let p0 = Seq::<(PayloadType, Seq<u8>)>::empty();
    let id = (PayloadType::IdInitiator, cfg.id.octets());
    let asked = (PayloadType::Configuration, Settings::request_ipv4().octets());
    let contact = (PayloadType::Notify, bare_notice(notify_type::INITIAL_CONTACT).octets());
    let proved = (PayloadType::Authentication, auth.octets());
    let offered = (PayloadType::SecurityAssociation, sa::proposal_octets(child::sai2_of(offer, child_spi)));
    let tsi = (PayloadType::TrafficSelectorInitiator, ts::octets(ts_offer.ts()));
    let tsr = (PayloadType::TrafficSelectorResponder, ts::octets(ts_offer.ts()));
    assert(walks(p0, seq![f0]));
    lemma_walk_on(p0, seq![f0], id, f1);
    let (p1, s1) = (p0.push(id), seq![f0].push(f1));
    let (p2, s2) = if want_cfg {
        lemma_walk_on(p1, s1, asked, f1);
        (p1.push(asked), s1.push(f1))
    } else {
        (p1, s1)
    };
    lemma_walk_on(p2, s2, contact, f2);
    lemma_walk_on(p2.push(contact), s2.push(f2), proved, f3);
    let (p3, s3) = (p2.push(contact).push(proved), s2.push(f2).push(f3));
    lemma_walk_on(p3, s3, offered, f4);
    lemma_walk_on(p3.push(offered), s3.push(f4), tsi, f5);
    lemma_walk_on(p3.push(offered).push(tsi), s3.push(f4).push(f5), tsr, f6);
    let (p4, s4) = (p3.push(offered).push(tsi).push(tsr), s3.push(f4).push(f5).push(f6));
    assert(parts =~= p4);
    assert(s4[0] == f0);
    assert(f1.with_notify(notify_type::INITIAL_CONTACT) == f2);
    lemma_all_taken(parts, s4);
}

proof fn lemma_request_list(
    sa: Completed,
    cfg: Config,
    psk: Seq<u8>,
    child_spi: u32,
    want_cfg: bool,
    offer: Seq<Offered>,
    ts_offer: ChildTsOffer,
)
    requires
        cfg.local == Prover::Psk(psk),
        cfg.peer is Psk,
    ensures
        ({
            let auth = psk_proof(sa.suite.prf(), psk, initiator_octets(sa, cfg.id.octets()));
            let id = (PayloadType::IdInitiator, cfg.id.octets());
            let asked = (PayloadType::Configuration, Settings::request_ipv4().octets());
            let contact = (PayloadType::Notify, bare_notice(notify_type::INITIAL_CONTACT).octets());
            let proved = (PayloadType::Authentication, auth.octets());
            let offered = (
                PayloadType::SecurityAssociation,
                sa::proposal_octets(child::sai2_of(offer, child_spi)),
            );
            let tsi = (PayloadType::TrafficSelectorInitiator, ts::octets(ts_offer.ts()));
            let tsr = (PayloadType::TrafficSelectorResponder, ts::octets(ts_offer.ts()));
            request_parts(sa, cfg, child_spi, want_cfg, offer, ts_offer) == if want_cfg {
                seq![id, asked, contact, proved, offered, tsi, tsr]
            } else {
                seq![id, contact, proved, offered, tsi, tsr]
            }
        }),
{
    let parts = request_parts(sa, cfg, child_spi, want_cfg, offer, ts_offer);
    assert(parts.len() == if want_cfg { 7int } else { 6 });
}

proof fn lemma_takes_id(found: Found, kind: PayloadType, body: Seq<u8>)
    requires
        kind == PayloadType::IdInitiator || kind == PayloadType::IdResponder,
    ensures
        takes(found, (kind, body), (Found { id_body: Some(body), ..found })),
{
    reveal(takes);
}

proof fn lemma_takes_request(found: Found)
    requires
        found.assigned_ip4 is None,
    ensures
        takes(found, (PayloadType::Configuration, Settings::request_ipv4().octets()), found),
{
    reveal(takes);
    lemma_config_request();
}

proof fn lemma_takes_notify(found: Found, notify_type: u16)
    ensures
        takes(found, (PayloadType::Notify, bare_notice(notify_type).octets()), found.with_notify(notify_type)),
{
    reveal(takes);
    lemma_bare_notice(notify_type);
}

proof fn lemma_takes_auth(found: Found, auth: identity::Proof)
    ensures
        takes(found, (PayloadType::Authentication, auth.octets()), (Found { auth: Some(auth), ..found })),
{
    reveal(takes);
    identity::law_authentication_round_trip(auth);
}

proof fn lemma_takes_sai2(found: Found, offer: Seq<Offered>, spi: u32)
    requires
        countable(offer),
    ensures
        takes(
            found,
            (PayloadType::SecurityAssociation, sa::proposal_octets(child::sai2_of(offer, spi))),
            (Found { child_sa: Some(child::sai2_of(offer, spi)), ..found }),
        ),
{
    reveal(takes);
    lemma_sai2_reads_back(offer, spi);
}

proof fn lemma_takes_tsi(found: Found, selectors: Seq<Selector>)
    requires
        ts::read(ts::octets(selectors)) == Ok::<Seq<Selector>, Failure>(selectors),
    ensures
        takes(
            found,
            (PayloadType::TrafficSelectorInitiator, ts::octets(selectors)),
            (Found { tsi: Some(selectors), ..found }),
        ),
{
    reveal(takes);
}

proof fn lemma_takes_tsr(found: Found, selectors: Seq<Selector>)
    requires
        ts::read(ts::octets(selectors)) == Ok::<Seq<Selector>, Failure>(selectors),
    ensures
        takes(
            found,
            (PayloadType::TrafficSelectorResponder, ts::octets(selectors)),
            (Found { tsr: Some(selectors), ..found }),
        ),
{
    reveal(takes);
}

/// Whether taking one payload in gets from `before` to `after`.
#[verifier::opaque]
spec fn takes(before: Found, part: (PayloadType, Seq<u8>), after: Found) -> bool {
    before.with((Framed { payload_type: part.0, critical: false, data: part.1 })) == Ok::<Found, Failure>(after)
}

proof fn lemma_taken_from(parts: Seq<(PayloadType, Seq<u8>)>, states: Seq<Found>, from: int)
    requires
        states.len() == parts.len() + 1,
        forall|k: int| 0 <= k < parts.len() ==> takes(states[k], #[trigger] parts[k], states[k + 1]),
        0 <= from <= parts.len(),
    ensures
        states[from].with_from(parts, from) == Ok::<Found, Failure>(states.last()),
    decreases parts.len() - from,
{
    if from < parts.len() {
        reveal(takes);
        assert(takes(states[from], parts[from], states[from + 1]));
        lemma_taken_from(parts, states, from + 1);
    }
}

/// A chain that was written for a list of payloads is taken in step by step.
proof fn lemma_all_taken(parts: Seq<(PayloadType, Seq<u8>)>, states: Seq<Found>)
    requires
        message::frameable(parts),
        states.len() == parts.len() + 1,
        forall|k: int| 0 <= k < parts.len() ==> takes(states[k], #[trigger] parts[k], states[k + 1]),
        states[0] == Found::nothing(),
    ensures
        Found::nothing().with_all(message::first_type(parts), message::encoded(parts)) == Ok::<Found, Failure>(
            states.last(),
        ),
{
    lemma_taken_from(parts, states, 0);
    lemma_list_taken_in(Found::nothing(), parts, 0);
    assert(parts.skip(0) =~= parts);
}

/// Whether the proposals of an offer are told apart by their numbers and protocols.
pub open spec fn numbered_apart(offer: Seq<Offered>) -> bool {
    forall|i: int, j: int|
        0 <= i < j < offer.len() ==> (#[trigger] offer[i]).num != (#[trigger] offer[j]).num || offer[i].protocol_id
            != offer[j].protocol_id
}

proof fn lemma_no_dh(transforms: Seq<Transform>)
    ensures
        !has_type(child::without_dh(transforms), transform_type::DH),
    decreases transforms.len(),
{
    if transforms.len() > 0 {
        lemma_no_dh(transforms.drop_last());
        let before = child::without_dh(transforms.drop_last());
        let all = child::without_dh(transforms);
        if has_type(all, transform_type::DH) {
            let k = choose|k: int| 0 <= k < all.len() && (#[trigger] all[k]).transform_type == transform_type::DH;
            if k < before.len() {
                assert(before[k].transform_type == transform_type::DH);
            }
        }
    }
}

proof fn lemma_sent_is_plain(offer: Seq<Offered>, spi: u32)
    requires
        numbered_apart(offer),
    ensures
        child::plain_offer(child::sai2_of(offer, spi)),
{
    let sent = child::sai2_of(offer, spi);
    assert forall|i: int| 0 <= i < sent.len() implies !has_type(
        (#[trigger] sent[i]).transforms,
        transform_type::DH,
    ) by {
        lemma_no_dh(offer[i].transforms);
    }
    assert forall|i: int, j: int| 0 <= i < j < sent.len() implies (#[trigger] sent[i]).num != (#[trigger] sent[j]).num
        || sent[i].protocol_id != sent[j].protocol_id by {
        assert(offer[i].num != offer[j].num || offer[i].protocol_id != offer[j].protocol_id);
    }
}

/// What an offer is answered with does not depend on the SPI it is sent with, but
/// for the SPI that is learned.
proof fn lemma_answer_whatever_spi(offer: Seq<Offered>, a: u32, b: u32, child_spi: u32, from: int)
    requires
        0 <= from <= offer.len(),
    ensures
        match child::answered_from(child::sai2_of(offer, a), child_spi, from) {
            None => child::answered_from(child::sai2_of(offer, b), child_spi, from) is None,
            Some((sar2, spi)) => spi == a && child::answered_from(child::sai2_of(offer, b), child_spi, from) == Some(
                (sar2, b),
            ),
        },
    decreases offer.len() - from,
{
    if from < offer.len() {
        assert(child::sai2_of(offer, a)[from] == child::stamped(offer[from], a));
        assert(child::sai2_of(offer, b)[from] == child::stamped(offer[from], b));
        assert(bytes::be32(a).subrange(0, 4) =~= bytes::be32(a));
        assert(bytes::be32(b).subrange(0, 4) =~= bytes::be32(b));
        bytes::lemma_at32_be32(bytes::be32(a), 0, a);
        bytes::lemma_at32_be32(bytes::be32(b), 0, b);
        lemma_answer_whatever_spi(offer, a, b, child_spi, from + 1);
    }
}

proof fn lemma_answer_names_gcm(transforms: Seq<Transform>)
    requires
        !has_type(transforms, transform_type::DH),
        child::runs(transforms),
    ensures
        negotiate::esp_suite_of(child::answering(transforms)) matches Some(suite) && suite.within_transforms(
            transforms,
        ) && suite.encr_id == transform_id::AES_GCM_16 && suite.encr_key_bits == 256 && !suite.esn,
{
    let answer = child::answering(transforms);
    reveal_with_fuel(negotiate::first_of_type, 5);
    assert(answer[0] == child::gcm256());
    assert(forall|k: int|
        0 <= k < answer.len() ==> (#[trigger] answer[k]) == child::gcm256() || answer[k] == negotiate::plain(
            transform_type::INTEG,
            0,
        ) || answer[k] == negotiate::plain(transform_type::ESN, 0));
    if has_type(transforms, transform_type::INTEG) {
        assert(answer[1] == negotiate::plain(transform_type::INTEG, 0));
    } else if has_type(transforms, transform_type::ESN) {
        assert(answer[1] == negotiate::plain(transform_type::ESN, 0));
    }
    if has_type(transforms, transform_type::ESN) {
        let k = choose|k: int|
            0 <= k < transforms.len() && transforms[k] == negotiate::plain(transform_type::ESN, 0);
        assert(negotiate::names(transforms, transform_type::ESN, transform_id::ESN_NONE));
    }
}

proof fn lemma_answer_is_taken(offer: Seq<Offered>, child_spi: u32, from: int)
    requires
        numbered_apart(offer),
        0 <= from <= offer.len(),
    ensures
        child::answered_from(child::sai2_of(offer, 0), child_spi, from) matches Some((sar2, _)) ==> {
            &&& sar2.transforms.len() <= 4
            &&& sar2.spi == bytes::be32(child_spi)
            &&& sar2.protocol_id == protocol_id::ESP
            &&& negotiate::esp_suite_of(sar2.transforms) matches Some(suite)
            &&& suite.within(child::sai2_of(offer, 0))
            &&& suite.encr_id == transform_id::AES_GCM_16 && suite.encr_key_bits == 256 && !suite.esn
        },
    decreases offer.len() - from,
{
    if from < offer.len() {
        let sent = child::sai2_of(offer, 0);
        lemma_sent_is_plain(offer, 0);
        let transforms = sent[from].transforms;
        child::lemma_without_groups(transforms);
        if sent[from].protocol_id == protocol_id::ESP && child::runs(transforms) {
            lemma_answer_names_gcm(transforms);
            let suite = negotiate::esp_suite_of(child::answering(transforms))->0;
            assert(suite.within_transforms(sent[from].transforms));
        } else {
            lemma_answer_is_taken(offer, child_spi, from + 1);
        }
    }
}

/// The CHILD SA an offer is answered with is taken by who sent the offer: with the
/// responder's SPI and AES-GCM-16/256.
pub proof fn law_child_sa_is_agreed(offer: Seq<Offered>, spi: u32, child_spi: u32)
    requires
        numbered_apart(offer),
    ensures
        child::answered_offer(child::sai2_of(offer, spi), child_spi) matches Some((sar2, peer_spi)) ==> {
            &&& peer_spi == spi
            &&& child_taken(seq![sar2], offer) matches Ok((taken_spi, Some(suite)))
            &&& taken_spi == child_spi
            &&& suite.encr_id == transform_id::AES_GCM_16 && suite.encr_key_bits == 256 && !suite.esn
        },
{
    lemma_answer_whatever_spi(offer, spi, 0, child_spi, 0);
    lemma_sent_is_plain(offer, 0);
    child::law_child_answer_is_accepted(child::sai2_of(offer, 0), child_spi);
    lemma_answer_is_taken(offer, child_spi, 0);
    if let Some((sar2, _)) = child::answered_offer(child::sai2_of(offer, 0), child_spi) {
        assert(seq![sar2][0] == sar2);
        assert(negotiate::first_esp(seq![sar2], 0) == Some(0int));
    }
}

/// What an initiator gets out of a pre-shared-key response.
pub open spec fn responded(
    sa: Completed,
    cfg: Config,
    psk: Seq<u8>,
    child: Result<Granted, u16>,
    assigned: Option<Assigned>,
    mobike: bool,
) -> Gotten {
    Gotten {
        id_body: cfg.id.octets(),
        auth: psk_proof(sa.suite.prf(), psk, responder_octets(sa, cfg.id.octets())),
        certs: Seq::empty(),
        child_sa: match child {
            Ok(granted) => Some(seq![granted.sar2]),
            Err(_) => None,
        },
        assigned_ip4: if child is Ok {
            assigned_ip(assigned)
        } else {
            None
        },
        tsi: match child {
            Ok(granted) => Some(granted.tsi),
            Err(_) => None,
        },
        tsr: match child {
            Ok(granted) => Some(granted.tsr),
            Err(_) => None,
        },
        initial_contact: false,
        child_error: match child {
            Ok(_) => None,
            Err(error) => Some(error),
        },
        mobike_supported: mobike,
    }
}

/// Whether a granted CHILD SA reads back as what was written of it.
pub open spec fn readable(granted: Granted) -> bool {
    &&& sa::read_proposals(sa::proposal_octets(seq![granted.sar2])) == Ok::<Seq<Offered>, Failure>(
        seq![granted.sar2],
    )
    &&& ts::read(ts::octets(granted.tsi)) == Ok::<Seq<Selector>, Failure>(granted.tsi)
    &&& ts::read(ts::octets(granted.tsr)) == Ok::<Seq<Selector>, Failure>(granted.tsr)
}

/// Whether an assignment is of IPv4 addresses.
pub open spec fn of_ipv4(assigned: Option<Assigned>) -> bool {
    assigned matches Some(assigned) ==> assigned.ip.len() == 4 && (assigned.dns matches Some(dns) ==> dns.len() == 4)
}

/// A CFG_REPLY reads back, with its address.
pub proof fn lemma_reply(assigned: Assigned)
    requires
        of_ipv4(Some(assigned)),
    ensures
        Settings::read(assigned.reply().octets()) == Ok::<Settings, Failure>(assigned.reply()),
        assigned.reply().assigned_ipv4() == Some(assigned.ip),
{
    let reply = assigned.reply();
    assert(reply.attributes[0] == Setting { attr_type: config::INTERNAL_IP4_ADDRESS, value: assigned.ip });
    assert forall|i: int| 0 <= i < reply.attributes.len() implies (#[trigger] reply.attributes[i]).attr_type < 0x8000
        && reply.attributes[i].value.len() < 0x1_0000 by {
        if i > 0 {
            assert(reply.attributes[1] == Setting { attr_type: config::INTERNAL_IP4_DNS, value: assigned.dns->0 });
        }
    }
    config::law_configuration_round_trip(reply);
}

proof fn lemma_takes_reply(found: Found, assigned: Assigned)
    requires
        of_ipv4(Some(assigned)),
    ensures
        takes(
            found,
            (PayloadType::Configuration, assigned.reply().octets()),
            (Found { assigned_ip4: Some(assigned.ip), ..found }),
        ),
{
    reveal(takes);
    lemma_reply(assigned);
}

proof fn lemma_takes_sar2(found: Found, sar2: Offered)
    requires
        sa::read_proposals(sa::proposal_octets(seq![sar2])) == Ok::<Seq<Offered>, Failure>(seq![sar2]),
    ensures
        takes(
            found,
            (PayloadType::SecurityAssociation, sa::proposal_octets(seq![sar2])),
            (Found { child_sa: Some(seq![sar2]), ..found }),
        ),
{
    reveal(takes);
}

proof fn lemma_response_list(
    sa: Completed,
    cfg: Config,
    psk: Seq<u8>,
    child: Result<Granted, u16>,
    assigned: Option<Assigned>,
    mobike: bool,
)
    requires
        cfg.local == Prover::Psk(psk),
    ensures
        ({
            let auth = psk_proof(sa.suite.prf(), psk, responder_octets(sa, cfg.id.octets()));
            let front = seq![
                (PayloadType::IdResponder, cfg.id.octets()),
                (PayloadType::Authentication, auth.octets()),
            ];
            response_parts(sa, cfg, child, assigned, mobike) == front + granted_parts(child, assigned) + mobike_part(
                mobike,
            )
        }),
{
    let auth = psk_proof(sa.suite.prf(), psk, responder_octets(sa, cfg.id.octets()));
    let front = seq![(PayloadType::IdResponder, cfg.id.octets()), (PayloadType::Authentication, auth.octets())];
    let back = granted_parts(child, assigned) + mobike_part(mobike);
    assert(response_parts(sa, cfg, child, assigned, mobike) =~= front + granted_parts(child, assigned)
        + mobike_part(mobike));
}

/// Whether taking `parts` in goes through `states`.
spec fn walks(parts: Seq<(PayloadType, Seq<u8>)>, states: Seq<Found>) -> bool {
    &&& states.len() == parts.len() + 1
    &&& forall|k: int| 0 <= k < parts.len() ==> takes(states[k], #[trigger] parts[k], states[k + 1])
}

proof fn lemma_walk_on(
    parts: Seq<(PayloadType, Seq<u8>)>,
    states: Seq<Found>,
    part: (PayloadType, Seq<u8>),
    next: Found,
)
    requires
        walks(parts, states),
        takes(states.last(), part, next),
    ensures
        walks(parts.push(part), states.push(next)),
{
    let longer = parts.push(part);
    let more = states.push(next);
    assert forall|k: int| 0 <= k < longer.len() implies takes(more[k], #[trigger] longer[k], more[k + 1]) by {
        if k < parts.len() {
            assert(takes(states[k], parts[k], states[k + 1]));
        }
    }
}

/// A pre-shared-key response reads back as what was put into it.
pub proof fn law_psk_response_reads_back(
    sa: Completed,
    cfg: Config,
    psk: Seq<u8>,
    child: Result<Granted, u16>,
    assigned: Option<Assigned>,
    mobike: bool,
)
    requires
        cfg.local == Prover::Psk(psk),
        of_ipv4(assigned),
        child matches Ok(granted) ==> readable(granted),
        child matches Err(error) ==> notify_type::child_sa_error(error),
        message::frameable(response_parts(sa, cfg, child, assigned, mobike)),
    ensures
        ({
            let parts = response_parts(sa, cfg, child, assigned, mobike);
            Gotten::read(message::first_type(parts), message::encoded(parts)) == Ok::<Gotten, Failure>(
                responded(sa, cfg, psk, child, assigned, mobike),
            )
        }),
{
    let auth = psk_proof(sa.suite.prf(), psk, responder_octets(sa, cfg.id.octets()));
    let id = (PayloadType::IdResponder, cfg.id.octets());
    let proved = (PayloadType::Authentication, auth.octets());
    let f0 = Found::nothing();
    let f1 = Found { id_body: Some(cfg.id.octets()), ..f0 };
    let f2 = Found { auth: Some(auth), ..f1 };
    lemma_takes_id(f0, PayloadType::IdResponder, cfg.id.octets());
    lemma_takes_auth(f1, auth);
    let p0 = Seq::<(PayloadType, Seq<u8>)>::empty();
    assert(walks(p0, seq![f0]));
    lemma_walk_on(p0, seq![f0], id, f1);
    lemma_walk_on(p0.push(id), seq![f0].push(f1), proved, f2);
    let p2 = p0.push(id).push(proved);
    let s2 = seq![f0].push(f1).push(f2);
    let (p3, s3) = lemma_walk_child(p2, s2, child, assigned);
    let f3 = s3.last();
    let (p4, s4) = if mobike {
        lemma_takes_notify(f3, notify_type::MOBIKE_SUPPORTED);
        let told = (PayloadType::Notify, bare_notice(notify_type::MOBIKE_SUPPORTED).octets());
        lemma_walk_on(p3, s3, told, f3.with_notify(notify_type::MOBIKE_SUPPORTED));
        (p3.push(told), s3.push(f3.with_notify(notify_type::MOBIKE_SUPPORTED)))
    } else {
        (p3, s3)
    };
    lemma_response_list(sa, cfg, psk, child, assigned, mobike);
    let parts = response_parts(sa, cfg, child, assigned, mobike);
    assert(parts =~= p4);
    assert(s4[0] == Found::nothing());
    lemma_all_taken(parts, s4);
}

proof fn lemma_walk_child(
    parts: Seq<(PayloadType, Seq<u8>)>,
    states: Seq<Found>,
    child: Result<Granted, u16>,
    assigned: Option<Assigned>,
) -> (out: (Seq<(PayloadType, Seq<u8>)>, Seq<Found>))
    requires
        walks(parts, states),
        states.last().child_error is None,
        of_ipv4(assigned),
        child matches Ok(granted) ==> readable(granted),
        child matches Err(error) ==> notify_type::child_sa_error(error),
    ensures
        out.0 == parts + granted_parts(child, assigned),
        walks(out.0, out.1),
        out.1[0] == states[0],
        out.1.last() == (match child {
            Ok(granted) => Found {
                child_sa: Some(seq![granted.sar2]),
                tsi: Some(granted.tsi),
                tsr: Some(granted.tsr),
                assigned_ip4: if assigned is Some {
                    assigned_ip(assigned)
                } else {
                    states.last().assigned_ip4
                },
                ..states.last()
            },
            Err(error) => Found { child_error: Some(error), ..states.last() },
        }),
{
    let f = states.last();
    match child {
        Err(error) => {
            lemma_takes_notify(f, error);
            let told = (PayloadType::Notify, bare_notice(error).octets());
            lemma_walk_on(parts, states, told, f.with_notify(error));
            assert(parts.push(told) =~= parts + granted_parts(child, assigned));
            (parts.push(told), states.push(f.with_notify(error)))
        },
        Ok(granted) => {
            let (p1, s1) = match assigned {
                Some(assigned) => {
                    lemma_takes_reply(f, assigned);
                    let reply = (PayloadType::Configuration, assigned.reply().octets());
                    let f1 = Found { assigned_ip4: Some(assigned.ip), ..f };
                    lemma_walk_on(parts, states, reply, f1);
                    (parts.push(reply), states.push(f1))
                },
                None => (parts, states),
            };
            let f1 = s1.last();
            let f2 = Found { child_sa: Some(seq![granted.sar2]), ..f1 };
            let f3 = Found { tsi: Some(granted.tsi), ..f2 };
            let f4 = Found { tsr: Some(granted.tsr), ..f3 };
            let offered = (PayloadType::SecurityAssociation, sa::proposal_octets(seq![granted.sar2]));
            let tsi = (PayloadType::TrafficSelectorInitiator, ts::octets(granted.tsi));
            let tsr = (PayloadType::TrafficSelectorResponder, ts::octets(granted.tsr));
            lemma_takes_sar2(f1, granted.sar2);
            lemma_takes_tsi(f2, granted.tsi);
            lemma_takes_tsr(f3, granted.tsr);
            lemma_walk_on(p1, s1, offered, f2);
            lemma_walk_on(p1.push(offered), s1.push(f2), tsi, f3);
            lemma_walk_on(p1.push(offered).push(tsi), s1.push(f2).push(f3), tsr, f4);
            assert(p1.push(offered).push(tsi).push(tsr) =~= parts + granted_parts(child, assigned));
            (p1.push(offered).push(tsi).push(tsr), s1.push(f2).push(f3).push(f4))
        },
    }
}

proof fn lemma_narrowed_len(selectors: Seq<Selector>, policy: Selector)
    ensures
        ts::narrowed(selectors, seq![policy]).len() <= selectors.len(),
    decreases selectors.len(),
{
    if selectors.len() > 0 {
        lemma_narrowed_len(selectors.drop_last(), policy);
        let one = seq![policy];
        assert(one.drop_last() =~= Seq::<Selector>::empty());
        assert(ts::narrowed_one(selectors.last(), one.drop_last()).len() == 0);
    }
}

/// What is left of an offer reads back, and is within it.
pub proof fn lemma_narrowed_reads_back(ts_offer: ChildTsOffer, policy: Selector)
    ensures
        ts::narrowed_to(ts_offer.ts(), seq![policy]) matches Some(left) ==> ts::read(ts::octets(left)) == Ok::<
            Seq<Selector>,
            Failure,
        >(left) && ts::all_within(left, ts_offer.ts()),
{
    let left = ts::narrowed(ts_offer.ts(), seq![policy]);
    lemma_narrowed_len(ts_offer.ts(), policy);
    ts::law_narrowing_stays_within(ts_offer.ts(), seq![policy]);
    if left.len() > 0 {
        assert forall|i: int| 0 <= i < left.len() implies (#[trigger] left[i]).encodable() by {
            assert(ts::within_one(left[i], ts_offer.ts()));
        }
        ts::law_selectors_round_trip(left);
    }
}

/// The CHILD SA that comes of an offer, when the responder has this assignment for
/// the client.
pub open spec fn agreed_child(
    offer: Seq<Offered>,
    spi: u32,
    child_spi: u32,
    ts_offer: ChildTsOffer,
    assigned: Option<Assigned>,
) -> Result<Granted, u16> {
    child_of(
        child::sai2_of(offer, spi),
        child_spi,
        child::narrowed(
            Some(ts_offer.ts()),
            Some(ts_offer.ts()),
            child::client_policy(assigned_ip(assigned)),
            child::server_policy(),
        ),
    )
}

proof fn lemma_agreed_child(
    offer: Seq<Offered>,
    spi: u32,
    child_spi: u32,
    ts_offer: ChildTsOffer,
    assigned: Option<Assigned>,
)
    requires
        numbered_apart(offer),
    ensures
        match agreed_child(offer, spi, child_spi, ts_offer, assigned) {
            Ok(granted) => {
                &&& readable(granted)
                &&& granted.peer_spi == spi
                &&& child_taken(seq![granted.sar2], offer) matches Ok((taken_spi, Some(suite)))
                &&& taken_spi == child_spi
                &&& child::granted(ts_offer.ts(), Some(granted.tsi), Some(granted.tsr)) is Ok
            },
            Err(error) => notify_type::child_sa_error(error),
        },
{
    law_child_sa_is_agreed(offer, spi, child_spi);
    let policy = child::client_policy(assigned_ip(assigned))[0];
    assert(child::client_policy(assigned_ip(assigned)) =~= seq![policy]);
    lemma_narrowed_reads_back(ts_offer, policy);
    lemma_narrowed_reads_back(ts_offer, Selector::ipv4_any());
    if let Ok(granted) = agreed_child(offer, spi, child_spi, ts_offer, assigned) {
        lemma_answer_whatever_spi(offer, spi, 0, child_spi, 0);
        lemma_answer_is_taken(offer, child_spi, 0);
        let one = seq![granted.sar2];
        sa::lemma_proposal_len(granted.sar2, true);
        assert(forall|k: int| 0 <= k < one.len() ==> #[trigger] one[k] == granted.sar2);
        sa::law_sa_round_trip(one);
    }
}

/// Two ends that came to the same SA and share a secret authenticate each other:
/// the responder learns the initiator's identity and SPI from its request, and
/// answers it; the initiator learns the responder's from that answer, with the
/// CHILD SA they agreed on, or the reason there is none.
pub proof fn law_mutual_psk_succeeds(
    sa_i: Completed,
    sa_r: Completed,
    cfg_i: Config,
    cfg_r: Config,
    psk: Seq<u8>,
    spi_i: u32,
    spi_r: u32,
    want_cfg: bool,
    offer: Seq<Offered>,
    ts_offer: ChildTsOffer,
    assigned: Option<Assigned>,
    iv: Seq<u8>,
)
    requires
        sa_i.agrees_with(sa_r),
        cfg_i.local == Prover::Psk(psk),
        cfg_i.peer == Verifier::Psk(psk),
        cfg_r.local == Prover::Psk(psk),
        cfg_r.peer == Verifier::Psk(psk),
        countable(offer),
        numbered_apart(offer),
        of_ipv4(assigned),
        message::frameable(request_parts(sa_i, cfg_i, spi_i, want_cfg, offer, ts_offer)),
        message::frameable(
            response_parts(
                sa_r,
                cfg_r,
                agreed_child(offer, spi_i, spi_r, ts_offer, assigned),
                assigned,
                false,
            ),
        ),
    ensures
        ({
            let request = request_parts(sa_i, cfg_i, spi_i, want_cfg, offer, ts_offer);
            let child = agreed_child(offer, spi_i, spi_r, ts_offer, assigned);
            let response = response_parts(sa_r, cfg_r, child, assigned, false);
            let got = answered(
                sa_r,
                cfg_r,
                spi_r,
                iv,
                assigned,
                false,
                message::first_type(request),
                message::encoded(request),
            );
            let learned = verified(
                sa_i,
                cfg_i,
                offer,
                ts_offer,
                message::first_type(response),
                message::encoded(response),
            );
            &&& match sa_r.sealed(Role::Responder, auth_header(sa_r, true), response, iv) {
                Err(failure) => got == Err::<Answer, Failure>(failure),
                Ok(wire) => got matches Ok(answer) && answer.response == wire && answer.peer_id == cfg_i.id
                    && answer.initial_contact && answer.peer_child_spi == (if child is Ok {
                    Some(spi_i)
                } else {
                    None
                }),
            }
            &&& match child {
                Ok(granted) => learned matches Ok(peer) && peer.peer_id == cfg_r.id && peer.peer_child_spi == spi_r
                    && peer.esp_suite is Some && peer.assigned_ip4 == assigned_ip(assigned) && peer.tsr == Some(
                    granted.tsr,
                ),
                Err(error) => learned == Err::<Verified, Failure>(
                    Failure::PeerRejected { notify_type: error, name: notify_type::name(error) },
                ),
            }
        }),
{
    let child = agreed_child(offer, spi_i, spi_r, ts_offer, assigned);
    law_psk_request_reads_back(sa_i, cfg_i, psk, spi_i, want_cfg, offer, ts_offer);
    lemma_agreed_child(offer, spi_i, spi_r, ts_offer, assigned);
    law_psk_response_reads_back(sa_r, cfg_r, psk, child, assigned, false);
    identity::law_identity_round_trip(cfg_i.id);
    identity::law_identity_round_trip(cfg_r.id);
    assert(initiator_octets(sa_i, cfg_i.id.octets()) == initiator_octets(sa_r, cfg_i.id.octets()));
    assert(responder_octets(sa_i, cfg_r.id.octets()) == responder_octets(sa_r, cfg_r.id.octets()));
}

} // verus!
