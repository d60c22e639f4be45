//! Laws of what the messages of `IKE_AUTH` and of a rekey consist of: which payloads, in
//! which order, and what each one is taken for when it is read.

use crate::bytes;
use crate::crypto::dh::DhGroup;
use crate::crypto::prf::PrfAlgorithm;
use crate::error::Failure;
use crate::ikev2::child;
use crate::ikev2::child::ChildTsOffer;
use crate::ikev2::exchange::Completed;
use crate::ikev2::ike_auth;
use crate::ikev2::ike_auth::{Assigned, Claim, Config, Found, Granted, Gotten, Prover, Verifier};
use crate::ikev2::ike_rekey;
use crate::ikev2::ike_rekey::Rekeying;
use crate::ikev2::message::{Framed, PayloadType};
use crate::ikev2::negotiate::ChosenSuite;
use crate::ikev2::payload::cert::Presented;
use crate::ikev2::payload::config::Settings;
use crate::ikev2::payload::identity::{Identity, Proof};
use crate::ikev2::payload::sa;
use crate::ikev2::payload::sa::Offered;
use crate::ikev2::payload::ts;
use crate::ikev2::payload::ts::Selector;
use crate::role::Role;
use vstd::prelude::*;

verus! {

/// How many CERT payloads a side proves itself with: one for each certificate of its
/// chain, none with a pre-shared key.
pub open spec fn chain_len(local: Prover) -> int {
    match local {
        Prover::Psk(_) => 0,
        Prover::Cert { chain, .. } => chain.len() as int,
    }
}

/// Whether `parts` holds, from `at` on, the certificates a side proves itself with, leaf
/// first, each behind the octet 4.
pub open spec fn holds_chain(parts: Seq<(PayloadType, Seq<u8>)>, at: int, local: Prover) -> bool {
    local matches Prover::Cert { chain, .. } ==> forall|i: int|
        0 <= i < chain.len() ==> #[trigger] parts[at + i] == (PayloadType::Certificate, seq![4u8] + chain[i])
}

/// Whether `parts` holds, from `at` on, a CHILD SA's proposals and then the selectors of
/// the initiator's side before those of the responder's.
pub open spec fn holds_child(
    parts: Seq<(PayloadType, Seq<u8>)>,
    at: int,
    offered: Seq<Offered>,
    tsi: Seq<Selector>,
    tsr: Seq<Selector>,
) -> bool {
    &&& parts[at] == (PayloadType::SecurityAssociation, sa::proposal_octets(offered))
    &&& parts[at + 1] == (PayloadType::TrafficSelectorInitiator, ts::octets(tsi))
    &&& parts[at + 2] == (PayloadType::TrafficSelectorResponder, ts::octets(tsr))
}

/// The `IKE_AUTH` request: IDi; CP where an address is wanted; INITIAL_CONTACT; the
/// certificates; CERTREQ where the peer is to prove itself by certificate; AUTH; SAi2, TSi
/// and TSr. Nothing else.
pub proof fn law_request_content(
    sa: Completed,
    cfg: Config,
    child_spi: u32,
    want_cfg: bool,
    offer: Seq<Offered>,
    ts_offer: ChildTsOffer,
)
    ensures
        ({
            let parts = ike_auth::request_parts(sa, cfg, child_spi, want_cfg, offer, ts_offer);
            let asked = if want_cfg {
                1int
            } else {
                0
            };
            let wanted = if cfg.peer is Cert {
                1int
            } else {
                0
            };
            let n = chain_len(cfg.local);
            &&& parts.len() == 6 + asked + n + wanted
            &&& parts[0].0 == PayloadType::IdInitiator
            &&& want_cfg ==> parts[1] == (PayloadType::Configuration, Settings::request_ipv4().octets())
            &&& parts[1 + asked] == (PayloadType::Notify, seq![0u8, 0u8, 0x40u8, 0u8])
            &&& holds_chain(parts, 2 + asked, cfg.local)
            &&& cfg.peer is Cert ==> parts[2 + asked + n].0 == PayloadType::CertRequest
            &&& parts[2 + asked + n + wanted].0 == PayloadType::Authentication
            &&& cfg.local matches Prover::Cert { auth, .. } ==> parts[2 + asked + n + wanted].1 == auth.octets()
            &&& holds_child(parts, 3 + asked + n + wanted, child::sai2_of(offer, child_spi), ts_offer.ts(), ts_offer.ts())
        }),
{
    let parts = ike_auth::request_parts(sa, cfg, child_spi, want_cfg, offer, ts_offer);
    let contact = crate::ikev2::mobike::bare_notice(16384).octets();
    assert(contact =~= seq![0u8, 0u8, 0x40u8, 0u8]);
    if let Prover::Cert { chain, auth } = cfg.local {
        assert forall|i: int| 0 <= i < chain.len() implies #[trigger] ike_auth::cert_parts(chain)[i] == (
            PayloadType::Certificate,
            seq![4u8] + chain[i],
        ) by {
            assert(Presented::x509(chain[i]).octets() =~= seq![4u8] + chain[i]);
        }
        let asked = ike_auth::config_part(want_cfg).len();
        assert forall|i: int| 0 <= i < chain.len() implies #[trigger] parts[2 + asked + i] == (
            PayloadType::Certificate,
            seq![4u8] + chain[i],
        ) by {
            assert(parts[2 + asked + i] == ike_auth::cert_parts(chain)[i]);
        }
    }
}

/// The `IKE_AUTH` response: IDr, the certificates, AUTH, then the CHILD SA or the notify
/// that refuses it, and last MOBIKE_SUPPORTED where it is granted. An address goes out
/// before the CHILD SA it is for, and with none.
pub proof fn law_response_content(
    sa: Completed,
    cfg: Config,
    child: Result<Granted, u16>,
    assigned: Option<Assigned>,
    mobike: bool,
)
    ensures
        ({
            let parts = ike_auth::response_parts(sa, cfg, child, assigned, mobike);
            let n = chain_len(cfg.local);
            let given = if assigned is Some && child is Ok {
                1int
            } else {
                0
            };
            let moved = if mobike {
                1int
            } else {
                0
            };
            &&& parts.len() == 2 + n + (if child is Ok { 3 + given } else { 1 }) + moved
            &&& parts[0].0 == PayloadType::IdResponder
            &&& holds_chain(parts, 1, cfg.local)
            &&& parts[1 + n].0 == PayloadType::Authentication
            &&& cfg.local matches Prover::Cert { auth, .. } ==> parts[1 + n].1 == auth.octets()
            &&& given == 1 ==> parts[2 + n] == (
                PayloadType::Configuration,
                Settings::reply_ipv4(assigned->0.ip, None, assigned->0.dns).octets(),
            )
            &&& child matches Ok(granted) ==> holds_child(parts, 2 + n + given, seq![granted.sar2], granted.tsi, granted.tsr)
            &&& child matches Err(why) ==> parts[2 + n] == (
                PayloadType::Notify,
                seq![0u8, 0u8, (why / 256) as u8, (why % 256) as u8],
            )
            &&& mobike ==> parts.last() == (PayloadType::Notify, seq![0u8, 0u8, 0x40u8, 0x0cu8])
        }),
{
    let parts = ike_auth::response_parts(sa, cfg, child, assigned, mobike);
    let moved = crate::ikev2::mobike::bare_notice(16396).octets();
    assert(moved =~= seq![0u8, 0u8, 0x40u8, 0x0cu8]);
    if let Err(why) = child {
        let refused = crate::ikev2::mobike::bare_notice(why).octets();
        assert(refused =~= seq![0u8, 0u8, (why / 256) as u8, (why % 256) as u8]);
    }
    if let Prover::Cert { chain, auth } = cfg.local {
        assert forall|i: int| 0 <= i < chain.len() implies #[trigger] parts[1 + i] == (
            PayloadType::Certificate,
            seq![4u8] + chain[i],
        ) by {
            assert(parts[1 + i] == ike_auth::cert_parts(chain)[i]);
            assert(Presented::x509(chain[i]).octets() =~= seq![4u8] + chain[i]);
        }
    }
}

/// The `IKE_AUTH` request that asks for EAP: IDi and no AUTH of its own, the CHILD SA's
/// payloads, and last INITIAL_CONTACT.
pub proof fn law_eap_request_content(
    id: Identity,
    child_spi: u32,
    want_cfg: bool,
    offer: Seq<Offered>,
    ts_offer: ChildTsOffer,
    middle: Seq<(PayloadType, Seq<u8>)>,
    behind: Seq<(PayloadType, Seq<u8>)>,
)
    ensures
        ({
            let parts = ike_auth::eap_request_parts(id, child_spi, want_cfg, offer, ts_offer, middle, behind);
            let asked = if want_cfg {
                1int
            } else {
                0
            };
            let m = middle.len();
            &&& parts.len() == 5 + asked + m + behind.len()
            &&& parts[0] == (PayloadType::IdInitiator, seq![id.id_type, 0u8, 0u8, 0u8] + id.data)
            &&& want_cfg ==> parts[1] == (PayloadType::Configuration, Settings::request_ipv4().octets())
            &&& parts.subrange(1 + asked, 1 + asked + m) == middle
            &&& holds_child(parts, 1 + asked + m, child::sai2_of(offer, child_spi), ts_offer.ts(), ts_offer.ts())
            &&& parts.subrange(4 + asked + m, parts.len() - 1) == behind
            &&& parts.last() == (PayloadType::Notify, seq![0u8, 0u8, 0x40u8, 0u8])
        }),
{
    let parts = ike_auth::eap_request_parts(id, child_spi, want_cfg, offer, ts_offer, middle, behind);
    let asked = ike_auth::config_part(want_cfg).len() as int;
    let contact = crate::ikev2::mobike::bare_notice(16384).octets();
    assert(contact =~= seq![0u8, 0u8, 0x40u8, 0u8]);
    assert(parts.subrange(1 + asked, 1 + asked + middle.len()) =~= middle);
    assert(parts.subrange(4 + asked + middle.len(), parts.len() - 1) =~= behind);
    assert(parts[0].1 =~= seq![id.id_type, 0u8, 0u8, 0u8] + id.data);
}

/// What each payload of an `IKE_AUTH` message is taken for. A payload that repeats
/// replaces what came before it, but certificates are gathered in order.
pub proof fn law_auth_payloads_by_type(found: Found, data: Seq<u8>, critical: bool)
    ensures
        ({
            let taken = |payload_type: PayloadType| found.with(Framed { payload_type, critical, data });
            &&& taken(PayloadType::IdInitiator) == Ok::<Found, Failure>(Found { id_body: Some(data), ..found })
            &&& taken(PayloadType::IdResponder) == Ok::<Found, Failure>(Found { id_body: Some(data), ..found })
            &&& data.len() >= 4 ==> taken(PayloadType::Authentication) == Ok::<Found, Failure>(
                Found { auth: Some(Proof { method: data[0], data: data.subrange(4, data.len() as int) }), ..found },
            )
            &&& data.len() < 4 ==> taken(PayloadType::Authentication) is Err
            &&& taken(PayloadType::SecurityAssociation) matches Ok(now) ==> now == (Found {
                child_sa: Some(sa::read_proposals(data)->Ok_0),
                ..found
            })
            &&& taken(PayloadType::TrafficSelectorInitiator) matches Ok(now) ==> now == (Found {
                tsi: Some(ts::read(data)->Ok_0),
                ..found
            })
            &&& taken(PayloadType::TrafficSelectorResponder) matches Ok(now) ==> now == (Found {
                tsr: Some(ts::read(data)->Ok_0),
                ..found
            })
            &&& taken(PayloadType::SecurityAssociation) is Ok == sa::read_proposals(data) is Ok
            &&& taken(PayloadType::TrafficSelectorInitiator) is Ok == ts::read(data) is Ok
            &&& taken(PayloadType::TrafficSelectorResponder) is Ok == ts::read(data) is Ok
            &&& data.len() >= 1 ==> taken(PayloadType::Certificate) == Ok::<Found, Failure>(
                Found { certs: found.certs.push(data.subrange(1, data.len() as int)), ..found },
            )
            &&& data.len() == 0 ==> taken(PayloadType::Certificate) == Ok::<Found, Failure>(found)
        }),
{
    assert(data.len() >= 4 ==> bytes::from(data, 4) =~= data.subrange(4, data.len() as int));
    assert(data.len() >= 1 ==> bytes::from(data, 1) =~= data.subrange(1, data.len() as int));
}

/// What each notify of an `IKE_AUTH` message is taken for, by its number. Of several
/// refusals of the CHILD SA the first stands.
pub proof fn law_auth_notifies_by_number(found: Found, number: u16)
    ensures
        found.with_notify(16384) == (Found { initial_contact: true, ..found }),
        found.with_notify(16396) == (Found { mobike_supported: true, ..found }),
        found.child_error is Some && number != 16384 && number != 16396 ==> found.with_notify(number) == found,
        found.child_error is None && (number == 14 || number == 34 || number == 36 || number == 37 || number == 38)
            ==> found.with_notify(number) == (Found { child_error: Some(number), ..found }),
        found.with_notify(number).child_error != found.child_error ==> found.child_error is None && (number == 14
            || number == 34 || number == 36 || number == 37 || number == 38),
{
}

/// An `IKE_AUTH` message is read where it names its sender and proves it, and then as it
/// was found.
pub proof fn law_auth_message_needs_id_and_auth(found: Found)
    ensures
        found.concluded() is Ok <==> found.id_body is Some && found.auth is Some,
        found.concluded() matches Ok(got) ==> {
            &&& got.id_body == found.id_body->0 && got.auth == found.auth->0 && got.certs == found.certs
            &&& got.child_sa == found.child_sa && got.assigned_ip4 == found.assigned_ip4
            &&& got.tsi == found.tsi && got.tsr == found.tsr
            &&& got.initial_contact == found.initial_contact && got.mobike_supported == found.mobike_supported
            &&& got.child_error == found.child_error
        },
{
}

/// A peer that proves itself by certificate is taken exactly if it sent certificates and
/// an AUTH of a certificate's method, and those, over these octets, are what was vouched
/// for.
pub proof fn law_cert_peer_is_taken_as_vouched(
    ca_hashes: Seq<[u8; 20]>,
    vouched: Option<Claim>,
    algo: PrfAlgorithm,
    got: Gotten,
    octets: Seq<u8>,
)
    ensures
        (Verifier::Cert { ca_hashes, vouched }).verdict(algo, got, octets) is Ok <==> (got.certs.len() > 0 && (
        got.auth.method == 1 || got.auth.method == 9 || got.auth.method == 14) && vouched == Some(
            (Claim { certs: got.certs, auth: got.auth, octets }),
        )),
{
}

/// A CHILD SA is refused with notify 14 where none of its proposals can be granted, and
/// otherwise with 38 where its selectors cannot; else it is granted as answered.
pub proof fn law_child_refusals(
    sai2: Seq<Offered>,
    child_spi: u32,
    narrowed: Result<(Seq<Selector>, Seq<Selector>), Failure>,
)
    ensures
        match ike_auth::child_of(sai2, child_spi, narrowed) {
            Err(why) => {
                &&& why == 14 <==> child::answered_offer(sai2, child_spi) is None
                &&& why == 38 <==> child::answered_offer(sai2, child_spi) is Some
                &&& why == 38 ==> narrowed is Err
            },
            Ok(granted) => {
                &&& child::answered_offer(sai2, child_spi) == Some((granted.sar2, granted.peer_spi))
                &&& narrowed == Ok::<(Seq<Selector>, Seq<Selector>), Failure>((granted.tsi, granted.tsr))
            },
        },
{
}

/// What a request whose sender is proved is answered with: the CHILD SA of its first
/// proposal that can be granted, its selectors narrowed to the address assigned to the
/// client on its side, or any IPv4 address without one, and to any IPv4 address on ours;
/// notify 14 or 38 in its place; and MOBIKE where both ends are for it. What is reported
/// is what the request said.
pub proof fn law_answered_request(
    sa: Completed,
    cfg: Config,
    child_spi: u32,
    iv: Seq<u8>,
    assigned: Option<Assigned>,
    mobike: bool,
    first: PayloadType,
    inner: Seq<u8>,
)
    requires
        ike_auth::answered(sa, cfg, child_spi, iv, assigned, mobike, first, inner) is Ok,
    ensures
        ({
            let answer = ike_auth::answered(sa, cfg, child_spi, iv, assigned, mobike, first, inner)->Ok_0;
            let got = Gotten::read(first, inner)->Ok_0;
            let side = match assigned {
                Some(assigned) => seq![Selector::ipv4_host(assigned.ip)],
                None => seq![Selector::ipv4_any()],
            };
            let tsi = ts::narrowed_to(got.tsi->0, side);
            let tsr = ts::narrowed_to(got.tsr->0, seq![Selector::ipv4_any()]);
            let granted = child::answered_offer(got.child_sa->0, child_spi);
            let (sar2, peer_spi) = granted->0;
            let child = if granted is None {
                Err::<Granted, u16>(14)
            } else if tsi is Some && tsr is Some {
                Ok::<Granted, u16>(Granted { sar2, peer_spi, tsi: tsi->0, tsr: tsr->0 })
            } else {
                Err::<Granted, u16>(38)
            };
            let both = mobike && got.mobike_supported;
            &&& got.child_sa is Some && got.tsi is Some && got.tsr is Some
            &&& sa.sealed(
                Role::Responder,
                ike_auth::auth_header(sa, true),
                ike_auth::response_parts(sa, cfg, child, assigned, both),
                iv,
            ) == Ok::<Seq<u8>, Failure>(answer.response)
            &&& answer.peer_id.id_type == got.id_body[0]
            &&& answer.peer_id.data == got.id_body.subrange(4, got.id_body.len() as int)
            &&& answer.peer_child_spi == (if child is Ok { Some(peer_spi) } else { None })
            &&& answer.initial_contact == got.initial_contact
            &&& answer.mobike == both
        }),
{
    let got = Gotten::read(first, inner)->Ok_0;
    assert(got.id_body.len() >= 4);
    assert(bytes::from(got.id_body, 4) =~= got.id_body.subrange(4, got.id_body.len() as int));
}

/// What a response whose sender is proved is reported as: who the sender is, under which
/// SPI it receives the CHILD SA, and what it granted, which is within what was asked for.
pub proof fn law_verified_response(
    sa: Completed,
    cfg: Config,
    offer: Seq<Offered>,
    ts_offer: ChildTsOffer,
    first: PayloadType,
    inner: Seq<u8>,
)
    requires
        ike_auth::verified(sa, cfg, offer, ts_offer, first, inner) is Ok,
    ensures
        ({
            let verified = ike_auth::verified(sa, cfg, offer, ts_offer, first, inner)->Ok_0;
            let got = Gotten::read(first, inner)->Ok_0;
            &&& verified.peer_id.id_type == got.id_body[0]
            &&& verified.peer_id.data == got.id_body.subrange(4, got.id_body.len() as int)
            &&& got.child_sa is Some && bytes::be32(verified.peer_child_spi) == got.child_sa->0[0].spi
            &&& verified.assigned_ip4 == got.assigned_ip4
            &&& verified.tsr == got.tsr && got.tsr is Some && got.tsi is Some
            &&& ts::all_within(got.tsi->0, ts_offer.ts()) && ts::all_within(got.tsr->0, ts_offer.ts())
        }),
{
    let got = Gotten::read(first, inner)->Ok_0;
    assert(got.id_body.len() >= 4);
    assert(bytes::from(got.id_body, 4) =~= got.id_body.subrange(4, got.id_body.len() as int));
    let spi = got.child_sa->0[0].spi;
    bytes::law_written_as_read(spi, 0);
    assert(spi.subrange(0, 4) =~= spi);
}

/// What a request for a rekey holds: one proposal of the old SA's algorithms under number
/// 1, with the new SPI; the nonce; and the public value in the old SA's group.
pub proof fn law_rekey_request_content(suite: ChosenSuite, spi_i: u64, ni: Seq<u8>, dh_private: Seq<u8>)
    ensures
        ({
            let parts = ike_rekey::rekey_request_parts(suite, spi_i, ni, dh_private);
            let offered = Offered {
                num: 1,
                protocol_id: 1,
                spi: bytes::be64(spi_i),
                transforms: suite.proposed(false).transforms,
            };
            &&& parts.len() == 3
            &&& parts[0] == (PayloadType::SecurityAssociation, sa::proposal_octets(seq![offered]))
            &&& parts[1] == (PayloadType::Nonce, ni)
            &&& parts[2] == (
                PayloadType::KeyExchange,
                seq![(suite.dh_id / 256) as u8, (suite.dh_id % 256) as u8, 0u8, 0u8] + DhGroup::named(
                    suite.dh_id,
                )->0.public_of(dh_private),
            )
        }),
{
    let parts = ike_rekey::rekey_request_parts(suite, spi_i, ni, dh_private);
    assert(parts[2].1 =~= seq![(suite.dh_id / 256) as u8, (suite.dh_id % 256) as u8, 0u8, 0u8] + DhGroup::named(
        suite.dh_id,
    )->0.public_of(dh_private));
}

/// What each payload of a rekey is taken for.
pub proof fn law_rekey_payloads_by_type(found: Rekeying, data: Seq<u8>, critical: bool, answer: bool)
    ensures
        ({
            let taken = |payload_type: PayloadType| found.with(Framed { payload_type, critical, data }, answer);
            &&& taken(PayloadType::SecurityAssociation) == Ok::<Rekeying, Failure>(Rekeying { sa: Some(data), ..found })
            &&& taken(PayloadType::Nonce) == Ok::<Rekeying, Failure>(Rekeying { nonce: Some(data), ..found })
            &&& taken(PayloadType::KeyExchange) == Ok::<Rekeying, Failure>(Rekeying { ke: Some(data), ..found })
            &&& !answer ==> taken(PayloadType::Notify) == Ok::<Rekeying, Failure>(found)
            &&& taken(PayloadType::Notify) is Err <==> answer && data.len() >= 4 + data[1] && data.len() >= 4 && data[2]
                * 256 + data[3] < 16384
        }),
{
}

} // verus!
