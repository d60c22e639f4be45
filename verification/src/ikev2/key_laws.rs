//! Which keys an IKE SA runs on and what its ends prove with them, written out over
//! HMAC, the nonces, the SPIs and the Diffie-Hellman secret.

use vstd::prelude::*;

use crate::addr::Endpoint;
use crate::bytes;
use crate::crypto::hash;
use crate::crypto::laws;
use crate::crypto::laws::keys_are;
use crate::crypto::prf;
use crate::crypto::prf::{IntegAlgorithm, PrfAlgorithm};
use crate::crypto::DhGroup;
use crate::error::Failure;
use crate::ikev2::auth;
use crate::ikev2::child::ChildTsOffer;
use crate::ikev2::exchange;
use crate::ikev2::exchange::{Completed, Gate, Heard, Reply, Secret};
use crate::ikev2::ike_auth;
use crate::ikev2::ike_auth::{Assigned, Claim, Config, Gotten, Granted, Prover, Verifier};
use crate::ikev2::ike_rekey;
use crate::ikev2::ike_rekey::Rekeying;
use crate::ikev2::informational;
use crate::ikev2::message;
use crate::ikev2::message::{ExchangeType, IkeHeader, PayloadType};
use crate::ikev2::negotiate;
use crate::ikev2::negotiate::ChosenSuite;
use crate::ikev2::payload::basic::Exchanged;
use crate::ikev2::payload::identity::Proof;
use crate::ikev2::payload::sa;
use crate::ikev2::payload::sa::Offered;
use crate::ikev2::sk;
use crate::ikev2::sk::SkCipher;
use crate::role::Role;

verus! {

/// The lengths of an SA's keys: as much as the PRF puts out for SK_d, SK_pi and SK_pr;
/// as much as the integrity algorithm's hash puts out for SK_ai and SK_ar, nothing with
/// a combined-mode cipher; and the cipher's key for SK_ei and SK_er, with 4 octets of
/// salt after it for AES-GCM (20) and ChaCha20-Poly1305 (28).
pub proof fn law_key_lengths(suite: ChosenSuite)
    requires
        suite.runnable(),
    ensures
        suite.prf_id == 1 ==> suite.lengths().prf == 16,
        suite.prf_id == 2 ==> suite.lengths().prf == 20,
        suite.prf_id == 5 ==> suite.lengths().prf == 32,
        suite.prf_id == 6 ==> suite.lengths().prf == 48,
        suite.prf_id == 7 ==> suite.lengths().prf == 64,
        suite.integ_id is None ==> suite.lengths().integ == 0,
        suite.integ_id == Some(1u16) ==> suite.lengths().integ == 16,
        suite.integ_id == Some(2u16) ==> suite.lengths().integ == 20,
        suite.integ_id == Some(12u16) ==> suite.lengths().integ == 32,
        suite.integ_id == Some(13u16) ==> suite.lengths().integ == 48,
        suite.integ_id == Some(14u16) ==> suite.lengths().integ == 64,
        suite.encr_id == 20 || suite.encr_id == 28 ==> 8 * (suite.lengths().encr - 4) == suite.encr_key_bits,
        suite.encr_id == 12 || suite.encr_id == 3 ==> 8 * suite.lengths().encr == suite.encr_key_bits,
        suite.encr_id == 20 || suite.encr_id == 12 ==> suite.encr_key_bits == 128 || suite.encr_key_bits == 192
            || suite.encr_key_bits == 256,
        suite.encr_id == 28 ==> suite.encr_key_bits == 256,
        suite.encr_id == 3 ==> suite.encr_key_bits == 192,
        suite.encr_id == 20 || suite.encr_id == 28 || suite.encr_id == 12 || suite.encr_id == 3,
        (suite.encr_id == 20 || suite.encr_id == 28) <==> suite.integ_id is None,
{
}

/// Which cipher an SA's messages are sealed with, by the numbers of its transforms.
pub proof fn law_ciphers_have_their_numbers(encr_id: u16, bits: u16, integ_id: Option<u16>)
    ensures
        SkCipher::named(20, 128, None) == Some(SkCipher::Aes128Gcm),
        SkCipher::named(20, 192, None) == Some(SkCipher::Aes192Gcm),
        SkCipher::named(20, 256, None) == Some(SkCipher::Aes256Gcm),
        SkCipher::named(28, 256, None) == Some(SkCipher::ChaCha20Poly1305),
        integ_id matches Some(id) && IntegAlgorithm::named(id) is Some ==> {
            let integ = IntegAlgorithm::named(integ_id->0)->0;
            &&& SkCipher::named(12, 128, integ_id) == Some(SkCipher::Aes128Cbc(integ))
            &&& SkCipher::named(12, 192, integ_id) == Some(SkCipher::Aes192Cbc(integ))
            &&& SkCipher::named(12, 256, integ_id) == Some(SkCipher::Aes256Cbc(integ))
            &&& SkCipher::named(3, 192, integ_id) == Some(SkCipher::TripleDesCbc(integ))
        },
        SkCipher::named(encr_id, bits, integ_id) is Some ==> {
            ||| encr_id == 20 && (bits == 128 || bits == 192 || bits == 256)
            ||| encr_id == 28 && bits == 256
            ||| encr_id == 12 && (bits == 128 || bits == 192 || bits == 256) && integ_id is Some
            ||| encr_id == 3 && bits == 192 && integ_id is Some
        },
{
}

/// Whether an SA's keys are the ones its `IKE_SA_INIT` gives: cut in order off
/// `prf+(prf(Ni | Nr, g^ir), Ni | Nr | SPIi | SPIr)` (RFC 7296 §2.14).
pub open spec fn keyed_by_init(sa: Completed, shared: Seq<u8>) -> bool {
    keys_are(
        sa.keys,
        prf::prf_plus_of(
            sa.suite.prf(),
            hash::hmac_of(sa.suite.prf().base(), sa.ni + sa.nr, shared),
            sa.ni + sa.nr + bytes::be64(sa.spi_i) + bytes::be64(sa.spi_r),
            (3 * sa.suite.lengths().prf + 2 * sa.suite.lengths().integ + 2 * sa.suite.lengths().encr) as nat,
        ),
        sa.suite.lengths().prf as int,
        sa.suite.lengths().integ as int,
        sa.suite.lengths().encr as int,
    )
}

/// An `IKE_SA_INIT` the initiator completes leaves it the SA of its own nonce as Ni and
/// the response's as Nr, of its own SPI as SPIi and the response's as SPIr, keyed by
/// them and by what its private value and the response's public one give.
pub proof fn law_initiator_keys(local: Secret, request: Seq<u8>, response: Seq<u8>)
    requires
        exchange::completed(local, request, response) is Ok,
    ensures
        ({
            let sa = exchange::completed(local, request, response)->Ok_0;
            let heard = Heard::of(response)->Ok_0;
            let group = DhGroup::named(sa.suite.dh_id)->0;
            &&& Heard::of(response) is Ok
            &&& sa.role == Role::Initiator
            &&& sa.ni == local.nonce && sa.nr == heard.nonce
            &&& sa.spi_i == local.spi && sa.spi_r == bytes::at64(response, 8)
            &&& sa.init_message == request && sa.resp_message == response
            &&& sa.peer_signature_hashes == heard.signature_hashes
            &&& sa.peer_supports_fragmentation == heard.fragmentation_supported
            &&& heard.ke.dh_group == sa.suite.dh_id
            &&& group.shared_of(local.dh_private, heard.ke.data) is Ok
            &&& keyed_by_init(sa, group.shared_of(local.dh_private, heard.ke.data)->Ok_0)
        }),
{
    reveal(exchange::completed);
    let sa = exchange::completed(local, request, response)->Ok_0;
    let heard = Heard::of(response)->Ok_0;
    let shared = DhGroup::named(sa.suite.dh_id)->0.shared_of(local.dh_private, heard.ke.data)->Ok_0;
    negotiate::lemma_selected(heard.sa);
    negotiate::lemma_chosen_runs(heard.sa[negotiate::selected(heard.sa).unwrap().0]);
    laws::law_groups_have_their_numbers(sa.suite.dh_id);
    laws::law_session_keys(
        sa.suite.prf(),
        shared,
        local.nonce,
        heard.nonce,
        local.spi,
        sa.spi_r,
        sa.suite.lengths(),
    );
}

/// An `IKE_SA_INIT` the responder answers leaves it the SA of the request's nonce as Ni
/// and its own as Nr, of the request's SPI as SPIi and its own as SPIr, keyed by them
/// and by what its private value and the request's public one give.
pub proof fn law_responder_keys(
    request: Seq<u8>,
    local: Secret,
    addresses: Option<(Endpoint, Endpoint)>,
    gate: Option<Gate>,
)
    requires
        exchange::responded(request, local, addresses, gate) matches Ok(Reply::Established { .. }),
    ensures
        ({
            let reply = exchange::responded(request, local, addresses, gate)->Ok_0;
            let sa = reply->sa;
            let heard = Heard::of(request)->Ok_0;
            let group = DhGroup::named(sa.suite.dh_id)->0;
            &&& Heard::of(request) is Ok
            &&& sa.role == Role::Responder
            &&& sa.ni == heard.nonce && sa.nr == local.nonce
            &&& sa.spi_i == bytes::at64(request, 0) && sa.spi_r == local.spi
            &&& sa.init_message == request && sa.resp_message == reply->Established_response
            &&& sa.peer_signature_hashes == heard.signature_hashes
            &&& sa.peer_supports_fragmentation == heard.fragmentation_supported
            &&& heard.ke.dh_group == sa.suite.dh_id
            &&& group.shared_of(local.dh_private, heard.ke.data) is Ok
            &&& keyed_by_init(sa, group.shared_of(local.dh_private, heard.ke.data)->Ok_0)
        }),
{
    reveal(exchange::responded);
    let sa = exchange::responded(request, local, addresses, gate)->Ok_0->sa;
    let heard = Heard::of(request)->Ok_0;
    let shared = DhGroup::named(sa.suite.dh_id)->0.shared_of(local.dh_private, heard.ke.data)->Ok_0;
    negotiate::lemma_selected(heard.sa);
    negotiate::lemma_chosen_runs(heard.sa[negotiate::selected(heard.sa).unwrap().0]);
    laws::law_groups_have_their_numbers(sa.suite.dh_id);
    laws::law_session_keys(
        sa.suite.prf(),
        shared,
        heard.nonce,
        local.nonce,
        sa.spi_i,
        local.spi,
        sa.suite.lengths(),
    );
}

/// Whether an SA's keys are the ones that rekeying `old` gives: cut in order off
/// `prf+(prf(SK_d of the old SA, g^ir | Ni | Nr), Ni | Nr | SPIi | SPIr)`
/// (RFC 7296 §2.18).
pub open spec fn keyed_by_rekey(old: Completed, sa: Completed, shared: Seq<u8>) -> bool {
    keys_are(
        sa.keys,
        prf::prf_plus_of(
            sa.suite.prf(),
            hash::hmac_of(sa.suite.prf().base(), old.keys.sk_d, shared + sa.ni + sa.nr),
            sa.ni + sa.nr + bytes::be64(sa.spi_i) + bytes::be64(sa.spi_r),
            (3 * sa.suite.lengths().prf + 2 * sa.suite.lengths().integ + 2 * sa.suite.lengths().encr) as nat,
        ),
        sa.suite.lengths().prf as int,
        sa.suite.lengths().integ as int,
        sa.suite.lengths().encr as int,
    )
}

/// A rekey the initiator completes leaves it an SA of the nonce and SPI it proposed as
/// Ni and SPIi and those answered as Nr and SPIr, of the old SA's algorithms, keyed
/// through the old SA's SK_d.
pub proof fn law_initiator_rekey_keys(
    old: Completed,
    ni: Seq<u8>,
    spi_i: u64,
    dh_private: Seq<u8>,
    first: PayloadType,
    inner: Seq<u8>,
)
    requires
        ike_rekey::completed(old, ni, spi_i, dh_private, first, inner) is Ok,
    ensures
        ({
            let sa = ike_rekey::completed(old, ni, spi_i, dh_private, first, inner)->Ok_0;
            let found = Rekeying::nothing().with_all(first, inner, true)->Ok_0;
            let offered = sa::read_proposals(found.sa->0)->Ok_0;
            let ke = Exchanged::read(found.ke->0)->Ok_0;
            let group = DhGroup::named(sa.suite.dh_id)->0;
            &&& found.sa is Some && found.nonce is Some && found.ke is Some
            &&& sa.role == Role::Initiator
            &&& sa.ni == ni && sa.nr == found.nonce->0
            &&& sa.spi_i == spi_i && bytes::be64(sa.spi_r) == offered[0].spi
            &&& sa.suite.encr_id == old.suite.encr_id && sa.suite.encr_key_bits == old.suite.encr_key_bits
            &&& sa.suite.prf_id == old.suite.prf_id && sa.suite.integ_id == old.suite.integ_id
            &&& sa.suite.dh_id == old.suite.dh_id && ke.dh_group == old.suite.dh_id
            &&& sa.peer_signature_hashes == old.peer_signature_hashes
            &&& sa.peer_supports_fragmentation == old.peer_supports_fragmentation
            &&& group.shared_of(dh_private, ke.data) is Ok
            &&& keyed_by_rekey(old, sa, group.shared_of(dh_private, ke.data)->Ok_0)
        }),
{
    let sa = ike_rekey::completed(old, ni, spi_i, dh_private, first, inner)->Ok_0;
    let found = Rekeying::nothing().with_all(first, inner, true)->Ok_0;
    let offered = sa::read_proposals(found.sa->0)->Ok_0;
    let ke = Exchanged::read(found.ke->0)->Ok_0;
    let shared = DhGroup::named(sa.suite.dh_id)->0.shared_of(dh_private, ke.data)->Ok_0;
    negotiate::lemma_selected(offered);
    negotiate::lemma_chosen_runs(offered[negotiate::selected(offered).unwrap().0]);
    laws::law_groups_have_their_numbers(sa.suite.dh_id);
    laws::law_rekey_session_keys(
        sa.suite.prf(),
        old.keys.sk_d,
        shared,
        ni,
        sa.nr,
        spi_i,
        sa.spi_r,
        sa.suite.lengths(),
    );
    bytes::law_written_as_read(offered[0].spi, 0);
    assert(offered[0].spi.subrange(0, 8) =~= offered[0].spi);
}

/// A rekey the responder grants leaves it an SA of the nonce and SPI proposed as Ni and
/// SPIi and its own as Nr and SPIr, keyed through the old SA's SK_d.
pub proof fn law_responder_rekey_keys(
    old: Completed,
    spi_r: u64,
    dh_private: Seq<u8>,
    nr: Seq<u8>,
    first: PayloadType,
    inner: Seq<u8>,
)
    requires
        ike_rekey::rekey_answered(old, spi_r, dh_private, nr, first, inner) is Ok,
    ensures
        ({
            let (parts, sa) = ike_rekey::rekey_answered(old, spi_r, dh_private, nr, first, inner)->Ok_0;
            let found = Rekeying::nothing().with_all(first, inner, false)->Ok_0;
            let offered = sa::read_proposals(found.sa->0)->Ok_0;
            let ke = Exchanged::read(found.ke->0)->Ok_0;
            let group = DhGroup::named(sa.suite.dh_id)->0;
            &&& found.sa is Some && found.nonce is Some && found.ke is Some
            &&& sa.role == Role::Responder
            &&& sa.ni == found.nonce->0 && sa.nr == nr
            &&& sa.spi_r == spi_r
            &&& exists|i: int| 0 <= i < offered.len() && bytes::be64(sa.spi_i) == (#[trigger] offered[i]).spi
            &&& ke.dh_group == sa.suite.dh_id
            &&& sa.peer_signature_hashes == old.peer_signature_hashes
            &&& sa.peer_supports_fragmentation == old.peer_supports_fragmentation
            &&& group.shared_of(dh_private, ke.data) is Ok
            &&& keyed_by_rekey(old, sa, group.shared_of(dh_private, ke.data)->Ok_0)
            &&& parts.len() == 3
            &&& parts[1] == (PayloadType::Nonce, nr)
            &&& parts[2] == (
                PayloadType::KeyExchange,
                bytes::be16(sa.suite.dh_id) + seq![0u8, 0u8] + group.public_of(dh_private),
            )
        }),
{
    let (parts, sa) = ike_rekey::rekey_answered(old, spi_r, dh_private, nr, first, inner)->Ok_0;
    let found = Rekeying::nothing().with_all(first, inner, false)->Ok_0;
    let offered = sa::read_proposals(found.sa->0)->Ok_0;
    let ke = Exchanged::read(found.ke->0)->Ok_0;
    let shared = DhGroup::named(sa.suite.dh_id)->0.shared_of(dh_private, ke.data)->Ok_0;
    negotiate::lemma_selected(offered);
    negotiate::lemma_chosen_runs(offered[negotiate::selected(offered).unwrap().0]);
    laws::law_groups_have_their_numbers(sa.suite.dh_id);
    laws::law_rekey_session_keys(
        sa.suite.prf(),
        old.keys.sk_d,
        shared,
        sa.ni,
        nr,
        sa.spi_i,
        spi_r,
        sa.suite.lengths(),
    );
    let (at, _) = negotiate::selected(offered).unwrap();
    bytes::law_written_as_read(offered[at].spi, 0);
    assert(offered[at].spi.subrange(0, 8) =~= offered[at].spi);
    assert(bytes::be64(sa.spi_i) == offered[at].spi);
}

/// The pre-shared-key AUTH value is HMAC over the signed octets, keyed with HMAC under
/// the pre-shared key over the text "Key Pad for IKEv2" (RFC 7296 §2.15).
pub proof fn law_psk_auth(algo: PrfAlgorithm, psk: Seq<u8>, octets: Seq<u8>)
    ensures
        auth::psk_value(algo, psk, octets) == hash::hmac_of(
            algo.base(),
            hash::hmac_of(algo.base(), psk, Seq::new(17, |i: int| "Key Pad for IKEv2"@[i] as u8)),
            octets,
        ),
        ike_auth::psk_proof(algo, psk, octets) == (Proof {
            method: 2,
            data: hash::hmac_of(
                algo.base(),
                hash::hmac_of(algo.base(), psk, Seq::new(17, |i: int| "Key Pad for IKEv2"@[i] as u8)),
                octets,
            ),
        }),
{
    reveal_strlit("Key Pad for IKEv2");
    assert(auth::KEY_PAD@ =~= Seq::new(17, |i: int| "Key Pad for IKEv2"@[i] as u8));
}

/// The initiator signs its first message, the responder's nonce and HMAC under SK_pi
/// over its ID; the responder signs its own first message, the initiator's nonce and
/// HMAC under SK_pr over its ID.
pub proof fn law_signed_octets(sa: Completed, id_body: Seq<u8>)
    ensures
        ike_auth::initiator_octets(sa, id_body) == sa.init_message + sa.nr + hash::hmac_of(
            sa.suite.prf().base(),
            sa.keys.sk_pi,
            id_body,
        ),
        ike_auth::responder_octets(sa, id_body) == sa.resp_message + sa.ni + hash::hmac_of(
            sa.suite.prf().base(),
            sa.keys.sk_pr,
            id_body,
        ),
{
}

/// What anyone signs is a message, a nonce and HMAC under a key over an ID, in this
/// order.
pub proof fn law_signed(algo: PrfAlgorithm, real_message: Seq<u8>, nonce: Seq<u8>, sk_p: Seq<u8>, id_body: Seq<u8>)
    ensures
        auth::signed(algo, real_message, nonce, sk_p, id_body) == real_message + nonce + hash::hmac_of(
            algo.base(),
            sk_p,
            id_body,
        ),
{
}

/// A peer that is to know a pre-shared key is taken exactly where its AUTH is of method
/// 2 and holds the value of that key over what it signs.
pub proof fn law_psk_peer_is_taken_by_its_value(psk: Seq<u8>, algo: PrfAlgorithm, got: Gotten, octets: Seq<u8>)
    ensures
        Verifier::Psk(psk).verdict(algo, got, octets) is Ok <==> got.auth.method == 2 && got.auth.data
            == hash::hmac_of(
            algo.base(),
            hash::hmac_of(algo.base(), psk, Seq::new(17, |i: int| "Key Pad for IKEv2"@[i] as u8)),
            octets,
        ),
        Verifier::Psk(psk).verdict(algo, got, octets) matches Err(failure) ==> failure == Failure::AuthFailed,
{
    law_psk_auth(algo, psk, octets);
}

/// The initiator seals with SK_ei and SK_ai, the responder with SK_er and SK_ar; each
/// opens with the other's.
pub proof fn law_keys_by_direction(sa: Completed)
    ensures
        sa.sk_e_of(Role::Initiator) == sa.keys.sk_ei,
        sa.sk_e_of(Role::Responder) == sa.keys.sk_er,
        sa.sk_a_of(Role::Initiator) == sa.keys.sk_ai,
        sa.sk_a_of(Role::Responder) == sa.keys.sk_ar,
        sa.role == Role::Initiator ==> sa.peer() == Role::Responder,
        sa.role == Role::Responder ==> sa.peer() == Role::Initiator,
{
}

/// The header of what an SA's end sends: the SA's SPIs in their places, version 2,
/// the Initiator flag exactly where it is the initiator, the Response flag exactly
/// where it answers.
pub proof fn law_header_of_an_sa(sa: Completed, exchange_type: ExchangeType, message_id: u32, is_response: bool)
    ensures
        ({
            let wire = informational::header_of(sa, exchange_type, message_id, is_response).octets();
            &&& wire.len() == 28
            &&& wire.subrange(0, 8) == bytes::be64(sa.spi_i)
            &&& wire.subrange(8, 16) == bytes::be64(sa.spi_r)
            &&& wire[17] == 0x20
            &&& wire[18] == exchange_type.octet()
            &&& wire[19] == (if sa.role == Role::Initiator { 8u8 } else { 0u8 }) + (if is_response {
                32u8
            } else {
                0u8
            })
            &&& wire.subrange(20, 24) == bytes::be32(message_id)
        }),
        ({
            let wire = ike_auth::auth_header(sa, is_response).octets();
            &&& wire.len() == 28
            &&& wire.subrange(0, 8) == bytes::be64(sa.spi_i)
            &&& wire.subrange(8, 16) == bytes::be64(sa.spi_r)
            &&& wire[17] == 0x20
            &&& wire[18] == 35
            &&& wire[19] == (if is_response { 32u8 } else { 8u8 })
            &&& wire.subrange(20, 24) == seq![0u8, 0u8, 0u8, 1u8]
        }),
{
    broadcast use bytes::group_lengths;

    reveal(IkeHeader::octets);
    let wire = informational::header_of(sa, exchange_type, message_id, is_response).octets();
    assert(wire.subrange(0, 8) =~= bytes::be64(sa.spi_i));
    assert(wire.subrange(8, 16) =~= bytes::be64(sa.spi_r));
    assert(wire.subrange(20, 24) =~= bytes::be32(message_id));
    let first = ike_auth::auth_header(sa, is_response).octets();
    assert(first.subrange(0, 8) =~= bytes::be64(sa.spi_i));
    assert(first.subrange(8, 16) =~= bytes::be64(sa.spi_r));
    bytes::law_big_endian_written(0, 1, 0);
    assert(first.subrange(20, 24) =~= bytes::be32(1));
}

/// What the holder of a pre-shared key proves itself with over some octets.
pub open spec fn psk_mac(algo: PrfAlgorithm, psk: Seq<u8>, octets: Seq<u8>) -> Seq<u8> {
    hash::hmac_of(
        algo.base(),
        hash::hmac_of(algo.base(), psk, Seq::new(17, |i: int| "Key Pad for IKEv2"@[i] as u8)),
        octets,
    )
}

/// The first `IKE_AUTH` request of the holder of a pre-shared key begins with its ID,
/// and carries an AUTH of method 2: HMAC over its first message, the responder's nonce
/// and its ID under SK_pi.
pub proof fn law_psk_request_proves_the_initiator(
    sa: Completed,
    cfg: Config,
    psk: Seq<u8>,
    child_spi: u32,
    want_cfg: bool,
    offer: Seq<Offered>,
    ts_offer: ChildTsOffer,
)
    requires
        cfg.local == Prover::Psk(psk),
    ensures
        ({
            let parts = ike_auth::request_parts(sa, cfg, child_spi, want_cfg, offer, ts_offer);
            let id = seq![cfg.id.id_type, 0u8, 0u8, 0u8] + cfg.id.data;
            let octets = sa.init_message + sa.nr + hash::hmac_of(sa.suite.prf().base(), sa.keys.sk_pi, id);
            &&& parts[0] == (PayloadType::IdInitiator, id)
            &&& parts[parts.len() - 4] == (
                PayloadType::Authentication,
                seq![2u8, 0u8, 0u8, 0u8] + psk_mac(sa.suite.prf(), psk, octets),
            )
        }),
{
    law_psk_auth(sa.suite.prf(), psk, ike_auth::initiator_octets(sa, cfg.id.octets()));
    law_signed_octets(sa, cfg.id.octets());
}

/// The `IKE_AUTH` response of the holder of a pre-shared key begins with its ID and
/// then an AUTH of method 2: HMAC over its first message, the initiator's nonce and its
/// ID under SK_pr.
pub proof fn law_psk_response_proves_the_responder(
    sa: Completed,
    cfg: Config,
    psk: Seq<u8>,
    child: Result<Granted, u16>,
    assigned: Option<Assigned>,
    mobike: bool,
)
    requires
        cfg.local == Prover::Psk(psk),
    ensures
        ({
            let parts = ike_auth::response_parts(sa, cfg, child, assigned, mobike);
            let id = seq![cfg.id.id_type, 0u8, 0u8, 0u8] + cfg.id.data;
            let octets = sa.resp_message + sa.ni + hash::hmac_of(sa.suite.prf().base(), sa.keys.sk_pr, id);
            &&& parts[0] == (PayloadType::IdResponder, id)
            &&& parts[1] == (
                PayloadType::Authentication,
                seq![2u8, 0u8, 0u8, 0u8] + psk_mac(sa.suite.prf(), psk, octets),
            )
        }),
{
    law_psk_auth(sa.suite.prf(), psk, ike_auth::responder_octets(sa, cfg.id.octets()));
    law_signed_octets(sa, cfg.id.octets());
}

/// A request a responder answers has proved its sender: by the pre-shared key over the
/// initiator's first message, the responder's nonce and the ID it gives, or by the
/// claim that was vouched for, over the same octets.
pub proof fn law_answered_request_is_proved(
    sa: Completed,
    cfg: Config,
    child_spi: u32,
    iv: Seq<u8>,
    assigned: Option<Assigned>,
    mobike: bool,
    first: PayloadType,
    inner: Seq<u8>,
)
    requires
        ike_auth::answered(sa, cfg, child_spi, iv, assigned, mobike, first, inner) is Ok,
    ensures
        ({
            let got = Gotten::read(first, inner)->Ok_0;
            let answer = ike_auth::answered(sa, cfg, child_spi, iv, assigned, mobike, first, inner)->Ok_0;
            let octets = sa.init_message + sa.nr + hash::hmac_of(sa.suite.prf().base(), sa.keys.sk_pi, got.id_body);
            &&& Gotten::read(first, inner) is Ok
            &&& match cfg.peer {
                Verifier::Psk(psk) => got.auth.method == 2 && got.auth.data == psk_mac(sa.suite.prf(), psk, octets),
                Verifier::Cert { vouched, .. } => vouched == Some(
                    Claim { certs: got.certs, auth: got.auth, octets },
                ) && got.certs.len() > 0 && (got.auth.method == 1 || got.auth.method == 9 || got.auth.method == 14),
            }
            &&& got.id_body == seq![answer.peer_id.id_type] + got.id_body.subrange(1, 4) + answer.peer_id.data
            &&& answer.initial_contact == got.initial_contact
            &&& answer.mobike == (mobike && got.mobike_supported)
        }),
{
    let got = Gotten::read(first, inner)->Ok_0;
    let answer = ike_auth::answered(sa, cfg, child_spi, iv, assigned, mobike, first, inner)->Ok_0;
    law_signed_octets(sa, got.id_body);
    if let Verifier::Psk(psk) = cfg.peer {
        law_psk_auth(sa.suite.prf(), psk, ike_auth::initiator_octets(sa, got.id_body));
    }
    assert(got.id_body =~= seq![answer.peer_id.id_type] + got.id_body.subrange(1, 4) + answer.peer_id.data);
}

/// A response an initiator takes has proved its sender: by the pre-shared key over the
/// responder's first message, the initiator's nonce and the ID it gives, or by the
/// claim that was vouched for, over the same octets.
pub proof fn law_verified_response_is_proved(
    sa: Completed,
    cfg: Config,
    offer: Seq<Offered>,
    ts_offer: ChildTsOffer,
    first: PayloadType,
    inner: Seq<u8>,
)
    requires
        ike_auth::verified(sa, cfg, offer, ts_offer, first, inner) is Ok,
    ensures
        ({
            let got = Gotten::read(first, inner)->Ok_0;
            let out = ike_auth::verified(sa, cfg, offer, ts_offer, first, inner)->Ok_0;
            let octets = sa.resp_message + sa.ni + hash::hmac_of(sa.suite.prf().base(), sa.keys.sk_pr, got.id_body);
            &&& Gotten::read(first, inner) is Ok
            &&& match cfg.peer {
                Verifier::Psk(psk) => got.auth.method == 2 && got.auth.data == psk_mac(sa.suite.prf(), psk, octets),
                Verifier::Cert { vouched, .. } => vouched == Some(
                    Claim { certs: got.certs, auth: got.auth, octets },
                ) && got.certs.len() > 0 && (got.auth.method == 1 || got.auth.method == 9 || got.auth.method == 14),
            }
            &&& got.child_sa matches Some(sar2) && sar2.len() == 1 && sar2[0].spi == bytes::be32(out.peer_child_spi)
            &&& out.assigned_ip4 == got.assigned_ip4
            &&& out.tsr == got.tsr
        }),
{
    let got = Gotten::read(first, inner)->Ok_0;
    law_signed_octets(sa, got.id_body);
    if let Verifier::Psk(psk) = cfg.peer {
        law_psk_auth(sa.suite.prf(), psk, ike_auth::responder_octets(sa, got.id_body));
    }
    let sar2 = got.child_sa->0;
    bytes::law_written_as_read(sar2[0].spi, 0);
    assert(sar2[0].spi.subrange(0, 4) =~= sar2[0].spi);
}

} // verus!
