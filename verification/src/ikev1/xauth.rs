//! IKEv1 XAUTH (draft-beaulieu-ike-xauth) — an ISAKMP Transaction exchange
//! (RFC 2408 exchange type 6) run after Phase 1 and before Quick Mode, when
//! the negotiated auth method was XAUTH-PSK. Unlike
//! Phase 1 / Quick Mode, the **gateway** drives this exchange — it sends the
//! first message asking for credentials, not the client:
//!
//! ```text
//! R (gateway)  →  HDR*, ATTR(REQUEST, [XAUTH_TYPE, XAUTH_USER_NAME, XAUTH_USER_PASSWORD])
//! I (client)   →  HDR*, ATTR(REPLY, [XAUTH_TYPE, XAUTH_USER_NAME=user, XAUTH_USER_PASSWORD=pass])
//! R (gateway)  →  HDR*, ATTR(SET, [XAUTH_STATUS])
//! I (client)   →  HDR*, ATTR(ACK, [])
//! ```
//!
//! Each REQUEST/SET is its own message-id, chosen by the gateway; its IV seeds
//! fresh from `phase1_iv` (RFC 2409 App. B, [`phase2_iv`]), and the paired REPLY/ACK
//! chains forward from it. The HASH each
//! message carries is the generic `prf(SKEYID_a, M-ID | payloads)` form —
//! exactly what [`parse_encrypted`]/[`build_encrypted`]
//! implement, so this module only supplies the XAUTH-specific payload content.

use vstd::prelude::*;

use crate::bytes;
use crate::error::{viewed, Failure, IkeError};
use crate::ikev1::isakmp;
use crate::ikev1::isakmp::{exchange, payload, Head, IsakmpHeader, VERSION_1_0};
use crate::ikev1::modecfg;
use crate::ikev1::modecfg::{cfg, cfg_attr, xauth_status, xauth_type, Attribute, Config, ConfigPayload, Datum, Worth};
use crate::ikev1::phase1::{phase2_iv, IsakmpSa, Phase1State};
use crate::ikev1::phase2::{build_encrypted, parse_encrypted};

verus! {

/// The header of a Transaction message under this Message ID.
pub open spec fn transaction_head(sa: IsakmpSa, message_id: u32) -> Head {
    Head {
        init_cookie: sa.cky_i,
        resp_cookie: sa.cky_r,
        next_payload: payload::NONE,
        version: VERSION_1_0,
        exchange_type: exchange::TRANSACTION,
        flags: 0,
        message_id,
        length: 0,
    }
}

/// The header of a Transaction message under this Message ID.
pub fn xauth_header(st: &Phase1State, message_id: u32) -> (header: IsakmpHeader)
    ensures
        header@ == transaction_head(st@, message_id),
{
    IsakmpHeader {
        init_cookie: st.cky_i,
        resp_cookie: st.cky_r,
        next_payload: payload::NONE,
        version: VERSION_1_0,
        exchange_type: exchange::TRANSACTION,
        flags: 0,
        message_id,
        length: 0,
    }
}

/// The body of the first ATTRIBUTE payload, from index `from` on.
pub open spec fn attribute_from(list: Seq<(u8, Seq<u8>)>, from: int) -> Option<Seq<u8>>
    decreases list.len() - from,
{
    if from < 0 || from >= list.len() {
        None
    } else if list[from].0 == payload::ATTRIBUTE {
        Some(list[from].1)
    } else {
        attribute_from(list, from + 1)
    }
}

/// The body of the first ATTRIBUTE payload.
pub fn attribute_payload(list: &[(u8, Vec<u8>)]) -> (body: Option<&Vec<u8>>)
    ensures
        match body {
            Some(body) => attribute_from(isakmp::bodies(list@), 0) == Some(body@),
            None => attribute_from(isakmp::bodies(list@), 0) is None,
        },
{
    let ghost all = isakmp::bodies(list@);
    for i in 0..list.len()
        invariant
            all == isakmp::bodies(list@),
            attribute_from(all, 0) == attribute_from(all, i as int),
    {
        assert(all[i as int] == (list@[i as int].0, list@[i as int].1@));
        if list[i].0 == payload::ATTRIBUTE {
            return Some(&list[i].1);
        }
    }
    None
}

/// What the gateway's Transaction message says: its Message ID, what it asks or
/// sets, and the IV to answer it with.
pub open spec fn transaction(sa: IsakmpSa, message: Seq<u8>, want: u8, otherwise: Seq<char>) -> Result<
    (u32, Config, Seq<u8>),
    Failure,
> {
    match Head::read(message) {
        Err(failure) => Err(failure),
        Ok(header) => if header.exchange_type != exchange::TRANSACTION {
            Err(Failure::Crypto("expected a Transaction (XAUTH) message"@))
        } else {
            match sa.opened(message, sa.iv_for(header.message_id)) {
                Err(failure) => Err(failure),
                Ok((_, list, iv)) => match attribute_from(list, 0) {
                    None => Err(Failure::MissingPayload("ATTRIBUTE"@)),
                    Some(body) => match Config::read(body) {
                        Err(failure) => Err(failure),
                        Ok(config) => if config.cfg_type != want {
                            Err(Failure::Crypto(otherwise))
                        } else {
                            Ok((header.message_id, config, iv))
                        },
                    },
                },
            }
        },
    }
}

/// What a Transaction message says, taken by its view.
pub open spec fn viewed_transaction(result: Result<(u32, ConfigPayload, Vec<u8>), IkeError>) -> Result<
    (u32, Config, Seq<u8>),
    Failure,
> {
    match result {
        Ok((message_id, config, iv)) => Ok((message_id, config@, iv@)),
        Err(error) => Err(error@),
    }
}

/// Open the gateway's Transaction message.
fn open_transaction(st: &Phase1State, message: &[u8], want: u8, otherwise: &'static str) -> (out: Result<
    (u32, ConfigPayload, Vec<u8>),
    IkeError,
>)
    ensures
        viewed_transaction(out) == transaction(st@, message@, want, otherwise@),
        out matches Ok((_, _, iv)) ==> iv@.len() == st@.cipher.block_size() && st@.valid(),
{
    let header = match IsakmpHeader::parse(message) {
        Ok(header) => header,
        Err(error) => {
            return Err(error);
        },
    };
    if header.exchange_type != exchange::TRANSACTION {
        return Err(IkeError::Crypto("expected a Transaction (XAUTH) message"));
    }
    let iv0 = phase2_iv(st, header.message_id);
    let (_, list, iv1) = match parse_encrypted(st, message, &iv0) {
        Ok(opened) => opened,
        Err(error) => {
            return Err(error);
        },
    };
    let body = match attribute_payload(&list) {
        Some(body) => body,
        None => {
            return Err(IkeError::MissingPayload("ATTRIBUTE"));
        },
    };
    let got = match ConfigPayload::parse(body) {
        Ok(got) => got,
        Err(error) => {
            return Err(error);
        },
    };
    if got.cfg_type != want {
        return Err(IkeError::Crypto(otherwise));
    }
    Ok((header.message_id, got, iv1))
}

/// The REPLY that carries these credentials.
pub open spec fn credentials(identifier: u16, user: Seq<u8>, password: Seq<u8>) -> Config {
    Config {
        cfg_type: cfg::REPLY,
        identifier,
        attributes: seq![
            Datum { attr_type: cfg_attr::XAUTH_TYPE, value: Worth::Short(xauth_type::GENERIC) },
            Datum { attr_type: cfg_attr::XAUTH_USER_NAME, value: Worth::Long(user) },
            Datum { attr_type: cfg_attr::XAUTH_USER_PASSWORD, value: Worth::Long(password) },
        ],
    }
}

/// The message that answers a Transaction message with this configuration.
pub open spec fn answered(sa: IsakmpSa, message_id: u32, config: Config, iv: Seq<u8>) -> Seq<u8> {
    sa.sealed(transaction_head(sa, message_id), seq![(payload::ATTRIBUTE, config.octets())], iv)
}

/// Answer a Transaction message.
fn answer(st: &Phase1State, message_id: u32, config: &ConfigPayload, iv: &[u8]) -> (out: Result<Vec<u8>, IkeError>)
    requires
        st@.valid(),
        iv@.len() == st@.cipher.block_size(),
    ensures
        viewed(out) == Ok::<Seq<u8>, Failure>(answered(st@, message_id, config@, iv@)),
{
    let mut payloads: Vec<(u8, Vec<u8>)> = Vec::new();
    payloads.push((payload::ATTRIBUTE, config.to_bytes()));
    assert(isakmp::bodies(payloads@) =~= seq![(payload::ATTRIBUTE, config@.octets())]);
    match build_encrypted(st, xauth_header(st, message_id), iv, &payloads) {
        Ok((message, _)) => Ok(message),
        Err(error) => Err(error),
    }
}

/// Client-side: process the gateway's Transaction REQUEST (asking for
/// credentials) and build the REPLY carrying `user`/`password`.
pub fn build_xauth_reply(st: &Phase1State, request: &[u8], user: &[u8], password: &[u8]) -> (out: Result<
    Vec<u8>,
    IkeError,
>)
    ensures
        viewed(out) == (match transaction(st@, request@, cfg::REQUEST, "expected an XAUTH REQUEST"@) {
            Err(failure) => Err(failure),
            Ok((message_id, got, iv)) => Ok(
                answered(st@, message_id, credentials(got.identifier, user@, password@), iv),
            ),
        }),
{
    let (message_id, got, iv) = match open_transaction(st, request, cfg::REQUEST, "expected an XAUTH REQUEST") {
        Ok(opened) => opened,
        Err(error) => {
            return Err(error);
        },
    };
    let mut attributes: Vec<Attribute> = Vec::new();
    attributes.push(Attribute::short(cfg_attr::XAUTH_TYPE, xauth_type::GENERIC));
    attributes.push(Attribute::long_bytes(cfg_attr::XAUTH_USER_NAME, bytes::copy(user)));
    attributes.push(Attribute::long_bytes(cfg_attr::XAUTH_USER_PASSWORD, bytes::copy(password)));
    let reply = ConfigPayload::new(cfg::REPLY, got.identifier, attributes);
    assert(reply@ =~= credentials(got.identifier, user@, password@));
    answer(st, message_id, &reply, &iv)
}

/// The ACK of a SET.
pub open spec fn acknowledgement(identifier: u16) -> Config {
    Config { cfg_type: cfg::ACK, identifier, attributes: Seq::empty() }
}

/// Whether a SET reports success.
pub open spec fn reports_success(config: Config) -> bool {
    match config.attr(cfg_attr::XAUTH_STATUS) {
        Some(status) => status.number() == Some(xauth_status::OK),
        None => false,
    }
}

/// An ACK and the status it acknowledges, taken by their views.
pub open spec fn viewed_ack(result: Result<(Vec<u8>, bool), IkeError>) -> Result<(Seq<u8>, bool), Failure> {
    match result {
        Ok((message, ok)) => Ok((message@, ok)),
        Err(error) => Err(error@),
    }
}

/// Client-side: process the gateway's Transaction SET (carrying
/// `XAUTH_STATUS`) and build the ACK. Returns the ACK bytes and whether the
/// gateway reported success (`XAUTH_STATUS == OK`) — a caller must check this
/// before proceeding to Quick Mode; a `FAIL` status means the credentials
/// were rejected even though this ISAKMP exchange itself completed cleanly.
pub fn build_xauth_ack(st: &Phase1State, set_message: &[u8]) -> (out: Result<(Vec<u8>, bool), IkeError>)
    ensures
        viewed_ack(out) == (match transaction(st@, set_message@, cfg::SET, "expected an XAUTH SET"@) {
            Err(failure) => Err(failure),
            Ok((message_id, got, iv)) => Ok(
                (answered(st@, message_id, acknowledgement(got.identifier), iv), reports_success(got)),
            ),
        }),
{
    let (message_id, got, iv) = match open_transaction(st, set_message, cfg::SET, "expected an XAUTH SET") {
        Ok(opened) => opened,
        Err(error) => {
            return Err(error);
        },
    };
    let ok = match got.attr(cfg_attr::XAUTH_STATUS) {
        Some(status) => status.as_u16() == Some(xauth_status::OK),
        None => false,
    };
    let ack = ConfigPayload::new(cfg::ACK, got.identifier, Vec::new());
    assert(ack@ =~= acknowledgement(got.identifier));
    match answer(st, message_id, &ack, &iv) {
        Ok(message) => Ok((message, ok)),
        Err(error) => Err(error),
    }
}

/// The gateway reads from a REPLY the credentials that were put into it.
pub proof fn law_credentials_read_back(identifier: u16, user: Seq<u8>, password: Seq<u8>)
    requires
        user.len() < 0x1_0000,
        password.len() < 0x1_0000,
    ensures
        ({
            let reply = credentials(identifier, user, password);
            &&& Config::read(reply.octets()) == Ok::<Config, Failure>(reply)
            &&& reply.attr(cfg_attr::XAUTH_USER_NAME) matches Some(name) && name.content() == user
            &&& reply.attr(cfg_attr::XAUTH_USER_PASSWORD) matches Some(secret) && secret.content() == password
        }),
{
    let reply = credentials(identifier, user, password);
    assert forall|i: int| 0 <= i < reply.attributes.len() implies modecfg::encodable(#[trigger] reply.attributes[i]) by {
        assert(i == 0 || i == 1 || i == 2);
    }
    modecfg::law_config_round_trip(reply);
    reveal_with_fuel(modecfg::first_of, 4);
}

} // verus!
