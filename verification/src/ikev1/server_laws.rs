//! What an IKEv1 responder does with a datagram, by the numbers in its header and the
//! state of the session that its cookies name.

use vstd::prelude::*;

use crate::bytes;
use crate::error::Failure;
use crate::ikev1::isakmp::Head;
use crate::ikev1::modecfg::Config;
use crate::ikev1::phase1::IsakmpSa;
use crate::ikev1::server;
use crate::ikev1::server::{Done, Held, Job, Responder, Stage, Verdict};
use crate::ikev1::xauth;

verus! {

/// A Phase 1 message (exchange type 2 or 4) without a responder cookie opens a session of
/// its mode, unless it is the one that opened a session: then the answer to it is sent
/// again while it is the last message, and nothing is done after that.
pub proof fn law_opening<H, Q, C>(responder: Responder<H, Q, C>, header: Head, data: Seq<u8>)
    requires
        header.exchange_type == 2 || header.exchange_type == 4,
        header.resp_cookie == Seq::new(8, |i: int| 0u8),
    ensures
        ({
            let job = responder.due_for(header, data);
            let fresh = forall|i: int|
                0 <= i < responder.sessions.len() ==> (#[trigger] responder.sessions[i]).first != data;
            &&& fresh && header.exchange_type == 2 ==> job is OpenMain
            &&& fresh && header.exchange_type == 4 ==> job is OpenAggressive
            &&& !fresh ==> exists|i: int|
                0 <= i < responder.sessions.len() && (#[trigger] responder.sessions[i]).first == data && job == (
                match responder.sessions[i].answer {
                    Some(answer) => if responder.sessions[i].last == data {
                        Job::Resend(answer)
                    } else {
                        Job::Ignore
                    },
                    None => Job::Ignore,
                })
        }),
{
    assert(header.resp_cookie =~= bytes::zeros(8));
    lemma_opened_by(responder.sessions, data, 0);
}

proof fn lemma_opened_by<H, Q>(sessions: Seq<Held<H, Q>>, data: Seq<u8>, from: int)
    requires
        0 <= from <= sessions.len(),
    ensures
        match server::opened_by(sessions, data, from) {
            Some(at) => from <= at < sessions.len() && sessions[at].first == data,
            None => forall|i: int| from <= i < sessions.len() ==> (#[trigger] sessions[i]).first != data,
        },
    decreases sessions.len() - from,
{
    if from < sessions.len() {
        lemma_opened_by(sessions, data, from + 1);
    }
}

proof fn lemma_session_of<H, Q>(sessions: Seq<Held<H, Q>>, cky_i: Seq<u8>, cky_r: Seq<u8>, from: int)
    requires
        0 <= from <= sessions.len(),
    ensures
        match server::session_of(sessions, cky_i, cky_r, from) {
            Some(at) => from <= at < sessions.len() && sessions[at].cky_i == cky_i && sessions[at].cky_r == cky_r,
            None => forall|i: int|
                from <= i < sessions.len() ==> (#[trigger] sessions[i]).cky_i != cky_i || sessions[i].cky_r != cky_r,
        },
    decreases sessions.len() - from,
{
    if from < sessions.len() {
        lemma_session_of(sessions, cky_i, cky_r, from + 1);
    }
}

/// Any other datagram is for the session with both its cookies, and of no interest where
/// there is none or its exchange type is another. A Phase 1 message goes to the step that
/// its mode and the session's stage say; one taken before is only answered again.
pub proof fn law_continuing<H, Q, C>(responder: Responder<H, Q, C>, header: Head, data: Seq<u8>)
    requires
        header.resp_cookie != Seq::new(8, |i: int| 0u8) || header.exchange_type != 2 && header.exchange_type != 4,
    ensures
        ({
            let job = responder.due_for(header, data);
            let kind = header.exchange_type;
            &&& (forall|i: int|
                0 <= i < responder.sessions.len() ==> (#[trigger] responder.sessions[i]).cky_i != header.init_cookie
                    || responder.sessions[i].cky_r != header.resp_cookie) ==> job is Ignore
            &&& kind != 2 && kind != 4 && kind != 5 && kind != 32 ==> job is Ignore
            &&& job matches Job::CompleteKe(at) ==> kind == 2 && named(responder, header, at)
                && responder.sessions[at].stage is MainSaSent && responder.sessions[at].last != data
            &&& job matches Job::CompleteId(at) ==> kind == 2 && named(responder, header, at)
                && responder.sessions[at].stage is MainKeSent && responder.sessions[at].last != data
            &&& job matches Job::VerifyHash(at) ==> kind == 4 && named(responder, header, at)
                && responder.sessions[at].stage is AggressiveSent && responder.sessions[at].last != data
            &&& job matches Job::BeginQuick(at) ==> kind == 32 && named(responder, header, at) && secured(
                responder,
                header,
                at,
            ) && header.message_id != 0 && !responder.sessions[at].quick_ids.contains(header.message_id)
            &&& job matches Job::CompleteQuick(at) ==> kind == 32 && named(responder, header, at) && secured(
                responder,
                header,
                at,
            ) && header.message_id != 0 && (responder.sessions[at].quick matches Some(quick) && quick.message_id
                == header.message_id && quick.msg1 != data && quick.responder is Some)
            &&& job matches Job::Inform(at) ==> kind == 5 && named(responder, header, at) && secured(
                responder,
                header,
                at,
            )
            &&& !(job is OpenMain) && !(job is OpenAggressive)
        }),
{
    assert(bytes::zeros(8) =~= Seq::new(8, |i: int| 0u8));
    lemma_session_of(responder.sessions, header.init_cookie, header.resp_cookie, 0);
}

/// Whether a header names the session at this place.
pub open spec fn named<H, Q, C>(responder: Responder<H, Q, C>, header: Head, at: int) -> bool {
    &&& 0 <= at < responder.sessions.len()
    &&& responder.sessions[at].cky_i == header.init_cookie && responder.sessions[at].cky_r == header.resp_cookie
}

/// Whether a message is enciphered and its session established.
pub open spec fn secured<H, Q, C>(responder: Responder<H, Q, C>, header: Head, at: int) -> bool {
    responder.sessions[at].stage is Established && header.flags % 2 == 1
}

/// A message that a session takes next is not passed over.
pub proof fn law_steps_are_taken<H, Q>(session: Held<H, Q>, at: int, header: Head, data: Seq<u8>)
    ensures
        session.last != data && session.stage is MainSaSent ==> session.continuing(at, 2, data) == Job::CompleteKe(at),
        session.last != data && session.stage is MainKeSent ==> session.continuing(at, 2, data) == Job::CompleteId(at),
        session.last != data && session.stage is AggressiveSent ==> session.continuing(at, 4, data) == Job::VerifyHash(
            at,
        ),
        session.last == data && session.answer is Some ==> session.continuing(at, header.exchange_type, data)
            == Job::Resend(session.answer->0),
        session.stage is Established && header.flags % 2 == 1 && header.message_id != 0 ==> {
            &&& session.quick is None && !session.quick_ids.contains(header.message_id) ==> session.quick_mode(
                at,
                header,
                data,
            ) == Job::BeginQuick(at)
            &&& session.quick matches Some(quick) ==> {
                let job = session.quick_mode(at, header, data);
                let current = quick.message_id == header.message_id;
                &&& current && quick.msg1 == data ==> job == Job::Resend(quick.msg2)
                &&& current && quick.msg1 != data && quick.responder is Some ==> job == Job::CompleteQuick(at)
                &&& !current && !session.quick_ids.contains(header.message_id) ==> job == Job::BeginQuick(at)
            }
        },
{
}

/// What an informational payload says to a session: a Delete (12) of protocol 1 under
/// both its cookies ends it, one of protocol 3 under the peer's SPI ends its CHILD SA; a
/// notify (11) of type 36136 under both its cookies, with four octets of a sequence number
/// that is no lower than the last one answered, is to be answered. Nothing else counts.
pub proof fn law_informational<H, Q>(session: Held<H, Q>, kind: u8, body: Seq<u8>)
    requires
        session.cky_i.len() == 8,
        session.cky_r.len() == 8,
    ensures
        ({
            let told = session.told((kind, body));
            let cookies = session.cky_i + session.cky_r;
            let framed = body.len() >= 8 && 8 + body[5] <= body.len();
            &&& told is Deleted <==> kind == 12 && framed && body[4] == 1 && body.subrange(8, 8 + body[5]) == cookies
            &&& told is ChildDeleted <==> kind == 12 && framed && body[4] == 3 && (session.child_spis matches Some(
                (_, theirs),
            ) && body.subrange(8, 8 + body[5]) == bytes::be32(theirs))
            &&& told is Answer <==> kind == 11 && framed && body[6] * 256 + body[7] == 36136 && body.len() >= 24
                && body.subrange(8, 24) == cookies && body.len() == 12 + body[5] && !(session.dpd_seq matches Some(last)
                && bytes::at32(body, 8 + body[5]) < last)
            &&& told matches Verdict::Answer(seq) ==> seq == bytes::at32(body, 8 + body[5])
        }),
{
    if body.len() >= 8 && 8 + body[5] <= body.len() {
        let from = 8 + body[5];
        let seq = body.subrange(from, body.len() as int);
        if seq.len() == 4 {
            bytes::law_big_endian_read(seq, 0);
            bytes::law_big_endian_read(body, from);
        }
    }
}

/// A Transaction message is taken only of exchange type 6, opened with the vector of its
/// Message ID, and where its first payload of type 14 is a configuration of the type that
/// was wanted; it hands on its Message ID and its last block.
pub proof fn law_transaction(sa: IsakmpSa, message: Seq<u8>, want: u8, otherwise: Seq<char>)
    requires
        xauth::transaction(sa, message, want, otherwise) is Ok,
    ensures
        ({
            let (message_id, config, iv) = xauth::transaction(sa, message, want, otherwise)->Ok_0;
            let opened = sa.opened(message, sa.iv_for(message_id));
            &&& message.len() >= 28 && message[18] == 6
            &&& message_id == bytes::at32(message, 20)
            &&& opened matches Ok((_, list, next)) && iv == next && exists|i: int|
                0 <= i < list.len() && (#[trigger] list[i]).0 == 14 && Config::read(list[i].1) == Ok::<Config, Failure>(
                    config,
                ) && forall|j: int| 0 <= j < i ==> (#[trigger] list[j]).0 != 14
            &&& config.cfg_type == want
        }),
{
    let (message_id, config, iv) = xauth::transaction(sa, message, want, otherwise)->Ok_0;
    let (_, list, next) = sa.opened(message, sa.iv_for(message_id))->Ok_0;
    lemma_attribute_from(list, 0);
}

proof fn lemma_attribute_from(list: Seq<(u8, Seq<u8>)>, from: int)
    requires
        0 <= from <= list.len(),
    ensures
        xauth::attribute_from(list, from) matches Some(body) ==> exists|i: int|
            from <= i < list.len() && (#[trigger] list[i]).0 == 14 && list[i].1 == body && forall|j: int|
                from <= j < i ==> (#[trigger] list[j]).0 != 14,
    decreases list.len() - from,
{
    if from < list.len() {
        lemma_attribute_from(list, from + 1);
        if list[from].0 == 14 {
            assert(list[from].1 == list[from].1);
        }
    }
}

/// An answer of XAUTH goes out under the Message ID of what it answers, as one payload of
/// type 14, enciphered on from its last block.
pub proof fn law_xauth_answer(sa: IsakmpSa, message_id: u32, config: Config, iv: Seq<u8>)
    ensures
        xauth::answered(sa, message_id, config, iv) == sa.sealed(
            Head {
                init_cookie: sa.cky_i,
                resp_cookie: sa.cky_r,
                next_payload: 0,
                version: 16,
                exchange_type: 6,
                flags: 0,
                message_id,
                length: 0,
            },
            seq![(14u8, config.octets())],
            iv,
        ),
{
}

/// The session that an initiator cookie names is the first that has it.
pub proof fn law_session_is_named_by_its_cookie<H, Q>(sessions: Seq<Held<H, Q>>, cky_i: Seq<u8>)
    ensures
        match server::session_with(sessions, cky_i, 0) {
            Some(at) => 0 <= at < sessions.len() && sessions[at].cky_i == cky_i && forall|i: int|
                0 <= i < at ==> (#[trigger] sessions[i]).cky_i != cky_i,
            None => forall|i: int| 0 <= i < sessions.len() ==> (#[trigger] sessions[i]).cky_i != cky_i,
        },
{
    lemma_session_with(sessions, cky_i, 0);
}

proof fn lemma_session_with<H, Q>(sessions: Seq<Held<H, Q>>, cky_i: Seq<u8>, from: int)
    requires
        0 <= from <= sessions.len(),
    ensures
        match server::session_with(sessions, cky_i, from) {
            Some(at) => from <= at < sessions.len() && sessions[at].cky_i == cky_i && forall|i: int|
                from <= i < at ==> (#[trigger] sessions[i]).cky_i != cky_i,
            None => forall|i: int| from <= i < sessions.len() ==> (#[trigger] sessions[i]).cky_i != cky_i,
        },
    decreases sessions.len() - from,
{
    if from < sessions.len() && sessions[from].cky_i != cky_i {
        lemma_session_with(sessions, cky_i, from + 1);
    }
}

/// What is reported of an Informational is what was done on it, under the initiator
/// cookie of the session it came in.
pub proof fn law_reports<H, Q, C>(responder: Responder<H, Q, C>, at: int, seq: u32)
    ensures
        responder.reported(at, Verdict::Nothing) is Ignored,
        responder.reported(at, Verdict::Deleted) == (Done::Deleted { cky_i: responder.sessions[at].cky_i }),
        responder.reported(at, Verdict::ChildDeleted) == (Done::ChildDeleted { cky_i: responder.sessions[at].cky_i }),
        responder.reported(at, Verdict::Answer(seq)) == (Done::DpdAnswered { cky_i: responder.sessions[at].cky_i }),
{
}

} // verus!
