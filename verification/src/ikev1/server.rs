//! What an IKEv1 **responder** does with each datagram: Aggressive Mode or Main
//! Mode (Phase 1), Quick Mode (Phase 2), and Informationals. Per-client handshake
//! state is keyed by the cookie pair so the multi-message exchanges correlate. On
//! completion the established ESP CHILD SA is available via
//! [`Server::take_child`].
//!
//! This is a minimal responder for tests and examples, not a gateway. What it does:
//!
//! - Phase 1 in Main or Aggressive Mode, then Quick Mode for an ESP CHILD SA
//!   (a later Quick Mode replaces it), and nothing else: no XAUTH, no
//!   Mode-Config, no NAT traversal, no commit bit. Phase 1 accepts an
//!   XAUTH-PSK proposal, but no XAUTH exchange follows it;
//! - a message repeated bitwise identical gets the answer already sent, and a
//!   repeated last message of an exchange is dropped. Nothing is taken twice
//!   (RFC 2409 §5: no state moves on for a retransmission), and a late
//!   repeat of a message 1 opens no second ISAKMP SA;
//! - a message that fails its checks leaves the exchange where it was;
//! - Quick Mode is taken only once Phase 1 has authenticated the peer, each
//!   exchange under a Message ID of its own that is never reused;
//! - having advertised DPD, it answers every R-U-THERE (RFC 3706 §5.2) whose
//!   sequence number has not gone backwards (§6.2). A Delete closes what it
//!   names; like every IKEv1 Delete it gets no answer;
//! - it never starts an exchange (no DPD, rekey or Delete of its own). The
//!   SAs last until the peer deletes them -- it enforces no lifetime, seconds
//!   or volume. What it grants is stated in its Quick Mode answer and exposed
//!   ([`Server::child_lifetime`]) for whoever runs the CHILD SA it hands out
//!   ([`Server::take_child`]) to hold it to; [`Server::set_child_volume_limit`]
//!   makes it play a gateway that limits the volume of an SA, which is what a
//!   client's handling of one is tested against.
//!
//! The key exchange and the authentication of Phase 1, and the keys of Quick Mode,
//! are made outside: [`Server::handle_one`] says what is to be done with a datagram,
//! and each step that succeeded, its answer sent, is reported back
//! ([`Server::opened`], [`Server::continued`], [`Server::quick_begun`],
//! [`Server::quick_completed`], [`Server::concluded`]). `H` is what is kept of a Phase
//! 1 half done, `Q` of a Quick Mode half done, and `C` is a CHILD SA.

use std::collections::HashSet;

use vstd::prelude::*;

use crate::bytes;
use crate::error::{Failure, IkeError};
use crate::ikev1::informational;
use crate::ikev1::informational::{parse_delete, parse_notify};
use crate::ikev1::isakmp;
use crate::ikev1::isakmp::{exchange, payload, Head, IsakmpHeader};
use crate::ikev1::notify_type;
use crate::ikev1::phase1::{phase2_iv, IsakmpSa, Phase1State};
use crate::ikev1::phase2::parse_encrypted;
use crate::ikev1::protocol;

verus! {

broadcast use crate::bytes::group_lengths, vstd::std_specs::hash::group_hash_axioms;

/// What a [`Server`] did with one datagram.
#[derive(Debug, Clone, PartialEq, Eq)]
pub enum ServerEvent {
    /// Answered Phase-1 message 1 (either mode) or Main-Mode message 3;
    /// Phase 1 is half-open.
    Phase1SaInit,
    /// Verified the initiator's HASH_I — Phase 1 is established.
    Phase1Established,
    /// Answered Quick-Mode message 1; the CHILD SA is being negotiated.
    QuickSaInit,
    /// Quick Mode completed — the ESP CHILD SA is ready (see [`Server::take_child`]).
    ChildSaEstablished { cky_i: [u8; 8] },
    /// Resent the answer to a message the peer repeated.
    Retransmitted,
    /// Answered an R-U-THERE with its R-U-THERE-ACK.
    DpdAnswered { cky_i: [u8; 8] },
    /// The peer deleted the CHILD SA; the ISAKMP SA stays up. A caller that
    /// took the CHILD SA ([`Server::take_child`]) drops it.
    ChildDeleted { cky_i: [u8; 8] },
    /// The peer deleted the ISAKMP SA, and with it its CHILD SA.
    Deleted { cky_i: [u8; 8] },
    /// A datagram we don't act on: an unknown cookie pair, a message out of
    /// turn or repeated with nothing to answer, or an unexpected exchange.
    Ignored,
}

/// A [`ServerEvent`] as a value of the specification.
#[verifier::ext_equal]
pub enum Done {
    Phase1SaInit,
    Phase1Established,
    QuickSaInit,
    ChildSaEstablished { cky_i: Seq<u8> },
    Retransmitted,
    DpdAnswered { cky_i: Seq<u8> },
    ChildDeleted { cky_i: Seq<u8> },
    Deleted { cky_i: Seq<u8> },
    Ignored,
}

impl View for ServerEvent {
    type V = Done;

    open spec fn view(&self) -> Done {
        match self {
            ServerEvent::Phase1SaInit => Done::Phase1SaInit,
            ServerEvent::Phase1Established => Done::Phase1Established,
            ServerEvent::QuickSaInit => Done::QuickSaInit,
            ServerEvent::ChildSaEstablished { cky_i } => Done::ChildSaEstablished { cky_i: cky_i@ },
            ServerEvent::Retransmitted => Done::Retransmitted,
            ServerEvent::DpdAnswered { cky_i } => Done::DpdAnswered { cky_i: cky_i@ },
            ServerEvent::ChildDeleted { cky_i } => Done::ChildDeleted { cky_i: cky_i@ },
            ServerEvent::Deleted { cky_i } => Done::Deleted { cky_i: cky_i@ },
            ServerEvent::Ignored => Done::Ignored,
        }
    }
}

/// How long a CHILD SA is granted: its seconds, and its volume limit, if it has one.
#[derive(Debug, Clone, Copy, PartialEq, Eq, Structural)]
pub struct SaLifetime {
    pub seconds: u32,
    pub kilobytes: Option<u32>,
}

/// Where an ISAKMP SA's Phase 1 stands.
pub enum Phase1<H> {
    /// Main Mode, message 2 sent.
    MainSaSent(H),
    /// Main Mode, message 4 sent.
    MainKeSent(H),
    /// Aggressive Mode, message 2 sent: HASH_I is still to come.
    AggressiveSent(H),
    /// Both ends authenticated.
    Established(Phase1State),
}

/// The latest Quick Mode exchange of an ISAKMP SA.
pub struct Quick<Q> {
    message_id: u32,
    /// Its message 1 and our message 2.
    msg1: Vec<u8>,
    msg2: Vec<u8>,
    /// Waiting for message 3; `None` once it came in.
    responder: Option<Q>,
}

/// One ISAKMP SA, from the message 1 that opened it.
pub struct Session<H, Q> {
    cky_i: [u8; 8],
    cky_r: [u8; 8],
    phase1: Phase1<H>,
    /// The message 1 that opened it.
    first: Vec<u8>,
    /// The last Phase-1 message we took, and our answer when it has one.
    last: Vec<u8>,
    answer: Option<Vec<u8>>,
    quick: Option<Quick<Q>>,
    /// Every Quick Mode Message ID used so far.
    quick_ids: HashSet<u32>,
    /// The ESP SPIs of the CHILD SA, ours then the peer's, while it lasts --
    /// kept apart from the CHILD SA itself since the caller may have taken it.
    child_spis: Option<(u32, u32)>,
    /// The lifetime that CHILD SA was granted, likewise.
    child_lifetime: Option<SaLifetime>,
    /// The highest R-U-THERE sequence number answered.
    dpd_seq: Option<u32>,
}

/// The state of an IKEv1 responder.
pub struct Server<H, Q, C> {
    sessions: Vec<Session<H, Q>>,
    children: Vec<([u8; 8], C)>,
    /// The volume, in kilobytes, this side limits a CHILD SA to, if it does.
    child_volume_limit: Option<u32>,
}

/// A [`Phase1`] as a value of the specification.
#[verifier::ext_equal]
pub enum Stage<H> {
    MainSaSent(H),
    MainKeSent(H),
    AggressiveSent(H),
    Established(IsakmpSa),
}

/// A [`Quick`] as a value of the specification.
#[verifier::ext_equal]
pub struct Negotiation<Q> {
    pub message_id: u32,
    pub msg1: Seq<u8>,
    pub msg2: Seq<u8>,
    pub responder: Option<Q>,
}

/// A [`Session`] as a value of the specification.
#[verifier::ext_equal]
pub struct Held<H, Q> {
    pub cky_i: Seq<u8>,
    pub cky_r: Seq<u8>,
    pub stage: Stage<H>,
    pub first: Seq<u8>,
    pub last: Seq<u8>,
    pub answer: Option<Seq<u8>>,
    pub quick: Option<Negotiation<Q>>,
    pub quick_ids: Set<u32>,
    pub child_spis: Option<(u32, u32)>,
    pub child_lifetime: Option<SaLifetime>,
    pub dpd_seq: Option<u32>,
}

/// A [`Server`] as a value of the specification.
#[verifier::ext_equal]
pub struct Responder<H, Q, C> {
    pub sessions: Seq<Held<H, Q>>,
    pub children: Seq<(Seq<u8>, C)>,
    pub child_volume_limit: Option<u32>,
}

impl<H> View for Phase1<H> {
    type V = Stage<H>;

    open spec fn view(&self) -> Stage<H> {
        match *self {
            Phase1::MainSaSent(half) => Stage::MainSaSent(half),
            Phase1::MainKeSent(half) => Stage::MainKeSent(half),
            Phase1::AggressiveSent(half) => Stage::AggressiveSent(half),
            Phase1::Established(st) => Stage::Established(st@),
        }
    }
}

impl<Q> View for Quick<Q> {
    type V = Negotiation<Q>;

    closed spec fn view(&self) -> Negotiation<Q> {
        Negotiation {
            message_id: self.message_id,
            msg1: self.msg1@,
            msg2: self.msg2@,
            responder: self.responder,
        }
    }
}

impl<H, Q> View for Session<H, Q> {
    type V = Held<H, Q>;

    closed spec fn view(&self) -> Held<H, Q> {
        Held {
            cky_i: self.cky_i@,
            cky_r: self.cky_r@,
            stage: self.phase1@,
            first: self.first@,
            last: self.last@,
            answer: crate::error::viewed_option(self.answer),
            quick: crate::error::viewed_option(self.quick),
            quick_ids: self.quick_ids@,
            child_spis: self.child_spis,
            child_lifetime: self.child_lifetime,
            dpd_seq: self.dpd_seq,
        }
    }
}

/// Sessions taken by their views.
pub open spec fn held<H, Q>(sessions: Seq<Session<H, Q>>) -> Seq<Held<H, Q>> {
    sessions.map_values(|s: Session<H, Q>| s@)
}

/// CHILD SAs with their cookies taken by their views.
pub open spec fn owned<C>(children: Seq<([u8; 8], C)>) -> Seq<(Seq<u8>, C)> {
    children.map_values(|c: ([u8; 8], C)| (c.0@, c.1))
}

impl<H, Q, C> View for Server<H, Q, C> {
    type V = Responder<H, Q, C>;

    closed spec fn view(&self) -> Responder<H, Q, C> {
        Responder {
            sessions: held(self.sessions@),
            children: owned(self.children@),
            child_volume_limit: self.child_volume_limit,
        }
    }
}

/// What is to be done with a datagram; a number says which ISAKMP SA it is about.
#[derive(Debug, Clone, PartialEq, Eq)]
pub enum Task {
    /// Nothing.
    Ignore,
    /// Send this answer again: the peer repeated what it answers.
    Resend(Vec<u8>),
    /// Answer a Main Mode message 1 ([`Server::opened`]).
    OpenMain,
    /// Answer an Aggressive Mode message 1 ([`Server::opened`]).
    OpenAggressive,
    /// Answer a Main Mode message 3 ([`Server::continued`]).
    CompleteKe(usize),
    /// Verify and answer a Main Mode message 5 ([`Server::continued`]).
    CompleteId(usize),
    /// Verify an Aggressive Mode message 3 ([`Server::continued`]).
    VerifyHash(usize),
    /// Answer a Quick Mode message 1 ([`Server::quick_begun`]).
    BeginQuick(usize),
    /// Verify a Quick Mode message 3 ([`Server::quick_completed`]).
    CompleteQuick(usize),
    /// Take an Informational ([`Server::informational`]).
    Inform(usize),
}

/// A [`Task`] as a value of the specification.
#[verifier::ext_equal]
pub enum Job {
    Ignore,
    Resend(Seq<u8>),
    OpenMain,
    OpenAggressive,
    CompleteKe(int),
    CompleteId(int),
    VerifyHash(int),
    BeginQuick(int),
    CompleteQuick(int),
    Inform(int),
}

impl View for Task {
    type V = Job;

    open spec fn view(&self) -> Job {
        match *self {
            Task::Ignore => Job::Ignore,
            Task::Resend(answer) => Job::Resend(answer@),
            Task::OpenMain => Job::OpenMain,
            Task::OpenAggressive => Job::OpenAggressive,
            Task::CompleteKe(i) => Job::CompleteKe(i as int),
            Task::CompleteId(i) => Job::CompleteId(i as int),
            Task::VerifyHash(i) => Job::VerifyHash(i as int),
            Task::BeginQuick(i) => Job::BeginQuick(i as int),
            Task::CompleteQuick(i) => Job::CompleteQuick(i as int),
            Task::Inform(i) => Job::Inform(i as int),
        }
    }
}

/// The first session, from index `from` on, that this message 1 opened.
pub open spec fn opened_by<H, Q>(sessions: Seq<Held<H, Q>>, data: Seq<u8>, from: int) -> Option<int>
    decreases sessions.len() - from,
{
    if from < 0 || from >= sessions.len() {
        None
    } else if sessions[from].first == data {
        Some(from)
    } else {
        opened_by(sessions, data, from + 1)
    }
}

/// The first session, from index `from` on, with these cookies.
pub open spec fn session_of<H, Q>(sessions: Seq<Held<H, Q>>, cky_i: Seq<u8>, cky_r: Seq<u8>, from: int) -> Option<int>
    decreases sessions.len() - from,
{
    if from < 0 || from >= sessions.len() {
        None
    } else if sessions[from].cky_i == cky_i && sessions[from].cky_r == cky_r {
        Some(from)
    } else {
        session_of(sessions, cky_i, cky_r, from + 1)
    }
}

/// The first session, from index `from` on, with this initiator cookie.
pub open spec fn session_with<H, Q>(sessions: Seq<Held<H, Q>>, cky_i: Seq<u8>, from: int) -> Option<int>
    decreases sessions.len() - from,
{
    if from < 0 || from >= sessions.len() {
        None
    } else if sessions[from].cky_i == cky_i {
        Some(from)
    } else {
        session_with(sessions, cky_i, from + 1)
    }
}

/// The first CHILD SA, from index `from` on, under this initiator cookie.
pub open spec fn child_of<C>(children: Seq<(Seq<u8>, C)>, cky_i: Seq<u8>, from: int) -> Option<int>
    decreases children.len() - from,
{
    if from < 0 || from >= children.len() {
        None
    } else if children[from].0 == cky_i {
        Some(from)
    } else {
        child_of(children, cky_i, from + 1)
    }
}

/// The CHILD SAs without the one under this initiator cookie.
pub open spec fn without_child<C>(children: Seq<(Seq<u8>, C)>, cky_i: Seq<u8>) -> Seq<(Seq<u8>, C)> {
    match child_of(children, cky_i, 0) {
        Some(i) => children.remove(i),
        None => children,
    }
}

/// The sessions without the one with these cookies.
pub open spec fn without_session<H, Q>(sessions: Seq<Held<H, Q>>, cky_i: Seq<u8>, cky_r: Seq<u8>) -> Seq<Held<H, Q>> {
    match session_of(sessions, cky_i, cky_r, 0) {
        Some(i) => sessions.remove(i),
        None => sessions,
    }
}

/// What an Informational comes to.
#[derive(Debug, Clone, Copy, PartialEq, Eq, Structural)]
pub enum Verdict {
    /// Nothing to act on.
    Nothing,
    /// The ISAKMP SA is deleted.
    Deleted,
    /// The CHILD SA is deleted.
    ChildDeleted,
    /// An R-U-THERE with this sequence number is to be answered.
    Answer(u32),
}

impl<H, Q> Held<H, Q> {
    /// What a repeat of a Phase-1 message is answered with: again, if it is of the
    /// last one we took and that had an answer.
    pub open spec fn repeated(self, data: Seq<u8>) -> Job {
        match self.answer {
            Some(answer) => if self.last == data {
                Job::Resend(answer)
            } else {
                Job::Ignore
            },
            None => Job::Ignore,
        }
    }

    /// What is to be done with a Phase-1 message after the first.
    pub open spec fn continuing(self, at: int, exchange_type: u8, data: Seq<u8>) -> Job {
        if self.last == data {
            self.repeated(data)
        } else {
            match self.stage {
                Stage::MainSaSent(_) => if exchange_type == exchange::MAIN {
                    Job::CompleteKe(at)
                } else {
                    Job::Ignore
                },
                Stage::MainKeSent(_) => if exchange_type == exchange::MAIN {
                    Job::CompleteId(at)
                } else {
                    Job::Ignore
                },
                Stage::AggressiveSent(_) => if exchange_type == exchange::AGGRESSIVE {
                    Job::VerifyHash(at)
                } else {
                    Job::Ignore
                },
                Stage::Established(_) => Job::Ignore,
            }
        }
    }

    /// What is to be done with a Quick Mode message, under an authenticated ISAKMP SA
    /// only.
    pub open spec fn quick_mode(self, at: int, header: Head, data: Seq<u8>) -> Job {
        if !(self.stage is Established) || !header.encrypted() || header.message_id == 0 {
            Job::Ignore
        } else {
            match self.quick {
                Some(quick) => if quick.message_id == header.message_id {
                    if quick.msg1 == data {
                        Job::Resend(quick.msg2)
                    } else if quick.responder is Some {
                        Job::CompleteQuick(at)
                    } else {
                        Job::Ignore
                    }
                } else {
                    self.fresh_quick(at, header)
                },
                None => self.fresh_quick(at, header),
            }
        }
    }

    /// What is to be done with a Quick Mode message of no exchange under way: one
    /// already over is never taken again.
    pub open spec fn fresh_quick(self, at: int, header: Head) -> Job {
        if self.quick_ids.contains(header.message_id) {
            Job::Ignore
        } else {
            Job::BeginQuick(at)
        }
    }

    /// The cookies that name this ISAKMP SA in a payload.
    pub open spec fn cookies(self) -> Seq<u8> {
        self.cky_i + self.cky_r
    }

    /// What one payload of an Informational comes to.
    pub open spec fn told(self, part: (u8, Seq<u8>)) -> Verdict {
        if part.0 == payload::DELETE {
            match informational::delete_read(part.1) {
                Some((proto, spi)) => if proto == protocol::ISAKMP && spi == self.cookies() {
                    Verdict::Deleted
                } else if proto == protocol::ESP && (self.child_spis matches Some((_, theirs)) && spi == bytes::be32(
                    theirs,
                )) {
                    Verdict::ChildDeleted
                } else {
                    Verdict::Nothing
                },
                None => Verdict::Nothing,
            }
        } else if part.0 == payload::NOTIFY {
            match informational::notify_read(part.1) {
                Some((message_type, seq)) => if message_type == notify_type::R_U_THERE && part.1.len() >= 24
                    && part.1.subrange(8, 24) == self.cookies() && seq.len() == 4 && !(self.dpd_seq matches Some(last)
                    && bytes::at32(seq, 0) < last) {
                    Verdict::Answer(bytes::at32(seq, 0))
                } else {
                    Verdict::Nothing
                },
                None => Verdict::Nothing,
            }
        } else {
            Verdict::Nothing
        }
    }

    /// What the payloads of an Informational come to, from index `from` on: the
    /// first that is about this SA decides.
    pub open spec fn informed(self, list: Seq<(u8, Seq<u8>)>, from: int) -> Verdict
        decreases list.len() - from,
    {
        if from < 0 || from >= list.len() {
            Verdict::Nothing
        } else if self.told(list[from]) != Verdict::Nothing {
            self.told(list[from])
        } else {
            self.informed(list, from + 1)
        }
    }
}

impl<H, Q, C> Responder<H, Q, C> {
    /// What is to be done with a datagram.
    pub open spec fn due(self, data: Seq<u8>) -> Result<Job, Failure> {
        match Head::read(data) {
            Err(failure) => Err(failure),
            Ok(header) => Ok(self.due_for(header, data)),
        }
    }

    /// What is to be done with a datagram with this header.
    pub open spec fn due_for(self, header: Head, data: Seq<u8>) -> Job {
        let phase1 = header.exchange_type == exchange::MAIN || header.exchange_type == exchange::AGGRESSIVE;
        if phase1 && header.resp_cookie == bytes::zeros(8) {
            match opened_by(self.sessions, data, 0) {
                Some(i) => self.sessions[i].repeated(data),
                None => if header.exchange_type == exchange::MAIN {
                    Job::OpenMain
                } else {
                    Job::OpenAggressive
                },
            }
        } else {
            match session_of(self.sessions, header.init_cookie, header.resp_cookie, 0) {
                None => Job::Ignore,
                Some(i) => if phase1 {
                    self.sessions[i].continuing(i, header.exchange_type, data)
                } else if header.exchange_type == exchange::QUICK {
                    self.sessions[i].quick_mode(i, header, data)
                } else if header.exchange_type == exchange::INFORMATIONAL && self.sessions[i].stage is Established
                    && header.encrypted() {
                    Job::Inform(i)
                } else {
                    Job::Ignore
                },
            }
        }
    }

    /// This responder with one session as it now is.
    pub open spec fn with_session(self, at: int, session: Held<H, Q>) -> Responder<H, Q, C> {
        Responder { sessions: self.sessions.update(at, session), ..self }
    }

    /// This responder once it answered a message 1.
    pub open spec fn opening(self, cky_i: Seq<u8>, cky_r: Seq<u8>, stage: Stage<H>, data: Seq<u8>, msg2: Seq<u8>) -> Responder<
        H,
        Q,
        C,
    > {
        let session = Held {
            cky_i,
            cky_r,
            stage,
            first: data,
            last: data,
            answer: Some(msg2),
            quick: None,
            quick_ids: Set::empty(),
            child_spis: None,
            child_lifetime: None,
            dpd_seq: None,
        };
        Responder { sessions: without_session(self.sessions, cky_i, cky_r).push(session), ..self }
    }

    /// This responder once it took a later Phase-1 message.
    pub open spec fn moved_on(self, at: int, stage: Stage<H>, data: Seq<u8>, answer: Option<Seq<u8>>) -> Responder<
        H,
        Q,
        C,
    > {
        self.with_session(at, Held { stage, last: data, answer, ..self.sessions[at] })
    }

    /// This responder once it answered a Quick Mode message 1.
    pub open spec fn negotiating(self, at: int, message_id: u32, msg1: Seq<u8>, msg2: Seq<u8>, responder: Q) -> Responder<
        H,
        Q,
        C,
    > {
        let session = self.sessions[at];
        self.with_session(
            at,
            Held {
                quick: Some(Negotiation { message_id, msg1, msg2, responder: Some(responder) }),
                quick_ids: session.quick_ids.insert(message_id),
                ..session
            },
        )
    }

    /// This responder once a Quick Mode completed.
    pub open spec fn with_child(self, at: int, child: C, spis: (u32, u32), lifetime: SaLifetime) -> Responder<H, Q, C> {
        let session = self.sessions[at];
        let settled = Held {
            quick: match session.quick {
                Some(quick) => Some(Negotiation { responder: None, ..quick }),
                None => None,
            },
            child_spis: Some(spis),
            child_lifetime: Some(lifetime),
            ..session
        };
        Responder {
            children: without_child(self.children, session.cky_i).push((session.cky_i, child)),
            ..self.with_session(at, settled)
        }
    }

    /// This responder once it acted on an Informational.
    pub open spec fn after(self, at: int, verdict: Verdict) -> Responder<H, Q, C> {
        let session = self.sessions[at];
        match verdict {
            Verdict::Nothing => self,
            Verdict::Deleted => Responder {
                sessions: self.sessions.remove(at),
                children: without_child(self.children, session.cky_i),
                ..self
            },
            Verdict::ChildDeleted => Responder {
                children: without_child(self.children, session.cky_i),
                ..self.with_session(at, Held { child_spis: None, child_lifetime: None, ..session })
            },
            Verdict::Answer(seq) => self.with_session(at, Held { dpd_seq: Some(seq), ..session }),
        }
    }

    /// What acting on an Informational of this session is reported as.
    pub open spec fn reported(self, at: int, verdict: Verdict) -> Done {
        let cky_i = self.sessions[at].cky_i;
        match verdict {
            Verdict::Nothing => Done::Ignored,
            Verdict::Deleted => Done::Deleted { cky_i },
            Verdict::ChildDeleted => Done::ChildDeleted { cky_i },
            Verdict::Answer(_) => Done::DpdAnswered { cky_i },
        }
    }

    /// Whether no two sessions have the same cookies or the same message 1, no two
    /// CHILD SAs the same initiator cookie, and every Quick Mode under way is counted
    /// among those its session has seen.
    pub open spec fn sound(self) -> bool {
        &&& forall|i: int, j: int|
            0 <= i < j < self.sessions.len() ==> (#[trigger] self.sessions[i]).cky_i != (
            #[trigger] self.sessions[j]).cky_i || self.sessions[i].cky_r != self.sessions[j].cky_r
        &&& forall|i: int, j: int|
            0 <= i < j < self.sessions.len() ==> (#[trigger] self.sessions[i]).first != (
            #[trigger] self.sessions[j]).first
        &&& forall|i: int, j: int|
            0 <= i < j < self.children.len() ==> (#[trigger] self.children[i]).0 != (#[trigger] self.children[j]).0
        &&& forall|i: int|
            0 <= i < self.sessions.len() ==> ((#[trigger] self.sessions[i]).quick matches Some(quick)
                ==> self.sessions[i].quick_ids.contains(quick.message_id))
    }
}

/// A task with its error taken by its view.
pub open spec fn viewed_task(result: Result<Task, IkeError>) -> Result<Job, Failure> {
    match result {
        Ok(task) => Ok(task@),
        Err(error) => Err(error@),
    }
}

/// An index with its position taken as a number.
pub open spec fn viewed_index(index: Option<usize>) -> Option<int> {
    match index {
        Some(i) => Some(i as int),
        None => None,
    }
}

impl<H, Q> Session<H, Q> {
    /// What a repeat of a Phase-1 message is answered with.
    fn repeat(&self, data: &[u8]) -> (task: Task)
        ensures
            task@ == self@.repeated(data@),
    {
        match &self.answer {
            Some(answer) => if bytes::same(&self.last, data) {
                Task::Resend(bytes::copy(answer))
            } else {
                Task::Ignore
            },
            None => Task::Ignore,
        }
    }

    /// Main-Mode messages 3 and 5, Aggressive-Mode message 3.
    fn continue_phase1(&self, at: usize, exchange_type: u8, data: &[u8]) -> (task: Task)
        ensures
            task@ == self@.continuing(at as int, exchange_type, data@),
    {
        if bytes::same(&self.last, data) {
            return self.repeat(data);
        }
        match &self.phase1 {
            Phase1::MainSaSent(_) => if exchange_type == exchange::MAIN {
                Task::CompleteKe(at)
            } else {
                Task::Ignore
            },
            Phase1::MainKeSent(_) => if exchange_type == exchange::MAIN {
                Task::CompleteId(at)
            } else {
                Task::Ignore
            },
            Phase1::AggressiveSent(_) => if exchange_type == exchange::AGGRESSIVE {
                Task::VerifyHash(at)
            } else {
                Task::Ignore
            },
            Phase1::Established(_) => Task::Ignore,
        }
    }

    /// Quick Mode (RFC 2409 §5.5), under an authenticated ISAKMP SA only.
    fn quick_mode(&self, at: usize, header: &IsakmpHeader, data: &[u8]) -> (task: Task)
        ensures
            task@ == self@.quick_mode(at as int, header@, data@),
    {
        if !matches!(self.phase1, Phase1::Established(_)) || !header.encrypted() || header.message_id == 0 {
            return Task::Ignore;
        }
        if let Some(quick) = &self.quick {
            if quick.message_id == header.message_id {
                if bytes::same(&quick.msg1, data) {
                    return Task::Resend(bytes::copy(&quick.msg2));
                }
                return match quick.responder {
                    Some(_) => Task::CompleteQuick(at),
                    None => Task::Ignore,
                };
            }
        }
        if self.quick_ids.contains(&header.message_id) {
            // An exchange already over: never taken again.
            Task::Ignore
        } else {
            Task::BeginQuick(at)
        }
    }

    /// What one payload of an Informational comes to.
    fn weigh(&self, cookies: &[u8], payload_type: u8, body: &[u8]) -> (verdict: Verdict)
        requires
            cookies@ == self@.cookies(),
        ensures
            verdict == self@.told((payload_type, body@)),
    {
        if payload_type == payload::DELETE {
            return match parse_delete(body) {
                Some((proto, spi)) => {
                    if proto == protocol::ISAKMP && bytes::same(spi, cookies) {
                        Verdict::Deleted
                    } else if proto == protocol::ESP && self.names_child(spi) {
                        Verdict::ChildDeleted
                    } else {
                        Verdict::Nothing
                    }
                },
                None => Verdict::Nothing,
            };
        }
        if payload_type != payload::NOTIFY {
            return Verdict::Nothing;
        }
        match parse_notify(body) {
            Some((message_type, data)) => {
                if message_type != notify_type::R_U_THERE || body.len() < 24 || !bytes::same(
                    bytes::range(body, 8, 24),
                    cookies,
                ) || data.len() != 4 {
                    return Verdict::Nothing;
                }
                let seq: u32 = bytes::get32(data, 0);
                if let Some(last) = self.dpd_seq {
                    if seq < last {
                        return Verdict::Nothing;
                    }
                }
                Verdict::Answer(seq)
            },
            None => Verdict::Nothing,
        }
    }

    /// What the payloads of an Informational come to.
    fn judge(&self, list: &[(u8, Vec<u8>)]) -> (verdict: Verdict)
        ensures
            verdict == self@.informed(isakmp::bodies(list@), 0),
    {
        let mut cookies: Vec<u8> = Vec::new();
        bytes::push_all(&mut cookies, &self.cky_i);
        bytes::push_all(&mut cookies, &self.cky_r);
        assert(cookies@ =~= self@.cookies());
        let ghost all = isakmp::bodies(list@);
        for i in 0..list.len()
            invariant
                all == isakmp::bodies(list@),
                cookies@ == self@.cookies(),
                self@.informed(all, 0) == self@.informed(all, i as int),
        {
            assert(all[i as int] == (list@[i as int].0, list@[i as int].1@));
            let verdict = self.weigh(&cookies, list[i].0, &list[i].1);
            if verdict != Verdict::Nothing {
                return verdict;
            }
        }
        Verdict::Nothing
    }

    /// Whether this is the SPI the peer receives the CHILD SA's traffic on.
    fn names_child(&self, spi: &[u8]) -> (named: bool)
        ensures
            named == (self@.child_spis matches Some((_, theirs)) && spi@ == bytes::be32(theirs)),
    {
        match self.child_spis {
            Some((_, theirs)) => {
                let mut octets: Vec<u8> = Vec::new();
                bytes::push32(&mut octets, theirs);
                assert(octets@ =~= bytes::be32(theirs));
                bytes::same(spi, &octets)
            },
            None => false,
        }
    }
}

impl<H, Q, C> Server<H, Q, C> {
    /// A responder without ISAKMP SAs.
    pub fn new() -> (server: Self)
        ensures
            server@ == (Responder {
                sessions: Seq::<Held<H, Q>>::empty(),
                children: Seq::<(Seq<u8>, C)>::empty(),
                child_volume_limit: None,
            }),
            server@.sound(),
    {
        let server: Server<H, Q, C> = Server {
            sessions: Vec::new(),
            children: Vec::new(),
            child_volume_limit: None,
        };
        assert(server@.sessions =~= Seq::<Held<H, Q>>::empty());
        assert(server@.children =~= Seq::<(Seq<u8>, C)>::empty());
        server
    }

    /// Limit the volume of the CHILD SAs negotiated from now on to `kilobytes`
    /// of this side's own (`None`: no limit, the default): what a Quick Mode
    /// answer states is the offer's own volume limit if it has one, shortened to
    /// this, and this alone when the offer has none (RFC 2407 §4.5.4). Stating
    /// the limit is all this does -- see the module's note on lifetimes.
    pub fn set_child_volume_limit(&mut self, kilobytes: Option<u32>)
        ensures
            final(self)@ == (Responder { child_volume_limit: kilobytes, ..old(self)@ }),
    {
        self.child_volume_limit = kilobytes;
    }

    /// The lifetime a CHILD SA is granted when its offer asks for this one.
    pub fn grant(&self, offered: SaLifetime) -> (granted: SaLifetime)
        ensures
            granted == (SaLifetime {
                seconds: offered.seconds,
                kilobytes: match (offered.kilobytes, self@.child_volume_limit) {
                    (Some(theirs), Some(ours)) => Some(
                        if theirs <= ours {
                            theirs
                        } else {
                            ours
                        },
                    ),
                    (Some(theirs), None) => Some(theirs),
                    (None, ours) => ours,
                },
            }),
    {
        let kilobytes = match (offered.kilobytes, self.child_volume_limit) {
            (Some(theirs), Some(ours)) => {
                if theirs <= ours {
                    Some(theirs)
                } else {
                    Some(ours)
                }
            },
            (Some(theirs), None) => Some(theirs),
            (None, ours) => ours,
        };
        SaLifetime { seconds: offered.seconds, kilobytes }
    }

    /// The lifetime the CHILD SA of the ISAKMP SA opened with initiator cookie
    /// `cky_i` was granted -- its seconds and its volume limit, if it has one --
    /// for as long as the CHILD SA lasts, whether or not [`Self::take_child`]
    /// took it.
    pub fn child_lifetime(&self, cky_i: [u8; 8]) -> (lifetime: Option<SaLifetime>)
        ensures
            lifetime == (match session_with(self@.sessions, cky_i@, 0) {
                Some(i) => self@.sessions[i].child_lifetime,
                None => None,
            }),
    {
        let ghost all = self@.sessions;
        for i in 0..self.sessions.len()
            invariant
                all == self@.sessions,
                session_with(all, cky_i@, 0) == session_with(all, cky_i@, i as int),
        {
            assert(all[i as int] == self.sessions@[i as int]@);
            if bytes::same(&self.sessions[i].cky_i, &cky_i) {
                return self.sessions[i].child_lifetime;
            }
        }
        None
    }

    /// How many ISAKMP SAs there are.
    pub fn session_count(&self) -> (count: usize)
        ensures
            count == self@.sessions.len(),
    {
        self.sessions.len()
    }

    fn find_child(&self, cky_i: &[u8; 8]) -> (index: Option<usize>)
        ensures
            viewed_index(index) == child_of(self@.children, cky_i@, 0),
            index matches Some(i) ==> i < self.children@.len(),
    {
        let ghost all = self@.children;
        for i in 0..self.children.len()
            invariant
                all == self@.children,
                child_of(all, cky_i@, 0) == child_of(all, cky_i@, i as int),
        {
            assert(all[i as int] == (self.children@[i as int].0@, self.children@[i as int].1));
            if bytes::same(&self.children[i].0, cky_i) {
                return Some(i);
            }
        }
        None
    }

    fn find_session(&self, cky_i: &[u8; 8], cky_r: &[u8; 8]) -> (index: Option<usize>)
        ensures
            viewed_index(index) == session_of(self@.sessions, cky_i@, cky_r@, 0),
            index matches Some(i) ==> i < self.sessions@.len(),
    {
        let ghost all = self@.sessions;
        for i in 0..self.sessions.len()
            invariant
                all == self@.sessions,
                session_of(all, cky_i@, cky_r@, 0) == session_of(all, cky_i@, cky_r@, i as int),
        {
            assert(all[i as int] == self.sessions@[i as int]@);
            if bytes::same(&self.sessions[i].cky_i, cky_i) && bytes::same(&self.sessions[i].cky_r, cky_r) {
                return Some(i);
            }
        }
        None
    }

    fn find_opened(&self, data: &[u8]) -> (index: Option<usize>)
        ensures
            viewed_index(index) == opened_by(self@.sessions, data@, 0),
            index matches Some(i) ==> i < self.sessions@.len(),
    {
        let ghost all = self@.sessions;
        for i in 0..self.sessions.len()
            invariant
                all == self@.sessions,
                opened_by(all, data@, 0) == opened_by(all, data@, i as int),
        {
            assert(all[i as int] == self.sessions@[i as int]@);
            if bytes::same(&self.sessions[i].first, data) {
                return Some(i);
            }
        }
        None
    }

    /// Borrow the established ESP CHILD SA for a given initiator cookie.
    pub fn child(&self, cky_i: [u8; 8]) -> (child: Option<&C>)
        ensures
            match child_of(self@.children, cky_i@, 0) {
                Some(i) => child == Some(&self@.children[i].1),
                None => child is None,
            },
    {
        match self.find_child(&cky_i) {
            Some(i) => {
                assert(self@.children[i as int] == (self.children@[i as int].0@, self.children@[i as int].1));
                Some(&self.children[i].1)
            },
            None => None,
        }
    }

    /// Take ownership of the established ESP CHILD SA (to run the data plane,
    /// which mutates the sequence counters).
    pub fn take_child(&mut self, cky_i: [u8; 8]) -> (child: Option<C>)
        ensures
            final(self)@ == (Responder {
                children: without_child(old(self)@.children, cky_i@),
                ..old(self)@
            }),
            match child_of(old(self)@.children, cky_i@, 0) {
                Some(i) => child == Some(old(self)@.children[i].1),
                None => child is None,
            },
    {
        match self.find_child(&cky_i) {
            Some(i) => {
                let ghost before = self.children@;
                assert(self@.children[i as int] == (before[i as int].0@, before[i as int].1));
                let (_, child) = self.children.remove(i);
                assert(owned(self.children@) =~= owned(before).remove(i as int));
                Some(child)
            },
            None => None,
        }
    }

    /// What is to be done with a datagram.
    pub fn handle_one(&self, data: &[u8]) -> (task: Result<Task, IkeError>)
        ensures
            viewed_task(task) == self@.due(data@),
    {
        let header = match IsakmpHeader::parse(data) {
            Ok(header) => header,
            Err(error) => {
                return Err(error);
            },
        };
        let exchange_type: u8 = header.exchange_type;
        let phase1 = exchange_type == exchange::MAIN || exchange_type == exchange::AGGRESSIVE;
        let none: [u8; 8] = [0; 8];
        assert(none@ =~= bytes::zeros(8));
        if phase1 && bytes::same(&header.resp_cookie, &none) {
            return Ok(self.open_phase1(exchange_type, data));
        }
        let at: usize = match self.find_session(&header.init_cookie, &header.resp_cookie) {
            Some(at) => at,
            None => {
                return Ok(Task::Ignore);
            },
        };
        let session = &self.sessions[at];
        assert(self@.sessions[at as int] == session@);
        if phase1 {
            return Ok(session.continue_phase1(at, exchange_type, data));
        }
        if exchange_type == exchange::QUICK {
            return Ok(session.quick_mode(at, &header, data));
        }
        if exchange_type == exchange::INFORMATIONAL && matches!(session.phase1, Phase1::Established(_))
            && header.encrypted() {
            return Ok(Task::Inform(at));
        }
        Ok(Task::Ignore)
    }

    /// Message 1 of either mode: the repeat of one we answered, a late repeat
    /// of one whose exchange moved on, or a new ISAKMP SA -- told apart by the
    /// whole message, since the initiator cookie alone is anyone's to send.
    fn open_phase1(&self, exchange_type: u8, data: &[u8]) -> (task: Task)
        ensures
            task@ == (match opened_by(self@.sessions, data@, 0) {
                Some(i) => self@.sessions[i].repeated(data@),
                None => if exchange_type == exchange::MAIN {
                    Job::OpenMain
                } else {
                    Job::OpenAggressive
                },
            }),
    {
        match self.find_opened(data) {
            Some(i) => {
                assert(self@.sessions[i as int] == self.sessions@[i as int]@);
                self.sessions[i].repeat(data)
            },
            None => if exchange_type == exchange::MAIN {
                Task::OpenMain
            } else {
                Task::OpenAggressive
            },
        }
    }

    /// A message 1 was answered with `msg2`, and opened an ISAKMP SA.
    pub fn opened(&mut self, phase1: Phase1<H>, data: Vec<u8>, msg2: Vec<u8>) -> (event: Result<ServerEvent, IkeError>)
        ensures
            match Head::read(data@) {
                Err(failure) => final(self)@ == old(self)@ && (event matches Err(error) && error@ == failure),
                Ok(header) => match Head::read(msg2@) {
                    Err(failure) => final(self)@ == old(self)@ && (event matches Err(error) && error@ == failure),
                    Ok(answer) => {
                        &&& final(self)@ == old(self)@.opening(
                            header.init_cookie,
                            answer.resp_cookie,
                            phase1@,
                            data@,
                            msg2@,
                        )
                        &&& event matches Ok(event) && event@ == Done::Phase1SaInit
                    },
                },
            },
    {
        let cky_i: [u8; 8] = match IsakmpHeader::parse(&data) {
            Ok(header) => header.init_cookie,
            Err(error) => {
                return Err(error);
            },
        };
        let cky_r: [u8; 8] = match IsakmpHeader::parse(&msg2) {
            Ok(header) => header.resp_cookie,
            Err(error) => {
                return Err(error);
            },
        };
        let ghost before = self.sessions@;
        if let Some(i) = self.find_session(&cky_i, &cky_r) {
            self.sessions.remove(i);
            assert(held(self.sessions@) =~= held(before).remove(i as int));
        }
        let ghost kept = self.sessions@;
        assert(held(kept) == without_session(held(before), cky_i@, cky_r@));
        let session = Session {
            cky_i,
            cky_r,
            phase1,
            first: bytes::copy(&data),
            last: data,
            answer: Some(msg2),
            quick: None,
            quick_ids: HashSet::new(),
            child_spis: None,
            child_lifetime: None,
            dpd_seq: None,
        };
        let ghost made = session@;
        self.sessions.push(session);
        assert(held(self.sessions@) =~= held(kept).push(made));
        Ok(ServerEvent::Phase1SaInit)
    }

    /// A later Phase-1 message of the ISAKMP SA at `at` was taken, and answered where
    /// it has an answer.
    pub fn continued(&mut self, at: usize, phase1: Phase1<H>, data: Vec<u8>, answer: Option<Vec<u8>>) -> (event:
        ServerEvent)
        requires
            at < old(self)@.sessions.len(),
        ensures
            final(self)@ == old(self)@.moved_on(
                at as int,
                phase1@,
                data@,
                crate::error::viewed_option(answer),
            ),
            event@ == (if phase1@ is Established {
                Done::Phase1Established
            } else {
                Done::Phase1SaInit
            }),
    {
        let established = matches!(phase1, Phase1::Established(_));
        let ghost before = self.sessions@;
        let mut session = self.sessions.remove(at);
        assert(session@ == held(before)[at as int]);
        session.phase1 = phase1;
        session.last = data;
        session.answer = answer;
        let ghost made = session@;
        self.sessions.insert(at, session);
        assert(held(self.sessions@) =~= held(before).update(at as int, made));
        if established {
            ServerEvent::Phase1Established
        } else {
            ServerEvent::Phase1SaInit
        }
    }

    /// A Quick Mode message 1 on the ISAKMP SA at `at` was answered with `msg2`.
    pub fn quick_begun(&mut self, at: usize, message_id: u32, msg1: Vec<u8>, msg2: Vec<u8>, responder: Q) -> (event:
        ServerEvent)
        requires
            at < old(self)@.sessions.len(),
        ensures
            final(self)@ == old(self)@.negotiating(at as int, message_id, msg1@, msg2@, responder),
            event@ == Done::QuickSaInit,
    {
        let ghost before = self.sessions@;
        let mut session = self.sessions.remove(at);
        assert(session@ == held(before)[at as int]);
        session.quick_ids.insert(message_id);
        session.quick = Some(Quick { message_id, msg1, msg2, responder: Some(responder) });
        let ghost made = session@;
        self.sessions.insert(at, session);
        assert(held(self.sessions@) =~= held(before).update(at as int, made));
        ServerEvent::QuickSaInit
    }

    /// The Quick Mode under way on the ISAKMP SA at `at` completed: `child` is its
    /// CHILD SA, with these SPIs (ours, then the peer's) and lifetime.
    pub fn quick_completed(&mut self, at: usize, child: C, spis: (u32, u32), lifetime: SaLifetime) -> (event:
        ServerEvent)
        requires
            at < old(self)@.sessions.len(),
        ensures
            final(self)@ == old(self)@.with_child(at as int, child, spis, lifetime),
            event@ == (Done::ChildSaEstablished { cky_i: old(self)@.sessions[at as int].cky_i }),
    {
        let ghost before = self.sessions@;
        let mut session = self.sessions.remove(at);
        assert(session@ == held(before)[at as int]);
        let cky_i: [u8; 8] = session.cky_i;
        session.quick = match session.quick {
            Some(quick) => Some(
                Quick { message_id: quick.message_id, msg1: quick.msg1, msg2: quick.msg2, responder: None },
            ),
            None => None,
        };
        session.child_spis = Some(spis);
        session.child_lifetime = Some(lifetime);
        let ghost made = session@;
        self.sessions.insert(at, session);
        assert(held(self.sessions@) =~= held(before).update(at as int, made));
        let replaced = self.take_child(cky_i);
        let ghost others = self.children@;
        self.children.push((cky_i, child));
        assert(owned(self.children@) =~= owned(others).push((cky_i@, child)));
        ServerEvent::ChildSaEstablished { cky_i }
    }

    /// The ISAKMP SA at `at`, once it is authenticated.
    pub fn isakmp_sa(&self, at: usize) -> (st: Option<&Phase1State>)
        requires
            at < self@.sessions.len(),
        ensures
            match st {
                Some(st) => self@.sessions[at as int].stage == Stage::<H>::Established(st@),
                None => !(self@.sessions[at as int].stage is Established),
            },
    {
        let session = &self.sessions[at];
        assert(self@.sessions[at as int] == session@);
        match &session.phase1 {
            Phase1::Established(st) => Some(st),
            _ => None,
        }
    }

    /// What is kept of the Phase 1 of the ISAKMP SA at `at`, while it is half done.
    pub fn half_open(&self, at: usize) -> (half: Option<&H>)
        requires
            at < self@.sessions.len(),
        ensures
            match self@.sessions[at as int].stage {
                Stage::MainSaSent(state) => half == Some(&state),
                Stage::MainKeSent(state) => half == Some(&state),
                Stage::AggressiveSent(state) => half == Some(&state),
                Stage::Established(_) => half is None,
            },
    {
        let session = &self.sessions[at];
        assert(self@.sessions[at as int] == session@);
        match &session.phase1 {
            Phase1::MainSaSent(half) => Some(half),
            Phase1::MainKeSent(half) => Some(half),
            Phase1::AggressiveSent(half) => Some(half),
            Phase1::Established(_) => None,
        }
    }

    /// What is kept of the Quick Mode of the ISAKMP SA at `at`, while it is half done.
    pub fn quick_responder(&self, at: usize) -> (responder: Option<&Q>)
        requires
            at < self@.sessions.len(),
        ensures
            match self@.sessions[at as int].quick {
                Some(quick) => match quick.responder {
                    Some(state) => responder == Some(&state),
                    None => responder is None,
                },
                None => responder is None,
            },
    {
        let session = &self.sessions[at];
        assert(self@.sessions[at as int] == session@);
        match &session.quick {
            Some(quick) => match &quick.responder {
                Some(responder) => Some(responder),
                None => None,
            },
            None => None,
        }
    }

    /// What an Informational under the authenticated ISAKMP SA at `at` comes to: an
    /// R-U-THERE is to be answered, a Delete closes what it names (RFC 2408 §3.15).
    pub fn informational(&self, at: usize, data: &[u8]) -> (verdict: Result<Verdict, IkeError>)
        requires
            at < self@.sessions.len(),
        ensures
            match self@.sessions[at as int].stage {
                Stage::Established(sa) => match Head::read(data@) {
                    Err(failure) => verdict matches Err(error) && error@ == failure,
                    Ok(header) => match sa.opened(data@, sa.iv_for(header.message_id)) {
                        Err(failure) => verdict matches Err(error) && error@ == failure,
                        Ok((_, list, _)) => verdict == Ok::<Verdict, IkeError>(
                            self@.sessions[at as int].informed(list, 0),
                        ),
                    },
                },
                _ => verdict == Ok::<Verdict, IkeError>(Verdict::Nothing),
            },
    {
        let session = &self.sessions[at];
        assert(self@.sessions[at as int] == session@);
        let st = match &session.phase1 {
            Phase1::Established(st) => st,
            _ => {
                return Ok(Verdict::Nothing);
            },
        };
        let header = match IsakmpHeader::parse(data) {
            Ok(header) => header,
            Err(error) => {
                return Err(error);
            },
        };
        let iv = phase2_iv(st, header.message_id);
        let (_, list, _) = match parse_encrypted(st, data, &iv) {
            Ok(opened) => opened,
            Err(error) => {
                return Err(error);
            },
        };
        Ok(session.judge(&list))
    }

    /// What an Informational on the ISAKMP SA at `at` came to was acted on: an
    /// R-U-THERE was answered.
    pub fn concluded(&mut self, at: usize, verdict: Verdict) -> (event: ServerEvent)
        requires
            at < old(self)@.sessions.len(),
        ensures
            final(self)@ == old(self)@.after(at as int, verdict),
            event@ == old(self)@.reported(at as int, verdict),
    {
        let ghost before = self.sessions@;
        let ghost start = self@;
        assert(start.sessions == held(before));
        if matches!(verdict, Verdict::Nothing) {
            return ServerEvent::Ignored;
        }
        let mut session = self.sessions.remove(at);
        assert(session@ == held(before)[at as int]);
        assert(held(self.sessions@) =~= held(before).remove(at as int));
        let cky_i: [u8; 8] = session.cky_i;
        match verdict {
            Verdict::Nothing => ServerEvent::Ignored,
            Verdict::Deleted => {
                let dropped = self.take_child(cky_i);
                ServerEvent::Deleted { cky_i }
            },
            Verdict::ChildDeleted => {
                session.child_spis = None;
                session.child_lifetime = None;
                let ghost made = session@;
                self.sessions.insert(at, session);
                assert(held(self.sessions@) =~= held(before).update(at as int, made));
                let dropped = self.take_child(cky_i);
                ServerEvent::ChildDeleted { cky_i }
            },
            Verdict::Answer(seq) => {
                session.dpd_seq = Some(seq);
                let ghost made = session@;
                self.sessions.insert(at, session);
                assert(held(self.sessions@) =~= held(before).update(at as int, made));
                ServerEvent::DpdAnswered { cky_i }
            },
        }
    }
}

proof fn lemma_session_of<H, Q>(sessions: Seq<Held<H, Q>>, cky_i: Seq<u8>, cky_r: Seq<u8>, from: int)
    requires
        0 <= from <= sessions.len(),
    ensures
        match session_of(sessions, cky_i, cky_r, from) {
            Some(i) => from <= i < sessions.len() && sessions[i].cky_i == cky_i && sessions[i].cky_r == cky_r
                && forall|j: int|
                from <= j < i ==> (#[trigger] sessions[j]).cky_i != cky_i || sessions[j].cky_r != cky_r,
            None => forall|j: int|
                from <= j < sessions.len() ==> (#[trigger] sessions[j]).cky_i != cky_i || sessions[j].cky_r != cky_r,
        },
    decreases sessions.len() - from,
{
    if from < sessions.len() && !(sessions[from].cky_i == cky_i && sessions[from].cky_r == cky_r) {
        lemma_session_of(sessions, cky_i, cky_r, from + 1);
    }
}

proof fn lemma_opened_by<H, Q>(sessions: Seq<Held<H, Q>>, data: Seq<u8>, from: int)
    requires
        0 <= from <= sessions.len(),
    ensures
        match opened_by(sessions, data, from) {
            Some(i) => from <= i < sessions.len() && sessions[i].first == data && forall|j: int|
                from <= j < i ==> (#[trigger] sessions[j]).first != data,
            None => forall|j: int| from <= j < sessions.len() ==> (#[trigger] sessions[j]).first != data,
        },
    decreases sessions.len() - from,
{
    if from < sessions.len() && sessions[from].first != data {
        lemma_opened_by(sessions, data, from + 1);
    }
}

proof fn lemma_child_of<C>(children: Seq<(Seq<u8>, C)>, cky_i: Seq<u8>, from: int)
    requires
        0 <= from <= children.len(),
    ensures
        match child_of(children, cky_i, from) {
            Some(i) => from <= i < children.len() && children[i].0 == cky_i && forall|j: int|
                from <= j < i ==> (#[trigger] children[j]).0 != cky_i,
            None => forall|j: int| from <= j < children.len() ==> (#[trigger] children[j]).0 != cky_i,
        },
    decreases children.len() - from,
{
    if from < children.len() && children[from].0 != cky_i {
        lemma_child_of(children, cky_i, from + 1);
    }
}

/// Whether no two CHILD SAs have the same initiator cookie.
pub open spec fn children_apart<C>(children: Seq<(Seq<u8>, C)>) -> bool {
    forall|i: int, j: int| 0 <= i < j < children.len() ==> (#[trigger] children[i]).0 != (#[trigger] children[j]).0
}

proof fn lemma_without_child<C>(children: Seq<(Seq<u8>, C)>, cky_i: Seq<u8>)
    requires
        children_apart(children),
    ensures
        children_apart(without_child(children, cky_i)),
        forall|j: int|
            0 <= j < without_child(children, cky_i).len() ==> (#[trigger] without_child(children, cky_i)[j]).0 != cky_i,
{
    lemma_child_of(children, cky_i, 0);
    let left = without_child(children, cky_i);
    if let Some(at) = child_of(children, cky_i, 0) {
        assert forall|j: int| 0 <= j < left.len() implies (#[trigger] left[j]).0 != cky_i by {
            if j < at {
                assert(left[j] == children[j]);
            } else {
                assert(left[j] == children[j + 1]);
            }
        }
        assert forall|i: int, j: int| 0 <= i < j < left.len() implies (#[trigger] left[i]).0 != (#[trigger] left[j]).0 by {
            let a = if i < at {
                i
            } else {
                i + 1
            };
            let b = if j < at {
                j
            } else {
                j + 1
            };
            assert(left[i] == children[a] && left[j] == children[b]);
        }
    }
}

/// A message 1 that opens an ISAKMP SA leaves the responder sound: none was opened by
/// that message before, and one with the same cookies gives way.
pub proof fn law_opening_stays_sound<H, Q, C>(
    responder: Responder<H, Q, C>,
    cky_i: Seq<u8>,
    cky_r: Seq<u8>,
    stage: Stage<H>,
    data: Seq<u8>,
    msg2: Seq<u8>,
)
    requires
        responder.sound(),
        opened_by(responder.sessions, data, 0) is None,
    ensures
        responder.opening(cky_i, cky_r, stage, data, msg2).sound(),
{
    let before = responder.sessions;
    lemma_opened_by(before, data, 0);
    lemma_session_of(before, cky_i, cky_r, 0);
    let kept = without_session(before, cky_i, cky_r);
    let all = responder.opening(cky_i, cky_r, stage, data, msg2).sessions;
    let at = session_of(before, cky_i, cky_r, 0);
    assert forall|i: int| 0 <= i < kept.len() implies {
        &&& (#[trigger] all[i]) == kept[i]
        &&& kept[i].first != data
        &&& kept[i].cky_i != cky_i || kept[i].cky_r != cky_r
        &&& kept[i].quick matches Some(quick) ==> kept[i].quick_ids.contains(quick.message_id)
    } by {
        if at is Some && i >= at->0 {
            assert(kept[i] == before[i + 1]);
        } else {
            assert(kept[i] == before[i]);
        }
    }
    assert forall|i: int, j: int| 0 <= i < j < all.len() implies {
        &&& (#[trigger] all[i]).first != (#[trigger] all[j]).first
        &&& all[i].cky_i != all[j].cky_i || all[i].cky_r != all[j].cky_r
    } by {
        assert(all[i] == kept[i]);
        if j < kept.len() {
            let a = if at is Some && i >= at->0 {
                i + 1
            } else {
                i
            };
            let b = if at is Some && j >= at->0 {
                j + 1
            } else {
                j
            };
            assert(kept[i] == before[a] && kept[j] == before[b]);
        }
    }
}

proof fn lemma_with_session<H, Q, C>(responder: Responder<H, Q, C>, at: int, session: Held<H, Q>)
    requires
        responder.sound(),
        0 <= at < responder.sessions.len(),
        session.cky_i == responder.sessions[at].cky_i,
        session.cky_r == responder.sessions[at].cky_r,
        session.first == responder.sessions[at].first,
        session.quick matches Some(quick) ==> session.quick_ids.contains(quick.message_id),
    ensures
        responder.with_session(at, session).sound(),
{
    let before = responder.sessions;
    let all = responder.with_session(at, session).sessions;
    assert forall|i: int, j: int| 0 <= i < j < all.len() implies {
        &&& (#[trigger] all[i]).first != (#[trigger] all[j]).first
        &&& all[i].cky_i != all[j].cky_i || all[i].cky_r != all[j].cky_r
    } by {
        assert(before[i].first != before[j].first);
    }
    assert forall|i: int| 0 <= i < all.len() implies ((#[trigger] all[i]).quick matches Some(quick)
        ==> all[i].quick_ids.contains(quick.message_id)) by {
        if i != at {
            assert(all[i] == before[i]);
        }
    }
}

/// Every later step leaves the responder sound.
pub proof fn law_steps_stay_sound<H, Q, C>(
    responder: Responder<H, Q, C>,
    at: int,
    stage: Stage<H>,
    data: Seq<u8>,
    answer: Option<Seq<u8>>,
    message_id: u32,
    negotiation: Q,
    child: C,
    spis: (u32, u32),
    lifetime: SaLifetime,
    verdict: Verdict,
)
    requires
        responder.sound(),
        0 <= at < responder.sessions.len(),
    ensures
        responder.moved_on(at, stage, data, answer).sound(),
        answer matches Some(msg2) ==> responder.negotiating(at, message_id, data, msg2, negotiation).sound(),
        responder.with_child(at, child, spis, lifetime).sound(),
        responder.after(at, verdict).sound(),
{
    let session = responder.sessions[at];
    lemma_with_session(responder, at, Held { stage, last: data, answer, ..session });
    if let Some(msg2) = answer {
        let ids = session.quick_ids.insert(message_id);
        lemma_with_session(
            responder,
            at,
            Held {
                quick: Some(Negotiation { message_id, msg1: data, msg2, responder: Some(negotiation) }),
                quick_ids: ids,
                ..session
            },
        );
    }
    lemma_without_child(responder.children, session.cky_i);
    let settled = Held {
        quick: match session.quick {
            Some(quick) => Some(Negotiation { responder: None, ..quick }),
            None => None,
        },
        child_spis: Some(spis),
        child_lifetime: Some(lifetime),
        ..session
    };
    lemma_with_session(responder, at, settled);
    match verdict {
        Verdict::Nothing => {},
        Verdict::Deleted => {
            let before = responder.sessions;
            let all = before.remove(at);
            assert forall|i: int, j: int| 0 <= i < j < all.len() implies {
                &&& (#[trigger] all[i]).first != (#[trigger] all[j]).first
                &&& all[i].cky_i != all[j].cky_i || all[i].cky_r != all[j].cky_r
            } by {
                let a = if i < at {
                    i
                } else {
                    i + 1
                };
                let b = if j < at {
                    j
                } else {
                    j + 1
                };
                assert(all[i] == before[a] && all[j] == before[b]);
            }
            assert forall|i: int| 0 <= i < all.len() implies ((#[trigger] all[i]).quick matches Some(quick)
                ==> all[i].quick_ids.contains(quick.message_id)) by {
                let a = if i < at {
                    i
                } else {
                    i + 1
                };
                assert(all[i] == before[a]);
            }
        },
        Verdict::ChildDeleted => {
            lemma_with_session(responder, at, Held { child_spis: None, child_lifetime: None, ..session });
        },
        Verdict::Answer(seq) => {
            lemma_with_session(responder, at, Held { dpd_seq: Some(seq), ..session });
        },
    }
}

/// A Phase-1 message that was answered gets that answer again when it is repeated,
/// and nothing moves on; one that had no answer gets none.
pub proof fn law_repeat_gets_the_same_answer<H, Q, C>(
    responder: Responder<H, Q, C>,
    at: int,
    stage: Stage<H>,
    data: Seq<u8>,
    answer: Option<Seq<u8>>,
    header: Head,
)
    requires
        Head::read(data) == Ok::<Head, Failure>(header),
        header.exchange_type == exchange::MAIN || header.exchange_type == exchange::AGGRESSIVE,
        header.resp_cookie != bytes::zeros(8),
        session_of(responder.sessions, header.init_cookie, header.resp_cookie, 0) == Some(at),
    ensures
        responder.moved_on(at, stage, data, answer).due(data) == Ok::<Job, Failure>(
            match answer {
                Some(answer) => Job::Resend(answer),
                None => Job::Ignore,
            },
        ),
{
    lemma_session_of(responder.sessions, header.init_cookie, header.resp_cookie, 0);
    let after = responder.moved_on(at, stage, data, answer);
    lemma_same_cookies(responder, after, at, header, 0);
}

proof fn lemma_same_cookies<H, Q, C>(
    before: Responder<H, Q, C>,
    after: Responder<H, Q, C>,
    at: int,
    header: Head,
    from: int,
)
    requires
        before.sessions.len() == after.sessions.len(),
        forall|i: int|
            0 <= i < before.sessions.len() ==> (#[trigger] after.sessions[i]).cky_i == before.sessions[i].cky_i
                && after.sessions[i].cky_r == before.sessions[i].cky_r,
        0 <= from,
    ensures
        session_of(after.sessions, header.init_cookie, header.resp_cookie, from) == session_of(
            before.sessions,
            header.init_cookie,
            header.resp_cookie,
            from,
        ),
    decreases before.sessions.len() - from,
{
    if from < before.sessions.len() {
        assert(after.sessions[from].cky_i == before.sessions[from].cky_i);
        lemma_same_cookies(before, after, at, header, from + 1);
    }
}

/// A message 1 that opened an ISAKMP SA gets its message 2 again when it is repeated,
/// and opens no second one; once the exchange moved on, it gets nothing.
pub proof fn law_repeated_message_1_opens_no_second_sa<H, Q, C>(responder: Responder<H, Q, C>, at: int, header: Head)
    requires
        responder.sound(),
        0 <= at < responder.sessions.len(),
        Head::read(responder.sessions[at].first) == Ok::<Head, Failure>(header),
        header.exchange_type == exchange::MAIN || header.exchange_type == exchange::AGGRESSIVE,
        header.resp_cookie == bytes::zeros(8),
    ensures
        responder.due(responder.sessions[at].first) == Ok::<Job, Failure>(
            match responder.sessions[at].answer {
                Some(answer) => if responder.sessions[at].last == responder.sessions[at].first {
                    Job::Resend(answer)
                } else {
                    Job::Ignore
                },
                None => Job::Ignore,
            },
        ),
{
    let data = responder.sessions[at].first;
    lemma_opened_by(responder.sessions, data, 0);
    let found = opened_by(responder.sessions, data, 0);
    assert(found is Some);
    let i = found->0;
    if i < at {
        assert(responder.sessions[i].first != responder.sessions[at].first);
    }
}

/// Quick Mode is taken only once Phase 1 has authenticated the peer, and an exchange
/// is begun only under a Message ID that was not used before.
pub proof fn law_quick_mode_is_taken_once<H, Q, C>(responder: Responder<H, Q, C>, data: Seq<u8>, header: Head)
    requires
        responder.sound(),
        Head::read(data) == Ok::<Head, Failure>(header),
    ensures
        match responder.due(data) {
            Ok(Job::BeginQuick(at)) => 0 <= at < responder.sessions.len() && responder.sessions[at].stage is Established
                && !responder.sessions[at].quick_ids.contains(header.message_id) && header.message_id != 0
                && header.encrypted(),
            Ok(Job::CompleteQuick(at)) => 0 <= at < responder.sessions.len()
                && responder.sessions[at].stage is Established && (responder.sessions[at].quick matches Some(quick)
                && quick.message_id == header.message_id && quick.responder is Some),
            _ => true,
        },
{
    lemma_session_of(responder.sessions, header.init_cookie, header.resp_cookie, 0);
}

/// A Quick Mode message 1 that was answered gets that answer again when it is
/// repeated; once the exchange is over, a repeat of its message 3 is dropped.
pub proof fn law_repeated_quick_mode<H, Q, C>(
    responder: Responder<H, Q, C>,
    at: int,
    header: Head,
    msg1: Seq<u8>,
    msg2: Seq<u8>,
    negotiation: Q,
    other: Seq<u8>,
    child: C,
    spis: (u32, u32),
    lifetime: SaLifetime,
)
    requires
        Head::read(msg1) == Ok::<Head, Failure>(header),
        header.exchange_type == exchange::QUICK,
        header.encrypted(),
        header.message_id != 0,
        session_of(responder.sessions, header.init_cookie, header.resp_cookie, 0) == Some(at),
        responder.sessions[at].stage is Established,
        Head::read(other) == Ok::<Head, Failure>(header),
        other != msg1,
    ensures
        ({
            let begun = responder.negotiating(at, header.message_id, msg1, msg2, negotiation);
            let over = begun.with_child(at, child, spis, lifetime);
            &&& begun.due(msg1) == Ok::<Job, Failure>(Job::Resend(msg2))
            &&& begun.due(other) == Ok::<Job, Failure>(Job::CompleteQuick(at))
            &&& over.due(msg1) == Ok::<Job, Failure>(Job::Resend(msg2))
            &&& over.due(other) == Ok::<Job, Failure>(Job::Ignore)
        }),
{
    lemma_session_of(responder.sessions, header.init_cookie, header.resp_cookie, 0);
    let begun = responder.negotiating(at, header.message_id, msg1, msg2, negotiation);
    let over = begun.with_child(at, child, spis, lifetime);
    lemma_same_cookies(responder, begun, at, header, 0);
    lemma_same_cookies(responder, over, at, header, 0);
}

proof fn lemma_informed<H, Q>(session: Held<H, Q>, list: Seq<(u8, Seq<u8>)>, from: int)
    requires
        0 <= from,
    ensures
        session.informed(list, from) matches Verdict::Answer(seq) ==> (session.dpd_seq matches Some(last)
            ==> last <= seq),
    decreases list.len() - from,
{
    if from < list.len() && session.told(list[from]) == Verdict::Nothing {
        lemma_informed(session, list, from + 1);
    }
}

/// The sequence number of the R-U-THEREs answered never goes backwards.
pub proof fn law_dpd_never_goes_back<H, Q, C>(responder: Responder<H, Q, C>, at: int, list: Seq<(u8, Seq<u8>)>)
    requires
        0 <= at < responder.sessions.len(),
    ensures
        ({
            let verdict = responder.sessions[at].informed(list, 0);
            let after = responder.after(at, verdict);
            verdict matches Verdict::Answer(seq) ==> after.sessions[at].dpd_seq == Some(seq) && (
            responder.sessions[at].dpd_seq matches Some(last) ==> last <= seq)
        }),
{
    lemma_informed(responder.sessions[at], list, 0);
}

/// Nothing is taken under an ISAKMP SA once it is deleted, and its CHILD SA is gone
/// with it.
pub proof fn law_deleted_sa_is_gone<H, Q, C>(responder: Responder<H, Q, C>, at: int, data: Seq<u8>, header: Head)
    requires
        responder.sound(),
        0 <= at < responder.sessions.len(),
        Head::read(data) == Ok::<Head, Failure>(header),
        header.init_cookie == responder.sessions[at].cky_i,
        header.resp_cookie == responder.sessions[at].cky_r,
        header.resp_cookie != bytes::zeros(8),
    ensures
        ({
            let after = responder.after(at, Verdict::Deleted);
            &&& after.due(data) == Ok::<Job, Failure>(Job::Ignore)
            &&& child_of(after.children, header.init_cookie, 0) is None
        }),
{
    let before = responder.sessions;
    let after = responder.after(at, Verdict::Deleted);
    lemma_session_of(after.sessions, header.init_cookie, header.resp_cookie, 0);
    if let Some(i) = session_of(after.sessions, header.init_cookie, header.resp_cookie, 0) {
        let a = if i < at {
            i
        } else {
            i + 1
        };
        assert(after.sessions[i] == before[a]);
        if a < at {
            assert(before[a].cky_i != before[at].cky_i || before[a].cky_r != before[at].cky_r);
        } else {
            assert(before[at].cky_i != before[a].cky_i || before[at].cky_r != before[a].cky_r);
        }
    }
    lemma_without_child(responder.children, header.init_cookie);
    lemma_child_of(after.children, header.init_cookie, 0);
}

} // verus!
