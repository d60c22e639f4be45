//! The INFORMATIONAL exchange (RFC 7296 §1.4): encrypted control messages
//! carrying Notify / Delete payloads — or nothing at all, which is a Dead Peer
//! Detection (DPD) liveness probe that the peer must answer.
//!
//! Direction rule (RFC 7296 §2.14): the original initiator always encrypts with
//! `SK_ei`, the responder with `SK_er`, regardless of who is requesting.

use vstd::prelude::*;

use crate::bytes;
use crate::error::{viewed, Failure, IkeError};
use crate::ikev2::exchange::{Completed, CompletedSaInit};
use crate::ikev2::message;
use crate::ikev2::message::{payloads, ExchangeType, Flags, Framed, IkeHeader, PayloadType};
use crate::ikev2::payload::basic::{Deleted, Notice};
use crate::ikev2::payload::sa::after;
use crate::ikev2::payload::{notify_type, Delete, Notify};
use crate::ikev2::sk;
use crate::ikev2::sk::{build_sealed, open_encrypted, SkCipher};
use crate::role::Role;

verus! {

impl Completed {
    /// The cipher of the negotiated suite.
    pub open spec fn cipher(self) -> SkCipher {
        self.suite.cipher().unwrap()
    }

    /// The encryption key of messages from this end.
    pub open spec fn sk_e_of(self, role: Role) -> Seq<u8> {
        match role {
            Role::Initiator => self.keys.sk_ei,
            Role::Responder => self.keys.sk_er,
        }
    }

    /// The integrity key of messages from this end.
    pub open spec fn sk_a_of(self, role: Role) -> Seq<u8> {
        match role {
            Role::Initiator => self.keys.sk_ai,
            Role::Responder => self.keys.sk_ar,
        }
    }

    /// The other end of this SA.
    pub open spec fn peer(self) -> Role {
        match self.role {
            Role::Initiator => Role::Responder,
            Role::Responder => Role::Initiator,
        }
    }

    /// The message of `header` from `role` on this SA with `payloads` inside, or
    /// why it cannot be sealed.
    pub open spec fn sealed(
        self,
        role: Role,
        header: IkeHeader,
        payloads: Seq<(PayloadType, Seq<u8>)>,
        iv: Seq<u8>,
    ) -> Result<Seq<u8>, Failure> {
        sk::sealed(self.cipher(), header, payloads, self.sk_e_of(role), self.sk_a_of(role), iv)
    }

    /// What is inside a message from `role` on this SA: the type of its first
    /// payload, and the payload chain.
    pub open spec fn opened(self, role: Role, message: Seq<u8>) -> Result<(PayloadType, Seq<u8>), Failure> {
        sk::decrypted(self.cipher(), message, self.sk_e_of(role), self.sk_a_of(role))
    }

    /// Whether `message` is one from `role` on this SA with `payloads` inside, of
    /// lengths its fields can count.
    pub open spec fn carries(
        self,
        role: Role,
        header: IkeHeader,
        payloads: Seq<(PayloadType, Seq<u8>)>,
        iv: Seq<u8>,
        message: Seq<u8>,
    ) -> bool {
        &&& header.carrying(PayloadType::Encrypted).canonical()
        &&& message::frameable(payloads)
        &&& iv.len() == 8
        &&& sk::sealable(self.cipher(), self.sk_e_of(role), 0, message::encoded(payloads).len())
        &&& message == sk::encrypted(
            self.cipher(),
            header,
            message::first_type(payloads),
            message::encoded(payloads),
            self.sk_e_of(role),
            self.sk_a_of(role),
            iv,
        )
    }

    /// Whether `message` is one from `role` on this SA but for its tag or ICV, which
    /// was altered.
    pub open spec fn tampered(self, role: Role, message: Seq<u8>) -> bool {
        exists|header: IkeHeader, written: Seq<(PayloadType, Seq<u8>)>, iv: Seq<u8>, sent: Seq<u8>|
            #[trigger] self.carries(role, header, written, iv, sent) && bytes::altered(
                message,
                sent,
                self.cipher().icv_size(),
            )
    }
}

/// The header of a message whose tag or ICV was altered can still be read.
pub proof fn lemma_tampered_header(sa: Completed, role: Role, message: Seq<u8>)
    requires
        sa.tampered(role, message),
    ensures
        IkeHeader::read(message) is Ok,
{
    let (header, written, iv, sent) = choose|
        header: IkeHeader,
        written: Seq<(PayloadType, Seq<u8>)>,
        iv: Seq<u8>,
        sent: Seq<u8>,
    |
        #[trigger] sa.carries(role, header, written, iv, sent) && bytes::altered(
            message,
            sent,
            sa.cipher().icv_size(),
        );
    sk::lemma_altered_message(
        sa.cipher(),
        message,
        header,
        PayloadType::Encrypted,
        message::first_type(written).octet(),
        Seq::empty(),
        sa.sk_e_of(role),
        sa.sk_a_of(role),
        iv,
        message::encoded(written),
    );
}

/// A message that carries payloads has the Message ID of its header.
pub proof fn lemma_carried_id(
    sa: Completed,
    role: Role,
    header: IkeHeader,
    written: Seq<(PayloadType, Seq<u8>)>,
    iv: Seq<u8>,
    message: Seq<u8>,
)
    requires
        sa.carries(role, header, written, iv, message),
    ensures
        IkeHeader::read(message) matches Ok(read) && read.message_id == header.message_id,
{
    reveal(sk::sealed_message);
    let content = message::encoded(written);
    let prefix = sk::preamble(
        sa.cipher(),
        header,
        PayloadType::Encrypted,
        message::first_type(written).octet(),
        Seq::empty(),
        content.len(),
    );
    let rest = sk::protected(sa.cipher(), sa.sk_e_of(role), sa.sk_a_of(role), prefix, iv, content);
    sk::lemma_preamble(
        sa.cipher(),
        header,
        PayloadType::Encrypted,
        message::first_type(written).octet(),
        Seq::empty(),
        content.len(),
        rest,
    );
    assert(message == prefix + rest);
}

/// The encryption key of messages from `role`.
fn sk_e(sa: &CompletedSaInit, role: Role) -> (key: &[u8])
    ensures
        key@ == sa@.sk_e_of(role),
{
    match role {
        Role::Initiator => &sa.keys.sk_ei,
        Role::Responder => &sa.keys.sk_er,
    }
}

/// The integrity key of messages from `role`.
fn sk_a(sa: &CompletedSaInit, role: Role) -> (key: &[u8])
    ensures
        key@ == sa@.sk_a_of(role),
{
    match role {
        Role::Initiator => &sa.keys.sk_ai,
        Role::Responder => &sa.keys.sk_ar,
    }
}

/// The other end of this SA.
fn peer_of(sa: &CompletedSaInit) -> (role: Role)
    ensures
        role == sa@.peer(),
{
    match sa.role {
        Role::Initiator => Role::Responder,
        Role::Responder => Role::Initiator,
    }
}

/// The header of a message we send on `sa` in this exchange.
pub open spec fn header_of(sa: Completed, exchange_type: ExchangeType, message_id: u32, is_response: bool) -> IkeHeader {
    IkeHeader {
        initiator_spi: sa.spi_i,
        responder_spi: sa.spi_r,
        next_payload: PayloadType::NoNext,
        major_version: 2,
        minor_version: 0,
        exchange_type,
        flags: Flags { initiator: sa.role == Role::Initiator, version: false, response: is_response },
        message_id,
        length: 0,
    }
}

/// The header of a message we send on `sa` in this exchange. The Initiator (I)
/// flag marks messages from the original initiator.
pub(crate) fn our_header(
    sa: &CompletedSaInit,
    exchange_type: ExchangeType,
    message_id: u32,
    is_response: bool,
) -> (header: IkeHeader)
    ensures
        header == header_of(sa@, exchange_type, message_id, is_response),
{
    IkeHeader {
        initiator_spi: sa.spi_i,
        responder_spi: sa.spi_r,
        next_payload: PayloadType::NoNext,
        major_version: 2,
        minor_version: 0,
        exchange_type,
        flags: Flags { initiator: matches!(sa.role, Role::Initiator), version: false, response: is_response },
        message_id,
        length: 0,
    }
}

/// Seal `inner_payloads` as a message from `role` on `sa` with this header.
pub(crate) fn seal_from(
    sa: &CompletedSaInit,
    role: Role,
    header: IkeHeader,
    inner_payloads: &[(PayloadType, Vec<u8>)],
    iv: &[u8; 8],
) -> (out: Result<Vec<u8>, IkeError>)
    requires
        sa@.suite.cipher() is Some,
    ensures
        viewed(out) == sa@.sealed(role, header, message::bodies(inner_payloads@), iv@),
{
    build_sealed(sa.suite.sk_cipher(), header, inner_payloads, sk_e(sa, role), sk_a(sa, role), iv)
}

/// Build an encrypted INFORMATIONAL message carrying the given inner payloads.
pub fn build_informational(
    sa: &CompletedSaInit,
    message_id: u32,
    is_response: bool,
    inner_payloads: &[(PayloadType, Vec<u8>)],
    iv: &[u8; 8],
) -> (out: Result<Vec<u8>, IkeError>)
    requires
        sa@.suite.cipher() is Some,
    ensures
        viewed(out) == sa@.sealed(
            sa@.role,
            header_of(sa@, ExchangeType::Informational, message_id, is_response),
            message::bodies(inner_payloads@),
            iv@,
        ),
{
    seal_from(sa, sa.role, our_header(sa, ExchangeType::Informational, message_id, is_response), inner_payloads, iv)
}

/// A DPD liveness check: an empty INFORMATIONAL request. A live peer must reply
/// with an (also empty) INFORMATIONAL response.
pub fn dpd_request(sa: &CompletedSaInit, message_id: u32, iv: &[u8; 8]) -> (out: Result<Vec<u8>, IkeError>)
    requires
        sa@.suite.cipher() is Some,
    ensures
        viewed(out) == sa@.sealed(
            sa@.role,
            header_of(sa@, ExchangeType::Informational, message_id, false),
            Seq::empty(),
            iv@,
        ),
{
    let none: Vec<(PayloadType, Vec<u8>)> = Vec::new();
    assert(message::bodies(none@) =~= Seq::<(PayloadType, Seq<u8>)>::empty());
    build_informational(sa, message_id, false, &none, iv)
}

/// What an INFORMATIONAL from the peer holds: its payloads by their types and
/// bodies.
pub open spec fn informed(sa: Completed, message: Seq<u8>) -> Result<Seq<(PayloadType, Seq<u8>)>, Failure> {
    match sa.opened(sa.peer(), message) {
        Err(failure) => Err(failure),
        Ok((first, inner)) => message::listed(first, inner),
    }
}

/// Decrypt an INFORMATIONAL from the peer, returning its inner payloads as
/// `(type, body)` pairs. An empty result is a DPD liveness probe/ack. What the
/// peer put in is what comes out; once the tag or ICV was altered, nothing does.
pub fn open_informational(sa: &CompletedSaInit, message: &[u8]) -> (out: Result<
    Vec<(PayloadType, Vec<u8>)>,
    IkeError,
>)
    requires
        sa@.suite.cipher() is Some,
    ensures
        message::viewed_bodies(out) == informed(sa@, message@),
        forall|header: IkeHeader, written: Seq<(PayloadType, Seq<u8>)>, iv: Seq<u8>|
            #[trigger] sa@.carries(sa@.peer(), header, written, iv, message@) ==> message::viewed_bodies(out)
                == Ok::<Seq<(PayloadType, Seq<u8>)>, Failure>(written),
        sa@.tampered(sa@.peer(), message@) ==> message::viewed_bodies(out) == Err::<Seq<(PayloadType, Seq<u8>)>, Failure>(Failure::BadIntegrity),
{
    let (first, inner) = match open_from_peer(sa, message) {
        Ok(opened) => opened,
        Err(error) => {
            return Err(error);
        },
    };
    proof {
        assert forall|header: IkeHeader, written: Seq<(PayloadType, Seq<u8>)>, iv: Seq<u8>| #[trigger]
            sa@.carries(sa@.peer(), header, written, iv, message@) implies informed(sa@, message@) == Ok::<
            Seq<(PayloadType, Seq<u8>)>,
            Failure,
        >(written) by {
            message::law_list_round_trip(written);
        }
    }
    payload_list(first, &inner)
}

/// Decrypt and authenticate `message`, one the peer sent on `sa` in any
/// exchange, returning the first inner payload's type and the SK payload's
/// plaintext. This is the integrity check alone (RFC 7296 §3.14): whether the
/// header's SPIs, flags, exchange type and Message ID are what such a message
/// should carry is the caller's to check -- the keys don't depend on them.
pub fn open_from_peer(sa: &CompletedSaInit, message: &[u8]) -> (out: Result<(PayloadType, Vec<u8>), IkeError>)
    requires
        sa@.suite.cipher() is Some,
    ensures
        sk::viewed_inner(out) == sa@.opened(sa@.peer(), message@),
        out is Ok ==> IkeHeader::read(message@) is Ok,
        out matches Ok((_, inner)) ==> inner@.len() < 0x1_0000,
        forall|header: IkeHeader, written: Seq<(PayloadType, Seq<u8>)>, iv: Seq<u8>|
            #[trigger] sa@.carries(sa@.peer(), header, written, iv, message@) ==> sk::viewed_inner(out) == Ok::<
                (PayloadType, Seq<u8>),
                Failure,
            >((message::first_type(written), message::encoded(written))),
        sa@.tampered(sa@.peer(), message@) ==> sk::viewed_inner(out) == Err::<(PayloadType, Seq<u8>), Failure>(Failure::BadIntegrity),
{
    open_from(sa, peer_of(sa), message)
}

/// Decrypt and authenticate `message`, one from `role` on `sa`.
pub(crate) fn open_from(sa: &CompletedSaInit, role: Role, message: &[u8]) -> (out: Result<
    (PayloadType, Vec<u8>),
    IkeError,
>)
    requires
        sa@.suite.cipher() is Some,
    ensures
        sk::viewed_inner(out) == sa@.opened(role, message@),
        out is Ok ==> IkeHeader::read(message@) is Ok,
        out matches Ok((_, inner)) ==> inner@.len() < 0x1_0000,
        forall|header: IkeHeader, written: Seq<(PayloadType, Seq<u8>)>, iv: Seq<u8>|
            #[trigger] sa@.carries(role, header, written, iv, message@) ==> sk::viewed_inner(out) == Ok::<
                (PayloadType, Seq<u8>),
                Failure,
            >((message::first_type(written), message::encoded(written))),
        sa@.tampered(role, message@) ==> sk::viewed_inner(out) == Err::<(PayloadType, Seq<u8>), Failure>(Failure::BadIntegrity),
{
    let out = open_encrypted(sa.suite.sk_cipher(), message, sk_e(sa, role), sk_a(sa, role));
    proof {
        assert forall|header: IkeHeader, written: Seq<(PayloadType, Seq<u8>)>, iv: Seq<u8>| #[trigger]
            sa@.carries(role, header, written, iv, message@) implies message::first_type(written).canonical() by {
            if written.len() > 0 {
                assert(written[0].0.canonical());
            }
        }
    }
    out
}

/// The payload chain starting with a `first` payload in `body`, as
/// `(type, body)` pairs.
pub fn payload_list(first: PayloadType, body: &[u8]) -> (out: Result<Vec<(PayloadType, Vec<u8>)>, IkeError>)
    ensures
        message::viewed_bodies(out) == message::listed(first, body@),
{
    let mut list: Vec<(PayloadType, Vec<u8>)> = Vec::new();
    let mut iter = payloads(first, body);
    let ghost whole = message::chain(first, body@);
    let ghost mut done: Seq<Framed> = Seq::empty();
    proof {
        if let Ok(all) = whole {
            assert(done + all =~= all);
        }
        assert(message::bodies(list@) =~= message::unframed(done));
    }
    loop
        invariant_except_break
            !iter.finished(),
            after(done, message::chain(iter.first(), iter.remaining())) == whole,
        invariant
            whole == message::chain(first, body@),
            message::bodies(list@) == message::unframed(done),
        ensures
            whole == Ok::<Seq<Framed>, Failure>(done),
        decreases iter.remaining().len(),
    {
        match iter.next() {
            None => {
                assert(done + Seq::<Framed>::empty() =~= done);
                break;
            },
            Some(Err(error)) => {
                return Err(error);
            },
            Some(Ok(payload)) => {
                let ghost before = list@;
                let data = bytes::copy(payload.data);
                list.push((payload.payload_type, data));
                proof {
                    assert(message::bodies(list@) =~= message::bodies(before).push((payload.payload_type, data@)));
                    if let Ok(others) = message::chain(iter.first(), iter.remaining()) {
                        assert(done + (seq![payload@] + others) =~= done.push(payload@) + others);
                    }
                    let seen = done;
                    done = done.push(payload@);
                    assert(message::unframed(done) =~= message::unframed(done.drop_last()).push((payload@.payload_type, payload@.data)));
                    assert(done.drop_last() =~= seen);
                }
            },
        }
    }
    Ok(list)
}

/// The Delete payloads among `payloads` from index `from` on, or why one of them
/// is malformed.
pub open spec fn deleted(payloads: Seq<(PayloadType, Seq<u8>)>, from: int) -> Result<Seq<Deleted>, Failure>
    decreases payloads.len() - from,
{
    if from < 0 || from >= payloads.len() {
        Ok(Seq::empty())
    } else if payloads[from].0 == PayloadType::Delete {
        match Deleted::read(payloads[from].1) {
            Err(failure) => Err(failure),
            Ok(delete) => after(seq![delete], deleted(payloads, from + 1)),
        }
    } else {
        deleted(payloads, from + 1)
    }
}

/// Deletes taken by their views.
pub open spec fn viewed_deletes(result: Result<Vec<Delete>, IkeError>) -> Result<Seq<Deleted>, Failure> {
    match result {
        Ok(deletes) => Ok(deletes@.map_values(|d: Delete| d@)),
        Err(error) => Err(error@),
    }
}

/// The Delete payloads among `payloads`, each checked by [`Delete::parse`]:
/// one malformed Delete makes the message malformed.
pub fn deletes_in(payloads: &[(PayloadType, Vec<u8>)]) -> (out: Result<Vec<Delete>, IkeError>)
    ensures
        viewed_deletes(out) == deleted(message::bodies(payloads@), 0),
{
    let mut list: Vec<Delete> = Vec::new();
    let ghost all = message::bodies(payloads@);
    let ghost mut done: Seq<Deleted> = Seq::empty();
    proof {
        if let Ok(found) = deleted(all, 0) {
            assert(done + found =~= found);
        }
        assert(list@.map_values(|d: Delete| d@) =~= done);
    }
    for i in 0..payloads.len()
        invariant
            all == message::bodies(payloads@),
            list@.map_values(|d: Delete| d@) == done,
            after(done, deleted(all, i as int)) == deleted(all, 0),
    {
        assert(all[i as int] == (payloads@[i as int].0, payloads@[i as int].1@));
        if payloads[i].0 == PayloadType::Delete {
            let delete = match Delete::parse(&payloads[i].1) {
                Ok(delete) => delete,
                Err(error) => {
                    return Err(error);
                },
            };
            proof {
                if let Ok(others) = deleted(all, i + 1) {
                    assert(done + (seq![delete@] + others) =~= done.push(delete@) + others);
                }
                assert(list@.push(delete).map_values(|d: Delete| d@) =~= done.push(delete@));
                done = done.push(delete@);
            }
            list.push(delete);
        }
    }
    assert(done + Seq::<Deleted>::empty() =~= done);
    Ok(list)
}

/// The error notify a request earns by what went wrong reading it.
pub open spec fn error_notice(failure: Failure) -> Notice {
    match failure {
        Failure::UnsupportedCriticalPayload(payload_type) => Notice::status(
            notify_type::UNSUPPORTED_CRITICAL_PAYLOAD,
            seq![payload_type],
        ),
        _ => Notice::status(notify_type::INVALID_SYNTAX, Seq::empty()),
    }
}

/// The error notify a request earns when it authenticates and is in the
/// window but its payloads can't be taken, by what `error` went wrong
/// reading them: `UNSUPPORTED_CRITICAL_PAYLOAD` naming the payload type, for
/// a payload of a type we don't know with the critical flag set (RFC 7296
/// §2.5), and `INVALID_SYNTAX` for anything else -- a malformed payload
/// chain, or a payload whose fields don't hold together (§2.21.3).
pub fn request_error_notify(error: &IkeError) -> (notify: Notify)
    ensures
        notify@ == error_notice(error@),
{
    match error {
        IkeError::UnsupportedCriticalPayload(payload_type) => {
            let mut data: Vec<u8> = Vec::new();
            data.push(*payload_type);
            assert(data@ =~= seq![*payload_type]);
            Notify::status(notify_type::UNSUPPORTED_CRITICAL_PAYLOAD, data)
        },
        _ => {
            let data: Vec<u8> = Vec::new();
            assert(data@ =~= Seq::<u8>::empty());
            Notify::status(notify_type::INVALID_SYNTAX, data)
        },
    }
}

/// Our response on `sa` to the peer's request with header `request`, in the
/// request's exchange, carrying `notify` alone: the answer to a request with
/// an error (RFC 7296 §2.21.3).
pub fn build_error_response(sa: &CompletedSaInit, request: &IkeHeader, notify: &Notify, iv: &[u8; 8]) -> (out: Result<
    Vec<u8>,
    IkeError,
>)
    requires
        sa@.suite.cipher() is Some,
    ensures
        viewed(out) == sa@.sealed(
            sa@.role,
            header_of(sa@, request.exchange_type, request.message_id, true),
            seq![(PayloadType::Notify, notify@.octets())],
            iv@,
        ),
{
    let header = our_header(sa, request.exchange_type, request.message_id, true);
    let mut inner: Vec<(PayloadType, Vec<u8>)> = Vec::new();
    inner.push((PayloadType::Notify, notify.to_bytes()));
    assert(message::bodies(inner@) =~= seq![(PayloadType::Notify, notify@.octets())]);
    seal_from(sa, sa.role, header, &inner, iv)
}

} // verus!
