//! The EAP-MSCHAPv2 authentication exchange inside `IKE_AUTH` (RFC 7296 §2.16),
//! both roles. This is the flow stock iOS/Android use.
//!
//! ```text
//! I → SK{ IDi, SAi2, TSi, TSr }                     (no AUTH: "I'll use EAP")
//! R → SK{ IDr, AUTH(psk), EAP-Req/Identity }
//! I → SK{ EAP-Resp/Identity }
//! R → SK{ EAP-Req/MSCHAPv2-Challenge }
//! I → SK{ EAP-Resp/MSCHAPv2-Response }
//! R → SK{ EAP-Req/MSCHAPv2-Success }
//! I → SK{ EAP-Resp/MSCHAPv2-Success }
//! R → SK{ EAP-Success }
//! I → SK{ AUTH(MSK) }
//! R → SK{ AUTH(MSK), SAr2, TSi, TSr }               (CHILD SA established)
//! ```
//!
//! The responder authenticates with a PSK or a certificate; both final AUTH
//! payloads key off the EAP-derived MSK.
//!
//! Each side keeps to that order. The initiator answers nothing before the
//! server's AUTH has verified (unless told not to check it), answers
//! Identity and Notification Requests and Naks a method it doesn't run until
//! MSCHAPv2 has begun (RFC 3748 §2.1, §5.2, §5.3.1), answers a duplicate
//! Request with its first Response (§4.1), checks the authenticator response
//! before it acknowledges it (RFC 2759 §8.8), and takes EAP-Success only after
//! that (RFC 3748 §4.2) and the final message only after its own AUTH. The
//! responder takes each Response only for the Request it has outstanding, by
//! EAP Identifier (RFC 3748 §4.1) and step, and the initiator's AUTH only
//! after it sent EAP-Success.
//!
//! In `IKE_AUTH` each EAP message rides in an IKE message the other side
//! answers, so where RFC 3748 has a message "silently discarded" nothing else
//! would come: either side ends the exchange then ([`EapEvent::Failed`]).

pub mod initiator;
pub mod laws;
pub mod proof_laws;
pub mod responder;
pub mod state_laws;

use vstd::prelude::*;
use vstd::string::StrSliceExecFns;

use crate::bytes;
use crate::entropy;
use crate::entropy::Entropy;
use crate::error::{viewed_option, Failure, IkeError};
use crate::ikev2::exchange::{Completed, CompletedSaInit};
use crate::ikev2::ike_auth::{CertClaim, Claim, Prover};
use crate::ikev2::informational::{header_of, open_from_peer, our_header, payload_list, seal_from};
use crate::ikev2::message;
use crate::ikev2::message::{ExchangeType, IkeHeader, PayloadType};
use crate::ikev2::payload::cert;
use crate::ikev2::payload::Authentication;
use crate::ikev2::sk;
use crate::role::Role;

pub use crate::ikev2::eap_auth::initiator::EapInitiator;
pub use crate::ikev2::eap_auth::responder::EapResponder;

verus! {

/// How the server (responder) authenticates *itself* in the EAP exchange
/// (RFC 7296 §2.16 — its own AUTH, separate from the EAP/MSK exchange).
pub enum ServerAuth {
    /// Pre-shared key (RFC 7296 §2.15). Simple, but native phones want a cert.
    Psk(Vec<u8>),
    /// An X.509 chain (`chain[0]` = leaf; the rest are intermediates, any order,
    /// no root), and the AUTH payload the leaf's key signed, of the method
    /// [`crate::ikev2::ike_auth::cert_auth_method`] gives.
    Cert { chain: Vec<Vec<u8>>, auth: Authentication },
}

impl View for ServerAuth {
    type V = Prover;

    open spec fn view(&self) -> Prover {
        match self {
            ServerAuth::Psk(psk) => Prover::Psk(psk@),
            ServerAuth::Cert { chain, auth } => Prover::Cert { chain: bytes::contents(chain@), auth: auth@ },
        }
    }
}

/// How the client (initiator) authenticates the *server*.
pub enum ServerVerify {
    /// Do not authenticate the server. Only tolerable with a PSK server in an
    /// already-trusted setting; a real phone-style client must not use this.
    Insecure,
    /// Require the server's `AUTH(psk)` to match what we independently compute
    /// from this pre-shared key over its own signed octets (RFC 7296 §2.15) —
    /// the actual verification `Insecure` skips. Fits gateways (e.g. a
    /// FortiGate PSK+EAP dialup policy) that authenticate themselves via PSK
    /// rather than a certificate.
    Psk(Vec<u8>),
    /// Require the server's certificates and AUTH to be what was vouched for: a
    /// claim ([`EapInitiator::server_claim`]) whose leaf certificate was found
    /// to (a) build a valid X.509 path to a trusted CA, (b) carry the expected
    /// name, where one is expected, and (c) produce a valid AUTH signature.
    /// `ca_hashes` are the SHA-1 hashes of the trusted CAs' keys.
    TrustedCas { ca_hashes: Vec<[u8; 20]>, vouched: Option<CertClaim> },
}

/// A [`ServerVerify`] as a value of the specification.
#[verifier::ext_equal]
pub enum Trust {
    Insecure,
    Psk(Seq<u8>),
    TrustedCas { ca_hashes: Seq<[u8; 20]>, vouched: Option<Claim> },
}

impl View for ServerVerify {
    type V = Trust;

    open spec fn view(&self) -> Trust {
        match self {
            ServerVerify::Insecure => Trust::Insecure,
            ServerVerify::Psk(psk) => Trust::Psk(psk@),
            ServerVerify::TrustedCas { ca_hashes, vouched } => Trust::TrustedCas {
                ca_hashes: ca_hashes@,
                vouched: viewed_option(*vouched),
            },
        }
    }
}

/// Outcome of feeding one peer message to a state machine.
#[derive(Debug)]
pub enum EapEvent {
    /// Send this message and await the next reply.
    Reply(Vec<u8>),
    /// Handshake complete. If `Some`, send this final message first.
    Established(Option<Vec<u8>>),
    /// The peer failed authentication. `Some` when EAP-MSCHAPv2 gave a
    /// specific, parsed reason (RFC 2759 §4's Failure message); `None` for
    /// a bare EAP-Failure or any other protocol-level abort (unexpected
    /// message, server-auth mismatch, etc) with no stated reason.
    Failed(Option<EapFailureReason>),
}

/// An [`EapEvent`] as a value of the specification.
#[verifier::ext_equal]
pub enum Event {
    Reply(Seq<u8>),
    Established(Option<Seq<u8>>),
    Failed(Option<Reason>),
}

impl View for EapEvent {
    type V = Event;

    open spec fn view(&self) -> Event {
        match self {
            EapEvent::Reply(message) => Event::Reply(message@),
            EapEvent::Established(message) => Event::Established(viewed_option(*message)),
            EapEvent::Failed(reason) => Event::Failed(viewed_option(*reason)),
        }
    }
}

/// A server-stated EAP-MSCHAPv2 failure reason (RFC 2759 §4:
/// `"E=eeeeeeeeee R=r C=cccccccccccccccccccccccccccccccc V=v M=<msg>"`).
#[derive(Debug, Clone, PartialEq, Eq)]
pub struct EapFailureReason {
    /// The full ASCII message, verbatim, for logging.
    pub raw: String,
    /// `true` for `E=691` (`ERROR_AUTHENTICATION_FAILURE`) — a definitive
    /// "these credentials are wrong", not a transient/protocol failure.
    pub credentials_rejected: bool,
}

/// An [`EapFailureReason`] as a value of the specification.
#[verifier::ext_equal]
pub struct Reason {
    pub raw: Seq<char>,
    pub credentials_rejected: bool,
}

impl View for EapFailureReason {
    type V = Reason;

    open spec fn view(&self) -> Reason {
        Reason { raw: self.raw@, credentials_rejected: self.credentials_rejected }
    }
}

/// Whether a character has the Unicode property White_Space.
pub open spec fn is_white(c: char) -> bool {
    let v = c as int;
    ||| 0x09 <= v <= 0x0d
    ||| v == 0x20
    ||| v == 0x85
    ||| v == 0xa0
    ||| v == 0x1680
    ||| 0x2000 <= v <= 0x200a
    ||| v == 0x2028
    ||| v == 0x2029
    ||| v == 0x202f
    ||| v == 0x205f
    ||| v == 0x3000
}

/// The first index, from `from` on, that is or is not of white space, as `white`
/// asks; the length if there is none.
pub open spec fn scan(text: Seq<char>, from: int, white: bool) -> int
    decreases text.len() - from,
{
    if from < 0 || from >= text.len() {
        text.len() as int
    } else if is_white(text[from]) == white {
        from
    } else {
        scan(text, from + 1, white)
    }
}

/// Where [`scan`] ends up.
pub proof fn lemma_scan(text: Seq<char>, from: int, white: bool)
    requires
        0 <= from,
    ensures
        scan(text, from, white) <= text.len(),
        from <= text.len() ==> from <= scan(text, from, white),
        scan(text, from, white) < text.len() ==> is_white(text[scan(text, from, white)]) == white,
    decreases text.len() - from,
{
    if from < text.len() && is_white(text[from]) != white {
        lemma_scan(text, from + 1, white);
    }
}

/// The words of a text, from `from` on: its longest stretches without white space.
pub open spec fn words(text: Seq<char>, from: int) -> Seq<Seq<char>>
    decreases text.len() - from,
{
    let start = scan(text, from, false);
    let end = scan(text, start, true);
    if from < 0 || start >= text.len() {
        Seq::empty()
    } else {
        proof {
            lemma_scan(text, from, false);
            lemma_scan(text, start, true);
        }
        seq![text.subrange(start, end)] + words(text, end)
    }
}

/// Whether a word states an error code.
pub open spec fn is_code(word: Seq<char>) -> bool {
    word.len() >= 2 && word[0] == 'E' && word[1] == '='
}

/// The first of `words` that states an error code.
pub open spec fn stated_code(words: Seq<Seq<char>>) -> Option<Seq<char>>
    decreases words.len(),
{
    if words.len() == 0 {
        None
    } else if is_code(words[0]) {
        Some(words[0])
    } else {
        stated_code(words.drop_first())
    }
}

impl Reason {
    /// What a Failure message states: `E=691` says the credentials are wrong.
    pub open spec fn read(raw: Seq<char>) -> Reason {
        Reason { raw, credentials_rejected: stated_code(words(raw, 0)) == Some("E=691"@) }
    }
}

/// Whether a character has the Unicode property White_Space.
fn white_space(c: char) -> (white: bool)
    ensures
        white == is_white(c),
{
    let v: u32 = c as u32;
    (0x09 <= v && v <= 0x0d) || v == 0x20 || v == 0x85 || v == 0xa0 || v == 0x1680 || (0x2000 <= v && v <= 0x200a)
        || v == 0x2028 || v == 0x2029 || v == 0x202f || v == 0x205f || v == 0x3000
}

/// The first index, from `from` on, that is or is not of white space, as `white`
/// asks; the length if there is none.
fn scan_text(text: &str, len: usize, from: usize, white: bool) -> (at: usize)
    requires
        len == text@.len(),
        from <= len,
    ensures
        at == scan(text@, from as int, white),
        from <= at <= len,
        at < len ==> is_white(text@[at as int]) == white,
{
    let mut at: usize = from;
    while at < len
        invariant
            len == text@.len(),
            from <= at <= len,
            scan(text@, at as int, white) == scan(text@, from as int, white),
        decreases len - at,
    {
        if white_space(text.get_char(at)) == white {
            return at;
        }
        at = at + 1;
    }
    at
}

impl EapFailureReason {
    /// What a Failure message states.
    pub fn parse(raw: String) -> (reason: Self)
        ensures
            reason@ == Reason::read(raw@),
    {
        let text: &str = raw.as_str();
        let len: usize = text.unicode_len();
        let mut at: usize = 0;
        let mut rejected = false;
        proof {
            reveal_strlit("E=691");
        }
        loop
            invariant_except_break
                !rejected,
                stated_code(words(text@, at as int)) == stated_code(words(text@, 0)),
            invariant
                text@ == raw@,
                len == text@.len(),
                at <= len,
                "E=691"@ == seq!['E', '=', '6', '9', '1'],
            ensures
                rejected == (stated_code(words(text@, 0)) == Some("E=691"@)),
            decreases len - at,
        {
            let start: usize = scan_text(text, len, at, false);
            if start >= len {
                break;
            }
            let end: usize = scan_text(text, len, start, true);
            let ghost word = text@.subrange(start as int, end as int);
            proof {
                assert(end > start) by {
                    if end == start {
                        assert(is_white(text@[start as int]));
                    }
                }
                let here = words(text@, at as int);
                assert(here[0] == word);
                assert(here.drop_first() =~= words(text@, end as int));
            }
            if end - start >= 2 && text.get_char(start) == 'E' && text.get_char(start + 1) == '=' {
                assert(is_code(word));
                rejected = end - start == 5 && text.get_char(start + 2) == '6' && text.get_char(start + 3) == '9'
                    && text.get_char(start + 4) == '1';
                assert(rejected ==> word =~= "E=691"@);
                assert(word == "E=691"@ ==> word.len() == 5 && word[2] == '6' && word[3] == '9' && word[4] == '1');
                break;
            }
            at = end;
        }
        EapFailureReason { raw, credentials_rejected: rejected }
    }
}

/// The text `String::from_utf8_lossy` makes of these octets: what is not UTF-8 in
/// them is replaced.
pub uninterp spec fn lossy_text(octets: Seq<u8>) -> Seq<char>;

/// `String::from_utf8_lossy`, as owned text: a function of the octets alone, which
/// leaves octets that are UTF-8 as the text they encode.
#[verifier::external_body]
fn from_utf8_lossy(octets: &[u8]) -> (text: String)
    ensures
        text@ == lossy_text(octets@),
        vstd::utf8::valid_utf8(octets@) ==> text@ == vstd::utf8::decode_utf8(octets@),
{
    String::from_utf8_lossy(octets).into_owned()
}

/// The message of an MSCHAPv2 Failure Request, as text.
pub open spec fn failure_text(data: Seq<u8>) -> Seq<char> {
    if data.len() < 5 {
        Seq::empty()
    } else {
        lossy_text(bytes::from(data, 5))
    }
}

/// The reason an MSCHAPv2 Failure Request states. Octets 5 and on of its data are
/// the ASCII message.
fn failure_reason(data: &[u8]) -> (reason: EapFailureReason)
    ensures
        reason@ == Reason::read(failure_text(data@)),
{
    let raw = if data.len() < 5 {
        String::new()
    } else {
        from_utf8_lossy(bytes::tail(data, 5))
    };
    assert(raw@ =~= failure_text(data@));
    EapFailureReason::parse(raw)
}

/// The body of the first payload of type `want` in `list`, from index `from` on.
pub open spec fn found_from(list: Seq<(PayloadType, Seq<u8>)>, want: PayloadType, from: int) -> Option<Seq<u8>>
    decreases list.len() - from,
{
    if from < 0 || from >= list.len() {
        None
    } else if list[from].0 == want {
        Some(list[from].1)
    } else {
        found_from(list, want, from + 1)
    }
}

/// The body of the first payload of type `want` in `list`.
pub open spec fn found(list: Seq<(PayloadType, Seq<u8>)>, want: PayloadType) -> Option<Seq<u8>> {
    found_from(list, want, 0)
}

/// An optional slice taken by its contents.
pub open spec fn viewed_slice(octets: Option<&[u8]>) -> Option<Seq<u8>> {
    match octets {
        Some(octets) => Some(octets@),
        None => None,
    }
}

/// The body of the first payload of type `want` in `list`.
fn find(list: &[(PayloadType, Vec<u8>)], want: PayloadType) -> (body: Option<&[u8]>)
    ensures
        viewed_slice(body) == found(message::bodies(list@), want),
{
    let ghost all = message::bodies(list@);
    for i in 0..list.len()
        invariant
            all == message::bodies(list@),
            found(all, want) == found_from(all, want, i as int),
    {
        assert(all[i as int] == (list@[i as int].0, list@[i as int].1@));
        if list[i].0 == want {
            return Some(&list[i].1);
        }
    }
    None
}

/// What a message from the peer holds: its Message ID, and its payloads by their
/// types and bodies.
pub open spec fn received(sa: Completed, message: Seq<u8>) -> Result<(u32, Seq<(PayloadType, Seq<u8>)>), Failure> {
    match IkeHeader::read(message) {
        Err(failure) => Err(failure),
        Ok(header) => match sa.opened(sa.peer(), message) {
            Err(failure) => Err(failure),
            Ok((first, inner)) => match message::listed(first, inner) {
                Err(failure) => Err(failure),
                Ok(list) => Ok((header.message_id, list)),
            },
        },
    }
}

/// What a message holds, taken by its view.
pub open spec fn viewed_received(result: Result<(u32, Vec<(PayloadType, Vec<u8>)>), IkeError>) -> Result<
    (u32, Seq<(PayloadType, Seq<u8>)>),
    Failure,
> {
    match result {
        Ok((message_id, list)) => Ok((message_id, message::bodies(list@))),
        Err(error) => Err(error@),
    }
}

/// Collect a decrypted message's payloads plus its Message ID.
fn decrypt(sa: &CompletedSaInit, message: &[u8]) -> (out: Result<(u32, Vec<(PayloadType, Vec<u8>)>), IkeError>)
    requires
        sa@.suite.cipher() is Some,
    ensures
        viewed_received(out) == received(sa@, message@),
        forall|header: IkeHeader, written: Seq<(PayloadType, Seq<u8>)>, iv: Seq<u8>|
            #[trigger] sa@.carries(sa@.peer(), header, written, iv, message@) ==> viewed_received(out) == Ok::<
                (u32, Seq<(PayloadType, Seq<u8>)>),
                Failure,
            >((header.message_id, written)),
        sa@.tampered(sa@.peer(), message@) ==> viewed_received(out) == Err::<
            (u32, Seq<(PayloadType, Seq<u8>)>),
            Failure,
        >(Failure::BadIntegrity),
{
    proof {
        if sa@.tampered(sa@.peer(), message@) {
            crate::ikev2::informational::lemma_tampered_header(sa@, sa@.peer(), message@);
        }
        assert forall|header: IkeHeader, written: Seq<(PayloadType, Seq<u8>)>, iv: Seq<u8>| #[trigger]
            sa@.carries(sa@.peer(), header, written, iv, message@) implies IkeHeader::read(message@) is Ok
            && IkeHeader::read(message@)->Ok_0.message_id == header.message_id by {
            crate::ikev2::informational::lemma_carried_id(sa@, sa@.peer(), header, written, iv, message@);
        }
    }
    let header = match IkeHeader::parse(message) {
        Ok(header) => header,
        Err(error) => {
            return Err(error);
        },
    };
    let (first, inner) = match open_from_peer(sa, message) {
        Ok(opened) => opened,
        Err(error) => {
            return Err(error);
        },
    };
    proof {
        assert forall|header: IkeHeader, written: Seq<(PayloadType, Seq<u8>)>, iv: Seq<u8>| #[trigger]
            sa@.carries(sa@.peer(), header, written, iv, message@) implies message::listed(first, inner@) == Ok::<
            Seq<(PayloadType, Seq<u8>)>,
            Failure,
        >(written) by {
            message::law_list_round_trip(written);
        }
    }
    match payload_list(first, &inner) {
        Ok(list) => Ok((header.message_id, list)),
        Err(error) => Err(error),
    }
}

/// The `IKE_AUTH` message we send on `sa` with these payloads, or why it cannot be
/// sealed.
pub open spec fn said(
    sa: Completed,
    message_id: u32,
    is_response: bool,
    parts: Seq<(PayloadType, Seq<u8>)>,
    iv: Seq<u8>,
) -> Result<Seq<u8>, Failure> {
    sa.sealed(sa.role, header_of(sa, ExchangeType::IkeAuth, message_id, is_response), parts, iv)
}

/// The `IKE_AUTH` message we send on `sa` with these payloads.
fn build_sk(
    sa: &CompletedSaInit,
    message_id: u32,
    is_response: bool,
    inner: &[(PayloadType, Vec<u8>)],
    iv: &[u8; 8],
) -> (out: Result<Vec<u8>, IkeError>)
    requires
        sa@.suite.cipher() is Some,
    ensures
        crate::error::viewed(out) == said(sa@, message_id, is_response, message::bodies(inner@), iv@),
{
    seal_from(sa, sa.role, our_header(sa, ExchangeType::IkeAuth, message_id, is_response), inner, iv)
}

/// What was drawn at random for one message so far: the challenge and the
/// initialization vector of its answer, each only where the answer has one.
struct Drawn {
    challenge: Option<[u8; 16]>,
    iv: Option<[u8; 8]>,
}

impl Drawn {
    /// The challenge; where none was drawn, nothing depends on it.
    spec fn challenge(self) -> Seq<u8> {
        match self.challenge {
            Some(challenge) => challenge@,
            None => bytes::zeros(16),
        }
    }

    /// The initialization vector; where none was drawn, nothing depends on it.
    spec fn iv(self) -> Seq<u8> {
        match self.iv {
            Some(iv) => iv@,
            None => bytes::zeros(8),
        }
    }

    /// Whether `after` is this with a challenge drawn where `challenged` says so, and
    /// an initialization vector where `sends` does; nothing is drawn twice.
    spec fn drawn_to(self, after: Drawn, challenged: bool, sends: bool) -> bool {
        &&& after.challenge is Some == (self.challenge is Some || challenged)
        &&& self.challenge is Some ==> after.challenge == self.challenge
        &&& after.iv is Some == (self.iv is Some || sends)
        &&& self.iv is Some ==> after.iv == self.iv
    }

    /// Nothing was drawn.
    fn nothing() -> (drawn: Self)
        ensures
            drawn.challenge is None,
            drawn.iv is None,
    {
        Drawn { challenge: None, iv: None }
    }

    /// Draw the challenge.
    fn draw_challenge<E: Entropy>(&mut self, entropy: &mut E) -> (challenge: [u8; 16])
        ensures
            old(self).drawn_to(*final(self), true, false),
            final(self).challenge == Some(challenge),
    {
        if let Some(challenge) = self.challenge {
            return challenge;
        }
        let octets = entropy::random_bytes(entropy, 16);
        let challenge = bytes::array16(&octets, 0);
        self.challenge = Some(challenge);
        challenge
    }

    /// Draw the initialization vector.
    fn draw_iv<E: Entropy>(&mut self, entropy: &mut E) -> (iv: [u8; 8])
        ensures
            old(self).drawn_to(*final(self), false, true),
            final(self).iv == Some(iv),
    {
        if let Some(iv) = self.iv {
            return iv;
        }
        let octets = entropy::random_bytes(entropy, 8);
        let iv = bytes::array8(&octets, 0);
        self.iv = Some(iv);
        iv
    }
}

/// A source that is never asked: what it would give was given beforehand.
struct Unasked;

impl Entropy for Unasked {
    fn next_u64(&mut self) -> u64 {
        0
    }
}

/// The `IKE_AUTH` message we send on `sa` with these payloads, under an
/// initialization vector that is drawn for it.
fn say<E: Entropy>(
    sa: &CompletedSaInit,
    message_id: u32,
    is_response: bool,
    inner: &[(PayloadType, Vec<u8>)],
    drawn: &mut Drawn,
    entropy: &mut E,
) -> (out: Result<Vec<u8>, IkeError>)
    requires
        sa@.suite.cipher() is Some,
    ensures
        crate::error::viewed(out) == said(sa@, message_id, is_response, message::bodies(inner@), final(drawn).iv()),
        old(drawn).drawn_to(*final(drawn), false, true),
{
    let iv = drawn.draw_iv(entropy);
    build_sk(sa, message_id, is_response, inner, &iv)
}

/// Whether a message goes out with what there is to say.
pub open spec fn goes_out(says: Result<Say, Failure>) -> bool {
    match says {
        Ok(Say::Reply(_)) => true,
        Ok(Say::Established(parts)) => parts is Some,
        _ => false,
    }
}

/// What one end has to say: the payloads of its next message, or how the exchange
/// ends.
#[verifier::ext_equal]
pub enum Say {
    Reply(Seq<(PayloadType, Seq<u8>)>),
    Established(Option<Seq<(PayloadType, Seq<u8>)>>),
    Failed(Option<Reason>),
}

/// What an end comes to with what it has to say: `kept` where that is no message,
/// or one that cannot be sealed, and else `next`.
pub open spec fn told<T>(
    kept: T,
    next: T,
    says: Result<Say, Failure>,
    sa: Completed,
    message_id: u32,
    is_response: bool,
    iv: Seq<u8>,
) -> (T, Result<Event, Failure>) {
    match says {
        Err(failure) => (kept, Err(failure)),
        Ok(Say::Failed(reason)) => (kept, Ok(Event::Failed(reason))),
        Ok(Say::Established(None)) => (next, Ok(Event::Established(None))),
        Ok(Say::Established(Some(parts))) => match said(sa, message_id, is_response, parts, iv) {
            Err(failure) => (kept, Err(failure)),
            Ok(message) => (next, Ok(Event::Established(Some(message)))),
        },
        Ok(Say::Reply(parts)) => match said(sa, message_id, is_response, parts, iv) {
            Err(failure) => (kept, Err(failure)),
            Ok(message) => (next, Ok(Event::Reply(message))),
        },
    }
}

/// The body of the CERTREQ that asks a server for its certificate: a single
/// all-zero hash where no CA is known.
pub open spec fn asked_octets(ca_hashes: Seq<[u8; 20]>) -> Seq<u8> {
    if ca_hashes.len() == 0 {
        seq![cert::X509_SIGNATURE] + bytes::zeros(20)
    } else {
        cert::request_octets(ca_hashes)
    }
}

/// The hashes to ask a server for its certificate by: a single all-zero one where
/// no CA is known.
fn hashes_to_ask(ca_hashes: &[[u8; 20]]) -> (hashes: Vec<[u8; 20]>)
    ensures
        cert::request_octets(hashes@) == asked_octets(ca_hashes@),
{
    if ca_hashes.len() > 0 {
        return cert::copy_hashes(ca_hashes);
    }
    let none: [u8; 20] = [0; 20];
    let mut hashes: Vec<[u8; 20]> = Vec::new();
    hashes.push(none);
    proof {
        assert(none@ =~= bytes::zeros(20));
        reveal_with_fuel(cert::hash_octets, 2);
        assert(cert::request_octets(hashes@) =~= seq![cert::X509_SIGNATURE] + bytes::zeros(20));
    }
    hashes
}

} // verus!
