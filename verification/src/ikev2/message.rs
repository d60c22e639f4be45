//! IKEv2 message framing: the fixed header (RFC 7296 §3.1) and the generic
//! payload chain (RFC 7296 §3.2).
//!
//! This only frames payload bodies; what is in them is read by
//! [`crate::ikev2::payload`].

use vstd::prelude::*;

use crate::bytes;
use crate::error::{Failure, IkeError};

verus! {

broadcast use crate::bytes::group_lengths;

/// The IKEv2 exchange type (RFC 7296 §3.1).
#[derive(Debug, Clone, Copy, PartialEq, Eq, Structural)]
pub enum ExchangeType {
    IkeSaInit,
    IkeAuth,
    CreateChildSa,
    Informational,
    /// Any other value, kept as it is.
    Other(u8),
}

impl ExchangeType {
    /// The exchange type a header octet names.
    pub open spec fn named(value: u8) -> ExchangeType {
        if value == 34 {
            ExchangeType::IkeSaInit
        } else if value == 35 {
            ExchangeType::IkeAuth
        } else if value == 36 {
            ExchangeType::CreateChildSa
        } else if value == 37 {
            ExchangeType::Informational
        } else {
            ExchangeType::Other(value)
        }
    }

    /// The header octet that names this exchange type.
    pub open spec fn octet(self) -> u8 {
        match self {
            ExchangeType::IkeSaInit => 34,
            ExchangeType::IkeAuth => 35,
            ExchangeType::CreateChildSa => 36,
            ExchangeType::Informational => 37,
            ExchangeType::Other(value) => value,
        }
    }

    pub fn from_u8(value: u8) -> (exchange: Self)
        ensures
            exchange == Self::named(value),
    {
        match value {
            34 => ExchangeType::IkeSaInit,
            35 => ExchangeType::IkeAuth,
            36 => ExchangeType::CreateChildSa,
            37 => ExchangeType::Informational,
            other => ExchangeType::Other(other),
        }
    }

    pub fn to_u8(self) -> (value: u8)
        ensures
            value == self.octet(),
    {
        match self {
            ExchangeType::IkeSaInit => 34,
            ExchangeType::IkeAuth => 35,
            ExchangeType::CreateChildSa => 36,
            ExchangeType::Informational => 37,
            ExchangeType::Other(value) => value,
        }
    }
}

/// The IKEv2 payload type: the "next payload" of the IKE header and of each
/// generic payload header (RFC 7296 §3.2).
#[derive(Debug, Clone, Copy, PartialEq, Eq, Structural)]
pub enum PayloadType {
    NoNext,
    SecurityAssociation,
    KeyExchange,
    IdInitiator,
    IdResponder,
    Certificate,
    CertRequest,
    Authentication,
    Nonce,
    Notify,
    Delete,
    VendorId,
    TrafficSelectorInitiator,
    TrafficSelectorResponder,
    /// SK — Encrypted and Authenticated.
    Encrypted,
    /// CP — Configuration.
    Configuration,
    /// EAP — Extensible Authentication.
    Eap,
    /// SKF — Encrypted and Authenticated Fragment (RFC 7383).
    EncryptedFragment,
    /// Any other type, kept as it is.
    Other(u8),
}

impl View for PayloadType {
    type V = PayloadType;

    open spec fn view(&self) -> PayloadType {
        *self
    }
}

impl PayloadType {
    /// The payload type a "next payload" octet names.
    pub open spec fn named(value: u8) -> PayloadType {
        if value == 0 {
            PayloadType::NoNext
        } else if value == 33 {
            PayloadType::SecurityAssociation
        } else if value == 34 {
            PayloadType::KeyExchange
        } else if value == 35 {
            PayloadType::IdInitiator
        } else if value == 36 {
            PayloadType::IdResponder
        } else if value == 37 {
            PayloadType::Certificate
        } else if value == 38 {
            PayloadType::CertRequest
        } else if value == 39 {
            PayloadType::Authentication
        } else if value == 40 {
            PayloadType::Nonce
        } else if value == 41 {
            PayloadType::Notify
        } else if value == 42 {
            PayloadType::Delete
        } else if value == 43 {
            PayloadType::VendorId
        } else if value == 44 {
            PayloadType::TrafficSelectorInitiator
        } else if value == 45 {
            PayloadType::TrafficSelectorResponder
        } else if value == 46 {
            PayloadType::Encrypted
        } else if value == 47 {
            PayloadType::Configuration
        } else if value == 48 {
            PayloadType::Eap
        } else if value == 53 {
            PayloadType::EncryptedFragment
        } else {
            PayloadType::Other(value)
        }
    }

    /// The "next payload" octet that names this type.
    pub open spec fn octet(self) -> u8 {
        match self {
            PayloadType::NoNext => 0,
            PayloadType::SecurityAssociation => 33,
            PayloadType::KeyExchange => 34,
            PayloadType::IdInitiator => 35,
            PayloadType::IdResponder => 36,
            PayloadType::Certificate => 37,
            PayloadType::CertRequest => 38,
            PayloadType::Authentication => 39,
            PayloadType::Nonce => 40,
            PayloadType::Notify => 41,
            PayloadType::Delete => 42,
            PayloadType::VendorId => 43,
            PayloadType::TrafficSelectorInitiator => 44,
            PayloadType::TrafficSelectorResponder => 45,
            PayloadType::Encrypted => 46,
            PayloadType::Configuration => 47,
            PayloadType::Eap => 48,
            PayloadType::EncryptedFragment => 53,
            PayloadType::Other(value) => value,
        }
    }

    /// Whether this type is the one its own octet names: `Other` is for the
    /// octets that name no type of ours.
    pub open spec fn canonical(self) -> bool {
        Self::named(self.octet()) == self
    }

    pub fn from_u8(value: u8) -> (payload: Self)
        ensures
            payload == Self::named(value),
    {
        match value {
            0 => PayloadType::NoNext,
            33 => PayloadType::SecurityAssociation,
            34 => PayloadType::KeyExchange,
            35 => PayloadType::IdInitiator,
            36 => PayloadType::IdResponder,
            37 => PayloadType::Certificate,
            38 => PayloadType::CertRequest,
            39 => PayloadType::Authentication,
            40 => PayloadType::Nonce,
            41 => PayloadType::Notify,
            42 => PayloadType::Delete,
            43 => PayloadType::VendorId,
            44 => PayloadType::TrafficSelectorInitiator,
            45 => PayloadType::TrafficSelectorResponder,
            46 => PayloadType::Encrypted,
            47 => PayloadType::Configuration,
            48 => PayloadType::Eap,
            53 => PayloadType::EncryptedFragment,
            other => PayloadType::Other(other),
        }
    }

    pub fn to_u8(self) -> (value: u8)
        ensures
            value == self.octet(),
    {
        match self {
            PayloadType::NoNext => 0,
            PayloadType::SecurityAssociation => 33,
            PayloadType::KeyExchange => 34,
            PayloadType::IdInitiator => 35,
            PayloadType::IdResponder => 36,
            PayloadType::Certificate => 37,
            PayloadType::CertRequest => 38,
            PayloadType::Authentication => 39,
            PayloadType::Nonce => 40,
            PayloadType::Notify => 41,
            PayloadType::Delete => 42,
            PayloadType::VendorId => 43,
            PayloadType::TrafficSelectorInitiator => 44,
            PayloadType::TrafficSelectorResponder => 45,
            PayloadType::Encrypted => 46,
            PayloadType::Configuration => 47,
            PayloadType::Eap => 48,
            PayloadType::EncryptedFragment => 53,
            PayloadType::Other(value) => value,
        }
    }
}

/// The IKEv2 header flags octet (RFC 7296 §3.1).
#[derive(Debug, Clone, Copy, PartialEq, Eq, Structural)]
pub struct Flags {
    /// I — set when the message is sent by the original initiator.
    pub initiator: bool,
    /// V — the sender can speak a higher IKE major version.
    pub version: bool,
    /// R — this message is a response to a message with the same Message ID.
    pub response: bool,
}

impl Default for Flags {
    fn default() -> (flags: Self)
        ensures
            !flags.initiator && !flags.version && !flags.response,
    {
        Flags { initiator: false, version: false, response: false }
    }
}

impl Flags {
    /// The flags a header octet carries: bits 3, 4 and 5.
    pub open spec fn named(value: u8) -> Flags {
        Flags {
            initiator: (value / 8) % 2 == 1,
            version: (value / 16) % 2 == 1,
            response: (value / 32) % 2 == 1,
        }
    }

    /// The header octet that carries these flags, every other bit clear.
    pub open spec fn octet(self) -> u8 {
        ((if self.initiator { 8int } else { 0 }) + (if self.version { 16int } else { 0 }) + (if self.response {
            32int
        } else {
            0
        })) as u8
    }

    pub fn from_u8(value: u8) -> (flags: Self)
        ensures
            flags == Self::named(value),
    {
        Flags {
            initiator: (value / 8) % 2 == 1,
            version: (value / 16) % 2 == 1,
            response: (value / 32) % 2 == 1,
        }
    }

    pub fn to_u8(self) -> (value: u8)
        ensures
            value == self.octet(),
    {
        let mut value: u8 = 0;
        if self.initiator {
            value = value + 8;
        }
        if self.version {
            value = value + 16;
        }
        if self.response {
            value = value + 32;
        }
        value
    }
}

/// The fixed 28-octet IKEv2 header (RFC 7296 §3.1).
#[derive(Debug, Clone, Copy, PartialEq, Eq, Structural)]
pub struct IkeHeader {
    pub initiator_spi: u64,
    pub responder_spi: u64,
    pub next_payload: PayloadType,
    pub major_version: u8,
    pub minor_version: u8,
    pub exchange_type: ExchangeType,
    pub flags: Flags,
    pub message_id: u32,
    /// Total message length in octets, including this header.
    pub length: u32,
}

impl View for IkeHeader {
    type V = IkeHeader;

    open spec fn view(&self) -> IkeHeader {
        *self
    }
}

impl IkeHeader {
    /// The wire size of the header.
    pub const LEN: usize = 28;

    /// The header at the front of `input`.
    pub open spec fn read(input: Seq<u8>) -> Result<IkeHeader, Failure> {
        if input.len() < 28 {
            Err(Failure::Truncated { need: 28, have: input.len() })
        } else if input[17] / 16 != 2 {
            Err(Failure::UnsupportedVersion(input[17] / 16))
        } else {
            Ok(
                IkeHeader {
                    initiator_spi: bytes::at64(input, 0),
                    responder_spi: bytes::at64(input, 8),
                    next_payload: PayloadType::named(input[16]),
                    major_version: 2,
                    minor_version: input[17] % 16,
                    exchange_type: ExchangeType::named(input[18]),
                    flags: Flags::named(input[19]),
                    message_id: bytes::at32(input, 20),
                    length: bytes::at32(input, 24),
                },
            )
        }
    }

    /// The wire form of this header.
    #[verifier::opaque]
    pub open spec fn octets(self) -> Seq<u8> {
        bytes::be64(self.initiator_spi) + bytes::be64(self.responder_spi) + seq![
            self.next_payload.octet(),
            ((self.major_version % 16) * 16 + self.minor_version % 16) as u8,
            self.exchange_type.octet(),
            self.flags.octet(),
        ] + bytes::be32(self.message_id) + bytes::be32(self.length)
    }

    /// Whether every field has a wire form of its own, so that reading the
    /// wire form gives this header back.
    pub open spec fn canonical(self) -> bool {
        &&& self.major_version == 2
        &&& self.minor_version < 16
        &&& self.next_payload.canonical()
        &&& ExchangeType::named(self.exchange_type.octet()) == self.exchange_type
    }

    /// This header with another Next Payload.
    pub open spec fn carrying(self, next_payload: PayloadType) -> IkeHeader {
        IkeHeader { next_payload, ..self }
    }

    /// This header with another Length.
    pub open spec fn of_length(self, length: u32) -> IkeHeader {
        IkeHeader { length, ..self }
    }

    /// Parse the fixed header from the front of `input`.
    pub fn parse(input: &[u8]) -> (header: Result<IkeHeader, IkeError>)
        ensures
            crate::error::viewed(header) == Self::read(input@),
    {
        if input.len() < Self::LEN {
            return Err(IkeError::Truncated { need: Self::LEN, have: input.len() });
        }
        let version: u8 = input[17];
        if version / 16 != 2 {
            return Err(IkeError::UnsupportedVersion(version / 16));
        }
        Ok(
            IkeHeader {
                initiator_spi: bytes::get64(input, 0),
                responder_spi: bytes::get64(input, 8),
                next_payload: PayloadType::from_u8(input[16]),
                major_version: version / 16,
                minor_version: version % 16,
                exchange_type: ExchangeType::from_u8(input[18]),
                flags: Flags::from_u8(input[19]),
                message_id: bytes::get32(input, 20),
                length: bytes::get32(input, 24),
            },
        )
    }

    /// Serialize the header to its 28-octet wire form.
    pub fn to_bytes(&self) -> (out: [u8; 28])
        ensures
            out@ == self.octets(),
    {
        reveal(IkeHeader::octets);
        let mut wire: Vec<u8> = Vec::with_capacity(28);
        bytes::push64(&mut wire, self.initiator_spi);
        bytes::push64(&mut wire, self.responder_spi);
        wire.push(self.next_payload.to_u8());
        wire.push((self.major_version % 16) * 16 + self.minor_version % 16);
        wire.push(self.exchange_type.to_u8());
        wire.push(self.flags.to_u8());
        bytes::push32(&mut wire, self.message_id);
        bytes::push32(&mut wire, self.length);
        assert(wire@ =~= self.octets());
        let mut out: [u8; 28] = [0; 28];
        for i in 0..28usize
            invariant
                wire@.len() == 28,
                forall|j: int| 0 <= j < i ==> out@[j] == wire@[j],
        {
            out[i] = wire[i];
        }
        assert(out@ =~= wire@);
        out
    }
}

/// How long a header's wire form is.
pub broadcast proof fn lemma_header_len(header: IkeHeader)
    ensures
        (#[trigger] header.octets()).len() == 28,
{
    reveal(IkeHeader::octets);
}

/// One framed payload: its type and body, with the 4-octet generic header stripped.
#[derive(Debug, Clone, Copy, PartialEq, Eq)]
pub struct RawPayload<'a> {
    pub payload_type: PayloadType,
    /// The critical bit (RFC 7296 §2.5): if set and the type is unknown, the
    /// whole message must be rejected. It is surfaced here, not enforced.
    pub critical: bool,
    /// Payload body, excluding the 4-octet generic payload header.
    pub data: &'a [u8],
}

/// A [`RawPayload`] as a value of the specification.
#[verifier::ext_equal]
pub struct Framed {
    pub payload_type: PayloadType,
    pub critical: bool,
    pub data: Seq<u8>,
}

impl<'a> View for RawPayload<'a> {
    type V = Framed;

    open spec fn view(&self) -> Framed {
        Framed { payload_type: self.payload_type, critical: self.critical, data: self.data@ }
    }
}

/// The payload of type `first` that `rest` opens with.
pub open spec fn head(first: PayloadType, rest: Seq<u8>) -> Result<Framed, Failure> {
    if rest.len() < 4 {
        Err(Failure::Truncated { need: 4, have: rest.len() })
    } else if bytes::at16(rest, 2) < 4 {
        Err(Failure::ShortPayload(bytes::at16(rest, 2)))
    } else if bytes::at16(rest, 2) > rest.len() {
        Err(Failure::BadLength { declared: bytes::at16(rest, 2) as nat, available: rest.len() })
    } else {
        Ok(
            Framed {
                payload_type: first,
                critical: rest[1] >= 0x80,
                data: rest.subrange(4, bytes::at16(rest, 2) as int),
            },
        )
    }
}

/// The type of the payload after the one `rest` opens with.
pub open spec fn next_type(rest: Seq<u8>) -> PayloadType {
    PayloadType::named(rest[0])
}

/// What is left of `rest` after the payload it opens with.
pub open spec fn after_head(rest: Seq<u8>) -> Seq<u8> {
    bytes::from(rest, bytes::at16(rest, 2) as int)
}

/// The whole payload chain that starts with a `first` payload in `body`
/// (RFC 7296 §3.2), or what makes it malformed.
pub open spec fn chain(first: PayloadType, body: Seq<u8>) -> Result<Seq<Framed>, Failure>
    decreases body.len(),
{
    if first == PayloadType::NoNext {
        Ok(Seq::empty())
    } else {
        match head(first, body) {
            Err(failure) => Err(failure),
            Ok(payload) => match chain(next_type(body), after_head(body)) {
                Err(failure) => Err(failure),
                Ok(others) => Ok(seq![payload] + others),
            },
        }
    }
}

/// Walk the generic payload chain of a message body (RFC 7296 §3.2).
///
/// `first` is the header's `next_payload`; `body` is everything after the
/// 28-octet header. [`PayloadIter::next`] yields each payload in order, or a
/// single error if the chain is malformed (after which there is nothing more).
pub fn payloads(first: PayloadType, body: &[u8]) -> (iter: PayloadIter<'_>)
    ensures
        iter.first() == first,
        iter.remaining() == body@,
        !iter.finished(),
{
    PayloadIter { next: first, rest: body, done: false }
}

/// The walk [`payloads`] starts.
pub struct PayloadIter<'a> {
    next: PayloadType,
    rest: &'a [u8],
    done: bool,
}

impl<'a> PayloadIter<'a> {
    /// The type of the payload that comes next.
    pub closed spec fn first(&self) -> PayloadType {
        self.next
    }

    /// The octets not walked yet.
    pub closed spec fn remaining(&self) -> Seq<u8> {
        self.rest@
    }

    /// Whether an error ended the walk.
    pub closed spec fn finished(&self) -> bool {
        self.done
    }

    /// The next payload: `None` once the chain ended or an error was returned.
    pub fn next(&mut self) -> (item: Option<Result<RawPayload<'a>, IkeError>>)
        ensures
            item is None <==> old(self).finished() || old(self).first() == PayloadType::NoNext,
            item is None ==> *final(self) == *old(self),
            item matches Some(result) ==> {
                &&& crate::error::viewed(result) == head(old(self).first(), old(self).remaining())
                &&& result is Err <==> final(self).finished()
                &&& result is Ok ==> {
                    &&& final(self).first() == next_type(old(self).remaining())
                    &&& final(self).remaining() == after_head(old(self).remaining())
                    &&& final(self).remaining().len() < old(self).remaining().len()
                }
            },
    {
        if self.done || self.next == PayloadType::NoNext {
            return None;
        }
        let rest: &'a [u8] = self.rest;
        if rest.len() < 4 {
            self.done = true;
            return Some(Err(IkeError::Truncated { need: 4, have: rest.len() }));
        }
        let this_type = self.next;
        let length: u16 = bytes::get16(rest, 2);
        if length < 4 {
            self.done = true;
            return Some(Err(IkeError::ShortPayload(length)));
        }
        if length as usize > rest.len() {
            self.done = true;
            return Some(Err(IkeError::BadLength { declared: length as usize, available: rest.len() }));
        }
        self.next = PayloadType::from_u8(rest[0]);
        self.rest = bytes::tail(rest, length as usize);
        Some(
            Ok(
                RawPayload {
                    payload_type: this_type,
                    critical: rest[1] >= 0x80,
                    data: bytes::range(rest, 4, length as usize),
                },
            ),
        )
    }
}

/// Payload types with their bodies, taken by the bodies' contents.
pub open spec fn bodies(payloads: Seq<(PayloadType, Vec<u8>)>) -> Seq<(PayloadType, Seq<u8>)> {
    payloads.map_values(|p: (PayloadType, Vec<u8>)| (p.0, p.1@))
}

/// A length as the 16-bit field that carries it holds it.
pub open spec fn field16(length: nat) -> u16 {
    (length % 0x1_0000) as u16
}

/// A length as the 32-bit field that carries it holds it.
pub open spec fn field32(length: nat) -> u32 {
    (length % 0x1_0000_0000) as u32
}

/// The length field of `len` octets and `more` around them.
pub fn length16(len: usize, more: usize) -> (field: u16)
    requires
        more < 0x1_0000,
    ensures
        field == field16((len + more) as nat),
{
    ((len as u64 % 0x1_0000 + more as u64) % 0x1_0000) as u16
}

/// The type the container of `payloads` records as its Next Payload.
pub open spec fn first_type(payloads: Seq<(PayloadType, Seq<u8>)>) -> PayloadType {
    if payloads.len() == 0 {
        PayloadType::NoNext
    } else {
        payloads[0].0
    }
}

/// One payload of a chain on the wire: generic header, then body.
pub open spec fn framed(next: PayloadType, body: Seq<u8>) -> Seq<u8> {
    seq![next.octet(), 0u8] + bytes::be16(field16(4 + body.len())) + body
}

/// `payloads` on the wire, each naming the type of the one after it.
pub open spec fn encoded(payloads: Seq<(PayloadType, Seq<u8>)>) -> Seq<u8>
    decreases payloads.len(),
{
    if payloads.len() == 0 {
        Seq::empty()
    } else {
        framed(first_type(payloads.drop_first()), payloads[0].1) + encoded(payloads.drop_first())
    }
}

/// The whole wire message of `header` and `payloads`: the header's Next
/// Payload and Length are those of the message.
pub open spec fn message(header: IkeHeader, payloads: Seq<(PayloadType, Seq<u8>)>) -> Seq<u8> {
    header.carrying(first_type(payloads)).of_length(field32(28 + encoded(payloads).len())).octets() + encoded(
        payloads,
    )
}

/// Assembles a full IKEv2 message: the fixed header followed by an ordered
/// payload chain. [`build`](Self::build) fills in each generic payload header's
/// Next Payload pointer, the header's first Next Payload, and the total Length,
/// so callers only supply each payload's already-serialized body.
#[derive(Debug, Clone)]
pub struct MessageBuilder {
    header: IkeHeader,
    payloads: Vec<(PayloadType, Vec<u8>)>,
}

impl MessageBuilder {
    /// The header the message starts from.
    pub closed spec fn header(&self) -> IkeHeader {
        self.header
    }

    /// The payloads in the order they were appended.
    pub closed spec fn parts(&self) -> Seq<(PayloadType, Seq<u8>)> {
        bodies(self.payloads@)
    }

    /// Start from a header; its `next_payload` and `length` are overwritten by
    /// [`build`](Self::build).
    pub fn new(header: IkeHeader) -> (builder: Self)
        ensures
            builder.header() == header,
            builder.parts() == Seq::<(PayloadType, Seq<u8>)>::empty(),
    {
        let builder = Self { header, payloads: Vec::new() };
        assert(builder.parts() =~= Seq::<(PayloadType, Seq<u8>)>::empty());
        builder
    }

    /// Append a payload by type and already-serialized body (builder style).
    pub fn push(self, payload_type: PayloadType, body: Vec<u8>) -> (builder: Self)
        ensures
            builder.header() == self.header(),
            builder.parts() == self.parts().push((payload_type, body@)),
    {
        let MessageBuilder { header, mut payloads } = self;
        let ghost before = payloads@;
        payloads.push((payload_type, body));
        let builder = MessageBuilder { header, payloads };
        assert(builder.parts() =~= bodies(before).push((payload_type, body@)));
        builder
    }

    /// Serialize to the full wire message.
    pub fn build(&self) -> (out: Vec<u8>)
        ensures
            out@ == message(self.header(), self.parts()),
    {
        broadcast use lemma_header_len;
        let chain = encode_payload_chain(&self.payloads);
        let mut header = self.header;
        header.next_payload = first_payload_type(&self.payloads);
        header.length = ((chain.len() as u64 % 0x1_0000_0000 + 28) % 0x1_0000_0000) as u32;
        let mut out: Vec<u8> = Vec::new();
        bytes::push_all(&mut out, &header.to_bytes());
        bytes::push_all(&mut out, &chain);
        assert(out@ =~= message(self.header(), self.parts()));
        out
    }
}

/// Append one payload of a chain: its generic header, then its body.
fn push_framed(out: &mut Vec<u8>, next: PayloadType, body: &[u8])
    ensures
        final(out)@ == old(out)@ + framed(next, body@),
{
    let length: u16 = length16(body.len(), 4);
    out.push(next.to_u8());
    out.push(0);  // critical bit clear and RESERVED
    bytes::push16(out, length);
    bytes::push_all(out, body);
    assert(out@ =~= old(out)@ + framed(next, body@));
}

/// Serialize a chain of payloads (each an already-serialized body) with their
/// generic payload headers and Next Payload pointers. Used for both a message's
/// top-level payloads and the inner payloads inside an SK (encrypted) payload.
pub fn encode_payload_chain(payloads: &[(PayloadType, Vec<u8>)]) -> (out: Vec<u8>)
    ensures
        out@ == encoded(bodies(payloads@)),
{
    let mut out: Vec<u8> = Vec::new();
    let ghost all = bodies(payloads@);
    assert(all.skip(0) =~= all);
    assert(encoded(all) =~= out@ + encoded(all.skip(0)));
    for i in 0..payloads.len()
        invariant
            all == bodies(payloads@),
            encoded(all) == out@ + encoded(all.skip(i as int)),
    {
        let next = if i + 1 < payloads.len() {
            payloads[i + 1].0
        } else {
            PayloadType::NoNext
        };
        let body: &Vec<u8> = &payloads[i].1;
        let ghost before = out@;
        push_framed(&mut out, next, body);
        proof {
            let this = framed(next, body@);
            let others = encoded(all.skip(i + 1));
            assert(encoded(all.skip(i as int)) == this + others) by {
                let rest = all.skip(i as int);
                assert(rest.drop_first() =~= all.skip(i + 1));
                assert(rest[0] == all[i as int]);
                assert(first_type(all.skip(i + 1)) == next);
            }
            assert((before + this) + others =~= before + (this + others));
        }
    }
    assert(all.skip(payloads@.len() as int) =~= Seq::<(PayloadType, Seq<u8>)>::empty());
    assert(out@ =~= encoded(all));
    out
}

/// The type of the first payload in a chain — what the container (IKE header or
/// SK payload) records as its Next Payload.
pub fn first_payload_type(payloads: &[(PayloadType, Vec<u8>)]) -> (first: PayloadType)
    ensures
        first == first_type(bodies(payloads@)),
{
    if payloads.len() == 0 {
        PayloadType::NoNext
    } else {
        payloads[0].0
    }
}

/// Every octet names one exchange type and one payload type, and each of
/// those is written as that octet again.
pub proof fn law_types_round_trip(value: u8)
    ensures
        ExchangeType::named(value).octet() == value,
        PayloadType::named(value).octet() == value,
        PayloadType::named(value).canonical(),
{
}

/// Reading the wire form of a header gives that header, whatever follows it.
pub proof fn law_header_round_trip(header: IkeHeader, after: Seq<u8>)
    requires
        header.canonical(),
    ensures
        IkeHeader::read(header.octets() + after) == Ok::<IkeHeader, Failure>(header),
{
    reveal(IkeHeader::octets);
    let wire = header.octets() + after;
    assert(wire.subrange(0, 8) =~= bytes::be64(header.initiator_spi));
    assert(wire.subrange(8, 16) =~= bytes::be64(header.responder_spi));
    assert(wire.subrange(20, 24) =~= bytes::be32(header.message_id));
    assert(wire.subrange(24, 28) =~= bytes::be32(header.length));
    bytes::lemma_at64_be64(wire, 0, header.initiator_spi);
    bytes::lemma_at64_be64(wire, 8, header.responder_spi);
    bytes::lemma_at32_be32(wire, 20, header.message_id);
    bytes::lemma_at32_be32(wire, 24, header.length);
    assert(wire[16] == header.next_payload.octet());
    assert(wire[17] == header.major_version * 16 + header.minor_version);
    assert(wire[18] == header.exchange_type.octet());
    assert(wire[19] == header.flags.octet());
}

/// Whether a list of payloads can be told apart from its wire form: each has a
/// type of its own and a body its length field can count.
pub open spec fn frameable(payloads: Seq<(PayloadType, Seq<u8>)>) -> bool {
    forall|i: int|
        0 <= i < payloads.len() ==> {
            &&& (#[trigger] payloads[i]).0.canonical()
            &&& payloads[i].0 != PayloadType::NoNext
            &&& 4 + payloads[i].1.len() < 0x1_0000
        }
}

/// Whether a payload of this type is among `payloads`.
pub open spec fn has_payload(payloads: Seq<(PayloadType, Seq<u8>)>, payload_type: PayloadType) -> bool {
    exists|i: int| 0 <= i < payloads.len() && (#[trigger] payloads[i]).0 == payload_type
}

/// A list of payloads as the walk of their chain yields them.
pub open spec fn walked(payloads: Seq<(PayloadType, Seq<u8>)>) -> Seq<Framed> {
    payloads.map_values(
        |p: (PayloadType, Seq<u8>)| Framed { payload_type: p.0, critical: false, data: p.1 },
    )
}

/// The wire form of a list of payloads opens with the first of them, and goes on
/// with the others.
pub proof fn lemma_encoded_head(payloads: Seq<(PayloadType, Seq<u8>)>)
    requires
        frameable(payloads),
        payloads.len() > 0,
    ensures
        frameable(payloads.drop_first()),
        head(payloads[0].0, encoded(payloads)) == Ok::<Framed, Failure>(
            (Framed { payload_type: payloads[0].0, critical: false, data: payloads[0].1 }),
        ),
        next_type(encoded(payloads)) == first_type(payloads.drop_first()),
        after_head(encoded(payloads)) == encoded(payloads.drop_first()),
{
    let others = payloads.drop_first();
    assert forall|i: int| 0 <= i < others.len() implies {
        &&& (#[trigger] others[i]).0.canonical()
        &&& others[i].0 != PayloadType::NoNext
        &&& 4 + others[i].1.len() < 0x1_0000
    } by {
        assert(others[i] == payloads[i + 1]);
    }
    let wire = encoded(payloads);
    let body = payloads[0].1;
    let length = field16(4 + body.len());
    assert(wire.subrange(2, 4) =~= bytes::be16(length));
    bytes::lemma_at16_be16(wire, 2, length);
    assert(wire.subrange(4, length as int) =~= body);
    assert(after_head(wire) =~= encoded(others));
    if others.len() > 0 {
        assert(others[0].0.canonical());
    }
}

/// Walking the chain that was written for a list of payloads yields that list.
pub proof fn law_chain_round_trip(payloads: Seq<(PayloadType, Seq<u8>)>)
    requires
        frameable(payloads),
    ensures
        chain(first_type(payloads), encoded(payloads)) == Ok::<Seq<Framed>, Failure>(walked(payloads)),
    decreases payloads.len(),
{
    if payloads.len() == 0 {
        assert(walked(payloads) =~= Seq::<Framed>::empty());
    } else {
        let others = payloads.drop_first();
        lemma_encoded_head(payloads);
        law_chain_round_trip(others);
        assert(walked(payloads) =~= seq![
            Framed { payload_type: payloads[0].0, critical: false, data: payloads[0].1 },
        ] + walked(others));
    }
}

/// Reading a whole message gives back its header, with the Next Payload and the
/// Length the builder filled in, and its payloads.
pub proof fn law_message_round_trip(header: IkeHeader, payloads: Seq<(PayloadType, Seq<u8>)>)
    requires
        header.canonical(),
        frameable(payloads),
        28 + encoded(payloads).len() < 0x1_0000_0000,
    ensures
        ({
            let wire = message(header, payloads);
            let read = IkeHeader {
                next_payload: first_type(payloads),
                length: wire.len() as u32,
                ..header
            };
            &&& IkeHeader::read(wire) == Ok::<IkeHeader, Failure>(read)
            &&& chain(read.next_payload, bytes::from(wire, 28)) == Ok::<Seq<Framed>, Failure>(
                walked(payloads),
            )
        }),
{
    broadcast use lemma_header_len;
    let wire = message(header, payloads);
    let read = IkeHeader {
        next_payload: first_type(payloads),
        length: field32(28 + encoded(payloads).len()),
        ..header
    };
    if payloads.len() > 0 {
        assert(payloads[0].0.canonical());
    }
    law_header_round_trip(read, encoded(payloads));
    law_chain_round_trip(payloads);
    assert(bytes::from(wire, 28) =~= encoded(payloads));
}

/// How long a list of payloads is on the wire, at most.
pub proof fn lemma_encoded_len(payloads: Seq<(PayloadType, Seq<u8>)>)
    requires
        frameable(payloads),
    ensures
        encoded(payloads).len() <= 0x1_0000 * payloads.len(),
    decreases payloads.len(),
{
    if payloads.len() > 0 {
        lemma_encoded_head(payloads);
        lemma_encoded_len(payloads.drop_first());
        assert(4 + payloads[0].1.len() < 0x1_0000);
    }
}

/// Walked payloads by their types and bodies.
pub open spec fn unframed(payloads: Seq<Framed>) -> Seq<(PayloadType, Seq<u8>)> {
    payloads.map_values(|p: Framed| (p.payload_type, p.data))
}

/// The payloads of a chain by their types and bodies, or what makes it malformed.
pub open spec fn listed(first: PayloadType, body: Seq<u8>) -> Result<Seq<(PayloadType, Seq<u8>)>, Failure> {
    match chain(first, body) {
        Err(failure) => Err(failure),
        Ok(payloads) => Ok(unframed(payloads)),
    }
}

/// A list of payloads taken by their bodies' contents.
pub open spec fn viewed_bodies(result: Result<Vec<(PayloadType, Vec<u8>)>, IkeError>) -> Result<
    Seq<(PayloadType, Seq<u8>)>,
    Failure,
> {
    match result {
        Ok(payloads) => Ok(bodies(payloads@)),
        Err(error) => Err(error@),
    }
}

/// Listing the chain that was written for a list of payloads gives that list.
pub proof fn law_list_round_trip(payloads: Seq<(PayloadType, Seq<u8>)>)
    requires
        frameable(payloads),
    ensures
        listed(first_type(payloads), encoded(payloads)) == Ok::<Seq<(PayloadType, Seq<u8>)>, Failure>(payloads),
{
    law_chain_round_trip(payloads);
    assert(unframed(walked(payloads)) =~= payloads);
}

} // verus!
