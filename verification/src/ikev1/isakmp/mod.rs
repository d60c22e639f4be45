//! ISAKMP messages (RFC 2408 §3): the fixed header and the chain of payloads
//! behind it.

pub mod exchange;
pub mod flags;
pub mod payload;

use vstd::prelude::*;

use crate::bytes;
use crate::error::{viewed, Failure, IkeError};
use crate::ikev2::message::{field16, length16};
use crate::ikev2::payload::sa::after;

verus! {

broadcast use crate::bytes::group_lengths;

/// The fixed header of an ISAKMP message.
#[derive(Debug, Clone, Copy, PartialEq, Eq)]
pub struct IsakmpHeader {
    pub init_cookie: [u8; 8],
    pub resp_cookie: [u8; 8],
    pub next_payload: u8,
    pub version: u8,
    pub exchange_type: u8,
    pub flags: u8,
    pub message_id: u32,
    pub length: u32,
}

/// The length of the header in octets.
pub const HEADER_LEN: usize = 28;

/// Version 1.0, as the header has it.
pub const VERSION_1_0: u8 = 0x10;

/// An [`IsakmpHeader`] as a value of the specification.
#[verifier::ext_equal]
pub struct Head {
    pub init_cookie: Seq<u8>,
    pub resp_cookie: Seq<u8>,
    pub next_payload: u8,
    pub version: u8,
    pub exchange_type: u8,
    pub flags: u8,
    pub message_id: u32,
    pub length: u32,
}

impl View for IsakmpHeader {
    type V = Head;

    open spec fn view(&self) -> Head {
        Head {
            init_cookie: self.init_cookie@,
            resp_cookie: self.resp_cookie@,
            next_payload: self.next_payload,
            version: self.version,
            exchange_type: self.exchange_type,
            flags: self.flags,
            message_id: self.message_id,
            length: self.length,
        }
    }
}

impl Head {
    /// Whether the cookies are of eight octets each.
    pub open spec fn canonical(self) -> bool {
        self.init_cookie.len() == 8 && self.resp_cookie.len() == 8
    }

    /// The header on the wire.
    pub open spec fn octets(self) -> Seq<u8> {
        self.init_cookie + self.resp_cookie + seq![self.next_payload, self.version, self.exchange_type, self.flags]
            + bytes::be32(self.message_id) + bytes::be32(self.length)
    }

    /// The header a message opens with.
    pub open spec fn read(message: Seq<u8>) -> Result<Head, Failure> {
        if message.len() < 28 {
            Err(Failure::Truncated { need: 28, have: message.len() })
        } else {
            Ok(
                Head {
                    init_cookie: message.subrange(0, 8),
                    resp_cookie: message.subrange(8, 16),
                    next_payload: message[16],
                    version: message[17],
                    exchange_type: message[18],
                    flags: message[19],
                    message_id: bytes::at32(message, 20),
                    length: bytes::at32(message, 24),
                },
            )
        }
    }

    /// Whether the message behind this header is encrypted.
    pub open spec fn encrypted(self) -> bool {
        self.flags % 2 == 1
    }
}

impl IsakmpHeader {
    /// The header a message opens with.
    pub fn parse(message: &[u8]) -> (header: Result<IsakmpHeader, IkeError>)
        ensures
            viewed(header) == Head::read(message@),
    {
        if message.len() < HEADER_LEN {
            return Err(IkeError::Truncated { need: HEADER_LEN, have: message.len() });
        }
        Ok(
            IsakmpHeader {
                init_cookie: bytes::array8(message, 0),
                resp_cookie: bytes::array8(message, 8),
                next_payload: message[16],
                version: message[17],
                exchange_type: message[18],
                flags: message[19],
                message_id: bytes::get32(message, 20),
                length: bytes::get32(message, 24),
            },
        )
    }

    /// Append the header to `out`.
    pub fn write(&self, out: &mut Vec<u8>)
        ensures
            final(out)@ == old(out)@ + self@.octets(),
    {
        bytes::push_all(out, &self.init_cookie);
        bytes::push_all(out, &self.resp_cookie);
        out.push(self.next_payload);
        out.push(self.version);
        out.push(self.exchange_type);
        out.push(self.flags);
        bytes::push32(out, self.message_id);
        bytes::push32(out, self.length);
        assert(out@ =~= old(out)@ + self@.octets());
    }

    /// Whether the message behind this header is encrypted.
    pub fn encrypted(&self) -> (encrypted: bool)
        ensures
            encrypted == self@.encrypted(),
    {
        self.flags % 2 == 1
    }
}

/// Reading the wire form of a header gives it back, whatever is behind it.
pub proof fn law_header_round_trip(header: Head, rest: Seq<u8>)
    requires
        header.canonical(),
    ensures
        Head::read(header.octets() + rest) == Ok::<Head, Failure>(header),
{
    let wire = header.octets() + rest;
    assert(wire.subrange(0, 8) =~= header.init_cookie);
    assert(wire.subrange(8, 16) =~= header.resp_cookie);
    assert(wire.subrange(20, 24) =~= bytes::be32(header.message_id));
    assert(wire.subrange(24, 28) =~= bytes::be32(header.length));
    bytes::lemma_at32_be32(wire, 20, header.message_id);
    bytes::lemma_at32_be32(wire, 24, header.length);
}

/// Payload types with their bodies, taken by the bodies' contents.
pub open spec fn bodies(payloads: Seq<(u8, Vec<u8>)>) -> Seq<(u8, Seq<u8>)> {
    payloads.map_values(|p: (u8, Vec<u8>)| (p.0, p.1@))
}

/// The type the container of `payloads` records as its next payload.
pub open spec fn first_type(payloads: Seq<(u8, Seq<u8>)>) -> u8 {
    if payloads.len() == 0 {
        payload::NONE
    } else {
        payloads[0].0
    }
}

/// `payloads` on the wire, each naming the type of the one after it.
pub open spec fn chained(payloads: Seq<(u8, Seq<u8>)>) -> Seq<u8>
    decreases payloads.len(),
{
    if payloads.len() == 0 {
        Seq::empty()
    } else {
        seq![first_type(payloads.drop_first()), 0u8] + bytes::be16(field16(4 + payloads[0].1.len())) + payloads[0].1
            + chained(payloads.drop_first())
    }
}

/// The payloads of the chain `body` opens with, the first of type `first`; what is
/// behind the last is padding.
pub open spec fn unchained(first: u8, body: Seq<u8>) -> Result<Seq<(u8, Seq<u8>)>, Failure>
    decreases body.len(),
{
    if first == payload::NONE {
        Ok(Seq::empty())
    } else if body.len() < 4 {
        Err(Failure::Truncated { need: 4, have: body.len() })
    } else if bytes::at16(body, 2) < 4 {
        Err(Failure::ShortPayload(bytes::at16(body, 2)))
    } else if bytes::at16(body, 2) > body.len() {
        Err(Failure::BadLength { declared: bytes::at16(body, 2) as nat, available: body.len() })
    } else {
        let length = bytes::at16(body, 2) as int;
        after(seq![(first, body.subrange(4, length))], unchained(body[0], bytes::from(body, length)))
    }
}

/// A payload list with its error taken by its view.
pub open spec fn viewed_bodies(result: Result<Vec<(u8, Vec<u8>)>, IkeError>) -> Result<Seq<(u8, Seq<u8>)>, Failure> {
    match result {
        Ok(list) => Ok(bodies(list@)),
        Err(error) => Err(error@),
    }
}

/// `payloads` on the wire.
pub fn encode_chain(payloads: &[(u8, Vec<u8>)]) -> (out: Vec<u8>)
    ensures
        out@ == chained(bodies(payloads@)),
{
    let ghost all = bodies(payloads@);
    let mut out: Vec<u8> = Vec::new();
    assert(all.skip(0) =~= all);
    for i in 0..payloads.len()
        invariant
            all == bodies(payloads@),
            out@ + chained(all.skip(i as int)) == chained(all),
    {
        let ghost rest = all.skip(i as int);
        assert(rest.drop_first() =~= all.skip(i + 1));
        assert(rest[0] == (payloads@[i as int].0, payloads@[i as int].1@));
        let next: u8 = if i + 1 < payloads.len() {
            payloads[i + 1].0
        } else {
            payload::NONE
        };
        assert(next == first_type(rest.drop_first()));
        let ghost before = out@;
        out.push(next);
        out.push(0);
        bytes::push16(&mut out, length16(payloads[i].1.len(), 4));
        bytes::push_all(&mut out, &payloads[i].1);
        assert(out@ + chained(all.skip(i + 1)) =~= before + chained(rest));
    }
    assert(all.skip(payloads@.len() as int) =~= Seq::<(u8, Seq<u8>)>::empty());
    assert(out@ + Seq::<u8>::empty() =~= out@);
    out
}

/// The payloads of the chain `body` opens with.
pub fn parse_chain(first: u8, body: &[u8]) -> (out: Result<Vec<(u8, Vec<u8>)>, IkeError>)
    ensures
        viewed_bodies(out) == unchained(first, body@),
{
    let mut list: Vec<(u8, Vec<u8>)> = Vec::new();
    let mut next: u8 = first;
    let mut rest: &[u8] = body;
    let ghost whole = unchained(first, body@);
    proof {
        if let Ok(all) = whole {
            assert(bodies(list@) + all =~= all);
        }
    }
    while next != payload::NONE
        invariant
            whole == unchained(first, body@),
            after(bodies(list@), unchained(next, rest@)) == whole,
        decreases rest@.len(),
    {
        if rest.len() < 4 {
            return Err(IkeError::Truncated { need: 4, have: rest.len() });
        }
        let length: u16 = bytes::get16(rest, 2);
        if length < 4 {
            return Err(IkeError::ShortPayload(length));
        }
        if length as usize > rest.len() {
            return Err(IkeError::BadLength { declared: length as usize, available: rest.len() });
        }
        let data = bytes::copy(bytes::range(rest, 4, length as usize));
        let ghost before = bodies(list@);
        let ghost one = (next, data@);
        list.push((next, data));
        proof {
            assert(bodies(list@) =~= before.push(one));
            if let Ok(others) = unchained(rest@[0], bytes::from(rest@, length as int)) {
                assert(before + (seq![one] + others) =~= bodies(list@) + others);
            }
        }
        next = rest[0];
        rest = bytes::tail(rest, length as usize);
    }
    assert(bodies(list@) + Seq::<(u8, Seq<u8>)>::empty() =~= bodies(list@));
    Ok(list)
}

/// Whether each of `payloads` has a type, and a length its field can count.
pub open spec fn frameable(payloads: Seq<(u8, Seq<u8>)>) -> bool {
    forall|i: int|
        0 <= i < payloads.len() ==> (#[trigger] payloads[i]).0 != payload::NONE && 4 + payloads[i].1.len() < 0x1_0000
}

/// Reading a chain gives back the payloads it was written for, whatever pads it.
pub proof fn law_chain_round_trip(payloads: Seq<(u8, Seq<u8>)>, padding: Seq<u8>)
    requires
        frameable(payloads),
    ensures
        unchained(first_type(payloads), chained(payloads) + padding) == Ok::<Seq<(u8, Seq<u8>)>, Failure>(payloads),
    decreases payloads.len(),
{
    if payloads.len() > 0 {
        let rest = payloads.drop_first();
        assert(frameable(rest)) by {
            assert forall|i: int| 0 <= i < rest.len() implies (#[trigger] rest[i]).0 != payload::NONE && 4
                + rest[i].1.len() < 0x1_0000 by {
                assert(rest[i] == payloads[i + 1]);
            }
        }
        law_chain_round_trip(rest, padding);
        let data = payloads[0].1;
        let length = field16(4 + data.len());
        let wire = chained(payloads) + padding;
        assert(payloads[0].0 != payload::NONE);
        assert(wire.subrange(2, 4) =~= bytes::be16(length));
        bytes::lemma_at16_be16(wire, 2, length);
        assert(wire.subrange(4, length as int) =~= data);
        assert(bytes::from(wire, length as int) =~= chained(rest) + padding);
        assert(seq![(payloads[0].0, data)] + rest =~= payloads);
    } else {
        assert(payloads =~= Seq::empty());
    }
}

} // verus!
