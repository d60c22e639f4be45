//! The Security Association payload (RFC 7296 §3.3): proposals and their transforms.

use vstd::prelude::*;

use crate::bytes;
use crate::error::{viewed, Failure, IkeError};
use crate::ikev2::message;
use crate::ikev2::payload::transform_id;

verus! {

broadcast use crate::bytes::group_lengths;

/// One transform of a proposal: an algorithm, with its key length where the
/// algorithm has several.
#[derive(Debug, Clone, Copy, PartialEq, Eq)]
pub struct Transform {
    pub transform_type: u8,
    pub transform_id: u16,
    /// The Key Length attribute in bits, where there is one.
    pub key_length: Option<u16>,
}

/// One proposal: a protocol, the sender's SPI for it, and the transforms to pick from.
#[derive(Debug, Clone, PartialEq, Eq)]
pub struct Proposal {
    pub num: u8,
    pub protocol_id: u8,
    pub spi: Vec<u8>,
    pub transforms: Vec<Transform>,
}

/// A Security Association payload: proposals, in order of preference.
#[derive(Debug, Clone, PartialEq, Eq)]
pub struct SecurityAssociation {
    pub proposals: Vec<Proposal>,
}

/// A [`Proposal`] as a value of the specification.
#[verifier::ext_equal]
pub struct Offered {
    pub num: u8,
    pub protocol_id: u8,
    pub spi: Seq<u8>,
    pub transforms: Seq<Transform>,
}

impl View for Proposal {
    type V = Offered;

    open spec fn view(&self) -> Offered {
        Offered {
            num: self.num,
            protocol_id: self.protocol_id,
            spi: self.spi@,
            transforms: self.transforms@,
        }
    }
}

impl View for SecurityAssociation {
    type V = Seq<Offered>;

    open spec fn view(&self) -> Seq<Offered> {
        self.proposals@.map_values(|p: Proposal| p@)
    }
}

/// Whether both optional key lengths are the same.
pub fn same_key_length(a: Option<u16>, b: Option<u16>) -> (equal: bool)
    ensures
        equal == (a == b),
{
    match (a, b) {
        (Some(a), Some(b)) => a == b,
        (None, None) => true,
        _ => false,
    }
}

impl Transform {
    /// The attributes of this transform on the wire (RFC 7296 §3.3.5).
    pub open spec fn attributes(self) -> Seq<u8> {
        match self.key_length {
            Some(bits) => seq![0x80u8, 0x0eu8] + bytes::be16(bits),
            None => Seq::empty(),
        }
    }

    /// This transform on the wire (RFC 7296 §3.3.2); `more` when another follows.
    pub open spec fn octets(self, more: bool) -> Seq<u8> {
        seq![if more { 3u8 } else { 0u8 }, 0u8] + bytes::be16((8 + self.attributes().len()) as u16) + seq![
            self.transform_type,
            0u8,
        ] + bytes::be16(self.transform_id) + self.attributes()
    }

    /// The transform `s` opens with. Its attributes are none or a single Key
    /// Length; with anything else it is kept, by its type, as one that names
    /// nothing we could run (RFC 7296 §3.3.6).
    pub open spec fn read(s: Seq<u8>) -> Result<Transform, Failure> {
        if s.len() < 8 {
            Err(Failure::Truncated { need: 8, have: s.len() })
        } else if bytes::at16(s, 2) < 8 || bytes::at16(s, 2) > s.len() {
            Err(Failure::BadLength { declared: bytes::at16(s, 2) as nat, available: s.len() })
        } else if bytes::at16(s, 2) == 8 {
            Ok(
                Transform {
                    transform_type: s[4],
                    transform_id: bytes::at16(s, 6),
                    key_length: None,
                },
            )
        } else if bytes::at16(s, 2) == 12 && s[8] == 0x80 && s[9] == 0x0e {
            Ok(
                Transform {
                    transform_type: s[4],
                    transform_id: bytes::at16(s, 6),
                    key_length: Some(bytes::at16(s, 10)),
                },
            )
        } else {
            Ok(
                Transform {
                    transform_type: s[4],
                    transform_id: transform_id::UNUSABLE,
                    key_length: None,
                },
            )
        }
    }

    /// Whether `self` and `other` name the same algorithm, attributes and all.
    pub fn same(&self, other: &Transform) -> (equal: bool)
        ensures
            equal == (*self == *other),
    {
        self.transform_type == other.transform_type && self.transform_id == other.transform_id && same_key_length(
            self.key_length,
            other.key_length,
        )
    }

    /// Parse the transform `input` opens with.
    fn parse(input: &[u8]) -> (transform: Result<Transform, IkeError>)
        ensures
            viewed_transform(transform) == Self::read(input@),
    {
        if input.len() < 8 {
            return Err(IkeError::Truncated { need: 8, have: input.len() });
        }
        let length: u16 = bytes::get16(input, 2);
        if length < 8 || length as usize > input.len() {
            return Err(IkeError::BadLength { declared: length as usize, available: input.len() });
        }
        if length == 8 {
            return Ok(
                Transform {
                    transform_type: input[4],
                    transform_id: bytes::get16(input, 6),
                    key_length: None,
                },
            );
        }
        if length == 12 && input[8] == 0x80 && input[9] == 0x0e {
            return Ok(
                Transform {
                    transform_type: input[4],
                    transform_id: bytes::get16(input, 6),
                    key_length: Some(bytes::get16(input, 10)),
                },
            );
        }
        Ok(Transform { transform_type: input[4], transform_id: transform_id::UNUSABLE, key_length: None })
    }

    /// Append this transform's wire form.
    fn push_to(&self, out: &mut Vec<u8>, more: bool)
        ensures
            final(out)@ == old(out)@ + self.octets(more),
    {
        out.push(if more { 3u8 } else { 0u8 });
        out.push(0);
        match self.key_length {
            Some(bits) => {
                bytes::push16(out, 12);
                out.push(self.transform_type);
                out.push(0);
                bytes::push16(out, self.transform_id);
                out.push(0x80);
                out.push(0x0e);
                bytes::push16(out, bits);
            },
            None => {
                bytes::push16(out, 8);
                out.push(self.transform_type);
                out.push(0);
                bytes::push16(out, self.transform_id);
            },
        }
        assert(out@ =~= old(out)@ + self.octets(more));
    }
}

/// A transform result with its error taken by its view.
pub open spec fn viewed_transform(result: Result<Transform, IkeError>) -> Result<Transform, Failure> {
    match result {
        Ok(transform) => Ok(transform),
        Err(error) => Err(error@),
    }
}

/// `done` followed by what `rest` yields, or `rest`'s failure.
pub open spec fn after<T>(done: Seq<T>, rest: Result<Seq<T>, Failure>) -> Result<Seq<T>, Failure> {
    match rest {
        Ok(more) => Ok(done + more),
        Err(failure) => Err(failure),
    }
}

/// The `count` transforms `s` consists of.
pub open spec fn read_transforms(s: Seq<u8>, count: nat) -> Result<Seq<Transform>, Failure>
    decreases count,
{
    if count == 0 {
        if s.len() == 0 {
            Ok(Seq::empty())
        } else {
            Err(Failure::BadLength { declared: 0, available: s.len() })
        }
    } else {
        match Transform::read(s) {
            Err(failure) => Err(failure),
            Ok(transform) => after(
                seq![transform],
                read_transforms(bytes::from(s, bytes::at16(s, 2) as int), (count - 1) as nat),
            ),
        }
    }
}

/// Transforms on the wire, each saying whether another follows.
pub open spec fn transform_octets(transforms: Seq<Transform>) -> Seq<u8>
    decreases transforms.len(),
{
    if transforms.len() == 0 {
        Seq::empty()
    } else {
        transforms[0].octets(transforms.len() > 1) + transform_octets(transforms.drop_first())
    }
}

/// Parse the `count` transforms `input` consists of.
fn parse_transforms(input: &[u8], count: u8) -> (transforms: Result<Vec<Transform>, IkeError>)
    ensures
        viewed(transforms) == read_transforms(input@, count as nat),
{
    let mut out: Vec<Transform> = Vec::new();
    let mut rest: &[u8] = input;
    assert(after(out@, read_transforms(rest@, count as nat)) == read_transforms(input@, count as nat)) by {
        if let Ok(all) = read_transforms(input@, count as nat) {
            assert(out@ + all =~= all);
        }
    }
    for i in 0..count
        invariant
            after(out@, read_transforms(rest@, (count - i) as nat)) == read_transforms(
                input@,
                count as nat,
            ),
    {
        let ghost before = out@;
        let ghost left = rest@;
        let transform = match Transform::parse(rest) {
            Ok(transform) => transform,
            Err(error) => {
                return Err(error);
            },
        };
        rest = bytes::tail(rest, bytes::get16(rest, 2) as usize);
        out.push(transform);
        proof {
            if let Ok(more) = read_transforms(rest@, (count - i - 1) as nat) {
                assert(before + (seq![transform] + more) =~= out@ + more);
            }
        }
    }
    if rest.len() != 0 {
        return Err(IkeError::BadLength { declared: 0, available: rest.len() });
    }
    assert(out@ + Seq::<Transform>::empty() =~= out@);
    Ok(out)
}

impl Offered {
    /// Whether every length and count of this proposal fits its field.
    pub open spec fn encodable(self) -> bool {
        &&& self.spi.len() < 0x100
        &&& self.transforms.len() < 0x100
    }

    /// This proposal on the wire (RFC 7296 §3.3.1); `more` when another follows.
    #[verifier::opaque]
    pub open spec fn octets(self, more: bool) -> Seq<u8> {
        self.fixed(more) + self.spi + transform_octets(self.transforms)
    }

    /// The fixed fields that open this proposal on the wire.
    pub open spec fn fixed(self, more: bool) -> Seq<u8> {
        seq![if more { 2u8 } else { 0u8 }, 0u8] + bytes::be16(
            message::field16(8 + self.spi.len() + transform_octets(self.transforms).len()),
        ) + seq![
            self.num,
            self.protocol_id,
            (self.spi.len() % 0x100) as u8,
            (self.transforms.len() % 0x100) as u8,
        ]
    }

    /// The proposal `s` opens with.
    pub open spec fn read(s: Seq<u8>) -> Result<Offered, Failure> {
        if s.len() < 8 {
            Err(Failure::Truncated { need: 8, have: s.len() })
        } else if bytes::at16(s, 2) < 8 + s[6] || bytes::at16(s, 2) > s.len() {
            Err(Failure::BadLength { declared: bytes::at16(s, 2) as nat, available: s.len() })
        } else {
            match read_transforms(s.subrange(8 + s[6], bytes::at16(s, 2) as int), s[7] as nat) {
                Err(failure) => Err(failure),
                Ok(transforms) => Ok(
                    Offered {
                        num: s[4],
                        protocol_id: s[5],
                        spi: s.subrange(8, 8 + s[6]),
                        transforms,
                    },
                ),
            }
        }
    }
}

impl Proposal {
    /// Parse the proposal `input` opens with.
    fn parse(input: &[u8]) -> (proposal: Result<Proposal, IkeError>)
        ensures
            viewed(proposal) == Offered::read(input@),
    {
        if input.len() < 8 {
            return Err(IkeError::Truncated { need: 8, have: input.len() });
        }
        let length: u16 = bytes::get16(input, 2);
        let spi_end: usize = 8 + input[6] as usize;
        if (length as usize) < spi_end || length as usize > input.len() {
            return Err(IkeError::BadLength { declared: length as usize, available: input.len() });
        }
        let transforms = match parse_transforms(bytes::range(input, spi_end, length as usize), input[7]) {
            Ok(transforms) => transforms,
            Err(error) => {
                return Err(error);
            },
        };
        Ok(
            Proposal {
                num: input[4],
                protocol_id: input[5],
                spi: bytes::copy(bytes::range(input, 8, spi_end)),
                transforms,
            },
        )
    }

    /// The transforms on the wire.
    fn transforms_to_bytes(&self) -> (body: Vec<u8>)
        ensures
            body@ == transform_octets(self.transforms@),
    {
        let mut body: Vec<u8> = Vec::new();
        let ghost all = self.transforms@;
        assert(all.skip(0) =~= all);
        assert(body@ + transform_octets(all) =~= transform_octets(all));
        for i in 0..self.transforms.len()
            invariant
                all == self.transforms@,
                body@ + transform_octets(all.skip(i as int)) == transform_octets(all),
        {
            let ghost before = body@;
            self.transforms[i].push_to(&mut body, i + 1 < self.transforms.len());
            proof {
                let rest = all.skip(i as int);
                let this = all[i as int].octets(i + 1 < all.len());
                let others = transform_octets(all.skip(i + 1));
                assert(rest.drop_first() =~= all.skip(i + 1));
                assert(transform_octets(rest) == this + others);
                assert((before + this) + others =~= before + (this + others));
            }
        }
        assert(all.skip(all.len() as int) =~= Seq::<Transform>::empty());
        assert(body@ =~= transform_octets(all));
        body
    }

    /// The fixed fields on the wire; `rest` is what follows them.
    fn fixed_to_bytes(&self, rest: &[u8], more: bool) -> (fixed: Vec<u8>)
        requires
            rest@.len() == self.spi@.len() + transform_octets(self.transforms@).len(),
        ensures
            fixed@ == self@.fixed(more),
    {
        let length: u16 = message::length16(rest.len(), 8);
        let mut fixed: Vec<u8> = Vec::new();
        fixed.push(if more { 2u8 } else { 0u8 });
        fixed.push(0);
        bytes::push16(&mut fixed, length);
        fixed.push(self.num);
        fixed.push(self.protocol_id);
        fixed.push((self.spi.len() % 0x100) as u8);
        fixed.push((self.transforms.len() % 0x100) as u8);
        assert(fixed@ =~= self@.fixed(more));
        fixed
    }

    /// Append this proposal's wire form.
    fn push_to(&self, out: &mut Vec<u8>, more: bool)
        ensures
            final(out)@ == old(out)@ + self@.octets(more),
    {
        let mut rest: Vec<u8> = Vec::new();
        bytes::push_all(&mut rest, &self.spi);
        bytes::push_all(&mut rest, &self.transforms_to_bytes());
        let ghost tail = transform_octets(self.transforms@);
        assert(rest@ =~= self.spi@ + tail);
        let fixed = self.fixed_to_bytes(&rest, more);
        bytes::push_all(out, &fixed);
        bytes::push_all(out, &rest);
        proof {
            reveal(Offered::octets);
            assert(out@ =~= old(out)@ + (fixed@ + self.spi@ + tail));
        }
    }
}

/// The proposals `s` consists of.
pub open spec fn read_proposals(s: Seq<u8>) -> Result<Seq<Offered>, Failure>
    decreases s.len(),
{
    if s.len() == 0 {
        Ok(Seq::empty())
    } else {
        match Offered::read(s) {
            Err(failure) => Err(failure),
            Ok(proposal) => after(
                seq![proposal],
                read_proposals(bytes::from(s, bytes::at16(s, 2) as int)),
            ),
        }
    }
}

/// Proposals on the wire, each saying whether another follows.
pub open spec fn proposal_octets(proposals: Seq<Offered>) -> Seq<u8>
    decreases proposals.len(),
{
    if proposals.len() == 0 {
        Seq::empty()
    } else {
        proposals[0].octets(proposals.len() > 1) + proposal_octets(proposals.drop_first())
    }
}

impl SecurityAssociation {
    /// Parse the payload body.
    pub fn parse(body: &[u8]) -> (sa: Result<SecurityAssociation, IkeError>)
        ensures
            viewed(sa) == read_proposals(body@),
    {
        let mut proposals: Vec<Proposal> = Vec::new();
        let mut rest: &[u8] = body;
        let ghost mut done: Seq<Offered> = Seq::empty();
        assert(after(done, read_proposals(rest@)) == read_proposals(body@)) by {
            if let Ok(all) = read_proposals(body@) {
                assert(done + all =~= all);
            }
        }
        while rest.len() != 0
            invariant
                done == proposals@.map_values(|p: Proposal| p@),
                after(done, read_proposals(rest@)) == read_proposals(body@),
            decreases rest@.len(),
        {
            let proposal = match Proposal::parse(rest) {
                Ok(proposal) => proposal,
                Err(error) => {
                    return Err(error);
                },
            };
            rest = bytes::tail(rest, bytes::get16(rest, 2) as usize);
            proof {
                if let Ok(more) = read_proposals(rest@) {
                    assert(done + (seq![proposal@] + more) =~= done.push(proposal@) + more);
                }
                assert(proposals@.push(proposal).map_values(|p: Proposal| p@) =~= done.push(
                    proposal@,
                ));
                done = done.push(proposal@);
            }
            proposals.push(proposal);
        }
        assert(done + Seq::<Offered>::empty() =~= done);
        Ok(SecurityAssociation { proposals })
    }

    /// Serialize the payload body.
    pub fn to_bytes(&self) -> (out: Vec<u8>)
        ensures
            out@ == proposal_octets(self@),
    {
        let mut out: Vec<u8> = Vec::new();
        let ghost all = self@;
        assert(all.skip(0) =~= all);
        for i in 0..self.proposals.len()
            invariant
                all == self@,
                out@ + proposal_octets(all.skip(i as int)) == proposal_octets(all),
        {
            let ghost before = out@;
            self.proposals[i].push_to(&mut out, i + 1 < self.proposals.len());
            proof {
                let rest = all.skip(i as int);
                let this = all[i as int].octets(i + 1 < all.len());
                let others = proposal_octets(all.skip(i + 1));
                assert(rest.drop_first() =~= all.skip(i + 1));
                assert(proposal_octets(rest) == this + others);
                assert((before + this) + others =~= before + (this + others));
            }
        }
        assert(all.skip(all.len() as int) =~= Seq::<Offered>::empty());
        assert(out@ =~= proposal_octets(all));
        out
    }
}

proof fn lemma_transform_round_trip(transform: Transform, more: bool, rest: Seq<u8>)
    ensures
        Transform::read(transform.octets(more) + rest) == Ok::<Transform, Failure>(transform),
        bytes::at16(transform.octets(more) + rest, 2) == transform.octets(more).len(),
{
    let wire = transform.octets(more) + rest;
    let length = (8 + transform.attributes().len()) as u16;
    assert(wire.subrange(2, 4) =~= bytes::be16(length));
    bytes::lemma_at16_be16(wire, 2, length);
    assert(wire.subrange(6, 8) =~= bytes::be16(transform.transform_id));
    bytes::lemma_at16_be16(wire, 6, transform.transform_id);
    assert(wire[4] == transform.transform_type);
    if let Some(bits) = transform.key_length {
        assert(wire.subrange(10, 12) =~= bytes::be16(bits));
        bytes::lemma_at16_be16(wire, 10, bits);
        assert(wire[8] == 0x80 && wire[9] == 0x0e);
    }
}

proof fn lemma_transforms_round_trip(transforms: Seq<Transform>)
    ensures
        read_transforms(transform_octets(transforms), transforms.len()) == Ok::<Seq<Transform>, Failure>(
            transforms,
        ),
    decreases transforms.len(),
{
    if transforms.len() == 0 {
        assert(transforms =~= Seq::<Transform>::empty());
    } else {
        let others = transforms.drop_first();
        lemma_transforms_round_trip(others);
        let this = transforms[0].octets(transforms.len() > 1);
        let wire = this + transform_octets(others);
        lemma_transform_round_trip(transforms[0], transforms.len() > 1, transform_octets(others));
        assert(bytes::from(wire, this.len() as int) =~= transform_octets(others));
        assert(seq![transforms[0]] + others =~= transforms);
    }
}

proof fn lemma_proposal_round_trip(proposal: Offered, more: bool, rest: Seq<u8>)
    requires
        proposal.encodable(),
        proposal.octets(more).len() < 0x1_0000,
    ensures
        Offered::read(proposal.octets(more) + rest) == Ok::<Offered, Failure>(proposal),
        bytes::at16(proposal.octets(more) + rest, 2) == proposal.octets(more).len(),
{
    reveal(Offered::octets);
    let wire = proposal.octets(more) + rest;
    let inner = transform_octets(proposal.transforms);
    let length = message::field16(8 + proposal.spi.len() + inner.len());
    assert(wire.subrange(2, 4) =~= bytes::be16(length));
    bytes::lemma_at16_be16(wire, 2, length);
    assert(wire[4] == proposal.num && wire[5] == proposal.protocol_id);
    assert(wire[6] == proposal.spi.len() && wire[7] == proposal.transforms.len());
    assert(wire.subrange(8, 8 + wire[6]) =~= proposal.spi);
    assert(wire.subrange(8 + wire[6], length as int) =~= inner);
    lemma_transforms_round_trip(proposal.transforms);
}

/// Reading the wire form of a Security Association gives its proposals back,
/// as long as every length and count fits its field.
pub proof fn law_sa_round_trip(proposals: Seq<Offered>)
    requires
        forall|i: int|
            0 <= i < proposals.len() ==> (#[trigger] proposals[i]).encodable() && proposals[i].octets(
                true,
            ).len() < 0x1_0000,
    ensures
        read_proposals(proposal_octets(proposals)) == Ok::<Seq<Offered>, Failure>(proposals),
    decreases proposals.len(),
{
    if proposals.len() == 0 {
        assert(proposals =~= Seq::<Offered>::empty());
    } else {
        let others = proposals.drop_first();
        assert forall|i: int| 0 <= i < others.len() implies (#[trigger] others[i]).encodable()
            && others[i].octets(true).len() < 0x1_0000 by {
            assert(others[i] == proposals[i + 1]);
        }
        law_sa_round_trip(others);
        let more = proposals.len() > 1;
        let this = proposals[0].octets(more);
        assert(this.len() == proposals[0].octets(true).len()) by {
            reveal(Offered::octets);
        }
        let wire = this + proposal_octets(others);
        lemma_proposal_round_trip(proposals[0], more, proposal_octets(others));
        assert(bytes::from(wire, this.len() as int) =~= proposal_octets(others));
        assert(seq![proposals[0]] + others =~= proposals);
    }
}

/// How long a proposal is on the wire.
pub proof fn lemma_proposal_len(proposal: Offered, more: bool)
    ensures
        proposal.octets(more).len() <= 8 + proposal.spi.len() + 12 * proposal.transforms.len(),
{
    reveal(Offered::octets);
    lemma_transforms_len(proposal.transforms);
}

proof fn lemma_transforms_len(transforms: Seq<Transform>)
    ensures
        transform_octets(transforms).len() <= 12 * transforms.len(),
    decreases transforms.len(),
{
    if transforms.len() > 0 {
        lemma_transforms_len(transforms.drop_first());
    }
}

} // verus!
