//! The configuration payload of the Transaction exchange
//! (draft-dukes-ike-mode-cfg §3.2), which XAUTH and Mode-Config speak in.

pub mod cfg;
pub mod cfg_attr;
pub mod xauth_status;
pub mod xauth_type;

use vstd::prelude::*;

use crate::bytes;
use crate::error::{viewed, Failure, IkeError};
use crate::ikev2::message::{field16, length16};
use crate::ikev2::payload::sa::after;

verus! {

broadcast use crate::bytes::group_lengths;

/// The value of an attribute: two octets in place, or a string of its own length.
#[derive(Debug, Clone, PartialEq, Eq)]
pub enum AttrValue {
    Short(u16),
    Long(Vec<u8>),
}

/// A data attribute (RFC 2408 §3.3).
#[derive(Debug, Clone, PartialEq, Eq)]
pub struct Attribute {
    pub attr_type: u16,
    pub value: AttrValue,
}

/// An [`AttrValue`] as a value of the specification.
#[verifier::ext_equal]
pub enum Worth {
    Short(u16),
    Long(Seq<u8>),
}

/// An [`Attribute`] as a value of the specification.
#[verifier::ext_equal]
pub struct Datum {
    pub attr_type: u16,
    pub value: Worth,
}

impl View for Attribute {
    type V = Datum;

    open spec fn view(&self) -> Datum {
        Datum {
            attr_type: self.attr_type,
            value: match self.value {
                AttrValue::Short(value) => Worth::Short(value),
                AttrValue::Long(value) => Worth::Long(value@),
            },
        }
    }
}

/// A type as the fifteen bits that carry it hold it, below the bit that tells a
/// short attribute.
pub open spec fn type_field(attr_type: u16, short: bool) -> u16 {
    (attr_type % 0x8000 + if short {
        0x8000int
    } else {
        0
    }) as u16
}

impl Datum {
    /// The attribute on the wire.
    pub open spec fn octets(self) -> Seq<u8> {
        match self.value {
            Worth::Short(value) => bytes::be16(type_field(self.attr_type, true)) + bytes::be16(value),
            Worth::Long(value) => bytes::be16(type_field(self.attr_type, false)) + bytes::be16(
                field16(value.len()),
            ) + value,
        }
    }

    /// How many octets of `s` the attribute it opens with takes.
    pub open spec fn extent(s: Seq<u8>) -> int {
        if bytes::at16(s, 0) >= 0x8000 {
            4
        } else {
            4 + bytes::at16(s, 2)
        }
    }

    /// The attribute `s` opens with.
    pub open spec fn read(s: Seq<u8>) -> Result<Datum, Failure> {
        if s.len() < 4 {
            Err(Failure::Truncated { need: 4, have: s.len() })
        } else if bytes::at16(s, 0) >= 0x8000 {
            Ok(
                Datum {
                    attr_type: (bytes::at16(s, 0) - 0x8000) as u16,
                    value: Worth::Short(bytes::at16(s, 2)),
                },
            )
        } else if Datum::extent(s) > s.len() {
            Err(
                Failure::BadLength { declared: bytes::at16(s, 2) as nat, available: (s.len() - 4) as nat },
            )
        } else {
            Ok(
                Datum { attr_type: bytes::at16(s, 0), value: Worth::Long(s.subrange(4, Datum::extent(s))) },
            )
        }
    }

    /// The number a short attribute holds.
    pub open spec fn number(self) -> Option<u16> {
        match self.value {
            Worth::Short(value) => Some(value),
            Worth::Long(_) => None,
        }
    }

    /// The octets an attribute holds.
    pub open spec fn content(self) -> Seq<u8> {
        match self.value {
            Worth::Short(value) => bytes::be16(value),
            Worth::Long(value) => value,
        }
    }
}

impl Attribute {
    /// An attribute of two octets.
    pub fn short(attr_type: u16, value: u16) -> (attribute: Attribute)
        ensures
            attribute@ == (Datum { attr_type, value: Worth::Short(value) }),
    {
        Attribute { attr_type, value: AttrValue::Short(value) }
    }

    /// An attribute with a length of its own.
    pub fn long_bytes(attr_type: u16, value: Vec<u8>) -> (attribute: Attribute)
        ensures
            attribute@ == (Datum { attr_type, value: Worth::Long(value@) }),
    {
        Attribute { attr_type, value: AttrValue::Long(value) }
    }

    /// The number a short attribute holds.
    pub fn as_u16(&self) -> (number: Option<u16>)
        ensures
            number == self@.number(),
    {
        match &self.value {
            AttrValue::Short(value) => Some(*value),
            AttrValue::Long(_) => None,
        }
    }

    /// The octets an attribute holds.
    pub fn bytes(&self) -> (octets: Vec<u8>)
        ensures
            octets@ == self@.content(),
    {
        match &self.value {
            AttrValue::Short(value) => {
                let mut octets: Vec<u8> = Vec::new();
                bytes::push16(&mut octets, *value);
                assert(octets@ =~= bytes::be16(*value));
                octets
            },
            AttrValue::Long(value) => bytes::copy(value),
        }
    }

    fn write(&self, out: &mut Vec<u8>)
        ensures
            final(out)@ == old(out)@ + self@.octets(),
    {
        match &self.value {
            AttrValue::Short(value) => {
                bytes::push16(out, self.attr_type % 0x8000 + 0x8000);
                bytes::push16(out, *value);
            },
            AttrValue::Long(value) => {
                bytes::push16(out, self.attr_type % 0x8000);
                bytes::push16(out, length16(value.len(), 0));
                bytes::push_all(out, value);
            },
        }
        assert(out@ =~= old(out)@ + self@.octets());
    }

    /// The attribute `s` opens with, and how many octets it takes.
    fn parse(s: &[u8]) -> (out: Result<(Attribute, usize), IkeError>)
        ensures
            match out {
                Ok((attribute, extent)) => Datum::read(s@) == Ok::<Datum, Failure>(attribute@) && extent
                    == Datum::extent(s@) && 4 <= extent <= s@.len(),
                Err(error) => Datum::read(s@) == Err::<Datum, Failure>(error@),
            },
    {
        if s.len() < 4 {
            return Err(IkeError::Truncated { need: 4, have: s.len() });
        }
        let attr_type: u16 = bytes::get16(s, 0);
        let second: u16 = bytes::get16(s, 2);
        if attr_type >= 0x8000 {
            return Ok((Attribute::short(attr_type - 0x8000, second), 4));
        }
        if second as usize > s.len() - 4 {
            return Err(IkeError::BadLength { declared: second as usize, available: s.len() - 4 });
        }
        let extent: usize = 4 + second as usize;
        Ok((Attribute::long_bytes(attr_type, bytes::copy(bytes::range(s, 4, extent))), extent))
    }
}

/// A configuration payload: what is asked, told, set or acknowledged, under an
/// identifier.
#[derive(Debug, Clone, PartialEq, Eq)]
pub struct ConfigPayload {
    pub cfg_type: u8,
    pub identifier: u16,
    pub attributes: Vec<Attribute>,
}

/// A [`ConfigPayload`] as a value of the specification.
#[verifier::ext_equal]
pub struct Config {
    pub cfg_type: u8,
    pub identifier: u16,
    pub attributes: Seq<Datum>,
}

/// Attributes taken by their views.
pub open spec fn data(attributes: Seq<Attribute>) -> Seq<Datum> {
    attributes.map_values(|a: Attribute| a@)
}

impl View for ConfigPayload {
    type V = Config;

    open spec fn view(&self) -> Config {
        Config { cfg_type: self.cfg_type, identifier: self.identifier, attributes: data(self.attributes@) }
    }
}

/// Attributes on the wire.
pub open spec fn data_octets(attributes: Seq<Datum>) -> Seq<u8>
    decreases attributes.len(),
{
    if attributes.len() == 0 {
        Seq::empty()
    } else {
        attributes[0].octets() + data_octets(attributes.drop_first())
    }
}

/// The attributes `s` consists of.
pub open spec fn read_data(s: Seq<u8>) -> Result<Seq<Datum>, Failure>
    decreases s.len(),
{
    if s.len() == 0 {
        Ok(Seq::empty())
    } else {
        match Datum::read(s) {
            Err(failure) => Err(failure),
            Ok(datum) => if Datum::extent(s) < 4 {
                Ok(Seq::empty())
            } else {
                after(seq![datum], read_data(bytes::from(s, Datum::extent(s))))
            },
        }
    }
}

/// The first of `attributes`, from index `from` on, of this type.
pub open spec fn first_of(attributes: Seq<Datum>, attr_type: u16, from: int) -> Option<Datum>
    decreases attributes.len() - from,
{
    if from < 0 || from >= attributes.len() {
        None
    } else if attributes[from].attr_type == attr_type {
        Some(attributes[from])
    } else {
        first_of(attributes, attr_type, from + 1)
    }
}

impl Config {
    /// The payload body on the wire.
    pub open spec fn octets(self) -> Seq<u8> {
        seq![self.cfg_type, 0u8] + bytes::be16(self.identifier) + data_octets(self.attributes)
    }

    /// The payload `body` holds.
    pub open spec fn read(body: Seq<u8>) -> Result<Config, Failure> {
        if body.len() < 4 {
            Err(Failure::Truncated { need: 4, have: body.len() })
        } else {
            match read_data(bytes::from(body, 4)) {
                Err(failure) => Err(failure),
                Ok(attributes) => Ok(
                    Config { cfg_type: body[0], identifier: bytes::at16(body, 2), attributes },
                ),
            }
        }
    }

    /// The first attribute of this type.
    pub open spec fn attr(self, attr_type: u16) -> Option<Datum> {
        first_of(self.attributes, attr_type, 0)
    }
}

/// An optional attribute taken by its view.
pub open spec fn viewed_attr(attribute: Option<&Attribute>) -> Option<Datum> {
    match attribute {
        Some(attribute) => Some(attribute@),
        None => None,
    }
}

impl ConfigPayload {
    /// The payload of this type, identifier and attributes.
    pub fn new(cfg_type: u8, identifier: u16, attributes: Vec<Attribute>) -> (config: ConfigPayload)
        ensures
            config@ == (Config { cfg_type, identifier, attributes: data(attributes@) }),
    {
        ConfigPayload { cfg_type, identifier, attributes }
    }

    /// Parse the payload body.
    pub fn parse(body: &[u8]) -> (config: Result<ConfigPayload, IkeError>)
        ensures
            viewed(config) == Config::read(body@),
    {
        if body.len() < 4 {
            return Err(IkeError::Truncated { need: 4, have: body.len() });
        }
        let mut attributes: Vec<Attribute> = Vec::new();
        let mut rest: &[u8] = bytes::tail(body, 4);
        let ghost whole = read_data(rest@);
        proof {
            if let Ok(all) = whole {
                assert(data(attributes@) + all =~= all);
            }
        }
        while rest.len() > 0
            invariant
                after(data(attributes@), read_data(rest@)) == whole,
                whole == read_data(bytes::from(body@, 4)),
                body@.len() >= 4,
            decreases rest@.len(),
        {
            let (attribute, extent) = match Attribute::parse(rest) {
                Ok(parsed) => parsed,
                Err(error) => {
                    return Err(error);
                },
            };
            let ghost before = data(attributes@);
            let ghost datum = attribute@;
            attributes.push(attribute);
            proof {
                assert(data(attributes@) =~= before.push(datum));
                if let Ok(others) = read_data(bytes::from(rest@, extent as int)) {
                    assert(before + (seq![datum] + others) =~= data(attributes@) + others);
                }
            }
            rest = bytes::tail(rest, extent);
        }
        assert(data(attributes@) + Seq::<Datum>::empty() =~= data(attributes@));
        Ok(ConfigPayload { cfg_type: body[0], identifier: bytes::get16(body, 2), attributes })
    }

    /// Serialize the payload body.
    pub fn to_bytes(&self) -> (out: Vec<u8>)
        ensures
            out@ == self@.octets(),
    {
        let mut out: Vec<u8> = Vec::new();
        out.push(self.cfg_type);
        out.push(0);
        bytes::push16(&mut out, self.identifier);
        let ghost head = out@;
        let ghost all = data(self.attributes@);
        assert(all.skip(0) =~= all);
        assert(out@ + data_octets(all.skip(0)) =~= head + data_octets(all));
        for i in 0..self.attributes.len()
            invariant
                all == data(self.attributes@),
                out@ + data_octets(all.skip(i as int)) == head + data_octets(all),
        {
            let ghost before = out@;
            assert(all.skip(i as int).drop_first() =~= all.skip(i + 1));
            assert(all.skip(i as int)[0] == self.attributes@[i as int]@);
            self.attributes[i].write(&mut out);
            assert(out@ + data_octets(all.skip(i + 1)) =~= before + data_octets(all.skip(i as int)));
        }
        assert(all.skip(all.len() as int) =~= Seq::<Datum>::empty());
        assert(out@ + Seq::<u8>::empty() =~= out@);
        assert(head =~= seq![self.cfg_type, 0u8] + bytes::be16(self.identifier));
        out
    }

    /// The first attribute of this type.
    pub fn attr(&self, attr_type: u16) -> (attribute: Option<&Attribute>)
        ensures
            viewed_attr(attribute) == self@.attr(attr_type),
    {
        let ghost all = data(self.attributes@);
        for i in 0..self.attributes.len()
            invariant
                all == data(self.attributes@),
                first_of(all, attr_type, 0) == first_of(all, attr_type, i as int),
        {
            assert(all[i as int] == self.attributes@[i as int]@);
            if self.attributes[i].attr_type == attr_type {
                return Some(&self.attributes[i]);
            }
        }
        None
    }
}

/// Whether an attribute can be written so that it reads back.
pub open spec fn encodable(datum: Datum) -> bool {
    datum.attr_type < 0x8000 && (datum.value matches Worth::Long(value) ==> value.len() < 0x1_0000)
}

proof fn lemma_datum_round_trip(datum: Datum, rest: Seq<u8>)
    requires
        encodable(datum),
    ensures
        Datum::read(datum.octets() + rest) == Ok::<Datum, Failure>(datum),
        Datum::extent(datum.octets() + rest) == datum.octets().len(),
        datum.octets().len() >= 4,
{
    let wire = datum.octets() + rest;
    match datum.value {
        Worth::Short(value) => {
            assert(wire.subrange(0, 2) =~= bytes::be16(type_field(datum.attr_type, true)));
            assert(wire.subrange(2, 4) =~= bytes::be16(value));
            bytes::lemma_at16_be16(wire, 0, type_field(datum.attr_type, true));
            bytes::lemma_at16_be16(wire, 2, value);
        },
        Worth::Long(value) => {
            assert(wire.subrange(0, 2) =~= bytes::be16(type_field(datum.attr_type, false)));
            assert(wire.subrange(2, 4) =~= bytes::be16(field16(value.len())));
            bytes::lemma_at16_be16(wire, 0, type_field(datum.attr_type, false));
            bytes::lemma_at16_be16(wire, 2, field16(value.len()));
            assert(wire.subrange(4, (4 + value.len()) as int) =~= value);
        },
    }
}

proof fn lemma_data_round_trip(attributes: Seq<Datum>)
    requires
        forall|i: int| 0 <= i < attributes.len() ==> encodable(#[trigger] attributes[i]),
    ensures
        read_data(data_octets(attributes)) == Ok::<Seq<Datum>, Failure>(attributes),
    decreases attributes.len(),
{
    if attributes.len() > 0 {
        let rest = attributes.drop_first();
        assert forall|i: int| 0 <= i < rest.len() implies encodable(#[trigger] rest[i]) by {
            assert(rest[i] == attributes[i + 1]);
        }
        lemma_data_round_trip(rest);
        assert(encodable(attributes[0]));
        lemma_datum_round_trip(attributes[0], data_octets(rest));
        let wire = data_octets(attributes);
        assert(bytes::from(wire, Datum::extent(wire)) =~= data_octets(rest));
        assert(seq![attributes[0]] + rest =~= attributes);
    } else {
        assert(attributes =~= Seq::empty());
    }
}

/// Reading the wire form of a configuration payload gives it back.
pub proof fn law_config_round_trip(config: Config)
    requires
        forall|i: int| 0 <= i < config.attributes.len() ==> encodable(#[trigger] config.attributes[i]),
    ensures
        Config::read(config.octets()) == Ok::<Config, Failure>(config),
{
    let wire = config.octets();
    lemma_data_round_trip(config.attributes);
    assert(bytes::from(wire, 4) =~= data_octets(config.attributes));
    assert(wire.subrange(2, 4) =~= bytes::be16(config.identifier));
    bytes::lemma_at16_be16(wire, 2, config.identifier);
}

} // verus!
