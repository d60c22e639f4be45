//! The Configuration payload (RFC 7296 §3.15).

use vstd::prelude::*;

use crate::bytes;
use crate::error::{viewed, Failure, IkeError};
use crate::ikev2::message;
use crate::ikev2::payload::sa::after;

verus! {

pub const CFG_REQUEST: u8 = 1;

pub const CFG_REPLY: u8 = 2;

pub const INTERNAL_IP4_ADDRESS: u16 = 1;

pub const INTERNAL_IP4_NETMASK: u16 = 2;

pub const INTERNAL_IP4_DNS: u16 = 3;

pub const INTERNAL_IP4_SUBNET: u16 = 13;

/// One configuration attribute; a request leaves the value of what it asks for
/// empty.
#[derive(Debug, Clone, PartialEq, Eq)]
pub struct Attribute {
    pub attr_type: u16,
    pub value: Vec<u8>,
}

/// An [`Attribute`] as a value of the specification.
#[verifier::ext_equal]
pub struct Setting {
    pub attr_type: u16,
    pub value: Seq<u8>,
}

impl View for Attribute {
    type V = Setting;

    open spec fn view(&self) -> Setting {
        Setting { attr_type: self.attr_type, value: self.value@ }
    }
}

impl Setting {
    /// The attribute on the wire (RFC 7296 §3.15.1).
    pub open spec fn octets(self) -> Seq<u8> {
        bytes::be16(self.attr_type) + bytes::be16(message::field16(self.value.len())) + self.value
    }

    /// The attribute `s` opens with. The top bit of its type is reserved and
    /// ignored.
    pub open spec fn read(s: Seq<u8>) -> Result<Setting, Failure> {
        if s.len() < 4 {
            Err(Failure::Truncated { need: 4, have: s.len() })
        } else if 4 + bytes::at16(s, 2) > s.len() {
            Err(Failure::Truncated { need: (4 + bytes::at16(s, 2)) as nat, have: s.len() })
        } else {
            Ok(
                Setting {
                    attr_type: bytes::at16(s, 0) % 0x8000,
                    value: s.subrange(4, 4 + bytes::at16(s, 2)),
                },
            )
        }
    }
}

impl Attribute {
    /// Parse the attribute `input` opens with.
    fn parse(input: &[u8]) -> (attribute: Result<Attribute, IkeError>)
        ensures
            viewed(attribute) == Setting::read(input@),
    {
        if input.len() < 4 {
            return Err(IkeError::Truncated { need: 4, have: input.len() });
        }
        let end: usize = 4 + bytes::get16(input, 2) as usize;
        if end > input.len() {
            return Err(IkeError::Truncated { need: end, have: input.len() });
        }
        Ok(
            Attribute {
                attr_type: bytes::get16(input, 0) % 0x8000,
                value: bytes::copy(bytes::range(input, 4, end)),
            },
        )
    }

    /// Append this attribute's wire form.
    fn push_to(&self, out: &mut Vec<u8>)
        ensures
            final(out)@ == old(out)@ + self@.octets(),
    {
        bytes::push16(out, self.attr_type);
        bytes::push16(out, message::length16(self.value.len(), 0));
        bytes::push_all(out, &self.value);
        assert(out@ =~= old(out)@ + self@.octets());
    }
}

/// A Configuration payload: what one end asks for, or is told to use, inside the
/// tunnel.
#[derive(Debug, Clone, PartialEq, Eq)]
pub struct Configuration {
    pub cfg_type: u8,
    pub attributes: Vec<Attribute>,
}

/// A [`Configuration`] as a value of the specification.
#[verifier::ext_equal]
pub struct Settings {
    pub cfg_type: u8,
    pub attributes: Seq<Setting>,
}

/// Attributes taken by their views.
pub open spec fn settings(attributes: Seq<Attribute>) -> Seq<Setting> {
    attributes.map_values(|a: Attribute| a@)
}

impl View for Configuration {
    type V = Settings;

    open spec fn view(&self) -> Settings {
        Settings { cfg_type: self.cfg_type, attributes: settings(self.attributes@) }
    }
}

/// Attributes on the wire.
pub open spec fn setting_octets(attributes: Seq<Setting>) -> Seq<u8>
    decreases attributes.len(),
{
    if attributes.len() == 0 {
        Seq::empty()
    } else {
        attributes[0].octets() + setting_octets(attributes.drop_first())
    }
}

/// The attributes `s` consists of.
pub open spec fn read_settings(s: Seq<u8>) -> Result<Seq<Setting>, Failure>
    decreases s.len(),
{
    if s.len() == 0 {
        Ok(Seq::empty())
    } else {
        match Setting::read(s) {
            Err(failure) => Err(failure),
            Ok(setting) => after(seq![setting], read_settings(bytes::from(s, 4 + bytes::at16(s, 2)))),
        }
    }
}

/// The first of `attributes`, from `from` on, that is an IPv4 address of this type.
pub open spec fn first_address(attributes: Seq<Setting>, attr_type: u16, from: int) -> Option<Seq<u8>>
    decreases attributes.len() - from,
{
    if from < 0 || from >= attributes.len() {
        None
    } else if attributes[from].attr_type == attr_type && attributes[from].value.len() == 4 {
        Some(attributes[from].value)
    } else {
        first_address(attributes, attr_type, from + 1)
    }
}

impl Settings {
    /// A request for an inner IPv4 address, a resolver and the protected subnets.
    pub open spec fn request_ipv4() -> Settings {
        Settings {
            cfg_type: CFG_REQUEST,
            attributes: seq![
                Setting { attr_type: INTERNAL_IP4_ADDRESS, value: Seq::empty() },
                Setting { attr_type: INTERNAL_IP4_DNS, value: Seq::empty() },
                Setting { attr_type: INTERNAL_IP4_SUBNET, value: Seq::empty() },
            ],
        }
    }

    /// A reply that hands out an inner IPv4 address, with a netmask and a
    /// resolver where there are any.
    pub open spec fn reply_ipv4(ip: Seq<u8>, netmask: Option<Seq<u8>>, dns: Option<Seq<u8>>) -> Settings {
        let mask = match netmask {
            Some(value) => seq![Setting { attr_type: INTERNAL_IP4_NETMASK, value }],
            None => Seq::empty(),
        };
        let resolver = match dns {
            Some(value) => seq![Setting { attr_type: INTERNAL_IP4_DNS, value }],
            None => Seq::empty(),
        };
        Settings {
            cfg_type: CFG_REPLY,
            attributes: seq![Setting { attr_type: INTERNAL_IP4_ADDRESS, value: ip }] + mask + resolver,
        }
    }

    /// The payload body on the wire.
    pub open spec fn octets(self) -> Seq<u8> {
        seq![self.cfg_type, 0u8, 0u8, 0u8] + setting_octets(self.attributes)
    }

    /// The payload `body` holds.
    pub open spec fn read(body: Seq<u8>) -> Result<Settings, Failure> {
        if body.len() < 4 {
            Err(Failure::Truncated { need: 4, have: body.len() })
        } else {
            match read_settings(bytes::from(body, 4)) {
                Err(failure) => Err(failure),
                Ok(attributes) => Ok(Settings { cfg_type: body[0], attributes }),
            }
        }
    }

    /// The inner IPv4 address these settings hand out: the first whole one.
    pub open spec fn assigned_ipv4(self) -> Option<Seq<u8>> {
        first_address(self.attributes, INTERNAL_IP4_ADDRESS, 0)
    }
}

/// An optional IPv4 address taken by its octets.
pub open spec fn viewed_address(address: Option<[u8; 4]>) -> Option<Seq<u8>> {
    match address {
        Some(octets) => Some(octets@),
        None => None,
    }
}

impl Configuration {
    /// A request for an inner IPv4 address, a resolver and the protected subnets.
    pub fn request_ipv4() -> (config: Configuration)
        ensures
            config@ == Settings::request_ipv4(),
    {
        let mut attributes: Vec<Attribute> = Vec::new();
        attributes.push(Attribute { attr_type: INTERNAL_IP4_ADDRESS, value: Vec::new() });
        attributes.push(Attribute { attr_type: INTERNAL_IP4_DNS, value: Vec::new() });
        attributes.push(Attribute { attr_type: INTERNAL_IP4_SUBNET, value: Vec::new() });
        let config = Configuration { cfg_type: CFG_REQUEST, attributes };
        assert(config@.attributes =~~= Settings::request_ipv4().attributes);
        config
    }

    /// A reply that hands out `ip`, with a netmask and a resolver where there
    /// are any.
    pub fn reply_ipv4(ip: [u8; 4], netmask: Option<[u8; 4]>, dns: Option<[u8; 4]>) -> (config: Configuration)
        ensures
            config@ == Settings::reply_ipv4(ip@, viewed_address(netmask), viewed_address(dns)),
    {
        let mut attributes: Vec<Attribute> = Vec::new();
        attributes.push(Attribute { attr_type: INTERNAL_IP4_ADDRESS, value: bytes::copy(&ip) });
        if let Some(netmask) = netmask {
            attributes.push(Attribute { attr_type: INTERNAL_IP4_NETMASK, value: bytes::copy(&netmask) });
        }
        if let Some(dns) = dns {
            attributes.push(Attribute { attr_type: INTERNAL_IP4_DNS, value: bytes::copy(&dns) });
        }
        let config = Configuration { cfg_type: CFG_REPLY, attributes };
        assert(config@.attributes =~~= Settings::reply_ipv4(ip@, viewed_address(netmask), viewed_address(dns)).attributes);
        config
    }

    /// Parse the payload body.
    pub fn parse(body: &[u8]) -> (config: Result<Configuration, IkeError>)
        ensures
            viewed(config) == Settings::read(body@),
    {
        if body.len() < 4 {
            return Err(IkeError::Truncated { need: 4, have: body.len() });
        }
        let mut attributes: Vec<Attribute> = Vec::new();
        let mut rest: &[u8] = bytes::tail(body, 4);
        let ghost all = rest@;
        let ghost mut done: Seq<Setting> = Seq::empty();
        assert(after(done, read_settings(rest@)) == read_settings(all)) by {
            if let Ok(found) = read_settings(all) {
                assert(done + found =~= found);
            }
        }
        while rest.len() != 0
            invariant
                body@.len() >= 4,
                all == bytes::from(body@, 4),
                done == settings(attributes@),
                after(done, read_settings(rest@)) == read_settings(all),
            decreases rest@.len(),
        {
            let attribute = match Attribute::parse(rest) {
                Ok(attribute) => attribute,
                Err(error) => {
                    return Err(error);
                },
            };
            rest = bytes::tail(rest, 4 + bytes::get16(rest, 2) as usize);
            proof {
                if let Ok(more) = read_settings(rest@) {
                    assert(done + (seq![attribute@] + more) =~= done.push(attribute@) + more);
                }
                assert(settings(attributes@.push(attribute)) =~= done.push(attribute@));
                done = done.push(attribute@);
            }
            attributes.push(attribute);
        }
        assert(done + Seq::<Setting>::empty() =~= done);
        Ok(Configuration { cfg_type: body[0], attributes })
    }

    /// Serialize the payload body.
    pub fn to_bytes(&self) -> (out: Vec<u8>)
        ensures
            out@ == self@.octets(),
    {
        let mut out: Vec<u8> = Vec::new();
        out.push(self.cfg_type);
        bytes::push_zeros(&mut out, 3);
        let ghost fixed = out@;
        let ghost all = settings(self.attributes@);
        assert(fixed =~= seq![self.cfg_type, 0u8, 0u8, 0u8]);
        assert(all.skip(0) =~= all);
        for i in 0..self.attributes.len()
            invariant
                all == settings(self.attributes@),
                out@ + setting_octets(all.skip(i as int)) == fixed + setting_octets(all),
        {
            let ghost before = out@;
            self.attributes[i].push_to(&mut out);
            proof {
                let this = all[i as int].octets();
                let others = setting_octets(all.skip(i + 1));
                assert(all.skip(i as int).drop_first() =~= all.skip(i + 1));
                assert(setting_octets(all.skip(i as int)) == this + others);
                assert((before + this) + others =~= before + (this + others));
            }
        }
        assert(all.skip(all.len() as int) =~= Seq::<Setting>::empty());
        assert(out@ =~= self@.octets());
        out
    }

    /// The inner IPv4 address this configuration hands out: the first whole one.
    pub fn assigned_ipv4(&self) -> (ip: Option<[u8; 4]>)
        ensures
            viewed_address(ip) == self@.assigned_ipv4(),
    {
        let ghost all = self@.attributes;
        for i in 0..self.attributes.len()
            invariant
                all == settings(self.attributes@),
                first_address(all, INTERNAL_IP4_ADDRESS, 0) == first_address(
                    all,
                    INTERNAL_IP4_ADDRESS,
                    i as int,
                ),
        {
            let attribute = &self.attributes[i];
            assert(all[i as int] == attribute@);
            if attribute.attr_type == INTERNAL_IP4_ADDRESS && attribute.value.len() == 4 {
                let ip: [u8; 4] = [
                    attribute.value[0],
                    attribute.value[1],
                    attribute.value[2],
                    attribute.value[3],
                ];
                assert(ip@ =~= attribute.value@);
                return Some(ip);
            }
        }
        None
    }
}

proof fn lemma_settings_round_trip(attributes: Seq<Setting>)
    requires
        forall|i: int|
            0 <= i < attributes.len() ==> (#[trigger] attributes[i]).attr_type < 0x8000
                && attributes[i].value.len() < 0x1_0000,
    ensures
        read_settings(setting_octets(attributes)) == Ok::<Seq<Setting>, Failure>(attributes),
    decreases attributes.len(),
{
    if attributes.len() == 0 {
        assert(attributes =~= Seq::<Setting>::empty());
    } else {
        let others = attributes.drop_first();
        assert forall|i: int| 0 <= i < others.len() implies (#[trigger] others[i]).attr_type < 0x8000
            && others[i].value.len() < 0x1_0000 by {
            assert(others[i] == attributes[i + 1]);
        }
        lemma_settings_round_trip(others);
        let this = attributes[0];
        let wire = setting_octets(attributes);
        assert(wire.subrange(0, 2) =~= bytes::be16(this.attr_type));
        bytes::lemma_at16_be16(wire, 0, this.attr_type);
        assert(wire.subrange(2, 4) =~= bytes::be16(message::field16(this.value.len())));
        bytes::lemma_at16_be16(wire, 2, message::field16(this.value.len()));
        assert(wire.subrange(4, 4 + this.value.len() as int) =~= this.value);
        assert(bytes::from(wire, 4 + this.value.len() as int) =~= setting_octets(others));
        assert(seq![this] + others =~= attributes);
    }
}

/// Reading the wire form of a configuration gives it back, when every attribute
/// has a type and a length its fields can hold.
pub proof fn law_configuration_round_trip(config: Settings)
    requires
        forall|i: int|
            0 <= i < config.attributes.len() ==> (#[trigger] config.attributes[i]).attr_type < 0x8000
                && config.attributes[i].value.len() < 0x1_0000,
    ensures
        Settings::read(config.octets()) == Ok::<Settings, Failure>(config),
{
    lemma_settings_round_trip(config.attributes);
    assert(bytes::from(config.octets(), 4) =~= setting_octets(config.attributes));
}

} // verus!
