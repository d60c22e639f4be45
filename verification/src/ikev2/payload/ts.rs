//! The Traffic Selector payloads (RFC 7296 §3.13), and narrowing them (§2.9).

use vstd::prelude::*;

use crate::bytes;
use crate::crypto::number;
use crate::crypto::number::number;
use crate::error::{viewed, viewed_option, Failure, IkeError};
use crate::ikev2::message;
use crate::ikev2::payload::sa::after;

verus! {

/// TS Type of an IPv4 address range.
pub const TS_IPV4_ADDR_RANGE: u8 = 7;

/// TS Type of an IPv6 address range.
pub const TS_IPV6_ADDR_RANGE: u8 = 8;

/// One traffic selector: a protocol, a range of ports and a range of addresses.
#[derive(Debug, Clone, PartialEq, Eq)]
pub struct TrafficSelector {
    pub ts_type: u8,
    /// The IP protocol, or 0 for any.
    pub protocol: u8,
    pub start_port: u16,
    pub end_port: u16,
    pub start_addr: Vec<u8>,
    pub end_addr: Vec<u8>,
}

/// A [`TrafficSelector`] as a value of the specification.
#[verifier::ext_equal]
pub struct Selector {
    pub ts_type: u8,
    pub protocol: u8,
    pub start_port: u16,
    pub end_port: u16,
    pub start_addr: Seq<u8>,
    pub end_addr: Seq<u8>,
}

impl View for TrafficSelector {
    type V = Selector;

    open spec fn view(&self) -> Selector {
        Selector {
            ts_type: self.ts_type,
            protocol: self.protocol,
            start_port: self.start_port,
            end_port: self.end_port,
            start_addr: self.start_addr@,
            end_addr: self.end_addr@,
        }
    }
}

/// How long an address of this TS Type is, if it is a type we know.
pub open spec fn address_size(ts_type: u8) -> Option<nat> {
    if ts_type == TS_IPV4_ADDR_RANGE {
        Some(4)
    } else if ts_type == TS_IPV6_ADDR_RANGE {
        Some(16)
    } else {
        None
    }
}

impl Selector {
    /// All traffic of an address family: `count` octets of zeros to as many of ones.
    pub open spec fn any(ts_type: u8, count: nat) -> Selector {
        Selector {
            ts_type,
            protocol: 0,
            start_port: 0,
            end_port: 0xFFFF,
            start_addr: bytes::zeros(count),
            end_addr: Seq::new(count, |i: int| 0xFFu8),
        }
    }

    /// All IPv4 traffic.
    pub open spec fn ipv4_any() -> Selector {
        Self::any(TS_IPV4_ADDR_RANGE, 4)
    }

    /// All IPv6 traffic.
    pub open spec fn ipv6_any() -> Selector {
        Self::any(TS_IPV6_ADDR_RANGE, 16)
    }

    /// All traffic of one IPv4 address.
    pub open spec fn ipv4_host(ip: Seq<u8>) -> Selector {
        Selector { start_addr: ip, end_addr: ip, ..Self::ipv4_any() }
    }

    /// Whether this selector is of a type we know, with addresses of its length.
    pub open spec fn known(self) -> bool {
        &&& address_size(self.ts_type) == Some(self.start_addr.len())
        &&& self.start_addr.len() == self.end_addr.len()
    }

    /// Whether all the traffic this selector stands for is `other`'s too.
    pub open spec fn within(self, other: Selector) -> bool {
        &&& self.known() && other.known()
        &&& self.ts_type == other.ts_type
        &&& other.protocol == 0 || other.protocol == self.protocol
        &&& other.start_port <= self.start_port && self.end_port <= other.end_port
        &&& number(other.start_addr) <= number(self.start_addr)
        &&& number(self.end_addr) <= number(other.end_addr)
    }

    /// The traffic this selector and `other` have in common.
    pub open spec fn common(self, other: Selector) -> Selector {
        Selector {
            ts_type: self.ts_type,
            protocol: if self.protocol == 0 {
                other.protocol
            } else {
                self.protocol
            },
            start_port: if self.start_port < other.start_port {
                other.start_port
            } else {
                self.start_port
            },
            end_port: if other.end_port < self.end_port {
                other.end_port
            } else {
                self.end_port
            },
            start_addr: if number(self.start_addr) < number(other.start_addr) {
                other.start_addr
            } else {
                self.start_addr
            },
            end_addr: if number(other.end_addr) < number(self.end_addr) {
                other.end_addr
            } else {
                self.end_addr
            },
        }
    }

    /// Whether this selector and `other` have any traffic in common: both of one
    /// type we know, of one protocol unless either takes any, with ports and
    /// addresses that overlap.
    pub open spec fn overlaps(self, other: Selector) -> bool {
        &&& self.known() && other.known()
        &&& self.ts_type == other.ts_type
        &&& self.protocol == 0 || other.protocol == 0 || self.protocol == other.protocol
        &&& self.common(other).start_port <= self.common(other).end_port
        &&& number(self.common(other).start_addr) <= number(self.common(other).end_addr)
    }

    /// The selector on the wire (RFC 7296 §3.13.1).
    pub open spec fn octets(self) -> Seq<u8> {
        seq![self.ts_type, self.protocol] + bytes::be16(
            message::field16(8 + self.start_addr.len() + self.end_addr.len()),
        ) + bytes::be16(self.start_port) + bytes::be16(self.end_port) + self.start_addr + self.end_addr
    }

    /// The selector `s` opens with. Its addresses have the length of their type;
    /// of a type we do not know, the two halves of what is there are kept.
    pub open spec fn read(s: Seq<u8>) -> Result<Selector, Failure> {
        if s.len() < 8 {
            Err(Failure::Truncated { need: 8, have: s.len() })
        } else if bytes::at16(s, 2) < 8 || bytes::at16(s, 2) > s.len() {
            Err(Failure::BadLength { declared: bytes::at16(s, 2) as nat, available: s.len() })
        } else {
            let end = bytes::at16(s, 2) as int;
            let middle = 8 + (end - 8) / 2;
            if address_size(s[0]) matches Some(size) && end != 8 + 2 * size {
                Err(Failure::MalformedPayload("TS with addresses of the wrong length for its type"@))
            } else {
                Ok(
                    Selector {
                        ts_type: s[0],
                        protocol: s[1],
                        start_port: bytes::at16(s, 4),
                        end_port: bytes::at16(s, 6),
                        start_addr: s.subrange(8, middle),
                        end_addr: s.subrange(middle, end),
                    },
                )
            }
        }
    }

    /// Whether reading the wire form gives this selector back.
    pub open spec fn encodable(self) -> bool {
        &&& 8 + self.start_addr.len() + self.end_addr.len() < 0x1_0000
        &&& self.start_addr.len() == (self.start_addr.len() + self.end_addr.len()) / 2
        &&& address_size(self.ts_type) is Some ==> self.known()
    }
}

impl TrafficSelector {
    /// All IPv4 traffic.
    pub fn ipv4_any() -> (selector: TrafficSelector)
        ensures
            selector@ == Selector::ipv4_any(),
    {
        Self::any(TS_IPV4_ADDR_RANGE, 4)
    }

    /// All IPv6 traffic.
    pub fn ipv6_any() -> (selector: TrafficSelector)
        ensures
            selector@ == Selector::ipv6_any(),
    {
        Self::any(TS_IPV6_ADDR_RANGE, 16)
    }

    fn any(ts_type: u8, count: usize) -> (selector: TrafficSelector)
        ensures
            selector@ == Selector::any(ts_type, count as nat),
    {
        let mut start_addr: Vec<u8> = Vec::new();
        bytes::push_zeros(&mut start_addr, count);
        let mut end_addr: Vec<u8> = Vec::new();
        for i in 0..count
            invariant
                end_addr@ == Seq::new(i as nat, |k: int| 0xFFu8),
        {
            end_addr.push(0xFF);
            assert(end_addr@ =~= Seq::new((i + 1) as nat, |k: int| 0xFFu8));
        }
        let selector = TrafficSelector {
            ts_type,
            protocol: 0,
            start_port: 0,
            end_port: 0xFFFF,
            start_addr,
            end_addr,
        };
        assert(selector@ =~= Selector::any(ts_type, count as nat));
        selector
    }

    /// All traffic of one IPv4 address.
    pub fn ipv4_host(ip: [u8; 4]) -> (selector: TrafficSelector)
        ensures
            selector@ == Selector::ipv4_host(ip@),
    {
        TrafficSelector {
            ts_type: TS_IPV4_ADDR_RANGE,
            protocol: 0,
            start_port: 0,
            end_port: 0xFFFF,
            start_addr: bytes::copy(&ip),
            end_addr: bytes::copy(&ip),
        }
    }

    /// Whether this selector is of a type we know, with addresses of its length.
    fn is_known(&self) -> (known: bool)
        ensures
            known == self@.known(),
    {
        let size: usize = if self.ts_type == TS_IPV4_ADDR_RANGE {
            4
        } else if self.ts_type == TS_IPV6_ADDR_RANGE {
            16
        } else {
            return false;
        };
        self.start_addr.len() == size && self.end_addr.len() == size
    }

    /// Whether all the traffic this selector stands for is `other`'s too.
    pub fn is_within(&self, other: &TrafficSelector) -> (within: bool)
        ensures
            within == self@.within(other@),
    {
        if !self.is_known() || !other.is_known() || self.ts_type != other.ts_type {
            return false;
        }
        (other.protocol == 0 || other.protocol == self.protocol) && other.start_port <= self.start_port
            && self.end_port <= other.end_port && !number::below(&self.start_addr, &other.start_addr)
            && !number::below(&other.end_addr, &self.end_addr)
    }

    /// The traffic this selector and `other` have in common, if any.
    pub fn intersect(&self, other: &TrafficSelector) -> (common: Option<TrafficSelector>)
        ensures
            viewed_option(common) == (if self@.overlaps(other@) {
                Some(self@.common(other@))
            } else {
                None
            }),
    {
        if !self.is_known() || !other.is_known() || self.ts_type != other.ts_type {
            return None;
        }
        if !(self.protocol == 0 || other.protocol == 0 || self.protocol == other.protocol) {
            return None;
        }
        let start_addr = if number::below(&self.start_addr, &other.start_addr) {
            bytes::copy(&other.start_addr)
        } else {
            bytes::copy(&self.start_addr)
        };
        let end_addr = if number::below(&other.end_addr, &self.end_addr) {
            bytes::copy(&other.end_addr)
        } else {
            bytes::copy(&self.end_addr)
        };
        let start_port: u16 = if self.start_port < other.start_port {
            other.start_port
        } else {
            self.start_port
        };
        let end_port: u16 = if other.end_port < self.end_port {
            other.end_port
        } else {
            self.end_port
        };
        if start_port > end_port || number::below(&end_addr, &start_addr) {
            return None;
        }
        Some(
            TrafficSelector {
                ts_type: self.ts_type,
                protocol: if self.protocol == 0 {
                    other.protocol
                } else {
                    self.protocol
                },
                start_port,
                end_port,
                start_addr,
                end_addr,
            },
        )
    }

    /// Parse the selector `input` opens with.
    fn parse(input: &[u8]) -> (selector: Result<TrafficSelector, IkeError>)
        ensures
            viewed(selector) == Selector::read(input@),
    {
        if input.len() < 8 {
            return Err(IkeError::Truncated { need: 8, have: input.len() });
        }
        let end: usize = bytes::get16(input, 2) as usize;
        if end < 8 || end > input.len() {
            return Err(IkeError::BadLength { declared: end, available: input.len() });
        }
        if (input[0] == TS_IPV4_ADDR_RANGE && end != 16) || (input[0] == TS_IPV6_ADDR_RANGE && end != 40) {
            return Err(IkeError::MalformedPayload("TS with addresses of the wrong length for its type"));
        }
        let middle: usize = 8 + (end - 8) / 2;
        Ok(
            TrafficSelector {
                ts_type: input[0],
                protocol: input[1],
                start_port: bytes::get16(input, 4),
                end_port: bytes::get16(input, 6),
                start_addr: bytes::copy(bytes::range(input, 8, middle)),
                end_addr: bytes::copy(bytes::range(input, middle, end)),
            },
        )
    }

    /// Append this selector's wire form.
    fn push_to(&self, out: &mut Vec<u8>)
        ensures
            final(out)@ == old(out)@ + self@.octets(),
    {
        let mut addrs: Vec<u8> = Vec::new();
        bytes::push_all(&mut addrs, &self.start_addr);
        bytes::push_all(&mut addrs, &self.end_addr);
        assert(addrs@ =~= self.start_addr@ + self.end_addr@);
        out.push(self.ts_type);
        out.push(self.protocol);
        bytes::push16(out, message::length16(addrs.len(), 8));
        bytes::push16(out, self.start_port);
        bytes::push16(out, self.end_port);
        bytes::push_all(out, &addrs);
        assert(out@ =~= old(out)@ + self@.octets());
    }
}

/// A Traffic Selector payload: what one side sends, or receives, through a CHILD SA.
#[derive(Debug, Clone, PartialEq, Eq)]
pub struct TrafficSelectors {
    pub selectors: Vec<TrafficSelector>,
}

/// Selectors taken by their views.
pub open spec fn selected(selectors: Seq<TrafficSelector>) -> Seq<Selector> {
    selectors.map_values(|s: TrafficSelector| s@)
}

impl View for TrafficSelectors {
    type V = Seq<Selector>;

    open spec fn view(&self) -> Seq<Selector> {
        selected(self.selectors@)
    }
}

/// Selectors on the wire.
pub open spec fn selector_octets(selectors: Seq<Selector>) -> Seq<u8>
    decreases selectors.len(),
{
    if selectors.len() == 0 {
        Seq::empty()
    } else {
        selectors[0].octets() + selector_octets(selectors.drop_first())
    }
}

/// The payload body of these selectors on the wire.
pub open spec fn octets(selectors: Seq<Selector>) -> Seq<u8> {
    seq![(selectors.len() % 0x100) as u8, 0u8, 0u8, 0u8] + selector_octets(selectors)
}

/// The `count` selectors `s` consists of.
pub open spec fn read_selectors(s: Seq<u8>, count: nat) -> Result<Seq<Selector>, Failure>
    decreases count,
{
    if count == 0 {
        if s.len() == 0 {
            Ok(Seq::empty())
        } else {
            Err(Failure::BadLength { declared: 0, available: s.len() })
        }
    } else {
        match Selector::read(s) {
            Err(failure) => Err(failure),
            Ok(selector) => after(
                seq![selector],
                read_selectors(bytes::from(s, bytes::at16(s, 2) as int), (count - 1) as nat),
            ),
        }
    }
}

/// The payload `body` holds: at least one selector (RFC 7296 §3.13).
pub open spec fn read(body: Seq<u8>) -> Result<Seq<Selector>, Failure> {
    if body.len() < 4 {
        Err(Failure::Truncated { need: 4, have: body.len() })
    } else if body[0] == 0 {
        Err(Failure::MalformedPayload("TS payload with no Traffic Selector"@))
    } else {
        read_selectors(bytes::from(body, 4), body[0] as nat)
    }
}

/// Whether every one of `selectors` is within one of `offer`.
pub open spec fn all_within(selectors: Seq<Selector>, offer: Seq<Selector>) -> bool {
    forall|i: int| 0 <= i < selectors.len() ==> within_one(#[trigger] selectors[i], offer)
}

/// Whether `selector` is within one of `offer`.
pub open spec fn within_one(selector: Selector, offer: Seq<Selector>) -> bool {
    exists|i: int| 0 <= i < offer.len() && selector.within(#[trigger] offer[i])
}

/// What `selector` has in common with each of `policy`, in their order.
pub open spec fn narrowed_one(selector: Selector, policy: Seq<Selector>) -> Seq<Selector>
    decreases policy.len(),
{
    if policy.len() == 0 {
        Seq::empty()
    } else {
        let before = narrowed_one(selector, policy.drop_last());
        if selector.overlaps(policy.last()) {
            before.push(selector.common(policy.last()))
        } else {
            before
        }
    }
}

/// What each of `selectors` has in common with each of `policy`.
pub open spec fn narrowed(selectors: Seq<Selector>, policy: Seq<Selector>) -> Seq<Selector>
    decreases selectors.len(),
{
    if selectors.len() == 0 {
        Seq::empty()
    } else {
        narrowed(selectors.drop_last(), policy) + narrowed_one(selectors.last(), policy)
    }
}

/// What is left of `selectors` within `policy`, if anything is.
pub open spec fn narrowed_to(selectors: Seq<Selector>, policy: Seq<Selector>) -> Option<Seq<Selector>> {
    if narrowed(selectors, policy).len() == 0 {
        None
    } else {
        Some(narrowed(selectors, policy))
    }
}

impl TrafficSelectors {
    /// All IPv4 traffic.
    pub fn ipv4_full_tunnel() -> (ts: TrafficSelectors)
        ensures
            ts@ == seq![Selector::ipv4_any()],
    {
        let mut selectors: Vec<TrafficSelector> = Vec::new();
        selectors.push(TrafficSelector::ipv4_any());
        let ts = TrafficSelectors { selectors };
        assert(ts@ =~= seq![Selector::ipv4_any()]);
        ts
    }

    /// All IPv6 traffic.
    pub fn ipv6_full_tunnel() -> (ts: TrafficSelectors)
        ensures
            ts@ == seq![Selector::ipv6_any()],
    {
        let mut selectors: Vec<TrafficSelector> = Vec::new();
        selectors.push(TrafficSelector::ipv6_any());
        let ts = TrafficSelectors { selectors };
        assert(ts@ =~= seq![Selector::ipv6_any()]);
        ts
    }

    /// All traffic of both address families.
    pub fn unified_full_tunnel() -> (ts: TrafficSelectors)
        ensures
            ts@ == seq![Selector::ipv4_any(), Selector::ipv6_any()],
    {
        let mut selectors: Vec<TrafficSelector> = Vec::new();
        selectors.push(TrafficSelector::ipv4_any());
        selectors.push(TrafficSelector::ipv6_any());
        let ts = TrafficSelectors { selectors };
        assert(ts@ =~= seq![Selector::ipv4_any(), Selector::ipv6_any()]);
        ts
    }

    /// Parse the payload body: at least one selector (RFC 7296 §3.13).
    pub fn parse(body: &[u8]) -> (ts: Result<TrafficSelectors, IkeError>)
        ensures
            viewed(ts) == read(body@),
    {
        if body.len() < 4 {
            return Err(IkeError::Truncated { need: 4, have: body.len() });
        }
        let count: u8 = body[0];
        if count == 0 {
            return Err(IkeError::MalformedPayload("TS payload with no Traffic Selector"));
        }
        let mut selectors: Vec<TrafficSelector> = Vec::new();
        let mut rest: &[u8] = bytes::tail(body, 4);
        let ghost all = rest@;
        assert(selected(selectors@) =~= Seq::<Selector>::empty());
        assert(after(selected(selectors@), read_selectors(all, count as nat)) == read_selectors(all, count as nat)) by {
            if let Ok(found) = read_selectors(all, count as nat) {
                assert(selected(selectors@) + found =~= found);
            }
        }
        for i in 0..count
            invariant
                body@.len() >= 4,
                count == body@[0],
                count != 0,
                all == bytes::from(body@, 4),
                after(selected(selectors@), read_selectors(rest@, (count - i) as nat)) == read_selectors(
                    all,
                    count as nat,
                ),
        {
            let ghost done = selected(selectors@);
            let selector = match TrafficSelector::parse(rest) {
                Ok(selector) => selector,
                Err(error) => {
                    return Err(error);
                },
            };
            rest = bytes::tail(rest, bytes::get16(rest, 2) as usize);
            selectors.push(selector);
            proof {
                assert(selected(selectors@) =~= done.push(selector@));
                if let Ok(more) = read_selectors(rest@, (count - i - 1) as nat) {
                    assert(done + (seq![selector@] + more) =~= done.push(selector@) + more);
                }
            }
        }
        if rest.len() != 0 {
            return Err(IkeError::BadLength { declared: 0, available: rest.len() });
        }
        assert(selected(selectors@) + Seq::<Selector>::empty() =~= selected(selectors@));
        Ok(TrafficSelectors { selectors })
    }

    /// Serialize the payload body.
    pub fn to_bytes(&self) -> (out: Vec<u8>)
        ensures
            out@ == octets(self@),
    {
        let mut out: Vec<u8> = Vec::new();
        out.push((self.selectors.len() % 0x100) as u8);
        bytes::push_zeros(&mut out, 3);
        let ghost fixed = out@;
        let ghost all = self@;
        assert(fixed =~= seq![(all.len() % 0x100) as u8, 0u8, 0u8, 0u8]);
        assert(all.skip(0) =~= all);
        for i in 0..self.selectors.len()
            invariant
                all == selected(self.selectors@),
                out@ + selector_octets(all.skip(i as int)) == fixed + selector_octets(all),
        {
            let ghost before = out@;
            self.selectors[i].push_to(&mut out);
            proof {
                let this = all[i as int].octets();
                let others = selector_octets(all.skip(i + 1));
                assert(all.skip(i as int).drop_first() =~= all.skip(i + 1));
                assert(selector_octets(all.skip(i as int)) == this + others);
                assert((before + this) + others =~= before + (this + others));
            }
        }
        assert(all.skip(all.len() as int) =~= Seq::<Selector>::empty());
        assert(out@ =~= octets(self@));
        out
    }

    /// Whether these selectors are a subset of `offer` (RFC 7296 §2.9): each
    /// within one of its.
    pub fn is_within(&self, offer: &TrafficSelectors) -> (within: bool)
        ensures
            within == all_within(self@, offer@),
    {
        for i in 0..self.selectors.len()
            invariant
                forall|j: int| 0 <= j < i ==> within_one(#[trigger] self@[j], offer@),
        {
            let mut found = false;
            for j in 0..offer.selectors.len()
                invariant
                    i < self.selectors@.len(),
                    found == (exists|k: int| 0 <= k < j && self@[i as int].within(#[trigger] offer@[k])),
            {
                assert(self@[i as int] == self.selectors@[i as int]@);
                assert(offer@[j as int] == offer.selectors@[j as int]@);
                if self.selectors[i].is_within(&offer.selectors[j]) {
                    found = true;
                }
            }
            if !found {
                assert(!within_one(self@[i as int], offer@));
                return false;
            }
            assert(within_one(self@[i as int], offer@));
        }
        true
    }

    /// What is left of these selectors within `policy`: what each has in common
    /// with each of its, or nothing. A selector of a type we do not know has
    /// nothing in common with any.
    pub fn narrowed_to(&self, policy: &TrafficSelectors) -> (left: Option<TrafficSelectors>)
        ensures
            viewed_option(left) == narrowed_to(self@, policy@),
    {
        let mut selectors: Vec<TrafficSelector> = Vec::new();
        assert(self@.take(0) =~= Seq::<Selector>::empty());
        assert(selected(selectors@) =~= Seq::<Selector>::empty());
        for i in 0..self.selectors.len()
            invariant
                selected(selectors@) == narrowed(self@.take(i as int), policy@),
        {
            let ghost before = selected(selectors@);
            let ghost this = self@[i as int];
            assert(this == self.selectors@[i as int]@);
            assert(policy@.take(0) =~= Seq::<Selector>::empty());
            assert(before + narrowed_one(this, policy@.take(0)) =~= before);
            for j in 0..policy.selectors.len()
                invariant
                    i < self.selectors@.len(),
                    this == self.selectors@[i as int]@,
                    selected(selectors@) == before + narrowed_one(this, policy@.take(j as int)),
            {
                let ghost kept = selected(selectors@);
                assert(policy@[j as int] == policy.selectors@[j as int]@);
                assert(policy@.take(j + 1).drop_last() =~= policy@.take(j as int));
                assert(policy@.take(j + 1).last() == policy@[j as int]);
                if let Some(common) = self.selectors[i].intersect(&policy.selectors[j]) {
                    selectors.push(common);
                    assert(selected(selectors@) =~= kept.push(common@));
                    assert(selected(selectors@) =~= before + narrowed_one(this, policy@.take(j + 1)));
                }
            }
            proof {
                assert(policy@.take(policy@.len() as int) =~= policy@);
                assert(self@.take(i + 1).drop_last() =~= self@.take(i as int));
                assert(self@.take(i + 1).last() == this);
            }
        }
        assert(self@.take(self@.len() as int) =~= self@);
        if selectors.len() == 0 {
            assert(selected(selectors@).len() == 0);
            return None;
        }
        Some(TrafficSelectors { selectors })
    }
}

proof fn lemma_common_is_within(a: Selector, b: Selector)
    requires
        a.overlaps(b),
    ensures
        a.common(b).within(a),
        a.common(b).within(b),
{
}

proof fn lemma_narrowed_one(selector: Selector, policy: Seq<Selector>)
    ensures
        forall|i: int|
            0 <= i < narrowed_one(selector, policy).len() ==> (#[trigger] narrowed_one(selector, policy)[i]).within(
                selector,
            ) && within_one(narrowed_one(selector, policy)[i], policy),
    decreases policy.len(),
{
    if policy.len() > 0 {
        let before = policy.drop_last();
        lemma_narrowed_one(selector, before);
        let all = narrowed_one(selector, policy);
        assert forall|i: int| 0 <= i < all.len() implies (#[trigger] all[i]).within(selector) && within_one(
            all[i],
            policy,
        ) by {
            if i < narrowed_one(selector, before).len() {
                assert(all[i] == narrowed_one(selector, before)[i]);
                let k = choose|k: int| 0 <= k < before.len() && all[i].within(#[trigger] before[k]);
                assert(policy[k] == before[k]);
            } else {
                lemma_common_is_within(selector, policy.last());
                assert(policy[policy.len() - 1] == policy.last());
            }
        }
    }
}

/// What selectors are narrowed to is never wider than they were, nor than the
/// policy: every selector that is left is within one of either (RFC 7296 §2.9).
pub proof fn law_narrowing_stays_within(selectors: Seq<Selector>, policy: Seq<Selector>)
    ensures
        all_within(narrowed(selectors, policy), selectors),
        all_within(narrowed(selectors, policy), policy),
    decreases selectors.len(),
{
    if selectors.len() > 0 {
        let before = selectors.drop_last();
        law_narrowing_stays_within(before, policy);
        lemma_narrowed_one(selectors.last(), policy);
        let first = narrowed(before, policy);
        let last = narrowed_one(selectors.last(), policy);
        let all = narrowed(selectors, policy);
        assert forall|i: int| 0 <= i < all.len() implies within_one(#[trigger] all[i], selectors) && within_one(
            all[i],
            policy,
        ) by {
            if i < first.len() {
                assert(all[i] == first[i]);
                let k = choose|k: int| 0 <= k < before.len() && all[i].within(#[trigger] before[k]);
                assert(selectors[k] == before[k]);
            } else {
                assert(all[i] == last[i - first.len()]);
                assert(selectors[selectors.len() - 1] == selectors.last());
            }
        }
    }
}

/// One selector and the others behind it are read one after the other.
proof fn lemma_selectors_step(wire: Seq<u8>, first: Selector, rest: Seq<u8>, others: Seq<Selector>)
    requires
        Selector::read(wire) == Ok::<Selector, Failure>(first),
        bytes::from(wire, bytes::at16(wire, 2) as int) == rest,
        read_selectors(rest, others.len()) == Ok::<Seq<Selector>, Failure>(others),
    ensures
        read_selectors(wire, others.len() + 1) == Ok::<Seq<Selector>, Failure>(seq![first] + others),
{
}

proof fn lemma_selectors_round_trip(selectors: Seq<Selector>)
    requires
        forall|i: int| 0 <= i < selectors.len() ==> (#[trigger] selectors[i]).encodable(),
    ensures
        read_selectors(selector_octets(selectors), selectors.len()) == Ok::<Seq<Selector>, Failure>(selectors),
    decreases selectors.len(),
{
    if selectors.len() == 0 {
        assert(selectors =~= Seq::<Selector>::empty());
    } else {
        let others = selectors.drop_first();
        assert forall|i: int| 0 <= i < others.len() implies (#[trigger] others[i]).encodable() by {
            assert(others[i] == selectors[i + 1]);
        }
        lemma_selectors_round_trip(others);
        lemma_selector_round_trip(selectors[0], selector_octets(others));
        lemma_selectors_step(selector_octets(selectors), selectors[0], selector_octets(others), others);
        assert(seq![selectors[0]] + others =~= selectors);
    }
}

proof fn lemma_selector_round_trip(selector: Selector, rest: Seq<u8>)
    requires
        selector.encodable(),
    ensures
        Selector::read(selector.octets() + rest) == Ok::<Selector, Failure>(selector),
        bytes::from(selector.octets() + rest, bytes::at16(selector.octets() + rest, 2) as int) == rest,
{
    let wire = selector.octets() + rest;
    let length = message::field16(8 + selector.start_addr.len() + selector.end_addr.len());
    assert(wire.subrange(2, 4) =~= bytes::be16(length));
    bytes::lemma_at16_be16(wire, 2, length);
    assert(wire.subrange(4, 6) =~= bytes::be16(selector.start_port));
    bytes::lemma_at16_be16(wire, 4, selector.start_port);
    assert(wire.subrange(6, 8) =~= bytes::be16(selector.end_port));
    bytes::lemma_at16_be16(wire, 6, selector.end_port);
    let middle = 8 + selector.start_addr.len();
    assert(wire.subrange(8, middle as int) =~= selector.start_addr);
    assert(wire.subrange(middle as int, length as int) =~= selector.end_addr);
    assert(bytes::from(wire, length as int) =~= rest);
    assert(wire[0] == selector.ts_type && wire[1] == selector.protocol);
}

/// Reading the wire form of traffic selectors gives them back, when there are
/// any and no more than can be counted.
pub proof fn law_selectors_round_trip(selectors: Seq<Selector>)
    requires
        0 < selectors.len() < 0x100,
        forall|i: int| 0 <= i < selectors.len() ==> (#[trigger] selectors[i]).encodable(),
    ensures
        read(octets(selectors)) == Ok::<Seq<Selector>, Failure>(selectors),
{
    lemma_selectors_round_trip(selectors);
    lemma_body(selectors);
    lemma_read(octets(selectors), selector_octets(selectors), selectors);
}

/// A body is read as the selectors behind its count.
proof fn lemma_read(body: Seq<u8>, written: Seq<u8>, selectors: Seq<Selector>)
    requires
        body.len() >= 4,
        body[0] == selectors.len(),
        0 < selectors.len() < 0x100,
        bytes::from(body, 4) == written,
        read_selectors(written, selectors.len()) == Ok::<Seq<Selector>, Failure>(selectors),
    ensures
        read(body) == Ok::<Seq<Selector>, Failure>(selectors),
{
}

proof fn lemma_body(selectors: Seq<Selector>)
    requires
        selectors.len() < 0x100,
    ensures
        bytes::from(octets(selectors), 4) == selector_octets(selectors),
        octets(selectors).len() >= 4,
        octets(selectors)[0] == selectors.len(),
{
    assert(bytes::from(octets(selectors), 4) =~= selector_octets(selectors));
}

} // verus!
