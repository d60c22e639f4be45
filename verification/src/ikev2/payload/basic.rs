//! The Key Exchange, Nonce, Notify and Delete payloads (RFC 7296 §3.4, §3.9 to §3.11).

use vstd::prelude::*;

use crate::bytes;
use crate::crypto::PrfAlgorithm;
use crate::error::{viewed, Failure, IkeError};
use crate::ikev2::payload::protocol_id;

verus! {

broadcast use crate::bytes::group_lengths;

/// A Key Exchange payload: a group, and a public value in it.
#[derive(Debug, Clone, PartialEq, Eq)]
pub struct KeyExchange {
    pub dh_group: u16,
    pub data: Vec<u8>,
}

/// A [`KeyExchange`] as a value of the specification.
#[verifier::ext_equal]
pub struct Exchanged {
    pub dh_group: u16,
    pub data: Seq<u8>,
}

impl View for KeyExchange {
    type V = Exchanged;

    open spec fn view(&self) -> Exchanged {
        Exchanged { dh_group: self.dh_group, data: self.data@ }
    }
}

impl Exchanged {
    /// The payload body on the wire.
    pub open spec fn octets(self) -> Seq<u8> {
        bytes::be16(self.dh_group) + seq![0u8, 0u8] + self.data
    }

    /// The payload `body` holds.
    pub open spec fn read(body: Seq<u8>) -> Result<Exchanged, Failure> {
        if body.len() < 4 {
            Err(Failure::Truncated { need: 4, have: body.len() })
        } else {
            Ok(Exchanged { dh_group: bytes::at16(body, 0), data: bytes::from(body, 4) })
        }
    }
}

impl KeyExchange {
    /// Parse the payload body.
    pub fn parse(body: &[u8]) -> (ke: Result<KeyExchange, IkeError>)
        ensures
            viewed(ke) == Exchanged::read(body@),
    {
        if body.len() < 4 {
            return Err(IkeError::Truncated { need: 4, have: body.len() });
        }
        Ok(KeyExchange { dh_group: bytes::get16(body, 0), data: bytes::copy(bytes::tail(body, 4)) })
    }

    /// Serialize the payload body.
    pub fn to_bytes(&self) -> (out: Vec<u8>)
        ensures
            out@ == self@.octets(),
    {
        let mut out: Vec<u8> = Vec::new();
        bytes::push16(&mut out, self.dh_group);
        out.push(0);
        out.push(0);
        bytes::push_all(&mut out, &self.data);
        assert(out@ =~= self@.octets());
        out
    }
}

/// Reading the wire form of a Key Exchange gives it back.
pub proof fn law_key_exchange_round_trip(ke: Exchanged)
    ensures
        Exchanged::read(ke.octets()) == Ok::<Exchanged, Failure>(ke),
{
    let wire = ke.octets();
    assert(wire.subrange(0, 2) =~= bytes::be16(ke.dh_group));
    bytes::lemma_at16_be16(wire, 0, ke.dh_group);
    assert(bytes::from(wire, 4) =~= ke.data);
}

/// A Nonce payload.
#[derive(Debug, Clone, PartialEq, Eq)]
pub struct Nonce {
    pub data: Vec<u8>,
}

impl View for Nonce {
    type V = Seq<u8>;

    open spec fn view(&self) -> Seq<u8> {
        self.data@
    }
}

/// The nonce `body` holds: 16 to 256 octets (RFC 7296 §3.9).
pub open spec fn read_nonce(body: Seq<u8>) -> Result<Seq<u8>, Failure> {
    if 16 <= body.len() <= 256 {
        Ok(body)
    } else {
        Err(Failure::Crypto("nonce length out of range (16-256 bytes)"@))
    }
}

/// The nonce `body` holds, at least half as long as the key of the PRF it goes
/// into (RFC 7296 §2.10).
pub open spec fn read_nonce_for_prf(body: Seq<u8>, algo: PrfAlgorithm) -> Result<Seq<u8>, Failure> {
    match read_nonce(body) {
        Err(failure) => Err(failure),
        Ok(nonce) => if nonce.len() * 2 < algo.size() {
            Err(Failure::Crypto("nonce shorter than half the negotiated PRF's key"@))
        } else {
            Ok(nonce)
        },
    }
}

impl Nonce {
    /// Parse the payload body: 16 to 256 octets (RFC 7296 §3.9).
    pub fn parse(body: &[u8]) -> (nonce: Result<Nonce, IkeError>)
        ensures
            viewed(nonce) == read_nonce(body@),
    {
        if body.len() < 16 || body.len() > 256 {
            return Err(IkeError::Crypto("nonce length out of range (16-256 bytes)"));
        }
        Ok(Nonce { data: bytes::copy(body) })
    }

    /// [`parse`](Self::parse), once the PRF the nonce goes into is known: a
    /// nonce must be at least half the key size of that PRF (RFC 7296 §2.10).
    pub fn parse_for_prf(body: &[u8], algo: PrfAlgorithm) -> (nonce: Result<Nonce, IkeError>)
        ensures
            viewed(nonce) == read_nonce_for_prf(body@, algo),
    {
        match Nonce::parse(body) {
            Err(error) => Err(error),
            Ok(nonce) => {
                if nonce.data.len() * 2 < algo.output_len() {
                    return Err(IkeError::Crypto("nonce shorter than half the negotiated PRF's key"));
                }
                Ok(nonce)
            },
        }
    }

    /// Serialize the payload body.
    pub fn to_bytes(&self) -> (out: Vec<u8>)
        ensures
            out@ == self@,
    {
        bytes::copy(&self.data)
    }
}

/// A Notify payload: an error or a status, about an SA when it names one.
#[derive(Debug, Clone, PartialEq, Eq)]
pub struct Notify {
    pub protocol_id: u8,
    pub spi: Vec<u8>,
    pub notify_type: u16,
    pub data: Vec<u8>,
}

/// A [`Notify`] as a value of the specification.
#[verifier::ext_equal]
pub struct Notice {
    pub protocol_id: u8,
    pub spi: Seq<u8>,
    pub notify_type: u16,
    pub data: Seq<u8>,
}

impl View for Notify {
    type V = Notice;

    open spec fn view(&self) -> Notice {
        Notice {
            protocol_id: self.protocol_id,
            spi: self.spi@,
            notify_type: self.notify_type,
            data: self.data@,
        }
    }
}

impl Notice {
    /// A notify of this type about no SA in particular.
    pub open spec fn status(notify_type: u16, data: Seq<u8>) -> Notice {
        Notice { protocol_id: 0, spi: Seq::empty(), notify_type, data }
    }

    /// The payload body on the wire.
    pub open spec fn octets(self) -> Seq<u8> {
        seq![self.protocol_id, (self.spi.len() % 0x100) as u8] + bytes::be16(self.notify_type) + self.spi
            + self.data
    }

    /// The payload `body` holds.
    pub open spec fn read(body: Seq<u8>) -> Result<Notice, Failure> {
        if body.len() < 4 {
            Err(Failure::Truncated { need: 4, have: body.len() })
        } else if body.len() < 4 + body[1] {
            Err(Failure::Truncated { need: (4 + body[1]) as nat, have: body.len() })
        } else {
            Ok(
                Notice {
                    protocol_id: body[0],
                    spi: body.subrange(4, 4 + body[1]),
                    notify_type: bytes::at16(body, 2),
                    data: bytes::from(body, 4 + body[1]),
                },
            )
        }
    }

    /// Whether this is an error type rather than a status (RFC 7296 §3.10.1).
    pub open spec fn error(self) -> bool {
        self.notify_type < 16384
    }
}

impl Notify {
    /// A notify of this type about no SA in particular.
    pub fn status(notify_type: u16, data: Vec<u8>) -> (notify: Notify)
        ensures
            notify@ == Notice::status(notify_type, data@),
    {
        let notify = Notify { protocol_id: 0, spi: Vec::new(), notify_type, data };
        assert(notify@ =~= Notice::status(notify_type, data@));
        notify
    }

    /// Parse the payload body.
    pub fn parse(body: &[u8]) -> (notify: Result<Notify, IkeError>)
        ensures
            viewed(notify) == Notice::read(body@),
    {
        if body.len() < 4 {
            return Err(IkeError::Truncated { need: 4, have: body.len() });
        }
        let spi_end: usize = 4 + body[1] as usize;
        if body.len() < spi_end {
            return Err(IkeError::Truncated { need: spi_end, have: body.len() });
        }
        Ok(
            Notify {
                protocol_id: body[0],
                spi: bytes::copy(bytes::range(body, 4, spi_end)),
                notify_type: bytes::get16(body, 2),
                data: bytes::copy(bytes::tail(body, spi_end)),
            },
        )
    }

    /// Serialize the payload body.
    pub fn to_bytes(&self) -> (out: Vec<u8>)
        ensures
            out@ == self@.octets(),
    {
        let mut out: Vec<u8> = Vec::new();
        out.push(self.protocol_id);
        out.push((self.spi.len() % 0x100) as u8);
        bytes::push16(&mut out, self.notify_type);
        bytes::push_all(&mut out, &self.spi);
        bytes::push_all(&mut out, &self.data);
        assert(out@ =~= self@.octets());
        out
    }

    /// Whether this is an error type rather than a status (RFC 7296 §3.10.1).
    pub fn is_error(&self) -> (error: bool)
        ensures
            error == self@.error(),
    {
        self.notify_type < 16384
    }
}

/// Reading the wire form of a Notify gives it back, when its SPI fits its length field.
pub proof fn law_notify_round_trip(notify: Notice)
    requires
        notify.spi.len() < 0x100,
    ensures
        Notice::read(notify.octets()) == Ok::<Notice, Failure>(notify),
{
    let wire = notify.octets();
    assert(wire.subrange(2, 4) =~= bytes::be16(notify.notify_type));
    bytes::lemma_at16_be16(wire, 2, notify.notify_type);
    assert(wire[0] == notify.protocol_id && wire[1] == notify.spi.len());
    assert(wire.subrange(4, 4 + wire[1]) =~= notify.spi);
    assert(bytes::from(wire, 4 + wire[1]) =~= notify.data);
}

/// A Delete payload: the SPIs the sender no longer receives on.
#[derive(Debug, Clone, PartialEq, Eq)]
pub struct Delete {
    pub protocol_id: u8,
    /// The SPIs of the deleted AH or ESP SAs; none for the IKE SA itself.
    pub spis: Vec<u32>,
}

/// A [`Delete`] as a value of the specification.
#[verifier::ext_equal]
pub struct Deleted {
    pub protocol_id: u8,
    pub spis: Seq<u32>,
}

impl View for Delete {
    type V = Deleted;

    open spec fn view(&self) -> Deleted {
        Deleted { protocol_id: self.protocol_id, spis: self.spis@ }
    }
}

/// SPIs on the wire.
pub open spec fn spi_octets(spis: Seq<u32>) -> Seq<u8>
    decreases spis.len(),
{
    if spis.len() == 0 {
        Seq::empty()
    } else {
        spi_octets(spis.drop_last()) + bytes::be32(spis.last())
    }
}

/// The `count` SPIs from offset 4 of `body` on.
pub open spec fn read_spis(body: Seq<u8>, count: nat) -> Seq<u32> {
    Seq::new(count, |i: int| bytes::at32(body, 4 + 4 * i))
}

impl Deleted {
    /// The payload body on the wire: the IKE SA goes without an SPI, another SA
    /// by its 4-octet one.
    pub open spec fn octets(self) -> Seq<u8> {
        seq![self.protocol_id, if self.protocol_id == protocol_id::IKE { 0u8 } else { 4u8 }]
            + bytes::be16(crate::ikev2::message::field16(self.spis.len())) + spi_octets(self.spis)
    }

    /// The payload `body` holds.
    pub open spec fn read(body: Seq<u8>) -> Result<Deleted, Failure> {
        if body.len() < 4 {
            Err(Failure::Truncated { need: 4, have: body.len() })
        } else {
            let count = bytes::at16(body, 2) as nat;
            if body[0] == protocol_id::IKE {
                if body[1] != 0 || count != 0 || body.len() != 4 {
                    Err(Failure::Crypto("a Delete of the IKE SA carries no SPI"@))
                } else {
                    Ok(Deleted { protocol_id: body[0], spis: Seq::empty() })
                }
            } else if body[1] != 4 {
                Err(Failure::Crypto("a Delete of an AH or ESP SA carries 4-byte SPIs"@))
            } else if body.len() != 4 + 4 * count {
                Err(Failure::BadLength { declared: 4 + 4 * count, available: body.len() })
            } else {
                Ok(Deleted { protocol_id: body[0], spis: read_spis(body, count) })
            }
        }
    }
}

impl Delete {
    /// A Delete of the IKE SA.
    pub fn ike() -> (delete: Delete)
        ensures
            delete@ == (Deleted { protocol_id: protocol_id::IKE, spis: Seq::empty() }),
    {
        let delete = Delete { protocol_id: protocol_id::IKE, spis: Vec::new() };
        assert(delete@ =~= Deleted { protocol_id: protocol_id::IKE, spis: Seq::empty() });
        delete
    }

    /// A Delete of the ESP SAs with these SPIs.
    pub fn esp(spis: Vec<u32>) -> (delete: Delete)
        ensures
            delete@ == (Deleted { protocol_id: protocol_id::ESP, spis: spis@ }),
    {
        Delete { protocol_id: protocol_id::ESP, spis }
    }

    /// Parse the payload body.
    pub fn parse(body: &[u8]) -> (delete: Result<Delete, IkeError>)
        ensures
            viewed(delete) == Deleted::read(body@),
    {
        if body.len() < 4 {
            return Err(IkeError::Truncated { need: 4, have: body.len() });
        }
        let count: usize = bytes::get16(body, 2) as usize;
        if body[0] == protocol_id::IKE {
            if body[1] != 0 || count != 0 || body.len() != 4 {
                return Err(IkeError::Crypto("a Delete of the IKE SA carries no SPI"));
            }
            let delete = Delete { protocol_id: body[0], spis: Vec::new() };
            assert(delete@ =~= Deleted { protocol_id: body@[0], spis: Seq::empty() });
            return Ok(delete);
        }
        if body[1] != 4 {
            return Err(IkeError::Crypto("a Delete of an AH or ESP SA carries 4-byte SPIs"));
        }
        if body.len() != 4 + 4 * count {
            return Err(IkeError::BadLength { declared: 4 + 4 * count, available: body.len() });
        }
        let mut spis: Vec<u32> = Vec::new();
        for i in 0..count
            invariant
                body.len() == 4 + 4 * count,
                count < 0x1_0000,
                spis@ == read_spis(body@, i as nat),
        {
            spis.push(bytes::get32(body, 4 + 4 * i));
            assert(spis@ =~= read_spis(body@, (i + 1) as nat));
        }
        Ok(Delete { protocol_id: body[0], spis })
    }

    /// Serialize the payload body.
    pub fn to_bytes(&self) -> (out: Vec<u8>)
        ensures
            out@ == self@.octets(),
    {
        let mut out: Vec<u8> = Vec::new();
        out.push(self.protocol_id);
        out.push(if self.protocol_id == protocol_id::IKE { 0u8 } else { 4u8 });
        bytes::push16(&mut out, (self.spis.len() % 0x1_0000) as u16);
        let ghost fixed = out@;
        assert(self.spis@.take(0) =~= Seq::<u32>::empty());
        assert(fixed + Seq::<u8>::empty() =~= fixed);
        for i in 0..self.spis.len()
            invariant
                out@ == fixed + spi_octets(self.spis@.take(i as int)),
        {
            bytes::push32(&mut out, self.spis[i]);
            proof {
                let taken = self.spis@.take(i + 1);
                assert(taken.drop_last() =~= self.spis@.take(i as int));
                assert(taken.last() == self.spis@[i as int]);
                let before = spi_octets(self.spis@.take(i as int));
                let this = bytes::be32(self.spis@[i as int]);
                assert((fixed + before) + this =~= fixed + (before + this));
            }
        }
        assert(self.spis@.take(self.spis@.len() as int) =~= self.spis@);
        assert(out@ =~= self@.octets());
        out
    }
}

proof fn lemma_spis_round_trip(spis: Seq<u32>, before: Seq<u8>, after: Seq<u8>)
    requires
        before.len() == 4,
    ensures
        spi_octets(spis).len() == 4 * spis.len(),
        read_spis(before + spi_octets(spis) + after, spis.len()) == spis,
    decreases spis.len(),
{
    if spis.len() > 0 {
        let last = bytes::be32(spis.last());
        lemma_spis_round_trip(spis.drop_last(), before, last + after);
        let wire = before + spi_octets(spis) + after;
        assert(wire =~= before + spi_octets(spis.drop_last()) + (last + after));
        let at = 4 + 4 * (spis.len() - 1);
        assert(wire.subrange(at, at + 4) =~= last);
        bytes::lemma_at32_be32(wire, at, spis.last());
        assert forall|i: int| 0 <= i < spis.len() implies read_spis(wire, spis.len())[i] == spis[i] by {
            if i < spis.len() - 1 {
                assert(read_spis(wire, (spis.len() - 1) as nat)[i] == spis.drop_last()[i]);
            }
        }
        assert(read_spis(wire, spis.len()) =~= spis);
    } else {
        assert(read_spis(before + spi_octets(spis) + after, 0) =~= spis);
    }
}

/// Reading the wire form of a Delete gives it back: one of the IKE SA without
/// SPIs, or one of AH or ESP SAs with no more SPIs than can be counted.
pub proof fn law_delete_round_trip(delete: Deleted)
    requires
        delete.protocol_id == protocol_id::IKE ==> delete.spis.len() == 0,
        delete.spis.len() < 0x1_0000,
    ensures
        Deleted::read(delete.octets()) == Ok::<Deleted, Failure>(delete),
{
    let wire = delete.octets();
    let fixed = seq![
        delete.protocol_id,
        if delete.protocol_id == protocol_id::IKE {
            0u8
        } else {
            4u8
        },
    ] + bytes::be16(crate::ikev2::message::field16(delete.spis.len()));
    lemma_spis_round_trip(delete.spis, fixed, Seq::empty());
    assert(wire =~= fixed + spi_octets(delete.spis) + Seq::<u8>::empty());
    assert(wire.subrange(2, 4) =~= bytes::be16(delete.spis.len() as u16));
    bytes::lemma_at16_be16(wire, 2, delete.spis.len() as u16);
    if delete.protocol_id == protocol_id::IKE {
        assert(delete.spis =~= Seq::<u32>::empty());
    }
}

} // verus!
