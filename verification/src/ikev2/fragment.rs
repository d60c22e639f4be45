//! IKE message fragmentation (RFC 7383), cipher-agile.
//!
//! A too-large encrypted message is sent as several IKE messages, each carrying
//! one **SKF** (Encrypted and Authenticated Fragment) payload instead of `SK`.
//! Each fragment is independently sealed under the negotiated [`SkCipher`] --
//! AEAD (AES-GCM, ChaCha20-Poly1305) or classic (AES-CBC or 3DES-CBC with a
//! separate integrity key), the same two framings [`crate::ikev2::sk`] uses for
//! the plain SK payload, with the fragment header (Fragment Number and Total
//! Fragments) folded into what each framing authenticates.

use std::collections::BTreeMap;

use vstd::prelude::*;
use vstd::string::StringExecFns;

use crate::addr::IpAddress;
use crate::bytes;
use crate::error::{viewed, Failure, IkeError};
use crate::ikev2::message;
use crate::ikev2::message::{ExchangeType, IkeHeader, PayloadType};
use crate::ikev2::sk;
use crate::ikev2::sk::SkCipher;
use crate::text;

verus! {

broadcast use {crate::bytes::group_lengths, crate::ikev2::message::lemma_header_len};

/// `inner` cut into chunks of `per` octets, the last one with what is left; a
/// single chunk when `inner` fits one.
pub open spec fn chunks(inner: Seq<u8>, per: nat) -> Seq<Seq<u8>>
    decreases inner.len(),
{
    if per == 0 || inner.len() <= per {
        seq![inner]
    } else {
        seq![inner.take(per as int)] + chunks(inner.skip(per as int), per)
    }
}

/// Fragment Number and Total Fragments on the wire.
pub open spec fn numbers(number: u16, total: u16) -> Seq<u8> {
    bytes::be16(number) + bytes::be16(total)
}

/// The IV seed of the fragment with this number.
pub open spec fn fragment_iv(iv_base: u64, number: u16) -> Seq<u8> {
    bytes::be64(((iv_base + number) % 0x1_0000_0000_0000_0000) as u64)
}

/// One fragment as it goes on the wire. The first one alone records the type of
/// the first inner payload.
pub open spec fn fragment_wire(
    cipher: SkCipher,
    header: IkeHeader,
    first_inner: PayloadType,
    number: u16,
    total: u16,
    chunk: Seq<u8>,
    sk_e: Seq<u8>,
    sk_a: Seq<u8>,
    iv_base: u64,
) -> Seq<u8> {
    sk::sealed_message(
        cipher,
        header,
        PayloadType::EncryptedFragment,
        if number == 1 {
            first_inner.octet()
        } else {
            0
        },
        numbers(number, total),
        sk_e,
        sk_a,
        fragment_iv(iv_base, number),
        chunk,
    )
}

/// All the fragments of `inner`, in order.
#[verifier::opaque]
pub open spec fn fragments(
    cipher: SkCipher,
    header: IkeHeader,
    first_inner: PayloadType,
    inner: Seq<u8>,
    sk_e: Seq<u8>,
    sk_a: Seq<u8>,
    iv_base: u64,
    per: nat,
) -> Seq<Seq<u8>> {
    let cut = chunks(inner, per);
    Seq::new(
        cut.len(),
        |i: int|
            fragment_wire(
                cipher,
                header,
                first_inner,
                message::field16((i + 1) as nat),
                message::field16(cut.len()),
                cut[i],
                sk_e,
                sk_a,
                iv_base,
            ),
    )
}

/// Several slices, each taken by its contents.
pub open spec fn slices(parts: Seq<&[u8]>) -> Seq<Seq<u8>> {
    parts.map_values(|s: &[u8]| s@)
}

proof fn lemma_chunks(inner: Seq<u8>, per: nat)
    requires
        per > 0,
    ensures
        chunks(inner, per).len() >= 1,
        chunks(inner, per)[0].len() == if inner.len() <= per {
            inner.len()
        } else {
            per
        },
        forall|i: int|
            0 <= i < chunks(inner, per).len() ==> (#[trigger] chunks(inner, per)[i]).len() <= chunks(
                inner,
                per,
            )[0].len(),
    decreases inner.len(),
{
    if inner.len() > per {
        let rest = inner.skip(per as int);
        lemma_chunks(rest, per);
        assert forall|i: int| 0 <= i < chunks(inner, per).len() implies (#[trigger] chunks(inner, per)[i]).len()
            <= per by {
            if i > 0 {
                assert(chunks(inner, per)[i] == chunks(rest, per)[i - 1]);
            }
        }
    }
}

proof fn lemma_joined_prepend(first: Seq<u8>, strings: Seq<Seq<u8>>)
    ensures
        bytes::joined(seq![first] + strings) == first + bytes::joined(strings),
    decreases strings.len(),
{
    let all = seq![first] + strings;
    reveal_with_fuel(bytes::joined, 2);
    if strings.len() == 0 {
        assert(all.drop_last() =~= Seq::<Seq<u8>>::empty());
        assert(bytes::joined(all) =~= first + bytes::joined(strings));
    } else {
        lemma_joined_prepend(first, strings.drop_last());
        assert(all.drop_last() =~= seq![first] + strings.drop_last());
        assert(all.last() == strings.last());
        assert(bytes::joined(all) =~= first + bytes::joined(strings));
    }
}

/// The chunks joined are what was cut.
pub proof fn law_chunks_join(inner: Seq<u8>, per: nat)
    ensures
        bytes::joined(chunks(inner, per)) == inner,
    decreases inner.len(),
{
    if per == 0 || inner.len() <= per {
        reveal_with_fuel(bytes::joined, 2);
        assert(seq![inner].drop_last() =~= Seq::<Seq<u8>>::empty());
        assert(bytes::joined(seq![inner]) =~= inner);
    } else {
        law_chunks_join(inner.skip(per as int), per);
        lemma_joined_prepend(inner.take(per as int), chunks(inner.skip(per as int), per));
        assert(inner.take(per as int) + inner.skip(per as int) =~= inner);
    }
}

/// Cut `inner` into chunks of `per` octets.
fn cut<'a>(inner: &'a [u8], per: usize) -> (out: Vec<&'a [u8]>)
    requires
        per > 0,
    ensures
        slices(out@) == chunks(inner@, per as nat),
{
    let mut out: Vec<&'a [u8]> = Vec::new();
    let mut rest: &'a [u8] = inner;
    assert(slices(out@) + chunks(rest@, per as nat) =~= chunks(inner@, per as nat));
    while rest.len() > per
        invariant
            per > 0,
            slices(out@) + chunks(rest@, per as nat) == chunks(inner@, per as nat),
        decreases rest@.len(),
    {
        let ghost before = slices(out@);
        let ghost left = rest@;
        let chunk: &'a [u8] = bytes::range(rest, 0, per);
        rest = bytes::tail(rest, per);
        out.push(chunk);
        proof {
            assert(chunk@ =~= left.take(per as int));
            assert(rest@ =~= left.skip(per as int));
            let others = chunks(rest@, per as nat);
            assert(slices(out@) =~= before + seq![chunk@]);
            assert((before + seq![chunk@]) + others =~= before + (seq![chunk@] + others));
        }
    }
    let ghost before = slices(out@);
    out.push(rest);
    assert(slices(out@) =~= before + seq![rest@]);
    out
}

/// Split a full inner-payload octet string into SKF-payload IKE messages,
/// sealed under `cipher`. `header` supplies the SPIs, exchange type and message
/// id (its `next_payload` and `length` are set per fragment). `first_inner` is
/// the type of the first inner payload (recorded only in fragment 1). `sk_e`
/// (and, for a classic cipher, `sk_a`) are the key material for our direction.
/// `iv_base` seeds a unique per-fragment IV (the caller ensures global
/// uniqueness under the key). `content_per_fragment` is the most plaintext
/// octets per fragment.
pub fn build_fragments(
    cipher: SkCipher,
    header: &IkeHeader,
    first_inner: PayloadType,
    inner: &[u8],
    sk_e: &[u8],
    sk_a: &[u8],
    iv_base: u64,
    content_per_fragment: usize,
) -> (out: Result<Vec<Vec<u8>>, IkeError>)
    ensures
        match out {
            Ok(list) => {
                let cut = chunks(inner@, content_per_fragment as nat);
                &&& content_per_fragment > 0
                &&& sk::seal_failure(cipher, sk_e@, cut[0]) is None
                &&& bytes::contents(list@) == fragments(
                    cipher,
                    *header,
                    first_inner,
                    inner@,
                    sk_e@,
                    sk_a@,
                    iv_base,
                    content_per_fragment as nat,
                )
                &&& list@.len() == cut.len()
                &&& forall|i: int|
                    0 <= i < list@.len() ==> (#[trigger] list@[i])@.len() == 36 + sk::protected_size(
                        cipher,
                        cut[i].len(),
                    )
            },
            Err(error) => if content_per_fragment == 0 {
                error@ == Failure::Crypto("fragment content size must be > 0"@)
            } else {
                sk::seal_failure(cipher, sk_e@, chunks(inner@, content_per_fragment as nat)[0]) == Some(
                    error@,
                )
            },
        },
{
    if content_per_fragment == 0 {
        return Err(IkeError::Crypto("fragment content size must be > 0"));
    }
    let parts = cut(inner, content_per_fragment);
    let total: u16 = message::length16(parts.len(), 0);
    let ghost pieces = chunks(inner@, content_per_fragment as nat);
    proof {
        lemma_chunks(inner@, content_per_fragment as nat);
    }
    let mut out: Vec<Vec<u8>> = Vec::new();
    for i in 0..parts.len()
        invariant
            pieces == chunks(inner@, content_per_fragment as nat),
            content_per_fragment > 0,
            slices(parts@) == pieces,
            total == message::field16(pieces.len()),
            out@.len() == i,
            i > 0 ==> sk::seal_failure(cipher, sk_e@, pieces[0]) is None,
            forall|j: int|
                0 <= j < pieces.len() ==> (#[trigger] pieces[j]).len() <= pieces[0].len(),
            forall|j: int|
                0 <= j < i ==> {
                    &&& (#[trigger] out@[j])@ == fragment_wire(
                        cipher,
                        *header,
                        first_inner,
                        message::field16((j + 1) as nat),
                        total,
                        pieces[j],
                        sk_e@,
                        sk_a@,
                        iv_base,
                    )
                    &&& out@[j]@.len() == 36 + sk::protected_size(cipher, pieces[j].len())
                },
    {
        let chunk: &[u8] = parts[i];
        assert(chunk@ == slices(parts@)[i as int]);
        let number: u16 = message::length16(i, 1);
        let sealed = seal_fragment(cipher, header, first_inner, number, total, chunk, sk_e, sk_a, iv_base);
        match sealed {
            Ok(wire) => out.push(wire),
            Err(error) => {
                proof {
                    sk::lemma_padded_grows(cipher, chunk@, pieces[0]);
                }
                return Err(error);
            },
        }
    }
    proof {
        reveal(fragments);
        assert(bytes::contents(out@) =~= fragments(
            cipher,
            *header,
            first_inner,
            inner@,
            sk_e@,
            sk_a@,
            iv_base,
            content_per_fragment as nat,
        ));
    }
    Ok(out)
}

fn seal_fragment(
    cipher: SkCipher,
    header: &IkeHeader,
    first_inner: PayloadType,
    number: u16,
    total: u16,
    chunk: &[u8],
    sk_e: &[u8],
    sk_a: &[u8],
    iv_base: u64,
) -> (out: Result<Vec<u8>, IkeError>)
    ensures
        match out {
            Ok(wire) => {
                &&& sk::seal_failure(cipher, sk_e@, chunk@) is None
                &&& wire@ == fragment_wire(
                    cipher,
                    *header,
                    first_inner,
                    number,
                    total,
                    chunk@,
                    sk_e@,
                    sk_a@,
                    iv_base,
                )
                &&& wire@.len() == 36 + sk::protected_size(cipher, chunk@.len())
            },
            Err(error) => sk::seal_failure(cipher, sk_e@, chunk@) == Some(error@),
        },
{
    let mut extra: Vec<u8> = Vec::new();
    bytes::push16(&mut extra, number);
    bytes::push16(&mut extra, total);
    assert(extra@ =~= numbers(number, total));
    let mut iv: Vec<u8> = Vec::new();
    bytes::push64(&mut iv, iv_base.wrapping_add(number as u64));
    let seed = bytes::array8(&iv, 0);
    assert(seed@ =~= fragment_iv(iv_base, number));
    let first: u8 = if number == 1 {
        first_inner.to_u8()
    } else {
        0
    };
    sk::seal_message(cipher, header, PayloadType::EncryptedFragment, first, &extra, sk_e, sk_a, &seed, chunk)
}

/// One opened fragment.
struct Fragment {
    frag_num: u16,
    total: u16,
    next_payload: u8,
    content: Vec<u8>,
}

/// An opened fragment as a value of the specification.
#[verifier::ext_equal]
pub struct Piece {
    pub number: u16,
    pub total: u16,
    pub next_payload: u8,
    pub content: Seq<u8>,
}

impl View for Fragment {
    type V = Piece;

    closed spec fn view(&self) -> Piece {
        Piece {
            number: self.frag_num,
            total: self.total,
            next_payload: self.next_payload,
            content: self.content@,
        }
    }
}

/// What the fragment `wire` holds, or why it does not open.
pub open spec fn opened(cipher: SkCipher, wire: Seq<u8>, sk_e: Seq<u8>, sk_a: Seq<u8>) -> Result<Piece, Failure> {
    match sk::opened_message(cipher, wire, PayloadType::EncryptedFragment, "SKF"@, 4, sk_e, sk_a) {
        Err(failure) => Err(failure),
        Ok(plaintext) => match sk::stripped(plaintext, "empty fragment"@, "pad length exceeds fragment"@) {
            Err(failure) => Err(failure),
            Ok(content) => Ok(
                Piece {
                    number: bytes::at16(wire, 32),
                    total: bytes::at16(wire, 34),
                    next_payload: wire[28],
                    content,
                },
            ),
        },
    }
}

/// Whether fragments of `header` can be told apart from their wire form under
/// these keys: every length fits its field.
pub open spec fn cuttable(
    cipher: SkCipher,
    header: IkeHeader,
    first_inner: PayloadType,
    sk_e: Seq<u8>,
    len: nat,
) -> bool {
    &&& header.carrying(PayloadType::EncryptedFragment).canonical()
    &&& first_inner.canonical()
    &&& sk::sealable(cipher, sk_e, 4, len)
}

/// The piece a fragment of these is.
pub open spec fn piece(first_inner: PayloadType, number: u16, total: u16, chunk: Seq<u8>) -> Piece {
    Piece {
        number,
        total,
        next_payload: if number == 1 {
            first_inner.octet()
        } else {
            0
        },
        content: chunk,
    }
}

/// What the unencrypted front of a fragment reads as.
proof fn lemma_fragment_front(
    cipher: SkCipher,
    header: IkeHeader,
    first_inner: PayloadType,
    number: u16,
    total: u16,
    chunk: Seq<u8>,
    sk_e: Seq<u8>,
    sk_a: Seq<u8>,
    iv_base: u64,
)
    requires
        cuttable(cipher, header, first_inner, sk_e, chunk.len()),
    ensures
        ({
            let wire = fragment_wire(cipher, header, first_inner, number, total, chunk, sk_e, sk_a, iv_base);
            &&& IkeHeader::read(wire) matches Ok(read)
            &&& MessageKey::in_header(read) == MessageKey::in_header(header)
            &&& peeked(wire) == Ok::<(u16, u16), Failure>((number, total))
            &&& wire[28] == piece(first_inner, number, total, chunk).next_payload
            &&& bytes::at16(wire, 32) == number
            &&& bytes::at16(wire, 34) == total
        }),
{
    reveal(sk::sealed_message);
    let wire = fragment_wire(cipher, header, first_inner, number, total, chunk, sk_e, sk_a, iv_base);
    let kind = PayloadType::EncryptedFragment;
    let first = piece(first_inner, number, total, chunk).next_payload;
    let extra = numbers(number, total);
    let prefix = sk::preamble(cipher, header, kind, first, extra, chunk.len());
    let rest = sk::protected(cipher, sk_e, sk_a, prefix, fragment_iv(iv_base, number), chunk);
    sk::lemma_preamble(cipher, header, kind, first, extra, chunk.len(), rest);
    sk::lemma_preamble_len(cipher, header, kind, first, extra, chunk.len());
    let body = bytes::from(wire, 28);
    assert(body[0] == wire[28]);
    assert(wire.subrange(32, 34) =~= body.subrange(4, 8).subrange(0, 2));
    assert(wire.subrange(34, 36) =~= body.subrange(4, 8).subrange(2, 4));
    assert(extra.subrange(0, 2) =~= bytes::be16(number));
    assert(extra.subrange(2, 4) =~= bytes::be16(total));
    bytes::lemma_at16_be16(wire, 32, number);
    bytes::lemma_at16_be16(wire, 34, total);
}

/// Whether `wire` is a fragment that was sealed under these keys.
pub open spec fn genuine(cipher: SkCipher, wire: Seq<u8>, sk_e: Seq<u8>, sk_a: Seq<u8>) -> bool {
    exists|header: IkeHeader, first_inner: PayloadType, number: u16, total: u16, chunk: Seq<u8>, iv_base: u64|
        cuttable(cipher, header, first_inner, sk_e, chunk.len()) && wire == #[trigger] fragment_wire(
            cipher,
            header,
            first_inner,
            number,
            total,
            chunk,
            sk_e,
            sk_a,
            iv_base,
        )
}

/// Whether `wire` is a fragment that was sealed under these keys, but for its tag or
/// ICV, which was altered.
pub open spec fn forged(cipher: SkCipher, wire: Seq<u8>, sk_e: Seq<u8>, sk_a: Seq<u8>) -> bool {
    exists|header: IkeHeader, first_inner: PayloadType, number: u16, total: u16, chunk: Seq<u8>, iv_base: u64|
        cuttable(cipher, header, first_inner, sk_e, chunk.len()) && bytes::altered(
            wire,
            #[trigger] fragment_wire(
                cipher,
                header,
                first_inner,
                number,
                total,
                chunk,
                sk_e,
                sk_a,
                iv_base,
            ),
            cipher.icv_size(),
        )
}

/// Open one fragment. A fragment that was sealed opens to what was sealed in it, and
/// not at all once its tag or ICV was altered.
fn open_fragment(cipher: SkCipher, wire: &[u8], sk_e: &[u8], sk_a: &[u8]) -> (out: Result<Fragment, IkeError>)
    ensures
        viewed(out) == opened(cipher, wire@, sk_e@, sk_a@),
        forall|header: IkeHeader, first_inner: PayloadType, number: u16, total: u16, chunk: Seq<u8>, iv_base: u64|
            cuttable(cipher, header, first_inner, sk_e@, chunk.len()) && wire@ == #[trigger] fragment_wire(
                cipher,
                header,
                first_inner,
                number,
                total,
                chunk,
                sk_e@,
                sk_a@,
                iv_base,
            ) ==> opened(
                cipher,
                wire@,
                sk_e@,
                sk_a@,
            ) == Ok::<Piece, Failure>(piece(first_inner, number, total, chunk)),
        forged(cipher, wire@, sk_e@, sk_a@) ==> opened(cipher, wire@, sk_e@, sk_a@) == Err::<Piece, Failure>(
            Failure::BadIntegrity,
        ),
{
    proof {
        assert forall|header: IkeHeader, first_inner: PayloadType, number: u16, total: u16, chunk: Seq<u8>, iv_base: u64|
            cuttable(cipher, header, first_inner, sk_e@, chunk.len()) && wire@ == #[trigger] fragment_wire(
                cipher,
                header,
                first_inner,
                number,
                total,
                chunk,
                sk_e@,
                sk_a@,
                iv_base,
            ) implies {
            &&& wire@[28] == piece(first_inner, number, total, chunk).next_payload
            &&& bytes::at16(wire@, 32) == number
            &&& bytes::at16(wire@, 34) == total
        } by {
            lemma_fragment_front(cipher, header, first_inner, number, total, chunk, sk_e@, sk_a@, iv_base);
        }
    }
    let plaintext = match sk::open_message(
        cipher,
        wire,
        PayloadType::EncryptedFragment,
        "SKF",
        4,
        sk_e,
        sk_a,
    ) {
        Ok(plaintext) => plaintext,
        Err(error) => {
            return Err(error);
        },
    };
    let content = match sk::strip(plaintext, "empty fragment", "pad length exceeds fragment") {
        Ok(content) => content,
        Err(error) => {
            return Err(error);
        },
    };
    Ok(
        Fragment {
            frag_num: bytes::get16(wire, 32),
            total: bytes::get16(wire, 34),
            next_payload: wire[28],
            content,
        },
    )
}

/// The Fragment Number and Total Fragments on the wire, unauthenticated.
pub open spec fn peeked(wire: Seq<u8>) -> Result<(u16, u16), Failure> {
    match IkeHeader::read(wire) {
        Err(failure) => Err(failure),
        Ok(header) => if header.next_payload != PayloadType::EncryptedFragment {
            Err(Failure::MissingPayload("SKF"@))
        } else if wire.len() < 36 {
            Err(Failure::Truncated { need: 8, have: (wire.len() - 28) as nat })
        } else {
            Ok((bytes::at16(wire, 32), bytes::at16(wire, 34)))
        },
    }
}

/// A pair of numbers, its error taken by its view.
pub open spec fn viewed_numbers(result: Result<(u16, u16), IkeError>) -> Result<(u16, u16), Failure> {
    match result {
        Ok(pair) => Ok(pair),
        Err(error) => Err(error@),
    }
}

/// Read a fragment's Fragment Number and Total Fragments straight off the
/// wire, without verifying its AEAD tag or ICV. Both fields sit in the
/// SKF generic header, which is authenticated but not encrypted under either
/// framing, so this is cheap enough for a caller to use as a queueing or
/// deduplication key *before* paying for a full decrypt on every arrival.
/// Never trust the returned numbers for anything beyond that bookkeeping --
/// [`reassemble`] still independently authenticates every fragment's content
/// once a full set is in hand.
pub fn peek_fragment_header(message: &[u8]) -> (out: Result<(u16, u16), IkeError>)
    ensures
        viewed_numbers(out) == peeked(message@),
{
    let header = match IkeHeader::parse(message) {
        Ok(header) => header,
        Err(error) => {
            return Err(error);
        },
    };
    if header.next_payload != PayloadType::EncryptedFragment {
        return Err(IkeError::MissingPayload("SKF"));
    }
    if message.len() < 36 {
        return Err(IkeError::Truncated { need: 8, have: message.len() - 28 });
    }
    Ok((bytes::get16(message, 32), bytes::get16(message, 34)))
}

/// All the fragments of `wires` opened, or the failure of the first that does
/// not open.
pub open spec fn opened_all(
    cipher: SkCipher,
    wires: Seq<Seq<u8>>,
    sk_e: Seq<u8>,
    sk_a: Seq<u8>,
) -> Result<Seq<Piece>, Failure>
    decreases wires.len(),
{
    if wires.len() == 0 {
        Ok(Seq::empty())
    } else {
        match opened_all(cipher, wires.drop_last(), sk_e, sk_a) {
            Err(failure) => Err(failure),
            Ok(before) => match opened(cipher, wires.last(), sk_e, sk_a) {
                Err(failure) => Err(failure),
                Ok(piece) => Ok(before.push(piece)),
            },
        }
    }
}

/// The index of the first of `pieces`, from `from` on, with this Fragment Number.
pub open spec fn position(pieces: Seq<Piece>, number: int, from: int) -> Option<int>
    decreases pieces.len() - from,
{
    if from < 0 || from >= pieces.len() {
        None
    } else if pieces[from].number == number {
        Some(from)
    } else {
        position(pieces, number, from + 1)
    }
}

/// The contents of the pieces numbered 1 to `count`, in that order.
pub open spec fn in_order(pieces: Seq<Piece>, count: nat) -> Seq<Seq<u8>> {
    Seq::new(count, |i: int| pieces[position(pieces, i + 1, 0).unwrap()].content)
}

/// What `pieces`, in any order, make up: the type of the first inner payload
/// and the inner payloads, when they are all the fragments of one message, each
/// exactly once.
pub open spec fn reassembled(pieces: Seq<Piece>) -> Result<(PayloadType, Seq<u8>), Failure> {
    if pieces.len() == 0 {
        Err(Failure::Crypto("no fragments"@))
    } else if pieces[0].total == 0 || exists|i: int|
        0 <= i < pieces.len() && (#[trigger] pieces[i]).total != pieces[0].total {
        Err(Failure::Crypto("inconsistent Total Fragments"@))
    } else if pieces.len() != pieces[0].total {
        Err(Failure::Crypto("wrong number of fragments"@))
    } else if exists|number: int|
        1 <= number <= pieces.len() && (#[trigger] position(pieces, number, 0)) is None {
        Err(Failure::Crypto("duplicate or missing fragment number"@))
    } else {
        Ok(
            (
                PayloadType::named(pieces[position(pieces, 1, 0).unwrap()].next_payload),
                bytes::joined(in_order(pieces, pieces.len())),
            ),
        )
    }
}

/// Whether `a` holds what `b` holds, each exactly once, in any order.
pub open spec fn same_members<T>(a: Seq<T>, b: Seq<T>) -> bool {
    &&& a.len() == b.len()
    &&& forall|i: int| 0 <= i < a.len() ==> b.contains(#[trigger] a[i])
    &&& forall|i: int| 0 <= i < b.len() ==> a.contains(#[trigger] b[i])
}

/// The pieces `inner` is cut into, in order.
pub open spec fn pieces_of(first_inner: PayloadType, inner: Seq<u8>, per: nat) -> Seq<Piece> {
    let cut = chunks(inner, per);
    Seq::new(
        cut.len(),
        |i: int|
            piece(
                first_inner,
                message::field16((i + 1) as nat),
                message::field16(cut.len()),
                cut[i],
            ),
    )
}

proof fn lemma_position(pieces: Seq<Piece>, number: int, from: int)
    requires
        0 <= from,
    ensures
        match position(pieces, number, from) {
            Some(i) => from <= i < pieces.len() && pieces[i].number == number,
            None => forall|i: int| from <= i < pieces.len() ==> (#[trigger] pieces[i]).number != number,
        },
    decreases pieces.len() - from,
{
    if from < pieces.len() && pieces[from].number != number {
        lemma_position(pieces, number, from + 1);
    }
}

/// The pieces of a message make up the message, in whatever order they come.
pub proof fn law_any_order_reassembles(pieces: Seq<Piece>, first_inner: PayloadType, inner: Seq<u8>, per: nat)
    requires
        per > 0,
        first_inner.canonical(),
        chunks(inner, per).len() < 0x1_0000,
        same_members(pieces, pieces_of(first_inner, inner, per)),
    ensures
        reassembled(pieces) == Ok::<(PayloadType, Seq<u8>), Failure>((first_inner, inner)),
{
    let cut = chunks(inner, per);
    let whole = pieces_of(first_inner, inner, per);
    lemma_chunks(inner, per);
    assert forall|i: int| 0 <= i < pieces.len() implies (#[trigger] pieces[i]).total == cut.len() by {
        let j = choose|j: int| 0 <= j < whole.len() && whole[j] == pieces[i];
        assert(whole.contains(pieces[i]));
    }
    assert forall|number: int| 1 <= number <= cut.len() implies {
        &&& #[trigger] position(pieces, number, 0) is Some
        &&& pieces[position(pieces, number, 0).unwrap()] == whole[number - 1]
    } by {
        lemma_position(pieces, number, 0);
        assert(pieces.contains(whole[number - 1]));
        let k = choose|k: int| 0 <= k < pieces.len() && pieces[k] == whole[number - 1];
        assert(pieces[k].number == number);
        let i = position(pieces, number, 0).unwrap();
        assert(whole.contains(pieces[i]));
        let j = choose|j: int| 0 <= j < whole.len() && whole[j] == pieces[i];
        assert(j + 1 == number);
    }
    assert(pieces[0].total == cut.len());
    assert(position(pieces, 1, 0) is Some);
    assert(in_order(pieces, pieces.len()) =~= cut) by {
        assert forall|i: int| 0 <= i < cut.len() implies in_order(pieces, pieces.len())[i] == cut[i] by {
            assert(position(pieces, i + 1, 0) is Some);
        }
    }
    law_chunks_join(inner, per);
}

/// Pieces of a message that are not all of them, each exactly once, make up nothing:
/// one is left out, given twice or in the place of another.
pub proof fn law_incomplete_set_is_refused(pieces: Seq<Piece>, first_inner: PayloadType, inner: Seq<u8>, per: nat)
    requires
        per > 0,
        chunks(inner, per).len() < 0x1_0000,
        forall|i: int| 0 <= i < pieces.len() ==> pieces_of(first_inner, inner, per).contains(#[trigger] pieces[i]),
        !same_members(pieces, pieces_of(first_inner, inner, per)),
    ensures
        reassembled(pieces) is Err,
{
    let whole = pieces_of(first_inner, inner, per);
    if reassembled(pieces) is Ok {
        assert(whole.contains(pieces[0]));
        assert forall|i: int| 0 <= i < whole.len() implies pieces.contains(#[trigger] whole[i]) by {
            assert(position(pieces, i + 1, 0) is Some);
            lemma_position(pieces, i + 1, 0);
            let at = position(pieces, i + 1, 0).unwrap();
            assert(whole.contains(pieces[at]));
            let j = choose|j: int| 0 <= j < whole.len() && whole[j] == pieces[at];
            assert(whole[j].number == j + 1);
            assert(pieces[at] == whole[i]);
        }
    }
}

proof fn lemma_opened_all_fails(cipher: SkCipher, wires: Seq<Seq<u8>>, sk_e: Seq<u8>, sk_a: Seq<u8>, count: int)
    requires
        0 <= count <= wires.len(),
        opened_all(cipher, wires.take(count), sk_e, sk_a) is Err,
    ensures
        opened_all(cipher, wires, sk_e, sk_a) == opened_all(cipher, wires.take(count), sk_e, sk_a),
    decreases wires.len(),
{
    if count == wires.len() {
        assert(wires.take(count) =~= wires);
    } else {
        assert(wires.drop_last().take(count) =~= wires.take(count));
        lemma_opened_all_fails(cipher, wires.drop_last(), sk_e, sk_a, count);
    }
}

/// Fragments, each taken by its view.
spec fn pieces_in(frags: Seq<Fragment>) -> Seq<Piece> {
    frags.map_values(|f: Fragment| f@)
}

/// The index of the first of `frags` with this Fragment Number.
fn find_fragment(frags: &Vec<Fragment>, number: u16) -> (found: Option<usize>)
    ensures
        match found {
            Some(i) => i < frags@.len() && position(pieces_in(frags@), number as int, 0) == Some(i as int),
            None => position(pieces_in(frags@), number as int, 0) is None,
        },
{
    let ghost pieces = pieces_in(frags@);
    for i in 0..frags.len()
        invariant
            pieces == pieces_in(frags@),
            position(pieces, number as int, 0) == position(pieces, number as int, i as int),
    {
        assert(pieces[i as int] == frags@[i as int]@);
        if frags[i].frag_num == number {
            return Some(i);
        }
    }
    None
}

/// Put opened fragments together.
fn assemble(frags: &Vec<Fragment>) -> (out: Result<(PayloadType, Vec<u8>), IkeError>)
    ensures
        sk::viewed_inner(out) == reassembled(pieces_in(frags@)),
{
    let ghost pieces = pieces_in(frags@);
    if frags.len() == 0 {
        return Err(IkeError::Crypto("no fragments"));
    }
    let total: u16 = frags[0].total;
    assert(pieces[0] == frags@[0]@);
    if total == 0 {
        return Err(IkeError::Crypto("inconsistent Total Fragments"));
    }
    for i in 0..frags.len()
        invariant
            pieces == pieces_in(frags@),
            pieces.len() > 0,
            total == pieces[0].total,
            forall|j: int| 0 <= j < i ==> (#[trigger] pieces[j]).total == total,
    {
        assert(pieces[i as int] == frags@[i as int]@);
        if frags[i].total != total {
            return Err(IkeError::Crypto("inconsistent Total Fragments"));
        }
    }
    if frags.len() != total as usize {
        return Err(IkeError::Crypto("wrong number of fragments"));
    }
    let mut inner: Vec<u8> = Vec::new();
    let mut first: u8 = 0;
    let mut number: u16 = 0;
    assert(inner@ =~= bytes::joined(in_order(pieces, 0)));
    while number < total
        invariant
            pieces == pieces_in(frags@),
            pieces.len() == total,
            total > 0,
            total == pieces[0].total,
            forall|j: int| 0 <= j < pieces.len() ==> (#[trigger] pieces[j]).total == total,
            number <= total,
            forall|n: int| 1 <= n <= number ==> (#[trigger] position(pieces, n, 0)) is Some,
            inner@ == bytes::joined(in_order(pieces, number as nat)),
            number > 0 ==> first == pieces[position(pieces, 1, 0).unwrap()].next_payload,
        decreases total - number,
    {
        number = number + 1;
        let at: usize = match find_fragment(frags, number) {
            Some(at) => at,
            None => {
                assert(position(pieces, number as int, 0) is None);
                return Err(IkeError::Crypto("duplicate or missing fragment number"));
            },
        };
        assert(pieces[at as int] == frags@[at as int]@);
        if number == 1 {
            first = frags[at].next_payload;
        }
        bytes::push_all(&mut inner, &frags[at].content);
        proof {
            let longer = in_order(pieces, number as nat);
            assert(longer.drop_last() =~= in_order(pieces, (number - 1) as nat));
            assert(longer.last() == frags@[at as int].content@);
        }
    }
    assert(position(pieces, 1, 0) is Some);
    Ok((PayloadType::from_u8(first), inner))
}

/// Whether `out` is what reassembling all the fragments of one message gives,
/// whatever the message was.
pub open spec fn restores(
    cipher: SkCipher,
    wires: Seq<Seq<u8>>,
    sk_e: Seq<u8>,
    sk_a: Seq<u8>,
    out: Result<(PayloadType, Seq<u8>), Failure>,
) -> bool {
    forall|header: IkeHeader, first_inner: PayloadType, inner: Seq<u8>, iv_base: u64, per: nat|
        per > 0 && cuttable(cipher, header, first_inner, sk_e, chunks(inner, per)[0].len()) && chunks(
            inner,
            per,
        ).len() < 0x1_0000 && same_members(
            wires,
            #[trigger] fragments(cipher, header, first_inner, inner, sk_e, sk_a, iv_base, per),
        ) ==> out == Ok::<(PayloadType, Seq<u8>), Failure>((first_inner, inner))
}

/// Whether one of `wires` is a forged fragment, and the others are genuine.
pub open spec fn one_forged(cipher: SkCipher, wires: Seq<Seq<u8>>, sk_e: Seq<u8>, sk_a: Seq<u8>) -> bool {
    exists|at: int|
        0 <= at < wires.len() && forged(cipher, #[trigger] wires[at], sk_e, sk_a) && forall|j: int|
            0 <= j < wires.len() && j != at ==> genuine(cipher, #[trigger] wires[j], sk_e, sk_a)
}

/// Reassemble a set of SKF messages, sealed under `cipher`, into the first
/// inner payload type and the inner payloads. Fragments may arrive in any
/// order; all of `1..=total` must be present exactly once, and every fragment's
/// AEAD tag or ICV must verify. What [`build_fragments`] cut is put together
/// again, and nothing is once the tag or ICV of a fragment was altered.
pub fn reassemble(cipher: SkCipher, messages: &[Vec<u8>], sk_e: &[u8], sk_a: &[u8]) -> (out: Result<
    (PayloadType, Vec<u8>),
    IkeError,
>)
    ensures
        sk::viewed_inner(out) == (match opened_all(cipher, bytes::contents(messages@), sk_e@, sk_a@) {
            Err(failure) => Err(failure),
            Ok(pieces) => reassembled(pieces),
        }),
        restores(cipher, bytes::contents(messages@), sk_e@, sk_a@, sk::viewed_inner(out)),
        one_forged(cipher, bytes::contents(messages@), sk_e@, sk_a@) ==> sk::viewed_inner(out) == Err::<
            (PayloadType, Seq<u8>),
            Failure,
        >(Failure::BadIntegrity),
{
    let ghost wires = bytes::contents(messages@);
    let mut frags: Vec<Fragment> = Vec::new();
    assert(wires.take(0) =~= Seq::<Seq<u8>>::empty());
    assert(pieces_in(frags@) =~= Seq::<Piece>::empty());
    for i in 0..messages.len()
        invariant
            wires == bytes::contents(messages@),
            frags@.len() == i,
            opened_all(cipher, wires.take(i as int), sk_e@, sk_a@) == Ok::<Seq<Piece>, Failure>(
                pieces_in(frags@),
            ),
            forall|j: int| 0 <= j < i ==> truly_opened(cipher, #[trigger] wires[j], sk_e@, sk_a@),
            forall|j: int|
                0 <= j < i ==> opened(cipher, #[trigger] wires[j], sk_e@, sk_a@) == Ok::<Piece, Failure>(
                    pieces_in(frags@)[j],
                ),
            forall|j: int| 0 <= j < i ==> !forged(cipher, #[trigger] wires[j], sk_e@, sk_a@),
    {
        let ghost before = pieces_in(frags@);
        proof {
            assert(wires[i as int] == messages@[i as int]@);
            assert(wires.take(i + 1).drop_last() =~= wires.take(i as int));
            assert(wires.take(i + 1).last() == wires[i as int]);
        }
        match open_fragment(cipher, &messages[i], sk_e, sk_a) {
            Ok(fragment) => {
                frags.push(fragment);
                assert(pieces_in(frags@) =~= before.push(fragment@));
            },
            Err(error) => {
                proof {
                    lemma_opened_all_fails(cipher, wires, sk_e@, sk_a@, i + 1);
                    lemma_failed_is_no_cut(cipher, wires, sk_e@, sk_a@, i as int);
                }
                return Err(error);
            },
        }
    }
    assert(wires.take(wires.len() as int) =~= wires);
    let out = assemble(&frags);
    proof {
        lemma_restores(cipher, wires, sk_e@, sk_a@, pieces_in(frags@));
    }
    out
}

/// Whether a fragment that was sealed opens to what was sealed in it.
spec fn truly_opened(cipher: SkCipher, wire: Seq<u8>, sk_e: Seq<u8>, sk_a: Seq<u8>) -> bool {
    forall|header: IkeHeader, first_inner: PayloadType, number: u16, total: u16, chunk: Seq<u8>, iv_base: u64|
        cuttable(cipher, header, first_inner, sk_e, chunk.len()) && wire == #[trigger] fragment_wire(
            cipher,
            header,
            first_inner,
            number,
            total,
            chunk,
            sk_e,
            sk_a,
            iv_base,
        ) ==> opened(cipher, wire, sk_e, sk_a) == Ok::<Piece, Failure>(
            piece(first_inner, number, total, chunk),
        )
}

proof fn lemma_cuttable(
    cipher: SkCipher,
    header: IkeHeader,
    first_inner: PayloadType,
    sk_e: Seq<u8>,
    inner: Seq<u8>,
    per: nat,
    i: int,
)
    requires
        per > 0,
        cuttable(cipher, header, first_inner, sk_e, chunks(inner, per)[0].len()),
        0 <= i < chunks(inner, per).len(),
    ensures
        cuttable(cipher, header, first_inner, sk_e, chunks(inner, per)[i].len()),
{
    lemma_chunks(inner, per);
    sk::lemma_padded_grows(cipher, chunks(inner, per)[i], chunks(inner, per)[0]);
}

/// A fragment that does not open is none of a message that was cut.
proof fn lemma_failed_is_no_cut(cipher: SkCipher, wires: Seq<Seq<u8>>, sk_e: Seq<u8>, sk_a: Seq<u8>, at: int)
    requires
        0 <= at < wires.len(),
        truly_opened(cipher, wires[at], sk_e, sk_a),
        opened(cipher, wires[at], sk_e, sk_a) is Err,
    ensures
        forall|out: Result<(PayloadType, Seq<u8>), Failure>| restores(cipher, wires, sk_e, sk_a, out),
{
    assert forall|header: IkeHeader, first_inner: PayloadType, inner: Seq<u8>, iv_base: u64, per: nat|
        per > 0 && cuttable(cipher, header, first_inner, sk_e, chunks(inner, per)[0].len()) && chunks(
            inner,
            per,
        ).len() < 0x1_0000 implies !same_members(
        wires,
        #[trigger] fragments(cipher, header, first_inner, inner, sk_e, sk_a, iv_base, per),
    ) by {
        reveal(fragments);
        let list = fragments(cipher, header, first_inner, inner, sk_e, sk_a, iv_base, per);
        if list.contains(wires[at]) {
            let j = choose|j: int| 0 <= j < list.len() && list[j] == wires[at];
            lemma_cuttable(cipher, header, first_inner, sk_e, inner, per, j);
        }
    }
}

/// Fragments that were cut from a message are put together again.
proof fn lemma_restores(cipher: SkCipher, wires: Seq<Seq<u8>>, sk_e: Seq<u8>, sk_a: Seq<u8>, pieces: Seq<Piece>)
    requires
        pieces.len() == wires.len(),
        forall|j: int| 0 <= j < wires.len() ==> truly_opened(cipher, #[trigger] wires[j], sk_e, sk_a),
        forall|j: int|
            0 <= j < wires.len() ==> opened(cipher, #[trigger] wires[j], sk_e, sk_a) == Ok::<Piece, Failure>(
                pieces[j],
            ),
    ensures
        restores(cipher, wires, sk_e, sk_a, reassembled(pieces)),
{
    assert forall|header: IkeHeader, first_inner: PayloadType, inner: Seq<u8>, iv_base: u64, per: nat|
        per > 0 && cuttable(cipher, header, first_inner, sk_e, chunks(inner, per)[0].len()) && chunks(
            inner,
            per,
        ).len() < 0x1_0000 && same_members(
            wires,
            #[trigger] fragments(cipher, header, first_inner, inner, sk_e, sk_a, iv_base, per),
        ) implies reassembled(pieces) == Ok::<(PayloadType, Seq<u8>), Failure>((first_inner, inner)) by {
        reveal(fragments);
        let list = fragments(cipher, header, first_inner, inner, sk_e, sk_a, iv_base, per);
        let whole = pieces_of(first_inner, inner, per);
        assert forall|i: int| 0 <= i < pieces.len() implies whole.contains(#[trigger] pieces[i]) by {
            assert(list.contains(wires[i]));
            let j = choose|j: int| 0 <= j < list.len() && list[j] == wires[i];
            lemma_cuttable(cipher, header, first_inner, sk_e, inner, per, j);
            assert(pieces[i] == whole[j]);
        }
        assert forall|j: int| 0 <= j < whole.len() implies pieces.contains(#[trigger] whole[j]) by {
            assert(wires.contains(list[j]));
            let i = choose|i: int| 0 <= i < wires.len() && wires[i] == list[j];
            lemma_cuttable(cipher, header, first_inner, sk_e, inner, per, j);
            assert(pieces[i] == whole[j]);
        }
        law_any_order_reassembles(pieces, first_inner, inner, per);
    }
}

/// A fragment's Fragment Number and Total Fragments, once it has
/// authenticated under `cipher` with the sender's keys. For a caller that
/// must tell whether a fragment is genuine without reassembling it, such
/// as one of a request already answered (RFC 7383 §2.6.1).
pub fn verify_fragment(cipher: SkCipher, message: &[u8], sk_e: &[u8], sk_a: &[u8]) -> (out: Result<
    (u16, u16),
    IkeError,
>)
    ensures
        viewed_numbers(out) == (match opened(cipher, message@, sk_e@, sk_a@) {
            Ok(piece) => Ok((piece.number, piece.total)),
            Err(failure) => Err(failure),
        }),
        forged(cipher, message@, sk_e@, sk_a@) ==> viewed_numbers(out) == Err::<(u16, u16), Failure>(
            Failure::BadIntegrity,
        ),
{
    match open_fragment(cipher, message, sk_e, sk_a) {
        Ok(fragment) => Ok((fragment.frag_num, fragment.total)),
        Err(error) => Err(error),
    }
}

/// How much content a fragment of at most `max_len` octets may carry: what its
/// IKE header, its SKF payload with IV and tag or ICV, the Pad Length octet and,
/// under a classic cipher, padding to a whole block leave.
pub open spec fn content_room(cipher: SkCipher, max_len: nat) -> nat {
    let around = 36 + sk::iv_size(cipher) + cipher.icv_size();
    let room = if max_len < around {
        0
    } else {
        (max_len - around) as nat
    };
    let whole = if cipher.aead() is Some {
        room
    } else if cipher.classic().block_size() == 8 {
        (room - room % 8) as nat
    } else {
        (room - room % 16) as nat
    };
    if whole == 0 {
        0
    } else {
        (whole - 1) as nat
    }
}

/// The fragments of the SK message `wire`, or why it cannot be cut.
pub open spec fn message_fragments(
    cipher: SkCipher,
    wire: Seq<u8>,
    sk_e: Seq<u8>,
    sk_a: Seq<u8>,
    iv_base: u64,
    max_len: nat,
) -> Result<Seq<Seq<u8>>, Failure> {
    match sk::decrypted(cipher, wire, sk_e, sk_a) {
        Err(failure) => Err(failure),
        Ok((first_inner, inner)) => {
            let per = content_room(cipher, max_len);
            if per == 0 {
                Err(Failure::Crypto("fragments of that size cannot carry any content"@))
            } else if chunks(inner, per).len() > MAX_FRAGMENTS {
                Err(Failure::Crypto("the message would need too many fragments"@))
            } else {
                Ok(
                    fragments(
                        cipher,
                        IkeHeader::read(wire)->Ok_0,
                        first_inner,
                        inner,
                        sk_e,
                        sk_a,
                        iv_base,
                        per,
                    ),
                )
            }
        },
    }
}

/// A list of messages or an error, each taken by its view.
pub open spec fn viewed_list(result: Result<Vec<Vec<u8>>, IkeError>) -> Result<Seq<Seq<u8>>, Failure> {
    match result {
        Ok(list) => Ok(bytes::contents(list@)),
        Err(error) => Err(error@),
    }
}

/// Padding to whole blocks stays within whole blocks.
proof fn lemma_whole_blocks(len: int, room: int)
    requires
        0 <= len,
        0 <= room,
    ensures
        len < room - room % 8 ==> len + (7 - len % 8) + 1 <= room - room % 8,
        len < room - room % 16 ==> len + (15 - len % 16) + 1 <= room - room % 16,
{
}

proof fn lemma_room_holds(cipher: SkCipher, max_len: nat, len: nat)
    requires
        0 < content_room(cipher, max_len),
        len <= content_room(cipher, max_len),
    ensures
        36 + sk::protected_size(cipher, len) <= max_len,
{
    let room = max_len - (36 + sk::iv_size(cipher) + cipher.icv_size());
    lemma_whole_blocks(len as int, room);
}

/// How much content a fragment of at most `max_len` octets may carry.
fn content_per_fragment(cipher: SkCipher, max_len: usize) -> (per: usize)
    ensures
        per == content_room(cipher, max_len as nat),
{
    let iv_len: usize = if cipher.is_aead() {
        8
    } else {
        cipher.block_len()
    };
    let around: usize = 36 + iv_len + cipher.icv_len();
    let room: usize = if max_len < around {
        0
    } else {
        max_len - around
    };
    let whole: usize = if cipher.is_aead() {
        room
    } else if cipher.block_len() == 8 {
        room - room % 8
    } else {
        room - room % 16
    };
    if whole == 0 {
        0
    } else {
        whole - 1
    }
}

/// `message`, an SK message we built with our own `sk_e` and `sk_a`, cut into
/// fragments (RFC 7383 §2.5) of at most `max_len` octets each, the IKE
/// header included. `iv_base` seeds the fragments' IVs as in
/// [`build_fragments`], and must be fresh under the key.
pub fn fragment_message(
    cipher: SkCipher,
    message: &[u8],
    sk_e: &[u8],
    sk_a: &[u8],
    iv_base: u64,
    max_len: usize,
) -> (out: Result<Vec<Vec<u8>>, IkeError>)
    ensures
        viewed_list(out) == message_fragments(cipher, message@, sk_e@, sk_a@, iv_base, max_len as nat),
        out matches Ok(list) ==> forall|i: int|
            0 <= i < list@.len() ==> (#[trigger] list@[i])@.len() <= max_len,
{
    let (first_inner, inner) = match sk::open_encrypted(cipher, message, sk_e, sk_a) {
        Ok(opened) => opened,
        Err(error) => {
            return Err(error);
        },
    };
    let header = match IkeHeader::parse(message) {
        Ok(header) => header,
        Err(error) => {
            return Err(error);
        },
    };
    let per: usize = content_per_fragment(cipher, max_len);
    if per == 0 {
        return Err(IkeError::Crypto("fragments of that size cannot carry any content"));
    }
    if cut(&inner, per).len() > MAX_FRAGMENTS as usize {
        return Err(IkeError::Crypto("the message would need too many fragments"));
    }
    let out = build_fragments(cipher, &header, first_inner, &inner, sk_e, sk_a, iv_base, per);
    proof {
        lemma_chunks(inner@, per as nat);
        if let Ok(ref list) = out {
            assert forall|i: int| 0 <= i < list@.len() implies (#[trigger] list@[i])@.len() <= max_len by {
                lemma_room_holds(cipher, max_len as nat, chunks(inner@, per as nat)[i].len());
            }
        }
    }
    out
}

/// What a message was cut into is put together again to what the message holds,
/// whatever order the fragments come in: `out` is what [`reassemble`] makes of them.
pub proof fn law_cut_message_is_restored(
    cipher: SkCipher,
    wire: Seq<u8>,
    sk_e: Seq<u8>,
    sk_a: Seq<u8>,
    iv_base: u64,
    max_len: nat,
    wires: Seq<Seq<u8>>,
    out: Result<(PayloadType, Seq<u8>), Failure>,
)
    requires
        max_len < 0x1_0000,
        message_fragments(cipher, wire, sk_e, sk_a, iv_base, max_len) matches Ok(cut) && same_members(wires, cut),
        restores(cipher, wires, sk_e, sk_a, out),
    ensures
        wires.len() <= MAX_FRAGMENTS,
        out == sk::decrypted(cipher, wire, sk_e, sk_a),
{
    let (first_inner, inner) = sk::decrypted(cipher, wire, sk_e, sk_a)->Ok_0;
    let per = content_room(cipher, max_len);
    lemma_chunks(inner, per);
    lemma_room_holds(cipher, max_len, chunks(inner, per)[0].len());
    assert(IkeHeader::read(wire) is Ok && sk::key_fits(cipher, sk_e)) by {
        reveal(sk::opened_message);
        reveal(sk::unprotected);
    }
    message::law_types_round_trip(wire[28]);
    message::law_types_round_trip(wire[18]);
    let header = IkeHeader::read(wire)->Ok_0;
    assert(cuttable(cipher, header, first_inner, sk_e, chunks(inner, per)[0].len()));
    assert(same_members(wires, fragments(cipher, header, first_inner, inner, sk_e, sk_a, iv_base, per)));
    reveal(fragments);
}

/// The most fragments one message may declare (Total Fragments) for
/// [`Reassembly`] to take it. Far above what any fragmentation threshold
/// produces: even a long certificate chain at the smallest threshold
/// RFC 7383 §2.5.1 recommends (576 octets) is a few dozen.
pub const MAX_FRAGMENTS: u16 = 256;

/// The most content [`Reassembly`] holds for one message. An IKE message
/// this large does not occur; this bounds what a peer holding the keys can
/// make it keep.
pub const MAX_REASSEMBLED_LEN: usize = 65536;

/// Which message a fragment belongs to (RFC 7383 §2.6.1, RFC 7296 §2.2,
/// §3.1): its IKE SA, exchange, direction and Message ID -- every field of
/// the IKE header a fragment keeps from the message it was cut from, but
/// the Length and Next Payload.
#[derive(Debug, Clone, Copy, PartialEq, Eq, Structural)]
pub struct MessageKey {
    pub initiator_spi: u64,
    pub responder_spi: u64,
    pub exchange_type: ExchangeType,
    /// The header's Initiator flag.
    pub initiator: bool,
    /// The header's Response flag.
    pub response: bool,
    pub message_id: u32,
}

impl MessageKey {
    /// The message a header belongs to.
    pub open spec fn in_header(header: IkeHeader) -> MessageKey {
        MessageKey {
            initiator_spi: header.initiator_spi,
            responder_spi: header.responder_spi,
            exchange_type: header.exchange_type,
            initiator: header.flags.initiator,
            response: header.flags.response,
            message_id: header.message_id,
        }
    }

    pub fn of(header: &IkeHeader) -> (key: Self)
        ensures
            key == Self::in_header(*header),
    {
        Self {
            initiator_spi: header.initiator_spi,
            responder_spi: header.responder_spi,
            exchange_type: header.exchange_type,
            initiator: header.flags.initiator,
            response: header.flags.response,
            message_id: header.message_id,
        }
    }
}

/// What [`Reassembly::accept`] did with one fragment.
#[derive(Debug, PartialEq, Eq)]
pub enum Accepted {
    /// Stored; the others are still to come.
    Stored,
    /// It was the last one: the message's first inner payload type, and its
    /// inner payloads.
    Complete(PayloadType, Vec<u8>),
    /// Discarded, for the reason given, and nothing else changed (RFC 7383
    /// §2.6: "silently discarded").
    Discarded(&'static str),
}

/// An [`Accepted`] as a value of the specification.
#[verifier::ext_equal]
pub enum Outcome {
    Stored,
    Complete(PayloadType, Seq<u8>),
    Discarded(Seq<char>),
}

impl View for Accepted {
    type V = Outcome;

    open spec fn view(&self) -> Outcome {
        match *self {
            Accepted::Stored => Outcome::Stored,
            Accepted::Complete(first_inner, inner) => Outcome::Complete(first_inner, inner@),
            Accepted::Discarded(why) => Outcome::Discarded(why@),
        }
    }
}

/// The fragments of one message in hand, by Fragment Number: the SKF payload's
/// Next Payload, and the content.
#[verifier::ext_equal]
pub struct Gathered {
    pub key: MessageKey,
    pub total: u16,
    pub pieces: Map<u16, (u8, Seq<u8>)>,
}

/// How much content the pieces numbered 1 to `count` hold.
pub open spec fn held(pieces: Map<u16, (u8, Seq<u8>)>, count: nat) -> nat
    decreases count,
{
    if count == 0 {
        0
    } else {
        held(pieces, (count - 1) as nat) + if pieces.contains_key(count as u16) {
            pieces[count as u16].1.len()
        } else {
            0
        }
    }
}

/// The contents of the pieces numbered 1 to `count`, in that order.
pub open spec fn contents_to(pieces: Map<u16, (u8, Seq<u8>)>, count: nat) -> Seq<Seq<u8>> {
    Seq::new(count, |i: int| pieces[(i + 1) as u16].1)
}

/// Whether every piece numbered 1 to `total` is there.
pub open spec fn complete(pieces: Map<u16, (u8, Seq<u8>)>, total: u16) -> bool {
    forall|number: u16| 1 <= number <= total ==> #[trigger] pieces.contains_key(number)
}

impl Gathered {
    /// No fragment in hand.
    pub open spec fn nothing(key: MessageKey) -> Gathered {
        Gathered { key, total: 0, pieces: Map::empty() }
    }

    /// Whether these are some, but not all, of the fragments of one message.
    pub open spec fn valid(self) -> bool {
        &&& self.total <= MAX_FRAGMENTS
        &&& forall|number: u16| #[trigger] self.pieces.contains_key(number) ==> 1 <= number <= self.total
        &&& self.total > 0 ==> !complete(self.pieces, self.total)
        &&& held(self.pieces, self.total as nat) <= MAX_REASSEMBLED_LEN
    }

    /// These fragments and an authentic one: a larger Total drops the fragments
    /// in hand and starts over; too much content drops them all.
    pub open spec fn with(self, piece: Piece) -> (Gathered, Outcome) {
        let kept = if piece.total > self.total {
            Map::empty()
        } else {
            self.pieces
        };
        let pieces = kept.insert(piece.number, (piece.next_payload, piece.content));
        if held(kept, piece.total as nat) + piece.content.len() > MAX_REASSEMBLED_LEN {
            (Self::nothing(self.key), Outcome::Discarded("the message is too large"@))
        } else if complete(pieces, piece.total) {
            (
                Self::nothing(self.key),
                Outcome::Complete(
                    PayloadType::named(pieces[1].0),
                    bytes::joined(contents_to(pieces, piece.total as nat)),
                ),
            )
        } else {
            (Gathered { key: self.key, total: piece.total, pieces }, Outcome::Stored)
        }
    }

    /// Why a fragment with this number and total, of the message `key`, does not
    /// count whatever it holds, if it does not.
    pub open spec fn objection(self, key: MessageKey, number: u16, total: u16) -> Option<Seq<char>> {
        if key != self.key {
            Some("a fragment of another message"@)
        } else if number == 0 || total == 0 || number > total || total > MAX_FRAGMENTS {
            Some("invalid Fragment Number or Total Fragments"@)
        } else if total < self.total {
            Some("fewer Total Fragments than the fragments in hand"@)
        } else if total == self.total && self.pieces.contains_key(number) {
            Some("a replay of a fragment in hand"@)
        } else {
            None
        }
    }

    /// These fragments once an authentic fragment of the message `key` came in,
    /// and what was done with it.
    pub open spec fn considering(self, key: MessageKey, piece: Piece) -> (Gathered, Outcome) {
        match self.objection(key, piece.number, piece.total) {
            Some(why) => (self, Outcome::Discarded(why)),
            None => self.with(piece),
        }
    }

    /// These fragments once one more message came in, and what was done with it.
    pub open spec fn accepting(
        self,
        wire: Seq<u8>,
        cipher: SkCipher,
        sk_e: Seq<u8>,
        sk_a: Seq<u8>,
    ) -> (Gathered, Outcome) {
        match IkeHeader::read(wire) {
            Err(_) => (self, Outcome::Discarded("not an IKE message"@)),
            Ok(header) => {
                let key = MessageKey::in_header(header);
                match peeked(wire) {
                    Err(_) => if key != self.key {
                        (self, Outcome::Discarded("a fragment of another message"@))
                    } else {
                        (self, Outcome::Discarded("no Encrypted Fragment payload"@))
                    },
                    Ok((number, total)) => match self.objection(key, number, total) {
                        Some(why) => (self, Outcome::Discarded(why)),
                        None => match opened(cipher, wire, sk_e, sk_a) {
                            Err(_) => (self, Outcome::Discarded("does not authenticate"@)),
                            Ok(piece) => self.with(piece),
                        },
                    },
                }
            },
        }
    }
}

/// The fragments of one message as they come in, in any order (RFC 7383
/// §2.6). A fragment is checked before it can change anything:
///
/// 1. it must belong to the message ([`MessageKey`]) and carry the SKF
///    payload first;
/// 2. its Fragment Number and Total Fragments must be non-zero, the number
///    at most the total, and the total at most [`MAX_FRAGMENTS`] and not
///    smaller than that of the fragments in hand;
/// 3. a fragment with the number and total of one in hand is a replay;
/// 4. it must authenticate (its ICV or AEAD tag).
///
/// Only then does it count: a larger Total than the fragments in hand drops
/// them and starts over with this one (§2.5.2: a sender that refragments
/// makes smaller fragments, so more of them), and it is stored. A forged
/// fragment therefore never takes the place of a genuine one, and never
/// throws genuine ones away. Content beyond [`MAX_REASSEMBLED_LEN`] drops
/// the whole message.
///
/// How long to wait for the rest is the caller's: RFC 7383 §2.6 has it
/// drop an incomplete message after a timeout, as the initiator or
/// responder of the exchange would.
pub struct Reassembly {
    key: MessageKey,
    total: u16,
    /// By Fragment Number: the SKF payload's Next Payload, and the content.
    fragments: BTreeMap<u16, (u8, Vec<u8>)>,
    len: usize,
}

impl View for Reassembly {
    type V = Gathered;

    closed spec fn view(&self) -> Gathered {
        Gathered { key: self.key, total: self.total, pieces: gathered_pieces(self.fragments@) }
    }
}

/// Stored fragments, each taken by its contents.
pub open spec fn gathered_pieces(fragments: Map<u16, (u8, Vec<u8>)>) -> Map<u16, (u8, Seq<u8>)> {
    fragments.map_values(|f: (u8, Vec<u8>)| (f.0, f.1@))
}

proof fn lemma_held_insert(pieces: Map<u16, (u8, Seq<u8>)>, number: u16, value: (u8, Seq<u8>), count: nat)
    requires
        !pieces.contains_key(number),
        count <= 0xffff,
    ensures
        held(pieces.insert(number, value), count) == held(pieces, count) + if 1 <= number <= count {
            value.1.len()
        } else {
            0
        },
    decreases count,
{
    if count > 0 {
        lemma_held_insert(pieces, number, value, (count - 1) as nat);
    }
}

proof fn lemma_held_empty(count: nat)
    ensures
        held(Map::empty(), count) == 0,
    decreases count,
{
    if count > 0 {
        lemma_held_empty((count - 1) as nat);
    }
}

/// The numbers 1 to `count`.
spec fn numbers_to(count: nat) -> Set<u16> {
    Set::new(|n: u16| 1 <= n <= count)
}

proof fn lemma_numbers_to(count: nat)
    requires
        count <= 0xffff,
    ensures
        numbers_to(count).finite(),
        numbers_to(count).len() == count,
    decreases count,
{
    if count == 0 {
        assert(numbers_to(0) =~= Set::<u16>::empty());
    } else {
        lemma_numbers_to((count - 1) as nat);
        assert(numbers_to(count) =~= numbers_to((count - 1) as nat).insert(count as u16));
    }
}

/// As many pieces as the total, numbered within it, are all of them.
proof fn lemma_complete(fragments: Map<u16, (u8, Vec<u8>)>, total: u16)
    requires
        fragments.dom().finite(),
        forall|number: u16| #[trigger] fragments.contains_key(number) ==> 1 <= number <= total,
    ensures
        fragments.len() <= total,
        complete(gathered_pieces(fragments), total) == (fragments.len() == total),
{
    lemma_numbers_to(total as nat);
    let all = numbers_to(total as nat);
    assert(fragments.dom().subset_of(all)) by {
        assert forall|n: u16| fragments.dom().contains(n) implies all.contains(n) by {
            assert(fragments.contains_key(n));
        }
    }
    vstd::set_lib::lemma_len_subset(fragments.dom(), all);
    if fragments.len() == total {
        vstd::set_lib::lemma_subset_equality(fragments.dom(), all);
        assert forall|number: u16| 1 <= number <= total implies #[trigger] gathered_pieces(
            fragments,
        ).contains_key(number) by {
            assert(all.contains(number));
        }
    } else if complete(gathered_pieces(fragments), total) {
        assert(fragments.dom() =~= all) by {
            assert forall|n: u16| all.contains(n) implies fragments.dom().contains(n) by {
                assert(gathered_pieces(fragments).contains_key(n));
            }
        }
    }
}

impl Reassembly {
    /// Whether the fragments in hand hold together.
    pub closed spec fn wf(&self) -> bool {
        &&& self@.valid()
        &&& self.len == held(self@.pieces, self.total as nat)
    }

    pub fn new(key: MessageKey) -> (reassembly: Self)
        ensures
            reassembly.wf(),
            reassembly@ == Gathered::nothing(key),
    {
        let reassembly = Self { key, total: 0, fragments: BTreeMap::new(), len: 0 };
        assert(reassembly@.pieces =~= Map::<u16, (u8, Seq<u8>)>::empty());
        reassembly
    }

    pub fn key(&self) -> (key: MessageKey)
        ensures
            key == self@.key,
    {
        self.key
    }

    /// Whether no fragment is in hand.
    pub fn is_empty(&self) -> (empty: bool)
        ensures
            empty == (self@.pieces == Map::<u16, (u8, Seq<u8>)>::empty()),
    {
        let empty = self.fragments.is_empty();
        proof {
            if empty {
                assert(self@.pieces =~= Map::<u16, (u8, Seq<u8>)>::empty());
            } else {
                assert(self.fragments@.dom() =~= self@.pieces.dom());
            }
        }
        empty
    }

    /// Release the fragments in hand.
    fn release(&mut self)
        ensures
            final(self)@ == Gathered::nothing(old(self)@.key),
            final(self).len == 0,
    {
        self.fragments.clear();
        self.len = 0;
        self.total = 0;
        assert(self@.pieces =~= Map::<u16, (u8, Seq<u8>)>::empty());
    }

    /// Take one fragment, sealed under `cipher` with the sender's `sk_e`
    /// (and, for a classic cipher, `sk_a`). On [`Accepted::Complete`] the
    /// fragments in hand are released, so a late copy of one of them
    /// starts a new message: telling a retransmission of a message already
    /// processed apart (RFC 7383 §2.6.1) is the caller's.
    pub fn accept(&mut self, message: &[u8], cipher: SkCipher, sk_e: &[u8], sk_a: &[u8]) -> (accepted: Accepted)
        requires
            old(self).wf(),
        ensures
            final(self).wf(),
            (final(self)@, accepted@) == old(self)@.accepting(message@, cipher, sk_e@, sk_a@),
            forall|header: IkeHeader, first_inner: PayloadType, number: u16, total: u16, chunk: Seq<u8>, iv_base: u64|
                cuttable(cipher, header, first_inner, sk_e@, chunk.len()) && message@ == #[trigger] fragment_wire(
                    cipher,
                    header,
                    first_inner,
                    number,
                    total,
                    chunk,
                    sk_e@,
                    sk_a@,
                    iv_base,
                ) ==> (final(self)@, accepted@) == old(self)@.considering(
                    MessageKey::in_header(header),
                    piece(first_inner, number, total, chunk),
                ),
            forged(cipher, message@, sk_e@, sk_a@) ==> final(self)@ == old(self)@ && accepted@ is Discarded,
    {
        proof {
            lemma_held_empty(0);
            assert forall|header: IkeHeader, first_inner: PayloadType, number: u16, total: u16, chunk: Seq<u8>, iv_base: u64|
                cuttable(cipher, header, first_inner, sk_e@, chunk.len()) && message@ == #[trigger] fragment_wire(
                    cipher,
                    header,
                    first_inner,
                    number,
                    total,
                    chunk,
                    sk_e@,
                    sk_a@,
                    iv_base,
                ) implies {
                &&& IkeHeader::read(message@) matches Ok(read)
                &&& MessageKey::in_header(read) == MessageKey::in_header(header)
                &&& peeked(message@) == Ok::<(u16, u16), Failure>((number, total))
            } by {
                lemma_fragment_front(cipher, header, first_inner, number, total, chunk, sk_e@, sk_a@, iv_base);
            }
        }
        let header = match IkeHeader::parse(message) {
            Ok(header) => header,
            Err(_) => {
                return Accepted::Discarded("not an IKE message");
            },
        };
        if MessageKey::of(&header) != self.key {
            return Accepted::Discarded("a fragment of another message");
        }
        let (number, total) = match peek_fragment_header(message) {
            Ok(numbers) => numbers,
            Err(_) => {
                return Accepted::Discarded("no Encrypted Fragment payload");
            },
        };
        if number == 0 || total == 0 || number > total || total > MAX_FRAGMENTS {
            return Accepted::Discarded("invalid Fragment Number or Total Fragments");
        }
        if total < self.total {
            return Accepted::Discarded("fewer Total Fragments than the fragments in hand");
        }
        if total == self.total && self.fragments.contains_key(&number) {
            return Accepted::Discarded("a replay of a fragment in hand");
        }
        let fragment = match open_fragment(cipher, message, sk_e, sk_a) {
            Ok(fragment) => fragment,
            Err(_) => {
                return Accepted::Discarded("does not authenticate");
            },
        };
        self.take(fragment)
    }

    /// Take an authentic fragment.
    fn take(&mut self, fragment: Fragment) -> (accepted: Accepted)
        requires
            old(self).wf(),
            1 <= fragment@.number <= fragment@.total,
            old(self)@.total <= fragment@.total <= MAX_FRAGMENTS,
            fragment@.total == old(self)@.total ==> !old(self)@.pieces.contains_key(fragment@.number),
        ensures
            final(self).wf(),
            (final(self)@, accepted@) == old(self)@.with(fragment@),
    {
        let number: u16 = fragment.frag_num;
        let total: u16 = fragment.total;
        let ghost kept = old(self)@.with_kept(fragment@);
        if total > self.total {
            self.fragments.clear();
            self.len = 0;
            self.total = total;
            proof {
                lemma_held_empty(total as nat);
                assert(self@.pieces =~= kept);
            }
        }
        assert(self@.pieces == kept && self.len == held(kept, total as nat));
        let ghost value = (fragment.next_payload, fragment.content@);
        if fragment.content.len() > MAX_REASSEMBLED_LEN - self.len {
            self.release();
            proof {
                lemma_held_empty(0);
            }
            return Accepted::Discarded("the message is too large");
        }
        self.len = self.len + fragment.content.len();
        let ghost before = self.fragments@;
        self.fragments.insert(number, (fragment.next_payload, fragment.content));
        proof {
            assert(gathered_pieces(self.fragments@) =~= kept.insert(number, value));
            lemma_held_insert(kept, number, value, total as nat);
            assert forall|n: u16| #[trigger] self.fragments@.contains_key(n) implies 1 <= n <= total by {
                if n != number {
                    assert(kept.contains_key(n));
                }
            }
            lemma_complete(self.fragments@, total);
        }
        if self.fragments.len() < total as usize {
            return Accepted::Stored;
        }
        let ghost pieces = self@.pieces;
        assert(complete(pieces, total));
        let mut first: u8 = 0;
        let mut inner: Vec<u8> = Vec::new();
        let mut at: u16 = 0;
        assert(contents_to(pieces, 0) =~= Seq::<Seq<u8>>::empty());
        while at < total
            invariant
                pieces == gathered_pieces(self.fragments@),
                complete(pieces, total),
                at <= total,
                at > 0 ==> first == pieces[1].0,
                inner@ == bytes::joined(contents_to(pieces, at as nat)),
            decreases total - at,
        {
            at = at + 1;
            assert(pieces.contains_key(at));
            if let Some(stored) = self.fragments.get(&at) {
                if at == 1 {
                    first = stored.0;
                }
                bytes::push_all(&mut inner, &stored.1);
                proof {
                    let longer = contents_to(pieces, at as nat);
                    assert(longer.drop_last() =~= contents_to(pieces, (at - 1) as nat));
                    assert(longer.last() == stored.1@);
                }
            }
        }
        self.release();
        proof {
            lemma_held_empty(0);
        }
        Accepted::Complete(PayloadType::from_u8(first), inner)
    }
}

impl Gathered {
    /// What an authentic fragment leaves of the fragments in hand.
    spec fn with_kept(self, piece: Piece) -> Map<u16, (u8, Seq<u8>)> {
        if piece.total > self.total {
            Map::empty()
        } else {
            self.pieces
        }
    }
}

/// A fragment that does not authenticate changes nothing: it never takes the
/// place of a genuine one, and never throws genuine ones away.
pub proof fn law_forged_fragment_changes_nothing(
    state: Gathered,
    wire: Seq<u8>,
    cipher: SkCipher,
    sk_e: Seq<u8>,
    sk_a: Seq<u8>,
)
    requires
        opened(cipher, wire, sk_e, sk_a) is Err,
    ensures
        state.accepting(wire, cipher, sk_e, sk_a).0 == state,
        state.accepting(wire, cipher, sk_e, sk_a).1 is Discarded,
{
}

/// The fragments in hand after `pieces`, authentic fragments of the message
/// `key`, came in one after the other.
pub open spec fn gathering(state: Gathered, key: MessageKey, pieces: Seq<Piece>) -> Gathered
    decreases pieces.len(),
{
    if pieces.len() == 0 {
        state
    } else {
        gathering(state, key, pieces.drop_last()).considering(key, pieces.last()).0
    }
}

/// The pieces in hand, when those of `pieces` are.
spec fn by_number(pieces: Seq<Piece>) -> Map<u16, (u8, Seq<u8>)>
    decreases pieces.len(),
{
    if pieces.len() == 0 {
        Map::empty()
    } else {
        by_number(pieces.drop_last()).insert(
            pieces.last().number,
            (pieces.last().next_payload, pieces.last().content),
        )
    }
}

proof fn lemma_by_number(pieces: Seq<Piece>, whole: Seq<Piece>)
    requires
        forall|j: int| 0 <= j < whole.len() ==> (#[trigger] whole[j]).number == j + 1,
        whole.len() < 0x1_0000,
        forall|i: int| 0 <= i < pieces.len() ==> whole.contains(#[trigger] pieces[i]),
    ensures
        forall|number: u16| #[trigger]
            by_number(pieces).contains_key(number) <==> (1 <= number <= whole.len() && pieces.contains(
                whole[number - 1],
            )),
        forall|number: u16| #[trigger]
            by_number(pieces).contains_key(number) ==> by_number(pieces)[number] == (
                whole[number - 1].next_payload,
                whole[number - 1].content,
            ),
    decreases pieces.len(),
{
    if pieces.len() > 0 {
        let before = pieces.drop_last();
        let last = pieces.last();
        assert forall|i: int| 0 <= i < before.len() implies whole.contains(#[trigger] before[i]) by {
            assert(before[i] == pieces[i]);
        }
        lemma_by_number(before, whole);
        assert(whole.contains(pieces[pieces.len() - 1]));
        let j = choose|j: int| 0 <= j < whole.len() && whole[j] == last;
        assert(last.number == j + 1);
        let all = by_number(pieces);
        let prior = by_number(before);
        assert(all == prior.insert(last.number, (last.next_payload, last.content)));
        assert forall|number: u16| #[trigger] all.contains_key(number) implies all[number] == (
            whole[number - 1].next_payload,
            whole[number - 1].content,
        ) by {
            if number != last.number {
                assert(prior.contains_key(number));
            }
        }
        assert forall|number: u16| #[trigger]
            all.contains_key(number) <==> (1 <= number <= whole.len() && pieces.contains(whole[number - 1])) by {
            if number == last.number {
                assert(pieces[pieces.len() - 1] == whole[number - 1]);
            } else {
                assert(all.contains_key(number) == prior.contains_key(number));
                if 1 <= number <= whole.len() {
                    let p = whole[number - 1];
                    assert(p.number == number);
                    if before.contains(p) {
                        let i = choose|i: int| 0 <= i < before.len() && before[i] == p;
                        assert(pieces[i] == p);
                    }
                    if pieces.contains(p) {
                        let i = choose|i: int| 0 <= i < pieces.len() && pieces[i] == p;
                        assert(i < before.len());
                        assert(before[i] == p);
                    }
                }
            }
        }
    }
}

/// How long several octet strings are together.
spec fn total_len(strings: Seq<Seq<u8>>, count: nat) -> nat
    decreases count,
{
    if count == 0 {
        0
    } else {
        total_len(strings, (count - 1) as nat) + strings[count - 1].len()
    }
}

proof fn lemma_total_len(strings: Seq<Seq<u8>>)
    ensures
        bytes::joined(strings).len() == total_len(strings, strings.len()),
    decreases strings.len(),
{
    if strings.len() > 0 {
        lemma_total_len(strings.drop_last());
        lemma_total_len_same(strings.drop_last(), strings, (strings.len() - 1) as nat);
    }
}

proof fn lemma_total_len_same(a: Seq<Seq<u8>>, b: Seq<Seq<u8>>, count: nat)
    requires
        count <= a.len(),
        count <= b.len(),
        forall|i: int| 0 <= i < count ==> a[i] == b[i],
    ensures
        total_len(a, count) == total_len(b, count),
    decreases count,
{
    if count > 0 {
        lemma_total_len_same(a, b, (count - 1) as nat);
    }
}

proof fn lemma_held_within(pieces: Map<u16, (u8, Seq<u8>)>, cut: Seq<Seq<u8>>, count: nat)
    requires
        count <= cut.len() < 0x1_0000,
        forall|number: u16|
            1 <= number <= count && #[trigger] pieces.contains_key(number) ==> pieces[number].1 == cut[number - 1],
    ensures
        held(pieces, count) <= total_len(cut, count),
    decreases count,
{
    if count > 0 {
        lemma_held_within(pieces, cut, (count - 1) as nat);
    }
}

/// In a list with the same members as one whose members differ, members differ.
proof fn lemma_same_members_differ(a: Seq<Piece>, b: Seq<Piece>)
    requires
        same_members(a, b),
        b.no_duplicates(),
    ensures
        a.no_duplicates(),
{
    b.unique_seq_to_set();
    assert(a.to_set() =~= b.to_set()) by {
        assert forall|p: Piece| a.to_set().contains(p) implies b.to_set().contains(p) by {
            let i = choose|i: int| 0 <= i < a.len() && a[i] == p;
            assert(b.contains(a[i]));
        }
        assert forall|p: Piece| b.to_set().contains(p) implies a.to_set().contains(p) by {
            let i = choose|i: int| 0 <= i < b.len() && b[i] == p;
            assert(a.contains(b[i]));
        }
    }
    a.lemma_no_dup_set_cardinality();
}

proof fn lemma_gathering_step(
    key: MessageKey,
    order: Seq<Piece>,
    first_inner: PayloadType,
    inner: Seq<u8>,
    per: nat,
    at: int,
)
    requires
        per > 0,
        first_inner.canonical(),
        chunks(inner, per).len() <= MAX_FRAGMENTS,
        inner.len() <= MAX_REASSEMBLED_LEN,
        same_members(order, pieces_of(first_inner, inner, per)),
        0 <= at < order.len(),
    ensures
        gathering(Gathered::nothing(key), key, order.take(at)) == (Gathered {
            key,
            total: if at == 0 {
                0
            } else {
                chunks(inner, per).len() as u16
            },
            pieces: by_number(order.take(at)),
        }),
        gathering(Gathered::nothing(key), key, order.take(at)).considering(key, order[at]) == (if at + 1 == order.len() {
            (Gathered::nothing(key), Outcome::Complete(first_inner, inner))
        } else {
            (
                Gathered {
                    key,
                    total: chunks(inner, per).len() as u16,
                    pieces: by_number(order.take(at + 1)),
                },
                Outcome::Stored,
            )
        }),
    decreases at,
{
    let cut = chunks(inner, per);
    let whole = pieces_of(first_inner, inner, per);
    let total = cut.len() as u16;
    assert(whole.no_duplicates()) by {
        assert forall|i: int, j: int| 0 <= i < j < whole.len() implies whole[i] != whole[j] by {
            assert(whole[i].number == i + 1 && whole[j].number == j + 1);
        }
    }
    lemma_same_members_differ(order, whole);
    if at == 0 {
        assert(order.take(0) =~= Seq::<Piece>::empty());
        assert(by_number(order.take(0)) =~= Map::<u16, (u8, Seq<u8>)>::empty());
    } else {
        lemma_gathering_step(key, order, first_inner, inner, per, at - 1);
        assert(order.take(at).drop_last() =~= order.take(at - 1));
        assert(order.take(at).last() == order[at - 1]);
    }
    let state = gathering(Gathered::nothing(key), key, order.take(at));
    let now = order.take(at);
    let then = order.take(at + 1);
    let piece = order[at];
    assert(then.drop_last() =~= now);
    assert(then.last() == piece);
    assert forall|i: int| 0 <= i < now.len() implies whole.contains(#[trigger] now[i]) by {
        assert(whole.contains(order[i]));
    }
    assert forall|i: int| 0 <= i < then.len() implies whole.contains(#[trigger] then[i]) by {
        assert(whole.contains(order[i]));
    }
    lemma_by_number(now, whole);
    lemma_by_number(then, whole);
    assert(whole.contains(order[at]));
    let j = choose|j: int| 0 <= j < whole.len() && whole[j] == piece;
    assert(piece.number == j + 1 && piece.total == total);
    assert(!now.contains(piece)) by {
        if now.contains(piece) {
            let i = choose|i: int| 0 <= i < now.len() && now[i] == piece;
            assert(order[i] == order[at]);
        }
    }
    assert(!by_number(now).contains_key(piece.number));
    let kept = by_number(now);
    let value = (piece.next_payload, piece.content);
    let pieces = by_number(then);
    assert(pieces == kept.insert(piece.number, value));
    lemma_held_insert(kept, piece.number, value, total as nat);
    assert forall|number: u16| 1 <= number <= cut.len() && #[trigger] pieces.contains_key(number) implies pieces[number].1
        == cut[number - 1] by {
        assert(whole[number - 1].content == cut[number - 1]);
    }
    lemma_held_within(pieces, cut, cut.len());
    lemma_total_len(cut);
    law_chunks_join(inner, per);
    if at == 0 {
        lemma_held_empty(total as nat);
    }
    if at + 1 == order.len() {
        assert(then =~= order);
        assert forall|number: u16| 1 <= number <= total implies #[trigger] pieces.contains_key(number) by {
            assert(order.contains(whole[number - 1]));
        }
        assert(pieces.contains_key(1));
        assert(contents_to(pieces, total as nat) =~= cut) by {
            assert forall|i: int| 0 <= i < cut.len() implies contents_to(pieces, total as nat)[i] == cut[i] by {
                assert(pieces.contains_key((i + 1) as u16));
            }
        }
        assert(whole[0].next_payload == first_inner.octet());
    } else {
        let missing = order.last();
        assert(whole.contains(order[order.len() - 1]));
        let m = choose|m: int| 0 <= m < whole.len() && whole[m] == missing;
        let number = (m + 1) as u16;
        assert(!then.contains(missing)) by {
            if then.contains(missing) {
                let i = choose|i: int| 0 <= i < then.len() && then[i] == missing;
                assert(order[i] == order[order.len() - 1]);
            }
        }
        assert(!pieces.contains_key(number));
    }
}

/// The authentic fragments of a message complete it in whatever order they come
/// in: every one but the last is stored, and the last one yields the first inner
/// payload type and the inner payloads, and releases the fragments.
pub proof fn law_any_order_completes(
    key: MessageKey,
    order: Seq<Piece>,
    first_inner: PayloadType,
    inner: Seq<u8>,
    per: nat,
)
    requires
        per > 0,
        first_inner.canonical(),
        chunks(inner, per).len() <= MAX_FRAGMENTS,
        inner.len() <= MAX_REASSEMBLED_LEN,
        same_members(order, pieces_of(first_inner, inner, per)),
    ensures
        order.len() > 0,
        forall|at: int|
            0 <= at < order.len() - 1 ==> gathering(
                Gathered::nothing(key),
                key,
                #[trigger] order.take(at),
            ).considering(key, order[at]).1 == Outcome::Stored,
        gathering(Gathered::nothing(key), key, order.drop_last()).considering(key, order.last()) == (
            Gathered::nothing(key),
            Outcome::Complete(first_inner, inner),
        ),
{
    lemma_chunks(inner, per);
    assert forall|at: int| 0 <= at < order.len() - 1 implies gathering(
        Gathered::nothing(key),
        key,
        #[trigger] order.take(at),
    ).considering(key, order[at]).1 == Outcome::Stored by {
        lemma_gathering_step(key, order, first_inner, inner, per, at);
    }
    lemma_gathering_step(key, order, first_inner, inner, per, order.len() - 1);
    assert(order.take(order.len() - 1) =~= order.drop_last());
}

/// The smallest IKE message [`fragment_message`] can put content in under
/// every cipher: AES-CBC with HMAC-SHA2-512-256 takes 28 (IKE header) + 8
/// (SKF header) + 16 (IV) + 32 (ICV) and a whole 16-octet block.
pub const MIN_FRAGMENT_MESSAGE_LEN: usize = 100;

/// Under every cipher a fragment of [`MIN_FRAGMENT_MESSAGE_LEN`] octets carries
/// content; the costliest cannot do with an octet less.
pub proof fn law_smallest_fragment_carries_content(cipher: SkCipher)
    ensures
        content_room(cipher, MIN_FRAGMENT_MESSAGE_LEN as nat) > 0,
        content_room(
            SkCipher::Aes256Cbc(crate::crypto::IntegAlgorithm::HmacSha2_512_256),
            (MIN_FRAGMENT_MESSAGE_LEN - 1) as nat,
        ) == 0,
{
}

/// An IPv4 header without options.
const IPV4_HEADER_LEN: usize = 20;

/// An IPv6 header without extension headers.
const IPV6_HEADER_LEN: usize = 40;

const UDP_HEADER_LEN: usize = 8;

const NON_ESP_MARKER_LEN: usize = 4;

/// The largest whole IP datagram, per family of the outer transport, that
/// a message of ours may travel in. A message larger than that is sent in
/// fragments when the peer negotiated them (RFC 7383), each fragment's
/// datagram within the limit.
///
/// The limit covers the IP and UDP headers and, once the transport has
/// floated to port 4500, the non-ESP marker; [`Self::max_message_len`]
/// takes them off. It is a fixed figure: nothing here discovers the path
/// MTU, and a path narrower than the limit still fragments at the IP layer.
///
/// The default takes 576 octets for IPv4 and 1280 for IPv6,
/// the datagram every IPv4 host must accept and the IPv6 minimum link MTU.
#[derive(Debug, Clone, Copy, PartialEq, Eq)]
pub struct DatagramLimit {
    ipv4: usize,
    ipv6: usize,
}

/// A [`DatagramLimit`] no IKE fragment fits in, or no IP datagram reaches.
#[derive(Debug, Clone, Copy, PartialEq, Eq)]
pub struct DatagramLimitError {
    family: &'static str,
    requested: usize,
    min: usize,
    max: usize,
}

/// Why a limit of `requested` octets is refused, in words.
pub open spec fn limit_text(family: Seq<char>, requested: nat, min: nat, max: nat) -> Seq<char> {
    "a limit of "@ + text::decimal(requested) + " bytes for an "@ + family + " datagram is outside "@
        + text::decimal(min) + "..="@ + text::decimal(max)
}

impl DatagramLimitError {
    /// The error in words.
    pub closed spec fn words(&self) -> Seq<char> {
        limit_text(self.family@, self.requested as nat, self.min as nat, self.max as nat)
    }

    /// The error in words.
    pub fn to_string(&self) -> (out: String)
        ensures
            out@ == self.words(),
    {
        let mut out = String::from_str("a limit of ");
        text::push_decimal(&mut out, self.requested as u64);
        out.append(" bytes for an ");
        out.append(self.family);
        out.append(" datagram is outside ");
        text::push_decimal(&mut out, self.min as u64);
        out.append("..=");
        text::push_decimal(&mut out, self.max as u64);
        out
    }
}

impl DatagramLimit {
    /// The limit for an IPv4 datagram, headers included.
    pub closed spec fn v4(&self) -> nat {
        self.ipv4 as nat
    }

    /// The limit for an IPv6 datagram, headers included.
    pub closed spec fn v6(&self) -> nat {
        self.ipv6 as nat
    }

    /// Whether both limits leave room for a fragment and fit their family's
    /// largest datagram.
    pub open spec fn wf(&self) -> bool {
        132 <= self.v4() <= 65535 && 152 <= self.v6() <= 65575
    }

    /// A limit of `ipv4` octets for an IPv4 datagram and `ipv6` for an IPv6
    /// one, headers included. Each must leave room, past the IP header
    /// (20 or 40 octets), UDP header and non-ESP marker, for a fragment that
    /// carries content under every cipher, and be no larger than the
    /// family's largest datagram (65535 octets for IPv4; for IPv6, a
    /// payload of 65535 octets past its header).
    pub fn new(ipv4: usize, ipv6: usize) -> (limit: Result<DatagramLimit, DatagramLimitError>)
        ensures
            match limit {
                Ok(limit) => limit.wf() && limit.v4() == ipv4 && limit.v6() == ipv6,
                Err(error) => if !(132 <= ipv4 <= 65535) {
                    error.words() == limit_text("IPv4"@, ipv4 as nat, 132, 65535)
                } else {
                    &&& !(152 <= ipv6 <= 65575)
                    &&& error.words() == limit_text("IPv6"@, ipv6 as nat, 152, 65575)
                },
            },
    {
        match check_family("IPv4", ipv4, IPV4_HEADER_LEN, 65535) {
            Ok(()) => (),
            Err(error) => {
                return Err(error);
            },
        }
        match check_family("IPv6", ipv6, IPV6_HEADER_LEN, IPV6_HEADER_LEN + 65535) {
            Ok(()) => (),
            Err(error) => {
                return Err(error);
            },
        }
        Ok(DatagramLimit { ipv4, ipv6 })
    }

    /// The limit for an IPv4 datagram, headers included.
    pub fn ipv4(&self) -> (len: usize)
        ensures
            len == self.v4(),
    {
        self.ipv4
    }

    /// The limit for an IPv6 datagram, headers included.
    pub fn ipv6(&self) -> (len: usize)
        ensures
            len == self.v6(),
    {
        self.ipv6
    }

    /// The largest IKE message, its header included, that fits the limit
    /// when sent to `peer`, with the non-ESP marker in front when
    /// `non_esp_marker`. An IPv4-mapped IPv6 address travels as IPv4.
    pub fn max_message_len(&self, peer: IpAddress, non_esp_marker: bool) -> (len: usize)
        requires
            self.wf(),
        ensures
            len + 8 + (if non_esp_marker {
                4int
            } else {
                0
            }) == (if peer.travels_as_ipv4() {
                self.v4() - 20
            } else {
                self.v6() - 40
            }),
            len >= MIN_FRAGMENT_MESSAGE_LEN,
    {
        let marker: usize = if non_esp_marker {
            NON_ESP_MARKER_LEN
        } else {
            0
        };
        if peer.is_ipv4() {
            self.ipv4 - IPV4_HEADER_LEN - UDP_HEADER_LEN - marker
        } else {
            self.ipv6 - IPV6_HEADER_LEN - UDP_HEADER_LEN - marker
        }
    }
}

impl Default for DatagramLimit {
    /// 576 octets for IPv4, 1280 for IPv6.
    fn default() -> (limit: Self)
        ensures
            limit.wf(),
            limit.v4() == 576,
            limit.v6() == 1280,
    {
        DatagramLimit { ipv4: 576, ipv6: 1280 }
    }
}

fn check_family(family: &'static str, requested: usize, ip_header: usize, max: usize) -> (out: Result<
    (),
    DatagramLimitError,
>)
    requires
        ip_header <= 40,
    ensures
        match out {
            Ok(()) => ip_header + 112 <= requested <= max,
            Err(error) => {
                &&& !(ip_header + 112 <= requested <= max)
                &&& error.words() == limit_text(
                    family@,
                    requested as nat,
                    (ip_header + 112) as nat,
                    max as nat,
                )
            },
        },
{
    let min: usize = ip_header + UDP_HEADER_LEN + NON_ESP_MARKER_LEN + MIN_FRAGMENT_MESSAGE_LEN;
    if min <= requested && requested <= max {
        Ok(())
    } else {
        Err(DatagramLimitError { family, requested, min, max })
    }
}

} // verus!
