//! Octet strings: big-endian integers and slices of them.

use vstd::prelude::*;

verus! {

/// The two octets of `value`, most significant first.
pub open spec fn be16(value: u16) -> Seq<u8> {
    seq![(value / 256) as u8, (value % 256) as u8]
}

/// The four octets of `value`, most significant first.
#[verifier::opaque]
pub open spec fn be32(value: u32) -> Seq<u8> {
    be16((value / 0x1_0000) as u16) + be16((value % 0x1_0000) as u16)
}

/// The eight octets of `value`, most significant first.
#[verifier::opaque]
pub open spec fn be64(value: u64) -> Seq<u8> {
    be32((value / 0x1_0000_0000) as u32) + be32((value % 0x1_0000_0000) as u32)
}

/// The 16-bit integer at offset `at` of `s`.
pub open spec fn at16(s: Seq<u8>, at: int) -> u16 {
    (s[at] * 256 + s[at + 1]) as u16
}

/// The 32-bit integer at offset `at` of `s`.
#[verifier::opaque]
pub open spec fn at32(s: Seq<u8>, at: int) -> u32 {
    (at16(s, at) * 0x1_0000 + at16(s, at + 2)) as u32
}

/// The 64-bit integer at offset `at` of `s`.
#[verifier::opaque]
pub open spec fn at64(s: Seq<u8>, at: int) -> u64 {
    (at32(s, at) * 0x1_0000_0000 + at32(s, at + 4)) as u64
}

/// `s` from offset `at` on.
pub open spec fn from(s: Seq<u8>, at: int) -> Seq<u8> {
    s.subrange(at, s.len() as int)
}

/// `count` zero octets.
pub open spec fn zeros(count: nat) -> Seq<u8> {
    Seq::new(count, |i: int| 0u8)
}

/// Several octet strings, each taken by its contents.
pub open spec fn contents(strings: Seq<Vec<u8>>) -> Seq<Seq<u8>> {
    strings.map_values(|s: Vec<u8>| s@)
}

/// Several octet strings joined.
pub open spec fn joined(strings: Seq<Seq<u8>>) -> Seq<u8>
    decreases strings.len(),
{
    if strings.len() == 0 {
        Seq::empty()
    } else {
        joined(strings.drop_last()) + strings.last()
    }
}

/// How many octets [`be32`] writes.
pub broadcast proof fn lemma_be32_len(value: u32)
    ensures
        (#[trigger] be32(value)).len() == 4,
{
    reveal(be32);
}

/// How many octets [`be64`] writes.
pub broadcast proof fn lemma_be64_len(value: u64)
    ensures
        (#[trigger] be64(value)).len() == 8,
{
    reveal(be32);
    reveal(be64);
}

/// How many octets the big-endian integers take.
pub broadcast group group_lengths {
    lemma_be32_len,
    lemma_be64_len,
}

/// Reading back what [`be16`] wrote, wherever it stands.
pub proof fn lemma_at16_be16(s: Seq<u8>, at: int, value: u16)
    requires
        0 <= at,
        at + 2 <= s.len(),
        s.subrange(at, at + 2) == be16(value),
    ensures
        at16(s, at) == value,
{
    assert(s.subrange(at, at + 2)[0] == s[at]);
    assert(s.subrange(at, at + 2)[1] == s[at + 1]);
}

/// Reading back what [`be32`] wrote, wherever it stands.
pub proof fn lemma_at32_be32(s: Seq<u8>, at: int, value: u32)
    requires
        0 <= at,
        at + 4 <= s.len(),
        s.subrange(at, at + 4) == be32(value),
    ensures
        at32(s, at) == value,
{
    reveal(be32);
    reveal(at32);
    assert(s.subrange(at, at + 4).subrange(0, 2) =~= s.subrange(at, at + 2));
    assert(s.subrange(at, at + 4).subrange(2, 4) =~= s.subrange(at + 2, at + 4));
    let hi = (value / 0x1_0000) as u16;
    let lo = (value % 0x1_0000) as u16;
    assert(be32(value).subrange(0, 2) =~= be16(hi));
    assert(be32(value).subrange(2, 4) =~= be16(lo));
    lemma_at16_be16(s, at, hi);
    lemma_at16_be16(s, at + 2, lo);
}

/// Reading back what [`be64`] wrote, wherever it stands.
pub proof fn lemma_at64_be64(s: Seq<u8>, at: int, value: u64)
    requires
        0 <= at,
        at + 8 <= s.len(),
        s.subrange(at, at + 8) == be64(value),
    ensures
        at64(s, at) == value,
{
    broadcast use group_lengths;
    reveal(be64);
    reveal(at64);
    assert(s.subrange(at, at + 8).subrange(0, 4) =~= s.subrange(at, at + 4));
    assert(s.subrange(at, at + 8).subrange(4, 8) =~= s.subrange(at + 4, at + 8));
    let hi = (value / 0x1_0000_0000) as u32;
    let lo = (value % 0x1_0000_0000) as u32;
    assert(be64(value).subrange(0, 4) =~= be32(hi));
    assert(be64(value).subrange(4, 8) =~= be32(lo));
    lemma_at32_be32(s, at, hi);
    lemma_at32_be32(s, at + 4, lo);
}

/// Whether `wire` is `sealed` but for its last `tag` octets, which differ.
pub open spec fn altered(wire: Seq<u8>, sealed: Seq<u8>, tag: nat) -> bool {
    &&& tag <= sealed.len() == wire.len()
    &&& wire.take(wire.len() - tag) == sealed.take(wire.len() - tag)
    &&& wire != sealed
}

/// The 16-bit big-endian integer at offset `at`.
pub fn get16(s: &[u8], at: usize) -> (value: u16)
    requires
        at + 2 <= s.len(),
    ensures
        value == at16(s@, at as int),
{
    s[at] as u16 * 256 + s[at + 1] as u16
}

/// The 32-bit big-endian integer at offset `at`.
pub fn get32(s: &[u8], at: usize) -> (value: u32)
    requires
        at + 4 <= s.len(),
    ensures
        value == at32(s@, at as int),
{
    reveal(at32);
    get16(s, at) as u32 * 0x1_0000 + get16(s, at + 2) as u32
}

/// The 64-bit big-endian integer at offset `at`.
pub fn get64(s: &[u8], at: usize) -> (value: u64)
    requires
        at + 8 <= s.len(),
    ensures
        value == at64(s@, at as int),
{
    reveal(at64);
    get32(s, at) as u64 * 0x1_0000_0000 + get32(s, at + 4) as u64
}

/// Append the octets of `value`, most significant first.
pub fn push16(out: &mut Vec<u8>, value: u16)
    ensures
        final(out)@ == old(out)@ + be16(value),
{
    out.push((value / 256) as u8);
    out.push((value % 256) as u8);
    assert(out@ =~= old(out)@ + be16(value));
}

/// Append the octets of `value`, most significant first.
pub fn push32(out: &mut Vec<u8>, value: u32)
    ensures
        final(out)@ == old(out)@ + be32(value),
{
    reveal(be32);
    push16(out, (value / 0x1_0000) as u16);
    push16(out, (value % 0x1_0000) as u16);
    assert(out@ =~= old(out)@ + be32(value));
}

/// Append the octets of `value`, most significant first.
pub fn push64(out: &mut Vec<u8>, value: u64)
    ensures
        final(out)@ == old(out)@ + be64(value),
{
    reveal(be64);
    push32(out, (value / 0x1_0000_0000) as u32);
    push32(out, (value % 0x1_0000_0000) as u32);
    assert(out@ =~= old(out)@ + be64(value));
}

/// Append every octet of `s`.
pub fn push_all(out: &mut Vec<u8>, s: &[u8])
    ensures
        final(out)@ == old(out)@ + s@,
{
    out.extend_from_slice(s);
    assert(out@ =~= old(out)@ + s@);
}

/// Append `count` zero octets.
pub fn push_zeros(out: &mut Vec<u8>, count: usize)
    ensures
        final(out)@ == old(out)@ + zeros(count as nat),
{
    for i in 0..count
        invariant
            out@ == old(out)@ + zeros(i as nat),
    {
        out.push(0);
        assert(out@ =~= old(out)@ + zeros((i + 1) as nat));
    }
    assert(out@ =~= old(out)@ + zeros(count as nat));
}

/// A fresh copy of `s`.
pub fn copy(s: &[u8]) -> (out: Vec<u8>)
    ensures
        out@ == s@,
{
    vstd::slice::slice_to_vec(s)
}

/// `s` from offset `at` on.
pub fn tail(s: &[u8], at: usize) -> (out: &[u8])
    requires
        at <= s@.len(),
    ensures
        out@ == from(s@, at as int),
{
    vstd::slice::slice_subrange(s, at, s.len())
}

/// The octets of `s` from `start` up to `end`.
pub fn range(s: &[u8], start: usize, end: usize) -> (out: &[u8])
    requires
        start <= end <= s@.len(),
    ensures
        out@ == s@.subrange(start as int, end as int),
{
    vstd::slice::slice_subrange(s, start, end)
}

/// Whether `a` and `b` hold the same octets. Every octet is compared, whatever
/// the first difference.
pub fn same(a: &[u8], b: &[u8]) -> (equal: bool)
    ensures
        equal == (a@ == b@),
{
    if a.len() != b.len() {
        return false;
    }
    let mut diff: u8 = 0;
    for i in 0..a.len()
        invariant
            a@.len() == b@.len(),
            (diff == 0) == (forall|j: int| 0 <= j < i ==> a@[j] == b@[j]),
    {
        let x: u8 = a[i];
        let y: u8 = b[i];
        let so_far: u8 = diff;
        diff = so_far | (x ^ y);
        assert((so_far | (x ^ y)) == 0 <==> (so_far == 0 && x == y)) by (bit_vector);
    }
    let equal: bool = diff == 0;
    assert(equal ==> a@ =~= b@);
    equal
}

/// The eight octets of `s` from offset `at`.
pub fn array8(s: &[u8], at: usize) -> (out: [u8; 8])
    requires
        at + 8 <= s.len(),
    ensures
        out@ == s@.subrange(at as int, at + 8),
{
    let mut out: [u8; 8] = [0; 8];
    for i in 0..8usize
        invariant
            at + 8 <= s.len(),
            forall|j: int| 0 <= j < i ==> out@[j] == s@[at + j],
    {
        out[i] = s[at + i];
    }
    assert(out@ =~= s@.subrange(at as int, at + 8));
    out
}

/// The sixteen octets of `s` from offset `at`.
pub fn array16(s: &[u8], at: usize) -> (out: [u8; 16])
    requires
        at + 16 <= s.len(),
    ensures
        out@ == s@.subrange(at as int, at + 16),
{
    let mut out: [u8; 16] = [0; 16];
    for i in 0..16usize
        invariant
            at + 16 <= s.len(),
            forall|j: int| 0 <= j < i ==> out@[j] == s@[at + j],
    {
        out[i] = s[at + i];
    }
    assert(out@ =~= s@.subrange(at as int, at + 16));
    out
}

/// The twenty octets of `s` from offset `at`.
pub fn array20(s: &[u8], at: usize) -> (out: [u8; 20])
    requires
        at + 20 <= s.len(),
    ensures
        out@ == s@.subrange(at as int, at + 20),
{
    let mut out: [u8; 20] = [0; 20];
    for i in 0..20usize
        invariant
            at + 20 <= s.len(),
            forall|j: int| 0 <= j < i ==> out@[j] == s@[at + j],
    {
        out[i] = s[at + i];
    }
    assert(out@ =~= s@.subrange(at as int, at + 20));
    out
}

/// The twenty-four octets of `s` from offset `at`.
pub fn array24(s: &[u8], at: usize) -> (out: [u8; 24])
    requires
        at + 24 <= s.len(),
    ensures
        out@ == s@.subrange(at as int, at + 24),
{
    let mut out: [u8; 24] = [0; 24];
    for i in 0..24usize
        invariant
            at + 24 <= s.len(),
            forall|j: int| 0 <= j < i ==> out@[j] == s@[at + j],
    {
        out[i] = s[at + i];
    }
    assert(out@ =~= s@.subrange(at as int, at + 24));
    out
}

/// The sixty-four octets of `s` from offset `at`.
pub fn array64(s: &[u8], at: usize) -> (out: [u8; 64])
    requires
        at + 64 <= s.len(),
    ensures
        out@ == s@.subrange(at as int, at + 64),
{
    let mut out: [u8; 64] = [0; 64];
    for i in 0..64usize
        invariant
            at + 64 <= s.len(),
            forall|j: int| 0 <= j < i ==> out@[j] == s@[at + j],
    {
        out[i] = s[at + i];
    }
    assert(out@ =~= s@.subrange(at as int, at + 64));
    out
}

/// Numbers are written with their most significant octet first.
pub proof fn law_big_endian_written(a: u16, b: u32, c: u64)
    ensures
        be16(a) == seq![(a / 0x100) as u8, (a % 0x100) as u8],
        be32(b) == seq![
            (b / 0x100_0000) as u8,
            (b / 0x1_0000 % 0x100) as u8,
            (b / 0x100 % 0x100) as u8,
            (b % 0x100) as u8,
        ],
        be64(c) == seq![
            (c / 0x100_0000_0000_0000) as u8,
            (c / 0x1_0000_0000_0000 % 0x100) as u8,
            (c / 0x100_0000_0000 % 0x100) as u8,
            (c / 0x1_0000_0000 % 0x100) as u8,
            (c / 0x100_0000 % 0x100) as u8,
            (c / 0x1_0000 % 0x100) as u8,
            (c / 0x100 % 0x100) as u8,
            (c % 0x100) as u8,
        ],
{
    reveal(be32);
    reveal(be64);
    assert((b / 0x1_0000) / 0x100 == b / 0x100_0000 && (b / 0x1_0000) % 0x100 == b / 0x1_0000 % 0x100 && (b % 0x1_0000)
        / 0x100 == b / 0x100 % 0x100 && (b % 0x1_0000) % 0x100 == b % 0x100) by (bit_vector);
    assert((c / 0x1_0000_0000) / 0x1_0000 == c / 0x1_0000_0000_0000 && (c / 0x1_0000_0000) % 0x1_0000 == c
        / 0x1_0000_0000 % 0x1_0000 && (c % 0x1_0000_0000) / 0x1_0000 == c / 0x1_0000 % 0x1_0000 && (c % 0x1_0000_0000)
        % 0x1_0000 == c % 0x1_0000) by (bit_vector);
    assert((c / 0x1_0000_0000_0000) / 0x100 == c / 0x100_0000_0000_0000 && (c / 0x1_0000_0000 % 0x1_0000) / 0x100 == c
        / 0x100_0000_0000 % 0x100 && (c / 0x1_0000_0000 % 0x1_0000) % 0x100 == c / 0x1_0000_0000 % 0x100 && (c / 0x1_0000
        % 0x1_0000) / 0x100 == c / 0x100_0000 % 0x100 && (c / 0x1_0000 % 0x1_0000) % 0x100 == c / 0x1_0000 % 0x100 && (c
        % 0x1_0000) / 0x100 == c / 0x100 % 0x100 && (c % 0x1_0000) % 0x100 == c % 0x100) by (bit_vector);
    assert(be32(b) =~= seq![
        (b / 0x100_0000) as u8,
        (b / 0x1_0000 % 0x100) as u8,
        (b / 0x100 % 0x100) as u8,
        (b % 0x100) as u8,
    ]);
    assert(be64(c) =~= seq![
        (c / 0x100_0000_0000_0000) as u8,
        (c / 0x1_0000_0000_0000 % 0x100) as u8,
        (c / 0x100_0000_0000 % 0x100) as u8,
        (c / 0x1_0000_0000 % 0x100) as u8,
        (c / 0x100_0000 % 0x100) as u8,
        (c / 0x1_0000 % 0x100) as u8,
        (c / 0x100 % 0x100) as u8,
        (c % 0x100) as u8,
    ]);
}

/// Numbers are read with their most significant octet first.
pub proof fn law_big_endian_read(s: Seq<u8>, at: int)
    ensures
        at16(s, at) == s[at] * 0x100 + s[at + 1],
        at32(s, at) == s[at] * 0x100_0000 + s[at + 1] * 0x1_0000 + s[at + 2] * 0x100 + s[at + 3],
        at64(s, at) == s[at] * 0x100_0000_0000_0000 + s[at + 1] * 0x1_0000_0000_0000 + s[at + 2] * 0x100_0000_0000
            + s[at + 3] * 0x1_0000_0000 + s[at + 4] * 0x100_0000 + s[at + 5] * 0x1_0000 + s[at + 6] * 0x100 + s[at + 7],
{
    reveal(at32);
    reveal(at64);
    assert(at16(s, at) == s[at] * 0x100 + s[at + 1]);
    assert(at16(s, at + 2) == s[at + 2] * 0x100 + s[at + 3]);
    assert(at16(s, at + 4) == s[at + 4] * 0x100 + s[at + 5]);
    assert(at16(s, at + 6) == s[at + 6] * 0x100 + s[at + 7]);
    assert(at32(s, at) == at16(s, at) * 0x1_0000 + at16(s, at + 2));
    assert(at32(s, at + 4) == at16(s, at + 4) * 0x1_0000 + at16(s, at + 6));
    assert(at64(s, at) == at32(s, at) * 0x1_0000_0000 + at32(s, at + 4));
}

/// Two, four or eight octets are what the number read from them is written as.
pub proof fn law_written_as_read(s: Seq<u8>, at: int)
    requires
        0 <= at,
    ensures
        at + 2 <= s.len() ==> be16(at16(s, at)) == s.subrange(at, at + 2),
        at + 4 <= s.len() ==> be32(at32(s, at)) == s.subrange(at, at + 4),
        at + 8 <= s.len() ==> be64(at64(s, at)) == s.subrange(at, at + 8),
{
    lemma_written_half(s, at);
    if at + 4 <= s.len() {
        lemma_written_word(s, at);
    }
    if at + 8 <= s.len() {
        lemma_written_word(s, at + 4);
        reveal(be64);
        reveal(at64);
        let value = at64(s, at);
        assert(value / 0x1_0000_0000 == at32(s, at) && value % 0x1_0000_0000 == at32(s, at + 4));
        assert(be64(value) =~= s.subrange(at, at + 8));
    }
}

proof fn lemma_written_half(s: Seq<u8>, at: int)
    requires
        0 <= at,
    ensures
        at + 2 <= s.len() ==> be16(at16(s, at)) == s.subrange(at, at + 2),
{
    if at + 2 <= s.len() {
        assert(be16(at16(s, at)) =~= s.subrange(at, at + 2));
    }
}

proof fn lemma_written_word(s: Seq<u8>, at: int)
    requires
        0 <= at,
        at + 4 <= s.len(),
    ensures
        be32(at32(s, at)) == s.subrange(at, at + 4),
{
    reveal(be32);
    reveal(at32);
    lemma_written_half(s, at);
    lemma_written_half(s, at + 2);
    let value = at32(s, at);
    assert(value / 0x1_0000 == at16(s, at) && value % 0x1_0000 == at16(s, at + 2));
    assert(be32(value) =~= s.subrange(at, at + 4));
}

} // verus!
