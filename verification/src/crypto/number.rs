//! Numbers as octet strings, most significant octet first.

use vstd::arithmetic::power::pow;
use vstd::prelude::*;

use crate::bytes;

verus! {

/// The number `s` writes out.
pub open spec fn number(s: Seq<u8>) -> nat
    decreases s.len(),
{
    if s.len() == 0 {
        0
    } else {
        number(s.drop_last()) * 256 + s.last() as nat
    }
}

/// `value` written out in `len` octets.
pub open spec fn written(value: nat, len: nat) -> Seq<u8>
    decreases len,
{
    if len == 0 {
        Seq::empty()
    } else {
        written(value / 256, (len - 1) as nat).push((value % 256) as u8)
    }
}

/// `256` to the power of `len`: how many numbers `len` octets can write.
pub open spec fn span(len: nat) -> nat
    decreases len,
{
    if len == 0 {
        1
    } else {
        256 * span((len - 1) as nat)
    }
}

/// A number is below what its octets can write.
pub proof fn lemma_number_bound(s: Seq<u8>)
    ensures
        number(s) < span(s.len()),
    decreases s.len(),
{
    if s.len() > 0 {
        lemma_number_bound(s.drop_last());
    }
}

/// A number whose first octet is not zero needs all of its octets.
pub proof fn lemma_number_floor(s: Seq<u8>)
    requires
        s.len() > 0,
        s[0] != 0,
    ensures
        number(s) >= span((s.len() - 1) as nat),
    decreases s.len(),
{
    if s.len() > 1 {
        lemma_number_floor(s.drop_last());
    } else {
        assert(s.drop_last() =~= Seq::<u8>::empty());
        assert(number(s.drop_last()) == 0);
    }
}

/// More octets write more numbers.
pub proof fn lemma_span_grows(a: nat, b: nat)
    requires
        a <= b,
    ensures
        0 < span(a) <= span(b),
    decreases b,
{
    if b > a {
        lemma_span_grows(a, (b - 1) as nat);
    } else if a > 0 {
        lemma_span_grows((a - 1) as nat, (a - 1) as nat);
    }
}

/// Writing out a number's value in as many octets gives those octets.
pub proof fn lemma_written_number(s: Seq<u8>)
    ensures
        written(number(s), s.len()) == s,
    decreases s.len(),
{
    if s.len() > 0 {
        lemma_written_number(s.drop_last());
        let value = number(s);
        let high = number(s.drop_last());
        assert(value / 256 == high && value % 256 == s.last() as nat);
        assert(written(value, s.len()) =~= s);
    } else {
        assert(s =~= Seq::<u8>::empty());
    }
}

/// How many octets are written out.
pub proof fn lemma_written_len(value: nat, len: nat)
    ensures
        written(value, len).len() == len,
    decreases len,
{
    if len > 0 {
        lemma_written_len(value / 256, (len - 1) as nat);
    }
}

/// Reading what was written out gives the value, where it fits.
pub proof fn lemma_number_written(value: nat, len: nat)
    requires
        value < span(len),
    ensures
        number(written(value, len)) == value,
        written(value, len).len() == len,
    decreases len,
{
    if len > 0 {
        lemma_number_written(value / 256, (len - 1) as nat);
        assert(written(value, len).drop_last() =~= written(value / 256, (len - 1) as nat));
    }
}

/// Leading zeros do not change a number.
pub proof fn lemma_number_zeros(count: nat, s: Seq<u8>)
    ensures
        number(bytes::zeros(count) + s) == number(s),
    decreases count + s.len(),
{
    let padded = bytes::zeros(count) + s;
    if s.len() > 0 {
        lemma_number_zeros(count, s.drop_last());
        assert(padded.drop_last() =~= bytes::zeros(count) + s.drop_last());
        assert(padded.last() == s.last());
    } else if count > 0 {
        lemma_number_zeros((count - 1) as nat, s);
        assert(padded.drop_last() =~= bytes::zeros((count - 1) as nat) + s);
        assert(s =~= Seq::<u8>::empty());
    } else {
        assert(padded =~= s);
    }
}

/// `num_bigint::BigUint::modpow`, on numbers read by `from_bytes_be` and the
/// result written by `to_bytes_be`: `base` to the power of `exponent` modulo
/// `modulus`, in as few octets as write it, at least one.
#[verifier::external_body]
pub(crate) fn mod_pow(base: &[u8], exponent: &[u8], modulus: &[u8]) -> (power: Vec<u8>)
    requires
        number(modulus@) > 0,
    ensures
        number(power@) == pow(number(base@) as int, number(exponent@)) % (number(modulus@) as int),
        power@.len() >= 1,
        power@.len() == 1 || power@[0] != 0,
{
    num_bigint::BigUint::from_bytes_be(base).modpow(
        &num_bigint::BigUint::from_bytes_be(exponent),
        &num_bigint::BigUint::from_bytes_be(modulus),
    ).to_bytes_be()
}

/// `base` to the power of `exponent` modulo `modulus`, in as many octets as
/// `modulus` takes.
pub fn power_modulo(base: &[u8], exponent: &[u8], modulus: &[u8]) -> (out: Vec<u8>)
    requires
        number(modulus@) > 0,
    ensures
        out@ == written(
            (pow(number(base@) as int, number(exponent@)) % (number(modulus@) as int)) as nat,
            modulus@.len(),
        ),
        out@.len() == modulus@.len(),
{
    let power = mod_pow(base, exponent, modulus);
    proof {
        lemma_number_bound(modulus@);
        lemma_number_bound(power@);
        let value = pow(number(base@) as int, number(exponent@));
        let m = number(modulus@) as int;
        vstd::arithmetic::div_mod::lemma_mod_bound(value, m);
        assert(modulus@.len() > 0) by {
            if modulus@.len() == 0 {
                assert(number(modulus@) == 0);
            }
        }
        if power@.len() > modulus@.len() {
            lemma_number_floor(power@);
            lemma_span_grows(modulus@.len(), (power@.len() - 1) as nat);
        }
    }
    let fill: usize = modulus.len() - power.len();
    let mut out: Vec<u8> = Vec::new();
    bytes::push_zeros(&mut out, fill);
    bytes::push_all(&mut out, &power);
    assert(out@ =~= bytes::zeros(fill as nat) + power@);
    proof {
        lemma_number_zeros(fill as nat, power@);
        lemma_written_number(out@);
    }
    out
}

/// Whether the number `a` writes is below the one `b` writes in as many octets.
pub fn below(a: &[u8], b: &[u8]) -> (less: bool)
    requires
        a@.len() == b@.len(),
    ensures
        less == (number(a@) < number(b@)),
{
    let mut less: bool = false;
    assert(a@.take(0) =~= Seq::<u8>::empty());
    assert(b@.take(0) =~= Seq::<u8>::empty());
    for i in 0..a.len()
        invariant
            a@.len() == b@.len(),
            less == (number(a@.take(i as int)) < number(b@.take(i as int))),
    {
        proof {
            assert(a@.take(i + 1).drop_last() =~= a@.take(i as int));
            assert(b@.take(i + 1).drop_last() =~= b@.take(i as int));
        }
        let ghost before = less;
        if !less {
            // The leading octets so far write equal numbers, or `a`'s are larger.
            let equal = bytes::same(bytes::range(a, 0, i), bytes::range(b, 0, i));
            proof {
                assert(a@.subrange(0, i as int) =~= a@.take(i as int));
                assert(b@.subrange(0, i as int) =~= b@.take(i as int));
                if !equal {
                    if number(a@.take(i as int)) == number(b@.take(i as int)) {
                        lemma_written_number(a@.take(i as int));
                        lemma_written_number(b@.take(i as int));
                    }
                }
            }
            less = equal && a[i] < b[i];
        }
    }
    assert(a@.take(a@.len() as int) =~= a@);
    assert(b@.take(b@.len() as int) =~= b@);
    less
}

} // verus!
