//! The Diffie-Hellman groups of the Key Exchange payload (RFC 7296 §3.4).

use vstd::arithmetic::power::pow;
use vstd::prelude::*;

use crate::bytes;
use crate::crypto::ec;
use crate::crypto::modp;
use crate::crypto::number;
use crate::error::{viewed, viewed_option, Failure, IkeError};
use crate::ikev2::payload::transform_id;

verus! {

/// The groups we can run, whatever may be negotiated.
#[derive(Debug, Clone, Copy, PartialEq, Eq, Structural)]
pub enum DhGroup {
    X25519,
    EcpP256,
    EcpP384,
    EcpP521,
    Modp768,
    Modp1024,
    Modp1536,
    Modp2048,
    Modp3072,
    Modp4096,
    Modp6144,
    Modp8192,
}

/// `private`, 32 octets, as a scalar of `len` octets.
pub open spec fn scalar(private: Seq<u8>, len: nat) -> Seq<u8> {
    bytes::zeros((len - private.len()) as nat) + private
}

/// The public value of an ECP group: the coordinates of the point.
pub open spec fn coordinates(point: Option<Seq<u8>>) -> Seq<u8> {
    match point {
        Some(both) => both,
        None => Seq::empty(),
    }
}

/// The shared secret of an ECP group whose coordinates take `len` octets: the
/// x-coordinate of the point (RFC 5903 §7).
pub open spec fn x_coordinate(point: Option<Seq<u8>>, len: nat) -> Result<Seq<u8>, Failure> {
    match point {
        None => Err(Failure::Crypto("Key Exchange data is not a usable point of the group"@)),
        Some(both) => Ok(both.take(len as int)),
    }
}

impl DhGroup {
    /// How many bits the prime of a MODP group has; none for another.
    pub open spec fn prime_bits(self) -> nat {
        match self {
            DhGroup::Modp768 => 768,
            DhGroup::Modp1024 => 1024,
            DhGroup::Modp1536 => 1536,
            DhGroup::Modp2048 => 2048,
            DhGroup::Modp3072 => 3072,
            DhGroup::Modp4096 => 4096,
            DhGroup::Modp6144 => 6144,
            DhGroup::Modp8192 => 8192,
            _ => 0,
        }
    }

    /// The prime of a MODP group.
    pub open spec fn prime(self) -> Seq<u8> {
        modp::prime(self.prime_bits())
    }

    /// The length of this group's public value in octets.
    pub open spec fn public_size(self) -> nat {
        match self {
            DhGroup::X25519 => 32,
            DhGroup::EcpP256 => 64,
            DhGroup::EcpP384 => 96,
            DhGroup::EcpP521 => 132,
            DhGroup::Modp768 => 96,
            DhGroup::Modp1024 => 128,
            DhGroup::Modp1536 => 192,
            DhGroup::Modp2048 => 256,
            DhGroup::Modp3072 => 384,
            DhGroup::Modp4096 => 512,
            DhGroup::Modp6144 => 768,
            DhGroup::Modp8192 => 1024,
        }
    }

    /// The Transform ID that names this group.
    pub open spec fn id(self) -> u16 {
        match self {
            DhGroup::X25519 => transform_id::X25519,
            DhGroup::EcpP256 => transform_id::ECP256,
            DhGroup::EcpP384 => transform_id::ECP384,
            DhGroup::EcpP521 => transform_id::ECP521,
            DhGroup::Modp768 => transform_id::MODP_768,
            DhGroup::Modp1024 => transform_id::MODP_1024,
            DhGroup::Modp1536 => transform_id::MODP_1536,
            DhGroup::Modp2048 => transform_id::MODP_2048,
            DhGroup::Modp3072 => transform_id::MODP_3072,
            DhGroup::Modp4096 => transform_id::MODP_4096,
            DhGroup::Modp6144 => transform_id::MODP_6144,
            DhGroup::Modp8192 => transform_id::MODP_8192,
        }
    }

    /// The group a D-H Transform ID names.
    pub open spec fn named(id: u16) -> Option<DhGroup> {
        if id == transform_id::X25519 {
            Some(DhGroup::X25519)
        } else if id == transform_id::ECP256 {
            Some(DhGroup::EcpP256)
        } else if id == transform_id::ECP384 {
            Some(DhGroup::EcpP384)
        } else if id == transform_id::ECP521 {
            Some(DhGroup::EcpP521)
        } else if id == transform_id::MODP_768 {
            Some(DhGroup::Modp768)
        } else if id == transform_id::MODP_1024 {
            Some(DhGroup::Modp1024)
        } else if id == transform_id::MODP_1536 {
            Some(DhGroup::Modp1536)
        } else if id == transform_id::MODP_2048 {
            Some(DhGroup::Modp2048)
        } else if id == transform_id::MODP_3072 {
            Some(DhGroup::Modp3072)
        } else if id == transform_id::MODP_4096 {
            Some(DhGroup::Modp4096)
        } else if id == transform_id::MODP_6144 {
            Some(DhGroup::Modp6144)
        } else if id == transform_id::MODP_8192 {
            Some(DhGroup::Modp8192)
        } else {
            None
        }
    }

    /// The public value of `private` in this group.
    #[verifier::opaque]
    pub open spec fn public_of(self, private: Seq<u8>) -> Seq<u8> {
        match self {
            DhGroup::X25519 => ec::x25519_product(private, ec::x25519_base())@,
            DhGroup::EcpP256 => coordinates(viewed_option(ec::p256_product(private, ec::p256_base()))),
            DhGroup::EcpP384 => coordinates(viewed_option(ec::p384_product(scalar(private, 48), ec::p384_base()))),
            DhGroup::EcpP521 => coordinates(viewed_option(ec::p521_product(scalar(private, 66), ec::p521_base()))),
            _ => number::written(
                (pow(2, number::number(private)) % (number::number(self.prime()) as int)) as nat,
                self.public_size(),
            ),
        }
    }

    /// The secret `private` shares with the owner of the public value `peer`.
    #[verifier::opaque]
    pub open spec fn shared_of(self, private: Seq<u8>, peer: Seq<u8>) -> Result<Seq<u8>, Failure> {
        if peer.len() != self.public_size() {
            Err(Failure::BadKeyExchange { group: self.id(), len: peer.len() })
        } else {
            match self {
                DhGroup::X25519 => {
                    let secret = ec::x25519_product(private, peer)@;
                    if secret == bytes::zeros(32) {
                        Err(Failure::Crypto("the Diffie-Hellman secret is zero"@))
                    } else {
                        Ok(secret)
                    }
                },
                DhGroup::EcpP256 => x_coordinate(viewed_option(ec::p256_product(private, peer)), 32),
                DhGroup::EcpP384 => x_coordinate(
                    viewed_option(ec::p384_product(scalar(private, 48), peer)),
                    48,
                ),
                DhGroup::EcpP521 => x_coordinate(
                    viewed_option(ec::p521_product(scalar(private, 66), peer)),
                    66,
                ),
                _ => {
                    let value = number::number(peer);
                    let prime = number::number(self.prime());
                    if value < 2 || value + 1 >= prime {
                        Err(Failure::Crypto("Key Exchange value out of range"@))
                    } else {
                        Ok(
                            number::written(
                                (pow(value as int, number::number(private)) % (prime as int)) as nat,
                                self.public_size(),
                            ),
                        )
                    }
                },
            }
        }
    }

    /// Whether `public` is a value the other end takes: it is as long as this
    /// group's public values are and, in a MODP group, it is neither of the values
    /// at each end of the range, which only a private value such as zero comes to.
    pub open spec fn takes(self, public: Seq<u8>) -> bool {
        &&& public.len() == self.public_size()
        &&& self.is_modp() ==> 2 <= number::number(public) && number::number(public) + 1 < number::number(
            self.prime(),
        )
    }

    /// Whether this is a MODP group.
    pub open spec fn is_modp(self) -> bool {
        !(self is X25519 || self is EcpP256 || self is EcpP384 || self is EcpP521)
    }

    /// The group a D-H Transform ID names.
    pub fn from_transform_id(id: u16) -> (group: Option<DhGroup>)
        ensures
            group == Self::named(id),
    {
        match id {
            transform_id::X25519 => Some(DhGroup::X25519),
            transform_id::ECP256 => Some(DhGroup::EcpP256),
            transform_id::ECP384 => Some(DhGroup::EcpP384),
            transform_id::ECP521 => Some(DhGroup::EcpP521),
            transform_id::MODP_768 => Some(DhGroup::Modp768),
            transform_id::MODP_1024 => Some(DhGroup::Modp1024),
            transform_id::MODP_1536 => Some(DhGroup::Modp1536),
            transform_id::MODP_2048 => Some(DhGroup::Modp2048),
            transform_id::MODP_3072 => Some(DhGroup::Modp3072),
            transform_id::MODP_4096 => Some(DhGroup::Modp4096),
            transform_id::MODP_6144 => Some(DhGroup::Modp6144),
            transform_id::MODP_8192 => Some(DhGroup::Modp8192),
            _ => None,
        }
    }

    /// The Transform ID that names this group.
    pub fn transform_id(self) -> (id: u16)
        ensures
            id == self.id(),
    {
        match self {
            DhGroup::X25519 => transform_id::X25519,
            DhGroup::EcpP256 => transform_id::ECP256,
            DhGroup::EcpP384 => transform_id::ECP384,
            DhGroup::EcpP521 => transform_id::ECP521,
            DhGroup::Modp768 => transform_id::MODP_768,
            DhGroup::Modp1024 => transform_id::MODP_1024,
            DhGroup::Modp1536 => transform_id::MODP_1536,
            DhGroup::Modp2048 => transform_id::MODP_2048,
            DhGroup::Modp3072 => transform_id::MODP_3072,
            DhGroup::Modp4096 => transform_id::MODP_4096,
            DhGroup::Modp6144 => transform_id::MODP_6144,
            DhGroup::Modp8192 => transform_id::MODP_8192,
        }
    }

    /// The length of this group's public value in octets.
    pub fn public_len(self) -> (len: usize)
        ensures
            len == self.public_size(),
    {
        match self {
            DhGroup::X25519 => 32,
            DhGroup::EcpP256 => 64,
            DhGroup::EcpP384 => 96,
            DhGroup::EcpP521 => 132,
            DhGroup::Modp768 => 96,
            DhGroup::Modp1024 => 128,
            DhGroup::Modp1536 => 192,
            DhGroup::Modp2048 => 256,
            DhGroup::Modp3072 => 384,
            DhGroup::Modp4096 => 512,
            DhGroup::Modp6144 => 768,
            DhGroup::Modp8192 => 1024,
        }
    }

    /// The prime of a MODP group, whose first and last octets are full.
    fn modulus(self) -> (prime: Vec<u8>)
        requires
            self.is_modp(),
        ensures
            prime@ == self.prime(),
            prime@.len() == self.public_size(),
            prime@[0] == 0xff,
            prime@.last() == 0xff,
    {
        modp::modulus(self.public_len() * 8)
    }

    /// The public value of `private`.
    pub fn public(self, private: &[u8]) -> (public: Vec<u8>)
        requires
            private@.len() == 32,
        ensures
            public@ == self.public_of(private@),
    {
        reveal(DhGroup::public_of);
        match self {
            DhGroup::X25519 => ec::x25519_times(private, &ec::x25519_generator()),
            DhGroup::EcpP256 => public_point(ec::p256_times(private, &ec::p256_generator())),
            DhGroup::EcpP384 => public_point(ec::p384_times(&widened(private, 48), &ec::p384_generator())),
            DhGroup::EcpP521 => public_point(ec::p521_times(&widened(private, 66), &ec::p521_generator())),
            _ => modp_public(self, private),
        }
    }

    /// The secret `private` shares with the owner of the public value `peer`. Where
    /// that owner arrives at a secret from the public value of `private`, it is this
    /// one. On a curve, the public value of a `private` that arrives at a secret is
    /// one its peer takes.
    pub fn shared(self, private: &[u8], peer: &[u8]) -> (secret: Result<Vec<u8>, IkeError>)
        requires
            private@.len() == 32,
        ensures
            viewed(secret) == self.shared_of(private@, peer@),
            self.agrees(private@, peer@),
            secret is Ok && !self.is_modp() ==> self.takes(self.public_of(private@)),
    {
        match self {
            DhGroup::X25519 => x25519_shared(private, peer),
            DhGroup::EcpP256 => p256_shared(private, peer),
            DhGroup::EcpP384 => p384_shared(private, peer),
            DhGroup::EcpP521 => p521_shared(private, peer),
            _ => modp_shared(self, private, peer),
        }
    }

    /// Whether `private` arrives at the secret that the owner of `peer`, whoever that
    /// is, arrives at, where `peer` is a value to be taken.
    pub open spec fn agrees(self, private: Seq<u8>, peer: Seq<u8>) -> bool {
        forall|other: Seq<u8>|
            other.len() == 32 && peer == #[trigger] self.public_of(other) && self.takes(peer) && self.shared_of(
                other,
                self.public_of(private),
            ) is Ok ==> self.shared_of(private, peer) == self.shared_of(other, self.public_of(private))
    }
}

/// `private` as a scalar of `len` octets.
fn widened(private: &[u8], len: usize) -> (out: Vec<u8>)
    requires
        private@.len() == 32,
        32 <= len <= 66,
    ensures
        out@ == scalar(private@, len as nat),
        out@.len() == len,
{
    let mut out: Vec<u8> = Vec::new();
    bytes::push_zeros(&mut out, len - private.len());
    bytes::push_all(&mut out, private);
    assert(out@ =~= scalar(private@, len as nat));
    out
}

/// The coordinates of a point.
fn public_point(point: Option<Vec<u8>>) -> (out: Vec<u8>)
    ensures
        out@ == coordinates(viewed_option(point)),
{
    match point {
        Some(both) => both,
        None => Vec::new(),
    }
}

/// The x-coordinate of a point.
fn shared_x(point: Option<Vec<u8>>, len: usize) -> (secret: Result<Vec<u8>, IkeError>)
    requires
        point matches Some(both) ==> both@.len() == 2 * len,
    ensures
        viewed(secret) == x_coordinate(viewed_option(point), len as nat),
{
    match point {
        None => Err(IkeError::Crypto("Key Exchange data is not a usable point of the group")),
        Some(both) => {
            let x = bytes::copy(bytes::range(&both, 0, len));
            assert(x@ =~= both@.take(len as int));
            Ok(x)
        },
    }
}

fn x25519_shared(private: &[u8], peer: &[u8]) -> (secret: Result<Vec<u8>, IkeError>)
    requires
        private@.len() == 32,
    ensures
        viewed(secret) == DhGroup::X25519.shared_of(private@, peer@),
        DhGroup::X25519.agrees(private@, peer@),
        secret is Ok ==> DhGroup::X25519.takes(DhGroup::X25519.public_of(private@)),
{
    reveal(DhGroup::public_of);
    reveal(DhGroup::shared_of);
    if peer.len() != 32 {
        return Err(IkeError::BadKeyExchange { group: transform_id::X25519, len: peer.len() });
    }
    let secret = ec::x25519_times(private, peer);
    let mut none: Vec<u8> = Vec::new();
    bytes::push_zeros(&mut none, 32);
    assert(none@ =~= bytes::zeros(32));
    if bytes::same(&secret, &none) {
        return Err(IkeError::Crypto("the Diffie-Hellman secret is zero"));
    }
    Ok(secret)
}

fn p256_shared(private: &[u8], peer: &[u8]) -> (secret: Result<Vec<u8>, IkeError>)
    requires
        private@.len() == 32,
    ensures
        viewed(secret) == DhGroup::EcpP256.shared_of(private@, peer@),
        DhGroup::EcpP256.agrees(private@, peer@),
        secret is Ok ==> DhGroup::EcpP256.takes(DhGroup::EcpP256.public_of(private@)),
{
    reveal(DhGroup::public_of);
    reveal(DhGroup::shared_of);
    if peer.len() != 64 {
        return Err(IkeError::BadKeyExchange { group: transform_id::ECP256, len: peer.len() });
    }
    shared_x(ec::p256_times(private, peer), 32)
}

fn p384_shared(private: &[u8], peer: &[u8]) -> (secret: Result<Vec<u8>, IkeError>)
    requires
        private@.len() == 32,
    ensures
        viewed(secret) == DhGroup::EcpP384.shared_of(private@, peer@),
        DhGroup::EcpP384.agrees(private@, peer@),
        secret is Ok ==> DhGroup::EcpP384.takes(DhGroup::EcpP384.public_of(private@)),
{
    reveal(DhGroup::public_of);
    reveal(DhGroup::shared_of);
    if peer.len() != 96 {
        return Err(IkeError::BadKeyExchange { group: transform_id::ECP384, len: peer.len() });
    }
    shared_x(ec::p384_times(&widened(private, 48), peer), 48)
}

fn p521_shared(private: &[u8], peer: &[u8]) -> (secret: Result<Vec<u8>, IkeError>)
    requires
        private@.len() == 32,
    ensures
        viewed(secret) == DhGroup::EcpP521.shared_of(private@, peer@),
        DhGroup::EcpP521.agrees(private@, peer@),
        secret is Ok ==> DhGroup::EcpP521.takes(DhGroup::EcpP521.public_of(private@)),
{
    reveal(DhGroup::public_of);
    reveal(DhGroup::shared_of);
    if peer.len() != 132 {
        return Err(IkeError::BadKeyExchange { group: transform_id::ECP521, len: peer.len() });
    }
    shared_x(ec::p521_times(&widened(private, 66), peer), 66)
}

/// Powers of powers do not depend on their order, modulo anything.
proof fn lemma_powers_commute(base: int, a: nat, b: nat, modulus: int)
    requires
        modulus > 0,
    ensures
        pow(pow(base, a) % modulus, b) % modulus == pow(pow(base, b) % modulus, a) % modulus,
{
    vstd::arithmetic::power::lemma_pow_mod_noop(pow(base, a), b, modulus);
    vstd::arithmetic::power::lemma_pow_mod_noop(pow(base, b), a, modulus);
    vstd::arithmetic::power::lemma_pow_multiplies(base, a, b);
    vstd::arithmetic::power::lemma_pow_multiplies(base, b, a);
    assert(a * b == b * a) by (nonlinear_arith);
}

fn modp_public(group: DhGroup, private: &[u8]) -> (public: Vec<u8>)
    requires
        group.is_modp(),
        private@.len() == 32,
    ensures
        public@ == group.public_of(private@),
{
    reveal(DhGroup::public_of);
    let prime = group.modulus();
    proof {
        number::lemma_number_floor(prime@);
        number::lemma_span_grows(0, (prime@.len() - 1) as nat);
        reveal_with_fuel(number::number, 2);
    }
    let mut two: Vec<u8> = Vec::new();
    two.push(2);
    assert(number::number(two@) == 2) by {
        reveal_with_fuel(number::number, 2);
        assert(two@.drop_last() =~= Seq::<u8>::empty());
    }
    number::power_modulo(&two, private, &prime)
}

proof fn lemma_modp_agrees(group: DhGroup, private: Seq<u8>, peer: Seq<u8>)
    requires
        group.is_modp(),
        group.prime().len() == group.public_size(),
        0 < number::number(group.prime()),
    ensures
        group.agrees(private, peer),
{
    reveal(DhGroup::public_of);
    reveal(DhGroup::shared_of);
    let prime = group.prime();
    let p = number::number(prime) as int;
    let x = number::number(private);
    number::lemma_number_bound(prime);
    assert forall|other: Seq<u8>|
        other.len() == 32 && peer == #[trigger] group.public_of(other) && group.takes(peer) && group.shared_of(
            other,
            group.public_of(private),
        ) is Ok implies group.shared_of(private, peer) == group.shared_of(other, group.public_of(private)) by {
        let y = number::number(other);
        vstd::arithmetic::div_mod::lemma_mod_bound(pow(2, x), p);
        vstd::arithmetic::div_mod::lemma_mod_bound(pow(2, y), p);
        number::lemma_number_written((pow(2, x) % p) as nat, prime.len());
        number::lemma_number_written((pow(2, y) % p) as nat, prime.len());
        lemma_powers_commute(2, x, y, p);
    }
}

fn modp_shared(group: DhGroup, private: &[u8], peer: &[u8]) -> (secret: Result<Vec<u8>, IkeError>)
    requires
        group.is_modp(),
        private@.len() == 32,
    ensures
        viewed(secret) == group.shared_of(private@, peer@),
        group.agrees(private@, peer@),
{
    let prime = group.modulus();
    proof {
        number::lemma_number_floor(prime@);
        number::lemma_span_grows(0, (prime@.len() - 1) as nat);
        lemma_modp_agrees(group, private@, peer@);
    }
    reveal(DhGroup::shared_of);
    if peer.len() != group.public_len() {
        return Err(IkeError::BadKeyExchange { group: group.transform_id(), len: peer.len() });
    }
    let last: usize = prime.len() - 1;
    let mut top = bytes::copy(&prime);
    top.set(last, 0xfe);
    let mut bottom: Vec<u8> = Vec::new();
    bytes::push_zeros(&mut bottom, last);
    bottom.push(2);
    proof {
        assert(top@.drop_last() =~= prime@.drop_last());
        assert(number::number(top@) + 1 == number::number(prime@));
        assert(bottom@ =~= bytes::zeros(last as nat) + seq![2u8]);
        number::lemma_number_zeros(last as nat, seq![2u8]);
        assert(seq![2u8].drop_last() =~= Seq::<u8>::empty());
        reveal_with_fuel(number::number, 2);
    }
    if number::below(peer, &bottom) || !number::below(peer, &top) {
        return Err(IkeError::Crypto("Key Exchange value out of range"));
    }
    Ok(number::power_modulo(peer, private, &prime))
}

/// How long a public value is, at most.
pub proof fn lemma_public_len(group: DhGroup, private: Seq<u8>)
    ensures
        group.public_of(private).len() <= group.public_size() <= 1024,
{
    reveal(DhGroup::public_of);
    if group.is_modp() {
        number::lemma_written_len(
            (pow(2, number::number(private)) % (number::number(group.prime()) as int)) as nat,
            group.public_size(),
        );
    }
}

/// A public value from which a secret comes is one to be taken.
pub proof fn lemma_taken(group: DhGroup, private: Seq<u8>, peer: Seq<u8>)
    requires
        group.shared_of(private, peer) is Ok,
    ensures
        group.takes(peer),
{
    reveal(DhGroup::shared_of);
}

/// A public value of X25519 is 32 octets.
pub proof fn lemma_x25519_public_len(private: Seq<u8>)
    ensures
        DhGroup::X25519.public_of(private).len() == 32,
{
    reveal(DhGroup::public_of);
}

} // verus!
