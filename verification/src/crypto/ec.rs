//! The elliptic curves a Key Exchange may run on: X25519 (RFC 7748) and the
//! ECP groups (RFC 5903).

use vstd::prelude::*;

use crate::bytes;
use crate::error::viewed_option;
use p256::elliptic_curve::ops::Reduce;
use p256::elliptic_curve::sec1::{FromEncodedPoint, ToEncodedPoint};

verus! {

/// The u-coordinate of the base point of Curve25519.
const X25519_BASE: [u8; 32] = [
    0x09, 0x00, 0x00, 0x00, 0x00, 0x00, 0x00, 0x00, 0x00, 0x00, 0x00, 0x00, 0x00, 0x00, 0x00, 0x00,
    0x00, 0x00, 0x00, 0x00, 0x00, 0x00, 0x00, 0x00, 0x00, 0x00, 0x00, 0x00, 0x00, 0x00, 0x00, 0x00,
];

/// The coordinates of the base point of P-256.
const P256_BASE: [u8; 64] = [
    0x6b, 0x17, 0xd1, 0xf2, 0xe1, 0x2c, 0x42, 0x47, 0xf8, 0xbc, 0xe6, 0xe5, 0x63, 0xa4, 0x40, 0xf2,
    0x77, 0x03, 0x7d, 0x81, 0x2d, 0xeb, 0x33, 0xa0, 0xf4, 0xa1, 0x39, 0x45, 0xd8, 0x98, 0xc2, 0x96,
    0x4f, 0xe3, 0x42, 0xe2, 0xfe, 0x1a, 0x7f, 0x9b, 0x8e, 0xe7, 0xeb, 0x4a, 0x7c, 0x0f, 0x9e, 0x16,
    0x2b, 0xce, 0x33, 0x57, 0x6b, 0x31, 0x5e, 0xce, 0xcb, 0xb6, 0x40, 0x68, 0x37, 0xbf, 0x51, 0xf5,
];

/// The coordinates of the base point of P-384.
const P384_BASE: [u8; 96] = [
    0xaa, 0x87, 0xca, 0x22, 0xbe, 0x8b, 0x05, 0x37, 0x8e, 0xb1, 0xc7, 0x1e, 0xf3, 0x20, 0xad, 0x74,
    0x6e, 0x1d, 0x3b, 0x62, 0x8b, 0xa7, 0x9b, 0x98, 0x59, 0xf7, 0x41, 0xe0, 0x82, 0x54, 0x2a, 0x38,
    0x55, 0x02, 0xf2, 0x5d, 0xbf, 0x55, 0x29, 0x6c, 0x3a, 0x54, 0x5e, 0x38, 0x72, 0x76, 0x0a, 0xb7,
    0x36, 0x17, 0xde, 0x4a, 0x96, 0x26, 0x2c, 0x6f, 0x5d, 0x9e, 0x98, 0xbf, 0x92, 0x92, 0xdc, 0x29,
    0xf8, 0xf4, 0x1d, 0xbd, 0x28, 0x9a, 0x14, 0x7c, 0xe9, 0xda, 0x31, 0x13, 0xb5, 0xf0, 0xb8, 0xc0,
    0x0a, 0x60, 0xb1, 0xce, 0x1d, 0x7e, 0x81, 0x9d, 0x7a, 0x43, 0x1d, 0x7c, 0x90, 0xea, 0x0e, 0x5f,
];

/// The coordinates of the base point of P-521.
const P521_BASE: [u8; 132] = [
    0x00, 0xc6, 0x85, 0x8e, 0x06, 0xb7, 0x04, 0x04, 0xe9, 0xcd, 0x9e, 0x3e, 0xcb, 0x66, 0x23, 0x95,
    0xb4, 0x42, 0x9c, 0x64, 0x81, 0x39, 0x05, 0x3f, 0xb5, 0x21, 0xf8, 0x28, 0xaf, 0x60, 0x6b, 0x4d,
    0x3d, 0xba, 0xa1, 0x4b, 0x5e, 0x77, 0xef, 0xe7, 0x59, 0x28, 0xfe, 0x1d, 0xc1, 0x27, 0xa2, 0xff,
    0xa8, 0xde, 0x33, 0x48, 0xb3, 0xc1, 0x85, 0x6a, 0x42, 0x9b, 0xf9, 0x7e, 0x7e, 0x31, 0xc2, 0xe5,
    0xbd, 0x66, 0x01, 0x18, 0x39, 0x29, 0x6a, 0x78, 0x9a, 0x3b, 0xc0, 0x04, 0x5c, 0x8a, 0x5f, 0xb4,
    0x2c, 0x7d, 0x1b, 0xd9, 0x98, 0xf5, 0x44, 0x49, 0x57, 0x9b, 0x44, 0x68, 0x17, 0xaf, 0xbd, 0x17,
    0x27, 0x3e, 0x66, 0x2c, 0x97, 0xee, 0x72, 0x99, 0x5e, 0xf4, 0x26, 0x40, 0xc5, 0x50, 0xb9, 0x01,
    0x3f, 0xad, 0x07, 0x61, 0x35, 0x3c, 0x70, 0x86, 0xa2, 0x72, 0xc2, 0x40, 0x88, 0xbe, 0x94, 0x76,
    0x9f, 0xd1, 0x66, 0x50,
];

/// The u-coordinate of the base point of Curve25519.
pub closed spec fn x25519_base() -> Seq<u8> {
    X25519_BASE@
}

/// The coordinates of the base point of P-256.
pub closed spec fn p256_base() -> Seq<u8> {
    P256_BASE@
}

/// The coordinates of the base point of P-384.
pub closed spec fn p384_base() -> Seq<u8> {
    P384_BASE@
}

/// The coordinates of the base point of P-521.
pub closed spec fn p521_base() -> Seq<u8> {
    P521_BASE@
}

/// The u-coordinate of the base point of Curve25519.
pub fn x25519_generator() -> (base: Vec<u8>)
    ensures
        base@ == x25519_base(),
        base@.len() == 32,
{
    bytes::copy(&X25519_BASE)
}

/// The coordinates of the base point of P-256.
pub fn p256_generator() -> (base: Vec<u8>)
    ensures
        base@ == p256_base(),
        base@.len() == 64,
{
    bytes::copy(&P256_BASE)
}

/// The coordinates of the base point of P-384.
pub fn p384_generator() -> (base: Vec<u8>)
    ensures
        base@ == p384_base(),
        base@.len() == 96,
{
    bytes::copy(&P384_BASE)
}

/// The coordinates of the base point of P-521.
pub fn p521_generator() -> (base: Vec<u8>)
    ensures
        base@ == p521_base(),
        base@.len() == 132,
{
    bytes::copy(&P521_BASE)
}

/// X25519 of the scalar and the u-coordinate (RFC 7748 §5).
pub uninterp spec fn x25519_product(scalar: Seq<u8>, point: Seq<u8>) -> [u8; 32];

/// The coordinates of the product on P-256 of a scalar and a point, given by its
/// coordinates, where there is such a point and the product is not at infinity.
pub uninterp spec fn p256_product(scalar: Seq<u8>, point: Seq<u8>) -> Option<[u8; 64]>;

/// The coordinates of the product on P-384 of a scalar and a point, given by its
/// coordinates, where there is such a point and the product is not at infinity.
pub uninterp spec fn p384_product(scalar: Seq<u8>, point: Seq<u8>) -> Option<[u8; 96]>;

/// The coordinates of the product on P-521 of a scalar and a point, given by its
/// coordinates, where there is such a point and the product is not at infinity.
pub uninterp spec fn p521_product(scalar: Seq<u8>, point: Seq<u8>) -> Option<[u8; 132]>;

/// `x25519_dalek::x25519`: the result depends on the two arguments alone and is
/// 32 octets. Two scalars give the same result whichever of them is applied
/// to the base point first (RFC 7748 §6.1).
#[verifier::external_body]
pub(crate) fn x25519_times(scalar: &[u8], point: &[u8]) -> (product: Vec<u8>)
    requires
        scalar@.len() == 32,
        point@.len() == 32,
    ensures
        product@ == x25519_product(scalar@, point@)@,
        forall|other: Seq<u8>|
            other.len() == 32 && point@ == (#[trigger] x25519_product(other, x25519_base()))@ ==> product@
                == x25519_product(other, x25519_product(scalar@, x25519_base())@)@,
{
    x25519_dalek::x25519(scalar.try_into().unwrap(), point.try_into().unwrap()).to_vec()
}

/// The product of `p256::ProjectivePoint` and `p256::Scalar`. The scalar is read
/// by `reduce_bytes`, modulo the group's order; the point is read from its
/// coordinates and the product written as its own. `None` when no point of
/// the curve has those coordinates, or the product is at infinity. The result
/// depends on the two arguments alone, and two scalars give the same result
/// whichever of them is applied to the base point first. The order of the
/// curve is prime (`PrimeCurve`), so a scalar that takes some point to a point,
/// being no multiple of the order, takes the base point to one too.
#[verifier::external_body]
pub(crate) fn p256_times(scalar: &[u8], point: &[u8]) -> (product: Option<Vec<u8>>)
    requires
        scalar@.len() == 32,
        point@.len() == 64,
    ensures
        viewed_option(product) == viewed_option(p256_product(scalar@, point@)),
        forall|other: Seq<u8>, ours: [u8; 64]|
            other.len() == 32 && viewed_option(p256_product(other, p256_base())) == Some(point@) && p256_product(
                scalar@,
                p256_base(),
            ) == Some(ours) ==> viewed_option(product) == viewed_option(#[trigger] p256_product(other, ours@)),
        product is Some ==> p256_product(scalar@, p256_base()) is Some,
{
    let scalar = p256::Scalar::reduce_bytes(p256::FieldBytes::from_slice(scalar));
    let encoded = p256::EncodedPoint::from_untagged_bytes(point.into());
    let point = Option::<p256::AffinePoint>::from(p256::AffinePoint::from_encoded_point(&encoded))?;
    let product = (p256::ProjectivePoint::from(point) * scalar).to_affine().to_encoded_point(false);
    Some([product.x()?.as_slice(), product.y()?.as_slice()].concat())
}

/// The product of `p384::ProjectivePoint` and `p384::Scalar`. The scalar is read
/// by `reduce_bytes`, modulo the group's order; the point is read from its
/// coordinates and the product written as its own. `None` when no point of
/// the curve has those coordinates, or the product is at infinity. The result
/// depends on the two arguments alone, and two scalars give the same result
/// whichever of them is applied to the base point first. The order of the
/// curve is prime (`PrimeCurve`), so a scalar that takes some point to a point,
/// being no multiple of the order, takes the base point to one too.
#[verifier::external_body]
pub(crate) fn p384_times(scalar: &[u8], point: &[u8]) -> (product: Option<Vec<u8>>)
    requires
        scalar@.len() == 48,
        point@.len() == 96,
    ensures
        viewed_option(product) == viewed_option(p384_product(scalar@, point@)),
        forall|other: Seq<u8>, ours: [u8; 96]|
            other.len() == 48 && viewed_option(p384_product(other, p384_base())) == Some(point@) && p384_product(
                scalar@,
                p384_base(),
            ) == Some(ours) ==> viewed_option(product) == viewed_option(#[trigger] p384_product(other, ours@)),
        product is Some ==> p384_product(scalar@, p384_base()) is Some,
{
    let scalar = p384::Scalar::reduce_bytes(p384::FieldBytes::from_slice(scalar));
    let encoded = p384::EncodedPoint::from_untagged_bytes(point.into());
    let point = Option::<p384::AffinePoint>::from(p384::AffinePoint::from_encoded_point(&encoded))?;
    let product = (p384::ProjectivePoint::from(point) * scalar).to_affine().to_encoded_point(false);
    Some([product.x()?.as_slice(), product.y()?.as_slice()].concat())
}

/// The product of `p521::ProjectivePoint` and `p521::Scalar`. The scalar is read
/// by `reduce_bytes`, modulo the group's order; the point is read from its
/// coordinates and the product written as its own. `None` when no point of
/// the curve has those coordinates, or the product is at infinity. The result
/// depends on the two arguments alone, and two scalars give the same result
/// whichever of them is applied to the base point first. The order of the
/// curve is prime (`PrimeCurve`), so a scalar that takes some point to a point,
/// being no multiple of the order, takes the base point to one too.
#[verifier::external_body]
pub(crate) fn p521_times(scalar: &[u8], point: &[u8]) -> (product: Option<Vec<u8>>)
    requires
        scalar@.len() == 66,
        point@.len() == 132,
    ensures
        viewed_option(product) == viewed_option(p521_product(scalar@, point@)),
        forall|other: Seq<u8>, ours: [u8; 132]|
            other.len() == 66 && viewed_option(p521_product(other, p521_base())) == Some(point@) && p521_product(
                scalar@,
                p521_base(),
            ) == Some(ours) ==> viewed_option(product) == viewed_option(#[trigger] p521_product(other, ours@)),
        product is Some ==> p521_product(scalar@, p521_base()) is Some,
{
    let scalar = p521::Scalar::reduce_bytes(p521::FieldBytes::from_slice(scalar));
    let encoded = p521::EncodedPoint::from_untagged_bytes(point.into());
    let point = Option::<p521::AffinePoint>::from(p521::AffinePoint::from_encoded_point(&encoded))?;
    let product = (p521::ProjectivePoint::from(point) * scalar).to_affine().to_encoded_point(false);
    Some([product.x()?.as_slice(), product.y()?.as_slice()].concat())
}

/// The base point of X25519 is 9, its lowest octet first.
pub proof fn law_x25519_base()
    ensures
        x25519_base().len() == 32,
        x25519_base()[0] == 9,
        forall|i: int| 1 <= i < 32 ==> #[trigger] x25519_base()[i] == 0,
{
}

} // verus!
