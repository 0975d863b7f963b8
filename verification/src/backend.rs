//! Calls into other crates: scalar and curve arithmetic, hashing, signatures.
//!
//! A scalar crosses this boundary as its four canonical limbs, least
//! significant first; a point of the curve as the limbs of its coordinates.
use vstd::prelude::*;

use crate::arith;
use crate::bytes;
use crate::prime;

use ark_ec::{AffineRepr, CurveGroup, PrimeGroup};
use ark_ff::{AdditiveGroup, BigInt, Field, PrimeField, UniformRand};
use ark_secp256k1::{Affine, Fq};
use ed25519_dalek::{Signer, Verifier};
use sha2::Digest;

verus! {

/// The number with the given limbs, least significant first.
pub open spec fn limbs_value(limbs: Seq<u64>) -> int {
    limbs[0] + 0x1_0000_0000_0000_0000int * limbs[1]
        + 0x1_0000_0000_0000_0000_0000_0000_0000_0000int * limbs[2]
        + 0x1_0000_0000_0000_0000_0000_0000_0000_0000_0000_0000_0000_0000int * limbs[3]
}

/// The limbs are those of a residue.
pub open spec fn canonical(limbs: Seq<u64>) -> bool {
    limbs_value(limbs) < prime::modulus()
}

/// `Fp` addition in `ark-ff`: the sum modulo the order of the field.
#[verifier::external_body]
pub(crate) fn scalar_sum(a: [u64; 4], b: [u64; 4]) -> (c: [u64; 4])
    requires
        canonical(a@),
        canonical(b@),
    ensures
        limbs_value(c@) == (limbs_value(a@) + limbs_value(b@)) % prime::modulus(),
{
    (ark_secp256k1::Fr::new(BigInt(a)) + ark_secp256k1::Fr::new(BigInt(b))).into_bigint().0
}

/// `Fp` subtraction in `ark-ff`: the difference modulo the order of the field.
#[verifier::external_body]
pub(crate) fn scalar_difference(a: [u64; 4], b: [u64; 4]) -> (c: [u64; 4])
    requires
        canonical(a@),
        canonical(b@),
    ensures
        limbs_value(c@) == (limbs_value(a@) - limbs_value(b@)) % prime::modulus(),
{
    (ark_secp256k1::Fr::new(BigInt(a)) - ark_secp256k1::Fr::new(BigInt(b))).into_bigint().0
}

/// `Fp` multiplication in `ark-ff`: the product modulo the order of the field.
#[verifier::external_body]
pub(crate) fn scalar_product(a: [u64; 4], b: [u64; 4]) -> (c: [u64; 4])
    requires
        canonical(a@),
        canonical(b@),
    ensures
        limbs_value(c@) == (limbs_value(a@) * limbs_value(b@)) % prime::modulus(),
{
    (ark_secp256k1::Fr::new(BigInt(a)) * ark_secp256k1::Fr::new(BigInt(b))).into_bigint().0
}

/// `Fp` negation in `ark-ff`: the additive inverse modulo the order of the field.
#[verifier::external_body]
pub(crate) fn scalar_negation(a: [u64; 4]) -> (c: [u64; 4])
    requires
        canonical(a@),
    ensures
        limbs_value(c@) == (-limbs_value(a@)) % prime::modulus(),
{
    (-ark_secp256k1::Fr::new(BigInt(a))).into_bigint().0
}

/// `Field::inverse` in `ark-ff`: the multiplicative inverse of a nonzero
/// scalar, and nothing for zero.
#[verifier::external_body]
pub(crate) fn scalar_inverse(a: [u64; 4]) -> (c: Option<[u64; 4]>)
    requires
        canonical(a@),
    ensures
        c is None <==> limbs_value(a@) == 0,
        c matches Some(i) ==> arith::is_inverse(
            limbs_value(a@),
            limbs_value(i@),
            prime::modulus(),
        ),
{
    ark_secp256k1::Fr::new(BigInt(a)).inverse().map(|i| i.into_bigint().0)
}

/// `From<u64>` for `Fp` in `ark-ff`: the number itself.
#[verifier::external_body]
pub(crate) fn scalar_from_u64(x: u64) -> (c: [u64; 4])
    ensures
        limbs_value(c@) == x,
{
    ark_secp256k1::Fr::from(x).into_bigint().0
}

/// `PrimeField::from_be_bytes_mod_order` in `ark-ff`: the big-endian number
/// modulo the order of the field.
#[verifier::external_body]
pub(crate) fn scalar_from_be_bytes(bytes: &[u8]) -> (c: [u64; 4])
    ensures
        limbs_value(c@) == bytes::be_value(bytes@) % prime::modulus(),
{
    ark_secp256k1::Fr::from_be_bytes_mod_order(bytes).into_bigint().0
}

/// `UniformRand::rand` in `ark-ff`, on the random numbers of the operating
/// system: some residue; which one is left to chance.
#[verifier::external_body]
pub(crate) fn scalar_random() -> (c: [u64; 4])
    ensures
        canonical(c@),
{
    ark_secp256k1::Fr::rand(&mut rand::rngs::OsRng).into_bigint().0
}

/// The SHA-256 digest of `data`.
pub uninterp spec fn sha256(data: Seq<u8>) -> [u8; 32];

/// `Digest::digest` of `Sha256` in `sha2`: the digest of the whole input, named
/// and not spelled out.
#[verifier::external_body]
pub(crate) fn sha256_digest(data: &[u8]) -> (r: [u8; 32])
    ensures
        r == sha256(data@),
{
    sha2::Sha256::digest(data).into()
}

/// The order of the base field of secp256k1.
pub open spec fn base_modulus() -> int {
    0xffffffff_ffffffff_ffffffff_ffffffff_ffffffff_ffffffff_fffffffe_fffffc2fint
}

/// The coordinates of a point that is given by limbs; nothing at infinity.
pub open spec fn coordinates(p: Option<([u64; 4], [u64; 4])>) -> Option<(int, int)> {
    match p {
        Some((x, y)) => Some((limbs_value(x@), limbs_value(y@))),
        None => None,
    }
}

/// The point at infinity, or coordinates that satisfy the equation of the curve.
pub open spec fn on_curve(p: Option<(int, int)>) -> bool {
    match p {
        Some((x, y)) => {
            &&& 0 <= x < base_modulus()
            &&& 0 <= y < base_modulus()
            &&& (y * y) % base_modulus() == (x * x * x + 7) % base_modulus()
        },
        None => true,
    }
}

/// The discrete logarithm of a point with coordinates, less one: the point is so
/// many times the generator, and once more. The group has prime order and cofactor
/// one, so every point has one, and only the point at infinity has logarithm zero.
pub uninterp spec fn curve_log(p: Option<(int, int)>) -> int;

/// The discrete logarithm of a point: the multiple of the generator that it is,
/// zero at infinity, and elsewhere at least one and below the order of the group.
pub open spec fn point_log(p: Option<(int, int)>) -> int {
    if p is Some {
        1 + curve_log(p) % (prime::modulus() - 1)
    } else {
        0
    }
}

/// `PrimeGroup::generator` in `ark-ec`: the point with logarithm one.
#[verifier::external_body]
pub(crate) fn curve_generator() -> (c: Option<([u64; 4], [u64; 4])>)
    ensures
        on_curve(coordinates(c)),
        coordinates(c) is Some,
        curve_log(coordinates(c)) % (prime::modulus() - 1) == 0,
{
    let g = ark_secp256k1::Projective::generator().into_affine();
    g.xy().map(|(x, y)| (x.into_bigint().0, y.into_bigint().0))
}

/// `AdditiveGroup::ZERO` for `Projective` in `ark-ec`: the point at infinity.
#[verifier::external_body]
pub(crate) fn curve_zero() -> (c: Option<([u64; 4], [u64; 4])>)
    ensures
        coordinates(c) is None,
{
    let zero = ark_secp256k1::Projective::ZERO.into_affine();
    zero.xy().map(|(x, y)| (x.into_bigint().0, y.into_bigint().0))
}

/// `Projective` addition in `ark-ec`: the point whose logarithm is the sum
/// modulo the order of the group.
#[verifier::external_body]
pub(crate) fn curve_sum(
    a: Option<([u64; 4], [u64; 4])>,
    b: Option<([u64; 4], [u64; 4])>,
) -> (c: Option<([u64; 4], [u64; 4])>)
    requires
        on_curve(coordinates(a)),
        on_curve(coordinates(b)),
    ensures
        on_curve(coordinates(c)),
        point_log(coordinates(c)) == (point_log(coordinates(a)) + point_log(coordinates(b)))
            % prime::modulus(),
{
    let a = a.map_or(Affine::identity(), |(x, y)| {
        Affine::new_unchecked(Fq::new(BigInt(x)), Fq::new(BigInt(y)))
    });
    let b = b.map_or(Affine::identity(), |(x, y)| {
        Affine::new_unchecked(Fq::new(BigInt(x)), Fq::new(BigInt(y)))
    });
    let c = (a.into_group() + b.into_group()).into_affine();
    c.xy().map(|(x, y)| (x.into_bigint().0, y.into_bigint().0))
}

/// `PrimeGroup::mul_bigint` in `ark-ec`: the point whose logarithm is the
/// product with the scalar modulo the order of the group.
#[verifier::external_body]
pub(crate) fn curve_multiple(a: Option<([u64; 4], [u64; 4])>, k: [u64; 4]) -> (c: Option<
    ([u64; 4], [u64; 4]),
>)
    requires
        on_curve(coordinates(a)),
    ensures
        on_curve(coordinates(c)),
        point_log(coordinates(c)) == (point_log(coordinates(a)) * limbs_value(k@))
            % prime::modulus(),
{
    let a = a.map_or(Affine::identity(), |(x, y)| {
        Affine::new_unchecked(Fq::new(BigInt(x)), Fq::new(BigInt(y)))
    });
    let c = a.into_group().mul_bigint(BigInt(k)).into_affine();
    c.xy().map(|(x, y)| (x.into_bigint().0, y.into_bigint().0))
}

/// `PartialEq` for `Projective` in `ark-ec`: points are equal where their
/// logarithms are.
#[verifier::external_body]
pub(crate) fn curve_equal(
    a: Option<([u64; 4], [u64; 4])>,
    b: Option<([u64; 4], [u64; 4])>,
) -> (r: bool)
    requires
        on_curve(coordinates(a)),
        on_curve(coordinates(b)),
    ensures
        r == (point_log(coordinates(a)) == point_log(coordinates(b))),
{
    let a = a.map_or(Affine::identity(), |(x, y)| {
        Affine::new_unchecked(Fq::new(BigInt(x)), Fq::new(BigInt(y)))
    });
    let b = b.map_or(Affine::identity(), |(x, y)| {
        Affine::new_unchecked(Fq::new(BigInt(x)), Fq::new(BigInt(y)))
    });
    a.into_group() == b.into_group()
}

/// `PrimeField::from_be_bytes_mod_order` in `ark-ff`, for the base field: the
/// big-endian number modulo the order of the field.
#[verifier::external_body]
pub(crate) fn base_from_be_bytes(bytes: &[u8]) -> (c: [u64; 4])
    ensures
        limbs_value(c@) == bytes::be_value(bytes@) % base_modulus(),
{
    Fq::from_be_bytes_mod_order(bytes).into_bigint().0
}

/// The number `y` is the smaller of the second coordinates of the points with
/// first coordinate `x`.
pub open spec fn is_smaller_root(x: int, y: int) -> bool {
    on_curve(Some((x, y))) && forall|z: int| #[trigger] on_curve(Some((x, z))) ==> y <= z
}

/// `Affine::get_point_from_x_unchecked` in `ark-ec`, asked for the smaller root:
/// the point on the curve with first coordinate `x` and the smaller second one,
/// and nothing where no second coordinate satisfies the equation of the curve.
#[verifier::external_body]
pub(crate) fn curve_point_at(x: [u64; 4]) -> (c: Option<([u64; 4], [u64; 4])>)
    requires
        limbs_value(x@) < base_modulus(),
    ensures
        match coordinates(c) {
            Some((u, v)) => u == limbs_value(x@) && is_smaller_root(u, v),
            None => forall|y: int| !#[trigger] on_curve(Some((limbs_value(x@), y))),
        },
{
    let c = Affine::get_point_from_x_unchecked(Fq::new(BigInt(x)), false)?;
    c.xy().map(|(x, y)| (x.into_bigint().0, y.into_bigint().0))
}

/// `SigningKey::generate` in `ed25519-dalek`, on the random numbers of the
/// operating system: some secret key, of which nothing is said.
#[verifier::external_body]
pub(crate) fn ed25519_generate() -> (secret: [u8; 32]) {
    ed25519_dalek::SigningKey::generate(&mut rand::rngs::OsRng).to_bytes()
}

/// The Ed25519 public key of a secret key.
pub uninterp spec fn ed25519_public_key(secret: Seq<u8>) -> [u8; 32];

/// `SigningKey::verifying_key` in `ed25519-dalek`: the public key, a function of
/// the secret key.
#[verifier::external_body]
pub(crate) fn ed25519_public(secret: &[u8; 32]) -> (public: [u8; 32])
    ensures
        public == ed25519_public_key(secret@),
{
    ed25519_dalek::SigningKey::from_bytes(secret).verifying_key().to_bytes()
}

/// The Ed25519 signature of a message under a secret key.
pub uninterp spec fn ed25519_signature(secret: Seq<u8>, message: Seq<u8>) -> [u8; 64];

/// `Signer::sign` for `SigningKey` in `ed25519-dalek`: the signature, a function
/// of the secret key and the message, which verifies under the public key.
#[verifier::external_body]
pub(crate) fn ed25519_sign(secret: &[u8; 32], message: &[u8]) -> (signature: [u8; 64])
    ensures
        signature == ed25519_signature(secret@, message@),
        ed25519_verifies(ed25519_public_key(secret@)@, message@, signature@),
{
    ed25519_dalek::SigningKey::from_bytes(secret).sign(message).to_bytes()
}

/// The signature verifies for the message under the public key.
pub uninterp spec fn ed25519_verifies(
    public: Seq<u8>,
    message: Seq<u8>,
    signature: Seq<u8>,
) -> bool;

/// `Verifier::verify` for `VerifyingKey` in `ed25519-dalek`: whether the
/// signature verifies, a function of the public key, the message and the
/// signature. Under bytes that are no public key nothing does.
#[verifier::external_body]
pub(crate) fn ed25519_verify(public: &[u8; 32], message: &[u8], signature: &[u8; 64]) -> (r: bool)
    ensures
        r == ed25519_verifies(public@, message@, signature@),
{
    match ed25519_dalek::VerifyingKey::from_bytes(public) {
        Ok(key) => key.verify(message, &ed25519_dalek::Signature::from_bytes(signature)).is_ok(),
        Err(_) => false,
    }
}

} // verus!
