//! The Ristretto group, seen through 32-byte canonical encodings of points
//! and 32-byte scalars reduced modulo the group order.

use curve25519_dalek::constants::RISTRETTO_BASEPOINT_POINT;
use curve25519_dalek::ristretto::CompressedRistretto;
use curve25519_dalek::scalar::Scalar;
use vstd::prelude::*;

verus! {

/// Length of a point's encoding and of a scalar.
pub const POINT_SIZE: usize = 32;

/// Whether 32 bytes are the canonical encoding of a point.
pub uninterp spec fn ristretto_decodes(enc: Seq<u8>) -> bool;

/// The encoding of `scalar * P`, for the base point `P`.
pub uninterp spec fn ristretto_base_mul(scalar: Seq<u8>) -> Seq<u8>;

/// The encoding of `scalar * X`, for the point `X` that `enc` encodes.
pub uninterp spec fn ristretto_mul(enc: Seq<u8>, scalar: Seq<u8>) -> Seq<u8>;

/// The encoding of `X + Y`.
pub uninterp spec fn ristretto_add(x: Seq<u8>, y: Seq<u8>) -> Seq<u8>;

/// The encoding of `X - Y`.
pub uninterp spec fn ristretto_sub(x: Seq<u8>, y: Seq<u8>) -> Seq<u8>;

/// Relies on `CompressedRistretto::decompress`, which accepts exactly the
/// canonical encodings.
#[verifier::external_body]
pub(crate) fn point_decodes(enc: &Vec<u8>) -> (r: bool)
    requires
        enc@.len() == POINT_SIZE,
    ensures
        r == ristretto_decodes(enc@),
{
    CompressedRistretto::from_slice(enc).decompress().is_some()
}

/// Relies on `Scalar::from_bytes_mod_order`, `RistrettoPoint * Scalar` and
/// `compress`, whose output is a canonical encoding.
#[verifier::external_body]
pub(crate) fn base_mul(scalar: &Vec<u8>) -> (r: Vec<u8>)
    requires
        scalar@.len() == POINT_SIZE,
    ensures
        r@ == ristretto_base_mul(scalar@),
        r@.len() == POINT_SIZE,
        ristretto_decodes(r@),
{
    let mut b = [0u8; 32];
    b.copy_from_slice(scalar);
    (RISTRETTO_BASEPOINT_POINT * Scalar::from_bytes_mod_order(b)).compress().to_bytes().to_vec()
}

/// Relies on `decompress`, `Scalar::from_bytes_mod_order`,
/// `RistrettoPoint * Scalar` and `compress`.
#[verifier::external_body]
pub(crate) fn point_mul(enc: &Vec<u8>, scalar: &Vec<u8>) -> (r: Option<Vec<u8>>)
    requires
        enc@.len() == POINT_SIZE,
        scalar@.len() == POINT_SIZE,
    ensures
        r is Some <==> ristretto_decodes(enc@),
        r matches Some(v) ==> v@ == ristretto_mul(enc@, scalar@) && v@.len() == POINT_SIZE
            && ristretto_decodes(v@),
{
    let mut b = [0u8; 32];
    b.copy_from_slice(scalar);
    let x = CompressedRistretto::from_slice(enc).decompress()?;
    Some((x * Scalar::from_bytes_mod_order(b)).compress().to_bytes().to_vec())
}

/// Relies on `decompress`, `RistrettoPoint + RistrettoPoint` and `compress`.
#[verifier::external_body]
pub(crate) fn point_add(x: &Vec<u8>, y: &Vec<u8>) -> (r: Option<Vec<u8>>)
    requires
        x@.len() == POINT_SIZE,
        y@.len() == POINT_SIZE,
    ensures
        r is Some <==> (ristretto_decodes(x@) && ristretto_decodes(y@)),
        r matches Some(v) ==> v@ == ristretto_add(x@, y@) && v@.len() == POINT_SIZE
            && ristretto_decodes(v@),
{
    let p = CompressedRistretto::from_slice(x).decompress()?;
    let q = CompressedRistretto::from_slice(y).decompress()?;
    Some((p + q).compress().to_bytes().to_vec())
}

/// Relies on `decompress`, `RistrettoPoint - RistrettoPoint` and `compress`.
#[verifier::external_body]
pub(crate) fn point_sub(x: &Vec<u8>, y: &Vec<u8>) -> (r: Option<Vec<u8>>)
    requires
        x@.len() == POINT_SIZE,
        y@.len() == POINT_SIZE,
    ensures
        r is Some <==> (ristretto_decodes(x@) && ristretto_decodes(y@)),
        r matches Some(v) ==> v@ == ristretto_sub(x@, y@) && v@.len() == POINT_SIZE
            && ristretto_decodes(v@),
{
    let p = CompressedRistretto::from_slice(x).decompress()?;
    let q = CompressedRistretto::from_slice(y).decompress()?;
    Some((p - q).compress().to_bytes().to_vec())
}

} // verus!
