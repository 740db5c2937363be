//! Ristretto group elements, through curve25519-dalek.
use vstd::prelude::*;
use crate::scalar::{group_order, Scalar};
use curve25519_dalek::ristretto::{CompressedRistretto, RistrettoPoint};
use curve25519_dalek::scalar::Scalar as DalekScalar;
use curve25519_dalek::traits::{Identity, IsIdentity, MultiscalarMul, VartimeMultiscalarMul};

verus! {

/// curve25519-dalek's `RistrettoPoint`, a group element carried opaquely.
#[verifier::external_type_specification]
#[verifier::external_body]
pub struct ExRistrettoPoint(RistrettoPoint);

/// Whether 32 bytes are the canonical encoding of a Ristretto point.
pub uninterp spec fn decompresses(b: Seq<u8>) -> bool;

/// The point that 32 bytes decode to, when they are a canonical encoding.
pub uninterp spec fn decompress_of(b: Seq<u8>) -> RistrettoPoint;

/// The canonical 32-byte encoding of a point.
pub uninterp spec fn compress_of(p: RistrettoPoint) -> Seq<u8>;

/// Whether a point is the group identity.
pub uninterp spec fn is_identity_of(p: RistrettoPoint) -> bool;

/// `sum_i s[i] * p[i]`, as the variable-time multiscalar multiplication computes it.
pub uninterp spec fn msm_of(s: Seq<nat>, p: Seq<RistrettoPoint>) -> RistrettoPoint;

/// `sum_i s[i] * p[i]`, as the constant-time multiscalar multiplication computes it.
pub uninterp spec fn msm_ct_of(s: Seq<nat>, p: Seq<RistrettoPoint>) -> RistrettoPoint;

/// The integers of scalars, reduced modulo the group order.
pub open spec fn scalar_ints(s: Seq<Scalar>) -> Seq<nat> {
    s.map_values(|x: Scalar| x.val() % group_order())
}

/// The 32-byte compressed encoding of a group element.
#[derive(Clone, Copy, Debug, PartialEq, Eq)]
pub struct CompressedPoint {
    pub bytes: [u8; 32],
}

impl CompressedPoint {
    /// The raw encoding.
    pub fn to_bytes(&self) -> (r: [u8; 32])
        ensures
            r == self.bytes,
    {
        self.bytes
    }
}

/// Relies on curve25519-dalek's `CompressedRistretto::decompress`: `Some` exactly
/// when the bytes encode a point.
#[verifier::external_body]
pub(crate) fn decompress(c: &CompressedPoint) -> (r: Option<RistrettoPoint>)
    ensures
        r.is_some() == decompresses(c.bytes@),
        r matches Some(p) ==> p == decompress_of(c.bytes@),
{
    CompressedRistretto(c.bytes).decompress()
}

/// Relies on curve25519-dalek's `RistrettoPoint::compress`: the canonical encoding of
/// the point, which `CompressedRistretto::decompress` accepts.
#[verifier::external_body]
pub(crate) fn compress(p: &RistrettoPoint) -> (r: CompressedPoint)
    ensures
        decompresses(r.bytes@),
        r.bytes@ == compress_of(*p),
{
    CompressedPoint { bytes: p.compress().to_bytes() }
}

/// Relies on curve25519-dalek's `Identity for RistrettoPoint`.
#[verifier::external_body]
pub(crate) fn identity() -> (r: RistrettoPoint)
{
    RistrettoPoint::identity()
}

/// Relies on curve25519-dalek's `IsIdentity for RistrettoPoint`.
#[verifier::external_body]
pub(crate) fn is_identity(p: &RistrettoPoint) -> (r: bool)
    ensures
        r == is_identity_of(*p),
{
    p.is_identity()
}

/// Relies on curve25519-dalek's `VartimeMultiscalarMul for RistrettoPoint`:
/// the sum of `scalars[i] * points[i]`, a function of the reduced scalars and the
/// points alone.
#[verifier::external_body]
pub(crate) fn msm(scalars: &[Scalar], points: &[RistrettoPoint]) -> (r: RistrettoPoint)
    requires
        scalars@.len() == points@.len(),
    ensures
        r == msm_of(scalar_ints(scalars@), points@),
{
    RistrettoPoint::vartime_multiscalar_mul(
        scalars.iter().map(|s| DalekScalar::from_bytes_mod_order(s.bytes)),
        points.iter(),
    )
}

/// Relies on curve25519-dalek's `MultiscalarMul for RistrettoPoint`, the
/// constant-time multiscalar multiplication: the sum of `scalars[i] * points[i]`.
#[verifier::external_body]
pub(crate) fn msm_ct(scalars: &[Scalar], points: &[RistrettoPoint]) -> (r: RistrettoPoint)
    requires
        scalars@.len() == points@.len(),
    ensures
        r == msm_ct_of(scalar_ints(scalars@), points@),
{
    RistrettoPoint::multiscalar_mul(
        scalars.iter().map(|s| DalekScalar::from_bytes_mod_order(s.bytes)),
        points.iter(),
    )
}

/// Relies on curve25519-dalek's `RistrettoPoint::from_uniform_bytes`: a point
/// derived from 64 uniformly random bytes.
#[verifier::external_body]
pub(crate) fn from_uniform_bytes(bytes: &[u8; 64]) -> (r: RistrettoPoint)
{
    RistrettoPoint::from_uniform_bytes(bytes)
}

/// `s * p`.
pub fn scalar_mul(s: &Scalar, p: &RistrettoPoint) -> (r: RistrettoPoint)
    ensures
        r == msm_of(seq![s.val() % group_order()], seq![*p]),
{
    let sv = vec![*s];
    let pv = vec![*p];
    proof {
        assert(scalar_ints(sv@) =~= seq![s.val() % group_order()]);
        assert(pv@ =~= seq![*p]);
    }
    msm(sv.as_slice(), pv.as_slice())
}

/// `p + q`.
pub fn add_points(p: &RistrettoPoint, q: &RistrettoPoint) -> (r: RistrettoPoint)
    ensures
        r == msm_of(seq![1nat, 1nat], seq![*p, *q]),
{
    let one = Scalar::one();
    let sv = vec![one, one];
    let pv = vec![*p, *q];
    proof {
        assert(scalar_ints(sv@) =~= seq![1nat, 1nat]);
        assert(pv@ =~= seq![*p, *q]);
    }
    msm(sv.as_slice(), pv.as_slice())
}

} // verus!
