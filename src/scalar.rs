//! Scalars of the Ristretto group: 32 canonical little-endian bytes, with their
//! arithmetic done by curve25519-dalek.
use vstd::prelude::*;
use curve25519_dalek::scalar::Scalar as DalekScalar;

verus! {

/// The order of the Ristretto group, `2^252 + 27742317777372353535851937790883648493`.
pub open spec fn group_order() -> nat {
    7237005577332262213973186563042994240857116359379907606001950938285454250989nat
}

/// The unsigned integer that a little-endian byte string denotes.
pub open spec fn le_value(b: Seq<u8>) -> nat
    decreases b.len(),
{
    if b.len() == 0 {
        0
    } else {
        le_value(b.drop_last()) + b.last() as nat * pow256((b.len() - 1) as nat)
    }
}

/// `256` to the power `e`.
pub open spec fn pow256(e: nat) -> nat
    decreases e,
{
    if e == 0 {
        1
    } else {
        256 * pow256((e - 1) as nat)
    }
}

/// Sum in the scalar field.
pub open spec fn fadd(a: nat, b: nat) -> nat {
    (a + b) % group_order()
}

/// Product in the scalar field.
pub open spec fn fmul(a: nat, b: nat) -> nat {
    (a * b) % group_order()
}

/// Additive inverse in the scalar field.
pub open spec fn fneg(a: nat) -> nat {
    ((group_order() - a % group_order()) as nat) % group_order()
}

/// Difference in the scalar field.
pub open spec fn fsub(a: nat, b: nat) -> nat {
    fadd(a, fneg(b))
}

/// `c` to the power `e` in the scalar field.
pub open spec fn fpow(c: nat, e: nat) -> nat
    decreases e,
{
    if e == 0 {
        1
    } else {
        fmul(fpow(c, (e - 1) as nat), c)
    }
}

/// The multiplicative inverse that curve25519-dalek computes for `a`: `a^(l-2)`
/// modulo the prime group order `l`, the inverse of a non-zero `a` and zero for zero.
pub open spec fn field_inverse(a: nat) -> nat {
    fpow(a % group_order(), (group_order() - 2) as nat)
}

/// An element of the scalar field, held as its canonical 32-byte encoding.
#[derive(Clone, Copy, Debug, PartialEq, Eq)]
pub struct Scalar {
    pub bytes: [u8; 32],
}

/// Relies on curve25519-dalek's `Scalar::zero`: the field's zero.
#[verifier::external_body]
fn dalek_zero() -> (r: Scalar)
    ensures
        r.wf(),
        r.val() == 0,
{
    Scalar { bytes: DalekScalar::zero().to_bytes() }
}

/// Relies on curve25519-dalek's `Scalar::one`: the field's one.
#[verifier::external_body]
fn dalek_one() -> (r: Scalar)
    ensures
        r.wf(),
        r.val() == 1,
{
    Scalar { bytes: DalekScalar::one().to_bytes() }
}

/// Relies on curve25519-dalek's `From<u64> for Scalar`: the integer itself,
/// which is below the group order.
#[verifier::external_body]
fn dalek_from_u64(x: u64) -> (r: Scalar)
    ensures
        r.wf(),
        r.val() == x,
{
    Scalar { bytes: DalekScalar::from(x).to_bytes() }
}

/// Relies on curve25519-dalek's `Scalar::from_canonical_bytes`: `Some` exactly
/// when the little-endian integer is below the group order, and then the same bytes.
#[verifier::external_body]
fn dalek_from_canonical_bytes(bytes: [u8; 32]) -> (r: Option<Scalar>)
    ensures
        r.is_some() == (le_value(bytes@) < group_order()),
        r.is_some() ==> r.unwrap().bytes == bytes,
{
    DalekScalar::from_canonical_bytes(bytes).map(|s| Scalar { bytes: s.to_bytes() })
}

/// Relies on curve25519-dalek's `Scalar::from_bytes_mod_order_wide`: the 512-bit
/// little-endian integer reduced modulo the group order.
#[verifier::external_body]
fn dalek_from_bytes_mod_order_wide(bytes: &[u8; 64]) -> (r: Scalar)
    ensures
        r.wf(),
        r.val() == le_value(bytes@) % group_order(),
{
    Scalar { bytes: DalekScalar::from_bytes_mod_order_wide(bytes).to_bytes() }
}

/// Relies on curve25519-dalek's `Add for Scalar`: the sum modulo the group order.
#[verifier::external_body]
fn dalek_add(a: &Scalar, o: &Scalar) -> (r: Scalar)
    ensures
        r.wf(),
        r.val() == fadd(a.val(), o.val()),
{
    let a = DalekScalar::from_bytes_mod_order(a.bytes);
    let b = DalekScalar::from_bytes_mod_order(o.bytes);
    Scalar { bytes: (a + b).to_bytes() }
}

/// Relies on curve25519-dalek's `Mul for Scalar`: the product modulo the group order.
#[verifier::external_body]
fn dalek_mul(a: &Scalar, o: &Scalar) -> (r: Scalar)
    ensures
        r.wf(),
        r.val() == fmul(a.val(), o.val()),
{
    let a = DalekScalar::from_bytes_mod_order(a.bytes);
    let b = DalekScalar::from_bytes_mod_order(o.bytes);
    Scalar { bytes: (a * b).to_bytes() }
}

/// Relies on curve25519-dalek's `Neg for Scalar`: the additive inverse.
#[verifier::external_body]
fn dalek_neg(a: &Scalar) -> (r: Scalar)
    ensures
        r.wf(),
        r.val() == fneg(a.val()),
{
    Scalar { bytes: (-DalekScalar::from_bytes_mod_order(a.bytes)).to_bytes() }
}

/// Relies on curve25519-dalek's `Scalar::invert`: it raises the scalar to the power
/// `l - 2` modulo the prime group order `l`, which for a non-zero scalar is its
/// multiplicative inverse, and zero for zero.
#[verifier::external_body]
fn dalek_invert(a: &Scalar) -> (r: Scalar)
    ensures
        r.wf(),
        r.val() == field_inverse(a.val()),
        a.val() % group_order() != 0 ==> fmul(r.val(), a.val()) == 1,
        a.val() % group_order() == 0 ==> r.val() == 0,
{
    Scalar { bytes: DalekScalar::from_bytes_mod_order(a.bytes).invert().to_bytes() }
}

impl Scalar {
    /// The integer this scalar denotes.
    pub open spec fn val(self) -> nat {
        le_value(self.bytes@)
    }

    /// The encoding is canonical: the integer is below the group order.
    pub open spec fn wf(self) -> bool {
        self.val() < group_order()
    }

    /// The field's zero.
    pub fn zero() -> (r: Scalar)
        ensures
            r.wf(),
            r.val() == 0,
    {
        dalek_zero()
    }

    /// The field's one.
    pub fn one() -> (r: Scalar)
        ensures
            r.wf(),
            r.val() == 1,
    {
        dalek_one()
    }

    /// The scalar denoting `x`.
    pub fn from_u64(x: u64) -> (r: Scalar)
        ensures
            r.wf(),
            r.val() == x,
    {
        dalek_from_u64(x)
    }

    /// Decodes a canonical encoding: `Some` exactly when the integer is below the group order.
    pub fn from_canonical_bytes(bytes: [u8; 32]) -> (r: Option<Scalar>)
        ensures
            r.is_some() == (le_value(bytes@) < group_order()),
            r.is_some() ==> r.unwrap().bytes == bytes,
    {
        dalek_from_canonical_bytes(bytes)
    }

    /// The 512-bit little-endian integer reduced modulo the group order.
    pub fn from_bytes_mod_order_wide(bytes: &[u8; 64]) -> (r: Scalar)
        ensures
            r.wf(),
            r.val() == le_value(bytes@) % group_order(),
    {
        dalek_from_bytes_mod_order_wide(bytes)
    }

    /// Sum in the field.
    pub fn add(&self, o: &Scalar) -> (r: Scalar)
        ensures
            r.wf(),
            r.val() == fadd(self.val(), o.val()),
    {
        dalek_add(self, o)
    }

    /// Product in the field.
    pub fn mul(&self, o: &Scalar) -> (r: Scalar)
        ensures
            r.wf(),
            r.val() == fmul(self.val(), o.val()),
    {
        dalek_mul(self, o)
    }

    /// Additive inverse in the field.
    pub fn neg(&self) -> (r: Scalar)
        ensures
            r.wf(),
            r.val() == fneg(self.val()),
    {
        dalek_neg(self)
    }

    /// Multiplicative inverse of a non-zero scalar.
    pub fn invert(&self) -> (r: Scalar)
        ensures
            r.wf(),
            r.val() == field_inverse(self.val()),
            self.val() % group_order() != 0 ==> fmul(r.val(), self.val()) == 1,
            self.val() % group_order() == 0 ==> r.val() == 0,
    {
        dalek_invert(self)
    }

    /// Difference in the field.
    pub fn sub(&self, o: &Scalar) -> (r: Scalar)
        ensures
            r.wf(),
            r.val() == fsub(self.val(), o.val()),
    {
        let n = o.neg();
        self.add(&n)
    }

    /// The canonical encoding.
    pub fn to_bytes(&self) -> (r: [u8; 32])
        ensures
            r == self.bytes,
    {
        self.bytes
    }
}

/// `base` to the power `exp`, by repeated multiplication.
pub fn scalar_pow(base: Scalar, exp: u64) -> (r: Scalar)
    ensures
        r.wf(),
        r.val() == fpow(base.val(), exp as nat),
{
    let mut acc = Scalar::one();
    let mut i: u64 = 0;
    while i < exp
        invariant
            i <= exp,
            acc.wf(),
            acc.val() == fpow(base.val(), i as nat),
        decreases exp - i,
    {
        acc = acc.mul(&base);
        i = i + 1;
    }
    acc
}

/// Sum of `a[i] * b[i]` over the first `n` positions, in the field.
pub open spec fn inner_product_spec(a: Seq<Scalar>, b: Seq<Scalar>, n: int) -> nat
    decreases n,
{
    if n <= 0 {
        0
    } else {
        fadd(inner_product_spec(a, b, n - 1), fmul(a[n - 1].val(), b[n - 1].val()))
    }
}

/// The inner product `<a, b>` in the scalar field.
pub fn inner_product(a: &[Scalar], b: &[Scalar]) -> (r: Scalar)
    requires
        a@.len() == b@.len(),
    ensures
        r.wf(),
        r.val() == inner_product_spec(a@, b@, a@.len() as int),
{
    let mut out = Scalar::zero();
    let mut i: usize = 0;
    while i < a.len()
        invariant
            a@.len() == b@.len(),
            i <= a@.len(),
            out.wf(),
            out.val() == inner_product_spec(a@, b@, i as int),
        decreases a@.len() - i,
    {
        let t = a[i].mul(&b[i]);
        out = out.add(&t);
        i = i + 1;
    }
    proof {
        assert(out.val() < group_order());
    }
    out
}

} // verus!
