//! Vector polynomials used by the constraint-system protocol.
use vstd::prelude::*;
use crate::fold::powers;
use crate::scalar::{fadd, fmul, fpow, inner_product, inner_product_spec, Scalar};

verus! {

/// A degree-3 polynomial with vector coefficients `0 + x 1 + x^2 2 + x^3 3`.
pub struct VecPoly3(pub Vec<Scalar>, pub Vec<Scalar>, pub Vec<Scalar>, pub Vec<Scalar>);

/// A degree-6 polynomial without constant term: `t1 x + ... + t6 x^6`.
pub struct Poly6 {
    pub t1: Scalar,
    pub t2: Scalar,
    pub t3: Scalar,
    pub t4: Scalar,
    pub t5: Scalar,
    pub t6: Scalar,
}

/// A degree-1 polynomial with vector coefficients `0 + x 1`.
pub struct VecPoly1(pub Vec<Scalar>, pub Vec<Scalar>);

/// A degree-2 polynomial `0 + x 1 + x^2 2`.
pub struct Poly2(pub Scalar, pub Scalar, pub Scalar);

/// `[1, x, x^2, ..., x^(n-1)]`.
pub fn exp_iter(x: &Scalar, n: usize) -> (r: Vec<Scalar>)
    ensures
        r@.len() == n,
        forall|i: int| 0 <= i < n ==> (#[trigger] r@[i]).wf() && r@[i].val() == fpow(x.val(), i as nat),
{
    powers(x, n)
}

/// `n` zero scalars.
pub fn zeros(n: usize) -> (r: Vec<Scalar>)
    ensures
        r@.len() == n,
        forall|i: int| 0 <= i < n ==> (#[trigger] r@[i]).val() == 0 && r@[i].wf(),
{
    let mut r: Vec<Scalar> = Vec::new();
    let mut i: usize = 0;
    while i < n
        invariant
            i <= n,
            r@.len() == i,
            forall|j: int| 0 <= j < i ==> (#[trigger] r@[j]).val() == 0 && r@[j].wf(),
        decreases n - i,
    {
        r.push(Scalar::zero());
        i = i + 1;
    }
    r
}

/// `a + x * b`, entry by entry.
pub fn add_scaled(a: &Vec<Scalar>, x: &Scalar, b: &Vec<Scalar>) -> (r: Vec<Scalar>)
    requires
        a@.len() == b@.len(),
    ensures
        r@.len() == a@.len(),
        forall|i: int| 0 <= i < a@.len() ==> (#[trigger] r@[i]).wf() && r@[i].val() == crate::scalar::fadd(a@[i].val(), fmul(x.val(), b@[i].val())),
{
    let mut r: Vec<Scalar> = Vec::new();
    let mut i: usize = 0;
    while i < a.len()
        invariant
            a@.len() == b@.len(),
            i <= a@.len(),
            r@.len() == i,
            forall|j: int| 0 <= j < i ==> (#[trigger] r@[j]).wf() && r@[j].val() == crate::scalar::fadd(a@[j].val(), fmul(x.val(), b@[j].val())),
        decreases a@.len() - i,
    {
        let t = x.mul(&b[i]);
        r.push(a[i].add(&t));
        i = i + 1;
    }
    r
}

impl VecPoly3 {
    /// All four coefficients zero, of length `n`.
    pub fn zero(n: usize) -> (r: VecPoly3)
        ensures
            r.wf(n as nat),
    {
        VecPoly3(zeros(n), zeros(n), zeros(n), zeros(n))
    }

    /// All four coefficients have length `n`.
    pub open spec fn wf(&self, n: nat) -> bool {
        self.0@.len() == n && self.1@.len() == n && self.2@.len() == n && self.3@.len() == n
    }

    /// The coefficients of `<l(x), r(x)>` of degrees 1 to 6, for `l` with no
    /// constant term and `r` with no degree-2 term.
    pub fn special_inner_product(lhs: &VecPoly3, rhs: &VecPoly3) -> (r: Poly6)
        requires
            lhs.wf(rhs.0@.len()),
            rhs.wf(rhs.0@.len()),
        ensures
            r.t1.wf() && r.t2.wf() && r.t3.wf() && r.t4.wf() && r.t5.wf() && r.t6.wf(),
            r.t1.val() == inner_product_spec(lhs.1@, rhs.0@, rhs.0@.len() as int),
            r.t2.val() == fadd(inner_product_spec(lhs.1@, rhs.1@, rhs.0@.len() as int), inner_product_spec(lhs.2@, rhs.0@, rhs.0@.len() as int)),
            r.t3.val() == fadd(inner_product_spec(lhs.2@, rhs.1@, rhs.0@.len() as int), inner_product_spec(lhs.3@, rhs.0@, rhs.0@.len() as int)),
            r.t4.val() == fadd(inner_product_spec(lhs.1@, rhs.3@, rhs.0@.len() as int), inner_product_spec(lhs.3@, rhs.1@, rhs.0@.len() as int)),
            r.t5.val() == inner_product_spec(lhs.2@, rhs.3@, rhs.0@.len() as int),
            r.t6.val() == inner_product_spec(lhs.3@, rhs.3@, rhs.0@.len() as int),
    {
        let t1 = inner_product(lhs.1.as_slice(), rhs.0.as_slice());
        let t2 = inner_product(lhs.1.as_slice(), rhs.1.as_slice()).add(&inner_product(lhs.2.as_slice(), rhs.0.as_slice()));
        let t3 = inner_product(lhs.2.as_slice(), rhs.1.as_slice()).add(&inner_product(lhs.3.as_slice(), rhs.0.as_slice()));
        let t4 = inner_product(lhs.1.as_slice(), rhs.3.as_slice()).add(&inner_product(lhs.3.as_slice(), rhs.1.as_slice()));
        let t5 = inner_product(lhs.2.as_slice(), rhs.3.as_slice());
        let t6 = inner_product(lhs.3.as_slice(), rhs.3.as_slice());
        Poly6 { t1, t2, t3, t4, t5, t6 }
    }

    /// The vector `0 + x (1 + x (2 + x 3))`.
    pub fn eval(&self, x: &Scalar) -> (r: Vec<Scalar>)
        requires
            self.wf(self.0@.len()),
        ensures
            r@.len() == self.0@.len(),
            forall|i: int| 0 <= i < r@.len() ==> (#[trigger] r@[i]).wf() && r@[i].val() == fadd(self.0@[i].val(), fmul(x.val(),
                fadd(self.1@[i].val(), fmul(x.val(), fadd(self.2@[i].val(), fmul(x.val(), self.3@[i].val())))))),
    {
        let inner = add_scaled(&self.2, x, &self.3);
        let mid = add_scaled(&self.1, x, &inner);
        add_scaled(&self.0, x, &mid)
    }
}

/// `x (t1 + x (t2 + x (t3 + x (t4 + x (t5 + x t6)))))` in the field.
pub open spec fn poly6_at(t: Poly6, x: nat) -> nat {
    let a = fadd(t.t5.val(), fmul(x, t.t6.val()));
    let b = fadd(t.t4.val(), fmul(x, a));
    let c = fadd(t.t3.val(), fmul(x, b));
    let d = fadd(t.t2.val(), fmul(x, c));
    let e = fadd(t.t1.val(), fmul(x, d));
    fmul(x, e)
}

impl Poly6 {
    /// `x (t1 + x (t2 + x (t3 + x (t4 + x (t5 + x t6)))))`.
    pub fn eval(&self, x: &Scalar) -> (r: Scalar)
        ensures
            r.wf(),
            r.val() == poly6_at(*self, x.val()),
    {
        let a = self.t5.add(&x.mul(&self.t6));
        let b = self.t4.add(&x.mul(&a));
        let c = self.t3.add(&x.mul(&b));
        let d = self.t2.add(&x.mul(&c));
        let e = self.t1.add(&x.mul(&d));
        x.mul(&e)
    }
}

impl VecPoly1 {
    /// Both coefficients zero, of length `n`.
    pub fn zero(n: usize) -> (r: VecPoly1)
        ensures
            r.0@.len() == n,
            r.1@.len() == n,
    {
        VecPoly1(zeros(n), zeros(n))
    }

    /// The coefficients of `<l(x), r(x)>`.
    pub fn inner_product(&self, rhs: &VecPoly1) -> (r: Poly2)
        requires
            self.0@.len() == rhs.0@.len(),
            self.1@.len() == rhs.0@.len(),
            rhs.1@.len() == rhs.0@.len(),
        ensures
            r.0.wf() && r.1.wf() && r.2.wf(),
            r.0.val() == inner_product_spec(self.0@, rhs.0@, rhs.0@.len() as int),
            r.1.val() == fadd(inner_product_spec(self.0@, rhs.1@, rhs.0@.len() as int), inner_product_spec(self.1@, rhs.0@, rhs.0@.len() as int)),
            r.2.val() == inner_product_spec(self.1@, rhs.1@, rhs.0@.len() as int),
    {
        let t0 = inner_product(self.0.as_slice(), rhs.0.as_slice());
        let t2 = inner_product(self.1.as_slice(), rhs.1.as_slice());
        let t1 = inner_product(self.0.as_slice(), rhs.1.as_slice()).add(&inner_product(self.1.as_slice(), rhs.0.as_slice()));
        Poly2(t0, t1, t2)
    }

    /// The vector `0 + x 1`.
    pub fn eval(&self, x: &Scalar) -> (r: Vec<Scalar>)
        requires
            self.0@.len() == self.1@.len(),
        ensures
            r@.len() == self.0@.len(),
            forall|i: int| 0 <= i < r@.len() ==> (#[trigger] r@[i]).wf() && r@[i].val() == crate::scalar::fadd(self.0@[i].val(), fmul(x.val(), self.1@[i].val())),
    {
        add_scaled(&self.0, x, &self.1)
    }
}

impl Poly2 {
    /// `0 + x (1 + x 2)`.
    pub fn eval(&self, x: &Scalar) -> (r: Scalar)
        ensures
            r.wf(),
            r.val() == fadd(self.0.val(), fmul(x.val(), fadd(self.1.val(), fmul(x.val(), self.2.val())))),
    {
        let a = self.1.add(&x.mul(&self.2));
        self.0.add(&x.mul(&a))
    }
}

} // verus!
