//! Variables, linear combinations and the constraint-system interface.
use vstd::prelude::*;
use crate::errors::R1CSError;
use crate::scalar::{fadd, fmul, fpow, fsub, Scalar};

verus! {

/// A wire of the constraint system.
#[derive(Clone, Copy, Debug, PartialEq, Eq)]
pub enum Variable {
    /// The left input of multiplication gate `i`.
    MultiplierLeft(usize),
    /// The right input of multiplication gate `i`.
    MultiplierRight(usize),
    /// The output of multiplication gate `i`.
    MultiplierOutput(usize),
    /// Entry `i` of the committed vectors.
    Committed(usize),
    /// The constant one.
    One(),
}

/// Whether `v` is wire `i` of the given kind: `0` left, `1` right, `2` output,
/// `3` committed, `4` the constant (any `i`).
pub open spec fn var_is(v: Variable, kind: int, i: int) -> bool {
    match v {
        Variable::MultiplierLeft(j) => kind == 0 && j == i,
        Variable::MultiplierRight(j) => kind == 1 && j == i,
        Variable::MultiplierOutput(j) => kind == 2 && j == i,
        Variable::Committed(j) => kind == 3 && j == i,
        Variable::One() => kind == 4,
    }
}

/// Adds `w` to a gate weight, or subtracts it from a committed or constant weight.
pub open spec fn weight_step(acc: nat, kind: int, w: nat) -> nat {
    if kind >= 3 {
        fsub(acc, w)
    } else {
        fadd(acc, w)
    }
}

/// The weight `acc` after the first `t` terms of one constraint, scaled by `ez`.
pub open spec fn weight_in_lc(acc: nat, terms: Seq<(Variable, Scalar)>, t: int, kind: int, i: int, ez: nat) -> nat
    decreases t,
{
    if t <= 0 {
        acc
    } else {
        let prev = weight_in_lc(acc, terms, t - 1, kind, i, ez);
        if var_is(terms[t - 1].0, kind, i) {
            weight_step(prev, kind, fmul(ez, terms[t - 1].1.val()))
        } else {
            prev
        }
    }
}

/// The flattened weight of wire `i` of a kind after the first `q` constraints:
/// constraint `p` contributes its coefficients on that wire times `z^(p+1)`.
pub open spec fn flat_weight(cs: Seq<LinearCombination>, q: int, kind: int, i: int, z: nat) -> nat
    decreases q,
{
    if q <= 0 {
        0
    } else {
        weight_in_lc(flat_weight(cs, q - 1, kind, i, z), cs[q - 1].terms@, cs[q - 1].terms@.len() as int, kind, i, fpow(z, q as nat))
    }
}

/// A sum of variables with scalar coefficients.
#[derive(Clone, Debug)]
pub struct LinearCombination {
    pub terms: Vec<(Variable, Scalar)>,
}

impl LinearCombination {
    /// The empty combination.
    pub fn zero() -> (r: LinearCombination)
        ensures
            r.terms@.len() == 0,
    {
        LinearCombination { terms: Vec::new() }
    }

    /// `1 * v`.
    pub fn from_variable(v: Variable) -> (r: LinearCombination)
        ensures
            r.terms@ == seq![(v, r.terms@[0].1)],
            r.terms@[0].1.val() == 1,
    {
        LinearCombination { terms: vec![(v, Scalar::one())] }
    }

    /// `s * One`.
    pub fn from_scalar(s: Scalar) -> (r: LinearCombination)
        ensures
            r.terms@ == seq![(Variable::One(), s)],
    {
        LinearCombination { terms: vec![(Variable::One(), s)] }
    }

    /// Adds the term `c * v`.
    pub fn push_term(&mut self, v: Variable, c: Scalar)
        ensures
            final(self).terms@ == old(self).terms@.push((v, c)),
    {
        self.terms.push((v, c));
    }

    /// `self - s * One`.
    pub fn minus_scalar(&self, s: &Scalar) -> (r: LinearCombination)
        ensures
            r.terms@.len() == self.terms@.len() + 1,
            r.terms@.subrange(0, self.terms@.len() as int) == self.terms@,
            r.terms@.last().0 == Variable::One(),
            r.terms@.last().1.val() == crate::scalar::fneg(s.val()),
    {
        let mut t: Vec<(Variable, Scalar)> = Vec::new();
        crate::fold::append_block(&mut t, self.terms.as_slice(), 0, self.terms.len());
        proof {
            assert(self.terms@.subrange(0, self.terms@.len() as int) =~= self.terms@);
        }
        t.push((Variable::One(), s.neg()));
        proof {
            assert(t@.subrange(0, self.terms@.len() as int) =~= self.terms@);
        }
        LinearCombination { terms: t }
    }

    /// Every coefficient multiplied by `s`.
    pub fn scale(&self, s: &Scalar) -> (r: LinearCombination)
        ensures
            r.terms@.len() == self.terms@.len(),
            forall|i: int| 0 <= i < r.terms@.len() ==> (#[trigger] r.terms@[i]).0 == self.terms@[i].0
                && r.terms@[i].1.val() == crate::scalar::fmul(self.terms@[i].1.val(), s.val()),
    {
        let mut t: Vec<(Variable, Scalar)> = Vec::new();
        let mut i: usize = 0;
        while i < self.terms.len()
            invariant
                i <= self.terms@.len(),
                t@.len() == i,
                forall|j: int| 0 <= j < i ==> (#[trigger] t@[j]).0 == self.terms@[j].0
                    && t@[j].1.val() == crate::scalar::fmul(self.terms@[j].1.val(), s.val()),
            decreases self.terms@.len() - i,
        {
            let (v, c) = self.terms[i];
            t.push((v, c.mul(s)));
            i = i + 1;
        }
        LinearCombination { terms: t }
    }
}

/// `lc2` is `lc` with the term `-1 * v` appended.
pub open spec fn linked_with(lc2: LinearCombination, lc: LinearCombination, v: Variable) -> bool {
    &&& lc2.terms@.len() == lc.terms@.len() + 1
    &&& lc2.terms@.subrange(0, lc.terms@.len() as int) == lc.terms@
    &&& lc2.terms@.last().0 == v
    &&& lc2.terms@.last().1.val() == crate::scalar::fneg(1)
}

/// The interface that circuits are written against, by the prover and the verifier
/// alike.
pub trait ConstraintSystem {
    /// Number of multiplication gates so far.
    spec fn cs_gates(&self) -> nat;

    /// The constraints accumulated so far.
    spec fn cs_constraints(&self) -> Seq<LinearCombination>;

    /// The system's internal consistency.
    spec fn cs_ok(&self) -> bool;

    /// Adds a multiplication gate whose inputs are `left` and `right`, constrained to
    /// equal its wires; returns the left, right and output wires.
    fn multiply(&mut self, left: LinearCombination, right: LinearCombination) -> (r: (Variable, Variable, Variable))
        requires
            old(self).cs_ok(),
            old(self).cs_gates() < usize::MAX,
        ensures
            final(self).cs_ok(),
            r == (Variable::MultiplierLeft(old(self).cs_gates() as usize), Variable::MultiplierRight(old(self).cs_gates() as usize),
                Variable::MultiplierOutput(old(self).cs_gates() as usize)),
            final(self).cs_gates() == old(self).cs_gates() + 1,
            final(self).cs_constraints().len() == old(self).cs_constraints().len() + 2,
            final(self).cs_constraints().subrange(0, old(self).cs_constraints().len() as int) == old(self).cs_constraints(),
            linked_with(final(self).cs_constraints()[old(self).cs_constraints().len() as int], left, r.0),
            linked_with(final(self).cs_constraints()[old(self).cs_constraints().len() as int + 1], right, r.1),
    ;

    /// Adds a multiplication gate with the given assignment (used by the prover,
    /// ignored by the verifier), without constraints on its inputs.
    fn allocate(&mut self, assignment: Result<(Scalar, Scalar, Scalar), R1CSError>) -> (r: Result<
        (Variable, Variable, Variable),
        R1CSError,
    >)
        requires
            old(self).cs_ok(),
            old(self).cs_gates() < usize::MAX,
        ensures
            final(self).cs_ok(),
            final(self).cs_constraints() == old(self).cs_constraints(),
            r matches Err(e) ==> assignment == Err::<(Scalar, Scalar, Scalar), R1CSError>(e) && final(self).cs_gates() == old(self).cs_gates(),
            r matches Ok(w) ==> w == (Variable::MultiplierLeft(old(self).cs_gates() as usize), Variable::MultiplierRight(
                old(self).cs_gates() as usize), Variable::MultiplierOutput(old(self).cs_gates() as usize))
                && final(self).cs_gates() == old(self).cs_gates() + 1,
    ;

    /// Requires the combination to evaluate to zero.
    fn constrain(&mut self, lc: LinearCombination)
        ensures
            final(self).cs_ok() == old(self).cs_ok(),
            final(self).cs_gates() == old(self).cs_gates(),
            final(self).cs_constraints() == old(self).cs_constraints().push(lc),
    ;

    /// A challenge scalar bound to everything committed so far.
    fn challenge_scalar(&mut self, label: &'static str) -> (r: Scalar)
        ensures
            r.wf(),
            final(self).cs_ok() == old(self).cs_ok(),
            final(self).cs_gates() == old(self).cs_gates(),
            final(self).cs_constraints() == old(self).cs_constraints(),
    ;
}

} // verus!
