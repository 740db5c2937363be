//! The prover of the aggregated constraint-system protocol.
use vstd::prelude::*;
use crate::batched_ecp::batched_eCP;
use crate::errors::R1CSError;
use crate::fold::append_block;
use crate::generators::{BulletproofGens, PedersenGens};
use crate::k_bullet::K_BulletProof;
use crate::point::{compress, compress_of, msm, msm_ct, msm_ct_of, scalar_ints, scalar_mul, add_points, CompressedPoint};
use crate::r1cs::constraint_system::{flat_weight, var_is, weight_in_lc, weight_step, ConstraintSystem, LinearCombination, Variable};
use crate::r1cs::r1cs_proof::R1CSProof;
use crate::rounds::fold_len;
use crate::scalar::{fmul, fpow, group_order, inner_product, Scalar};
use crate::transcript::{challenge_scalar, commit_point, commit_scalar, commit_u64, r1cs_domain_sep};
use crate::util::{add_scaled, exp_iter, poly6_at, zeros, Poly2, Poly6, VecPoly1, VecPoly3};
use curve25519_dalek::ristretto::RistrettoPoint;
use merlin::{Transcript, TranscriptRng};

verus! {

/// merlin's `TranscriptRng`, a random-number source carried opaquely.
#[verifier::external_type_specification]
#[verifier::external_body]
pub struct ExTranscriptRng(TranscriptRng);

/// Relies on merlin's `TranscriptRngBuilder`: an RNG bound to the transcript state,
/// to the witness bytes and to fresh randomness from `rand::thread_rng`.
#[verifier::external_body]
pub(crate) fn witness_rng(t: &Transcript, label: &'static str, witness: &[u8; 32]) -> (r: TranscriptRng)
{
    t.build_rng().rekey_with_witness_bytes(label.as_bytes(), witness).finalize(&mut rand::thread_rng())
}

/// Relies on curve25519-dalek's `Scalar::random`: a uniformly random canonical scalar.
#[verifier::external_body]
pub(crate) fn random_scalar(rng: &mut TranscriptRng) -> (r: Scalar)
    ensures
        r.wf(),
{
    Scalar { bytes: curve25519_dalek::scalar::Scalar::random(rng).to_bytes() }
}

/// Relies on clear_on_drop's `Clear` for byte arrays: the bytes are overwritten with
/// zeros in a way the compiler does not remove.
#[verifier::external_body]
fn wipe(s: &mut Scalar)
    ensures
        final(s).bytes@ == Seq::new(32, |i: int| 0u8),
{
    clear_on_drop::clear::Clear::clear(&mut s.bytes)
}

/// Overwrites every scalar of `v` with zeros.
fn wipe_all(v: &mut Vec<Scalar>)
    ensures
        final(v)@.len() == old(v)@.len(),
        forall|i: int| 0 <= i < final(v)@.len() ==> (#[trigger] final(v)@[i]).bytes@ == Seq::new(32, |j: int| 0u8),
{
    let mut i: usize = 0;
    while i < v.len()
        invariant
            v@.len() == old(v)@.len(),
            i <= v@.len(),
            forall|j: int| 0 <= j < i ==> (#[trigger] v@[j]).bytes@ == Seq::new(32, |jj: int| 0u8),
        decreases v@.len() - i,
    {
        let mut s = v[i];
        wipe(&mut s);
        v.set(i, s);
        i = i + 1;
    }
}

/// The committing stage of the prover: external vectors are committed one by one.
pub struct Prover<'b> {
    m: u64,
    cs: ProverCS<'b>,
}

/// The constraint system of the prover, holding the witness.
pub struct ProverCS<'b> {
    transcript: Transcript,
    bp_gens: &'b BulletproofGens,
    pc_gens: &'b PedersenGens,
    constraints: Vec<LinearCombination>,
    a_L: Vec<Scalar>,
    a_R: Vec<Scalar>,
    a_O: Vec<Scalar>,
    v: Vec<Scalar>,
    v_blinding: Scalar,
}

impl<'b> ProverCS<'b> {
    /// The multiplier vectors have one length and every witness scalar is canonical.
    pub closed spec fn inv(&self) -> bool {
        &&& self.a_R@.len() == self.a_L@.len()
        &&& self.a_O@.len() == self.a_L@.len()
        &&& forall|i: int| 0 <= i < self.v@.len() ==> (#[trigger] self.v@[i]).wf()
    }

    /// The vector generators in use.
    pub closed spec fn gens(&self) -> BulletproofGens {
        *self.bp_gens
    }

    /// The left inputs of the multiplication gates.
    pub closed spec fn gate_left(&self) -> Seq<Scalar> {
        self.a_L@
    }

    /// The right inputs of the multiplication gates.
    pub closed spec fn gate_right(&self) -> Seq<Scalar> {
        self.a_R@
    }

    /// The outputs of the multiplication gates.
    pub closed spec fn gate_out(&self) -> Seq<Scalar> {
        self.a_O@
    }

    /// The Pedersen bases in use.
    pub closed spec fn pedersen(&self) -> PedersenGens {
        *self.pc_gens
    }

    /// Whether the three gate vectors have one length.
    pub closed spec fn gates_aligned(&self) -> bool {
        self.a_R@.len() == self.a_L@.len() && self.a_O@.len() == self.a_L@.len()
    }

    /// Number of multiplication gates.
    pub closed spec fn num_gates(&self) -> nat {
        self.a_L@.len()
    }

    /// Number of committed entries.
    pub closed spec fn num_committed(&self) -> nat {
        self.v@.len()
    }

    /// The value of a variable under the witness (zero for an unknown wire).
    spec fn wire_value(&self, var: Variable) -> nat {
        match var {
            Variable::MultiplierLeft(i) => if i < self.a_L@.len() { fmul(self.a_L@[i as int].val(), 1) } else { 0 },
            Variable::MultiplierRight(i) => if i < self.a_R@.len() { fmul(self.a_R@[i as int].val(), 1) } else { 0 },
            Variable::MultiplierOutput(i) => if i < self.a_O@.len() { fmul(self.a_O@[i as int].val(), 1) } else { 0 },
            Variable::Committed(i) => if i < self.v@.len() { fmul(self.v@[i as int].val(), 1) } else { 0 },
            Variable::One() => 1,
        }
    }

    /// `sum_{t' < t} c_t' * value(var_t')` over the terms of a combination, in the field.
    spec fn lc_value(&self, terms: Seq<(Variable, Scalar)>, t: int) -> nat
        decreases t,
    {
        if t <= 0 {
            0
        } else {
            crate::scalar::fadd(self.lc_value(terms, t - 1), fmul(terms[t - 1].1.val(), self.wire_value(terms[t - 1].0)))
        }
    }

    /// The value of a variable under the witness (zero for an unknown wire).
    fn value_of(&self, var: Variable) -> (r: Scalar)
        ensures
            r.wf(),
            r.val() == self.wire_value(var),
    {
        match var {
            Variable::MultiplierLeft(i) => if i < self.a_L.len() { self.a_L[i].mul(&Scalar::one()) } else { Scalar::zero() },
            Variable::MultiplierRight(i) => if i < self.a_R.len() { self.a_R[i].mul(&Scalar::one()) } else { Scalar::zero() },
            Variable::MultiplierOutput(i) => if i < self.a_O.len() { self.a_O[i].mul(&Scalar::one()) } else { Scalar::zero() },
            Variable::Committed(i) => if i < self.v.len() { self.v[i].mul(&Scalar::one()) } else { Scalar::zero() },
            Variable::One() => Scalar::one(),
        }
    }

    /// The value of a linear combination under the witness.
    fn eval(&self, lc: &LinearCombination) -> (r: Scalar)
        ensures
            r.wf(),
            r.val() == self.lc_value(lc.terms@, lc.terms@.len() as int),
    {
        let mut acc = Scalar::zero();
        let mut i: usize = 0;
        while i < lc.terms.len()
            invariant
                i <= lc.terms@.len(),
                acc.wf(),
                acc.val() == self.lc_value(lc.terms@, i as int),
            decreases lc.terms@.len() - i,
        {
            let (var, coeff) = lc.terms[i];
            let t = coeff.mul(&self.value_of(var));
            acc = acc.add(&t);
            i = i + 1;
        }
        acc
    }

    /// Flattens the constraints with powers of `z` into the weight vectors
    /// `(wL, wR, wO, wV)`: constraint `q` contributes `z^(q+1) * c` for each term `c * var`
    /// to the vector of its variable (subtracted for committed entries). Terms on
    /// unknown wires and on the constant are skipped.
    fn flattened_constraints(&self, z: &Scalar) -> (r: (Vec<Scalar>, Vec<Scalar>, Vec<Scalar>, Vec<Scalar>))
        requires
            z.wf(),
        ensures
            r.0@.len() == self.a_L@.len(),
            r.1@.len() == self.a_L@.len(),
            r.2@.len() == self.a_L@.len(),
            r.3@.len() == self.v@.len(),
            forall|i: int| 0 <= i < r.3@.len() ==> (#[trigger] r.3@[i]).wf(),
            forall|i: int| 0 <= i < self.a_L@.len() ==> (#[trigger] r.0@[i]).val() == flat_weight(self.constraints@, self.constraints@.len() as int, 0, i, z.val()),
            forall|i: int| 0 <= i < self.a_L@.len() ==> (#[trigger] r.1@[i]).val() == flat_weight(self.constraints@, self.constraints@.len() as int, 1, i, z.val()),
            forall|i: int| 0 <= i < self.a_L@.len() ==> (#[trigger] r.2@[i]).val() == flat_weight(self.constraints@, self.constraints@.len() as int, 2, i, z.val()),
            forall|i: int| 0 <= i < self.v@.len() ==> (#[trigger] r.3@[i]).val() == flat_weight(self.constraints@, self.constraints@.len() as int, 3, i, z.val()),
    {
        let n = self.a_L.len();
        let m = self.v.len();
        let ghost cs = self.constraints@;
        let ghost zv = z.val();
        let mut wL = zeros(n);
        let mut wR = zeros(n);
        let mut wO = zeros(n);
        let mut wV = zeros(m);
        let mut exp_z = z.mul(&Scalar::one());
        let mut q: usize = 0;
        proof {
            assert(fpow(zv, 0) == 1);
            assert(fpow(zv, 1) == fmul(fpow(zv, 0), zv));
            assert(1 * zv == zv * 1);
        }
        while q < self.constraints.len()
            invariant
                cs == self.constraints@,
                zv == z.val(),
                z.wf(),
                q <= cs.len(),
                exp_z.wf(),
                exp_z.val() == fpow(zv, (q + 1) as nat),
                wL@.len() == n,
                wR@.len() == n,
                wO@.len() == n,
                wV@.len() == m,
                forall|i: int| 0 <= i < m ==> (#[trigger] wV@[i]).wf(),
                forall|i: int| 0 <= i < n ==> (#[trigger] wL@[i]).val() == flat_weight(cs, q as int, 0, i, zv),
                forall|i: int| 0 <= i < n ==> (#[trigger] wR@[i]).val() == flat_weight(cs, q as int, 1, i, zv),
                forall|i: int| 0 <= i < n ==> (#[trigger] wO@[i]).val() == flat_weight(cs, q as int, 2, i, zv),
                forall|i: int| 0 <= i < m ==> (#[trigger] wV@[i]).val() == flat_weight(cs, q as int, 3, i, zv),
            decreases cs.len() - q,
        {
            let lc = &self.constraints[q];
            let ghost terms = lc.terms@;
            let ghost ez = exp_z.val();
            let ghost bL = wL@;
            let ghost bR = wR@;
            let ghost bO = wO@;
            let ghost bV = wV@;
            let mut t: usize = 0;
            while t < lc.terms.len()
                invariant
                    terms == lc.terms@,
                    ez == exp_z.val(),
                    exp_z.wf(),
                    t <= terms.len(),
                    wL@.len() == n,
                    wR@.len() == n,
                    wO@.len() == n,
                    wV@.len() == m,
                    bL.len() == n,
                    bR.len() == n,
                    bO.len() == n,
                    bV.len() == m,
                    forall|i: int| 0 <= i < m ==> (#[trigger] wV@[i]).wf(),
                    forall|i: int| 0 <= i < n ==> (#[trigger] wL@[i]).val() == weight_in_lc(bL[i].val(), terms, t as int, 0, i, ez),
                    forall|i: int| 0 <= i < n ==> (#[trigger] wR@[i]).val() == weight_in_lc(bR[i].val(), terms, t as int, 1, i, ez),
                    forall|i: int| 0 <= i < n ==> (#[trigger] wO@[i]).val() == weight_in_lc(bO[i].val(), terms, t as int, 2, i, ez),
                    forall|i: int| 0 <= i < m ==> (#[trigger] wV@[i]).val() == weight_in_lc(bV[i].val(), terms, t as int, 3, i, ez),
                decreases terms.len() - t,
            {
                let (var, coeff) = lc.terms[t];
                let w = exp_z.mul(&coeff);
                match var {
                    Variable::MultiplierLeft(i) => if i < n { let x = wL[i].add(&w); wL.set(i, x); },
                    Variable::MultiplierRight(i) => if i < n { let x = wR[i].add(&w); wR.set(i, x); },
                    Variable::MultiplierOutput(i) => if i < n { let x = wO[i].add(&w); wO.set(i, x); },
                    Variable::Committed(i) => if i < m { let x = wV[i].sub(&w); wV.set(i, x); },
                    Variable::One() => {},
                }
                t = t + 1;
            }
            exp_z = exp_z.mul(z);
            q = q + 1;
        }
        (wL, wR, wO, wV)
    }

    /// Overwrites the witness with zeros.
    fn clear_secrets(&mut self)
        ensures
            final(self).v_blinding.bytes@ == Seq::new(32, |i: int| 0u8),
            forall|i: int| 0 <= i < final(self).v@.len() ==> (#[trigger] final(self).v@[i]).bytes@ == Seq::new(32, |j: int| 0u8),
            forall|i: int| 0 <= i < final(self).a_L@.len() ==> (#[trigger] final(self).a_L@[i]).bytes@ == Seq::new(32, |j: int| 0u8),
            forall|i: int| 0 <= i < final(self).a_R@.len() ==> (#[trigger] final(self).a_R@[i]).bytes@ == Seq::new(32, |j: int| 0u8),
            forall|i: int| 0 <= i < final(self).a_O@.len() ==> (#[trigger] final(self).a_O@[i]).bytes@ == Seq::new(32, |j: int| 0u8),
    {
        wipe(&mut self.v_blinding);
        wipe_all(&mut self.v);
        wipe_all(&mut self.a_L);
        wipe_all(&mut self.a_R);
        wipe_all(&mut self.a_O);
    }
}

impl<'b> ConstraintSystem for ProverCS<'b> {
    closed spec fn cs_gates(&self) -> nat {
        self.a_L@.len()
    }

    closed spec fn cs_constraints(&self) -> Seq<LinearCombination> {
        self.constraints@
    }

    closed spec fn cs_ok(&self) -> bool {
        self.a_R@.len() == self.a_L@.len() && self.a_O@.len() == self.a_L@.len()
    }

    fn multiply(&mut self, left: LinearCombination, right: LinearCombination) -> (res: (Variable, Variable, Variable)) {
        let l = self.eval(&left);
        let r = self.eval(&right);
        let o = l.mul(&r);
        let l_var = Variable::MultiplierLeft(self.a_L.len());
        let r_var = Variable::MultiplierRight(self.a_R.len());
        let o_var = Variable::MultiplierOutput(self.a_O.len());
        self.a_L.push(l);
        self.a_R.push(r);
        self.a_O.push(o);
        let ghost old_left = left;
        let ghost old_right = right;
        let mut left = left;
        let mut right = right;
        let minus_one = Scalar::one().neg();
        left.push_term(l_var, minus_one);
        right.push_term(r_var, minus_one);
        self.constraints.push(left);
        self.constraints.push(right);
        proof {
            assert(left.terms@.subrange(0, left.terms@.len() - 1) =~= old_left.terms@);
            assert(right.terms@.subrange(0, right.terms@.len() - 1) =~= old_right.terms@);
            assert(self.constraints@.subrange(0, old(self).constraints@.len() as int) =~= old(self).constraints@);
        }
        (l_var, r_var, o_var)
    }

    fn allocate(&mut self, assignment: Result<(Scalar, Scalar, Scalar), R1CSError>) -> (res: Result<(Variable, Variable, Variable), R1CSError>) {
        let (l, r, o) = match assignment {
            Ok(t) => t,
            Err(e) => {
                return Err(e);
            },
        };
        let l_var = Variable::MultiplierLeft(self.a_L.len());
        let r_var = Variable::MultiplierRight(self.a_R.len());
        let o_var = Variable::MultiplierOutput(self.a_O.len());
        self.a_L.push(l);
        self.a_R.push(r);
        self.a_O.push(o);
        Ok((l_var, r_var, o_var))
    }

    fn constrain(&mut self, lc: LinearCombination) {
        self.constraints.push(lc);
    }

    fn challenge_scalar(&mut self, label: &'static str) -> (r: Scalar) {
        challenge_scalar(&mut self.transcript, label)
    }
}

/// `v * B + b * B_blinding`, as the constant-time multiplication computes it.
pub open spec fn pc_commit_of(pc: PedersenGens, v: Scalar, b: Scalar) -> RistrettoPoint {
    msm_ct_of(seq![v.val() % crate::scalar::group_order(), b.val() % crate::scalar::group_order()], seq![pc.B, pc.B_blinding])
}

/// The compressed constant-time commitment `bl * base + <x, G> + <y, H>` over the
/// first `n` entries (or `bl * base + <x, G>` without `with_h`).
fn commit_blocks(bl: &Scalar, x: &[Scalar], y: &[Scalar], base: &RistrettoPoint, g: &[RistrettoPoint], h: &[RistrettoPoint],
    n: usize, with_h: bool) -> (r: CompressedPoint)
    requires
        n <= x@.len(),
        n <= y@.len(),
        n <= g@.len(),
        n <= h@.len(),
    ensures
        with_h ==> r.bytes@ == compress_of(msm_ct_of(scalar_ints(seq![*bl] + x@.subrange(0, n as int) + y@.subrange(0, n as int)),
            seq![*base] + g@.subrange(0, n as int) + h@.subrange(0, n as int))),
        !with_h ==> r.bytes@ == compress_of(msm_ct_of(scalar_ints(seq![*bl] + x@.subrange(0, n as int)),
            seq![*base] + g@.subrange(0, n as int))),
{
    let mut sc: Vec<Scalar> = vec![*bl];
    let mut pt: Vec<RistrettoPoint> = vec![*base];
    append_block(&mut sc, x, 0, n);
    append_block(&mut pt, g, 0, n);
    if with_h {
        append_block(&mut sc, y, 0, n);
        append_block(&mut pt, h, 0, n);
    }
    proof {
        if with_h {
            assert(sc@ =~= seq![*bl] + x@.subrange(0, n as int) + y@.subrange(0, n as int));
            assert(pt@ =~= seq![*base] + g@.subrange(0, n as int) + h@.subrange(0, n as int));
        } else {
            assert(sc@ =~= seq![*bl] + x@.subrange(0, n as int));
            assert(pt@ =~= seq![*base] + g@.subrange(0, n as int));
        }
    }
    compress(&msm_ct(sc.as_slice(), pt.as_slice()))
}

/// Random scalars drawn from `rng`.
fn random_scalars(rng: &mut TranscriptRng, n: usize) -> (r: Vec<Scalar>)
    ensures
        r@.len() == n,
        forall|i: int| 0 <= i < n ==> (#[trigger] r@[i]).wf(),
{
    let mut r: Vec<Scalar> = Vec::new();
    let mut i: usize = 0;
    while i < n
        invariant
            i <= n,
            r@.len() == i,
            forall|j: int| 0 <= j < i ==> (#[trigger] r@[j]).wf(),
        decreases n - i,
    {
        r.push(random_scalar(rng));
        i = i + 1;
    }
    r
}

impl<'b> Prover<'b> {
    /// Starts a prover over the given generators and transcript.
    pub fn new(bp_gens: &'b BulletproofGens, pc_gens: &'b PedersenGens, transcript: Transcript) -> (r: Prover<'b>)
        ensures
            r.num_committed() == 0,
            r.gens() == *bp_gens,
            r.fresh(),
    {
        let mut transcript = transcript;
        r1cs_domain_sep(&mut transcript);
        Prover {
            m: 0,
            cs: ProverCS {
                transcript,
                bp_gens,
                pc_gens,
                constraints: Vec::new(),
                a_L: Vec::new(),
                a_R: Vec::new(),
                a_O: Vec::new(),
                v: Vec::new(),
                v_blinding: Scalar::zero(),
            },
        }
    }

    /// Number of committed entries so far.
    pub closed spec fn num_committed(&self) -> nat {
        self.m as nat
    }

    /// The vector generators in use.
    pub closed spec fn gens(&self) -> BulletproofGens {
        *self.cs.bp_gens
    }

    /// The Pedersen bases in use.
    pub closed spec fn pedersen(&self) -> PedersenGens {
        *self.cs.pc_gens
    }

    /// No gate yet, and one witness entry per committed entry.
    pub closed spec fn fresh(&self) -> bool {
        &&& self.cs.a_L@.len() == 0
        &&& self.cs.a_R@.len() == 0
        &&& self.cs.a_O@.len() == 0
        &&& self.cs.v@.len() == self.m
    }

    /// The committed witness entries so far, as integers modulo the group order.
    pub closed spec fn witness_values(&self) -> Seq<nat> {
        scalar_ints(self.cs.v@)
    }

    /// The blinding of the last committed vector.
    pub closed spec fn blinding(&self) -> Scalar {
        self.cs.v_blinding
    }

    /// Commits to the vector `v` (of which the first `real_len` entries are real
    /// and the rest padding) with blinding `v_blinding`: returns the commitment
    /// `<v, G> + v_blinding * B_blinding`, absorbed into the transcript, and one
    /// committed variable per entry, numbered after the earlier ones.
    pub fn commit_vec(&mut self, v: &[Scalar], v_blinding: Scalar, real_len: usize) -> (r: (CompressedPoint, Vec<Variable>))
        requires
            real_len <= v@.len(),
            old(self).gens().wf(),
            old(self).gens().party_capacity >= 1,
            v@.len() <= old(self).gens().gens_capacity,
            old(self).num_committed() + v@.len() <= usize::MAX,
            old(self).num_committed() + v@.len() <= u64::MAX,
        ensures
            final(self).num_committed() == old(self).num_committed() + v@.len(),
            final(self).gens() == old(self).gens(),
            final(self).pedersen() == old(self).pedersen(),
            final(self).fresh() == old(self).fresh(),
            final(self).witness_values() == old(self).witness_values() + scalar_ints(v@),
            final(self).blinding() == v_blinding,
            r.0.bytes@ == compress_of(msm_ct_of(scalar_ints(seq![v_blinding] + v@),
                seq![old(self).pedersen().B_blinding] + old(self).gens().G_vec@[0]@.subrange(0, v@.len() as int))),
            r.1@.len() == v@.len(),
            forall|i: int| 0 <= i < v@.len() ==> r.1@[i] == Variable::Committed((old(self).num_committed() + i) as usize),
    {
        let start = self.m as usize;
        let n = v.len();
        self.m = self.m + n as u64;
        let mut sc: Vec<Scalar> = vec![v_blinding];
        let mut pt: Vec<RistrettoPoint> = vec![self.cs.pc_gens.B_blinding];
        append_block(&mut sc, v, 0, n);
        append_block(&mut pt, self.cs.bp_gens.G_vec[0].as_slice(), 0, n);
        proof {
            assert(sc@ =~= seq![v_blinding] + v@);
            assert(pt@ =~= seq![self.cs.pc_gens.B_blinding] + self.cs.bp_gens.G_vec@[0]@.subrange(0, n as int));
        }
        let V = compress(&msm_ct(sc.as_slice(), pt.as_slice()));
        let ghost old_v = self.cs.v@;
        let mut i: usize = 0;
        while i < n
            invariant
                i <= n,
                n == v@.len(),
                self.cs.bp_gens == old(self).cs.bp_gens,
                self.cs.pc_gens == old(self).cs.pc_gens,
                self.m == old(self).m + n,
                old_v == old(self).cs.v@,
                self.cs.v@.len() == old_v.len() + i,
                self.cs.a_L@ == old(self).cs.a_L@,
                self.cs.a_R@ == old(self).cs.a_R@,
                self.cs.a_O@ == old(self).cs.a_O@,
                scalar_ints(self.cs.v@) == scalar_ints(old_v) + scalar_ints(v@.subrange(0, i as int)),
            decreases n - i,
        {
            let x = v[i].mul(&Scalar::one());
            proof {
                vstd::arithmetic::div_mod::lemma_mod_twice(v@[i as int].val() as int, group_order() as int);
                assert(x.val() % group_order() == v@[i as int].val() % group_order());
            }
            let ghost prev = self.cs.v@;
            self.cs.v.push(x);
            proof {
                let lhs = scalar_ints(self.cs.v@);
                let rhs = scalar_ints(old_v) + scalar_ints(v@.subrange(0, i + 1));
                assert(lhs.len() == rhs.len());
                assert forall|j: int| 0 <= j < lhs.len() implies lhs[j] == rhs[j] by {
                    if j < prev.len() {
                        assert(self.cs.v@[j] == prev[j]);
                        assert(scalar_ints(prev)[j] == (scalar_ints(old_v) + scalar_ints(v@.subrange(0, i as int)))[j]);
                    }
                }
                assert(lhs =~= rhs);
            }
            i = i + 1;
        }
        proof {
            assert(v@.subrange(0, n as int) =~= v@);
        }
        self.cs.v_blinding = v_blinding;
        commit_point(&mut self.cs.transcript, "V", &V);
        let mut vars: Vec<Variable> = Vec::new();
        let mut j: usize = 0;
        while j < n
            invariant
                j <= n,
                n == v@.len(),
                start + n <= usize::MAX,
                vars@.len() == j,
                forall|q: int| 0 <= q < j ==> vars@[q] == Variable::Committed((start + q) as usize),
            decreases n - j,
        {
            vars.push(Variable::Committed(start + j));
            j = j + 1;
        }
        (V, vars)
    }

    /// Binds the number of committed entries into the transcript and moves on to
    /// building the constraint system.
    pub fn finalize_inputs(self) -> (r: ProverCS<'b>)
        ensures
            r.gens() == self.gens(),
            self.fresh() ==> r.num_committed() == self.num_committed() && r.num_gates() == 0 && r.gates_aligned()
                && r.cs_gates() == 0 && r.cs_ok(),
    {
        let mut cs = self.cs;
        commit_u64(&mut cs.transcript, "m", self.m);
        cs
    }
}

impl<'b> ProverCS<'b> {
    /// Produces the proof: commits to the multiplier wires, builds the degree-6 constraint
    /// polynomial and the consistency relation with the re-randomized ciphertexts
    /// `C1_prime`, `C2_prime` (re-randomization scalar `r_prime`), aggregates them, and
    /// runs the k-ary folding argument and the batched consistency argument with
    /// arity `k_fold` over `num_rounds` rounds. The witness is wiped before returning.
    ///
    /// Fails with `InvalidGeneratorsLength` when the generators hold fewer than the
    /// committed entries, when there are more gates than committed entries, when the
    /// ciphertext vectors are longer than the committed entries or of different
    /// lengths, or when `k_fold < 2`.
    #[verifier::rlimit(100)]
    pub fn prove(
        self,
        C1_prime: &[RistrettoPoint],
        C2_prime: &[RistrettoPoint],
        r_prime: Scalar,
        k_fold: usize,
        num_rounds: usize,
    ) -> (r: Result<R1CSProof, R1CSError>)
        requires
            self.gens().wf(),
        ensures
            r matches Err(e) ==> e == R1CSError::InvalidGeneratorsLength,
            r.is_err() <==> (self.gens().party_capacity == 0 || self.gens().gens_capacity < self.num_committed()
                || self.num_gates() > self.num_committed() || C1_prime@.len() > self.num_committed()
                || C2_prime@.len() != C1_prime@.len() || k_fold < 2 || self.num_committed() + k_fold > usize::MAX
                || num_rounds == usize::MAX || !self.gates_aligned()),
            r matches Ok(p) ==> p.ipp_proof.wf() && p.ecp_batched.wf() && p.ipp_proof.k == k_fold && p.ecp_batched.k == k_fold
                && p.ipp_proof.U_vecs@.len() == num_rounds && p.ecp_batched.A_vecs@.len() == num_rounds
                && p.ipp_proof.a_final@.len() == fold_len(self.num_committed(), k_fold as nat, num_rounds as nat)
                && p.ecp_batched.z@.len() == fold_len(self.num_committed(), k_fold as nat, num_rounds as nat),
            r matches Ok(p) ==> exists|ib: Scalar, ob: Scalar| #![trigger ib.val(), ob.val()]
                p.A_I.bytes@ == compress_of(msm_ct_of(scalar_ints(seq![ib] + self.gate_left() + self.gate_right()),
                    seq![self.pedersen().B_blinding] + self.gens().G_vec@[0]@.subrange(0, self.num_gates() as int)
                    + self.gens().H_vec@[0]@.subrange(0, self.num_gates() as int)))
                && p.A_O.bytes@ == compress_of(msm_ct_of(scalar_ints(seq![ob] + self.gate_out()),
                    seq![self.pedersen().B_blinding] + self.gens().G_vec@[0]@.subrange(0, self.num_gates() as int))),
    {
        let mut this = self;
        let ghost aL0 = this.a_L@;
        let ghost aR0 = this.a_R@;
        let ghost aO0 = this.a_O@;
        let n = this.a_L.len();
        let k = this.v.len();
        if this.bp_gens.party_capacity == 0 || this.bp_gens.gens_capacity < k || n > k || C1_prime.len() > k
            || C2_prime.len() != C1_prime.len() || k_fold < 2 || k > usize::MAX - k_fold || num_rounds == usize::MAX
            || this.a_R.len() != n || this.a_O.len() != n {
            this.clear_secrets();
            return Err(R1CSError::InvalidGeneratorsLength);
        }
        let gens_G = &this.bp_gens.G_vec[0];
        let gens_H = &this.bp_gens.H_vec[0];
        let B = this.pc_gens.B;
        let B_blinding = this.pc_gens.B_blinding;
        let mut rng = witness_rng(&this.transcript, "v_blinding", &this.v_blinding.bytes);

        let i_blinding = random_scalar(&mut rng);
        let o_blinding = random_scalar(&mut rng);
        let s_blinding = random_scalar(&mut rng);
        let mut s_L = random_scalars(&mut rng, n);
        let mut s_R = random_scalars(&mut rng, n);

        let A_I = commit_blocks(&i_blinding, this.a_L.as_slice(), this.a_R.as_slice(), &B_blinding, gens_G.as_slice(),
            gens_H.as_slice(), n, true);
        let A_O = commit_blocks(&o_blinding, this.a_O.as_slice(), this.a_O.as_slice(), &B_blinding, gens_G.as_slice(),
            gens_H.as_slice(), n, false);
        proof {
            assert(this.a_L@.subrange(0, n as int) =~= aL0);
            assert(this.a_R@.subrange(0, n as int) =~= aR0);
            assert(this.a_O@.subrange(0, n as int) =~= aO0);
        }
        let mut sc: Vec<Scalar> = vec![s_blinding];
        let mut pt: Vec<RistrettoPoint> = vec![B_blinding];
        append_block(&mut sc, s_L.as_slice(), 0, n);
        append_block(&mut pt, gens_G.as_slice(), 0, n);
        append_block(&mut sc, s_R.as_slice(), 0, n);
        append_block(&mut pt, gens_H.as_slice(), 0, n);
        let S = compress(&msm_ct(sc.as_slice(), pt.as_slice()));

        commit_point(&mut this.transcript, "A_I", &A_I);
        commit_point(&mut this.transcript, "A_O", &A_O);
        commit_point(&mut this.transcript, "S", &S);

        let y = challenge_scalar(&mut this.transcript, "y");
        let z = challenge_scalar(&mut this.transcript, "z");
        let (wL, wR, wO, wV) = this.flattened_constraints(&z);

        let y_inv = y.invert();
        let exp_y_inv = exp_iter(&y_inv, k);
        let mut l_poly = VecPoly3::zero(n);
        let mut r_poly = VecPoly3::zero(n);
        let mut exp_y = Scalar::one();
        let mut i: usize = 0;
        while i < n
            invariant
                n <= k,
                i <= n,
                l_poly.wf(n as nat),
                r_poly.wf(n as nat),
                this.a_L@.len() == n,
                this.a_R@.len() == n,
                this.a_O@.len() == n,
                wL@.len() == n,
                wR@.len() == n,
                wO@.len() == n,
                s_L@.len() == n,
                s_R@.len() == n,
                exp_y_inv@.len() == k,
            decreases n - i,
        {
            l_poly.1.set(i, this.a_L[i].add(&exp_y_inv[i].mul(&wR[i])));
            l_poly.2.set(i, this.a_O[i]);
            l_poly.3.set(i, s_L[i]);
            r_poly.0.set(i, wO[i].sub(&exp_y));
            r_poly.1.set(i, exp_y.mul(&this.a_R[i]).add(&wL[i]));
            r_poly.3.set(i, exp_y.mul(&s_R[i]));
            exp_y = exp_y.mul(&y);
            i = i + 1;
        }
        let t_poly = VecPoly3::special_inner_product(&l_poly, &r_poly);

        let tb = random_scalars(&mut rng, 5);
        let T_1 = compress(&this.pc_gens.commit(&t_poly.t1, &tb[0]));
        let T_3 = compress(&this.pc_gens.commit(&t_poly.t3, &tb[1]));
        let T_4 = compress(&this.pc_gens.commit(&t_poly.t4, &tb[2]));
        let T_5 = compress(&this.pc_gens.commit(&t_poly.t5, &tb[3]));
        let T_6 = compress(&this.pc_gens.commit(&t_poly.t6, &tb[4]));
        let t_2_blinding = random_scalar(&mut rng);
        let t_2 = inner_product(wV.as_slice(), this.v.as_slice());
        let T_2 = compress(&this.pc_gens.commit(&t_2, &t_2_blinding));

        commit_point(&mut this.transcript, "T_1", &T_1);
        commit_point(&mut this.transcript, "T_3", &T_3);
        commit_point(&mut this.transcript, "T_4", &T_4);
        commit_point(&mut this.transcript, "T_5", &T_5);
        commit_point(&mut this.transcript, "T_6", &T_6);
        commit_point(&mut this.transcript, "T_2", &T_2);

        let x = challenge_scalar(&mut this.transcript, "x");
        let t_x = t_poly.eval(&x);
        let t_x_blinding = Poly6 { t1: tb[0], t2: t_2_blinding, t3: tb[1], t4: tb[2], t5: tb[3], t6: tb[4] }.eval(&x);

        let mut l_vec = l_poly.eval(&x);
        let mut r_vec = r_poly.eval(&x);
        let mut i: usize = n;
        while i < k
            invariant
                n <= i <= k,
                l_vec@.len() == i,
                r_vec@.len() == i,
                forall|j: int| 0 <= j < i ==> (#[trigger] l_vec@[j]).wf(),
                forall|j: int| 0 <= j < i ==> (#[trigger] r_vec@[j]).wf(),
            decreases k - i,
        {
            l_vec.push(Scalar::zero());
            r_vec.push(exp_y.neg());
            exp_y = exp_y.mul(&y);
            i = i + 1;
        }
        let e_blinding = x.mul(&i_blinding.add(&x.mul(&o_blinding.add(&x.mul(&s_blinding)))));

        commit_scalar(&mut this.transcript, "t_x", &t_x);
        commit_scalar(&mut this.transcript, "t_x_blinding", &t_x_blinding);
        commit_scalar(&mut this.transcript, "e_blinding", &e_blinding);

        let s_bl_prime = random_scalar(&mut rng);
        let rnd = random_scalar(&mut rng);
        let real_len = C1_prime.len();
        let mut s_L_prime = random_scalars(&mut rng, real_len);

        let mut sc: Vec<Scalar> = vec![s_bl_prime];
        let mut pt: Vec<RistrettoPoint> = vec![B_blinding];
        append_block(&mut sc, s_L_prime.as_slice(), 0, real_len);
        append_block(&mut pt, gens_G.as_slice(), 0, real_len);
        let S_prime = compress(&msm_ct(sc.as_slice(), pt.as_slice()));

        let mut sc: Vec<Scalar> = vec![rnd];
        let mut pt: Vec<RistrettoPoint> = vec![B];
        append_block(&mut sc, s_L_prime.as_slice(), 0, real_len);
        append_block(&mut pt, C1_prime, 0, real_len);
        let S1_prime = compress(&msm_ct(sc.as_slice(), pt.as_slice()));

        let mut sc: Vec<Scalar> = vec![rnd];
        let mut pt: Vec<RistrettoPoint> = vec![B_blinding];
        append_block(&mut sc, s_L_prime.as_slice(), 0, real_len);
        append_block(&mut pt, C2_prime, 0, real_len);
        let S2_prime = compress(&msm_ct(sc.as_slice(), pt.as_slice()));

        let mut i: usize = real_len;
        while i < k
            invariant
                real_len <= i <= k,
                s_L_prime@.len() == i,
                forall|j: int| 0 <= j < i ==> (#[trigger] s_L_prime@[j]).wf(),
            decreases k - i,
        {
            s_L_prime.push(Scalar::zero());
            i = i + 1;
        }
        let mut lc0: Vec<Scalar> = Vec::new();
        append_block(&mut lc0, this.v.as_slice(), 0, k);
        let lc_poly = VecPoly1(lc0, s_L_prime);
        let rc_poly = VecPoly1(wV, zeros(k));

        let tc_poly = lc_poly.inner_product(&rc_poly);
        let t1_bl_prime = random_scalar(&mut rng);
        let T_1_prime = compress(&this.pc_gens.commit(&tc_poly.1, &t1_bl_prime));
        let tc_bl_poly = Poly2(t_2_blinding, t1_bl_prime, Scalar::zero());

        commit_point(&mut this.transcript, "S_prime", &S_prime);
        commit_point(&mut this.transcript, "T_1_prime", &T_1_prime);
        commit_point(&mut this.transcript, "S1_prime", &S1_prime);
        commit_point(&mut this.transcript, "S2_prime", &S2_prime);

        let x_prime = challenge_scalar(&mut this.transcript, "x_prime");
        let tc_x = tc_poly.eval(&x_prime);
        let tc_x_blinding = tc_bl_poly.eval(&x_prime);
        let ec_blinding = this.v_blinding.add(&s_bl_prime.mul(&x_prime));
        let r_blinding = r_prime.add(&rnd.mul(&x_prime));

        commit_scalar(&mut this.transcript, "tc_x", &tc_x);
        commit_scalar(&mut this.transcript, "tc_x_blinding", &tc_x_blinding);
        commit_scalar(&mut this.transcript, "ec_blinding", &ec_blinding);
        commit_scalar(&mut this.transcript, "r_blinding", &r_blinding);

        let lc_vec = lc_poly.eval(&x_prime);
        let rc_vec = rc_poly.eval(&x_prime);

        let t_cross = inner_product(l_vec.as_slice(), rc_vec.as_slice()).add(&inner_product(lc_vec.as_slice(), r_vec.as_slice()));
        commit_scalar(&mut this.transcript, "t_cross", &t_cross);
        let x_ipp = challenge_scalar(&mut this.transcript, "x_ipp");

        let l_agg = add_scaled(&l_vec, &x_ipp, &lc_vec);
        let r_agg = add_scaled(&r_vec, &x_ipp, &rc_vec);

        let w_agg = challenge_scalar(&mut this.transcript, "w_agg");
        let Q_agg = scalar_mul(&w_agg, &B);

        let mut H_prime: Vec<RistrettoPoint> = Vec::new();
        let mut i: usize = 0;
        while i < k
            invariant
                i <= k,
                k <= gens_H@.len(),
                exp_y_inv@.len() == k,
                H_prime@.len() == i,
            decreases k - i,
        {
            H_prime.push(scalar_mul(&exp_y_inv[i], &gens_H[i]));
            i = i + 1;
        }
        let mut G_k: Vec<RistrettoPoint> = Vec::new();
        append_block(&mut G_k, gens_G.as_slice(), 0, k);

        let ipp_proof = K_BulletProof::create(&mut this.transcript, k_fold, G_k.as_slice(), H_prime.as_slice(), Q_agg,
            l_agg.as_slice(), r_agg.as_slice(), num_rounds);

        let chall_batched_ecp = challenge_scalar(&mut this.transcript, "chall_batched_ecp");
        let mut C_agg: Vec<RistrettoPoint> = Vec::new();
        let mut i: usize = 0;
        while i < real_len
            invariant
                i <= real_len,
                C1_prime@.len() == real_len,
                C2_prime@.len() == real_len,
                C_agg@.len() == i,
            decreases real_len - i,
        {
            C_agg.push(add_points(&C1_prime[i], &scalar_mul(&chall_batched_ecp, &C2_prime[i])));
            i = i + 1;
        }
        let ecp_batched = batched_eCP::create(&mut this.transcript, k_fold, G_k.as_slice(), C_agg.as_slice(),
            lc_vec.as_slice(), num_rounds);

        wipe_all(&mut s_L);
        wipe_all(&mut s_R);
        this.clear_secrets();
        Ok(R1CSProof {
            A_I, A_O, S, T_1, T_2, T_3, T_4, T_5, T_6, t_x, t_x_blinding, e_blinding, ipp_proof,
            S_prime, T_1_prime, S1_prime, S2_prime, tc_x, tc_x_blinding, ec_blinding, t_cross, r_blinding,
            ecp_batched,
        })
    }
}

} // verus!
