//! The verifier of the aggregated constraint-system protocol.
use vstd::prelude::*;
use crate::errors::R1CSError;
use crate::fold::append_block;
use crate::generators::{BulletproofGens, PedersenGens};
use crate::point::{decompress, decompresses, is_identity_of, msm_of, CompressedPoint};
use crate::r1cs::mega_check::{mega_check, mega_points, mega_scalars, MegaChallenges};
use crate::batched_ecp::batched_scalars_are;
use crate::k_bullet::k_scalars_are;
use crate::fold::vals_of;
use crate::r1cs::constraint_system::{flat_weight, weight_in_lc, ConstraintSystem, LinearCombination, Variable};
use crate::r1cs::r1cs_prover::random_scalar;
use crate::r1cs::r1cs_proof::R1CSProof;
use crate::rounds::{fold_len, reconstruct_round_lengths};
use crate::scalar::{fmul, fpow, inner_product, Scalar};
use crate::transcript::{challenge_scalar, commit_point, commit_scalar, commit_u64, r1cs_domain_sep};
use crate::util::{exp_iter, zeros};
use curve25519_dalek::ristretto::RistrettoPoint;
use merlin::{Transcript, TranscriptRng};

verus! {

/// Relies on merlin's `TranscriptRngBuilder`: an RNG bound to the transcript state
/// and to fresh randomness from `rand::thread_rng`.
#[verifier::external_body]
fn transcript_rng(t: &Transcript) -> (r: TranscriptRng)
{
    t.build_rng().finalize(&mut rand::thread_rng())
}

/// The committing stage of the verifier: commitments are absorbed one by one.
pub struct Verifier<'b> {
    m: u64,
    cs: VerifierCS<'b>,
}

/// The constraint system of the verifier: constraints without assignments.
pub struct VerifierCS<'b> {
    bp_gens: &'b BulletproofGens,
    pc_gens: &'b PedersenGens,
    transcript: Transcript,
    constraints: Vec<LinearCombination>,
    num_vars: usize,
    V: Vec<CompressedPoint>,
    num_inputs: usize,
}

impl<'b> Verifier<'b> {
    /// Starts a verifier over the given generators and transcript.
    pub fn new(bp_gens: &'b BulletproofGens, pc_gens: &'b PedersenGens, transcript: Transcript) -> (r: Verifier<'b>)
        ensures
            r.num_committed() == 0,
            r.num_gates() == 0,
            r.committed_length() == 0,
            r.commitments() == Seq::<CompressedPoint>::empty(),
            r.gens() == *bp_gens,
    {
        let mut transcript = transcript;
        r1cs_domain_sep(&mut transcript);
        Verifier {
            m: 0,
            cs: VerifierCS {
                bp_gens,
                pc_gens,
                transcript,
                constraints: Vec::new(),
                num_vars: 0,
                V: Vec::new(),
                num_inputs: 0,
            },
        }
    }

    /// Number of committed entries so far.
    pub closed spec fn num_committed(&self) -> nat {
        self.m as nat
    }

    /// The commitments absorbed so far.
    pub closed spec fn commitments(&self) -> Seq<CompressedPoint> {
        self.cs.V@
    }

    /// Number of gates of the constraint system to come (zero until finalized).
    pub closed spec fn num_gates(&self) -> nat {
        self.cs.num_vars as nat
    }

    /// The committed length the verification will use: the count after the last
    /// vector commitment.
    pub closed spec fn committed_length(&self) -> nat {
        self.cs.num_inputs as nat
    }

    /// The vector generators in use.
    pub closed spec fn gens(&self) -> BulletproofGens {
        *self.cs.bp_gens
    }

    /// Absorbs the commitment to a single value; returns its variable.
    pub fn commit(&mut self, commitment: CompressedPoint) -> (r: Variable)
        requires
            old(self).num_committed() < usize::MAX,
        ensures
            r == Variable::Committed(old(self).num_committed() as usize),
            final(self).num_committed() == old(self).num_committed() + 1,
            final(self).num_gates() == old(self).num_gates(),
            final(self).committed_length() == old(self).committed_length(),
            final(self).commitments() == old(self).commitments().push(commitment),
            final(self).gens() == old(self).gens(),
    {
        let i = self.m as usize;
        self.m = self.m + 1;
        self.cs.V.push(commitment);
        commit_point(&mut self.cs.transcript, "V", &commitment);
        Variable::Committed(i)
    }

    /// Absorbs the commitment to a vector of `n` entries; returns one committed
    /// variable per entry, numbered after the earlier ones.
    pub fn commit_vec(&mut self, commitment: CompressedPoint, n: usize) -> (r: Vec<Variable>)
        requires
            old(self).num_committed() + n <= usize::MAX,
        ensures
            final(self).num_committed() == old(self).num_committed() + n,
            final(self).num_gates() == old(self).num_gates(),
            final(self).committed_length() == final(self).num_committed(),
            final(self).commitments() == old(self).commitments().push(commitment),
            final(self).gens() == old(self).gens(),
            r@.len() == n,
            forall|i: int| 0 <= i < n ==> r@[i] == Variable::Committed((old(self).num_committed() + i) as usize),
    {
        let start = self.m as usize;
        self.m = self.m + n as u64;
        self.cs.num_inputs = self.m as usize;
        self.cs.V.push(commitment);
        commit_point(&mut self.cs.transcript, "V", &commitment);
        let mut vars: Vec<Variable> = Vec::new();
        let mut j: usize = 0;
        while j < n
            invariant
                j <= n,
                start + n <= usize::MAX,
                vars@.len() == j,
                forall|q: int| 0 <= q < j ==> vars@[q] == Variable::Committed((start + q) as usize),
            decreases n - j,
        {
            vars.push(Variable::Committed(start + j));
            j = j + 1;
        }
        vars
    }

    /// Binds the number of committed entries into the transcript and moves on to
    /// building the constraint system.
    pub fn finalize_inputs(self) -> (r: VerifierCS<'b>)
        ensures
            r.num_gates() == self.num_gates(),
            r.cs_gates() == self.num_gates(),
            r.num_committed() == self.committed_length(),
            r.num_commitments() == self.commitments().len(),
            r.gens() == self.gens(),
    {
        let mut cs = self.cs;
        commit_u64(&mut cs.transcript, "m", self.m);
        cs
    }
}

impl<'b> ConstraintSystem for VerifierCS<'b> {
    closed spec fn cs_gates(&self) -> nat {
        self.num_vars as nat
    }

    closed spec fn cs_constraints(&self) -> Seq<LinearCombination> {
        self.constraints@
    }

    closed spec fn cs_ok(&self) -> bool {
        true
    }

    fn multiply(&mut self, left: LinearCombination, right: LinearCombination) -> (res: (Variable, Variable, Variable)) {
        let var = self.num_vars;
        if self.num_vars < usize::MAX {
            self.num_vars = self.num_vars + 1;
        }
        let l_var = Variable::MultiplierLeft(var);
        let r_var = Variable::MultiplierRight(var);
        let o_var = Variable::MultiplierOutput(var);
        let ghost old_left = left;
        let ghost old_right = right;
        let mut left = left;
        let mut right = right;
        let minus_one = Scalar::one().neg();
        left.push_term(l_var, minus_one);
        right.push_term(r_var, minus_one);
        self.constraints.push(left);
        self.constraints.push(right);
        proof {
            assert(left.terms@.subrange(0, left.terms@.len() - 1) =~= old_left.terms@);
            assert(right.terms@.subrange(0, right.terms@.len() - 1) =~= old_right.terms@);
            assert(self.constraints@.subrange(0, old(self).constraints@.len() as int) =~= old(self).constraints@);
        }
        (l_var, r_var, o_var)
    }

    fn allocate(&mut self, assignment: Result<(Scalar, Scalar, Scalar), R1CSError>) -> (res: Result<(Variable, Variable, Variable), R1CSError>) {
        let var = self.num_vars;
        if self.num_vars < usize::MAX {
            self.num_vars = self.num_vars + 1;
        }
        Ok((Variable::MultiplierLeft(var), Variable::MultiplierRight(var), Variable::MultiplierOutput(var)))
    }

    fn constrain(&mut self, lc: LinearCombination) {
        self.constraints.push(lc);
    }

    fn challenge_scalar(&mut self, label: &'static str) -> (r: Scalar) {
        challenge_scalar(&mut self.transcript, label)
    }
}

impl<'b> VerifierCS<'b> {
    /// Number of multiplication gates.
    pub closed spec fn num_gates(&self) -> nat {
        self.num_vars as nat
    }

    /// Number of committed entries (the padded length of the folding arguments).
    pub closed spec fn num_committed(&self) -> nat {
        self.num_inputs as nat
    }

    /// The vector generators in use.
    pub closed spec fn gens(&self) -> BulletproofGens {
        *self.bp_gens
    }

    /// Number of commitments absorbed.
    pub closed spec fn num_commitments(&self) -> nat {
        self.V@.len()
    }

    /// The encoding of the first commitment absorbed.
    pub closed spec fn first_commitment(&self) -> Seq<u8> {
        self.V@[0].bytes@
    }

    /// The constraints accumulated so far.
    pub closed spec fn constraint_list(&self) -> Seq<LinearCombination> {
        self.constraints@
    }

    /// The Pedersen bases in use.
    pub closed spec fn pedersen(&self) -> PedersenGens {
        *self.pc_gens
    }

    /// Flattens the constraints with powers of `z`, as the prover does, and also
    /// accumulates the constant terms: `(wL, wR, wO, wV, wc)`.
    fn flattened_constraints(&self, z: &Scalar) -> (r: (Vec<Scalar>, Vec<Scalar>, Vec<Scalar>, Vec<Scalar>, Scalar))
        requires
            z.wf(),
        ensures
            r.0@.len() == self.num_vars,
            r.1@.len() == self.num_vars,
            r.2@.len() == self.num_vars,
            r.3@.len() == self.num_inputs,
            forall|i: int| 0 <= i < self.num_vars ==> (#[trigger] r.0@[i]).val() == flat_weight(self.constraints@, self.constraints@.len() as int, 0, i, z.val()),
            forall|i: int| 0 <= i < self.num_vars ==> (#[trigger] r.1@[i]).val() == flat_weight(self.constraints@, self.constraints@.len() as int, 1, i, z.val()),
            forall|i: int| 0 <= i < self.num_vars ==> (#[trigger] r.2@[i]).val() == flat_weight(self.constraints@, self.constraints@.len() as int, 2, i, z.val()),
            forall|i: int| 0 <= i < self.num_inputs ==> (#[trigger] r.3@[i]).val() == flat_weight(self.constraints@, self.constraints@.len() as int, 3, i, z.val()),
            r.4.val() == flat_weight(self.constraints@, self.constraints@.len() as int, 4, 0, z.val()),
    {
        let n = self.num_vars;
        let m = self.num_inputs;
        let ghost cs = self.constraints@;
        let ghost zv = z.val();
        let mut wL = zeros(n);
        let mut wR = zeros(n);
        let mut wO = zeros(n);
        let mut wV = zeros(m);
        let mut wc = Scalar::zero();
        let mut exp_z = z.mul(&Scalar::one());
        let mut q: usize = 0;
        proof {
            assert(fpow(zv, 0) == 1);
            assert(fpow(zv, 1) == fmul(fpow(zv, 0), zv));
            assert(1 * zv == zv * 1);
        }
        while q < self.constraints.len()
            invariant
                cs == self.constraints@,
                zv == z.val(),
                z.wf(),
                q <= cs.len(),
                exp_z.wf(),
                exp_z.val() == fpow(zv, (q + 1) as nat),
                wL@.len() == n,
                wR@.len() == n,
                wO@.len() == n,
                wV@.len() == m,
                forall|i: int| 0 <= i < n ==> (#[trigger] wL@[i]).val() == flat_weight(cs, q as int, 0, i, zv),
                forall|i: int| 0 <= i < n ==> (#[trigger] wR@[i]).val() == flat_weight(cs, q as int, 1, i, zv),
                forall|i: int| 0 <= i < n ==> (#[trigger] wO@[i]).val() == flat_weight(cs, q as int, 2, i, zv),
                forall|i: int| 0 <= i < m ==> (#[trigger] wV@[i]).val() == flat_weight(cs, q as int, 3, i, zv),
                wc.val() == flat_weight(cs, q as int, 4, 0, zv),
            decreases cs.len() - q,
        {
            let lc = &self.constraints[q];
            let ghost terms = lc.terms@;
            let ghost ez = exp_z.val();
            let ghost bL = wL@;
            let ghost bR = wR@;
            let ghost bO = wO@;
            let ghost bV = wV@;
            let ghost bc = wc.val();
            let mut t: usize = 0;
            while t < lc.terms.len()
                invariant
                    terms == lc.terms@,
                    ez == exp_z.val(),
                    exp_z.wf(),
                    t <= terms.len(),
                    wL@.len() == n,
                    wR@.len() == n,
                    wO@.len() == n,
                    wV@.len() == m,
                    bL.len() == n,
                    bR.len() == n,
                    bO.len() == n,
                    bV.len() == m,
                    forall|i: int| 0 <= i < n ==> (#[trigger] wL@[i]).val() == weight_in_lc(bL[i].val(), terms, t as int, 0, i, ez),
                    forall|i: int| 0 <= i < n ==> (#[trigger] wR@[i]).val() == weight_in_lc(bR[i].val(), terms, t as int, 1, i, ez),
                    forall|i: int| 0 <= i < n ==> (#[trigger] wO@[i]).val() == weight_in_lc(bO[i].val(), terms, t as int, 2, i, ez),
                    forall|i: int| 0 <= i < m ==> (#[trigger] wV@[i]).val() == weight_in_lc(bV[i].val(), terms, t as int, 3, i, ez),
                    wc.val() == weight_in_lc(bc, terms, t as int, 4, 0, ez),
                decreases terms.len() - t,
            {
                let (var, coeff) = lc.terms[t];
                let w = exp_z.mul(&coeff);
                match var {
                    Variable::MultiplierLeft(i) => if i < n { let x = wL[i].add(&w); wL.set(i, x); },
                    Variable::MultiplierRight(i) => if i < n { let x = wR[i].add(&w); wR.set(i, x); },
                    Variable::MultiplierOutput(i) => if i < n { let x = wO[i].add(&w); wO.set(i, x); },
                    Variable::Committed(i) => if i < m { let x = wV[i].sub(&w); wV.set(i, x); },
                    Variable::One() => {
                        wc = wc.sub(&w);
                    },
                }
                t = t + 1;
            }
            exp_z = exp_z.mul(z);
            q = q + 1;
        }
        (wL, wR, wO, wV, wc)
    }

    /// Checks `proof` against the constraints and the ciphertext data: replays the
    /// prover's transcript, reconstructs the verification scalars of both folding
    /// arguments and checks one multiscalar multiplication, batched with a fresh
    /// random scalar, against the identity.
    ///
    /// More gates than committed entries, a proof whose final vectors do not match
    /// the committed length, fewer than two entries in `C`, no commitment, ciphertext
    /// vectors of different lengths or longer than the committed entries, an
    /// undecompressable point or a non-identity result are a `VerificationError`;
    /// generators with fewer than the committed entries are an
    /// `InvalidGeneratorsLength`.
    #[verifier::loop_isolation(false)]
    pub fn verify(
        self,
        proof: &R1CSProof,
        C1_prime: &[RistrettoPoint],
        C2_prime: &[RistrettoPoint],
        C: &[RistrettoPoint],
    ) -> (r: Result<(), R1CSError>)
        requires
            self.gens().wf(),
        ensures
            r matches Err(e) ==> (e == R1CSError::VerificationError || e == R1CSError::InvalidGeneratorsLength),
            r matches Err(R1CSError::InvalidGeneratorsLength) ==> (self.num_gates() <= self.num_committed() && (
                self.gens().party_capacity == 0 || self.gens().gens_capacity < self.num_committed())),
            (self.num_gates() <= self.num_committed() && (self.gens().party_capacity == 0 || self.gens().gens_capacity
                < self.num_committed())) ==> r matches Err(R1CSError::InvalidGeneratorsLength),
            self.num_gates() > self.num_committed() ==> r matches Err(R1CSError::VerificationError),
            self.num_gates() <= self.num_committed() && self.gens().party_capacity > 0 && self.gens().gens_capacity >= self.num_committed()
                && early_rejects(*proof, self.num_committed(), C1_prime@.len(), C2_prime@.len(), C@.len(), self.num_commitments(),
                    self.first_commitment())
                ==> r matches Err(R1CSError::VerificationError),
            self.num_gates() <= self.num_committed() && self.gens().party_capacity > 0 && self.gens().gens_capacity >= self.num_committed()
                && !early_rejects(*proof, self.num_committed(), C1_prime@.len(), C2_prime@.len(), C@.len(), self.num_commitments(),
                    self.first_commitment())
                ==> exists|c: MegaChallenges, ch1: Seq<Scalar>, o1: (Vec<Scalar>, Vec<Scalar>, Scalar, Scalar, Vec<Scalar>), ch2: Seq<Scalar>,
                    o2: (Vec<Scalar>, Scalar, Vec<Scalar>)|
                    #![trigger k_scalars_are(proof.ipp_proof, self.num_committed(), ch1, o1), batched_scalars_are(proof.ecp_batched,
                        self.num_committed(), ch2, o2), c.z]
                    k_scalars_are(proof.ipp_proof, self.num_committed(), ch1, o1)
                    && batched_scalars_are(proof.ecp_batched, self.num_committed(), ch2, o2)
                    && (r.is_ok() <==> is_identity_of(msm_of(
                        mega_scalars(*proof, c, o1, o2,
                            weights(self.constraint_list(), 0, self.num_gates(), c.z.val()),
                            weights(self.constraint_list(), 1, self.num_gates(), c.z.val()),
                            weights(self.constraint_list(), 2, self.num_gates(), c.z.val()),
                            weights(self.constraint_list(), 3, self.num_committed(), c.z.val()),
                            flat_weight(self.constraint_list(), self.constraint_list().len() as int, 4, 0, c.z.val()),
                            self.num_gates(), self.num_committed(), C1_prime@.len()),
                        mega_points(*proof, self.first_commitment(), self.pedersen().B, self.pedersen().B_blinding,
                            self.gens().G_vec@[0]@.subrange(0, self.num_committed() as int),
                            self.gens().H_vec@[0]@.subrange(0, self.num_committed() as int), C1_prime@, C2_prime@, C@)))),
    {
        let mut this = self;
        let n = this.num_vars;
        let padded_n = this.num_inputs;
        if n > padded_n {
            return Err(R1CSError::VerificationError);
        }
        let pad = padded_n - n;
        if this.bp_gens.party_capacity == 0 || this.bp_gens.gens_capacity < padded_n {
            return Err(R1CSError::InvalidGeneratorsLength);
        }
        let gens_G = &this.bp_gens.G_vec[0];
        let gens_H = &this.bp_gens.H_vec[0];

        if proof.ipp_proof.U_vecs.len() == usize::MAX || proof.ecp_batched.A_vecs.len() == usize::MAX
            || !proof.ipp_proof.is_well_formed() || !proof.ecp_batched.is_well_formed() || padded_n == 0 {
            return Err(R1CSError::VerificationError);
        }
        let d1 = proof.ipp_proof.U_vecs.len();
        let lens1 = reconstruct_round_lengths(padded_n, proof.ipp_proof.k, d1);
        let d2 = proof.ecp_batched.A_vecs.len();
        let lens2 = reconstruct_round_lengths(padded_n, proof.ecp_batched.k, d2);
        if proof.ipp_proof.a_final.len() != lens1[d1] || proof.ecp_batched.z.len() != lens2[d2] {
            return Err(R1CSError::VerificationError);
        }
        if C1_prime.len() > padded_n || C2_prime.len() != C1_prime.len() || C.len() < 2 || this.V.len() == 0 {
            return Err(R1CSError::VerificationError);
        }
        let fixed = [
            proof.A_I, proof.A_O, proof.S, proof.T_1, proof.T_2, proof.T_3, proof.T_4, proof.T_5, proof.T_6,
            proof.S_prime, proof.T_1_prime, proof.S1_prime, proof.S2_prime,
        ];
        proof {
            assert(fixed@ =~= proof.fixed_points());
        }
        let mut f: usize = 0;
        while f < 13
            invariant
                fixed@ == proof.fixed_points(),
                f <= 13,
                forall|j: int| 0 <= j < f ==> decompresses((#[trigger] proof.fixed_points()[j]).bytes@),
            decreases 13 - f,
        {
            if decompress(&fixed[f]).is_none() {
                return Err(R1CSError::VerificationError);
            }
            f = f + 1;
        }
        if decompress(&this.V[0]).is_none() {
            return Err(R1CSError::VerificationError);
        }

        commit_point(&mut this.transcript, "A_I", &proof.A_I);
        commit_point(&mut this.transcript, "A_O", &proof.A_O);
        commit_point(&mut this.transcript, "S", &proof.S);
        let y = challenge_scalar(&mut this.transcript, "y");
        let z = challenge_scalar(&mut this.transcript, "z");
        commit_point(&mut this.transcript, "T_1", &proof.T_1);
        commit_point(&mut this.transcript, "T_3", &proof.T_3);
        commit_point(&mut this.transcript, "T_4", &proof.T_4);
        commit_point(&mut this.transcript, "T_5", &proof.T_5);
        commit_point(&mut this.transcript, "T_6", &proof.T_6);
        commit_point(&mut this.transcript, "T_2", &proof.T_2);
        let x = challenge_scalar(&mut this.transcript, "x");
        commit_scalar(&mut this.transcript, "t_x", &proof.t_x);
        commit_scalar(&mut this.transcript, "t_x_blinding", &proof.t_x_blinding);
        commit_scalar(&mut this.transcript, "e_blinding", &proof.e_blinding);

        let (wL, wR, wO, wV, wc) = this.flattened_constraints(&z);

        commit_point(&mut this.transcript, "S_prime", &proof.S_prime);
        commit_point(&mut this.transcript, "T_1_prime", &proof.T_1_prime);
        commit_point(&mut this.transcript, "S1_prime", &proof.S1_prime);
        commit_point(&mut this.transcript, "S2_prime", &proof.S2_prime);
        let x_prime = challenge_scalar(&mut this.transcript, "x_prime");
        commit_scalar(&mut this.transcript, "tc_x", &proof.tc_x);
        commit_scalar(&mut this.transcript, "tc_x_blinding", &proof.tc_x_blinding);
        commit_scalar(&mut this.transcript, "ec_blinding", &proof.ec_blinding);
        commit_scalar(&mut this.transcript, "r_blinding", &proof.r_blinding);
        commit_scalar(&mut this.transcript, "t_cross", &proof.t_cross);
        let x_ipp = challenge_scalar(&mut this.transcript, "x_ipp");
        let w_agg = challenge_scalar(&mut this.transcript, "w_agg");

        let out1 = match proof.ipp_proof.verification_scalars(padded_n, &mut this.transcript) {
            Ok(t) => t,
            Err(_) => {
                return Err(R1CSError::VerificationError);
            },
        };

        let mut rng = transcript_rng(&this.transcript);
        let rr = random_scalar(&mut rng);
        let chall_batched_ecp = challenge_scalar(&mut this.transcript, "chall_batched_ecp");
        let out2 = match proof.ecp_batched.verification_scalars(padded_n, &mut this.transcript) {
            Ok(t) => t,
            Err(_) => {
                return Err(R1CSError::VerificationError);
            },
        };
        let c = MegaChallenges { y, z, x, x_prime, x_ipp, w_agg, r: rr, chall: chall_batched_ecp };
        let ok = mega_check(proof, &c, &out1, &out2, &wL, &wR, &wO, &wV, &wc, n, padded_n, &this.V[0],
            &this.pc_gens.B, &this.pc_gens.B_blinding, &gens_G.as_slice()[0..padded_n], &gens_H.as_slice()[0..padded_n],
            C1_prime, C2_prime, C);
        proof {
            assert(vals_of(wL@) =~= weights(this.constraints@, 0, n as nat, z.val()));
            assert(vals_of(wR@) =~= weights(this.constraints@, 1, n as nat, z.val()));
            assert(vals_of(wO@) =~= weights(this.constraints@, 2, n as nat, z.val()));
            assert(vals_of(wV@) =~= weights(this.constraints@, 3, padded_n as nat, z.val()));
            let ch1 = choose|ch: Seq<Scalar>| ch.len() == proof.ipp_proof.U_vecs@.len() && k_scalars_are(proof.ipp_proof, padded_n as nat, ch, out1);
            let ch2 = choose|ch: Seq<Scalar>| ch.len() == proof.ecp_batched.A_vecs@.len() && batched_scalars_are(proof.ecp_batched, padded_n as nat, ch, out2);
            assert(k_scalars_are(proof.ipp_proof, padded_n as nat, ch1, out1));
            assert(batched_scalars_are(proof.ecp_batched, padded_n as nat, ch2, out2));
            assert(c.z == z);
        }
        if ok {
            Ok(())
        } else {
            Err(R1CSError::VerificationError)
        }
    }
}

/// The conditions on which the verifier rejects a proof before it touches the
/// transcript: an embedded proof that is not valid, no committed entries, final
/// vectors of another length than the committed one folds to, ciphertext vectors
/// longer than the committed entries or of different lengths, fewer than two
/// entries in `C`, no commitment, one of the 13 commitments undecompressable, or
/// the first committed vector's commitment undecompressable.
pub open spec fn early_rejects(proof: R1CSProof, padded: nat, c1_len: nat, c2_len: nat, c_len: nat, num_commitments: nat, first_commitment: Seq<u8>) -> bool {
    ||| !(proof.ipp_proof.wf() && proof.ecp_batched.wf())
    ||| proof.ipp_proof.U_vecs@.len() >= usize::MAX
    ||| proof.ecp_batched.A_vecs@.len() >= usize::MAX
    ||| padded == 0
    ||| proof.ipp_proof.a_final@.len() != fold_len(padded, proof.ipp_proof.k as nat, proof.ipp_proof.U_vecs@.len() as nat)
    ||| proof.ecp_batched.z@.len() != fold_len(padded, proof.ecp_batched.k as nat, proof.ecp_batched.A_vecs@.len() as nat)
    ||| c1_len > padded
    ||| c2_len != c1_len
    ||| c_len < 2
    ||| num_commitments == 0
    ||| exists|j: int| 0 <= j < 13 && !decompresses(#[trigger] proof.fixed_points()[j].bytes@)
    ||| !decompresses(first_commitment)
}

/// The flattened weights of the first `len` wires of a kind (see [`flat_weight`]).
pub open spec fn weights(cs: Seq<LinearCombination>, kind: int, len: nat, z: nat) -> Seq<nat> {
    Seq::new(len, |i: int| flat_weight(cs, cs.len() as int, kind, i, z))
}

} // verus!
