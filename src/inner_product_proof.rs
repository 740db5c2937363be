//! The binary (k = 2) inner-product argument, kept as a baseline.
use vstd::prelude::*;
use crate::bytes::{join_words, lemma_join_words_prefix, lemma_join_words_word, push_all, read32};
use crate::errors::ProofError;
use crate::fold::append_block;
use crate::point::{compress, decompress, msm, CompressedPoint};
use crate::rounds::{lemma_pow_ge_one, lemma_pow_mono, pow_nat};
use crate::scalar::{group_order, inner_product, le_value, Scalar};
use crate::k_bullet::invert_all;
use crate::transcript::{challenge_scalar, commit_point, innerproduct_domain_sep};
use curve25519_dalek::ristretto::RistrettoPoint;
use merlin::Transcript;

verus! {

/// A binary inner-product proof: `lg n` pairs `(L, R)` and the two final scalars.
#[derive(Clone, Debug)]
pub struct InnerProductProof {
    pub L_vec: Vec<CompressedPoint>,
    pub R_vec: Vec<CompressedPoint>,
    pub a: Scalar,
    pub b: Scalar,
}

/// Whether `b` encodes a binary proof: a whole number of 32-byte words, at least
/// two, an even number of points fewer than 64, and two canonical scalars at the end.
pub open spec fn valid_ipp_encoding(b: Seq<u8>) -> bool {
    let w = b.len() as int / 32;
    &&& b.len() % 32 == 0
    &&& w >= 2
    &&& (w - 2) % 2 == 0
    &&& (w - 2) / 2 < 32
    &&& le_value(b.subrange(32 * (w - 2), 32 * (w - 1))) < group_order()
    &&& le_value(b.subrange(32 * (w - 1), 32 * w)) < group_order()
}

impl InnerProductProof {
    /// Word `j` of the encoding: `L_0, R_0, ..., L_{n-1}, R_{n-1}, a, b`.
    pub open spec fn word(&self, j: int) -> Seq<u8> {
        let lg = self.L_vec@.len() as int;
        if j < 2 * lg {
            if j % 2 == 0 {
                self.L_vec@[j / 2].bytes@
            } else {
                self.R_vec@[j / 2].bytes@
            }
        } else if j == 2 * lg {
            self.a.bytes@
        } else {
            self.b.bytes@
        }
    }

    /// The encoding, `2 lg n + 2` words.
    pub open spec fn encoding(&self) -> Seq<u8> {
        join_words((2 * self.L_vec@.len() + 2) as nat, |j: int| self.word(j))
    }

    /// Size in bytes of the encoding.
    pub fn serialized_size(&self) -> (r: usize)
        requires
            (self.L_vec@.len() * 2 + 2) * 32 <= usize::MAX,
        ensures
            r == (self.L_vec@.len() * 2 + 2) * 32,
    {
        (self.L_vec.len() * 2 + 2) * 32
    }

    /// Encodes the proof.
    pub fn to_bytes(&self) -> (r: Vec<u8>)
        requires
            self.R_vec@.len() == self.L_vec@.len(),
        ensures
            r@ == self.encoding(),
    {
        let ghost f = |j: int| self.word(j);
        let ghost nw = (2 * self.L_vec@.len() + 2) as nat;
        let mut buf: Vec<u8> = Vec::new();
        proof {
            assert(join_words(nw, f).subrange(0, 0) =~= Seq::<u8>::empty());
        }
        let mut i: usize = 0;
        while i < self.L_vec.len()
            invariant
                self.R_vec@.len() == self.L_vec@.len(),
                f == (|j: int| self.word(j)),
                nw == 2 * self.L_vec@.len() + 2,
                i <= self.L_vec@.len(),
                buf@ == join_words(nw, f).subrange(0, 64 * i),
            decreases self.L_vec@.len() - i,
        {
            proof {
                assert((2 * i) % 2 == 0 && (2 * i) / 2 == i);
                assert((2 * i + 1) % 2 == 1 && (2 * i + 1) / 2 == i);
                lemma_join_words_prefix(nw, f, 2 * i);
                lemma_join_words_prefix(nw, f, 2 * i + 1);
            }
            push_all(&mut buf, self.L_vec[i].bytes.as_slice());
            push_all(&mut buf, self.R_vec[i].bytes.as_slice());
            i = i + 1;
        }
        proof {
            let lg = self.L_vec@.len() as int;
            lemma_join_words_prefix(nw, f, 2 * lg);
            lemma_join_words_prefix(nw, f, 2 * lg + 1);
        }
        push_all(&mut buf, self.a.bytes.as_slice());
        push_all(&mut buf, self.b.bytes.as_slice());
        proof {
            assert(buf@ =~= join_words(nw, f));
        }
        buf
    }

    /// Decodes a proof: a whole number of words, at least two, `2 lg n + 2` of them
    /// with `lg n < 32`, and canonical final scalars; anything else is a `FormatError`.
    pub fn from_bytes(slice: &[u8]) -> (r: Result<InnerProductProof, ProofError>)
        ensures
            r.is_ok() == valid_ipp_encoding(slice@),
            r matches Ok(p) ==> p.encoding() == slice@ && p.R_vec@.len() == p.L_vec@.len() && p.a.wf() && p.b.wf(),
            r matches Err(e) ==> e == ProofError::FormatError,
    {
        let b = slice.len();
        if b % 32 != 0 {
            return Err(ProofError::FormatError);
        }
        let num_elements = b / 32;
        if num_elements < 2 {
            return Err(ProofError::FormatError);
        }
        if (num_elements - 2) % 2 != 0 {
            return Err(ProofError::FormatError);
        }
        let lg_n = (num_elements - 2) / 2;
        if lg_n >= 32 {
            return Err(ProofError::FormatError);
        }
        let ghost bs = slice@;
        let mut L_vec: Vec<CompressedPoint> = Vec::new();
        let mut R_vec: Vec<CompressedPoint> = Vec::new();
        let mut i: usize = 0;
        while i < lg_n
            invariant
                bs == slice@,
                b == bs.len(),
                b == 32 * num_elements,
                num_elements == 2 * lg_n + 2,
                lg_n < 32,
                i <= lg_n,
                L_vec@.len() == i,
                R_vec@.len() == i,
                forall|j: int| 0 <= j < i ==> (#[trigger] L_vec@[j]).bytes@ == bs.subrange(64 * j, 64 * j + 32),
                forall|j: int| 0 <= j < i ==> (#[trigger] R_vec@[j]).bytes@ == bs.subrange(64 * j + 32, 64 * j + 64),
            decreases lg_n - i,
        {
            let pos = 2 * i * 32;
            L_vec.push(CompressedPoint { bytes: read32(slice, pos) });
            R_vec.push(CompressedPoint { bytes: read32(slice, pos + 32) });
            i = i + 1;
        }
        let pos = 2 * lg_n * 32;
        let a = match Scalar::from_canonical_bytes(read32(slice, pos)) {
            Some(s) => s,
            None => {
                return Err(ProofError::FormatError);
            },
        };
        let b_s = match Scalar::from_canonical_bytes(read32(slice, pos + 32)) {
            Some(s) => s,
            None => {
                return Err(ProofError::FormatError);
            },
        };
        let p = InnerProductProof { L_vec, R_vec, a, b: b_s };
        proof {
            let nw = (2 * lg_n + 2) as nat;
            let f = |j: int| p.word(j);
            assert forall|t: int| 0 <= t < bs.len() implies #[trigger] join_words(nw, f)[t] == bs[t] by {
                let j = t / 32;
                if j < 2 * lg_n {
                    let q = j / 2;
                    if j % 2 == 0 {
                        assert(p.L_vec@[q].bytes@ == bs.subrange(64 * q, 64 * q + 32));
                    } else {
                        assert(p.R_vec@[q].bytes@ == bs.subrange(64 * q + 32, 64 * q + 64));
                    }
                }
            }
            assert(p.encoding() =~= bs);
        }
        Ok(p)
    }
}

/// `a[i] * x + y * b[i]` for `i < n`, over the halves of `a` and `b`.
fn fold_halves(a: &Vec<Scalar>, x: &Scalar, y: &Scalar, n: usize) -> (r: Vec<Scalar>)
    requires
        a@.len() == 2 * n,
    ensures
        r@.len() == n,
        forall|i: int| 0 <= i < n ==> (#[trigger] r@[i]).wf(),
{
    let mut r: Vec<Scalar> = Vec::new();
    let len = a.len();
    let mut i: usize = 0;
    while i < n
        invariant
            len == a@.len(),
            a@.len() == 2 * n,
            i <= n,
            r@.len() == i,
            forall|j: int| 0 <= j < i ==> (#[trigger] r@[j]).wf(),
        decreases n - i,
    {
        r.push(a[i].mul(x).add(&y.mul(&a[n + i])));
        i = i + 1;
    }
    r
}

/// `[x_i * G_i + y_i * G_{n+i}]` for `i < n`, with per-entry factors.
fn fold_point_halves(g: &Vec<RistrettoPoint>, x: &Vec<Scalar>, y: &Vec<Scalar>, n: usize) -> (r: Vec<RistrettoPoint>)
    requires
        g@.len() == 2 * n,
        x@.len() == n,
        y@.len() == n,
    ensures
        r@.len() == n,
{
    let mut r: Vec<RistrettoPoint> = Vec::new();
    let len = g.len();
    let mut i: usize = 0;
    while i < n
        invariant
            len == g@.len(),
            g@.len() == 2 * n,
            x@.len() == n,
            y@.len() == n,
            i <= n,
            r@.len() == i,
        decreases n - i,
    {
        let sc = vec![x[i], y[i]];
        let pt = vec![g[i], g[n + i]];
        r.push(msm(sc.as_slice(), pt.as_slice()));
        i = i + 1;
    }
    r
}

/// `[v_i * f_{start+i}]`.
fn mul_each(v: &Vec<Scalar>, f: &[Scalar], start: usize) -> (r: Vec<Scalar>)
    requires
        start + v@.len() <= f@.len(),
    ensures
        r@.len() == v@.len(),
{
    let mut r: Vec<Scalar> = Vec::new();
    let len = f.len();
    let mut i: usize = 0;
    while i < v.len()
        invariant
            len == f@.len(),
            start + v@.len() <= f@.len(),
            i <= v@.len(),
            r@.len() == i,
        decreases v@.len() - i,
    {
        r.push(v[i].mul(&f[start + i]));
        i = i + 1;
    }
    r
}

/// A copy of `v`.
fn copy_scalars(v: &Vec<Scalar>) -> (r: Vec<Scalar>)
    ensures
        r@ == v@,
{
    let mut r: Vec<Scalar> = Vec::new();
    append_block(&mut r, v.as_slice(), 0, v.len());
    proof {
        assert(v@.subrange(0, v@.len() as int) =~= v@);
    }
    r
}

/// `n` copies of `s`.
fn repeat_scalar(s: &Scalar, n: usize) -> (r: Vec<Scalar>)
    ensures
        r@.len() == n,
        forall|i: int| 0 <= i < n ==> r@[i] == *s,
{
    let mut r: Vec<Scalar> = Vec::new();
    let mut i: usize = 0;
    while i < n
        invariant
            i <= n,
            r@.len() == i,
            forall|j: int| 0 <= j < i ==> r@[j] == *s,
        decreases n - i,
    {
        r.push(*s);
        i = i + 1;
    }
    r
}

/// `[s * f_i]` for `i` in `start..start + n`.
fn scale_range(s: &Scalar, f: &[Scalar], start: usize, n: usize) -> (r: Vec<Scalar>)
    requires
        start + n <= f@.len(),
    ensures
        r@.len() == n,
{
    let mut r: Vec<Scalar> = Vec::new();
    let len = f.len();
    let mut i: usize = 0;
    while i < n
        invariant
            len == f@.len(),
            start + n <= f@.len(),
            i <= n,
            r@.len() == i,
        decreases n - i,
    {
        r.push(s.mul(&f[start + i]));
        i = i + 1;
    }
    r
}

impl InnerProductProof {
    /// Proves knowledge of `a`, `b` opening `<a, G> + <b, H'> + <a, b> Q`, where
    /// `H'_i = H_i * Hprime_factors[i]`, by halving `lg n` times. The vectors must
    /// all have the same length `n`, a power of two.
    pub fn create(
        transcript: &mut Transcript,
        Q: &RistrettoPoint,
        Hprime_factors: &[Scalar],
        G_vec: Vec<RistrettoPoint>,
        H_vec: Vec<RistrettoPoint>,
        a_vec: Vec<Scalar>,
        b_vec: Vec<Scalar>,
    ) -> (res: InnerProductProof)
        requires
            exists|lg: nat| pow_nat(2, lg) == a_vec@.len(),
            G_vec@.len() == a_vec@.len(),
            H_vec@.len() == a_vec@.len(),
            b_vec@.len() == a_vec@.len(),
            Hprime_factors@.len() >= a_vec@.len(),
            forall|i: int| 0 <= i < a_vec@.len() ==> (#[trigger] a_vec@[i]).wf(),
            forall|i: int| 0 <= i < b_vec@.len() ==> (#[trigger] b_vec@[i]).wf(),
        ensures
            pow_nat(2, res.L_vec@.len() as nat) == a_vec@.len(),
            res.R_vec@.len() == res.L_vec@.len(),
            res.a.wf() && res.b.wf(),
    {
        let ghost lg_total: nat = choose|lg: nat| pow_nat(2, lg) == a_vec@.len();
        let mut n = G_vec.len();
        innerproduct_domain_sep(transcript, n as u64);
        let mut a = a_vec;
        let mut b = b_vec;
        let mut G = G_vec;
        let mut H = H_vec;
        let mut L_vec: Vec<CompressedPoint> = Vec::new();
        let mut R_vec: Vec<CompressedPoint> = Vec::new();
        let mut first = true;
        let ghost mut lg: nat = lg_total;
        proof {
            lemma_pow_ge_one(2, lg_total);
        }
        while n != 1
            invariant
                pow_nat(2, lg) == n,
                n >= 1,
                lg <= lg_total,
                L_vec@.len() == lg_total - lg,
                R_vec@.len() == L_vec@.len(),
                a@.len() == n,
                b@.len() == n,
                G@.len() == n,
                H@.len() == n,
                first ==> n <= Hprime_factors@.len(),
                forall|i: int| 0 <= i < n ==> (#[trigger] a@[i]).wf(),
                forall|i: int| 0 <= i < n ==> (#[trigger] b@[i]).wf(),
            decreases n,
        {
            proof {
                assert(lg >= 1);
                assert(pow_nat(2, lg) == 2 * pow_nat(2, (lg - 1) as nat));
            }
            n = n / 2;
            proof {
                lg = (lg - 1) as nat;
                lemma_pow_ge_one(2, lg);
            }
            let mut a_L: Vec<Scalar> = Vec::new();
            append_block(&mut a_L, a.as_slice(), 0, n);
            let mut a_R: Vec<Scalar> = Vec::new();
            append_block(&mut a_R, a.as_slice(), n, n);
            let mut b_L: Vec<Scalar> = Vec::new();
            append_block(&mut b_L, b.as_slice(), 0, n);
            let mut b_R: Vec<Scalar> = Vec::new();
            append_block(&mut b_R, b.as_slice(), n, n);
            let c_L = inner_product(a_L.as_slice(), b_R.as_slice());
            let c_R = inner_product(a_R.as_slice(), b_L.as_slice());
            let b_R_w = if first { mul_each(&b_R, Hprime_factors, 0) } else { copy_scalars(&b_R) };
            let b_L_w = if first { mul_each(&b_L, Hprime_factors, n) } else { copy_scalars(&b_L) };
            let mut sc: Vec<Scalar> = Vec::new();
            let mut pt: Vec<RistrettoPoint> = Vec::new();
            append_block(&mut sc, a_L.as_slice(), 0, n);
            append_block(&mut pt, G.as_slice(), n, n);
            append_block(&mut sc, b_R_w.as_slice(), 0, n);
            append_block(&mut pt, H.as_slice(), 0, n);
            sc.push(c_L);
            pt.push(*Q);
            let L = compress(&msm(sc.as_slice(), pt.as_slice()));
            let mut sc: Vec<Scalar> = Vec::new();
            let mut pt: Vec<RistrettoPoint> = Vec::new();
            append_block(&mut sc, a_R.as_slice(), 0, n);
            append_block(&mut pt, G.as_slice(), 0, n);
            append_block(&mut sc, b_L_w.as_slice(), 0, n);
            append_block(&mut pt, H.as_slice(), n, n);
            sc.push(c_R);
            pt.push(*Q);
            let R = compress(&msm(sc.as_slice(), pt.as_slice()));
            L_vec.push(L);
            R_vec.push(R);
            commit_point(transcript, "L", &L);
            commit_point(transcript, "R", &R);
            let u = challenge_scalar(transcript, "u");
            let u_inv = u.invert();
            let a_new = fold_halves(&a, &u, &u_inv, n);
            let b_new = fold_halves(&b, &u_inv, &u, n);
            let g_new = fold_point_halves(&G, &repeat_scalar(&u_inv, n), &repeat_scalar(&u, n), n);
            let h_new = if first {
                fold_point_halves(&H, &scale_range(&u, Hprime_factors, 0, n), &scale_range(&u_inv, Hprime_factors, n, n), n)
            } else {
                fold_point_halves(&H, &repeat_scalar(&u, n), &repeat_scalar(&u_inv, n), n)
            };
            a = a_new;
            b = b_new;
            G = g_new;
            H = h_new;
            first = false;
        }
        InnerProductProof { L_vec, R_vec, a: a[0], b: b[0] }
    }

    /// Replays the transcript and computes `(u^2, u^-2, s)`: the squared challenges,
    /// their squared inverses, and for each `i < n` the product of the inverse
    /// challenges, times `u_j^2` for each set bit `j` of `i` (most significant round
    /// first). Fails with `VerificationError` unless `lg n < 32` and `n = 2^(lg n)`.
    pub fn verification_scalars(&self, n: usize, transcript: &mut Transcript) -> (r: Result<(Vec<Scalar>, Vec<Scalar>, Vec<Scalar>), ProofError>)
        requires
            self.R_vec@.len() == self.L_vec@.len(),
        ensures
            r.is_ok() ==> (self.L_vec@.len() < 32 && n == pow_nat(2, self.L_vec@.len() as nat)),
            self.L_vec@.len() >= 32 ==> r.is_err(),
            r matches Err(e) ==> e == ProofError::VerificationError,
            r matches Ok(t) ==> t.0@.len() == self.L_vec@.len() && t.1@.len() == self.L_vec@.len() && t.2@.len() == n,
    {
        let lg_n = self.L_vec.len();
        if lg_n >= 32 {
            return Err(ProofError::VerificationError);
        }
        let mut m: usize = n;
        let mut j: usize = 0;
        proof {
            assert(pow_nat(2, 0) == 1);
            assert(n == 1 * m);
        }
        while j < lg_n
            invariant
                j <= lg_n,
                n == pow_nat(2, j as nat) * m,
            decreases lg_n - j,
        {
            if m % 2 != 0 {
                return Err(ProofError::VerificationError);
            }
            proof {
                assert(pow_nat(2, (j + 1) as nat) == 2 * pow_nat(2, j as nat));
                assert(n == pow_nat(2, (j + 1) as nat) * (m / 2)) by (nonlinear_arith)
                    requires
                        n == pow_nat(2, j as nat) * m,
                        m % 2 == 0,
                        pow_nat(2, (j + 1) as nat) == 2 * pow_nat(2, j as nat),
                ;
            }
            m = m / 2;
            j = j + 1;
        }
        if m != 1 {
            return Err(ProofError::VerificationError);
        }
        proof {
            assert(n == pow_nat(2, lg_n as nat));
            lemma_pow_ge_one(2, lg_n as nat);
        }
        innerproduct_domain_sep(transcript, n as u64);
        let mut challenges: Vec<Scalar> = Vec::new();
        let mut i: usize = 0;
        while i < lg_n
            invariant
                lg_n == self.L_vec@.len(),
                self.R_vec@.len() == lg_n,
                i <= lg_n,
                challenges@.len() == i,
            decreases lg_n - i,
        {
            commit_point(transcript, "L", &self.L_vec[i]);
            commit_point(transcript, "R", &self.R_vec[i]);
            challenges.push(challenge_scalar(transcript, "u"));
            i = i + 1;
        }
        let challenges_inv = invert_all(challenges.as_slice());
        let mut allinv = Scalar::one();
        let mut u_sq: Vec<Scalar> = Vec::new();
        let mut u_inv_sq: Vec<Scalar> = Vec::new();
        let mut i: usize = 0;
        while i < lg_n
            invariant
                challenges@.len() == lg_n,
                challenges_inv@.len() == lg_n,
                i <= lg_n,
                u_sq@.len() == i,
                u_inv_sq@.len() == i,
            decreases lg_n - i,
        {
            allinv = allinv.mul(&challenges_inv[i]);
            u_sq.push(challenges[i].mul(&challenges[i]));
            u_inv_sq.push(challenges_inv[i].mul(&challenges_inv[i]));
            i = i + 1;
        }
        let mut s: Vec<Scalar> = Vec::new();
        s.push(allinv);
        let mut k: usize = 1;
        let ghost mut lg_i: nat = 0;
        let mut lg_i_exec: usize = 0;
        let mut i: usize = 1;
        while i < n
            invariant
                n == pow_nat(2, lg_n as nat),
                lg_n < 32,
                u_sq@.len() == lg_n,
                1 <= i <= n,
                s@.len() == i,
                k == pow_nat(2, lg_i),
                lg_i == lg_i_exec,
                1 <= k <= i,
                i - k <= k,
            decreases n - i,
        {
            proof {
                if lg_i >= lg_n {
                    lemma_pow_mono(2, lg_n as nat, lg_i);
                }
            }
            if i - k == k {
                k = i;
                lg_i_exec = lg_i_exec + 1;
                proof {
                    lg_i = lg_i + 1;
                }
            }
            proof {
                if lg_i >= lg_n {
                    lemma_pow_mono(2, lg_n as nat, lg_i);
                }
            }
            let v = s[i - k].mul(&u_sq[(lg_n - 1) - lg_i_exec]);
            s.push(v);
            i = i + 1;
        }
        Ok((u_sq, u_inv_sq, s))
    }

    /// Checks the proof against `P = <a, G> + <b, H'> + <a, b> Q`: one multiscalar
    /// multiplication of the reconstructed terms minus `P` must give the identity.
    /// Lengths that do not fit `n` and undecompressable points are a
    /// `VerificationError`.
    pub fn verify(
        &self,
        n: usize,
        transcript: &mut Transcript,
        Hprime_factors: &[Scalar],
        P: &RistrettoPoint,
        Q: &RistrettoPoint,
        G: &[RistrettoPoint],
        H: &[RistrettoPoint],
    ) -> (r: Result<(), ProofError>)
        requires
            self.R_vec@.len() == self.L_vec@.len(),
        ensures
            r matches Err(e) ==> e == ProofError::VerificationError,
            !(self.L_vec@.len() < 32 && n == pow_nat(2, self.L_vec@.len() as nat)) ==> r.is_err(),
            r.is_ok() ==> self.L_vec@.len() < 32 && n == pow_nat(2, self.L_vec@.len() as nat),
    {
        let (u_sq, u_inv_sq, s) = match self.verification_scalars(n, transcript) {
            Ok(t) => t,
            Err(e) => {
                return Err(e);
            },
        };
        if G.len() != n || H.len() != n || Hprime_factors.len() != n {
            return Err(ProofError::VerificationError);
        }
        let mut sc: Vec<Scalar> = Vec::new();
        let mut pt: Vec<RistrettoPoint> = Vec::new();
        sc.push(self.a.mul(&self.b));
        pt.push(*Q);
        let mut i: usize = 0;
        while i < n
            invariant
                s@.len() == n,
                Hprime_factors@.len() == n,
                i <= n,
            decreases n - i,
        {
            sc.push(self.a.mul(&s[i]));
            i = i + 1;
        }
        append_block(&mut pt, G, 0, n);
        let mut i: usize = 0;
        while i < n
            invariant
                s@.len() == n,
                Hprime_factors@.len() == n,
                i <= n,
            decreases n - i,
        {
            sc.push(self.b.mul(&s[n - 1 - i]).mul(&Hprime_factors[i]));
            i = i + 1;
        }
        append_block(&mut pt, H, 0, n);
        let mut i: usize = 0;
        while i < u_sq.len()
            decreases u_sq@.len() - i,
        {
            sc.push(u_sq[i].neg());
            i = i + 1;
        }
        let mut i: usize = 0;
        while i < u_inv_sq.len()
            decreases u_inv_sq@.len() - i,
        {
            sc.push(u_inv_sq[i].neg());
            i = i + 1;
        }
        let mut i: usize = 0;
        while i < self.L_vec.len()
            decreases self.L_vec@.len() - i,
        {
            match decompress(&self.L_vec[i]) {
                Some(p) => {
                    pt.push(p);
                },
                None => {
                    return Err(ProofError::VerificationError);
                },
            }
            i = i + 1;
        }
        let mut i: usize = 0;
        while i < self.R_vec.len()
            decreases self.R_vec@.len() - i,
        {
            match decompress(&self.R_vec[i]) {
                Some(p) => {
                    pt.push(p);
                },
                None => {
                    return Err(ProofError::VerificationError);
                },
            }
            i = i + 1;
        }
        sc.push(Scalar::one().neg());
        pt.push(*P);
        if sc.len() != pt.len() {
            return Err(ProofError::VerificationError);
        }
        let check = msm(sc.as_slice(), pt.as_slice());
        if crate::point::is_identity(&check) {
            Ok(())
        } else {
            Err(ProofError::VerificationError)
        }
    }
}

proof fn lemma_ipp_word(p: InnerProductProof, j: int)
    requires
        p.R_vec@.len() == p.L_vec@.len(),
        0 <= j < 2 * p.L_vec@.len() + 2,
    ensures
        p.encoding().subrange(32 * j, 32 * j + 32) == p.word(j),
        p.encoding().len() == 32 * (2 * p.L_vec@.len() + 2),
{
    lemma_join_words_word((2 * p.L_vec@.len() + 2) as nat, |i: int| p.word(i), j);
}

/// Encoding then decoding gives back the proof: the encoding of a proof with fewer
/// than 32 rounds and canonical scalars is one that
/// [`InnerProductProof::from_bytes`] accepts, and no other such proof has the same
/// encoding.
pub proof fn lemma_ipp_round_trip(p: InnerProductProof, q: InnerProductProof)
    requires
        p.R_vec@.len() == p.L_vec@.len(),
        p.L_vec@.len() < 32,
        p.a.wf(),
        p.b.wf(),
    ensures
        valid_ipp_encoding(p.encoding()),
        q.R_vec@.len() == q.L_vec@.len() && q.encoding() == p.encoding() ==> q.L_vec@ == p.L_vec@
            && q.R_vec@ == p.R_vec@ && q.a == p.a && q.b == p.b,
{
    let lg = p.L_vec@.len() as int;
    let enc = p.encoding();
    lemma_ipp_word(p, 2 * lg);
    lemma_ipp_word(p, 2 * lg + 1);
    assert(enc.len() as int / 32 == 2 * lg + 2);
    if q.R_vec@.len() == q.L_vec@.len() && q.encoding() == p.encoding() {
        lemma_ipp_word(q, 0);
        assert(q.L_vec@.len() == p.L_vec@.len());
        assert forall|j: int| 0 <= j < 2 * lg + 2 implies #[trigger] q.word(j) == p.word(j) by {
            lemma_ipp_word(p, j);
            lemma_ipp_word(q, j);
        }
        assert forall|i: int| 0 <= i < lg implies q.L_vec@[i] == p.L_vec@[i] && q.R_vec@[i] == p.R_vec@[i] by {
            assert((2 * i) % 2 == 0 && (2 * i) / 2 == i);
            assert((2 * i + 1) % 2 == 1 && (2 * i + 1) / 2 == i);
            assert(q.word(2 * i) == p.word(2 * i));
            assert(q.word(2 * i + 1) == p.word(2 * i + 1));
            assert(q.L_vec@[i].bytes =~= p.L_vec@[i].bytes);
            assert(q.R_vec@[i].bytes =~= p.R_vec@[i].bytes);
        }
        assert(q.word(2 * lg) == p.word(2 * lg));
        assert(q.word(2 * lg + 1) == p.word(2 * lg + 1));
        assert(q.a.bytes =~= p.a.bytes);
        assert(q.b.bytes =~= p.b.bytes);
        assert(q.L_vec@ =~= p.L_vec@);
        assert(q.R_vec@ =~= p.R_vec@);
    }
}

} // verus!
