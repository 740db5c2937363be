//! The verifier's aggregated check: the scalars and points of the one
//! multiscalar multiplication that must give the identity.
use vstd::prelude::*;
use crate::batched_ecp::{batched_eCP, batched_scalars_are, lemma_pair_flat};
use crate::fold::{append_block, vals_of};
use crate::k_bullet::{k_scalars_are, u_points, K_BulletProof};
use crate::point::{CompressedPoint, decompress, decompress_of, decompresses, is_identity, is_identity_of, msm, msm_of, scalar_ints};
use crate::r1cs::r1cs_proof::R1CSProof;
use crate::scalar::{fadd, field_inverse, fmul, fneg, fpow, fsub, inner_product, inner_product_spec, Scalar};
use crate::util::exp_iter;
use vstd::arithmetic::div_mod::{lemma_fundamental_div_mod_converse_div, lemma_fundamental_div_mod_converse_mod};
use curve25519_dalek::ristretto::RistrettoPoint;

verus! {

/// The challenges of the verification, in the order the transcript gives them,
/// and the verifier's random batching scalar `r`.
#[derive(Clone, Copy)]
pub struct MegaChallenges {
    pub y: Scalar,
    pub z: Scalar,
    pub x: Scalar,
    pub x_prime: Scalar,
    pub x_ipp: Scalar,
    pub w_agg: Scalar,
    pub r: Scalar,
    pub chall: Scalar,
}

/// `sum_{i < t} a[i] * b[i]` in the field.
pub open spec fn ip_nat(a: Seq<nat>, b: Seq<nat>, t: int) -> nat
    decreases t,
{
    if t <= 0 {
        0
    } else {
        fadd(ip_nat(a, b, t - 1), fmul(a[t - 1], b[t - 1]))
    }
}

proof fn lemma_ip_nat(a: Seq<Scalar>, b: Seq<Scalar>, av: Seq<nat>, bv: Seq<nat>, t: int)
    requires
        0 <= t <= a.len(),
        t <= b.len(),
        t <= av.len(),
        t <= bv.len(),
        forall|i: int| 0 <= i < t ==> a[i].val() == av[i] && b[i].val() == bv[i],
    ensures
        inner_product_spec(a, b, t) == ip_nat(av, bv, t),
    decreases t,
{
    if t > 0 {
        lemma_ip_nat(a, b, av, bv, t - 1);
    }
}

/// `y^-i * wR[i]` for the multiplication wires, zero on the padding.
pub open spec fn yneg_wr(c: MegaChallenges, wr: Seq<nat>, n: nat, i: int) -> nat {
    if i < n {
        fmul(wr[i], fpow(field_inverse(c.y.val()), i as nat))
    } else {
        0
    }
}

/// `delta = <y^-i * wR, wL>`.
#[verifier::opaque]
pub open spec fn delta(c: MegaChallenges, wl: Seq<nat>, wr: Seq<nat>, n: nat) -> nat {
    ip_nat(Seq::new(n, |i: int| yneg_wr(c, wr, n, i)), wl, n as int)
}

/// Scalar of `G_i` from the circuit part: `s_g[i] - x * y^-i wR[i] * s_P`.
#[verifier::opaque]
pub open spec fn g_scalar(c: MegaChallenges, sg: Seq<Scalar>, sp: nat, wr: Seq<nat>, n: nat, i: int) -> nat {
    fsub(sg[i].val(), fmul(fmul(c.x.val(), yneg_wr(c, wr, n, i)), sp))
}

/// Scalar of `H_i`: `y^-i s_h[i] + (y^-i (x wL_i + wO_i) - 1)(-s_P) + y^-i x_ipp (-s_P) wV_i`.
#[verifier::opaque]
pub open spec fn h_scalar(c: MegaChallenges, sh: Seq<Scalar>, sp: nat, wl: Seq<nat>, wo: Seq<nat>, wv: Seq<nat>, n: nat, i: int) -> nat {
    let yi = fpow(field_inverse(c.y.val()), i as nat);
    let wli: nat = if i < n { wl[i] } else { 0 };
    let woi: nat = if i < n { wo[i] } else { 0 };
    let msp = fneg(sp);
    fadd(
        fadd(fmul(yi, sh[i].val()), fmul(fsub(fmul(yi, fadd(fmul(c.x.val(), wli), woi)), 1), msp)),
        fmul(fmul(fmul(yi, c.x_ipp.val()), msp), wv[i]),
    )
}

pub open spec fn x_sq(c: MegaChallenges) -> nat {
    fmul(c.x.val(), c.x.val())
}

pub open spec fn r_sq(c: MegaChallenges) -> nat {
    fmul(c.r.val(), c.r.val())
}

pub open spec fn r_cube(c: MegaChallenges) -> nat {
    fmul(r_sq(c), c.r.val())
}

pub open spec fn r_four(c: MegaChallenges) -> nat {
    fmul(r_cube(c), c.r.val())
}

/// The scalars of the `T` commitments: `r x, r x^2, r x^3, ..., r x^6`.
#[verifier::opaque]
pub open spec fn t_scalars(c: MegaChallenges) -> Seq<nat> {
    let rxx = fmul(c.r.val(), x_sq(c));
    let xxx = fmul(c.x.val(), x_sq(c));
    seq![
        fmul(c.r.val(), c.x.val()),
        fmul(c.r.val(), x_sq(c)),
        fmul(rxx, c.x.val()),
        fmul(rxx, x_sq(c)),
        fmul(rxx, xxx),
        fmul(fmul(rxx, x_sq(c)), x_sq(c)),
    ]
}

/// The scalar of the base point `B`.
#[verifier::opaque]
pub open spec fn b_scalar(p: R1CSProof, c: MegaChallenges, sq: nat, sp_cir: nat, wc: nat, dl: nat, sp: nat) -> nat {
    let expected_ip = fadd(fadd(p.t_x.val(), fmul(c.x_ipp.val(), p.t_cross.val())), fmul(fmul(c.x_ipp.val(), c.x_ipp.val()), p.tc_x.val()));
    let b = fsub(
        fadd(fsub(fmul(c.w_agg.val(), sq), fmul(fmul(c.w_agg.val(), expected_ip), sp_cir)),
            fmul(c.r.val(), fsub(fmul(x_sq(c), fadd(wc, dl)), p.t_x.val()))),
        fmul(r_sq(c), p.tc_x.val()),
    );
    fadd(b, fmul(fmul(sp, r_cube(c)), p.r_blinding.val()))
}

/// The scalar of the blinding base `B_blinding`.
#[verifier::opaque]
pub open spec fn bb_scalar(p: R1CSProof, c: MegaChallenges, sp_cir: nat, sp: nat) -> nat {
    let bb = fsub(
        fsub(fadd(fmul(fmul(c.x_ipp.val(), p.ec_blinding.val()), sp_cir), fmul(p.e_blinding.val(), sp_cir)),
            fmul(r_sq(c), p.tc_x_blinding.val())),
        fmul(c.r.val(), p.t_x_blinding.val()),
    );
    fadd(bb, fmul(sp, fadd(fmul(r_four(c), p.ec_blinding.val()), fmul(fmul(r_cube(c), c.chall.val()), p.r_blinding.val()))))
}

/// The scalars of `A_I`, `A_O`, `S`, `V` and `S'`.
#[verifier::opaque]
pub open spec fn fixed_scalars(c: MegaChallenges, sp_cir: nat, sp: nat) -> Seq<nat> {
    let mxs = fmul(fneg(c.x.val()), sp_cir);
    let mxi = fmul(fneg(c.x_ipp.val()), sp_cir);
    let msp = fneg(sp);
    seq![
        mxs,
        fmul(mxs, c.x.val()),
        fmul(fmul(mxs, c.x.val()), c.x.val()),
        fadd(mxi, fmul(r_four(c), msp)),
        fadd(fmul(mxi, c.x_prime.val()), fmul(fmul(r_four(c), c.x_prime.val()), msp)),
    ]
}

/// The scalars of `S1'`, `S2'`, `C[0]` and `C[1]`.
#[verifier::opaque]
pub open spec fn cipher_scalars(c: MegaChallenges, sp: nat) -> Seq<nat> {
    let msp = fneg(sp);
    seq![
        fmul(fmul(r_cube(c), c.x_prime.val()), msp),
        fmul(fmul(fmul(r_cube(c), c.chall.val()), c.x_prime.val()), msp),
        fmul(r_cube(c), msp),
        fmul(fmul(r_cube(c), c.chall.val()), msp),
    ]
}

/// All scalars of the aggregated check, in the order of [`mega_points`], given the
/// challenges, the two folding arguments' verification scalars and the flattened
/// constraint weights.
#[verifier::opaque]
pub open spec fn mega_scalars(
    p: R1CSProof,
    c: MegaChallenges,
    o1: (Vec<Scalar>, Vec<Scalar>, Scalar, Scalar, Vec<Scalar>),
    o2: (Vec<Scalar>, Scalar, Vec<Scalar>),
    wl: Seq<nat>,
    wr: Seq<nat>,
    wo: Seq<nat>,
    wv: Seq<nat>,
    wc: nat,
    n: nat,
    padded: nat,
    real_len: nat,
) -> Seq<nat> {
    let sp_cir = o1.3.val();
    let sp = o2.1.val();
    let zs = o2.0@;
    let sa = o2.2@;
    let raw = fixed_scalars(c, sp_cir, sp)
        + seq![b_scalar(p, c, o1.2.val(), sp_cir, wc, delta(c, wl, wr, n), sp), bb_scalar(p, c, sp_cir, sp)]
        + Seq::new(padded, |i: int| fadd(g_scalar(c, o1.0@, sp_cir, wr, n, i), fmul(zs[i].val(), r_four(c))))
        + Seq::new(padded, |i: int| h_scalar(c, o1.1@, sp_cir, wl, wo, wv, n, i))
        + Seq::new(o1.4@.len(), |i: int| fneg(o1.4@[i].val()))
        + seq![fmul(r_sq(c), c.x_prime.val()), r_sq(c)]
        + t_scalars(c)
        + cipher_scalars(c, sp)
        + Seq::new(real_len, |i: int| fmul(zs[i].val(), r_cube(c)))
        + Seq::new(real_len, |i: int| fmul(fmul(zs[i].val(), r_cube(c)), c.chall.val()))
        + Seq::new(sa.len(), |i: int| fmul(fneg(sa[i].val()), r_four(c)))
        + Seq::new(sa.len(), |i: int| fmul(fneg(sa[i].val()), r_cube(c)));
    raw.map_values(|v: nat| v % crate::scalar::group_order())
}

/// The stored pairs' first (`e = 0`) or second (`e = 1`) points, decompressed.
pub open spec fn pair_points(q: batched_eCP, e: int) -> Seq<RistrettoPoint> {
    Seq::new(q.num_pairs() as nat, |j: int| decompress_of(q.point_at(2 * j + e).bytes@))
}

/// All points of the aggregated check: `A_I, A_O, S, V, S'`, `B`, `B_blinding`,
/// `G`, `H`, the folding argument's points, `T_1'`, `T_2`, `T_1..T_6`, `S1'`, `S2'`,
/// `C[0]`, `C[1]`, `C1'`, `C2'`, and the consistency argument's pairs.
#[verifier::opaque]
pub open spec fn mega_points(
    p: R1CSProof,
    v0: Seq<u8>,
    b: RistrettoPoint,
    bb: RistrettoPoint,
    g: Seq<RistrettoPoint>,
    h: Seq<RistrettoPoint>,
    c1: Seq<RistrettoPoint>,
    c2: Seq<RistrettoPoint>,
    cc: Seq<RistrettoPoint>,
) -> Seq<RistrettoPoint> {
    seq![decompress_of(p.A_I.bytes@), decompress_of(p.A_O.bytes@), decompress_of(p.S.bytes@), decompress_of(v0),
        decompress_of(p.S_prime.bytes@), b, bb]
        + g + h + u_points(p.ipp_proof)
        + seq![decompress_of(p.T_1_prime.bytes@), decompress_of(p.T_2.bytes@), decompress_of(p.T_1.bytes@),
            decompress_of(p.T_2.bytes@), decompress_of(p.T_3.bytes@), decompress_of(p.T_4.bytes@),
            decompress_of(p.T_5.bytes@), decompress_of(p.T_6.bytes@), decompress_of(p.S1_prime.bytes@),
            decompress_of(p.S2_prime.bytes@), cc[0], cc[1]]
        + c1 + c2 + pair_points(p.ecp_batched, 0) + pair_points(p.ecp_batched, 1)
}

proof fn lemma_vals_push(s: Seq<Scalar>, x: Scalar)
    ensures
        vals_of(s.push(x)) == vals_of(s).push(x.val()),
{
    assert(vals_of(s.push(x)) =~= vals_of(s).push(x.val()));
}

/// The decompressed point of an encoding known to decompress.
fn dec(cp: &CompressedPoint) -> (r: RistrettoPoint)
    requires
        decompresses(cp.bytes@),
    ensures
        r == decompress_of(cp.bytes@),
{
    match decompress(cp) {
        Some(p) => p,
        None => crate::point::identity(),
    }
}

/// The circuit part of the `G` and `H` scalars, and `delta` (see [`g_scalar`],
/// [`h_scalar`], [`delta`]).
fn circuit_vectors(
    c: &MegaChallenges,
    sg: &Vec<Scalar>,
    sh: &Vec<Scalar>,
    sp_cir: &Scalar,
    wl: &Vec<Scalar>,
    wr: &Vec<Scalar>,
    wo: &Vec<Scalar>,
    wv: &Vec<Scalar>,
    n: usize,
    padded: usize,
) -> (res: (Vec<Scalar>, Vec<Scalar>, Scalar))
    requires
        n <= padded,
        sg@.len() == padded,
        sh@.len() == padded,
        wl@.len() == n,
        wr@.len() == n,
        wo@.len() == n,
        wv@.len() == padded,
    ensures
        res.0@.len() == padded,
        res.1@.len() == padded,
        forall|i: int| 0 <= i < padded ==> (#[trigger] res.0@[i]).val() == g_scalar(*c, sg@, sp_cir.val(), vals_of(wr@), n as nat, i),
        forall|i: int| 0 <= i < padded ==> (#[trigger] res.1@[i]).val() == h_scalar(*c, sh@, sp_cir.val(), vals_of(wl@),
            vals_of(wo@), vals_of(wv@), n as nat, i),
        res.2.val() == delta(*c, vals_of(wl@), vals_of(wr@), n as nat),
{
    let y_inv = c.y.invert();
    let y_inv_vec = exp_iter(&y_inv, padded);
    let ghost wrv = vals_of(wr@);
    let mut yneg_wR: Vec<Scalar> = Vec::new();
    let mut i: usize = 0;
    while i < padded
        invariant
            n <= padded,
            i <= padded,
            yneg_wR@.len() == i,
            wr@.len() == n,
            wrv == vals_of(wr@),
            y_inv.val() == field_inverse(c.y.val()),
            y_inv_vec@.len() == padded,
            forall|j: int| 0 <= j < padded ==> (#[trigger] y_inv_vec@[j]).val() == fpow(y_inv.val(), j as nat),
            forall|j: int| 0 <= j < i ==> (#[trigger] yneg_wR@[j]).val() == yneg_wr(*c, wrv, n as nat, j),
        decreases padded - i,
    {
        if i < n {
            yneg_wR.push(wr[i].mul(&y_inv_vec[i]));
        } else {
            yneg_wR.push(Scalar::zero());
        }
        i = i + 1;
    }
    let dl = inner_product(&yneg_wR.as_slice()[0..n], wl.as_slice());
    proof {
        let ys = yneg_wR@.subrange(0, n as int);
        lemma_ip_nat(ys, wl@, Seq::new(n as nat, |j: int| yneg_wr(*c, wrv, n as nat, j)), vals_of(wl@), n as int);
        reveal(delta);
    }
    let minus_s_P_cir = sp_cir.neg();
    let mut g_scalars: Vec<Scalar> = Vec::new();
    let mut h_scalars: Vec<Scalar> = Vec::new();
    let one = Scalar::one();
    let mut i: usize = 0;
    while i < padded
        invariant
            n <= padded,
            i <= padded,
            g_scalars@.len() == i,
            h_scalars@.len() == i,
            yneg_wR@.len() == padded,
            y_inv.val() == field_inverse(c.y.val()),
            y_inv_vec@.len() == padded,
            forall|j: int| 0 <= j < padded ==> (#[trigger] y_inv_vec@[j]).val() == fpow(y_inv.val(), j as nat),
            forall|j: int| 0 <= j < padded ==> (#[trigger] yneg_wR@[j]).val() == yneg_wr(*c, wrv, n as nat, j),
            wrv == vals_of(wr@),
            sg@.len() == padded,
            sh@.len() == padded,
            wl@.len() == n,
            wo@.len() == n,
            wv@.len() == padded,
            minus_s_P_cir.val() == fneg(sp_cir.val()),
            one.val() == 1,
            forall|j: int| 0 <= j < i ==> (#[trigger] g_scalars@[j]).val() == g_scalar(*c, sg@, sp_cir.val(), wrv, n as nat, j),
            forall|j: int| 0 <= j < i ==> (#[trigger] h_scalars@[j]).val() == h_scalar(*c, sh@, sp_cir.val(), vals_of(wl@),
                vals_of(wo@), vals_of(wv@), n as nat, j),
        decreases padded - i,
    {
        g_scalars.push(sg[i].sub(&c.x.mul(&yneg_wR[i]).mul(sp_cir)));
        let wLi = if i < n { wl[i] } else { Scalar::zero() };
        let wOi = if i < n { wo[i] } else { Scalar::zero() };
        let term1 = y_inv_vec[i].mul(&sh[i]);
        let term2 = y_inv_vec[i].mul(&c.x.mul(&wLi).add(&wOi)).sub(&one).mul(&minus_s_P_cir);
        let term3 = y_inv_vec[i].mul(&c.x_ipp).mul(&minus_s_P_cir).mul(&wv[i]);
        h_scalars.push(term1.add(&term2).add(&term3));
        proof {
            reveal(g_scalar);
            reveal(h_scalar);
        }
        i = i + 1;
    }
    (g_scalars, h_scalars, dl)
}

/// Appends `f(v[i])` for each `i < len`, where `f` is given by `scale`: `v[i] * a`
/// when `negate` is false, `(-v[i]) * a` when it is true.
fn push_scaled(sc: &mut Vec<Scalar>, v: &Vec<Scalar>, len: usize, a: &Scalar, negate: bool)
    requires
        len <= v@.len(),
    ensures
        vals_of(final(sc)@) == vals_of(old(sc)@) + Seq::new(len as nat, |i: int|
            if negate { fmul(fneg(v@[i].val()), a.val()) } else { fmul(v@[i].val(), a.val()) }),
{
    let ghost base = vals_of(sc@);
    let mut i: usize = 0;
    while i < len
        invariant
            len <= v@.len(),
            i <= len,
            vals_of(sc@) == base + Seq::new(i as nat, |j: int|
                if negate { fmul(fneg(v@[j].val()), a.val()) } else { fmul(v@[j].val(), a.val()) }),
        decreases len - i,
    {
        let x = if negate { v[i].neg().mul(a) } else { v[i].mul(a) };
        let ghost before = sc@;
        sc.push(x);
        proof {
            lemma_vals_push(before, x);
            assert(vals_of(sc@) =~= base + Seq::new((i + 1) as nat, |j: int|
                if negate { fmul(fneg(v@[j].val()), a.val()) } else { fmul(v@[j].val(), a.val()) }));
        }
        i = i + 1;
    }
}

/// The scalar of `B` (see [`b_scalar`]).
fn b_value(p: &R1CSProof, c: &MegaChallenges, sq: &Scalar, sp_cir: &Scalar, sp: &Scalar, wc: &Scalar, dl: &Scalar) -> (v: Scalar)
    ensures
        v.val() == b_scalar(*p, *c, sq.val(), sp_cir.val(), wc.val(), dl.val(), sp.val()),
{
    let xx = c.x.mul(&c.x);
    let r2 = c.r.mul(&c.r);
    let r3 = r2.mul(&c.r);
    let expected_ip = p.t_x.add(&c.x_ipp.mul(&p.t_cross)).add(&c.x_ipp.mul(&c.x_ipp).mul(&p.tc_x));
    let b0 = c.w_agg.mul(sq).sub(&c.w_agg.mul(&expected_ip).mul(sp_cir)).add(&c.r.mul(&xx.mul(&wc.add(dl)).sub(&p.t_x)))
        .sub(&r2.mul(&p.tc_x));
    let v = b0.add(&sp.mul(&r3).mul(&p.r_blinding));
    proof {
        reveal(b_scalar);
    }
    v
}

/// The scalar of `B_blinding` (see [`bb_scalar`]).
fn bb_value(p: &R1CSProof, c: &MegaChallenges, sp_cir: &Scalar, sp: &Scalar) -> (v: Scalar)
    ensures
        v.val() == bb_scalar(*p, *c, sp_cir.val(), sp.val()),
{
    let r2 = c.r.mul(&c.r);
    let r3 = r2.mul(&c.r);
    let r4 = r3.mul(&c.r);
    let bb0 = c.x_ipp.mul(&p.ec_blinding).mul(sp_cir).add(&p.e_blinding.mul(sp_cir)).sub(&r2.mul(&p.tc_x_blinding))
        .sub(&c.r.mul(&p.t_x_blinding));
    let v = bb0.add(&sp.mul(&r4.mul(&p.ec_blinding).add(&r3.mul(&c.chall).mul(&p.r_blinding))));
    proof {
        reveal(bb_scalar);
    }
    v
}

/// The scalars of `A_I, A_O, S, V, S'`, `B` and `B_blinding`.
fn head_scalars(p: &R1CSProof, c: &MegaChallenges, sq: &Scalar, sp_cir: &Scalar, sp: &Scalar, wc: &Scalar, dl: &Scalar) -> (sc: Vec<Scalar>)
    ensures
        sc@.len() == 7,
        vals_of(sc@) == fixed_scalars(*c, sp_cir.val(), sp.val())
            + seq![b_scalar(*p, *c, sq.val(), sp_cir.val(), wc.val(), dl.val(), sp.val()), bb_scalar(*p, *c, sp_cir.val(), sp.val())],
{
    let msp = sp.neg();
    let mxs = c.x.neg().mul(sp_cir);
    let mxi = c.x_ipp.neg().mul(sp_cir);
    let r2 = c.r.mul(&c.r);
    let r3 = r2.mul(&c.r);
    let r4 = r3.mul(&c.r);
    let f1 = mxs.mul(&c.x);
    let f2 = f1.mul(&c.x);
    let f3 = mxi.add(&r4.mul(&msp));
    let f4 = mxi.mul(&c.x_prime).add(&r4.mul(&c.x_prime).mul(&msp));
    let bs = b_value(p, c, sq, sp_cir, sp, wc, dl);
    let bbs = bb_value(p, c, sp_cir, sp);
    let sc: Vec<Scalar> = vec![mxs, f1, f2, f3, f4, bs, bbs];
    proof {
        assert(vals_of(sc@).subrange(0, 5) =~= fixed_scalars(*c, sp_cir.val(), sp.val())) by {
            reveal(fixed_scalars);
        }
        assert(vals_of(sc@) =~= fixed_scalars(*c, sp_cir.val(), sp.val())
            + seq![b_scalar(*p, *c, sq.val(), sp_cir.val(), wc.val(), dl.val(), sp.val()), bb_scalar(*p, *c, sp_cir.val(), sp.val())]);
    }
    sc
}

/// The scalars of `T_1'`, `T_2`, `T_1..T_6`, `S1'`, `S2'`, `C[0]` and `C[1]`.
fn tail_scalars(c: &MegaChallenges, sp: &Scalar) -> (sc: Vec<Scalar>)
    ensures
        sc@.len() == 12,
        vals_of(sc@) == seq![fmul(r_sq(*c), c.x_prime.val()), r_sq(*c)] + t_scalars(*c) + cipher_scalars(*c, sp.val()),
{
    let msp = sp.neg();
    let xx = c.x.mul(&c.x);
    let r2 = c.r.mul(&c.r);
    let r3 = r2.mul(&c.r);
    let rxx = c.r.mul(&xx);
    let xxx = c.x.mul(&xx);
    let sc: Vec<Scalar> = vec![
        r2.mul(&c.x_prime), r2,
        c.r.mul(&c.x), c.r.mul(&xx), rxx.mul(&c.x), rxx.mul(&xx), rxx.mul(&xxx), rxx.mul(&xx).mul(&xx),
        r3.mul(&c.x_prime).mul(&msp), r3.mul(&c.chall).mul(&c.x_prime).mul(&msp), r3.mul(&msp), r3.mul(&c.chall).mul(&msp),
    ];
    proof {
        reveal(t_scalars);
        reveal(cipher_scalars);
        assert(sc@.len() == 12);
        assert(vals_of(sc@) =~= seq![fmul(r_sq(*c), c.x_prime.val()), r_sq(*c)] + t_scalars(*c) + cipher_scalars(*c, sp.val()));
    }
    sc
}

/// The scalars of the aggregated check (see [`mega_scalars`]).
#[verifier::rlimit(100)]
fn build_scalars(
    p: &R1CSProof,
    c: &MegaChallenges,
    o1: &(Vec<Scalar>, Vec<Scalar>, Scalar, Scalar, Vec<Scalar>),
    o2: &(Vec<Scalar>, Scalar, Vec<Scalar>),
    wl: &Vec<Scalar>,
    wr: &Vec<Scalar>,
    wo: &Vec<Scalar>,
    wv: &Vec<Scalar>,
    wc: &Scalar,
    n: usize,
    padded: usize,
    v0: &CompressedPoint,
    b: &RistrettoPoint,
    bb: &RistrettoPoint,
    g: &[RistrettoPoint],
    h: &[RistrettoPoint],
    c1: &[RistrettoPoint],
    c2: &[RistrettoPoint],
    cc: &[RistrettoPoint],
) -> (sc: Vec<Scalar>)
    requires
        p.ipp_proof.wf(),
        p.ecp_batched.wf(),
        forall|j: int| 0 <= j < 13 ==> decompresses((#[trigger] p.fixed_points()[j]).bytes@),
        decompresses(v0.bytes@),
        n <= padded,
        o1.0@.len() == padded,
        o1.1@.len() == padded,
        o1.4@.len() == p.ipp_proof.num_points(),
        o2.0@.len() == padded,
        o2.2@.len() == p.ecp_batched.num_pairs(),
        wl@.len() == n,
        wr@.len() == n,
        wo@.len() == n,
        wv@.len() == padded,
        g@.len() == padded,
        h@.len() == padded,
        c1@.len() <= padded,
        c2@.len() == c1@.len(),
        cc@.len() >= 2,
    ensures
        sc@.len() == 19 + 2 * padded + p.ipp_proof.num_points() + 2 * c1@.len() + 2 * p.ecp_batched.num_pairs(),
        scalar_ints(sc@) == mega_scalars(*p, *c, *o1, *o2, vals_of(wl@), vals_of(wr@), vals_of(wo@), vals_of(wv@), wc.val(), n as nat,
            padded as nat, c1@.len()),
{
    let (g_sc, h_sc, dl) = circuit_vectors(c, &o1.0, &o1.1, &o1.3, wl, wr, wo, wv, n, padded);
    let sp_cir = o1.3;
    let sp = o2.1;
    let msp = sp.neg();
    let r2 = c.r.mul(&c.r);
    let r3 = r2.mul(&c.r);
    let r4 = r3.mul(&c.r);
    let mut sc = head_scalars(p, c, &o1.2, &sp_cir, &sp, wc, &dl);
    let ghost wlv = vals_of(wl@);
    let ghost wrv = vals_of(wr@);
    let ghost p1 = fixed_scalars(*c, sp_cir.val(), sp.val())
        + seq![b_scalar(*p, *c, o1.2.val(), sp_cir.val(), wc.val(), delta(*c, wlv, wrv, n as nat), sp.val()), bb_scalar(*p, *c, sp_cir.val(), sp.val())];
    let mut i: usize = 0;
    while i < padded
        invariant
            i <= padded,
            g_sc@.len() == padded,
            o2.0@.len() == padded,
            r4.val() == r_four(*c),
            forall|j: int| 0 <= j < padded ==> (#[trigger] g_sc@[j]).val() == g_scalar(*c, o1.0@, sp_cir.val(), wrv, n as nat, j),
            vals_of(sc@) == p1 + Seq::new(i as nat, |j: int| fadd(g_scalar(*c, o1.0@, sp_cir.val(), wrv, n as nat, j), fmul(o2.0@[j].val(), r_four(*c)))),
        decreases padded - i,
    {
        let x = g_sc[i].add(&o2.0[i].mul(&r4));
        let ghost before = sc@;
        sc.push(x);
        proof {
            lemma_vals_push(before, x);
            assert(vals_of(sc@) =~= p1 + Seq::new((i + 1) as nat, |j: int| fadd(g_scalar(*c, o1.0@, sp_cir.val(), wrv, n as nat, j),
                fmul(o2.0@[j].val(), r_four(*c)))));
        }
        i = i + 1;
    }
    let ghost p2 = vals_of(sc@);
    let mut i: usize = 0;
    while i < padded
        invariant
            i <= padded,
            h_sc@.len() == padded,
            forall|j: int| 0 <= j < padded ==> (#[trigger] h_sc@[j]).val() == h_scalar(*c, o1.1@, sp_cir.val(), wlv, vals_of(wo@),
                vals_of(wv@), n as nat, j),
            vals_of(sc@) == p2 + Seq::new(i as nat, |j: int| h_scalar(*c, o1.1@, sp_cir.val(), wlv, vals_of(wo@), vals_of(wv@), n as nat, j)),
        decreases padded - i,
    {
        let x = h_sc[i];
        let ghost before = sc@;
        sc.push(x);
        proof {
            lemma_vals_push(before, x);
            assert(vals_of(sc@) =~= p2 + Seq::new((i + 1) as nat, |j: int| h_scalar(*c, o1.1@, sp_cir.val(), wlv, vals_of(wo@),
                vals_of(wv@), n as nat, j)));
        }
        i = i + 1;
    }
    let ghost p3 = vals_of(sc@);
    let one = Scalar::one();
    push_scaled(&mut sc, &o1.4, o1.4.len(), &one, true);
    proof {
        assert(Seq::new(o1.4@.len(), |j: int| fmul(fneg(o1.4@[j].val()), one.val())) =~= Seq::new(o1.4@.len(), |j: int| fneg(o1.4@[j].val())));
    }
    let ghost p4 = vals_of(sc@);
    let tail = tail_scalars(c, &sp);
    append_block(&mut sc, tail.as_slice(), 0, 12);
    proof {
        assert(tail@.subrange(0, 12) =~= tail@);
        assert(vals_of(sc@) =~= p4 + vals_of(tail@));
    }
    let real_len = c1.len();
    push_scaled(&mut sc, &o2.0, real_len, &r3, false);
    let ghost p5 = vals_of(sc@);
    let mut i: usize = 0;
    while i < real_len
        invariant
            i <= real_len,
            real_len <= padded,
            o2.0@.len() == padded,
            r3.val() == r_cube(*c),
            vals_of(sc@) == p5 + Seq::new(i as nat, |j: int| fmul(fmul(o2.0@[j].val(), r_cube(*c)), c.chall.val())),
        decreases real_len - i,
    {
        let x = o2.0[i].mul(&r3).mul(&c.chall);
        let ghost before = sc@;
        sc.push(x);
        proof {
            lemma_vals_push(before, x);
            assert(vals_of(sc@) =~= p5 + Seq::new((i + 1) as nat, |j: int| fmul(fmul(o2.0@[j].val(), r_cube(*c)), c.chall.val())));
        }
        i = i + 1;
    }
    push_scaled(&mut sc, &o2.2, o2.2.len(), &r4, true);
    push_scaled(&mut sc, &o2.2, o2.2.len(), &r3, true);
    proof {
        let raw = p1
            + Seq::new(padded as nat, |j: int| fadd(g_scalar(*c, o1.0@, sp_cir.val(), wrv, n as nat, j), fmul(o2.0@[j].val(), r_four(*c))))
            + Seq::new(padded as nat, |j: int| h_scalar(*c, o1.1@, sp_cir.val(), wlv, vals_of(wo@), vals_of(wv@), n as nat, j))
            + Seq::new(o1.4@.len(), |j: int| fneg(o1.4@[j].val()))
            + (seq![fmul(r_sq(*c), c.x_prime.val()), r_sq(*c)] + t_scalars(*c) + cipher_scalars(*c, sp.val()))
            + Seq::new(real_len as nat, |j: int| fmul(o2.0@[j].val(), r_cube(*c)))
            + Seq::new(real_len as nat, |j: int| fmul(fmul(o2.0@[j].val(), r_cube(*c)), c.chall.val()))
            + Seq::new(o2.2@.len(), |j: int| fmul(fneg(o2.2@[j].val()), r_four(*c)))
            + Seq::new(o2.2@.len(), |j: int| fmul(fneg(o2.2@[j].val()), r_cube(*c)));
        assert(vals_of(sc@) =~= raw);
        reveal(mega_scalars);
        let ms = mega_scalars(*p, *c, *o1, *o2, wlv, wrv, vals_of(wo@), vals_of(wv@), wc.val(), n as nat, padded as nat, c1@.len());
        assert(ms =~= raw.map_values(|v: nat| v % crate::scalar::group_order()));
        assert(scalar_ints(sc@) =~= ms);
    }
    sc
}

/// The points of the aggregated check (see [`mega_points`]).
#[verifier::rlimit(100)]
fn build_points(
    p: &R1CSProof,
    v0: &CompressedPoint,
    b: &RistrettoPoint,
    bb: &RistrettoPoint,
    g: &[RistrettoPoint],
    h: &[RistrettoPoint],
    c1: &[RistrettoPoint],
    c2: &[RistrettoPoint],
    cc: &[RistrettoPoint],
    padded: usize,
) -> (pt: Vec<RistrettoPoint>)
    requires
        p.ipp_proof.wf(),
        p.ecp_batched.wf(),
        forall|j: int| 0 <= j < 13 ==> decompresses((#[trigger] p.fixed_points()[j]).bytes@),
        decompresses(v0.bytes@),
        g@.len() == padded,
        h@.len() == padded,
        c1@.len() <= padded,
        c2@.len() == c1@.len(),
        cc@.len() >= 2,
    ensures
        pt@.len() == 19 + 2 * padded + p.ipp_proof.num_points() + 2 * c1@.len() + 2 * p.ecp_batched.num_pairs(),
        pt@ == mega_points(*p, v0.bytes@, *b, *bb, g@, h@, c1@, c2@, cc@),
{
    let real_len = c1.len();
    proof {
        assert(p.fixed_points()[0] == p.A_I && p.fixed_points()[1] == p.A_O && p.fixed_points()[2] == p.S);
        assert(p.fixed_points()[9] == p.S_prime);
        assert(decompresses(p.fixed_points()[0].bytes@) && decompresses(p.fixed_points()[1].bytes@));
        assert(decompresses(p.fixed_points()[2].bytes@) && decompresses(p.fixed_points()[9].bytes@));
    }
    let mut pt: Vec<RistrettoPoint> = vec![dec(&p.A_I), dec(&p.A_O), dec(&p.S), dec(v0), dec(&p.S_prime), *b, *bb];
    append_block(&mut pt, g, 0, padded);
    append_block(&mut pt, h, 0, padded);
    proof {
        assert(p.fixed_points()[0] == p.A_I && p.fixed_points()[1] == p.A_O && p.fixed_points()[2] == p.S);
        assert(p.fixed_points()[9] == p.S_prime);
        assert(g@.subrange(0, padded as int) =~= g@);
        assert(h@.subrange(0, padded as int) =~= h@);
    }
    let ghost q1 = pt@;
    let ip = &p.ipp_proof;
    let ghost w: int = 2 * ip.k - 2;
    let d = ip.U_vecs.len();
    let mut r: usize = 0;
    while r < d
        invariant
            ip.wf(),
            w == ip.width(),
            d == ip.U_vecs@.len(),
            r <= d,
            pt@ == q1 + Seq::new((r * w) as nat, |j: int| decompress_of(ip.point_at(j).bytes@)),
        decreases d - r,
    {
        let round = &ip.U_vecs[r];
        let mut i: usize = 0;
        while i < round.len()
            invariant
                ip.wf(),
                w == ip.width(),
                d == ip.U_vecs@.len(),
                r < d,
                round@ == ip.U_vecs@[r as int]@,
                round@.len() == w,
                i <= round@.len(),
                pt@ == q1 + Seq::new((r * w + i) as nat, |j: int| decompress_of(ip.point_at(j).bytes@)),
            decreases round@.len() - i,
        {
            let ghost j = r * w + i;
            proof {
                assert(0 <= j < d * w) by (nonlinear_arith)
                    requires
                        j == r * w + i,
                        i < w,
                        r < d,
                ;
                lemma_fundamental_div_mod_converse_div(j, w, r as int, i as int);
                lemma_fundamental_div_mod_converse_mod(j, w, r as int, i as int);
                assert(ip.point_at(j) == round@[i as int]);
                assert(decompresses(ip.point_at(j).bytes@));
            }
            pt.push(dec(&round[i]));
            proof {
                assert(pt@ =~= q1 + Seq::new((r * w + i + 1) as nat, |jj: int| decompress_of(ip.point_at(jj).bytes@)));
            }
            i = i + 1;
        }
        proof {
            assert(r * w + w == (r + 1) * w) by (nonlinear_arith);
        }
        r = r + 1;
    }
    proof {
        assert(u_points(*ip) =~= Seq::new((d * w) as nat, |j: int| decompress_of(ip.point_at(j).bytes@)));
        assert(p.fixed_points()[10] == p.T_1_prime && p.fixed_points()[4] == p.T_2 && p.fixed_points()[3] == p.T_1);
        assert(p.fixed_points()[5] == p.T_3 && p.fixed_points()[6] == p.T_4 && p.fixed_points()[7] == p.T_5);
        assert(p.fixed_points()[8] == p.T_6 && p.fixed_points()[11] == p.S1_prime && p.fixed_points()[12] == p.S2_prime);
    }
    proof {
        assert(decompresses(p.fixed_points()[3].bytes@) && decompresses(p.fixed_points()[4].bytes@));
        assert(decompresses(p.fixed_points()[5].bytes@) && decompresses(p.fixed_points()[6].bytes@));
        assert(decompresses(p.fixed_points()[7].bytes@) && decompresses(p.fixed_points()[8].bytes@));
        assert(decompresses(p.fixed_points()[10].bytes@) && decompresses(p.fixed_points()[11].bytes@));
        assert(decompresses(p.fixed_points()[12].bytes@));
    }
    let mid: Vec<RistrettoPoint> = vec![
        dec(&p.T_1_prime), dec(&p.T_2), dec(&p.T_1), dec(&p.T_2), dec(&p.T_3), dec(&p.T_4), dec(&p.T_5), dec(&p.T_6),
        dec(&p.S1_prime), dec(&p.S2_prime), cc[0], cc[1],
    ];
    append_block(&mut pt, mid.as_slice(), 0, 12);
    append_block(&mut pt, c1, 0, real_len);
    append_block(&mut pt, c2, 0, real_len);
    proof {
        assert(mid@.subrange(0, 12) =~= mid@);
        assert(c1@.subrange(0, real_len as int) =~= c1@);
        assert(c2@.subrange(0, real_len as int) =~= c2@);
    }
    let q = &p.ecp_batched;
    let ghost wq: int = 2 * q.k - 2;
    let dq = q.A_vecs.len();
    let mut e: usize = 0;
    while e < 2
        invariant
            q.wf(),
            wq == q.width(),
            dq == q.A_vecs@.len(),
            e <= 2,
            pt@ == (q1 + u_points(*ip) + mid@ + c1@ + c2@) + (if e >= 1 { pair_points(*q, 0) } else { Seq::empty() })
                + (if e >= 2 { pair_points(*q, 1) } else { Seq::empty() }),
        decreases 2 - e,
    {
        let ghost q2 = pt@;
        let mut r: usize = 0;
        while r < dq
            invariant
                q.wf(),
                wq == q.width(),
                dq == q.A_vecs@.len(),
                e < 2,
                r <= dq,
                pt@ == q2 + Seq::new((r * wq) as nat, |j: int| decompress_of(q.point_at(2 * j + e).bytes@)),
            decreases dq - r,
        {
            let round = &q.A_vecs[r];
            let mut i: usize = 0;
            while i < round.len()
                invariant
                    q.wf(),
                    wq == q.width(),
                    dq == q.A_vecs@.len(),
                    e < 2,
                    r < dq,
                    round@ == q.A_vecs@[r as int]@,
                    round@.len() == wq,
                    i <= round@.len(),
                    pt@ == q2 + Seq::new((r * wq + i) as nat, |j: int| decompress_of(q.point_at(2 * j + e).bytes@)),
                decreases round@.len() - i,
            {
                let ghost j = r * wq + i;
                let pr = round[i];
                proof {
                    lemma_pair_flat(r as int, i as int, e as int, wq, dq as int);
                    assert(pr == round@[i as int]);
                    assert(q.point_at(2 * j + e) == pr[e as int]);
                    assert(decompresses(q.point_at(2 * j + e).bytes@));
                }
                pt.push(dec(&pr[e]));
                proof {
                    assert(pt@ =~= q2 + Seq::new((r * wq + i + 1) as nat, |jj: int| decompress_of(q.point_at(2 * jj + e).bytes@)));
                }
                i = i + 1;
            }
            proof {
                assert(r * wq + wq == (r + 1) * wq) by (nonlinear_arith);
            }
            r = r + 1;
        }
        proof {
            assert(pair_points(*q, e as int) =~= Seq::new((dq * wq) as nat, |j: int| decompress_of(q.point_at(2 * j + e).bytes@)));
        }
        e = e + 1;
    }
    proof {
        reveal(mega_points);
        assert(pt@ =~= mega_points(*p, v0.bytes@, *b, *bb, g@, h@, c1@, c2@, cc@));
    }
    pt
}

/// Runs the aggregated check: builds the scalars and points of [`mega_scalars`] and
/// [`mega_points`] and tests whether their multiscalar multiplication is the identity.
pub fn mega_check(
    p: &R1CSProof,
    c: &MegaChallenges,
    o1: &(Vec<Scalar>, Vec<Scalar>, Scalar, Scalar, Vec<Scalar>),
    o2: &(Vec<Scalar>, Scalar, Vec<Scalar>),
    wl: &Vec<Scalar>,
    wr: &Vec<Scalar>,
    wo: &Vec<Scalar>,
    wv: &Vec<Scalar>,
    wc: &Scalar,
    n: usize,
    padded: usize,
    v0: &CompressedPoint,
    b: &RistrettoPoint,
    bb: &RistrettoPoint,
    g: &[RistrettoPoint],
    h: &[RistrettoPoint],
    c1: &[RistrettoPoint],
    c2: &[RistrettoPoint],
    cc: &[RistrettoPoint],
) -> (r: bool)
    requires
        p.ipp_proof.wf(),
        p.ecp_batched.wf(),
        forall|j: int| 0 <= j < 13 ==> decompresses((#[trigger] p.fixed_points()[j]).bytes@),
        decompresses(v0.bytes@),
        n <= padded,
        o1.0@.len() == padded,
        o1.1@.len() == padded,
        o1.4@.len() == p.ipp_proof.num_points(),
        o2.0@.len() == padded,
        o2.2@.len() == p.ecp_batched.num_pairs(),
        wl@.len() == n,
        wr@.len() == n,
        wo@.len() == n,
        wv@.len() == padded,
        g@.len() == padded,
        h@.len() == padded,
        c1@.len() <= padded,
        c2@.len() == c1@.len(),
        cc@.len() >= 2,
    ensures
        r == is_identity_of(msm_of(
            mega_scalars(*p, *c, *o1, *o2, vals_of(wl@), vals_of(wr@), vals_of(wo@), vals_of(wv@), wc.val(), n as nat,
                padded as nat, c1@.len()),
            mega_points(*p, v0.bytes@, *b, *bb, g@, h@, c1@, c2@, cc@),
        )),
{
    let sc = build_scalars(p, c, o1, o2, wl, wr, wo, wv, wc, n, padded, v0, b, bb, g, h, c1, c2, cc);
    let pt = build_points(p, v0, b, bb, g, h, c1, c2, cc, padded);

    let check = msm(sc.as_slice(), pt.as_slice());
    is_identity(&check)
}

} // verus!
