use kfold_proofs::util::{Poly2, Poly6};
use curve25519_dalek::ristretto::RistrettoPoint;
use curve25519_dalek::scalar::Scalar as DalekScalar;
use curve25519_dalek::traits::VartimeMultiscalarMul;
use kfold_proofs::batched_ecp::batched_eCP;
use kfold_proofs::errors::ProofError;
use kfold_proofs::fold::fold_blocks;
use kfold_proofs::generators::BulletproofGens;
use kfold_proofs::k_bullet::K_BulletProof;
use kfold_proofs::scalar::{inner_product, Scalar};
use merlin::Transcript;

fn ds(s: &Scalar) -> DalekScalar {
    DalekScalar::from_bits(s.bytes)
}

fn scalars(n: usize, seed: u64) -> Vec<Scalar> {
    (0..n as u64).map(|i| Scalar::from_u64(seed.wrapping_mul(1_000_003).wrapping_add(i * i * 7919 + 13))).collect()
}

fn msm(s: &[Scalar], p: &[RistrettoPoint]) -> RistrettoPoint {
    RistrettoPoint::vartime_multiscalar_mul(s.iter().map(ds), p.iter())
}

fn k_prove_verify(k: usize, d: usize, n: usize) -> Result<(), ProofError> {
    let gens = BulletproofGens::new(n.max(1), 1);
    let g: Vec<RistrettoPoint> = gens.G_vec[0][..n].to_vec();
    let h: Vec<RistrettoPoint> = gens.H_vec[0][..n].to_vec();
    let q = gens.G_vec[0][0] + gens.H_vec[0][0];
    let a = scalars(n, 1);
    let b = scalars(n, 2);
    let c = inner_product(&a, &b);
    let p = msm(&a, &g) + msm(&b, &h) + ds(&c) * q;
    let mut pt = Transcript::new(b"k-fold test");
    let proof = K_BulletProof::create(&mut pt, k, &g, &h, q, &a, &b, d);
    assert_eq!(proof.U_vecs.len(), d);
    for round in proof.U_vecs.iter() {
        assert_eq!(round.len(), 2 * k - 2);
    }
    let mut vt = Transcript::new(b"k-fold test");
    proof.verify(&mut vt, &g, &h, &q, &p)
}

#[test]
fn k_fold_completeness_various_parameters() {
    for &(k, d, n) in &[(2, 1, 2), (2, 3, 8), (3, 2, 7), (4, 1, 16), (4, 2, 16), (3, 3, 5), (5, 2, 25), (4, 2, 11)] {
        assert_eq!(k_prove_verify(k, d, n), Ok(()), "k={} d={} n={}", k, d, n);
    }
}

#[test]
fn k_fold_rejects_wrong_statement() {
    let n = 9;
    let k = 3;
    let gens = BulletproofGens::new(n, 1);
    let g: Vec<RistrettoPoint> = gens.G_vec[0].clone();
    let h: Vec<RistrettoPoint> = gens.H_vec[0].clone();
    let q = gens.G_vec[0][1];
    let a = scalars(n, 3);
    let b = scalars(n, 4);
    let c = inner_product(&a, &b);
    let p = msm(&a, &g) + msm(&b, &h) + ds(&c) * q + q;
    let mut pt = Transcript::new(b"k-fold test");
    let proof = K_BulletProof::create(&mut pt, k, &g, &h, q, &a, &b, 2);
    let mut vt = Transcript::new(b"k-fold test");
    assert_eq!(proof.verify(&mut vt, &g, &h, &q, &p), Err(ProofError::VerificationError));
}

#[test]
fn k_fold_wrong_length_is_rejected() {
    let n = 16;
    let gens = BulletproofGens::new(n, 1);
    let g: Vec<RistrettoPoint> = gens.G_vec[0].clone();
    let h: Vec<RistrettoPoint> = gens.H_vec[0].clone();
    let q = gens.G_vec[0][1];
    let a = scalars(n, 5);
    let b = scalars(n, 6);
    let mut pt = Transcript::new(b"k-fold test");
    let proof = K_BulletProof::create(&mut pt, 4, &g, &h, q, &a, &b, 1);
    assert_eq!(proof.a_final.len(), 4);
    let mut vt = Transcript::new(b"k-fold test");
    assert!(matches!(proof.verification_scalars(16, &mut vt), Ok(_)));
    let mut vt = Transcript::new(b"k-fold test");
    assert!(matches!(proof.verification_scalars(17, &mut vt), Err(ProofError::VerificationError)));
    let mut vt = Transcript::new(b"k-fold test");
    assert!(matches!(proof.verification_scalars(0, &mut vt), Err(ProofError::InvalidGeneratorsLength)));
    let mut vt = Transcript::new(b"k-fold test");
    assert_eq!(proof.verify(&mut vt, &g, &h[..15].to_vec(), &q, &q), Err(ProofError::InvalidGeneratorsLength));
}

#[test]
fn k_fold_scenario_sizes() {
    let n = 16;
    let gens = BulletproofGens::new(n, 1);
    let g: Vec<RistrettoPoint> = gens.G_vec[0].clone();
    let h: Vec<RistrettoPoint> = gens.H_vec[0].clone();
    let q = gens.G_vec[0][1];
    let a = scalars(n, 7);
    let b = scalars(n, 8);
    let mut t1 = Transcript::new(b"sizes");
    let p1 = K_BulletProof::create(&mut t1, 4, &g, &h, q, &a, &b, 1);
    let mut t2 = Transcript::new(b"sizes");
    let p2 = K_BulletProof::create(&mut t2, 4, &g, &h, q, &a, &b, 2);
    assert_eq!(p1.a_final.len(), 4);
    assert_eq!(p2.a_final.len(), 1);
    assert_eq!(p1.U_vecs.len() * 6, 6);
    assert_eq!(p2.U_vecs.len() * 6, 12);
    assert!(p2.a_final.len() < p1.a_final.len());
    assert_eq!(p1.serialized_size(), (3 + 6 + 8) * 32);
    assert_eq!(p2.serialized_size(), (3 + 12 + 2) * 32);
}

#[test]
fn k_equal_two_has_one_pair_per_round() {
    let n = 8;
    let gens = BulletproofGens::new(n, 1);
    let g: Vec<RistrettoPoint> = gens.G_vec[0].clone();
    let h: Vec<RistrettoPoint> = gens.H_vec[0].clone();
    let q = gens.G_vec[0][1];
    let a = scalars(n, 9);
    let b = scalars(n, 10);
    let mut t = Transcript::new(b"binary");
    let p = K_BulletProof::create(&mut t, 2, &g, &h, q, &a, &b, 3);
    assert_eq!(p.U_vecs.len(), 3);
    assert!(p.U_vecs.iter().all(|r| r.len() == 2));
    assert_eq!(p.a_final.len(), 1);
}

#[test]
fn fold_blocks_exact_values() {
    let a: Vec<Scalar> = [1u64, 2, 3, 4, 5].iter().map(|&x| Scalar::from_u64(x)).collect();
    let coeffs: Vec<Scalar> = [1u64, 10, 100].iter().map(|&x| Scalar::from_u64(x)).collect();
    let r = fold_blocks(&a, 2, &coeffs);
    assert_eq!(r, vec![Scalar::from_u64(1 + 30 + 500), Scalar::from_u64(2 + 40)]);
}

#[test]
fn inner_product_exact_value() {
    let a: Vec<Scalar> = [1u64, 2, 3].iter().map(|&x| Scalar::from_u64(x)).collect();
    let b: Vec<Scalar> = [4u64, 5, 6].iter().map(|&x| Scalar::from_u64(x)).collect();
    assert_eq!(inner_product(&a, &b), Scalar::from_u64(32));
}

#[test]
fn scalar_arithmetic_wraps_at_group_order() {
    let one = Scalar::one();
    let minus_one = one.neg();
    assert_eq!(minus_one.add(&one), Scalar::zero());
    assert_eq!(Scalar::from_u64(7).mul(&Scalar::from_u64(6)), Scalar::from_u64(42));
    assert_eq!(Scalar::from_u64(5).sub(&Scalar::from_u64(3)), Scalar::from_u64(2));
    let inv = Scalar::from_u64(9).invert();
    assert_eq!(inv.mul(&Scalar::from_u64(9)), one);
}

fn ecp_prove_verify(k: usize, d: usize, n: usize, c1_len: usize) -> Result<(), ProofError> {
    let gens = BulletproofGens::new(n, 1);
    let g: Vec<RistrettoPoint> = gens.G_vec[0].clone();
    let c1: Vec<RistrettoPoint> = gens.H_vec[0][..c1_len].to_vec();
    let mut c1_full = c1.clone();
    c1_full.resize(n, RistrettoPoint::default());
    let a = scalars(n, 11);
    let p0 = msm(&a, &g);
    let p1 = msm(&a, &c1_full);
    let mut pt = Transcript::new(b"ecp test");
    let proof = batched_eCP::create(&mut pt, k, &g, &c1, &a, d);
    let mut vt = Transcript::new(b"ecp test");
    proof.verify(&mut vt, &g, &c1_full, &p0, &p1)
}

#[test]
fn batched_completeness_various_parameters() {
    for &(k, d, n, c) in &[(2, 1, 4, 4), (3, 2, 9, 9), (4, 1, 16, 16), (4, 2, 16, 12), (3, 2, 7, 7)] {
        assert_eq!(ecp_prove_verify(k, d, n, c), Ok(()), "k={} d={} n={}", k, d, n);
    }
}

#[test]
fn batched_rejects_wrong_statement() {
    let n = 8;
    let gens = BulletproofGens::new(n, 1);
    let g: Vec<RistrettoPoint> = gens.G_vec[0].clone();
    let c1: Vec<RistrettoPoint> = gens.H_vec[0].clone();
    let a = scalars(n, 12);
    let p0 = msm(&a, &g);
    let p1 = msm(&a, &c1) + g[0];
    let mut pt = Transcript::new(b"ecp test");
    let proof = batched_eCP::create(&mut pt, 2, &g, &c1, &a, 2);
    let mut vt = Transcript::new(b"ecp test");
    assert_eq!(proof.verify(&mut vt, &g, &c1, &p0, &p1), Err(ProofError::VerificationError));
}

#[test]
fn k_fold_malformed_proof_is_rejected() {
    let n = 9;
    let gens = BulletproofGens::new(n, 1);
    let g: Vec<RistrettoPoint> = gens.G_vec[0].clone();
    let h: Vec<RistrettoPoint> = gens.H_vec[0].clone();
    let q = gens.G_vec[0][1];
    let a = scalars(n, 13);
    let b = scalars(n, 14);
    let c = inner_product(&a, &b);
    let p = msm(&a, &g) + msm(&b, &h) + ds(&c) * q;
    let mut pt = Transcript::new(b"k-fold test");
    let mut proof = K_BulletProof::create(&mut pt, 3, &g, &h, q, &a, &b, 2);
    proof.U_vecs[0].pop();
    let mut vt = Transcript::new(b"k-fold test");
    assert_eq!(proof.verify(&mut vt, &g, &h, &q, &p), Err(ProofError::VerificationError));
}

#[test]
fn batched_malformed_proof_is_rejected() {
    let n = 8;
    let gens = BulletproofGens::new(n, 1);
    let g: Vec<RistrettoPoint> = gens.G_vec[0].clone();
    let c1: Vec<RistrettoPoint> = gens.H_vec[0].clone();
    let a = scalars(n, 15);
    let p0 = msm(&a, &g);
    let p1 = msm(&a, &c1);
    let mut pt = Transcript::new(b"ecp test");
    let mut proof = batched_eCP::create(&mut pt, 2, &g, &c1, &a, 2);
    proof.z[0] = Scalar { bytes: [0xff; 32] };
    let mut vt = Transcript::new(b"ecp test");
    assert_eq!(proof.verify(&mut vt, &g, &c1, &p0, &p1), Err(ProofError::VerificationError));
}

#[test]
fn zero_inverts_to_zero() {
    assert_eq!(Scalar::zero().invert(), Scalar::zero());
}

#[test]
fn polynomial_evaluations_exact() {
    let x = Scalar::from_u64(2);
    let p = Poly2(Scalar::from_u64(1), Scalar::from_u64(3), Scalar::from_u64(5));
    assert_eq!(p.eval(&x), Scalar::from_u64(1 + 3 * 2 + 5 * 4));
    let q = Poly6 {
        t1: Scalar::from_u64(1),
        t2: Scalar::from_u64(1),
        t3: Scalar::from_u64(1),
        t4: Scalar::from_u64(1),
        t5: Scalar::from_u64(1),
        t6: Scalar::from_u64(1),
    };
    assert_eq!(q.eval(&x), Scalar::from_u64(2 + 4 + 8 + 16 + 32 + 64));
}
