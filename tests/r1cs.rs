use curve25519_dalek::ristretto::RistrettoPoint;
use curve25519_dalek::scalar::Scalar as DalekScalar;
use curve25519_dalek::traits::VartimeMultiscalarMul;
use kfold_proofs::errors::{ProofError, R1CSError};
use kfold_proofs::generators::{BulletproofGens, PedersenGens};
use kfold_proofs::r1cs::{ConstraintSystem, LinearCombination, Prover, R1CSProof, Variable, Verifier};
use kfold_proofs::scalar::Scalar;
use merlin::Transcript;

fn ds(s: &Scalar) -> DalekScalar {
    DalekScalar::from_bits(s.bytes)
}

fn msm(s: &[Scalar], p: &[RistrettoPoint]) -> RistrettoPoint {
    RistrettoPoint::vartime_multiscalar_mul(s.iter().map(ds), p.iter())
}

/// Padding entries must be zero; the first entry goes through one identity gate.
fn gadget<CS: ConstraintSystem>(cs: &mut CS, x: &[Variable], real_len: usize) {
    for i in real_len..x.len() {
        cs.constrain(LinearCombination::from_variable(x[i]));
    }
    if real_len > 0 {
        let (_, _, o) = cs.multiply(LinearCombination::from_variable(x[0]), LinearCombination::from_scalar(Scalar::one()));
        let mut lc = LinearCombination::from_variable(o);
        lc.push_term(x[0], Scalar::one().neg());
        cs.constrain(lc);
    }
}

struct Setup {
    pc: PedersenGens,
    bp: BulletproofGens,
    c1: Vec<RistrettoPoint>,
    c2: Vec<RistrettoPoint>,
    c: Vec<RistrettoPoint>,
    r_prime: Scalar,
}

fn setup(n_padded: usize, real_len: usize, values: &[Scalar]) -> Setup {
    let pc = PedersenGens::new();
    let bp = BulletproofGens::new(n_padded, 1);
    let cg = BulletproofGens::new(real_len.max(1), 2);
    let c1: Vec<RistrettoPoint> = cg.G_vec[0][..real_len].to_vec();
    let c2: Vec<RistrettoPoint> = cg.G_vec[1][..real_len].to_vec();
    let r_prime = Scalar::from_u64(4242);
    let c0 = msm(&values[..real_len], &c1) + ds(&r_prime) * pc.B;
    let c1_sum = msm(&values[..real_len], &c2) + ds(&r_prime) * pc.B_blinding;
    Setup { pc, bp, c1, c2, c: vec![c0, c1_sum], r_prime }
}

fn values(n_padded: usize, real_len: usize) -> Vec<Scalar> {
    (0..n_padded).map(|i| if i < real_len { Scalar::from_u64(3 + 5 * i as u64) } else { Scalar::zero() }).collect()
}

fn prove(s: &Setup, v: &[Scalar], real_len: usize, k_fold: usize, d: usize) -> (kfold_proofs::point::CompressedPoint, R1CSProof) {
    let mut prover = Prover::new(&s.bp, &s.pc, Transcript::new(b"r1cs test"));
    let (commitment, vars) = prover.commit_vec(v, Scalar::from_u64(777), real_len);
    let mut cs = prover.finalize_inputs();
    gadget(&mut cs, &vars, real_len);
    let proof = cs.prove(&s.c1, &s.c2, s.r_prime, k_fold, d).unwrap();
    (commitment, proof)
}

fn verify(s: &Setup, commitment: kfold_proofs::point::CompressedPoint, n_padded: usize, real_len: usize, proof: &R1CSProof) -> Result<(), R1CSError> {
    let mut verifier = Verifier::new(&s.bp, &s.pc, Transcript::new(b"r1cs test"));
    let vars = verifier.commit_vec(commitment, n_padded);
    let mut cs = verifier.finalize_inputs();
    gadget(&mut cs, &vars, real_len);
    cs.verify(proof, &s.c1, &s.c2, &s.c)
}

#[test]
fn scenario_n16_k4_one_round() {
    let v = values(16, 16);
    let s = setup(16, 16, &v);
    let (cm, proof) = prove(&s, &v, 16, 4, 1);
    assert_eq!(proof.ipp_proof.a_final.len(), 4);
    assert_eq!(proof.ipp_proof.U_vecs.len() * (2 * 4 - 2), 6);
    assert_eq!(verify(&s, cm, 16, 16, &proof), Ok(()));
}

#[test]
fn scenario_n16_k4_two_rounds() {
    let v = values(16, 16);
    let s = setup(16, 16, &v);
    let (cm1, p1) = prove(&s, &v, 16, 4, 1);
    let (cm2, p2) = prove(&s, &v, 16, 4, 2);
    assert_eq!(p2.ipp_proof.a_final.len(), 1);
    assert_eq!(p2.ipp_proof.U_vecs.len() * (2 * 4 - 2), 12);
    assert!(p2.ipp_proof.a_final.len() < p1.ipp_proof.a_final.len());
    assert!(p2.ecp_batched.z.len() < p1.ecp_batched.z.len());
    assert_eq!(verify(&s, cm2, 16, 16, &p2), Ok(()));
    assert_eq!(verify(&s, cm1, 16, 16, &p1), Ok(()));
}

#[test]
fn padded_commitment_is_accepted() {
    let v = values(16, 12);
    let s = setup(16, 12, &v);
    let (cm, proof) = prove(&s, &v, 12, 4, 2);
    assert_eq!(verify(&s, cm, 16, 12, &proof), Ok(()));
}

#[test]
fn nonzero_padding_is_rejected() {
    let mut v = values(16, 12);
    v[14] = Scalar::from_u64(9);
    let s = setup(16, 12, &v);
    let (cm, proof) = prove(&s, &v, 12, 4, 2);
    assert_eq!(verify(&s, cm, 16, 12, &proof), Err(R1CSError::VerificationError));
}

#[test]
fn r1cs_proof_round_trip() {
    let v = values(16, 16);
    let s = setup(16, 16, &v);
    let (_, proof) = prove(&s, &v, 16, 4, 2);
    let bytes = proof.to_bytes();
    let back = R1CSProof::from_bytes(&bytes).unwrap();
    assert_eq!(back.to_bytes(), bytes);
    assert_eq!(back.ipp_proof.a_final, proof.ipp_proof.a_final);
    assert_eq!(back.ecp_batched.z, proof.ecp_batched.z);
    assert_eq!(back.ipp_proof.U_vecs, proof.ipp_proof.U_vecs);
    assert_eq!(back.A_I, proof.A_I);
    assert_eq!(back.r_blinding, proof.r_blinding);
}

#[test]
fn r1cs_decode_rejects_bad_lengths() {
    let v = values(16, 16);
    let s = setup(16, 16, &v);
    let (_, proof) = prove(&s, &v, 16, 4, 1);
    let bytes = proof.to_bytes();
    assert!(matches!(R1CSProof::from_bytes(&bytes[..bytes.len() - 1]), Err(ProofError::FormatError)));
    let mut longer = bytes.clone();
    longer.push(0);
    assert!(matches!(R1CSProof::from_bytes(&longer), Err(ProofError::FormatError)));
    assert!(matches!(R1CSProof::from_bytes(&bytes[..100]), Err(ProofError::FormatError)));
}

#[test]
fn flipped_bytes_never_verify() {
    let v = values(16, 16);
    let s = setup(16, 16, &v);
    let (cm, proof) = prove(&s, &v, 16, 4, 1);
    let bytes = proof.to_bytes();
    let mut positions: Vec<usize> = (0..21).map(|j| 32 * j + 3).collect();
    positions.extend([688 + 96 + 5, 688 + 96 + 32 * 6 + 1, bytes.len() - 40, bytes.len() - 1]);
    for &pos in &positions {
        let mut b = bytes.clone();
        b[pos] ^= 0x01;
        match R1CSProof::from_bytes(&b) {
            Err(e) => assert_eq!(e, ProofError::FormatError),
            Ok(p) => assert_eq!(verify(&s, cm, 16, 16, &p), Err(R1CSError::VerificationError), "position {}", pos),
        }
    }
}

#[test]
fn prover_rejects_too_few_generators() {
    let v = values(16, 16);
    let s = setup(16, 16, &v);
    let small = BulletproofGens::new(8, 1);
    let mut prover = Prover::new(&small, &s.pc, Transcript::new(b"r1cs test"));
    let (_, _vars) = prover.commit_vec(&v[..8], Scalar::one(), 8);
    let cs = prover.finalize_inputs();
    assert!(matches!(cs.prove(&s.c1, &s.c2, s.r_prime, 1, 1), Err(R1CSError::InvalidGeneratorsLength)));
}

#[test]
fn verifier_rejects_too_few_generators() {
    let v = values(16, 16);
    let s = setup(16, 16, &v);
    let (cm, proof) = prove(&s, &v, 16, 4, 1);
    let small = BulletproofGens::new(8, 1);
    let mut verifier = Verifier::new(&small, &s.pc, Transcript::new(b"r1cs test"));
    let _vars = verifier.commit_vec(cm, 16);
    let cs = verifier.finalize_inputs();
    assert_eq!(cs.verify(&proof, &s.c1, &s.c2, &s.c), Err(R1CSError::InvalidGeneratorsLength));
}

#[test]
fn undecompressable_commitment_is_rejected() {
    let v = values(16, 16);
    let s = setup(16, 16, &v);
    let (_, proof) = prove(&s, &v, 16, 4, 1);
    let bad = kfold_proofs::point::CompressedPoint { bytes: [0xff; 32] };
    assert_eq!(verify(&s, bad, 16, 16, &proof), Err(R1CSError::VerificationError));
}
