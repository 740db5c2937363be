use curve25519_dalek::ristretto::RistrettoPoint;
use curve25519_dalek::scalar::Scalar as DalekScalar;
use curve25519_dalek::traits::VartimeMultiscalarMul;
use kfold_proofs::errors::ProofError;
use kfold_proofs::generators::BulletproofGens;
use kfold_proofs::inner_product_proof::InnerProductProof;
use kfold_proofs::scalar::{inner_product, Scalar};
use merlin::Transcript;

fn ds(s: &Scalar) -> DalekScalar {
    DalekScalar::from_bits(s.bytes)
}

fn scalars(n: usize, seed: u64) -> Vec<Scalar> {
    (0..n as u64).map(|i| Scalar::from_u64(seed * 101 + i * 13 + 5)).collect()
}

fn binary_case(n: usize) -> (InnerProductProof, Result<(), ProofError>) {
    let gens = BulletproofGens::new(n, 1);
    let g = gens.G_vec[0].clone();
    let h = gens.H_vec[0].clone();
    let q = gens.G_vec[0][0] + gens.H_vec[0][0];
    let y: Vec<Scalar> = (0..n as u64).map(|i| Scalar::from_u64(i + 2)).collect();
    let a = scalars(n, 1);
    let b = scalars(n, 2);
    let c = inner_product(&a, &b);
    let hb: Vec<DalekScalar> = b.iter().zip(y.iter()).map(|(bi, yi)| ds(bi) * ds(yi)).collect();
    let p = RistrettoPoint::vartime_multiscalar_mul(a.iter().map(ds), g.iter())
        + RistrettoPoint::vartime_multiscalar_mul(hb.iter(), h.iter())
        + ds(&c) * q;
    let mut pt = Transcript::new(b"binary");
    let proof = InnerProductProof::create(&mut pt, &q, &y, g.clone(), h.clone(), a, b);
    let mut vt = Transcript::new(b"binary");
    let res = proof.verify(n, &mut vt, &y, &p, &q, &g, &h);
    (proof, res)
}

#[test]
fn binary_proof_verifies() {
    for &n in &[1usize, 2, 4, 8, 16] {
        let (proof, res) = binary_case(n);
        assert_eq!(res, Ok(()), "n={}", n);
        assert_eq!(1usize << proof.L_vec.len(), n);
    }
}

#[test]
fn binary_proof_round_trip() {
    let (proof, _) = binary_case(8);
    let bytes = proof.to_bytes();
    assert_eq!(bytes.len(), proof.serialized_size());
    assert_eq!(bytes.len(), (2 * 3 + 2) * 32);
    let back = InnerProductProof::from_bytes(&bytes).unwrap();
    assert_eq!(back.L_vec, proof.L_vec);
    assert_eq!(back.R_vec, proof.R_vec);
    assert_eq!(back.a, proof.a);
    assert_eq!(back.b, proof.b);
    assert!(matches!(InnerProductProof::from_bytes(&bytes[..bytes.len() - 32]), Err(ProofError::FormatError)));
    assert!(matches!(InnerProductProof::from_bytes(&bytes[..31]), Err(ProofError::FormatError)));
}

#[test]
fn binary_length_mismatch_is_rejected() {
    let (proof, _) = binary_case(8);
    let mut t = Transcript::new(b"binary");
    assert!(matches!(proof.verification_scalars(6, &mut t), Err(ProofError::VerificationError)));
    let mut t = Transcript::new(b"binary");
    let ok = proof.verification_scalars(8, &mut t).unwrap();
    assert_eq!(ok.0.len(), 3);
    assert_eq!(ok.2.len(), 8);
}
