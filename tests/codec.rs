use curve25519_dalek::ristretto::RistrettoPoint;
use kfold_proofs::batched_ecp::batched_eCP;
use kfold_proofs::errors::ProofError;
use kfold_proofs::generators::BulletproofGens;
use kfold_proofs::k_bullet::K_BulletProof;
use kfold_proofs::scalar::Scalar;
use merlin::Transcript;

fn scalars(n: usize, seed: u64) -> Vec<Scalar> {
    (0..n as u64).map(|i| Scalar::from_u64(seed * 31 + i * 17 + 1)).collect()
}

fn k_proof(k: usize, d: usize, n: usize) -> K_BulletProof {
    let gens = BulletproofGens::new(n, 1);
    let g: Vec<RistrettoPoint> = gens.G_vec[0].clone();
    let h: Vec<RistrettoPoint> = gens.H_vec[0].clone();
    let mut t = Transcript::new(b"codec");
    K_BulletProof::create(&mut t, k, &g, &h, g[0], &scalars(n, 1), &scalars(n, 2), d)
}

#[test]
fn k_proof_round_trip() {
    for &(k, d, n) in &[(2, 2, 4), (3, 2, 10), (4, 1, 16), (4, 0, 3)] {
        let p = k_proof(k, d, n);
        let bytes = p.to_bytes();
        assert_eq!(bytes.len(), p.serialized_size());
        let q = K_BulletProof::from_bytes(&bytes).unwrap();
        assert_eq!(q.k, p.k);
        assert_eq!(q.U_vecs, p.U_vecs);
        assert_eq!(q.a_final, p.a_final);
        assert_eq!(q.b_final, p.b_final);
    }
}

#[test]
fn k_proof_header_layout() {
    let p = k_proof(3, 2, 10);
    let bytes = p.to_bytes();
    assert_eq!(bytes[0], 3);
    assert!(bytes[1..32].iter().all(|&b| b == 0));
    assert_eq!(bytes[32], 2);
    assert_eq!(bytes[64], 2);
    assert_eq!(bytes.len(), 32 * (3 + 2 * 4 + 2 * 2));
}

#[test]
fn k_proof_decode_errors() {
    let p = k_proof(3, 2, 10);
    let bytes = p.to_bytes();
    assert!(matches!(K_BulletProof::from_bytes(&bytes[..95]), Err(ProofError::FormatError)));
    assert!(matches!(K_BulletProof::from_bytes(&bytes[..bytes.len() - 1]), Err(ProofError::FormatError)));
    assert!(matches!(K_BulletProof::from_bytes(&bytes[..bytes.len() - 32]), Err(ProofError::FormatError)));
    let mut bad_k = bytes.clone();
    bad_k[0] = 1;
    assert!(matches!(K_BulletProof::from_bytes(&bad_k), Err(ProofError::FormatError)));
    let mut bad_scalar = bytes.clone();
    let last = bad_scalar.len() - 1;
    bad_scalar[last] = 0xff;
    assert!(matches!(K_BulletProof::from_bytes(&bad_scalar), Err(ProofError::FormatError)));
    let mut bad_point = bytes.clone();
    for b in bad_point[96..128].iter_mut() {
        *b = 0xff;
    }
    assert!(matches!(K_BulletProof::from_bytes(&bad_point), Err(ProofError::FormatError)));
    let mut bad_pad = bytes.clone();
    bad_pad[40] = 1;
    assert!(matches!(K_BulletProof::from_bytes(&bad_pad), Err(ProofError::FormatError)));
}

#[test]
fn batched_proof_round_trip() {
    let n = 12;
    let gens = BulletproofGens::new(n, 1);
    let g: Vec<RistrettoPoint> = gens.G_vec[0].clone();
    let c1: Vec<RistrettoPoint> = gens.H_vec[0][..10].to_vec();
    let mut t = Transcript::new(b"codec");
    let p = batched_eCP::create(&mut t, 3, &g, &c1, &scalars(n, 3), 2);
    let bytes = p.to_bytes();
    assert_eq!(bytes.len(), p.serialized_size());
    assert_eq!(bytes.len(), 32 * (3 + 2 * 2 * 4 + 2));
    let q = batched_eCP::from_bytes(&bytes).unwrap();
    assert_eq!(q.k, p.k);
    assert_eq!(q.A_vecs, p.A_vecs);
    assert_eq!(q.z, p.z);
    assert!(matches!(batched_eCP::from_bytes(&bytes[..bytes.len() - 32]), Err(ProofError::FormatError)));
}

#[test]
fn scalar_decoding_rejects_non_canonical() {
    let mut b = [0xffu8; 32];
    assert!(Scalar::from_canonical_bytes(b).is_none());
    b[31] = 0x10;
    assert!(Scalar::from_canonical_bytes(b).is_none());
    b[31] = 0x0f;
    assert!(Scalar::from_canonical_bytes(b).is_some());
    let s = Scalar::from_u64(123456789);
    assert_eq!(Scalar::from_canonical_bytes(s.to_bytes()), Some(s));
}
