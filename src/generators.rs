//! Public generators: deterministic, domain-separated group elements.
use vstd::prelude::*;
use vstd::string::StringSliceAdditionalSpecFns;
use crate::point::{from_uniform_bytes, msm_ct, msm_ct_of};
use crate::scalar::Scalar;
use curve25519_dalek::ristretto::RistrettoPoint;
use merlin::Transcript;

verus! {

/// Relies on merlin's `Transcript::new`: a fresh transcript under a label.
#[verifier::external_body]
fn new_transcript(label: &'static str) -> (r: Transcript)
{
    Transcript::new(label.as_bytes())
}

/// The next 64 bytes of the chain.
fn squeeze(t: &mut Transcript) -> (r: [u8; 64])
{
    let mut buf = [0u8; 64];
    crate::transcript::challenge_bytes(t, "generator", &mut buf);
    buf
}

/// Relies on curve25519-dalek's `RISTRETTO_BASEPOINT_POINT`.
#[verifier::external_body]
fn basepoint() -> (r: RistrettoPoint)
{
    curve25519_dalek::constants::RISTRETTO_BASEPOINT_POINT
}

/// `n` points of the chain named `label` for party `party`.
fn chain_points(label: &'static str, party: u64, n: usize) -> (r: Vec<RistrettoPoint>)
    requires
        label.spec_bytes().len() <= 16,
    ensures
        r@.len() == n,
{
    let mut t = new_transcript("kfold generators");
    crate::transcript::append_message(&mut t, "chain", label.as_bytes());
    crate::transcript::append_u64(&mut t, "party", party);
    let mut r: Vec<RistrettoPoint> = Vec::new();
    let mut i: usize = 0;
    while i < n
        invariant
            i <= n,
            r@.len() == i,
        decreases n - i,
    {
        let bytes = squeeze(&mut t);
        r.push(from_uniform_bytes(&bytes));
        i = i + 1;
    }
    r
}

/// The two bases of Pedersen commitments: `B` for values, `B_blinding` for blindings.
#[derive(Clone, Copy)]
pub struct PedersenGens {
    pub B: RistrettoPoint,
    pub B_blinding: RistrettoPoint,
}

impl PedersenGens {
    /// The Ristretto basepoint and a point derived from a labelled chain.
    pub fn new() -> (r: PedersenGens)
    {
        let b = basepoint();
        proof {
            reveal_strlit("B_blinding");
            vstd::string::is_ascii_spec_bytes("B_blinding");
        }
        let bb = chain_points("B_blinding", 0, 1);
        PedersenGens { B: b, B_blinding: bb[0] }
    }

    /// `value * B + blinding * B_blinding`.
    pub fn commit(&self, value: &Scalar, blinding: &Scalar) -> (r: RistrettoPoint)
        ensures
            r == msm_ct_of(seq![value.val() % crate::scalar::group_order(), blinding.val() % crate::scalar::group_order()],
                seq![self.B, self.B_blinding]),
    {
        let sc = vec![*value, *blinding];
        let pt = vec![self.B, self.B_blinding];
        proof {
            assert(crate::point::scalar_ints(sc@) =~= seq![value.val() % crate::scalar::group_order(), blinding.val() % crate::scalar::group_order()]);
            assert(pt@ =~= seq![self.B, self.B_blinding]);
        }
        msm_ct(sc.as_slice(), pt.as_slice())
    }
}

/// Vector generators `G` and `H`: `gens_capacity` of each for every party.
#[derive(Clone)]
pub struct BulletproofGens {
    pub gens_capacity: usize,
    pub party_capacity: usize,
    pub G_vec: Vec<Vec<RistrettoPoint>>,
    pub H_vec: Vec<Vec<RistrettoPoint>>,
}

impl BulletproofGens {
    /// One vector of `gens_capacity` for each party, for `G` and for `H`.
    pub open spec fn wf(&self) -> bool {
        &&& self.G_vec@.len() == self.party_capacity
        &&& self.H_vec@.len() == self.party_capacity
        &&& forall|j: int| 0 <= j < self.party_capacity ==> (#[trigger] self.G_vec@[j])@.len() == self.gens_capacity
        &&& forall|j: int| 0 <= j < self.party_capacity ==> (#[trigger] self.H_vec@[j])@.len() == self.gens_capacity
    }

    /// Derives the generators.
    pub fn new(gens_capacity: usize, party_capacity: usize) -> (r: BulletproofGens)
        ensures
            r.wf(),
            r.gens_capacity == gens_capacity,
            r.party_capacity == party_capacity,
    {
        let mut G_vec: Vec<Vec<RistrettoPoint>> = Vec::new();
        let mut H_vec: Vec<Vec<RistrettoPoint>> = Vec::new();
        let mut j: usize = 0;
        while j < party_capacity
            invariant
                j <= party_capacity,
                G_vec@.len() == j,
                H_vec@.len() == j,
                forall|q: int| 0 <= q < j ==> (#[trigger] G_vec@[q])@.len() == gens_capacity,
                forall|q: int| 0 <= q < j ==> (#[trigger] H_vec@[q])@.len() == gens_capacity,
            decreases party_capacity - j,
        {
            proof {
                reveal_strlit("G");
                vstd::string::is_ascii_spec_bytes("G");
                reveal_strlit("H");
                vstd::string::is_ascii_spec_bytes("H");
            }
            G_vec.push(chain_points("G", j as u64, gens_capacity));
            H_vec.push(chain_points("H", j as u64, gens_capacity));
            j = j + 1;
        }
        BulletproofGens { gens_capacity, party_capacity, G_vec, H_vec }
    }
}

} // verus!
