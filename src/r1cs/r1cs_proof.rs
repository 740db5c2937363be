//! The aggregated proof object and its encoding.
use vstd::prelude::*;
use crate::batched_ecp::{batched_eCP, lemma_batched_round_trip, valid_batched_encoding, BatchedModel};
use crate::bytes::{lemma_u64_le_inverse, join_words, lemma_join_words_prefix, lemma_join_words_word, le_u64, lemma_u64_round_trip, push_all, read32, read_u64, u64_le, u64_le_bytes};
use crate::errors::ProofError;
use crate::k_bullet::{lemma_k_round_trip, valid_k_encoding, KBulletModel, K_BulletProof};
use crate::point::CompressedPoint;
use crate::scalar::{group_order, le_value, Scalar};

verus! {

/// A proof of a constraint system: 13 commitments, 8 scalars, the k-ary folding
/// proof of the aggregated circuit relation, and the batched consistency proof.
#[derive(Clone, Debug)]
pub struct R1CSProof {
    pub A_I: CompressedPoint,
    pub A_O: CompressedPoint,
    pub S: CompressedPoint,
    pub T_1: CompressedPoint,
    pub T_2: CompressedPoint,
    pub T_3: CompressedPoint,
    pub T_4: CompressedPoint,
    pub T_5: CompressedPoint,
    pub T_6: CompressedPoint,
    pub t_x: Scalar,
    pub t_x_blinding: Scalar,
    pub e_blinding: Scalar,
    pub ipp_proof: K_BulletProof,
    pub S_prime: CompressedPoint,
    pub T_1_prime: CompressedPoint,
    pub S1_prime: CompressedPoint,
    pub S2_prime: CompressedPoint,
    pub tc_x: Scalar,
    pub tc_x_blinding: Scalar,
    pub ec_blinding: Scalar,
    pub t_cross: Scalar,
    pub r_blinding: Scalar,
    pub ecp_batched: batched_eCP,
}

/// The mathematical content of an [`R1CSProof`].
pub struct R1CSProofModel {
    pub points: Seq<CompressedPoint>,
    pub scalars: Seq<Scalar>,
    pub ipp: KBulletModel,
    pub ecp: BatchedModel,
}

/// Byte length of the fixed part: 13 points and 8 scalars (32 bytes each) and two
/// 8-byte lengths.
pub open spec fn fixed_len() -> int {
    688int
}

/// Whether `b` encodes a proof: 13 points, 8 canonical scalars, two lengths that
/// add up with the fixed part to the total, then a valid folding proof and a valid
/// consistency proof of exactly those lengths.
pub open spec fn valid_r1cs_encoding(b: Seq<u8>) -> bool {
    b.len() >= fixed_len() && {
        let l1 = le_u64(b.subrange(672, 680)) as int;
        let l2 = le_u64(b.subrange(680, 688)) as int;
        &&& forall|j: int| 13 <= j < 21 ==> le_value(#[trigger] b.subrange(32 * j, 32 * j + 32)) < group_order()
        &&& b.len() == fixed_len() + l1 + l2
        &&& valid_k_encoding(b.subrange(fixed_len(), fixed_len() + l1))
        &&& valid_batched_encoding(b.subrange(fixed_len() + l1, b.len() as int))
    }
}

impl View for R1CSProof {
    type V = R1CSProofModel;

    open spec fn view(&self) -> R1CSProofModel {
        R1CSProofModel {
            points: self.fixed_points(),
            scalars: self.fixed_scalars(),
            ipp: self.ipp_proof@,
            ecp: self.ecp_batched@,
        }
    }
}

impl R1CSProof {
    /// The 13 commitments in encoding order.
    pub open spec fn fixed_points(&self) -> Seq<CompressedPoint> {
        seq![
            self.A_I, self.A_O, self.S, self.T_1, self.T_2, self.T_3, self.T_4, self.T_5, self.T_6,
            self.S_prime, self.T_1_prime, self.S1_prime, self.S2_prime,
        ]
    }

    /// The 8 scalars in encoding order.
    pub open spec fn fixed_scalars(&self) -> Seq<Scalar> {
        seq![
            self.t_x, self.t_x_blinding, self.e_blinding, self.tc_x, self.tc_x_blinding,
            self.ec_blinding, self.t_cross, self.r_blinding,
        ]
    }

    /// Word `j` of the fixed part: points, then scalars.
    pub open spec fn fixed_word(&self, j: int) -> Seq<u8> {
        if j < 13 {
            self.fixed_points()[j].bytes@
        } else {
            self.fixed_scalars()[j - 13].bytes@
        }
    }

    /// The encoding: the 13 points, the 8 scalars, the lengths of the two embedded
    /// encodings (8 bytes each), then the two encodings.
    #[verifier::opaque]
    pub open spec fn encoding(&self) -> Seq<u8> {
        let e1 = self.ipp_proof.encoding();
        let e2 = self.ecp_batched.encoding();
        join_words(21, |j: int| self.fixed_word(j)) + u64_le(e1.len() as u64) + u64_le(e2.len() as u64) + e1 + e2
    }

    /// A valid proof: canonical scalars, valid embedded proofs, and an encoding
    /// whose length fits the machine.
    pub open spec fn wf(&self) -> bool {
        &&& forall|j: int| 0 <= j < 8 ==> (#[trigger] self.fixed_scalars()[j]).wf()
        &&& self.ipp_proof.wf()
        &&& self.ecp_batched.wf()
        &&& fixed_len() + self.ipp_proof.encoding().len() + self.ecp_batched.encoding().len() <= usize::MAX
    }

    /// Encodes the proof.
    pub fn to_bytes(&self) -> (r: Vec<u8>)
        requires
            self.ipp_proof.well_shaped(),
            self.ecp_batched.well_shaped(),
        ensures
            r@ == self.encoding(),
    {
        let ghost f = |j: int| self.fixed_word(j);
        let mut buf: Vec<u8> = Vec::new();
        let pts: [CompressedPoint; 13] = [
            self.A_I, self.A_O, self.S, self.T_1, self.T_2, self.T_3, self.T_4, self.T_5, self.T_6,
            self.S_prime, self.T_1_prime, self.S1_prime, self.S2_prime,
        ];
        let scs: [Scalar; 8] = [
            self.t_x, self.t_x_blinding, self.e_blinding, self.tc_x, self.tc_x_blinding,
            self.ec_blinding, self.t_cross, self.r_blinding,
        ];
        proof {
            assert(pts@ =~= self.fixed_points());
            assert(scs@ =~= self.fixed_scalars());
            assert(join_words(21, f).subrange(0, 0) =~= Seq::<u8>::empty());
        }
        let mut i: usize = 0;
        while i < 13
            invariant
                i <= 13,
                pts@ == self.fixed_points(),
                f == (|j: int| self.fixed_word(j)),
                buf@ == join_words(21, f).subrange(0, 32 * i),
            decreases 13 - i,
        {
            proof {
                lemma_join_words_prefix(21, f, i as int);
            }
            push_all(&mut buf, pts[i].bytes.as_slice());
            i = i + 1;
        }
        let mut i: usize = 0;
        while i < 8
            invariant
                i <= 8,
                scs@ == self.fixed_scalars(),
                f == (|j: int| self.fixed_word(j)),
                buf@ == join_words(21, f).subrange(0, 32 * (13 + i)),
            decreases 8 - i,
        {
            proof {
                lemma_join_words_prefix(21, f, 13 + i);
            }
            push_all(&mut buf, scs[i].bytes.as_slice());
            i = i + 1;
        }
        proof {
            assert(join_words(21, f).subrange(0, 672int) =~= join_words(21, f));
        }
        let ipp_bytes = self.ipp_proof.to_bytes();
        let ecp_bytes = self.ecp_batched.to_bytes();
        let l1 = u64_le_bytes(ipp_bytes.len() as u64);
        let l2 = u64_le_bytes(ecp_bytes.len() as u64);
        push_all(&mut buf, l1.as_slice());
        push_all(&mut buf, l2.as_slice());
        push_all(&mut buf, ipp_bytes.as_slice());
        push_all(&mut buf, ecp_bytes.as_slice());
        proof {
            reveal(R1CSProof::encoding);
        }
        buf
    }

    /// Decodes a proof. Succeeds exactly on the encodings of valid proofs (see
    /// [`valid_r1cs_encoding`]): no trailing or missing bytes; anything else is a
    /// `FormatError`.
    #[verifier::rlimit(30)]
    pub fn from_bytes(slice: &[u8]) -> (r: Result<R1CSProof, ProofError>)
        ensures
            r.is_ok() == valid_r1cs_encoding(slice@),
            r matches Ok(p) ==> p.wf() && p.encoding() == slice@,
            r matches Err(e) ==> e == ProofError::FormatError,
    {
        let b = slice.len();
        if b < 688 {
            return Err(ProofError::FormatError);
        }
        let ghost bs = slice@;
        let mut pts: Vec<CompressedPoint> = Vec::new();
        let mut i: usize = 0;
        while i < 13
            invariant
                bs == slice@,
                b == bs.len(),
                b >= 688,
                i <= 13,
                pts@.len() == i,
                forall|j: int| 0 <= j < i ==> (#[trigger] pts@[j]).bytes@ == bs.subrange(32 * j, 32 * j + 32),
            decreases 13 - i,
        {
            pts.push(CompressedPoint { bytes: read32(slice, 32 * i) });
            i = i + 1;
        }
        let mut scs: Vec<Scalar> = Vec::new();
        let mut i: usize = 0;
        while i < 8
            invariant
                bs == slice@,
                b == bs.len(),
                b >= 688,
                i <= 8,
                scs@.len() == i,
                forall|j: int| 0 <= j < i ==> (#[trigger] scs@[j]).bytes@ == bs.subrange(32 * (13 + j), 32 * (13 + j) + 32) && scs@[j].wf(),
                forall|j: int| 13 <= j < 13 + i ==> le_value(#[trigger] bs.subrange(32 * j, 32 * j + 32)) < group_order(),
            decreases 8 - i,
        {
            let bytes = read32(slice, 32 * (13 + i));
            match Scalar::from_canonical_bytes(bytes) {
                Some(sc) => {
                    scs.push(sc);
                },
                None => {
                    proof {
                        let j = 13 + i;
                        assert(bs.subrange(32 * j, 32 * j + 32) == bytes@);
                    }
                    return Err(ProofError::FormatError);
                },
            }
            i = i + 1;
        }
        let l1 = read_u64(slice, 672);
        let l2 = read_u64(slice, 680);
        if l1 > (b - 688) as u64 {
            return Err(ProofError::FormatError);
        }
        let n1 = l1 as usize;
        if l2 != (b - 688 - n1) as u64 {
            return Err(ProofError::FormatError);
        }
        let ipp_proof = match K_BulletProof::from_bytes(&slice[688..688 + n1]) {
            Ok(p) => p,
            Err(_) => {
                return Err(ProofError::FormatError);
            },
        };
        let ecp_batched = match batched_eCP::from_bytes(&slice[688 + n1..b]) {
            Ok(p) => p,
            Err(_) => {
                return Err(ProofError::FormatError);
            },
        };
        let p = R1CSProof {
            A_I: pts[0],
            A_O: pts[1],
            S: pts[2],
            T_1: pts[3],
            T_2: pts[4],
            T_3: pts[5],
            T_4: pts[6],
            T_5: pts[7],
            T_6: pts[8],
            t_x: scs[0],
            t_x_blinding: scs[1],
            e_blinding: scs[2],
            ipp_proof,
            S_prime: pts[9],
            T_1_prime: pts[10],
            S1_prime: pts[11],
            S2_prime: pts[12],
            tc_x: scs[3],
            tc_x_blinding: scs[4],
            ec_blinding: scs[5],
            t_cross: scs[6],
            r_blinding: scs[7],
            ecp_batched,
        };
        proof {
            assert(p.fixed_points() =~= pts@);
            assert(p.fixed_scalars() =~= scs@);
            lemma_decoded_encoding(p, bs, n1 as int);
        }
        Ok(p)
    }
}

proof fn lemma_decoded_encoding(p: R1CSProof, bs: Seq<u8>, n1: int)
    requires
        bs.len() >= 688,
        0 <= n1 <= bs.len() - 688,
        forall|j: int| 0 <= j < 13 ==> (#[trigger] p.fixed_points()[j]).bytes@ == bs.subrange(32 * j, 32 * j + 32),
        forall|j: int| 0 <= j < 8 ==> (#[trigger] p.fixed_scalars()[j]).bytes@ == bs.subrange(32 * (13 + j), 32 * (13 + j) + 32),
        le_u64(bs.subrange(672, 680)) == n1,
        le_u64(bs.subrange(680, 688)) == bs.len() - 688 - n1,
        p.ipp_proof.encoding() == bs.subrange(688, 688 + n1),
        p.ecp_batched.encoding() == bs.subrange(688 + n1, bs.len() as int),
    ensures
        p.encoding() == bs,
{
    reveal(R1CSProof::encoding);
    let f = |j: int| p.fixed_word(j);
    let jw = join_words(21, f);
    assert forall|t: int| 0 <= t < 672 implies jw[t] == bs[t] by {
        let j = t / 32;
        if j < 13 {
            assert(p.fixed_word(j) == bs.subrange(32 * j, 32 * j + 32));
        } else {
            assert(p.fixed_word(j) == bs.subrange(32 * (13 + (j - 13)), 32 * (13 + (j - 13)) + 32));
        }
    }
    assert(jw =~= bs.subrange(0, 672));
    lemma_u64_le_inverse(bs.subrange(672, 680));
    lemma_u64_le_inverse(bs.subrange(680, 688));
    assert(bs =~= bs.subrange(0, 672) + bs.subrange(672, 680) + bs.subrange(680, 688) + bs.subrange(688, 688 + n1)
        + bs.subrange(688 + n1, bs.len() as int));
}

/// Encoding then decoding gives back the proof: the encoding of a valid proof is
/// one that [`R1CSProof::from_bytes`] accepts, and no other valid proof has the same
/// encoding.
pub proof fn lemma_r1cs_round_trip(p: R1CSProof, q: R1CSProof)
    requires
        p.wf(),
    ensures
        valid_r1cs_encoding(p.encoding()),
        q.wf() && q.encoding() == p.encoding() ==> q@ == p@,
{
    reveal(R1CSProof::encoding);
    let enc = p.encoding();
    let e1 = p.ipp_proof.encoding();
    let e2 = p.ecp_batched.encoding();
    let f = |j: int| p.fixed_word(j);
    let jw = join_words(21, f);
    lemma_u64_round_trip(e1.len() as u64);
    lemma_u64_round_trip(e2.len() as u64);
    assert(enc.subrange(672, 680) =~= u64_le(e1.len() as u64));
    assert(enc.subrange(680, 688) =~= u64_le(e2.len() as u64));
    assert(enc.subrange(688, 688 + e1.len() as int) =~= e1);
    assert(enc.subrange(688 + e1.len() as int, enc.len() as int) =~= e2);
    lemma_k_round_trip(p.ipp_proof, p.ipp_proof);
    lemma_batched_round_trip(p.ecp_batched, p.ecp_batched);
    assert forall|j: int| 13 <= j < 21 implies le_value(#[trigger] enc.subrange(32 * j, 32 * j + 32)) < group_order() by {
        lemma_join_words_word(21, f, j);
        assert(enc.subrange(32 * j, 32 * j + 32) =~= jw.subrange(32 * j, 32 * j + 32));
        assert(p.fixed_scalars()[j - 13].wf());
    }
    if q.wf() && q.encoding() == p.encoding() {
        let g = |j: int| q.fixed_word(j);
        let qe1 = q.ipp_proof.encoding();
        lemma_u64_round_trip(qe1.len() as u64);
        assert(enc.subrange(672, 680) =~= u64_le(qe1.len() as u64));
        assert(qe1.len() == e1.len());
        assert(enc.subrange(688, 688 + e1.len() as int) =~= qe1);
        assert(enc.subrange(688 + e1.len() as int, enc.len() as int) =~= q.ecp_batched.encoding());
        lemma_k_round_trip(p.ipp_proof, q.ipp_proof);
        lemma_batched_round_trip(p.ecp_batched, q.ecp_batched);
        assert forall|j: int| 0 <= j < 21 implies #[trigger] q.fixed_word(j) == p.fixed_word(j) by {
            lemma_join_words_word(21, f, j);
            lemma_join_words_word(21, g, j);
            assert(enc.subrange(32 * j, 32 * j + 32) =~= jw.subrange(32 * j, 32 * j + 32));
            assert(enc.subrange(32 * j, 32 * j + 32) =~= join_words(21, g).subrange(32 * j, 32 * j + 32));
        }
        assert forall|j: int| 0 <= j < 13 implies q.fixed_points()[j] == p.fixed_points()[j] by {
            assert(q.fixed_word(j) == p.fixed_word(j));
            assert(q.fixed_points()[j].bytes =~= p.fixed_points()[j].bytes);
        }
        assert forall|j: int| 0 <= j < 8 implies q.fixed_scalars()[j] == p.fixed_scalars()[j] by {
            assert(q.fixed_word(13 + j) == p.fixed_word(13 + j));
            assert(q.fixed_scalars()[j].bytes =~= p.fixed_scalars()[j].bytes);
        }
        assert(q.fixed_points() =~= p.fixed_points());
        assert(q.fixed_scalars() =~= p.fixed_scalars());
    }
}

} // verus!
