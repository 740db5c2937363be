//! The generalized k-ary folding argument over a pair of vectors.
use vstd::prelude::*;
use vstd::string::StringSliceAdditionalSpecFns;
use vstd::arithmetic::div_mod::{lemma_fundamental_div_mod, lemma_fundamental_div_mod_converse_div, lemma_fundamental_div_mod_converse_mod};
use crate::bytes::{u64_le_bytes, word_matches, join_words, lemma_join_words_prefix, lemma_join_words_word, le_u64, lemma_u64_round_trip, push_all, push_u64_word, read32, read_u64, u64_word};
use crate::errors::ProofError;
use crate::point::{decompress, decompresses, CompressedPoint};
use crate::scalar::{field_inverse, fmul, fneg, fpow, group_order, inner_product, inner_product_spec, le_value, scalar_pow, Scalar};
use crate::fold::{append_block, expand_backward, expandable, expanded, fold_blocks, fold_vals, lemma_block_comb_pad, pad_to, pad_val, powers, scaled_pow, scaled_powers, suffix_prod, suffix_products, vals_of};
use crate::point::{compress, compress_of, decompress_of, identity, is_identity, is_identity_of, msm, msm_of, scalar_ints};
use crate::rounds::{fold_len, lemma_fold_len_le, lemma_fold_len_step, reconstruct_round_lengths, round_lens};
use crate::transcript::{append_message, challenge_scalar, commit_point};
use curve25519_dalek::ristretto::RistrettoPoint;
use merlin::Transcript;

verus! {

/// A k-ary folding proof: `d` rounds of `2k - 2` cross-term points, and the two
/// folded vectors of length `m`.
#[derive(Clone, Debug)]
pub struct K_BulletProof {
    pub k: usize,
    pub U_vecs: Vec<Vec<CompressedPoint>>,
    pub a_final: Vec<Scalar>,
    pub b_final: Vec<Scalar>,
}

/// The mathematical content of a [`K_BulletProof`].
pub struct KBulletModel {
    pub k: nat,
    pub rounds: Seq<Seq<CompressedPoint>>,
    pub a_final: Seq<Scalar>,
    pub b_final: Seq<Scalar>,
}

impl View for K_BulletProof {
    type V = KBulletModel;

    open spec fn view(&self) -> KBulletModel {
        KBulletModel {
            k: self.k as nat,
            rounds: self.U_vecs@.map_values(|v: Vec<CompressedPoint>| v@),
            a_final: self.a_final@,
            b_final: self.b_final@,
        }
    }
}

/// The header field at word `j` of an encoding.
pub open spec fn header_at(b: Seq<u8>, j: int) -> int {
    le_u64(b.subrange(32 * j, 32 * j + 8)) as int
}

/// Whether `b` is the encoding of a valid k-ary folding proof: a header `k >= 2`,
/// `d`, `m`, exactly `d * (2k - 2)` decompressable points and `2m` canonical scalars.
#[verifier::opaque]
pub open spec fn valid_k_encoding(b: Seq<u8>) -> bool {
    b.len() >= 96 && {
        let k = header_at(b, 0);
        let d = header_at(b, 1);
        let m = header_at(b, 2);
        let np = d * (2 * k - 2);
        &&& forall|j: int| 0 <= j < 3 ==> #[trigger] b.subrange(32 * j, 32 * j + 32) == u64_word(header_at(b, j) as u64)
        &&& k >= 2
        &&& k <= usize::MAX && d <= usize::MAX && m <= usize::MAX
        &&& b.len() == 32 * (3 + np + 2 * m)
        &&& forall|j: int| 3 <= j < 3 + np ==> decompresses(#[trigger] b.subrange(32 * j, 32 * j + 32))
        &&& forall|j: int|
            3 + np <= j < 3 + np + 2 * m ==> le_value(#[trigger] b.subrange(32 * j, 32 * j + 32))
                < group_order()
    }
}

/// The three header words of `b` hold `k`, `d`, `m`, zero-padded.
pub open spec fn header_is(b: Seq<u8>, k: u64, d: u64, m: u64) -> bool {
    &&& b.len() >= 96
    &&& header_at(b, 0) == k && header_at(b, 1) == d && header_at(b, 2) == m
    &&& b.subrange(0, 32) == u64_word(k)
    &&& b.subrange(32, 64) == u64_word(d)
    &&& b.subrange(64, 96) == u64_word(m)
}

impl K_BulletProof {
    /// Points per round.
    pub open spec fn width(&self) -> int {
        2 * self.k - 2
    }

    /// Number of stored points.
    pub open spec fn num_points(&self) -> int {
        self.U_vecs@.len() * self.width()
    }

    /// Every round holds `2k - 2` points and the folded vectors have one length.
    pub open spec fn well_shaped(&self) -> bool {
        &&& self.k >= 1
        &&& forall|r: int| 0 <= r < self.U_vecs@.len() ==> (#[trigger] self.U_vecs@[r])@.len() == self.width()
        &&& self.b_final@.len() == self.a_final@.len()
    }

    /// The stored point with flat index `j` (round-major).
    pub open spec fn point_at(&self, j: int) -> CompressedPoint {
        self.U_vecs@[j / self.width()]@[j % self.width()]
    }

    /// Word `j` of the encoding.
    pub open spec fn word(&self, j: int) -> Seq<u8> {
        let np = self.num_points();
        let m = self.a_final@.len() as int;
        if j == 0 {
            u64_word(self.k as u64)
        } else if j == 1 {
            u64_word(self.U_vecs@.len() as u64)
        } else if j == 2 {
            u64_word(m as u64)
        } else if j < 3 + np {
            self.point_at(j - 3).bytes@
        } else if j < 3 + np + m {
            self.a_final@[j - 3 - np].bytes@
        } else {
            self.b_final@[j - 3 - np - m].bytes@
        }
    }

    /// Number of 32-byte words in the encoding.
    pub open spec fn num_words(&self) -> int {
        3 + self.num_points() + 2 * self.a_final@.len()
    }

    /// The encoding: `k`, `d`, `m` as padded words, the points round by round, then
    /// `a_final` and `b_final`.
    #[verifier::opaque]
    pub open spec fn encoding(&self) -> Seq<u8> {
        join_words(self.num_words() as nat, |j: int| self.word(j))
    }

    /// A valid proof: well shaped, `k >= 2`, every point decompressable, every scalar canonical.
    pub open spec fn wf(&self) -> bool {
        &&& self.well_shaped()
        &&& self.k >= 2
        &&& self.U_vecs@.len() <= usize::MAX
        &&& self.a_final@.len() <= usize::MAX
        &&& forall|j: int| 0 <= j < self.num_points() ==> decompresses(#[trigger] self.point_at(j).bytes@)
        &&& forall|j: int| 0 <= j < self.a_final@.len() ==> (#[trigger] self.a_final@[j]).wf()
        &&& forall|j: int| 0 <= j < self.b_final@.len() ==> (#[trigger] self.b_final@[j]).wf()
    }

    /// Size in bytes of the encoding.
    pub fn serialized_size(&self) -> (r: usize)
        requires
            self.well_shaped(),
            32 * self.num_words() <= usize::MAX,
        ensures
            r == 32 * self.num_words(),
    {
        let d = self.U_vecs.len();
        let m = self.a_final.len();
        let ghost w = self.width();
        proof {
            assert(d * w >= 0 && (d > 0 ==> w <= d * w) && (d == 0 ==> d * w == 0)) by (nonlinear_arith)
                requires
                    d >= 0,
                    w >= 0,
            ;
        }
        let num_points = if d > 0 { d * (2 * self.k - 2) } else { 0 };
        proof {
            assert(num_points == d * w);
        }
        (3 + num_points + 2 * m) * 32
    }

    /// Encodes the proof.
    pub fn to_bytes(&self) -> (r: Vec<u8>)
        requires
            self.well_shaped(),
        ensures
            r@ == self.encoding(),
    {
        proof {
            reveal(K_BulletProof::encoding);
            reveal(valid_k_encoding);
            reveal(K_BulletProof::encoding);
        }
        let ghost enc = self.encoding();
        let ghost f = |j: int| self.word(j);
        let ghost nw = self.num_words() as nat;
        let d = self.U_vecs.len();
        let m = self.a_final.len();
        let mut buf: Vec<u8> = Vec::new();
        proof {
            reveal(K_BulletProof::encoding);
            reveal(valid_k_encoding);
            assert(self.num_points() >= 0) by (nonlinear_arith)
                requires
                    self.num_points() == self.U_vecs@.len() * self.width(),
                    self.width() >= 0,
            ;
            lemma_join_words_prefix(nw, f, 0);
            lemma_join_words_prefix(nw, f, 1);
            lemma_join_words_prefix(nw, f, 2);
            assert(enc.subrange(0, 0) =~= Seq::<u8>::empty());
        }
        push_u64_word(&mut buf, self.k as u64);
        push_u64_word(&mut buf, d as u64);
        push_u64_word(&mut buf, m as u64);
        let mut r: usize = 0;
        while r < d
            invariant
                self.well_shaped(),
                d == self.U_vecs@.len(),
                m == self.a_final@.len(),
                enc == self.encoding(),
                nw == self.num_words(),
                f == (|j: int| self.word(j)),
                self.num_points() >= 0,
                r <= d,
                buf@ == enc.subrange(0, 32 * (3 + r * self.width())),
            decreases d - r,
        {
            let round = &self.U_vecs[r];
            let mut i: usize = 0;
            while i < round.len()
                invariant
                    self.well_shaped(),
                    d == self.U_vecs@.len(),
                    m == self.a_final@.len(),
                    enc == self.encoding(),
                    nw == self.num_words(),
                    f == (|j: int| self.word(j)),
                    self.num_points() >= 0,
                    r < d,
                    round@ == self.U_vecs@[r as int]@,
                    i <= round@.len(),
                    buf@ == enc.subrange(0, 32 * (3 + r * self.width() + i)),
                decreases round@.len() - i,
            {
                proof {
                    reveal(K_BulletProof::encoding);
                    reveal(valid_k_encoding);
                    let w = self.width();
                    let j = r * w + i;
                    assert(j < self.num_points()) by (nonlinear_arith)
                        requires
                            j == r * w + i,
                            i < w,
                            r < d,
                            self.num_points() == d * w,
                    ;
                    lemma_fundamental_div_mod_converse_div(j, w, r as int, i as int);
                    lemma_fundamental_div_mod_converse_mod(j, w, r as int, i as int);
                    assert(self.point_at(j) == round@[i as int]);
                    lemma_join_words_prefix(nw, f, 3 + j);
                }
                push_all(&mut buf, round[i].bytes.as_slice());
                i = i + 1;
            }
            proof {
                reveal(K_BulletProof::encoding);
                reveal(valid_k_encoding);
                assert(r * self.width() + self.width() == (r + 1) * self.width()) by (nonlinear_arith);
            }
            r = r + 1;
        }
        let ghost np = self.num_points();
        let mut i: usize = 0;
        while i < m
            invariant
                self.well_shaped(),
                m == self.a_final@.len(),
                enc == self.encoding(),
                nw == self.num_words(),
                f == (|j: int| self.word(j)),
                np == self.num_points(),
                np >= 0,
                i <= m,
                buf@ == enc.subrange(0, 32 * (3 + np + i)),
            decreases m - i,
        {
            proof {
                reveal(K_BulletProof::encoding);
                reveal(valid_k_encoding);
                lemma_join_words_prefix(nw, f, 3 + np + i);
            }
            push_all(&mut buf, self.a_final[i].bytes.as_slice());
            i = i + 1;
        }
        let mut i: usize = 0;
        while i < m
            invariant
                self.well_shaped(),
                m == self.a_final@.len(),
                m == self.b_final@.len(),
                enc == self.encoding(),
                nw == self.num_words(),
                f == (|j: int| self.word(j)),
                np == self.num_points(),
                np >= 0,
                i <= m,
                buf@ == enc.subrange(0, 32 * (3 + np + m + i)),
            decreases m - i,
        {
            proof {
                reveal(K_BulletProof::encoding);
                reveal(valid_k_encoding);
                lemma_join_words_prefix(nw, f, 3 + np + m + i);
            }
            push_all(&mut buf, self.b_final[i].bytes.as_slice());
            i = i + 1;
        }
        proof {
            reveal(K_BulletProof::encoding);
            reveal(valid_k_encoding);
            assert(buf@ =~= enc);
        }
        buf
    }

    /// Decodes a proof. Succeeds exactly on the encodings of valid proofs
    /// (see [`valid_k_encoding`]); anything else is a `FormatError`.
    #[verifier::rlimit(100)]
    pub fn from_bytes(slice: &[u8]) -> (r: Result<K_BulletProof, ProofError>)
        ensures
            r.is_ok() == valid_k_encoding(slice@),
            r matches Ok(p) ==> p.wf() && p.encoding() == slice@,
            r matches Err(e) ==> e == ProofError::FormatError,
    {
        proof {
            reveal(valid_k_encoding);
            reveal(valid_k_encoding);
        }
        let b = slice.len();
        if b < 96 || b % 32 != 0 {
            return Err(ProofError::FormatError);
        }
        let k64 = read_u64(slice, 0);
        let d64 = read_u64(slice, 32);
        let m64 = read_u64(slice, 64);
        let ghost bs = slice@;
        proof {
            reveal(valid_k_encoding);
            assert(header_at(bs, 0) == k64);
            assert(header_at(bs, 1) == d64);
            assert(header_at(bs, 2) == m64);
        }
        if !word_matches(slice, 0, k64) || !word_matches(slice, 32, d64) || !word_matches(slice, 64, m64) {
            proof {
                reveal(valid_k_encoding);
                if valid_k_encoding(bs) {
                    assert(bs.subrange(32 * 0int, 32 * 0int + 32) == u64_word(header_at(bs, 0) as u64));
                    assert(bs.subrange(32 * 1int, 32 * 1int + 32) == u64_word(header_at(bs, 1) as u64));
                    assert(bs.subrange(32 * 2int, 32 * 2int + 32) == u64_word(header_at(bs, 2) as u64));
                }
            }
            return Err(ProofError::FormatError);
        }
        if k64 < 2 || k64 > usize::MAX as u64 || d64 > usize::MAX as u64 || m64 > usize::MAX as u64 {
            return Err(ProofError::FormatError);
        }
        let words: u64 = (b / 32 - 3) as u64;
        proof {
            reveal(valid_k_encoding);
            assert(b == 32 * (3 + words));
        }
        if m64 > words / 2 {
            proof {
                reveal(valid_k_encoding);
                if valid_k_encoding(bs) {
                    assert(d64 * (2 * k64 - 2) >= 0) by (nonlinear_arith)
                        requires
                            d64 >= 0,
                            k64 >= 2,
                    ;
                }
            }
            return Err(ProofError::FormatError);
        }
        let rest: u64 = words - 2 * m64;
        proof {
            reveal(valid_k_encoding);
            assert(header_is(bs, k64, d64, m64));
        }
        let ghost w_int: int = 2 * k64 - 2;
        let shape_ok = if d64 == 0 {
            rest == 0
        } else {
            rest % d64 == 0 && (rest / d64) % 2 == 0 && (rest / d64) / 2 == k64 - 1
        };
        proof {
            reveal(valid_k_encoding);
            if d64 == 0 {
                assert(d64 * w_int == 0);
            } else {
                if rest == d64 * w_int {
                    lemma_fundamental_div_mod_converse_div(rest as int, d64 as int, w_int, 0);
                    lemma_fundamental_div_mod_converse_mod(rest as int, d64 as int, w_int, 0);
                    assert(d64 * w_int == w_int * d64 + 0) by (nonlinear_arith);
                }
                if shape_ok {
                    vstd::arithmetic::div_mod::lemma_fundamental_div_mod(rest as int, d64 as int);
                    assert(rest == d64 * w_int) by (nonlinear_arith)
                        requires
                            rest == d64 * (rest / d64) + rest % d64,
                            rest % d64 == 0,
                            rest / d64 == w_int,
                    ;
                }
            }
            assert(shape_ok == (rest == d64 * w_int));
        }
        if !shape_ok {
            return Err(ProofError::FormatError);
        }
        let k = k64 as usize;
        let d = d64 as usize;
        let m = m64 as usize;
        let w: usize = if d > 0 { 2 * k - 2 } else { 0 };
        proof {
            reveal(valid_k_encoding);
            if d > 0 {
                assert(w_int <= d64 * w_int) by (nonlinear_arith)
                    requires
                        d64 >= 1,
                        w_int >= 0,
                ;
            }
        }
        let ghost np: int = d * w_int;
        proof {
            reveal(valid_k_encoding);
            assert(b == 32 * (3 + np + 2 * m));
        }
        let mut U_vecs: Vec<Vec<CompressedPoint>> = Vec::new();
        let mut pos: usize = 96;
        let mut r: usize = 0;
        while r < d
            invariant
                bs == slice@,
                b == bs.len(),
                header_is(bs, k64, d64, m64),
                k == k64 && d == d64 && m == m64,
                w_int == 2 * k64 - 2,
                k64 >= 2,
                b == 32 * (3 + np + 2 * m),
                d > 0 ==> w == w_int,
                w_int >= 2,
                np == d * w_int,
                r <= d,
                pos == 32 * (3 + r * w_int),
                U_vecs@.len() == r,
                forall|rr: int| 0 <= rr < r ==> (#[trigger] U_vecs@[rr])@.len() == w_int,
                forall|rr: int, ii: int|
                    0 <= rr < r && 0 <= ii < w_int ==> (#[trigger] U_vecs@[rr]@[ii]).bytes@ == bs.subrange(
                        32 * (3 + rr * w_int + ii),
                        32 * (3 + rr * w_int + ii) + 32,
                    ) && decompresses(U_vecs@[rr]@[ii].bytes@),
                forall|j: int| 3 <= j < 3 + r * w_int ==> decompresses(#[trigger] bs.subrange(32 * j, 32 * j + 32)),
            decreases d - r,
        {
            let mut round: Vec<CompressedPoint> = Vec::new();
            let mut i: usize = 0;
            while i < w
                invariant
                    bs == slice@,
                    b == bs.len(),
                    header_is(bs, k64, d64, m64),
                    k == k64 && d == d64 && m == m64,
                    w_int == 2 * k64 - 2,
                    k64 >= 2,
                    b == 32 * (3 + np + 2 * m),
                    w == w_int,
                    w_int >= 2,
                    np == d * w_int,
                    r < d,
                    i <= w,
                    pos == 32 * (3 + r * w_int + i),
                    round@.len() == i,
                    forall|ii: int|
                        0 <= ii < i ==> (#[trigger] round@[ii]).bytes@ == bs.subrange(
                            32 * (3 + r * w_int + ii),
                            32 * (3 + r * w_int + ii) + 32,
                        ) && decompresses(round@[ii].bytes@),
                    forall|j: int| 3 <= j < 3 + r * w_int + i ==> decompresses(#[trigger] bs.subrange(32 * j, 32 * j + 32)),
                decreases w - i,
            {
                proof {
                    reveal(valid_k_encoding);
                    assert(r * w_int + i < np) by (nonlinear_arith)
                        requires
                            i < w_int,
                            r < d,
                            np == d * w_int,
                    ;
                }
                let cp = CompressedPoint { bytes: read32(slice, pos) };
                if decompress(&cp).is_none() {
                    proof {
                        reveal(valid_k_encoding);
                        let j = 3 + r * w_int + i;
                        assert(bs.subrange(32 * j, 32 * j + 32) == cp.bytes@);
                    }
                    return Err(ProofError::FormatError);
                }
                round.push(cp);
                pos = pos + 32;
                i = i + 1;
            }
            U_vecs.push(round);
            proof {
                reveal(valid_k_encoding);
                assert(r * w_int + w_int == (r + 1) * w_int) by (nonlinear_arith);
            }
            r = r + 1;
        }
        proof {
            reveal(valid_k_encoding);
            if d == 0 {
                assert(r * w_int == 0);
            }
            assert(pos == 32 * (3 + np));
        }
        let mut a_final: Vec<Scalar> = Vec::new();
        let mut i: usize = 0;
        while i < m
            invariant
                bs == slice@,
                b == bs.len(),
                header_is(bs, k64, d64, m64),
                k == k64 && d == d64 && m == m64,
                w_int == 2 * k64 - 2,
                k64 >= 2,
                header_is(bs, k64, d64, m64),
                k == k64 && d == d64 && m == m64,
                w_int == 2 * k64 - 2,
                k64 >= 2,
                np == d * w_int,
                b == 32 * (3 + np + 2 * m),
                i <= m,
                pos == 32 * (3 + np + i),
                a_final@.len() == i,
                forall|ii: int|
                    0 <= ii < i ==> (#[trigger] a_final@[ii]).bytes@ == bs.subrange(
                        32 * (3 + np + ii),
                        32 * (3 + np + ii) + 32,
                    ) && a_final@[ii].wf(),
                forall|j: int|
                    3 + np <= j < 3 + np + i ==> le_value(#[trigger] bs.subrange(32 * j, 32 * j + 32)) < group_order(),
            decreases m - i,
        {
            let bytes = read32(slice, pos);
            match Scalar::from_canonical_bytes(bytes) {
                Some(s) => {
                    a_final.push(s);
                },
                None => {
                    proof {
                        reveal(valid_k_encoding);
                        let j = 3 + np + i;
                        assert(bs.subrange(32 * j, 32 * j + 32) == bytes@);
                    }
                    return Err(ProofError::FormatError);
                },
            }
            pos = pos + 32;
            i = i + 1;
        }
        let mut b_final: Vec<Scalar> = Vec::new();
        let mut i: usize = 0;
        while i < m
            invariant
                bs == slice@,
                b == bs.len(),
                header_is(bs, k64, d64, m64),
                k == k64 && d == d64 && m == m64,
                w_int == 2 * k64 - 2,
                k64 >= 2,
                header_is(bs, k64, d64, m64),
                k == k64 && d == d64 && m == m64,
                w_int == 2 * k64 - 2,
                k64 >= 2,
                np == d * w_int,
                b == 32 * (3 + np + 2 * m),
                i <= m,
                pos == 32 * (3 + np + m + i),
                b_final@.len() == i,
                forall|ii: int|
                    0 <= ii < i ==> (#[trigger] b_final@[ii]).bytes@ == bs.subrange(
                        32 * (3 + np + m + ii),
                        32 * (3 + np + m + ii) + 32,
                    ) && b_final@[ii].wf(),
                forall|j: int|
                    3 + np <= j < 3 + np + m + i ==> le_value(#[trigger] bs.subrange(32 * j, 32 * j + 32)) < group_order(),
            decreases m - i,
        {
            let bytes = read32(slice, pos);
            match Scalar::from_canonical_bytes(bytes) {
                Some(s) => {
                    b_final.push(s);
                },
                None => {
                    proof {
                        reveal(valid_k_encoding);
                        let j = 3 + np + m + i;
                        assert(bs.subrange(32 * j, 32 * j + 32) == bytes@);
                    }
                    return Err(ProofError::FormatError);
                },
            }
            pos = pos + 32;
            i = i + 1;
        }
        let p = K_BulletProof { k, U_vecs, a_final, b_final };
        proof {
            reveal(valid_k_encoding);
            assert(p.width() == w_int);
            assert(p.num_points() == np);
            assert forall|j: int| 0 <= j < np implies p.point_at(j).bytes@ == bs.subrange(32 * (3 + j), 32 * (3 + j) + 32)
                && decompresses(#[trigger] p.point_at(j).bytes@) by {
                let rr = j / w_int;
                let ii = j % w_int;
                vstd::arithmetic::div_mod::lemma_fundamental_div_mod(j, w_int);
                assert(0 <= rr < d) by (nonlinear_arith)
                    requires
                        0 <= j < np,
                        np == d * w_int,
                        w_int >= 2,
                        j == w_int * rr + ii,
                        0 <= ii < w_int,
                ;
                assert(rr * w_int + ii == j) by (nonlinear_arith)
                    requires
                        j == w_int * rr + ii,
                ;
                assert(p.U_vecs@[rr]@[ii] == p.point_at(j));
            }
            assert forall|jw: int| 0 <= jw < p.num_words() implies #[trigger] p.word(jw) == bs.subrange(32 * jw, 32 * jw + 32) by {
                if jw == 0 {
                    assert(bs.subrange(0, 32) == u64_word(k64));
                } else if jw == 1 {
                    assert(bs.subrange(32, 64) == u64_word(d64));
                } else if jw == 2 {
                    assert(bs.subrange(64, 96) == u64_word(m64));
                } else if jw >= 3 && jw < 3 + np {
                    assert(p.point_at(jw - 3).bytes@ == bs.subrange(32 * (3 + (jw - 3)), 32 * (3 + (jw - 3)) + 32));
                }
            }
            reveal(K_BulletProof::encoding);
            let enc = p.encoding();
            assert(enc.len() == bs.len());
            assert forall|t: int| 0 <= t < bs.len() implies enc[t] == bs[t] by {
                let jw = t / 32;
                assert(0 <= jw < p.num_words());
                assert(p.word(jw) == bs.subrange(32 * jw, 32 * jw + 32));
            }
            assert(enc =~= bs);
        }
        Ok(p)
    }
}


pub(crate) proof fn lemma_header_word(b: Seq<u8>, j: int, x: u64)
    requires
        0 <= j,
        32 * j + 32 <= b.len(),
        b.subrange(32 * j, 32 * j + 32) == u64_word(x),
    ensures
        header_at(b, j) == x,
{
    lemma_u64_round_trip(x);
    let h = b.subrange(32 * j, 32 * j + 8);
    let w = u64_word(x);
    assert forall|i: int| 0 <= i < 8 implies h[i] == w[i] by {
        assert(b.subrange(32 * j, 32 * j + 32)[i] == b[32 * j + i]);
    }
    assert(le_u64(h) == le_u64(w));
}

proof fn lemma_k_words(p: K_BulletProof, j: int)
    requires
        p.wf(),
        0 <= j < p.num_words(),
    ensures
        p.encoding().subrange(32 * j, 32 * j + 32) == p.word(j),
        p.encoding().len() == 32 * p.num_words(),
{
    reveal(K_BulletProof::encoding);
    assert(p.num_points() >= 0) by (nonlinear_arith)
        requires
            p.num_points() == p.U_vecs@.len() * p.width(),
            p.width() >= 0,
    ;
    if 3 <= j < 3 + p.num_points() {
        let jj = j - 3;
        let w = p.width();
        vstd::arithmetic::div_mod::lemma_fundamental_div_mod(jj, w);
        assert(0 <= jj / w < p.U_vecs@.len()) by (nonlinear_arith)
            requires
                0 <= jj < p.U_vecs@.len() * w,
                w >= 2,
                jj == w * (jj / w) + jj % w,
                0 <= jj % w < w,
        ;
        assert(p.U_vecs@[jj / w]@.len() == w);
    }
    lemma_join_words_word(p.num_words() as nat, |i: int| p.word(i), j);
}

/// Encoding then decoding gives back the proof: the encoding of a valid proof is
/// one that [`K_BulletProof::from_bytes`] accepts, and no other valid proof has the
/// same encoding.
pub proof fn lemma_k_round_trip(p: K_BulletProof, q: K_BulletProof)
    requires
        p.wf(),
    ensures
        valid_k_encoding(p.encoding()),
        q.wf() && q.encoding() == p.encoding() ==> q@ == p@,
{
    reveal(valid_k_encoding);
    let enc = p.encoding();
    let np = p.num_points();
    let m = p.a_final@.len() as int;
    lemma_k_words(p, 0);
    lemma_k_words(p, 1);
    lemma_k_words(p, 2);
    lemma_header_word(enc, 0, p.k as u64);
    lemma_header_word(enc, 1, p.U_vecs@.len() as u64);
    lemma_header_word(enc, 2, m as u64);
    assert(np == header_at(enc, 1) * (2 * header_at(enc, 0) - 2));
    assert forall|j: int| 0 <= j < 3 implies #[trigger] enc.subrange(32 * j, 32 * j + 32) == u64_word(header_at(enc, j) as u64) by {
        lemma_k_words(p, j);
    }
    assert forall|j: int| 3 <= j < 3 + np implies decompresses(#[trigger] enc.subrange(32 * j, 32 * j + 32)) by {
        lemma_k_words(p, j);
        assert(decompresses(p.point_at(j - 3).bytes@));
    }
    assert forall|j: int| 3 + np <= j < 3 + np + 2 * m implies le_value(#[trigger] enc.subrange(32 * j, 32 * j + 32)) < group_order() by {
        lemma_k_words(p, j);
        if j < 3 + np + m {
            assert(p.a_final@[j - 3 - np].wf());
        } else {
            assert(p.b_final@[j - 3 - np - m].wf());
        }
    }
    if q.wf() && q.encoding() == p.encoding() {
        lemma_k_words(q, 0);
        lemma_k_words(q, 1);
        lemma_k_words(q, 2);
        lemma_header_word(enc, 0, q.k as u64);
        lemma_header_word(enc, 1, q.U_vecs@.len() as u64);
        lemma_header_word(enc, 2, q.a_final@.len() as u64);
        assert(q.k == p.k);
        assert(q.num_points() == np);
        assert forall|j: int| 0 <= j < p.num_words() implies #[trigger] q.word(j) == p.word(j) by {
            lemma_k_words(p, j);
            lemma_k_words(q, j);
        }
        let w = p.width();
        assert forall|rr: int| 0 <= rr < p.U_vecs@.len() implies #[trigger] q@.rounds[rr] == p@.rounds[rr] by {
            assert forall|ii: int| 0 <= ii < w implies q.U_vecs@[rr]@[ii] == p.U_vecs@[rr]@[ii] by {
                let j = rr * w + ii;
                assert(0 <= j < np) by (nonlinear_arith)
                    requires
                        j == rr * w + ii,
                        0 <= ii < w,
                        0 <= rr < p.U_vecs@.len(),
                        np == p.U_vecs@.len() * w,
                ;
                lemma_fundamental_div_mod_converse_div(j, w, rr, ii);
                lemma_fundamental_div_mod_converse_mod(j, w, rr, ii);
                assert(q.word(3 + j) == p.word(3 + j));
                assert(q.U_vecs@[rr]@[ii].bytes =~= p.U_vecs@[rr]@[ii].bytes);
            }
            assert(q@.rounds[rr] =~= p@.rounds[rr]);
        }
        assert(q@.rounds =~= p@.rounds);
        assert forall|i: int| 0 <= i < m implies q.a_final@[i] == p.a_final@[i] by {
            assert(q.word(3 + np + i) == p.word(3 + np + i));
            assert(q.a_final@[i].bytes =~= p.a_final@[i].bytes);
        }
        assert forall|i: int| 0 <= i < m implies q.b_final@[i] == p.b_final@[i] by {
            assert(q.word(3 + np + m + i) == p.word(3 + np + m + i));
            assert(q.b_final@[i].bytes =~= p.b_final@[i].bytes);
        }
        assert(q.a_final@ =~= p.a_final@);
        assert(q.b_final@ =~= p.b_final@);
    }
}

/// The stored points of a well-shaped proof decompress if, round by round, they do.
proof fn lemma_points_flat(p: K_BulletProof)
    requires
        p.well_shaped(),
        p.k >= 2,
        forall|rr: int, ii: int|
            0 <= rr < p.U_vecs@.len() && 0 <= ii < p.width() ==> decompresses((#[trigger] p.U_vecs@[rr]@[ii]).bytes@),
    ensures
        forall|j: int| 0 <= j < p.num_points() ==> decompresses(#[trigger] p.point_at(j).bytes@),
{
    let w = p.width();
    assert forall|j: int| 0 <= j < p.num_points() implies decompresses(#[trigger] p.point_at(j).bytes@) by {
        lemma_fundamental_div_mod(j, w);
        assert(0 <= j / w < p.U_vecs@.len()) by (nonlinear_arith)
            requires
                0 <= j < p.U_vecs@.len() * w,
                w >= 2,
                j == w * (j / w) + j % w,
                0 <= j % w < w,
        ;
        assert(p.U_vecs@[j / w]@[j % w] == p.point_at(j));
    }
}

/// Absorbs the cross-term points of round `round` and derives its challenge.
fn absorb_round(transcript: &mut Transcript, round: u64, points: &Vec<CompressedPoint>) -> (c: Scalar)
    ensures
        c.wf(),
{
    let rb = u64_le_bytes(round);
    let mut idx: usize = 0;
    while idx < points.len()
        invariant
            rb@.len() == 8,
        decreases points@.len() - idx,
    {
        let ib = u64_le_bytes(idx as u64);
        append_message(transcript, "U_round", rb.as_slice());
        append_message(transcript, "U_index", ib.as_slice());
        commit_point(transcript, "U_point", &points[idx]);
        idx = idx + 1;
    }
    proof {
        reveal_strlit("c_");
        vstd::string::is_ascii_spec_bytes("c_");
    }
    append_message(transcript, "challenge_prefix", "c_".as_bytes());
    append_message(transcript, "challenge_index", rb.as_slice());
    challenge_scalar(transcript, "challenge_separator")
}

/// Binds the protocol name, `n` and `k` into the transcript.
pub(crate) fn absorb_header(transcript: &mut Transcript, name: &str, n: usize, k: usize)
    requires
        name.spec_bytes().len() <= u32::MAX,
{
    append_message(transcript, "protocol-name", name.as_bytes());
    let nb = u64_le_bytes(n as u64);
    append_message(transcript, "n", nb.as_slice());
    let kb = u64_le_bytes(k as u64);
    append_message(transcript, "k", kb.as_slice());
}

/// Block offsets of term `i` of cross term `l`: `(i, i + l)` for the positive term,
/// `(i + l, i)` for the negative one, as `(a block, b block)`.
pub open spec fn cross_blocks(i: int, l: int, positive: bool) -> (int, int) {
    if positive {
        (i, i + l)
    } else {
        (i + l, i)
    }
}

/// The scalars of the first `t` terms of a cross term over blocks of length `m`:
/// for each term, the `a` block then the `b` block.
pub open spec fn cross_scalars(a: Seq<Scalar>, b: Seq<Scalar>, m: int, l: int, positive: bool, t: int) -> Seq<Scalar>
    decreases t,
{
    if t <= 0 {
        Seq::empty()
    } else {
        let (sa, sb) = cross_blocks(t - 1, l, positive);
        cross_scalars(a, b, m, l, positive, t - 1) + a.subrange(sa * m, sa * m + m) + b.subrange(sb * m, sb * m + m)
    }
}

/// The points of the first `t` terms of a cross term: for each term, the `G` block
/// paired with the `a` block, then the `H` block paired with the `b` block.
pub open spec fn cross_points(g: Seq<RistrettoPoint>, h: Seq<RistrettoPoint>, m: int, l: int, positive: bool, t: int) -> Seq<RistrettoPoint>
    decreases t,
{
    if t <= 0 {
        Seq::empty()
    } else {
        let (sa, sb) = cross_blocks(t - 1, l, positive);
        cross_points(g, h, m, l, positive, t - 1) + g.subrange(sb * m, sb * m + m) + h.subrange(sa * m, sa * m + m)
    }
}

/// `sum` over the first `t` terms of `<a block, b block>`, in the field.
pub open spec fn cross_value(a: Seq<Scalar>, b: Seq<Scalar>, m: int, l: int, positive: bool, t: int) -> nat
    decreases t,
{
    if t <= 0 {
        0
    } else {
        let (sa, sb) = cross_blocks(t - 1, l, positive);
        crate::scalar::fadd(cross_value(a, b, m, l, positive, t - 1),
            inner_product_spec(a.subrange(sa * m, sa * m + m), b.subrange(sb * m, sb * m + m), m))
    }
}

/// The compressed cross term `l` of a round over vectors of `k` blocks of length `m`:
/// `sum_{i < k - l} <a_sa, G_sb> + <b_sb, H_sa> + <a_sa, b_sb> Q`, with
/// `(sa, sb) = (i, i + l)` for the positive term and `(i + l, i)` for the negative one.
pub open spec fn cross_commit(
    a: Seq<Scalar>,
    b: Seq<Scalar>,
    g: Seq<RistrettoPoint>,
    h: Seq<RistrettoPoint>,
    q: RistrettoPoint,
    m: int,
    k: int,
    l: int,
    positive: bool,
) -> Seq<u8> {
    compress_of(msm_of(
        scalar_ints(cross_scalars(a, b, m, l, positive, k - l)).push(cross_value(a, b, m, l, positive, k - l) % group_order()),
        cross_points(g, h, m, l, positive, k - l).push(q),
    ))
}

/// One cross-term commitment (see [`cross_commit`]).
fn cross_term(
    a: &Vec<Scalar>,
    b: &Vec<Scalar>,
    g: &Vec<RistrettoPoint>,
    h: &Vec<RistrettoPoint>,
    q: &RistrettoPoint,
    m: usize,
    k: usize,
    l: usize,
    positive: bool,
) -> (r: CompressedPoint)
    requires
        1 <= l < k,
        a@.len() == k * m,
        b@.len() == k * m,
        g@.len() == k * m,
        h@.len() == k * m,
        k * m <= usize::MAX,
    ensures
        decompresses(r.bytes@),
        r.bytes@ == cross_commit(a@, b@, g@, h@, *q, m as int, k as int, l as int, positive),
{
    let mut sc: Vec<Scalar> = Vec::new();
    let mut pt: Vec<RistrettoPoint> = Vec::new();
    let mut v = Scalar::zero();
    let mut i: usize = 0;
    while i < k - l
        invariant
            1 <= l < k,
            a@.len() == k * m,
            b@.len() == k * m,
            g@.len() == k * m,
            h@.len() == k * m,
            k * m <= usize::MAX,
            i <= k - l,
            sc@ == cross_scalars(a@, b@, m as int, l as int, positive, i as int),
            pt@ == cross_points(g@, h@, m as int, l as int, positive, i as int),
            sc@.len() == pt@.len(),
            v.wf(),
            v.val() == cross_value(a@, b@, m as int, l as int, positive, i as int),
        decreases k - l - i,
    {
        proof {
            assert((i + l) * m + m <= k * m && i * m + m <= k * m) by (nonlinear_arith)
                requires
                    i + l < k,
            ;
            assert((i + l) * m == (i + l) as int * m);
        }
        let lo = i * m;
        let hi = (i + l) * m;
        let (sa, sb) = if positive { (lo, hi) } else { (hi, lo) };
        let mut ablk: Vec<Scalar> = Vec::new();
        append_block(&mut ablk, a.as_slice(), sa, m);
        let mut bblk: Vec<Scalar> = Vec::new();
        append_block(&mut bblk, b.as_slice(), sb, m);
        let ip = inner_product(ablk.as_slice(), bblk.as_slice());
        v = v.add(&ip);
        append_block(&mut sc, a.as_slice(), sa, m);
        append_block(&mut pt, g.as_slice(), sb, m);
        append_block(&mut sc, b.as_slice(), sb, m);
        append_block(&mut pt, h.as_slice(), sa, m);
        proof {
            let (csa, csb) = cross_blocks(i as int, l as int, positive);
            assert(csa * m == sa && csb * m == sb) by (nonlinear_arith)
                requires
                    csa == (if positive { i as int } else { i + l }),
                    csb == (if positive { i + l } else { i as int }),
                    lo == i * m,
                    hi == (i + l) * m,
                    sa == (if positive { lo } else { hi }),
                    sb == (if positive { hi } else { lo }),
            ;
            assert(sc@ =~= cross_scalars(a@, b@, m as int, l as int, positive, i + 1));
            assert(pt@ =~= cross_points(g@, h@, m as int, l as int, positive, i + 1));
        }
        i = i + 1;
    }
    let ghost cs = sc@;
    sc.push(v);
    pt.push(*q);
    proof {
        assert(scalar_ints(sc@) =~= scalar_ints(cs).push(v.val() % group_order()));
    }
    let p = msm(sc.as_slice(), pt.as_slice());
    compress(&p)
}

/// Folds the `k` blocks of length `m` of a generator vector: entry `j` is
/// `sum_i coeffs[i] * g[i * m + j]`.
fn fold_points(g: &Vec<RistrettoPoint>, m: usize, coeffs: &Vec<Scalar>) -> (r: Vec<RistrettoPoint>)
    requires
        g@.len() == coeffs@.len() * m,
        coeffs@.len() * m <= usize::MAX,
    ensures
        r@.len() == m,
{
    let k = coeffs.len();
    let mut r: Vec<RistrettoPoint> = Vec::new();
    let mut j: usize = 0;
    while j < m
        invariant
            k == coeffs@.len(),
            g@.len() == k * m,
            k * m <= usize::MAX,
            j <= m,
            r@.len() == j,
        decreases m - j,
    {
        let mut col: Vec<RistrettoPoint> = Vec::new();
        let mut i: usize = 0;
        while i < k
            invariant
                k == coeffs@.len(),
                g@.len() == k * m,
                k * m <= usize::MAX,
                j < m,
                i <= k,
                col@.len() == i,
            decreases k - i,
        {
            proof {
                assert(i * m + j < k * m) by (nonlinear_arith)
                    requires
                        i < k,
                        j < m,
                ;
            }
            col.push(g[i * m + j]);
            i = i + 1;
        }
        r.push(msm(coeffs.as_slice(), col.as_slice()));
        j = j + 1;
    }
    r
}

/// The coefficients that fold the `a` side with challenge `c`: `c^i`.
pub open spec fn a_coeffs(c: nat, k: nat) -> Seq<nat> {
    Seq::new(k, |i: int| fpow(c, i as nat))
}

/// The coefficients that fold the `b` side with challenge `c`: `c^(k-1) * c^(-i)`.
pub open spec fn b_coeffs(c: nat, k: nat) -> Seq<nat> {
    Seq::new(k, |i: int| scaled_pow(fpow(c, (k - 1) as nat), field_inverse(c), i as nat))
}

/// The vector (as integers) after `r` folding rounds of a length-`n` vector with
/// arity `k` and round challenges `ch`: each round pads to a multiple of `k` and
/// combines the `k` blocks with the `a`-side (or, with `b_side`, the `b`-side)
/// coefficients of its challenge.
pub open spec fn fold_chain(v: Seq<nat>, n: nat, k: nat, ch: Seq<nat>, r: nat, b_side: bool) -> Seq<nat>
    decreases r,
{
    if r == 0 {
        v
    } else {
        let prev = fold_chain(v, n, k, ch, (r - 1) as nat, b_side);
        let c = ch[r - 1];
        fold_vals(prev, fold_len(n, k, r) as int, if b_side { b_coeffs(c, k) } else { a_coeffs(c, k) })
    }
}

/// The fold chain up to round `r` depends on the first `r` challenges only.
proof fn lemma_fold_chain_prefix(v: Seq<nat>, n: nat, k: nat, ch1: Seq<nat>, ch2: Seq<nat>, r: nat, b_side: bool)
    requires
        forall|i: int| 0 <= i < r ==> ch1[i] == ch2[i],
    ensures
        fold_chain(v, n, k, ch1, r, b_side) == fold_chain(v, n, k, ch2, r, b_side),
    decreases r,
{
    if r > 0 {
        lemma_fold_chain_prefix(v, n, k, ch1, ch2, (r - 1) as nat, b_side);
    }
}

/// One round of the chain, on a vector padded with zeros.
pub proof fn lemma_fold_chain_step(v: Seq<nat>, n: nat, k: nat, ch: Seq<nat>, r: nat, b_side: bool, padded: Seq<nat>, c: nat)
    requires
        ch.len() == r + 1,
        ch[r as int] == c,
        forall|idx: int| pad_val(padded, idx) == pad_val(fold_chain(v, n, k, ch.subrange(0, r as int), r, b_side), idx),
    ensures
        fold_chain(v, n, k, ch, r + 1, b_side) == fold_vals(padded, fold_len(n, k, r + 1) as int,
            if b_side { b_coeffs(c, k) } else { a_coeffs(c, k) }),
{
    let prev = fold_chain(v, n, k, ch, r, b_side);
    lemma_fold_chain_prefix(v, n, k, ch, ch.subrange(0, r as int), r, b_side);
    let m = fold_len(n, k, r + 1) as int;
    let co = if b_side { b_coeffs(c, k) } else { a_coeffs(c, k) };
    assert forall|j: int| 0 <= j < m implies #[trigger] fold_vals(padded, m, co)[j] == fold_vals(prev, m, co)[j] by {
        lemma_block_comb_pad(padded, prev, m, j, co, co.len() as int);
    }
    assert(fold_vals(padded, m, co) =~= fold_vals(prev, m, co));
}

impl K_BulletProof {
    /// Proves knowledge of `a_vec`, `b_vec` opening `<a, G> + <b, H> + <a, b> Q`, with
    /// fold arity `k` over `num_rounds` rounds.
    ///
    /// Each round pads the vectors to a multiple of `k`, commits to `2k - 2` cross
    /// terms, derives a challenge `c` from the transcript and folds the `k` blocks:
    /// `a` with the powers `c^i`, `b` with `c^(k-1) * c^(-i)` (see [`fold_blocks`]),
    /// `G` with the `b` coefficients and `H` with the `a` coefficients. The final
    /// vectors are the [`fold_chain`] of the inputs for the challenges drawn.
    pub fn create(
        transcript: &mut Transcript,
        k: usize,
        g_vec: &[RistrettoPoint],
        h_vec: &[RistrettoPoint],
        Q_point: RistrettoPoint,
        a_vec: &[Scalar],
        b_vec: &[Scalar],
        num_rounds: usize,
    ) -> (res: K_BulletProof)
        requires
            g_vec@.len() == a_vec@.len(),
            h_vec@.len() == a_vec@.len(),
            b_vec@.len() == a_vec@.len(),
            k > 1,
            a_vec@.len() + k <= usize::MAX,
            num_rounds < usize::MAX,
            forall|i: int| 0 <= i < a_vec@.len() ==> (#[trigger] a_vec@[i]).wf(),
            forall|i: int| 0 <= i < b_vec@.len() ==> (#[trigger] b_vec@[i]).wf(),
        ensures
            res.wf(),
            res.k == k,
            res.U_vecs@.len() == num_rounds,
            res.a_final@.len() == fold_len(a_vec@.len() as nat, k as nat, num_rounds as nat),
            exists|ch: Seq<nat>| ch.len() == num_rounds
                && vals_of(res.a_final@) == fold_chain(vals_of(a_vec@), a_vec@.len() as nat, k as nat, ch, num_rounds as nat, false)
                && vals_of(res.b_final@) == fold_chain(vals_of(b_vec@), a_vec@.len() as nat, k as nat, ch, num_rounds as nat, true),
            num_rounds >= 1 && (a_vec@.len() as int) % (k as int) == 0 ==> forall|l: int| 1 <= l < k ==>
                (#[trigger] res.U_vecs@[0]@[l - 1]).bytes@ == cross_commit(a_vec@, b_vec@, g_vec@, h_vec@, Q_point,
                    (a_vec@.len() as int) / (k as int), k as int, l, true)
                && res.U_vecs@[0]@[k - 2 + l].bytes@ == cross_commit(a_vec@, b_vec@, g_vec@, h_vec@, Q_point,
                    (a_vec@.len() as int) / (k as int), k as int, l, false),
    {
        let n = a_vec.len();
        let ghost av = vals_of(a_vec@);
        let ghost bv = vals_of(b_vec@);
        let ghost mut chs: Seq<nat> = Seq::empty();
        proof {
            reveal_strlit("k_bullet_delay");
            vstd::string::is_ascii_spec_bytes("k_bullet_delay");
        }
        absorb_header(transcript, "k_bullet_delay", n, k);
        let mut g_curr: Vec<RistrettoPoint> = Vec::new();
        append_block(&mut g_curr, g_vec, 0, n);
        let mut h_curr: Vec<RistrettoPoint> = Vec::new();
        append_block(&mut h_curr, h_vec, 0, n);
        let mut a_curr: Vec<Scalar> = Vec::new();
        append_block(&mut a_curr, a_vec, 0, n);
        let mut b_curr: Vec<Scalar> = Vec::new();
        append_block(&mut b_curr, b_vec, 0, n);
        let mut U_vecs: Vec<Vec<CompressedPoint>> = Vec::new();
        let mut n_j: usize = n;
        let mut j: usize = 0;
        proof {
            assert(a_curr@ =~= a_vec@);
            assert(g_curr@ =~= g_vec@);
            assert(h_curr@ =~= h_vec@);
            assert(b_curr@ =~= b_vec@);
        }
        while j < num_rounds
            invariant
                av == vals_of(a_vec@),
                bv == vals_of(b_vec@),
                chs.len() == j,
                vals_of(a_curr@) == fold_chain(av, n as nat, k as nat, chs, j as nat, false),
                vals_of(b_curr@) == fold_chain(bv, n as nat, k as nat, chs, j as nat, true),
                k > 1,
                n == a_vec@.len(),
                n + k <= usize::MAX,
                j <= num_rounds,
                j == 0 ==> a_curr@ == a_vec@ && b_curr@ == b_vec@ && g_curr@ == g_vec@ && h_curr@ == h_vec@,
                j > 0 && n % k == 0 ==> forall|l: int| 1 <= l < k ==>
                    (#[trigger] U_vecs@[0]@[l - 1]).bytes@ == cross_commit(a_vec@, b_vec@, g_vec@, h_vec@, Q_point,
                        (n as int) / (k as int), k as int, l, true)
                    && U_vecs@[0]@[k - 2 + l].bytes@ == cross_commit(a_vec@, b_vec@, g_vec@, h_vec@, Q_point,
                        (n as int) / (k as int), k as int, l, false),
                n_j == fold_len(n as nat, k as nat, j as nat),
                a_curr@.len() == n_j,
                b_curr@.len() == n_j,
                g_curr@.len() == n_j,
                h_curr@.len() == n_j,
                forall|i: int| 0 <= i < n_j ==> (#[trigger] a_curr@[i]).wf(),
                forall|i: int| 0 <= i < n_j ==> (#[trigger] b_curr@[i]).wf(),
                U_vecs@.len() == j,
                forall|rr: int| 0 <= rr < j ==> (#[trigger] U_vecs@[rr])@.len() == 2 * k - 2,
                forall|rr: int, ii: int|
                    0 <= rr < j && 0 <= ii < 2 * k - 2 ==> decompresses((#[trigger] U_vecs@[rr]@[ii]).bytes@),
            decreases num_rounds - j,
        {
            proof {
                lemma_fold_len_le(n as nat, k as nat, j as nat);
            }
            let ghost n_start = n_j;
            let ghost a_before = vals_of(a_curr@);
            let ghost b_before = vals_of(b_curr@);
            let rem = n_j % k;
            if rem != 0 {
                let len = n_j + (k - rem);
                let z = Scalar::zero();
                pad_to(&mut a_curr, len, z);
                pad_to(&mut b_curr, len, z);
                pad_to(&mut g_curr, len, identity());
                pad_to(&mut h_curr, len, identity());
                n_j = len;
            }
            proof {
                assert forall|idx: int| pad_val(vals_of(a_curr@), idx) == pad_val(a_before, idx) by {}
                assert forall|idx: int| pad_val(vals_of(b_curr@), idx) == pad_val(b_before, idx) by {}
            }
            let ghost a_padded = vals_of(a_curr@);
            let ghost b_padded = vals_of(b_curr@);
            let m_j = n_j / k;
            proof {
                vstd::arithmetic::div_mod::lemma_fundamental_div_mod(n_start as int, k as int);
                let q = n_start / k;
                if rem == 0 {
                    assert(n_j == q * k + 0) by (nonlinear_arith)
                        requires
                            n_j == n_start,
                            n_start == k * q + 0,
                    ;
                    lemma_fundamental_div_mod_converse_div(n_j as int, k as int, q as int, 0);
                } else {
                    assert(n_j == (q + 1) * k + 0) by (nonlinear_arith)
                        requires
                            n_j == n_start + (k - rem),
                            n_start == k * q + rem,
                    ;
                    lemma_fundamental_div_mod_converse_div(n_j as int, k as int, (q + 1) as int, 0);
                }
                assert(n_j == k * m_j) by (nonlinear_arith)
                    requires
                        rem == 0 ==> (n_j == q * k && m_j == q),
                        rem != 0 ==> (n_j == (q + 1) * k && m_j == q + 1),
                ;
                assert(m_j == fold_len(n as nat, k as nat, (j + 1) as nat));
            }
            let mut round: Vec<CompressedPoint> = Vec::new();
            let mut negs: Vec<CompressedPoint> = Vec::new();
            let mut l: usize = 1;
            while l < k
                invariant
                    k > 1,
                    1 <= l <= k,
                    a_curr@.len() == k * m_j,
                    b_curr@.len() == k * m_j,
                    g_curr@.len() == k * m_j,
                    h_curr@.len() == k * m_j,
                    k * m_j <= usize::MAX,
                    round@.len() == l - 1,
                    negs@.len() == l - 1,
                    forall|ll: int| 1 <= ll < l ==> (#[trigger] round@[ll - 1]).bytes@ == cross_commit(a_curr@, b_curr@, g_curr@, h_curr@,
                        Q_point, m_j as int, k as int, ll, true),
                    forall|ll: int| 1 <= ll < l ==> (#[trigger] negs@[ll - 1]).bytes@ == cross_commit(a_curr@, b_curr@, g_curr@, h_curr@,
                        Q_point, m_j as int, k as int, ll, false),
                    forall|ii: int| 0 <= ii < round@.len() ==> decompresses((#[trigger] round@[ii]).bytes@),
                    forall|ii: int| 0 <= ii < negs@.len() ==> decompresses((#[trigger] negs@[ii]).bytes@),
                decreases k - l,
            {
                let up = cross_term(&a_curr, &b_curr, &g_curr, &h_curr, &Q_point, m_j, k, l, true);
                let un = cross_term(&a_curr, &b_curr, &g_curr, &h_curr, &Q_point, m_j, k, l, false);
                round.push(up);
                negs.push(un);
                l = l + 1;
            }
            let ghost pos_part = round@;
            append_block(&mut round, negs.as_slice(), 0, negs.len());
            proof {
                assert forall|ii: int| 0 <= ii < round@.len() implies decompresses((#[trigger] round@[ii]).bytes@) by {
                    if ii >= pos_part.len() {
                        assert(round@[ii] == negs@[ii - pos_part.len()]);
                    }
                }
            }
            let ghost rnd = round@;
            proof {
                assert forall|ll: int| 1 <= ll < k implies rnd[k - 2 + ll] == #[trigger] negs@[ll - 1] by {
                    assert(rnd[(k - 1) + (ll - 1)] == negs@[ll - 1]);
                }
                if j == 0 && n % k == 0 {
                    assert(n_j == n);
                    assert(m_j == (n as int) / (k as int));
                }
            }
            let c = absorb_round(transcript, j as u64, &round);
            let ghost old_u = U_vecs@;
            U_vecs.push(round);
            proof {
                if j == 0 && n % k == 0 {
                    assert(U_vecs@[0]@ == rnd);
                    assert forall|l: int| 1 <= l < k implies (#[trigger] U_vecs@[0]@[l - 1]).bytes@ == cross_commit(a_vec@, b_vec@,
                        g_vec@, h_vec@, Q_point, (n as int) / (k as int), k as int, l, true) && U_vecs@[0]@[k - 2 + l].bytes@
                        == cross_commit(a_vec@, b_vec@, g_vec@, h_vec@, Q_point, (n as int) / (k as int), k as int, l, false) by {
                        assert(rnd[l - 1] == pos_part[l - 1]);
                        assert(rnd[k - 2 + l] == negs@[l - 1]);
                    }
                } else if j > 0 && n % k == 0 {
                    assert(U_vecs@[0] == old_u[0]);
                }
            }
            let c_inv = c.invert();
            let pa = powers(&c, k);
            let ck1 = scalar_pow(c, (k - 1) as u64);
            let pb = scaled_powers(&ck1, &c_inv, k);
            let a_new = fold_blocks(a_curr.as_slice(), m_j, pa.as_slice());
            let b_new = fold_blocks(b_curr.as_slice(), m_j, pb.as_slice());
            let g_new = fold_points(&g_curr, m_j, &pb);
            let h_new = fold_points(&h_curr, m_j, &pa);
            proof {
                let cv = c.val();
                assert(vals_of(pa@) =~= a_coeffs(cv, k as nat));
                assert(vals_of(pb@) =~= b_coeffs(cv, k as nat));
                let chs2 = chs.push(cv);
                assert(chs2.subrange(0, j as int) =~= chs);
                lemma_fold_chain_step(av, n as nat, k as nat, chs2, j as nat, false, a_padded, cv);
                lemma_fold_chain_step(bv, n as nat, k as nat, chs2, j as nat, true, b_padded, cv);
                chs = chs2;
            }
            a_curr = a_new;
            b_curr = b_new;
            g_curr = g_new;
            h_curr = h_new;
            n_j = m_j;
            j = j + 1;
        }
        let res = K_BulletProof { k, U_vecs, a_final: a_curr, b_final: b_curr };
        proof {
            assert(chs.len() == num_rounds);
            lemma_fold_len_le(n as nat, k as nat, num_rounds as nat);
            assert(res.well_shaped());
            lemma_points_flat(res);
            assert(forall|jj: int| 0 <= jj < res.a_final@.len() ==> (#[trigger] res.a_final@[jj]).wf());
            assert(forall|jj: int| 0 <= jj < res.b_final@.len() ==> (#[trigger] res.b_final@[jj]).wf());
        }
        res
    }
}

/// The integers of the inverses of a list of challenges.
pub open spec fn inv_vals(ch: Seq<Scalar>) -> Seq<nat> {
    ch.map_values(|c: Scalar| field_inverse(c.val()))
}

/// Inverts each challenge.
pub fn invert_all(ch: &[Scalar]) -> (r: Vec<Scalar>)
    ensures
        r@.len() == ch@.len(),
        vals_of(r@) == inv_vals(ch@),
        forall|i: int| 0 <= i < ch@.len() ==> (#[trigger] r@[i]).wf(),
{
    let mut r: Vec<Scalar> = Vec::new();
    let mut i: usize = 0;
    while i < ch.len()
        invariant
            i <= ch@.len(),
            r@.len() == i,
            forall|j: int| 0 <= j < i ==> (#[trigger] r@[j]).wf() && r@[j].val() == field_inverse(ch@[j].val()),
        decreases ch@.len() - i,
    {
        r.push(ch[i].invert());
        i = i + 1;
    }
    proof {
        assert(vals_of(r@) =~= inv_vals(ch@));
    }
    r
}

/// The verification scalars that the challenges `ch` determine for a proof of
/// length `n`: `(s_g, s_h, s_Q, s_P, s_U)`.
///
/// `s_P` is the product of `c_r^(k-1)` over all rounds; `s_g` expands `a_final`
/// backward with the inverse challenges and is scaled by `s_P`; `s_h` expands
/// `b_final` with the challenges; `s_Q` is `<a_final, b_final>`; `s_U` holds, per
/// round `r` and `l = 1..k`, `c_r^(k-1-l)` and then `c_r^(k-1+l)`, each times the
/// product of `c_q^(k-1)` over the later rounds.
pub open spec fn k_scalars_are(
    p: K_BulletProof,
    n: nat,
    ch: Seq<Scalar>,
    out: (Vec<Scalar>, Vec<Scalar>, Scalar, Scalar, Vec<Scalar>),
) -> bool {
    let k = p.k as int;
    let d = p.U_vecs@.len();
    let lens = round_lens(n, k as nat, d);
    let s_p = suffix_prod(ch, (k - 1) as nat, 0);
    let w = 2 * k - 2;
    &&& out.0@.len() == n
    &&& forall|t: int| 0 <= t < n ==> (#[trigger] out.0@[t]).val() == fmul(expanded(p.a_final@, lens, inv_vals(ch), 0, t), s_p)
    &&& out.1@.len() == n
    &&& forall|t: int| 0 <= t < n ==> (#[trigger] out.1@[t]).val() == fmul(expanded(p.b_final@, lens, vals_of(ch), 0, t), 1)
    &&& out.2.val() == inner_product_spec(p.a_final@, p.b_final@, p.a_final@.len() as int)
    &&& out.3.val() == s_p
    &&& out.4@.len() == d * w
    &&& forall|r: int, l: int| 0 <= r < d && 1 <= l < k ==> (#[trigger] out.4@[r * w + l - 1]).val() == fmul(
        fpow(ch[r].val(), (k - 1 - l) as nat), suffix_prod(ch, (k - 1) as nat, r + 1))
    &&& forall|r: int, l: int| 0 <= r < d && 1 <= l < k ==> (#[trigger] out.4@[r * w + k - 2 + l]).val() == fmul(
        fpow(ch[r].val(), (k - 1 + l) as nat), suffix_prod(ch, (k - 1) as nat, r + 1))
    &&& forall|t: int| 0 <= t < n ==> (#[trigger] out.0@[t]).wf() && out.1@[t].wf()
    &&& forall|t: int| 0 <= t < d * w ==> (#[trigger] out.4@[t]).wf()
    &&& out.2.wf() && out.3.wf()
}

impl K_BulletProof {
    /// Computes the verification scalars from the round challenges `ch`, without
    /// touching a transcript (see [`k_scalars_are`]).
    pub fn scalars_from_challenges(&self, n: usize, ch: &[Scalar]) -> (out: (Vec<Scalar>, Vec<Scalar>, Scalar, Scalar, Vec<Scalar>))
        requires
            self.wf(),
            ch@.len() == self.U_vecs@.len(),
            self.U_vecs@.len() < usize::MAX,
            self.a_final@.len() == fold_len(n as nat, self.k as nat, self.U_vecs@.len() as nat),
        ensures
            k_scalars_are(*self, n as nat, ch@, out),
    {
        let k = self.k;
        let d = self.U_vecs.len();
        let lens = reconstruct_round_lengths(n, k, d);
        proof {
            assert forall|r: int| 0 <= r <= d implies lens@[r] == round_lens(n as nat, k as nat, d as nat)[r] by {}
            assert(lens@ =~= round_lens(n as nat, k as nat, d as nat));
            assert forall|r: int| 0 <= r < d implies (#[trigger] lens@[r]) <= k * lens@[r + 1] && (lens@[r + 1] == 0 ==> lens@[r] == 0) by {
                lemma_fold_len_step(n as nat, k as nat, r as nat);
            }
            assert(fold_len(n as nat, k as nat, 0) == n);
        }
        let ch_inv = invert_all(ch);
        let (prods, s_P) = suffix_products(ch, (k - 1) as u64);
        let s_g = expand_backward(self.a_final.as_slice(), lens.as_slice(), ch_inv.as_slice(), k, &s_P);
        let one = Scalar::one();
        let s_h = expand_backward(self.b_final.as_slice(), lens.as_slice(), ch, k, &one);
        let s_Q = inner_product(self.a_final.as_slice(), self.b_final.as_slice());
        let ghost w: int = 2 * k - 2;
        let mut s_U: Vec<Scalar> = Vec::new();
        let mut r: usize = 0;
        while r < d
            invariant
                self.wf(),
                k == self.k,
                d == self.U_vecs@.len(),
                k >= 2,
                w == 2 * k - 2,
                d == ch@.len(),
                prods@.len() == d,
                forall|q: int| 0 <= q < d ==> (#[trigger] prods@[q]).wf() && prods@[q].val() == suffix_prod(ch@, (k - 1) as nat, q + 1),
                r <= d,
                s_U@.len() == r * w,
                forall|rr: int, l: int| 0 <= rr < r && 1 <= l < k ==> (#[trigger] s_U@[rr * w + l - 1]).val() == fmul(
                    fpow(ch@[rr].val(), (k - 1 - l) as nat), suffix_prod(ch@, (k - 1) as nat, rr + 1)),
                forall|rr: int, l: int| 0 <= rr < r && 1 <= l < k ==> (#[trigger] s_U@[rr * w + k - 2 + l]).val() == fmul(
                    fpow(ch@[rr].val(), (k - 1 + l) as nat), suffix_prod(ch@, (k - 1) as nat, rr + 1)),
                forall|t: int| 0 <= t < s_U@.len() ==> (#[trigger] s_U@[t]).wf(),
            decreases d - r,
        {
            let ghost base = s_U@.len();
            let ghost prefix = s_U@;
            let w_exec = self.U_vecs[r].len();
            assert(w_exec == w);
            let c_r = ch[r];
            let sp = prods[r];
            let mut l: usize = 1;
            while l < k
                invariant
                    k >= 2,
                    w == 2 * k - 2,
                    r < d,
                    d == ch@.len(),
                    c_r == ch@[r as int],
                    w_exec == w,
                    prefix.len() == base,
                    sp.val() == suffix_prod(ch@, (k - 1) as nat, r + 1),
                    1 <= l <= k,
                    base == r * w,
                    s_U@.len() == base + l - 1,
                    forall|ll: int| 1 <= ll < l ==> (#[trigger] s_U@[base + ll - 1]).val() == fmul(
                        fpow(c_r.val(), (k - 1 - ll) as nat), sp.val()),
                    forall|t: int| 0 <= t < s_U@.len() ==> (#[trigger] s_U@[t]).wf(),
                    s_U@.subrange(0, base as int) == prefix,
                decreases k - l,
            {
                let e = scalar_pow(c_r, (k - 1 - l) as u64);
                s_U.push(e.mul(&sp));
                l = l + 1;
            }
            let mut l: usize = 1;
            while l < k
                invariant
                    k >= 2,
                    w == 2 * k - 2,
                    r < d,
                    d == ch@.len(),
                    c_r == ch@[r as int],
                    w_exec == w,
                    prefix.len() == base,
                    sp.val() == suffix_prod(ch@, (k - 1) as nat, r + 1),
                    1 <= l <= k,
                    base == r * w,
                    s_U@.len() == base + k - 2 + l,
                    forall|ll: int| 1 <= ll < k ==> (#[trigger] s_U@[base + ll - 1]).val() == fmul(
                        fpow(c_r.val(), (k - 1 - ll) as nat), sp.val()),
                    forall|ll: int| 1 <= ll < l ==> (#[trigger] s_U@[base + k - 2 + ll]).val() == fmul(
                        fpow(c_r.val(), (k - 1 + ll) as nat), sp.val()),
                    forall|t: int| 0 <= t < s_U@.len() ==> (#[trigger] s_U@[t]).wf(),
                    s_U@.subrange(0, base as int) == prefix,
                decreases k - l,
            {
                let e = scalar_pow(c_r, (k - 1 + l) as u64);
                s_U.push(e.mul(&sp));
                l = l + 1;
            }
            proof {
                assert(r * w + w == (r + 1) * w) by (nonlinear_arith);
                assert forall|rr: int, l: int| 0 <= rr < r + 1 && 1 <= l < k implies (#[trigger] s_U@[rr * w + l - 1]).val() == fmul(
                    fpow(ch@[rr].val(), (k - 1 - l) as nat), suffix_prod(ch@, (k - 1) as nat, rr + 1)) by {
                    if rr == r {
                        assert(s_U@[base + l - 1] == s_U@[rr * w + l - 1]);
                    } else {
                        assert(rr * w + l - 1 < base) by (nonlinear_arith)
                            requires
                                0 <= rr < r,
                                1 <= l < k,
                                w == 2 * k - 2,
                                base == r * w,
                        ;
                        assert(rr * w + l - 1 >= 0) by (nonlinear_arith)
                            requires
                                0 <= rr,
                                1 <= l,
                                w >= 0,
                        ;
                        assert(s_U@.subrange(0, base as int)[rr * w + l - 1] == s_U@[rr * w + l - 1]);
                        assert(prefix[rr * w + l - 1] == s_U@[rr * w + l - 1]);
                    }
                }
                assert forall|rr: int, l: int| 0 <= rr < r + 1 && 1 <= l < k implies (#[trigger] s_U@[rr * w + k - 2 + l]).val() == fmul(
                    fpow(ch@[rr].val(), (k - 1 + l) as nat), suffix_prod(ch@, (k - 1) as nat, rr + 1)) by {
                    if rr == r {
                        assert(s_U@[base + k - 2 + l] == s_U@[rr * w + k - 2 + l]);
                    } else {
                        assert(rr * w + k - 2 + l < base) by (nonlinear_arith)
                            requires
                                0 <= rr < r,
                                1 <= l < k,
                                w == 2 * k - 2,
                                base == r * w,
                        ;
                        assert(rr * w + k - 2 + l >= 0) by (nonlinear_arith)
                            requires
                                0 <= rr,
                                1 <= l,
                                k >= 2,
                                w >= 0,
                        ;
                        assert(s_U@.subrange(0, base as int)[rr * w + k - 2 + l] == s_U@[rr * w + k - 2 + l]);
                        assert(prefix[rr * w + k - 2 + l] == s_U@[rr * w + k - 2 + l]);
                    }
                }
            }
            r = r + 1;
        }
        (s_g, s_h, s_Q, s_P, s_U)
    }

    /// Replays the transcript of the proof for vectors of length `n` and computes the
    /// verification scalars `(s_g, s_h, s_Q, s_P, s_U)` from the regenerated
    /// challenges (see [`k_scalars_are`]).
    ///
    /// `n == 0` is an `InvalidGeneratorsLength`; final vectors whose length is not the
    /// one that `n`, `k` and `d` give are a `VerificationError`, detected before the
    /// transcript is touched.
    pub fn verification_scalars(&self, n: usize, transcript: &mut Transcript) -> (r: Result<
        (Vec<Scalar>, Vec<Scalar>, Scalar, Scalar, Vec<Scalar>),
        ProofError,
    >)
        requires
            self.wf(),
            self.U_vecs@.len() < usize::MAX,
        ensures
            n == 0 ==> (r matches Err(ProofError::InvalidGeneratorsLength)) && *final(transcript) == *old(transcript),
            n > 0 && self.a_final@.len() != fold_len(n as nat, self.k as nat, self.U_vecs@.len() as nat)
                ==> (r matches Err(ProofError::VerificationError)) && *final(transcript) == *old(transcript),
            n > 0 && self.a_final@.len() == fold_len(n as nat, self.k as nat, self.U_vecs@.len() as nat)
                ==> r.is_ok() && exists|ch: Seq<Scalar>| ch.len() == self.U_vecs@.len() && k_scalars_are(*self, n as nat, ch, r.unwrap()),
    {
        if n == 0 {
            return Err(ProofError::InvalidGeneratorsLength);
        }
        let k = self.k;
        let d = self.U_vecs.len();
        let lens = reconstruct_round_lengths(n, k, d);
        let m = lens[d];
        if self.a_final.len() != m || self.b_final.len() != m {
            return Err(ProofError::VerificationError);
        }
        proof {
            reveal_strlit("k_bullet_delay");
            vstd::string::is_ascii_spec_bytes("k_bullet_delay");
        }
        absorb_header(transcript, "k_bullet_delay", n, k);
        let mut challenges: Vec<Scalar> = Vec::new();
        let mut r: usize = 0;
        while r < d
            invariant
                d == self.U_vecs@.len(),
                r <= d,
                challenges@.len() == r,
            decreases d - r,
        {
            let c = absorb_round(transcript, r as u64, &self.U_vecs[r]);
            challenges.push(c);
            r = r + 1;
        }
        let out = self.scalars_from_challenges(n, challenges.as_slice());
        proof {
            assert(k_scalars_are(*self, n as nat, challenges@, out));
            assert(challenges@.len() == self.U_vecs@.len());
            let res: Result<(Vec<Scalar>, Vec<Scalar>, Scalar, Scalar, Vec<Scalar>), ProofError> = Ok(out);
            assert(res.unwrap() == out);
            assert(exists|ch: Seq<Scalar>| ch.len() == self.U_vecs@.len() && k_scalars_are(*self, n as nat, ch, res.unwrap()));
        }
        Ok(out)
    }

    /// Whether the proof is valid (see [`K_BulletProof::wf`]): `k >= 2`, `2k - 2`
    /// decompressable points per round, final vectors of one length and canonical.
    pub fn is_well_formed(&self) -> (r: bool)
        ensures
            r == self.wf(),
    {
        let k = self.k;
        if k < 2 {
            return false;
        }
        let d = self.U_vecs.len();
        let m = self.a_final.len();
        if self.b_final.len() != m {
            return false;
        }
        let ghost w: int = 2 * k - 2;
        let mut r: usize = 0;
        while r < d
            invariant
                k == self.k,
                k >= 2,
                w == 2 * k - 2,
                d == self.U_vecs@.len(),
                r <= d,
                forall|rr: int| 0 <= rr < r ==> (#[trigger] self.U_vecs@[rr])@.len() == w,
                forall|rr: int, ii: int| 0 <= rr < r && 0 <= ii < w ==> decompresses((#[trigger] self.U_vecs@[rr]@[ii]).bytes@),
            decreases d - r,
        {
            let round = &self.U_vecs[r];
            if round.len() % 2 != 0 || round.len() / 2 + 1 != k {
                return false;
            }
            let mut i: usize = 0;
            while i < round.len()
                invariant
                    k == self.k,
                    k >= 2,
                    w == 2 * k - 2,
                    d == self.U_vecs@.len(),
                    r < d,
                    round@ == self.U_vecs@[r as int]@,
                    round@.len() == w,
                    i <= round@.len(),
                    forall|ii: int| 0 <= ii < i ==> decompresses((#[trigger] round@[ii]).bytes@),
                decreases round@.len() - i,
            {
                if decompress(&round[i]).is_none() {
                    proof {
                        let j = r * w + i;
                        assert(0 <= j < d * w) by (nonlinear_arith)
                            requires
                                j == r * w + i,
                                i < w,
                                r < d,
                        ;
                        lemma_fundamental_div_mod_converse_div(j, w, r as int, i as int);
                        lemma_fundamental_div_mod_converse_mod(j, w, r as int, i as int);
                        assert(self.point_at(j) == round@[i as int]);
                    }
                    return false;
                }
                i = i + 1;
            }
            r = r + 1;
        }
        proof {
            lemma_points_flat(*self);
        }
        let mut i: usize = 0;
        while i < m
            invariant
                m == self.a_final@.len(),
                m == self.b_final@.len(),
                i <= m,
                forall|j: int| 0 <= j < i ==> (#[trigger] self.a_final@[j]).wf(),
                forall|j: int| 0 <= j < i ==> (#[trigger] self.b_final@[j]).wf(),
            decreases m - i,
        {
            if Scalar::from_canonical_bytes(self.a_final[i].bytes).is_none() || Scalar::from_canonical_bytes(
                self.b_final[i].bytes,
            ).is_none() {
                return false;
            }
            i = i + 1;
        }
        true
    }

    /// Checks the proof against `P = <a, G> + <b, H> + <a, b> Q`, in one multiscalar
    /// multiplication that must give the identity (see [`k_mega_scalars`] and
    /// [`k_mega_points`]).
    ///
    /// Generator vectors of different lengths, or empty ones, are an
    /// `InvalidGeneratorsLength`; a proof that is not valid, or whose final vectors do
    /// not have the length that `n`, `k` and `d` give, is a `VerificationError`. All
    /// of these are detected before the transcript is touched.
    pub fn verify(
        &self,
        transcript: &mut Transcript,
        g_vec: &Vec<RistrettoPoint>,
        h_vec: &Vec<RistrettoPoint>,
        Q_point: &RistrettoPoint,
        P_point: &RistrettoPoint,
    ) -> (r: Result<(), ProofError>)
        ensures
            h_vec@.len() != g_vec@.len() || g_vec@.len() == 0 ==> r == Err::<(), ProofError>(ProofError::InvalidGeneratorsLength)
                && *final(transcript) == *old(transcript),
            h_vec@.len() == g_vec@.len() && g_vec@.len() > 0 && !(self.wf() && self.U_vecs@.len() < usize::MAX)
                ==> r == Err::<(), ProofError>(ProofError::VerificationError) && *final(transcript) == *old(transcript),
            h_vec@.len() == g_vec@.len() && g_vec@.len() > 0 && self.wf() && self.U_vecs@.len() < usize::MAX
                && self.a_final@.len() != fold_len(g_vec@.len() as nat, self.k as nat, self.U_vecs@.len() as nat)
                ==> r == Err::<(), ProofError>(ProofError::VerificationError) && *final(transcript) == *old(transcript),
            h_vec@.len() == g_vec@.len() && g_vec@.len() > 0 && self.wf() && self.U_vecs@.len() < usize::MAX
                && self.a_final@.len() == fold_len(g_vec@.len() as nat, self.k as nat, self.U_vecs@.len() as nat)
                ==> exists|ch: Seq<Scalar>, out: (Vec<Scalar>, Vec<Scalar>, Scalar, Scalar, Vec<Scalar>)|
                    ch.len() == self.U_vecs@.len() && #[trigger] k_scalars_are(*self, g_vec@.len() as nat, ch, out)
                    && (r.is_ok() <==> is_identity_of(msm_of(k_mega_scalars(out), k_mega_points(*self, g_vec@, h_vec@, *Q_point, *P_point)))),
            r matches Err(e) ==> e != ProofError::FormatError,
    {
        let n = g_vec.len();
        if h_vec.len() != n || n == 0 {
            return Err(ProofError::InvalidGeneratorsLength);
        }
        if self.U_vecs.len() == usize::MAX || !self.is_well_formed() {
            return Err(ProofError::VerificationError);
        }
        let out = match self.verification_scalars(n, transcript) {
            Ok(t) => t,
            Err(e) => {
                return Err(e);
            },
        };
        let ghost ch = choose|ch: Seq<Scalar>| ch.len() == self.U_vecs@.len() && k_scalars_are(*self, n as nat, ch, out);
        let (s_g, s_h, s_Q, s_P, s_U) = out;
        let ghost ms = k_mega_scalars(out);
        let mut scalars: Vec<Scalar> = Vec::new();
        let mut points: Vec<RistrettoPoint> = Vec::new();
        append_block(&mut scalars, s_g.as_slice(), 0, n);
        append_block(&mut points, g_vec.as_slice(), 0, n);
        append_block(&mut scalars, s_h.as_slice(), 0, n);
        append_block(&mut points, h_vec.as_slice(), 0, n);
        scalars.push(s_Q);
        points.push(*Q_point);
        scalars.push(s_P.neg());
        points.push(*P_point);
        proof {
            assert(g_vec@.subrange(0, n as int) =~= g_vec@);
            assert(h_vec@.subrange(0, n as int) =~= h_vec@);
            assert(points@ =~= g_vec@ + h_vec@ + seq![*Q_point, *P_point]);
            assert forall|i: int| 0 <= i < 2 * n + 2 implies (#[trigger] scalars@[i]).val() % group_order() == ms[i] by {
                if i < n {
                    assert(scalars@[i] == s_g@[i]);
                } else if i < 2 * n {
                    assert(scalars@[i] == s_h@[i - n]);
                }
            }
        }
        let ghost base = points@;
        let ghost w: int = 2 * self.k - 2;
        let d = self.U_vecs.len();
        let mut r: usize = 0;
        while r < d
            invariant
                self.wf(),
                w == self.width(),
                d == self.U_vecs@.len(),
                r <= d,
                points@ == base + Seq::new((r * w) as nat, |j: int| decompress_of(self.point_at(j).bytes@)),
            decreases d - r,
        {
            let round = &self.U_vecs[r];
            let mut i: usize = 0;
            while i < round.len()
                invariant
                    self.wf(),
                    w == self.width(),
                    d == self.U_vecs@.len(),
                    r < d,
                    round@ == self.U_vecs@[r as int]@,
                    round@.len() == w,
                    i <= round@.len(),
                    points@ == base + Seq::new((r * w + i) as nat, |j: int| decompress_of(self.point_at(j).bytes@)),
                decreases round@.len() - i,
            {
                let ghost j = r * w + i;
                proof {
                    assert(0 <= j < d * w) by (nonlinear_arith)
                        requires
                            j == r * w + i,
                            i < w,
                            r < d,
                    ;
                    lemma_fundamental_div_mod_converse_div(j, w, r as int, i as int);
                    lemma_fundamental_div_mod_converse_mod(j, w, r as int, i as int);
                    assert(self.point_at(j) == round@[i as int]);
                    assert(decompresses(self.point_at(j).bytes@));
                }
                let p = match decompress(&round[i]) {
                    Some(p) => p,
                    None => {
                        return Err(ProofError::VerificationError);
                    },
                };
                points.push(p);
                proof {
                    assert(points@ =~= base + Seq::new((r * w + i + 1) as nat, |jj: int| decompress_of(self.point_at(jj).bytes@)));
                }
                i = i + 1;
            }
            proof {
                assert(r * w + w == (r + 1) * w) by (nonlinear_arith);
            }
            r = r + 1;
        }
        let ghost sbase = scalars@;
        let mut t: usize = 0;
        while t < s_U.len()
            invariant
                t <= s_U@.len(),
                scalars@.len() == sbase.len() + t,
                forall|i: int| 0 <= i < sbase.len() ==> scalars@[i] == sbase[i],
                forall|i: int| 0 <= i < t ==> (#[trigger] scalars@[sbase.len() + i]).val() == fneg(s_U@[i].val()),
            decreases s_U@.len() - t,
        {
            scalars.push(s_U[t].neg());
            t = t + 1;
        }
        proof {
            assert(sbase.len() == 2 * n + 2);
            assert(u_points(*self) =~= Seq::new((d * w) as nat, |j: int| decompress_of(self.point_at(j).bytes@)));
            assert(points@ =~= k_mega_points(*self, g_vec@, h_vec@, *Q_point, *P_point));
            assert forall|i: int| 0 <= i < scalars@.len() implies #[trigger] scalar_ints(scalars@)[i] == ms[i] by {
                if i >= 2 * n + 2 {
                    assert(scalars@[sbase.len() + (i - sbase.len())].val() == fneg(s_U@[i - sbase.len()].val()));
                } else {
                    assert(scalars@[i] == sbase[i]);
                }
            }
            assert(scalar_ints(scalars@) =~= ms);
        }
        let check = msm(scalars.as_slice(), points.as_slice());
        proof {
            assert(k_scalars_are(*self, n as nat, ch, out));
        }
        if is_identity(&check) {
            Ok(())
        } else {
            Err(ProofError::VerificationError)
        }
    }
}

/// The scalars of the verification check, in order: `s_g`, `s_h`, `s_Q`, `-s_P`, and
/// `-s_U`, reduced modulo the group order.
pub open spec fn k_mega_scalars(out: (Vec<Scalar>, Vec<Scalar>, Scalar, Scalar, Vec<Scalar>)) -> Seq<nat> {
    scalar_ints(out.0@) + scalar_ints(out.1@) + seq![out.2.val() % group_order(), fneg(out.3.val()) % group_order()]
        + Seq::new(out.4@.len(), |i: int| fneg(out.4@[i].val()) % group_order())
}

/// The stored cross-term points, decompressed, in round-major order.
pub open spec fn u_points(p: K_BulletProof) -> Seq<RistrettoPoint> {
    Seq::new(p.num_points() as nat, |j: int| decompress_of(p.point_at(j).bytes@))
}

/// The points of the verification check, in order: `G`, `H`, `Q`, `P` and the
/// cross-term points.
pub open spec fn k_mega_points(p: K_BulletProof, g: Seq<RistrettoPoint>, h: Seq<RistrettoPoint>, q: RistrettoPoint, pp: RistrettoPoint) -> Seq<RistrettoPoint> {
    g + h + seq![q, pp] + u_points(p)
}

} // verus!

verus! {

/// With arity two the cross terms of a round reduce to one pair `(L, R)`: a valid
/// proof holds exactly two points per round, and its encoding has `3 + 2d + 2m` words.
pub proof fn lemma_arity_two_rounds(p: K_BulletProof)
    requires
        p.wf(),
        p.k == 2,
    ensures
        forall|r: int| 0 <= r < p.U_vecs@.len() ==> (#[trigger] p.U_vecs@[r])@.len() == 2,
        p.num_words() == 3 + 2 * p.U_vecs@.len() + 2 * p.a_final@.len(),
{
    assert(p.width() == 2);
    assert(p.num_points() == p.U_vecs@.len() * 2);
}

} // verus!
