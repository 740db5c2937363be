//! The batched consistency argument: one vector folded against two generator sets.
use vstd::prelude::*;
use vstd::string::StringSliceAdditionalSpecFns;
use vstd::arithmetic::div_mod::{lemma_fundamental_div_mod, lemma_fundamental_div_mod_converse_div, lemma_fundamental_div_mod_converse_mod};
use crate::bytes::{join_words, lemma_join_words_word, lemma_join_words_prefix, push_all, push_u64_word, read32, read_u64, u64_le_bytes, u64_word, word_matches};
use crate::errors::ProofError;
use crate::fold::{append_block, expand_backward, expanded, fold_blocks, pad_to, pad_val, powers, scaled_powers, suffix_prod, suffix_products, vals_of};
use crate::k_bullet::{a_coeffs, absorb_header, fold_chain, header_at, header_is, inv_vals, invert_all, lemma_fold_chain_step, lemma_header_word};
use crate::point::{add_points, compress, compress_of, decompress, decompress_of, decompresses, identity, is_identity, is_identity_of, msm, msm_of, scalar_ints, scalar_mul, CompressedPoint};
use crate::rounds::{fold_len, lemma_fold_len_le, lemma_fold_len_step, reconstruct_round_lengths, round_lens};
use crate::scalar::{fmul, fneg, fpow, group_order, le_value, scalar_pow, Scalar};
use crate::transcript::{append_message, challenge_scalar, commit_point};
use curve25519_dalek::ristretto::RistrettoPoint;
use merlin::Transcript;

verus! {

/// A batched consistency proof: `d` rounds of `2k - 2` pairs of cross-term points
/// (one per generator set), and the folded vector `z` of length `m`.
#[derive(Clone, Debug)]
pub struct batched_eCP {
    pub k: usize,
    pub A_vecs: Vec<Vec<[CompressedPoint; 2]>>,
    pub z: Vec<Scalar>,
}

/// The mathematical content of a [`batched_eCP`].
pub struct BatchedModel {
    pub k: nat,
    pub rounds: Seq<Seq<[CompressedPoint; 2]>>,
    pub z: Seq<Scalar>,
}

impl View for batched_eCP {
    type V = BatchedModel;

    open spec fn view(&self) -> BatchedModel {
        BatchedModel {
            k: self.k as nat,
            rounds: self.A_vecs@.map_values(|v: Vec<[CompressedPoint; 2]>| v@),
            z: self.z@,
        }
    }
}

/// Whether `b` is the encoding of a valid batched consistency proof: a header
/// `k >= 2`, `d`, `m`, exactly `2 * d * (2k - 2)` decompressable points and `m`
/// canonical scalars.
#[verifier::opaque]
pub open spec fn valid_batched_encoding(b: Seq<u8>) -> bool {
    b.len() >= 96 && {
        let k = header_at(b, 0);
        let d = header_at(b, 1);
        let m = header_at(b, 2);
        let np = 2 * (d * (2 * k - 2));
        &&& forall|j: int| 0 <= j < 3 ==> #[trigger] b.subrange(32 * j, 32 * j + 32) == u64_word(header_at(b, j) as u64)
        &&& k >= 2
        &&& k <= usize::MAX && d <= usize::MAX && m <= usize::MAX
        &&& b.len() == 32 * (3 + np + m)
        &&& forall|j: int| 3 <= j < 3 + np ==> decompresses(#[trigger] b.subrange(32 * j, 32 * j + 32))
        &&& forall|j: int| 3 + np <= j < 3 + np + m ==> le_value(#[trigger] b.subrange(32 * j, 32 * j + 32)) < group_order()
    }
}

impl batched_eCP {
    /// Pairs per round.
    pub open spec fn width(&self) -> int {
        2 * self.k - 2
    }

    /// Number of stored pairs.
    pub open spec fn num_pairs(&self) -> int {
        self.A_vecs@.len() * self.width()
    }

    /// Every round holds `2k - 2` pairs.
    pub open spec fn well_shaped(&self) -> bool {
        &&& self.k >= 1
        &&& forall|r: int| 0 <= r < self.A_vecs@.len() ==> (#[trigger] self.A_vecs@[r])@.len() == self.width()
    }

    /// The stored point with flat index `j`: pairs round by round, first then second.
    pub open spec fn point_at(&self, j: int) -> CompressedPoint {
        self.A_vecs@[(j / 2) / self.width()]@[(j / 2) % self.width()][j % 2]
    }

    /// Word `j` of the encoding.
    pub open spec fn word(&self, j: int) -> Seq<u8> {
        let np = 2 * self.num_pairs();
        if j == 0 {
            u64_word(self.k as u64)
        } else if j == 1 {
            u64_word(self.A_vecs@.len() as u64)
        } else if j == 2 {
            u64_word(self.z@.len() as u64)
        } else if j < 3 + np {
            self.point_at(j - 3).bytes@
        } else {
            self.z@[j - 3 - np].bytes@
        }
    }

    /// Number of 32-byte words in the encoding.
    pub open spec fn num_words(&self) -> int {
        3 + 2 * self.num_pairs() + self.z@.len()
    }

    /// The encoding: `k`, `d`, `m` as padded words, the pairs round by round, then `z`.
    #[verifier::opaque]
    pub open spec fn encoding(&self) -> Seq<u8> {
        join_words(self.num_words() as nat, |j: int| self.word(j))
    }

    /// A valid proof: well shaped, `k >= 2`, every point decompressable, every scalar canonical.
    pub open spec fn wf(&self) -> bool {
        &&& self.well_shaped()
        &&& self.k >= 2
        &&& self.A_vecs@.len() <= usize::MAX
        &&& self.z@.len() <= usize::MAX
        &&& forall|j: int| 0 <= j < 2 * self.num_pairs() ==> decompresses(#[trigger] self.point_at(j).bytes@)
        &&& forall|j: int| 0 <= j < self.z@.len() ==> (#[trigger] self.z@[j]).wf()
    }
}

/// Reads two compressed points at `pos`, if both decompress.
fn read_pair(s: &[u8], pos: usize) -> (r: Option<[CompressedPoint; 2]>)
    requires
        pos + 64 <= s@.len(),
    ensures
        r.is_some() == (decompresses(s@.subrange(pos as int, pos + 32)) && decompresses(s@.subrange(pos + 32, pos + 64))),
        r matches Some(pr) ==> pr[0].bytes@ == s@.subrange(pos as int, pos + 32) && pr[1].bytes@ == s@.subrange(pos + 32, pos + 64),
{
    let _n = s.len();
    let p0 = CompressedPoint { bytes: read32(s, pos) };
    if decompress(&p0).is_none() {
        return None;
    }
    let p1 = CompressedPoint { bytes: read32(s, pos + 32) };
    if decompress(&p1).is_none() {
        return None;
    }
    Some([p0, p1])
}

proof fn lemma_pair_index(j: int, w: int, np: int, d: int)
    requires
        0 <= j < 2 * np,
        np == d * w,
        w >= 2,
    ensures
        0 <= (j / 2) / w < d,
        0 <= (j / 2) % w < w,
        0 <= j % 2 < 2,
        j == 2 * ((j / 2) / w * w + (j / 2) % w) + j % 2,
{
    let p = j / 2;
    lemma_fundamental_div_mod(p, w);
    assert(0 <= p / w < d) by (nonlinear_arith)
        requires
            0 <= p < np,
            np == d * w,
            w >= 2,
            p == w * (p / w) + p % w,
            0 <= p % w < w,
    ;
    assert(p / w * w == w * (p / w)) by (nonlinear_arith);
}

pub(crate) proof fn lemma_pair_flat(rr: int, ii: int, e: int, w: int, d: int)
    requires
        0 <= rr < d,
        0 <= ii < w,
        0 <= e < 2,
        w >= 2,
    ensures
        0 <= 2 * (rr * w + ii) + e < 2 * (d * w),
        ((2 * (rr * w + ii) + e) / 2) / w == rr,
        ((2 * (rr * w + ii) + e) / 2) % w == ii,
        (2 * (rr * w + ii) + e) % 2 == e,
{
    let j = 2 * (rr * w + ii) + e;
    assert(0 <= rr * w + ii < d * w) by (nonlinear_arith)
        requires
            0 <= rr < d,
            0 <= ii < w,
    ;
    lemma_fundamental_div_mod_converse_div(j, 2, rr * w + ii, e);
    lemma_fundamental_div_mod_converse_mod(j, 2, rr * w + ii, e);
    lemma_fundamental_div_mod_converse_div(rr * w + ii, w, rr, ii);
    lemma_fundamental_div_mod_converse_mod(rr * w + ii, w, rr, ii);
}

impl batched_eCP {
    /// Size in bytes of the encoding.
    pub fn serialized_size(&self) -> (r: usize)
        requires
            self.well_shaped(),
            32 * self.num_words() <= usize::MAX,
        ensures
            r == 32 * self.num_words(),
    {
        let d = self.A_vecs.len();
        let m = self.z.len();
        let ghost w = self.width();
        proof {
            assert(d * w >= 0 && (d > 0 ==> w <= d * w) && (d == 0 ==> d * w == 0)) by (nonlinear_arith)
                requires
                    d >= 0,
                    w >= 0,
            ;
        }
        let num_points = if d > 0 { d * (2 * self.k - 2) * 2 } else { 0 };
        proof {
            assert(num_points == 2 * (d * w));
        }
        (3 + num_points + m) * 32
    }

    /// Encodes the proof.
    pub fn to_bytes(&self) -> (r: Vec<u8>)
        requires
            self.well_shaped(),
        ensures
            r@ == self.encoding(),
    {
        proof {
            reveal(batched_eCP::encoding);
            reveal(valid_batched_encoding);
            reveal(batched_eCP::encoding);
        }
        let ghost enc = self.encoding();
        let ghost f = |j: int| self.word(j);
        let ghost nw = self.num_words() as nat;
        let d = self.A_vecs.len();
        let m = self.z.len();
        let mut buf: Vec<u8> = Vec::new();
        proof {
            reveal(batched_eCP::encoding);
            reveal(valid_batched_encoding);
            assert(self.num_pairs() >= 0) by (nonlinear_arith)
                requires
                    self.num_pairs() == self.A_vecs@.len() * self.width(),
                    self.width() >= 0,
            ;
            lemma_join_words_prefix(nw, f, 0);
            lemma_join_words_prefix(nw, f, 1);
            lemma_join_words_prefix(nw, f, 2);
            assert(enc.subrange(0, 0) =~= Seq::<u8>::empty());
        }
        push_u64_word(&mut buf, self.k as u64);
        push_u64_word(&mut buf, d as u64);
        push_u64_word(&mut buf, m as u64);
        let mut r: usize = 0;
        while r < d
            invariant
                self.well_shaped(),
                d == self.A_vecs@.len(),
                m == self.z@.len(),
                enc == self.encoding(),
                nw == self.num_words(),
                f == (|j: int| self.word(j)),
                self.num_pairs() >= 0,
                r <= d,
                buf@ == enc.subrange(0, 32 * (3 + 2 * (r * self.width()))),
            decreases d - r,
        {
            let round = &self.A_vecs[r];
            let mut i: usize = 0;
            while i < round.len()
                invariant
                    self.well_shaped(),
                    d == self.A_vecs@.len(),
                    m == self.z@.len(),
                    enc == self.encoding(),
                    nw == self.num_words(),
                    f == (|j: int| self.word(j)),
                    self.num_pairs() >= 0,
                    r < d,
                    round@ == self.A_vecs@[r as int]@,
                    i <= round@.len(),
                    buf@ == enc.subrange(0, 32 * (3 + 2 * (r * self.width() + i))),
                decreases round@.len() - i,
            {
                proof {
                    reveal(batched_eCP::encoding);
                    reveal(valid_batched_encoding);
                    let w = self.width();
                    lemma_pair_flat(r as int, i as int, 0, w, d as int);
                    lemma_pair_flat(r as int, i as int, 1, w, d as int);
                    let j = 2 * (r * w + i);
                    assert(self.point_at(j) == round@[i as int][0]);
                    assert(self.point_at(j + 1) == round@[i as int][1]);
                    lemma_join_words_prefix(nw, f, 3 + j);
                    lemma_join_words_prefix(nw, f, 3 + j + 1);
                }
                let pair = round[i];
                push_all(&mut buf, pair[0].bytes.as_slice());
                push_all(&mut buf, pair[1].bytes.as_slice());
                i = i + 1;
            }
            proof {
                reveal(batched_eCP::encoding);
                reveal(valid_batched_encoding);
                assert(r * self.width() + self.width() == (r + 1) * self.width()) by (nonlinear_arith);
            }
            r = r + 1;
        }
        let ghost np = 2 * self.num_pairs();
        let mut i: usize = 0;
        while i < m
            invariant
                self.well_shaped(),
                m == self.z@.len(),
                enc == self.encoding(),
                nw == self.num_words(),
                f == (|j: int| self.word(j)),
                np == 2 * self.num_pairs(),
                np >= 0,
                i <= m,
                buf@ == enc.subrange(0, 32 * (3 + np + i)),
            decreases m - i,
        {
            proof {
                reveal(batched_eCP::encoding);
                reveal(valid_batched_encoding);
                lemma_join_words_prefix(nw, f, 3 + np + i);
            }
            push_all(&mut buf, self.z[i].bytes.as_slice());
            i = i + 1;
        }
        proof {
            reveal(batched_eCP::encoding);
            reveal(valid_batched_encoding);
            assert(buf@ =~= enc);
        }
        buf
    }

    /// Decodes a proof. Succeeds exactly on the encodings of valid proofs
    /// (see [`valid_batched_encoding`]); anything else is a `FormatError`.
    #[verifier::rlimit(100)]
    pub fn from_bytes(slice: &[u8]) -> (r: Result<batched_eCP, ProofError>)
        ensures
            r.is_ok() == valid_batched_encoding(slice@),
            r matches Ok(p) ==> p.wf() && p.encoding() == slice@,
            r matches Err(e) ==> e == ProofError::FormatError,
    {
        proof {
            reveal(valid_batched_encoding);
            reveal(valid_batched_encoding);
        }
        let b = slice.len();
        if b < 96 || b % 32 != 0 {
            return Err(ProofError::FormatError);
        }
        let k64 = read_u64(slice, 0);
        let d64 = read_u64(slice, 32);
        let m64 = read_u64(slice, 64);
        let ghost bs = slice@;
        proof {
            reveal(valid_batched_encoding);
            assert(header_at(bs, 0) == k64);
            assert(header_at(bs, 1) == d64);
            assert(header_at(bs, 2) == m64);
        }
        if !word_matches(slice, 0, k64) || !word_matches(slice, 32, d64) || !word_matches(slice, 64, m64) {
            proof {
                reveal(valid_batched_encoding);
                if valid_batched_encoding(bs) {
                    assert(bs.subrange(32 * 0int, 32 * 0int + 32) == u64_word(header_at(bs, 0) as u64));
                    assert(bs.subrange(32 * 1int, 32 * 1int + 32) == u64_word(header_at(bs, 1) as u64));
                    assert(bs.subrange(32 * 2int, 32 * 2int + 32) == u64_word(header_at(bs, 2) as u64));
                }
            }
            return Err(ProofError::FormatError);
        }
        if k64 < 2 || k64 > usize::MAX as u64 || d64 > usize::MAX as u64 || m64 > usize::MAX as u64 {
            return Err(ProofError::FormatError);
        }
        let words: u64 = (b / 32 - 3) as u64;
        proof {
            reveal(valid_batched_encoding);
            assert(b == 32 * (3 + words));
        }
        if m64 > words {
            proof {
                reveal(valid_batched_encoding);
                if valid_batched_encoding(bs) {
                    assert(d64 * (2 * k64 - 2) >= 0) by (nonlinear_arith)
                        requires
                            d64 >= 0,
                            k64 >= 2,
                    ;
                }
            }
            return Err(ProofError::FormatError);
        }
        let rest: u64 = words - m64;
        proof {
            reveal(valid_batched_encoding);
            assert(header_is(bs, k64, d64, m64));
        }
        let ghost w_int: int = 2 * k64 - 2;
        let ghost q_int: int = 4 * k64 - 4;
        let shape_ok = if d64 == 0 {
            rest == 0
        } else {
            rest % d64 == 0 && (rest / d64) % 4 == 0 && (rest / d64) / 4 == k64 - 1
        };
        proof {
            reveal(valid_batched_encoding);
            assert(2 * (d64 * w_int) == d64 * q_int) by (nonlinear_arith)
                requires
                    w_int == 2 * k64 - 2,
                    q_int == 4 * k64 - 4,
            ;
            if d64 == 0 {
                assert(d64 * q_int == 0);
            } else {
                if rest == d64 * q_int {
                    lemma_fundamental_div_mod_converse_div(rest as int, d64 as int, q_int, 0);
                    lemma_fundamental_div_mod_converse_mod(rest as int, d64 as int, q_int, 0);
                    assert(d64 * q_int == q_int * d64 + 0) by (nonlinear_arith);
                }
                if shape_ok {
                    lemma_fundamental_div_mod(rest as int, d64 as int);
                    assert(rest == d64 * q_int) by (nonlinear_arith)
                        requires
                            rest == d64 * (rest / d64) + rest % d64,
                            rest % d64 == 0,
                            rest / d64 == q_int,
                    ;
                }
            }
            assert(shape_ok == (rest == 2 * (d64 * w_int)));
        }
        if !shape_ok {
            return Err(ProofError::FormatError);
        }
        let k = k64 as usize;
        let d = d64 as usize;
        let m = m64 as usize;
        let w: usize = if d > 0 { 2 * k - 2 } else { 0 };
        proof {
            reveal(valid_batched_encoding);
            if d > 0 {
                assert(w_int <= d64 * w_int) by (nonlinear_arith)
                    requires
                        d64 >= 1,
                        w_int >= 0,
                ;
            }
        }
        let ghost np: int = 2 * (d * w_int);
        proof {
            reveal(valid_batched_encoding);
            assert(b == 32 * (3 + np + m));
        }
        let mut A_vecs: Vec<Vec<[CompressedPoint; 2]>> = Vec::new();
        let mut pos: usize = 96;
        let mut r: usize = 0;
        while r < d
            invariant
                bs == slice@,
                b == bs.len(),
                header_is(bs, k64, d64, m64),
                k == k64 && d == d64 && m == m64,
                w_int == 2 * k64 - 2,
                k64 >= 2,
                b == 32 * (3 + np + m),
                d > 0 ==> w == w_int,
                w_int >= 2,
                np == 2 * (d * w_int),
                r <= d,
                pos == 32 * (3 + 2 * (r * w_int)),
                A_vecs@.len() == r,
                forall|rr: int| 0 <= rr < r ==> (#[trigger] A_vecs@[rr])@.len() == w_int,
                forall|rr: int, ii: int, e: int|
                    0 <= rr < r && 0 <= ii < w_int && 0 <= e < 2 ==> (#[trigger] A_vecs@[rr]@[ii][e]).bytes@ == bs.subrange(
                        32 * (3 + 2 * (rr * w_int + ii) + e),
                        32 * (3 + 2 * (rr * w_int + ii) + e) + 32,
                    ) && decompresses(A_vecs@[rr]@[ii][e].bytes@),
                forall|j: int| 3 <= j < 3 + 2 * (r * w_int) ==> decompresses(#[trigger] bs.subrange(32 * j, 32 * j + 32)),
            decreases d - r,
        {
            let mut round: Vec<[CompressedPoint; 2]> = Vec::new();
            let mut i: usize = 0;
            while i < w
                invariant
                    bs == slice@,
                    b == bs.len(),
                    header_is(bs, k64, d64, m64),
                    k == k64 && d == d64 && m == m64,
                    w_int == 2 * k64 - 2,
                    k64 >= 2,
                    b == 32 * (3 + np + m),
                    w == w_int,
                    w_int >= 2,
                    np == 2 * (d * w_int),
                    r < d,
                    i <= w,
                    pos == 32 * (3 + 2 * (r * w_int + i)),
                    round@.len() == i,
                    forall|ii: int, e: int|
                        0 <= ii < i && 0 <= e < 2 ==> (#[trigger] round@[ii][e]).bytes@ == bs.subrange(
                            32 * (3 + 2 * (r * w_int + ii) + e),
                            32 * (3 + 2 * (r * w_int + ii) + e) + 32,
                        ) && decompresses(round@[ii][e].bytes@),
                    forall|j: int| 3 <= j < 3 + 2 * (r * w_int + i) ==> decompresses(#[trigger] bs.subrange(32 * j, 32 * j + 32)),
                decreases w - i,
            {
                proof {
                    reveal(valid_batched_encoding);
                    assert(r * w_int + i < d * w_int) by (nonlinear_arith)
                        requires
                            i < w_int,
                            r < d,
                    ;
                }
                let pair = match read_pair(slice, pos) {
                    Some(pr) => pr,
                    None => {
                        proof {
                            reveal(valid_batched_encoding);
                            let j = 3 + 2 * (r * w_int + i);
                            assert(32 * (j + 1) == pos + 32);
                            assert(3 <= j && j + 1 < 3 + np);
                            if decompresses(bs.subrange(pos as int, pos + 32)) {
                                assert(bs.subrange(32 * (j + 1), 32 * (j + 1) + 32) == bs.subrange(pos + 32, pos + 64));
                                assert(!decompresses(bs.subrange(32 * (j + 1), 32 * (j + 1) + 32)));
                            } else {
                                assert(!decompresses(bs.subrange(32 * j, 32 * j + 32)));
                            }
                        }
                        return Err(ProofError::FormatError);
                    },
                };
                round.push(pair);
                pos = pos + 64;
                i = i + 1;
            }
            A_vecs.push(round);
            proof {
                reveal(valid_batched_encoding);
                assert(r * w_int + w_int == (r + 1) * w_int) by (nonlinear_arith);
            }
            r = r + 1;
        }
        proof {
            reveal(valid_batched_encoding);
            if d == 0 {
                assert(r * w_int == 0);
            }
            assert(pos == 32 * (3 + np));
        }
        let mut z: Vec<Scalar> = Vec::new();
        let mut i: usize = 0;
        while i < m
            invariant
                bs == slice@,
                b == bs.len(),
                header_is(bs, k64, d64, m64),
                k == k64 && d == d64 && m == m64,
                w_int == 2 * k64 - 2,
                k64 >= 2,
                np == 2 * (d * w_int),
                b == 32 * (3 + np + m),
                i <= m,
                pos == 32 * (3 + np + i),
                z@.len() == i,
                forall|ii: int|
                    0 <= ii < i ==> (#[trigger] z@[ii]).bytes@ == bs.subrange(
                        32 * (3 + np + ii),
                        32 * (3 + np + ii) + 32,
                    ) && z@[ii].wf(),
                forall|j: int|
                    3 + np <= j < 3 + np + i ==> le_value(#[trigger] bs.subrange(32 * j, 32 * j + 32)) < group_order(),
            decreases m - i,
        {
            let bytes = read32(slice, pos);
            match Scalar::from_canonical_bytes(bytes) {
                Some(s) => {
                    z.push(s);
                },
                None => {
                    proof {
                        reveal(valid_batched_encoding);
                        let j = 3 + np + i;
                        assert(bs.subrange(32 * j, 32 * j + 32) == bytes@);
                    }
                    return Err(ProofError::FormatError);
                },
            }
            pos = pos + 32;
            i = i + 1;
        }
        let p = batched_eCP { k, A_vecs, z };
        proof {
            reveal(valid_batched_encoding);
            assert(p.width() == w_int);
            assert(2 * p.num_pairs() == np);
            assert forall|j: int| 0 <= j < np implies p.point_at(j).bytes@ == bs.subrange(32 * (3 + j), 32 * (3 + j) + 32)
                && decompresses(#[trigger] p.point_at(j).bytes@) by {
                lemma_pair_index(j, w_int, d * w_int, d as int);
                let rr = (j / 2) / w_int;
                let ii = (j / 2) % w_int;
                let e = j % 2;
                assert(p.A_vecs@[rr]@[ii][e] == p.point_at(j));
            }
            assert forall|jw: int| 0 <= jw < p.num_words() implies #[trigger] p.word(jw) == bs.subrange(32 * jw, 32 * jw + 32) by {
                if jw == 0 {
                    assert(bs.subrange(0, 32) == u64_word(k64));
                } else if jw == 1 {
                    assert(bs.subrange(32, 64) == u64_word(d64));
                } else if jw == 2 {
                    assert(bs.subrange(64, 96) == u64_word(m64));
                } else if jw >= 3 && jw < 3 + np {
                    assert(p.point_at(jw - 3).bytes@ == bs.subrange(32 * (3 + (jw - 3)), 32 * (3 + (jw - 3)) + 32));
                }
            }
            reveal(batched_eCP::encoding);
            let enc = p.encoding();
            assert(enc.len() == bs.len());
            assert forall|t: int| 0 <= t < bs.len() implies enc[t] == bs[t] by {
                let jw = t / 32;
                assert(0 <= jw < p.num_words());
                assert(p.word(jw) == bs.subrange(32 * jw, 32 * jw + 32));
            }
            assert(enc =~= bs);
        }
        Ok(p)
    }
}

proof fn lemma_b_words(p: batched_eCP, j: int)
    requires
        p.wf(),
        0 <= j < p.num_words(),
    ensures
        p.encoding().subrange(32 * j, 32 * j + 32) == p.word(j),
        p.encoding().len() == 32 * p.num_words(),
{
    reveal(batched_eCP::encoding);
    assert(p.num_pairs() >= 0) by (nonlinear_arith)
        requires
            p.num_pairs() == p.A_vecs@.len() * p.width(),
            p.width() >= 0,
    ;
    if 3 <= j < 3 + 2 * p.num_pairs() {
        lemma_pair_index(j - 3, p.width(), p.num_pairs(), p.A_vecs@.len() as int);
        assert(p.A_vecs@[((j - 3) / 2) / p.width()]@.len() == p.width());
    }
    lemma_join_words_word(p.num_words() as nat, |i: int| p.word(i), j);
}

/// Encoding then decoding gives back the proof: the encoding of a valid proof is
/// one that [`batched_eCP::from_bytes`] accepts, and no other valid proof has the
/// same encoding.
pub proof fn lemma_batched_round_trip(p: batched_eCP, q: batched_eCP)
    requires
        p.wf(),
    ensures
        valid_batched_encoding(p.encoding()),
        q.wf() && q.encoding() == p.encoding() ==> q@ == p@,
{
    reveal(valid_batched_encoding);
    let enc = p.encoding();
    let np = 2 * p.num_pairs();
    let m = p.z@.len() as int;
    lemma_b_words(p, 0);
    lemma_b_words(p, 1);
    lemma_b_words(p, 2);
    lemma_header_word(enc, 0, p.k as u64);
    lemma_header_word(enc, 1, p.A_vecs@.len() as u64);
    lemma_header_word(enc, 2, m as u64);
    assert(np == 2 * (header_at(enc, 1) * (2 * header_at(enc, 0) - 2)));
    assert forall|j: int| 0 <= j < 3 implies #[trigger] enc.subrange(32 * j, 32 * j + 32) == u64_word(header_at(enc, j) as u64) by {
        lemma_b_words(p, j);
    }
    assert forall|j: int| 3 <= j < 3 + np implies decompresses(#[trigger] enc.subrange(32 * j, 32 * j + 32)) by {
        lemma_b_words(p, j);
        assert(decompresses(p.point_at(j - 3).bytes@));
    }
    assert forall|j: int| 3 + np <= j < 3 + np + m implies le_value(#[trigger] enc.subrange(32 * j, 32 * j + 32)) < group_order() by {
        lemma_b_words(p, j);
        assert(p.z@[j - 3 - np].wf());
    }
    if q.wf() && q.encoding() == p.encoding() {
        lemma_b_words(q, 0);
        lemma_b_words(q, 1);
        lemma_b_words(q, 2);
        lemma_header_word(enc, 0, q.k as u64);
        lemma_header_word(enc, 1, q.A_vecs@.len() as u64);
        lemma_header_word(enc, 2, q.z@.len() as u64);
        assert(q.k == p.k);
        assert(2 * q.num_pairs() == np);
        assert forall|j: int| 0 <= j < p.num_words() implies #[trigger] q.word(j) == p.word(j) by {
            lemma_b_words(p, j);
            lemma_b_words(q, j);
        }
        let w = p.width();
        let d = p.A_vecs@.len() as int;
        assert forall|rr: int| 0 <= rr < d implies #[trigger] q@.rounds[rr] == p@.rounds[rr] by {
            assert forall|ii: int| 0 <= ii < w implies q.A_vecs@[rr]@[ii] == p.A_vecs@[rr]@[ii] by {
                assert forall|e: int| 0 <= e < 2 implies q.A_vecs@[rr]@[ii][e] == p.A_vecs@[rr]@[ii][e] by {
                    lemma_pair_flat(rr, ii, e, w, d);
                    let j = 2 * (rr * w + ii) + e;
                    assert(q.word(3 + j) == p.word(3 + j));
                    assert(q.A_vecs@[rr]@[ii][e].bytes =~= p.A_vecs@[rr]@[ii][e].bytes);
                }
                assert(q.A_vecs@[rr]@[ii] =~= p.A_vecs@[rr]@[ii]);
            }
            assert(q@.rounds[rr] =~= p@.rounds[rr]);
        }
        assert(q@.rounds =~= p@.rounds);
        assert forall|i: int| 0 <= i < m implies q.z@[i] == p.z@[i] by {
            assert(q.word(3 + np + i) == p.word(3 + np + i));
            assert(q.z@[i].bytes =~= p.z@[i].bytes);
        }
        assert(q.z@ =~= p.z@);
    }
}

/// Block offsets of term `l` (from one) of pair `i`: `(l - 1, k - i + l - 1)` in the
/// upper triangle, `(i + l - 1, l - 1)` in the lower one, as `(a block, base block)`.
pub open spec fn pair_blocks(k: int, i: int, l: int, upper: bool) -> (int, int) {
    if upper {
        (l - 1, k - i + l - 1)
    } else {
        (i + l - 1, l - 1)
    }
}

/// The scalars of the first `t` terms of pair `i`: the `a` blocks.
pub open spec fn pair_scalars(a: Seq<Scalar>, m: int, k: int, i: int, upper: bool, t: int) -> Seq<Scalar>
    decreases t,
{
    if t <= 0 {
        Seq::empty()
    } else {
        let (ab, gb) = pair_blocks(k, i, t, upper);
        pair_scalars(a, m, k, i, upper, t - 1) + a.subrange(ab * m, ab * m + m)
    }
}

/// The base points of the first `t` terms of pair `i`.
pub open spec fn pair_bases(g: Seq<RistrettoPoint>, m: int, k: int, i: int, upper: bool, t: int) -> Seq<RistrettoPoint>
    decreases t,
{
    if t <= 0 {
        Seq::empty()
    } else {
        let (ab, gb) = pair_blocks(k, i, t, upper);
        pair_bases(g, m, k, i, upper, t - 1) + g.subrange(gb * m, gb * m + m)
    }
}

/// Number of terms of pair `i`: `i` in the upper triangle, `k - i` in the lower one.
pub open spec fn pair_count(k: int, i: int, upper: bool) -> int {
    if upper {
        i
    } else {
        k - i
    }
}

/// The compressed pair `i` of a round: the sums of `<a_ab, G_gb>` and of
/// `<a_ab, C1_gb>` over the terms of [`pair_blocks`].
pub open spec fn pair_commit(a: Seq<Scalar>, g: Seq<RistrettoPoint>, c1: Seq<RistrettoPoint>, m: int, k: int, i: int, upper: bool) -> (Seq<u8>, Seq<u8>) {
    let sc = scalar_ints(pair_scalars(a, m, k, i, upper, pair_count(k, i, upper)));
    (
        compress_of(msm_of(sc, pair_bases(g, m, k, i, upper, pair_count(k, i, upper)))),
        compress_of(msm_of(sc, pair_bases(c1, m, k, i, upper, pair_count(k, i, upper)))),
    )
}

/// One pair of cross terms over blocks of length `m` (see [`pair_commit`]).
fn cross_pair(
    a: &Vec<Scalar>,
    g: &Vec<RistrettoPoint>,
    c1: &Vec<RistrettoPoint>,
    m: usize,
    k: usize,
    i: usize,
    upper: bool,
) -> (r: [CompressedPoint; 2])
    requires
        1 <= i < k,
        a@.len() == k * m,
        g@.len() == k * m,
        c1@.len() == k * m,
        k * m <= usize::MAX,
    ensures
        decompresses(r[0].bytes@),
        decompresses(r[1].bytes@),
        (r[0].bytes@, r[1].bytes@) == pair_commit(a@, g@, c1@, m as int, k as int, i as int, upper),
{
    let count = if upper { i } else { k - i };
    let mut sc: Vec<Scalar> = Vec::new();
    let mut p0: Vec<RistrettoPoint> = Vec::new();
    let mut p1: Vec<RistrettoPoint> = Vec::new();
    let mut l: usize = 1;
    while l <= count
        invariant
            1 <= i < k,
            a@.len() == k * m,
            g@.len() == k * m,
            c1@.len() == k * m,
            k * m <= usize::MAX,
            count == pair_count(k as int, i as int, upper),
            1 <= l <= count + 1,
            sc@ == pair_scalars(a@, m as int, k as int, i as int, upper, l - 1),
            p0@ == pair_bases(g@, m as int, k as int, i as int, upper, l - 1),
            p1@ == pair_bases(c1@, m as int, k as int, i as int, upper, l - 1),
            sc@.len() == p0@.len(),
            sc@.len() == p1@.len(),
        decreases count + 1 - l,
    {
        let (ab, gb) = if upper { (l - 1, k - i + l - 1) } else { (i + l - 1, l - 1) };
        proof {
            assert(ab * m + m <= k * m && gb * m + m <= k * m) by (nonlinear_arith)
                requires
                    ab < k,
                    gb < k,
            ;
        }
        append_block(&mut sc, a.as_slice(), ab * m, m);
        append_block(&mut p0, g.as_slice(), gb * m, m);
        append_block(&mut p1, c1.as_slice(), gb * m, m);
        proof {
            assert(sc@ =~= pair_scalars(a@, m as int, k as int, i as int, upper, l as int));
            assert(p0@ =~= pair_bases(g@, m as int, k as int, i as int, upper, l as int));
            assert(p1@ =~= pair_bases(c1@, m as int, k as int, i as int, upper, l as int));
        }
        l = l + 1;
    }
    let q0 = msm(sc.as_slice(), p0.as_slice());
    let q1 = msm(sc.as_slice(), p1.as_slice());
    [compress(&q0), compress(&q1)]
}

/// The pairs of the first round of `p` are the cross terms of the inputs
/// (see [`pair_commit`]), for an input length that is a multiple of `k`.
pub open spec fn first_round_pairs(p: batched_eCP, a: Seq<Scalar>, g: Seq<RistrettoPoint>, c1: Seq<RistrettoPoint>) -> bool {
    let k = p.k as int;
    let m = (a.len() as int) / k;
    forall|i: int| 1 <= i < k ==> pair_bytes(#[trigger] p.A_vecs@[0]@[i - 1]) == pair_commit(a, g, c1, m, k, i, true)
        && pair_bytes(p.A_vecs@[0]@[k - 2 + i]) == pair_commit(a, g, c1, m, k, i, false)
}

/// The encodings of a pair of compressed points.
pub open spec fn pair_bytes(p: [CompressedPoint; 2]) -> (Seq<u8>, Seq<u8>) {
    (p[0].bytes@, p[1].bytes@)
}

/// Absorbs the cross-term pairs of round `round` and derives its challenge.
fn absorb_pairs(transcript: &mut Transcript, round: u64, pairs: &Vec<[CompressedPoint; 2]>) -> (c: Scalar)
    ensures
        c.wf(),
{
    let rb = u64_le_bytes(round);
    let mut idx: usize = 0;
    while idx < pairs.len()
        invariant
            rb@.len() == 8,
        decreases pairs@.len() - idx,
    {
        let ib = u64_le_bytes(idx as u64);
        append_message(transcript, "A_round", rb.as_slice());
        append_message(transcript, "A_index", ib.as_slice());
        let pr = pairs[idx];
        commit_point(transcript, "A_point_0", &pr[0]);
        commit_point(transcript, "A_point_1", &pr[1]);
        idx = idx + 1;
    }
    proof {
        reveal_strlit("c_");
        vstd::string::is_ascii_spec_bytes("c_");
    }
    append_message(transcript, "challenge_prefix", "c_".as_bytes());
    append_message(transcript, "challenge_index", rb.as_slice());
    challenge_scalar(transcript, "challenge_separator")
}

/// Folds the `k` blocks of length `m` of a generator vector with `coeffs`.
fn fold_bases(g: &Vec<RistrettoPoint>, m: usize, coeffs: &Vec<Scalar>) -> (r: Vec<RistrettoPoint>)
    requires
        g@.len() == coeffs@.len() * m,
        coeffs@.len() * m <= usize::MAX,
    ensures
        r@.len() == m,
{
    let k = coeffs.len();
    let mut r: Vec<RistrettoPoint> = Vec::new();
    let mut j: usize = 0;
    while j < m
        invariant
            k == coeffs@.len(),
            g@.len() == k * m,
            k * m <= usize::MAX,
            j <= m,
            r@.len() == j,
        decreases m - j,
    {
        let mut col: Vec<RistrettoPoint> = Vec::new();
        let mut i: usize = 0;
        while i < k
            invariant
                k == coeffs@.len(),
                g@.len() == k * m,
                k * m <= usize::MAX,
                j < m,
                i <= k,
                col@.len() == i,
            decreases k - i,
        {
            proof {
                assert(i * m + j < k * m) by (nonlinear_arith)
                    requires
                        i < k,
                        j < m,
                ;
            }
            col.push(g[i * m + j]);
            i = i + 1;
        }
        r.push(msm(coeffs.as_slice(), col.as_slice()));
        j = j + 1;
    }
    r
}

/// The stored points of a well-shaped proof decompress if, pair by pair, they do.
proof fn lemma_pairs_flat(p: batched_eCP)
    requires
        p.well_shaped(),
        p.k >= 2,
        forall|rr: int, ii: int, e: int|
            0 <= rr < p.A_vecs@.len() && 0 <= ii < p.width() && 0 <= e < 2 ==> decompresses((#[trigger] p.A_vecs@[rr]@[ii][e]).bytes@),
    ensures
        forall|j: int| 0 <= j < 2 * p.num_pairs() ==> decompresses(#[trigger] p.point_at(j).bytes@),
{
    assert forall|j: int| 0 <= j < 2 * p.num_pairs() implies decompresses(#[trigger] p.point_at(j).bytes@) by {
        lemma_pair_index(j, p.width(), p.num_pairs(), p.A_vecs@.len() as int);
        let rr = (j / 2) / p.width();
        let ii = (j / 2) % p.width();
        assert(p.A_vecs@[rr]@[ii][j % 2] == p.point_at(j));
    }
}

/// The verification scalars that the challenges `ch` determine for a proof of
/// length `n`: `(z_s, s_P, s_A)`.
///
/// `s_P` is the product of `c_r^k` over all rounds; `z_s` expands `z` backward with
/// the inverse challenges and is scaled by `s_P`; `s_A` holds, per round `r` and
/// `i = 1..k`, `c_r^i` and then `c_r^(k+i)`, each times the product of `c_q^k`
/// over the later rounds.
pub open spec fn batched_scalars_are(p: batched_eCP, n: nat, ch: Seq<Scalar>, out: (Vec<Scalar>, Scalar, Vec<Scalar>)) -> bool {
    let k = p.k as int;
    let d = p.A_vecs@.len();
    let lens = round_lens(n, k as nat, d);
    let s_p = suffix_prod(ch, k as nat, 0);
    let w = 2 * k - 2;
    &&& out.0@.len() == n
    &&& forall|t: int| 0 <= t < n ==> (#[trigger] out.0@[t]).val() == fmul(expanded(p.z@, lens, inv_vals(ch), 0, t), s_p)
    &&& out.1.val() == s_p
    &&& out.2@.len() == d * w
    &&& forall|r: int, i: int| 0 <= r < d && 1 <= i < k ==> (#[trigger] out.2@[r * w + i - 1]).val() == fmul(
        fpow(ch[r].val(), i as nat), suffix_prod(ch, k as nat, r + 1))
    &&& forall|r: int, i: int| 0 <= r < d && 1 <= i < k ==> (#[trigger] out.2@[r * w + k - 2 + i]).val() == fmul(
        fpow(ch[r].val(), (k + i) as nat), suffix_prod(ch, k as nat, r + 1))
    &&& forall|t: int| 0 <= t < n ==> (#[trigger] out.0@[t]).wf()
    &&& forall|t: int| 0 <= t < d * w ==> (#[trigger] out.2@[t]).wf()
    &&& out.1.wf()
}

impl batched_eCP {
    /// Proves that `a_vec` opens `<a, G>` and `<a, C1>` alike, with fold arity `k`
    /// over `num_rounds` rounds. `C1_vec` is padded with the identity up to `n`.
    ///
    /// Each round pads to a multiple of `k`, commits to `2k - 2` pairs of cross
    /// terms, derives a challenge `c` and folds `a` with the powers `c^i` and both
    /// generator sets with `c^k * c^(-i)`.
    pub fn create(
        transcript: &mut Transcript,
        k: usize,
        G_vec: &[RistrettoPoint],
        C1_vec: &[RistrettoPoint],
        a_vec: &[Scalar],
        num_rounds: usize,
    ) -> (res: batched_eCP)
        requires
            G_vec@.len() == a_vec@.len(),
            C1_vec@.len() <= a_vec@.len(),
            k > 1,
            a_vec@.len() + k <= usize::MAX,
            num_rounds < usize::MAX,
            forall|i: int| 0 <= i < a_vec@.len() ==> (#[trigger] a_vec@[i]).wf(),
        ensures
            res.wf(),
            res.k == k,
            res.A_vecs@.len() == num_rounds,
            res.z@.len() == fold_len(a_vec@.len() as nat, k as nat, num_rounds as nat),
            exists|ch: Seq<nat>| ch.len() == num_rounds
                && vals_of(res.z@) == fold_chain(vals_of(a_vec@), a_vec@.len() as nat, k as nat, ch, num_rounds as nat, false),
            num_rounds >= 1 && (a_vec@.len() as int) % (k as int) == 0 && C1_vec@.len() == a_vec@.len()
                ==> first_round_pairs(res, a_vec@, G_vec@, C1_vec@),
    {
        let n = a_vec.len();
        let ghost av = vals_of(a_vec@);
        let ghost mut chs: Seq<nat> = Seq::empty();
        let mut a_curr: Vec<Scalar> = Vec::new();
        append_block(&mut a_curr, a_vec, 0, n);
        let mut g_curr: Vec<RistrettoPoint> = Vec::new();
        append_block(&mut g_curr, G_vec, 0, n);
        let mut c1_curr: Vec<RistrettoPoint> = Vec::new();
        append_block(&mut c1_curr, C1_vec, 0, C1_vec.len());
        pad_to(&mut c1_curr, n, identity());
        proof {
            assert(g_curr@ =~= G_vec@);
            if C1_vec@.len() == n {
                assert(c1_curr@ =~= C1_vec@);
            }
            reveal_strlit("k_ipp_delay_2");
            vstd::string::is_ascii_spec_bytes("k_ipp_delay_2");
        }
        absorb_header(transcript, "k_ipp_delay_2", n, k);
        let mut A_vecs: Vec<Vec<[CompressedPoint; 2]>> = Vec::new();
        let mut n_j: usize = n;
        let mut j: usize = 0;
        proof {
            assert(a_curr@ =~= a_vec@);
        }
        while j < num_rounds
            invariant
                av == vals_of(a_vec@),
                chs.len() == j,
                vals_of(a_curr@) == fold_chain(av, n as nat, k as nat, chs, j as nat, false),
                j == 0 ==> a_curr@ == a_vec@ && g_curr@ == G_vec@ && (C1_vec@.len() == n ==> c1_curr@ == C1_vec@),
                j > 0 && n % k == 0 && C1_vec@.len() == n ==> forall|i: int| 1 <= i < k ==> pair_bytes(#[trigger] A_vecs@[0]@[i - 1])
                    == pair_commit(a_vec@, G_vec@, C1_vec@, (n as int) / (k as int), k as int, i, true) && pair_bytes(
                    A_vecs@[0]@[k - 2 + i]) == pair_commit(a_vec@, G_vec@, C1_vec@, (n as int) / (k as int), k as int, i, false),
                k > 1,
                n == a_vec@.len(),
                n + k <= usize::MAX,
                j <= num_rounds,
                n_j == fold_len(n as nat, k as nat, j as nat),
                a_curr@.len() == n_j,
                g_curr@.len() == n_j,
                c1_curr@.len() == n_j,
                forall|i: int| 0 <= i < n_j ==> (#[trigger] a_curr@[i]).wf(),
                A_vecs@.len() == j,
                forall|rr: int| 0 <= rr < j ==> (#[trigger] A_vecs@[rr])@.len() == 2 * k - 2,
                forall|rr: int, ii: int, e: int|
                    0 <= rr < j && 0 <= ii < 2 * k - 2 && 0 <= e < 2 ==> decompresses((#[trigger] A_vecs@[rr]@[ii][e]).bytes@),
            decreases num_rounds - j,
        {
            proof {
                lemma_fold_len_le(n as nat, k as nat, j as nat);
            }
            let ghost n_start = n_j;
            let ghost a_before = vals_of(a_curr@);
            let rem = n_j % k;
            if rem != 0 {
                let len = n_j + (k - rem);
                let z = Scalar::zero();
                pad_to(&mut a_curr, len, z);
                pad_to(&mut g_curr, len, identity());
                pad_to(&mut c1_curr, len, identity());
                n_j = len;
            }
            proof {
                assert forall|idx: int| pad_val(vals_of(a_curr@), idx) == pad_val(a_before, idx) by {}
            }
            let ghost a_padded = vals_of(a_curr@);
            let m_j = n_j / k;
            proof {
                lemma_fundamental_div_mod(n_start as int, k as int);
                let q = n_start / k;
                if rem == 0 {
                    assert(n_j == q * k + 0) by (nonlinear_arith)
                        requires
                            n_j == n_start,
                            n_start == k * q + 0,
                    ;
                    lemma_fundamental_div_mod_converse_div(n_j as int, k as int, q as int, 0);
                } else {
                    assert(n_j == (q + 1) * k + 0) by (nonlinear_arith)
                        requires
                            n_j == n_start + (k - rem),
                            n_start == k * q + rem,
                    ;
                    lemma_fundamental_div_mod_converse_div(n_j as int, k as int, (q + 1) as int, 0);
                }
                assert(n_j == k * m_j) by (nonlinear_arith)
                    requires
                        rem == 0 ==> (n_j == q * k && m_j == q),
                        rem != 0 ==> (n_j == (q + 1) * k && m_j == q + 1),
                ;
                assert(m_j == fold_len(n as nat, k as nat, (j + 1) as nat));
            }
            let mut round: Vec<[CompressedPoint; 2]> = Vec::new();
            let mut i: usize = 1;
            while i < k
                invariant
                    k > 1,
                    1 <= i <= k,
                    a_curr@.len() == k * m_j,
                    g_curr@.len() == k * m_j,
                    c1_curr@.len() == k * m_j,
                    k * m_j <= usize::MAX,
                    round@.len() == i - 1,
                    forall|ii: int, e: int| 0 <= ii < round@.len() && 0 <= e < 2 ==> decompresses((#[trigger] round@[ii][e]).bytes@),
                    forall|ii: int| 1 <= ii < i ==> pair_bytes(#[trigger] round@[ii - 1]) == pair_commit(a_curr@, g_curr@, c1_curr@,
                        m_j as int, k as int, ii, true),
                decreases k - i,
            {
                let pr = cross_pair(&a_curr, &g_curr, &c1_curr, m_j, k, i, true);
                round.push(pr);
                i = i + 1;
            }
            let mut i: usize = 1;
            while i < k
                invariant
                    k > 1,
                    1 <= i <= k,
                    a_curr@.len() == k * m_j,
                    g_curr@.len() == k * m_j,
                    c1_curr@.len() == k * m_j,
                    k * m_j <= usize::MAX,
                    round@.len() == k - 1 + i - 1,
                    forall|ii: int, e: int| 0 <= ii < round@.len() && 0 <= e < 2 ==> decompresses((#[trigger] round@[ii][e]).bytes@),
                    forall|ii: int| 1 <= ii < k ==> pair_bytes(#[trigger] round@[ii - 1]) == pair_commit(a_curr@, g_curr@, c1_curr@,
                        m_j as int, k as int, ii, true),
                    forall|ii: int| 1 <= ii < i ==> pair_bytes(#[trigger] round@[k - 2 + ii]) == pair_commit(a_curr@, g_curr@, c1_curr@,
                        m_j as int, k as int, ii, false),
                decreases k - i,
            {
                let pr = cross_pair(&a_curr, &g_curr, &c1_curr, m_j, k, i, false);
                round.push(pr);
                proof {
                    assert(round@[k - 2 + i] == pr);
                }
                i = i + 1;
            }
            let ghost rnd = round@;
            proof {
                assert(2 * (k - 1) == 2 * k - 2);
                if j == 0 && n % k == 0 {
                    assert(n_j == n);
                    assert(m_j == (n as int) / (k as int));
                }
            }
            let c = absorb_pairs(transcript, j as u64, &round);
            let ghost old_a = A_vecs@;
            A_vecs.push(round);
            proof {
                if j == 0 && n % k == 0 && C1_vec@.len() == n {
                    assert(A_vecs@[0]@ == rnd);
                } else if j > 0 && n % k == 0 && C1_vec@.len() == n {
                    assert(A_vecs@[0] == old_a[0]);
                }
            }
            let pa = powers(&c, k);
            let c_inv = c.invert();
            let ck = scalar_pow(c, k as u64);
            let pb = scaled_powers(&ck, &c_inv, k);
            let a_new = fold_blocks(a_curr.as_slice(), m_j, pa.as_slice());
            proof {
                let cv = c.val();
                assert(vals_of(pa@) =~= a_coeffs(cv, k as nat));
                let chs2 = chs.push(cv);
                assert(chs2.subrange(0, j as int) =~= chs);
                lemma_fold_chain_step(av, n as nat, k as nat, chs2, j as nat, false, a_padded, cv);
                chs = chs2;
            }
            let g_new = fold_bases(&g_curr, m_j, &pb);
            let c1_new = fold_bases(&c1_curr, m_j, &pb);
            a_curr = a_new;
            g_curr = g_new;
            c1_curr = c1_new;
            n_j = m_j;
            j = j + 1;
        }
        let ghost fin = A_vecs@;
        let res = batched_eCP { k, A_vecs, z: a_curr };
        proof {
            assert(res.A_vecs@ == fin);
            if num_rounds >= 1 && (a_vec@.len() as int) % (k as int) == 0 && C1_vec@.len() == a_vec@.len() {
                assert(n % k == 0);
                assert forall|i: int| 1 <= i < k implies pair_bytes(#[trigger] res.A_vecs@[0]@[i - 1]) == pair_commit(a_vec@, G_vec@,
                    C1_vec@, (n as int) / (k as int), k as int, i, true) && pair_bytes(res.A_vecs@[0]@[k - 2 + i]) == pair_commit(
                    a_vec@, G_vec@, C1_vec@, (n as int) / (k as int), k as int, i, false) by {
                    assert(pair_bytes(fin[0]@[i - 1]) == pair_commit(a_vec@, G_vec@, C1_vec@, (n as int) / (k as int), k as int, i, true));
                }
            }
            lemma_fold_len_le(n as nat, k as nat, num_rounds as nat);
            assert(res.well_shaped());
            lemma_pairs_flat(res);
            assert(num_rounds >= 1 && (a_vec@.len() as int) % (k as int) == 0 && C1_vec@.len() == a_vec@.len()
                ==> first_round_pairs(res, a_vec@, G_vec@, C1_vec@));
        }
        res
    }

    /// Computes the verification scalars from the round challenges `ch`, without
    /// touching a transcript (see [`batched_scalars_are`]).
    pub fn scalars_from_challenges(&self, n: usize, ch: &[Scalar]) -> (out: (Vec<Scalar>, Scalar, Vec<Scalar>))
        requires
            self.wf(),
            ch@.len() == self.A_vecs@.len(),
            self.A_vecs@.len() < usize::MAX,
            self.z@.len() == fold_len(n as nat, self.k as nat, self.A_vecs@.len() as nat),
        ensures
            batched_scalars_are(*self, n as nat, ch@, out),
    {
        let k = self.k;
        let d = self.A_vecs.len();
        let lens = reconstruct_round_lengths(n, k, d);
        proof {
            assert forall|r: int| 0 <= r <= d implies lens@[r] == round_lens(n as nat, k as nat, d as nat)[r] by {}
            assert(lens@ =~= round_lens(n as nat, k as nat, d as nat));
            assert forall|r: int| 0 <= r < d implies (#[trigger] lens@[r]) <= k * lens@[r + 1] && (lens@[r + 1] == 0 ==> lens@[r] == 0) by {
                lemma_fold_len_step(n as nat, k as nat, r as nat);
            }
            assert(fold_len(n as nat, k as nat, 0) == n);
        }
        let ch_inv = invert_all(ch);
        let (prods, s_P) = suffix_products(ch, k as u64);
        let z_s = expand_backward(self.z.as_slice(), lens.as_slice(), ch_inv.as_slice(), k, &s_P);
        let ghost w: int = 2 * k - 2;
        let mut s_A: Vec<Scalar> = Vec::new();
        let mut r: usize = 0;
        while r < d
            invariant
                self.wf(),
                k == self.k,
                d == self.A_vecs@.len(),
                k >= 2,
                w == 2 * k - 2,
                d == ch@.len(),
                prods@.len() == d,
                forall|q: int| 0 <= q < d ==> (#[trigger] prods@[q]).wf() && prods@[q].val() == suffix_prod(ch@, k as nat, q + 1),
                r <= d,
                s_A@.len() == r * w,
                forall|rr: int, i: int| 0 <= rr < r && 1 <= i < k ==> (#[trigger] s_A@[rr * w + i - 1]).val() == fmul(
                    fpow(ch@[rr].val(), i as nat), suffix_prod(ch@, k as nat, rr + 1)),
                forall|rr: int, i: int| 0 <= rr < r && 1 <= i < k ==> (#[trigger] s_A@[rr * w + k - 2 + i]).val() == fmul(
                    fpow(ch@[rr].val(), (k + i) as nat), suffix_prod(ch@, k as nat, rr + 1)),
                forall|t: int| 0 <= t < s_A@.len() ==> (#[trigger] s_A@[t]).wf(),
            decreases d - r,
        {
            let ghost base = s_A@.len();
            let ghost prefix = s_A@;
            let w_exec = self.A_vecs[r].len();
            assert(w_exec == w);
            let c_r = ch[r];
            let sp = prods[r];
            let mut i: usize = 1;
            while i < k
                invariant
                    k >= 2,
                    w == 2 * k - 2,
                    r < d,
                    d == ch@.len(),
                    c_r == ch@[r as int],
                    w_exec == w,
                    prefix.len() == base,
                    sp.val() == suffix_prod(ch@, k as nat, r + 1),
                    1 <= i <= k,
                    base == r * w,
                    s_A@.len() == base + i - 1,
                    forall|ii: int| 1 <= ii < i ==> (#[trigger] s_A@[base + ii - 1]).val() == fmul(fpow(c_r.val(), ii as nat), sp.val()),
                    forall|t: int| 0 <= t < s_A@.len() ==> (#[trigger] s_A@[t]).wf(),
                    s_A@.subrange(0, base as int) == prefix,
                decreases k - i,
            {
                let e = scalar_pow(c_r, i as u64);
                s_A.push(e.mul(&sp));
                i = i + 1;
            }
            let mut i: usize = 1;
            while i < k
                invariant
                    k >= 2,
                    w == 2 * k - 2,
                    r < d,
                    d == ch@.len(),
                    c_r == ch@[r as int],
                    w_exec == w,
                    prefix.len() == base,
                    sp.val() == suffix_prod(ch@, k as nat, r + 1),
                    1 <= i <= k,
                    base == r * w,
                    s_A@.len() == base + k - 2 + i,
                    forall|ii: int| 1 <= ii < k ==> (#[trigger] s_A@[base + ii - 1]).val() == fmul(fpow(c_r.val(), ii as nat), sp.val()),
                    forall|ii: int| 1 <= ii < i ==> (#[trigger] s_A@[base + k - 2 + ii]).val() == fmul(
                        fpow(c_r.val(), (k + ii) as nat), sp.val()),
                    forall|t: int| 0 <= t < s_A@.len() ==> (#[trigger] s_A@[t]).wf(),
                    s_A@.subrange(0, base as int) == prefix,
                decreases k - i,
            {
                let e = scalar_pow(c_r, (k + i) as u64);
                s_A.push(e.mul(&sp));
                i = i + 1;
            }
            proof {
                assert(r * w + w == (r + 1) * w) by (nonlinear_arith);
                assert forall|rr: int, i: int| 0 <= rr < r + 1 && 1 <= i < k implies (#[trigger] s_A@[rr * w + i - 1]).val() == fmul(
                    fpow(ch@[rr].val(), i as nat), suffix_prod(ch@, k as nat, rr + 1)) by {
                    if rr == r {
                        assert(s_A@[base + i - 1] == s_A@[rr * w + i - 1]);
                    } else {
                        assert(0 <= rr * w + i - 1 < base) by (nonlinear_arith)
                            requires
                                0 <= rr < r,
                                1 <= i < k,
                                w == 2 * k - 2,
                                base == r * w,
                        ;
                        assert(s_A@.subrange(0, base as int)[rr * w + i - 1] == s_A@[rr * w + i - 1]);
                        assert(prefix[rr * w + i - 1] == s_A@[rr * w + i - 1]);
                    }
                }
                assert forall|rr: int, i: int| 0 <= rr < r + 1 && 1 <= i < k implies (#[trigger] s_A@[rr * w + k - 2 + i]).val() == fmul(
                    fpow(ch@[rr].val(), (k + i) as nat), suffix_prod(ch@, k as nat, rr + 1)) by {
                    if rr == r {
                        assert(s_A@[base + k - 2 + i] == s_A@[rr * w + k - 2 + i]);
                    } else {
                        assert(0 <= rr * w + k - 2 + i < base) by (nonlinear_arith)
                            requires
                                0 <= rr < r,
                                1 <= i < k,
                                w == 2 * k - 2,
                                base == r * w,
                        ;
                        assert(s_A@.subrange(0, base as int)[rr * w + k - 2 + i] == s_A@[rr * w + k - 2 + i]);
                        assert(prefix[rr * w + k - 2 + i] == s_A@[rr * w + k - 2 + i]);
                    }
                }
            }
            r = r + 1;
        }
        (z_s, s_P, s_A)
    }

    /// Replays the transcript of the proof for a vector of length `n` and computes
    /// the verification scalars `(z_s, s_P, s_A)` from the regenerated challenges
    /// (see [`batched_scalars_are`]). A final vector whose length is not the one that
    /// `n`, `k` and `d` give is a `VerificationError`, detected before the transcript
    /// is touched.
    pub fn verification_scalars(&self, n: usize, transcript: &mut Transcript) -> (r: Result<(Vec<Scalar>, Scalar, Vec<Scalar>), ProofError>)
        requires
            self.wf(),
            self.A_vecs@.len() < usize::MAX,
        ensures
            self.z@.len() != fold_len(n as nat, self.k as nat, self.A_vecs@.len() as nat)
                ==> (r matches Err(ProofError::VerificationError)) && *final(transcript) == *old(transcript),
            self.z@.len() == fold_len(n as nat, self.k as nat, self.A_vecs@.len() as nat)
                ==> r.is_ok() && exists|ch: Seq<Scalar>| ch.len() == self.A_vecs@.len() && batched_scalars_are(*self, n as nat, ch, r.unwrap()),
    {
        let k = self.k;
        let d = self.A_vecs.len();
        let lens = reconstruct_round_lengths(n, k, d);
        let m = lens[d];
        if self.z.len() != m {
            return Err(ProofError::VerificationError);
        }
        proof {
            reveal_strlit("k_ipp_delay_2");
            vstd::string::is_ascii_spec_bytes("k_ipp_delay_2");
        }
        absorb_header(transcript, "k_ipp_delay_2", n, k);
        let mut challenges: Vec<Scalar> = Vec::new();
        let mut r: usize = 0;
        while r < d
            invariant
                d == self.A_vecs@.len(),
                r <= d,
                challenges@.len() == r,
            decreases d - r,
        {
            let c = absorb_pairs(transcript, r as u64, &self.A_vecs[r]);
            challenges.push(c);
            r = r + 1;
        }
        let out = self.scalars_from_challenges(n, challenges.as_slice());
        proof {
            let res: Result<(Vec<Scalar>, Scalar, Vec<Scalar>), ProofError> = Ok(out);
            assert(res.unwrap() == out);
            assert(challenges@.len() == self.A_vecs@.len());
            assert(batched_scalars_are(*self, n as nat, challenges@, res.unwrap()));
        }
        Ok(out)
    }

    /// Whether the proof is valid (see [`batched_eCP::wf`]): `k >= 2`, `2k - 2`
    /// pairs of decompressable points per round, and a canonical final vector.
    pub fn is_well_formed(&self) -> (r: bool)
        ensures
            r == self.wf(),
    {
        let k = self.k;
        if k < 2 {
            return false;
        }
        let d = self.A_vecs.len();
        let m = self.z.len();
        let ghost w: int = 2 * k - 2;
        let mut r: usize = 0;
        while r < d
            invariant
                k == self.k,
                k >= 2,
                w == 2 * k - 2,
                d == self.A_vecs@.len(),
                r <= d,
                forall|rr: int| 0 <= rr < r ==> (#[trigger] self.A_vecs@[rr])@.len() == w,
                forall|rr: int, ii: int, e: int| 0 <= rr < r && 0 <= ii < w && 0 <= e < 2
                    ==> decompresses((#[trigger] self.A_vecs@[rr]@[ii][e]).bytes@),
            decreases d - r,
        {
            let round = &self.A_vecs[r];
            if round.len() % 2 != 0 || round.len() / 2 + 1 != k {
                return false;
            }
            let mut i: usize = 0;
            while i < round.len()
                invariant
                    k == self.k,
                    k >= 2,
                    w == 2 * k - 2,
                    d == self.A_vecs@.len(),
                    r < d,
                    round@ == self.A_vecs@[r as int]@,
                    round@.len() == w,
                    i <= round@.len(),
                    forall|ii: int, e: int| 0 <= ii < i && 0 <= e < 2 ==> decompresses((#[trigger] round@[ii][e]).bytes@),
                decreases round@.len() - i,
            {
                let pr = round[i];
                let ok0 = decompress(&pr[0]).is_some();
                let ok1 = decompress(&pr[1]).is_some();
                if !ok0 || !ok1 {
                    proof {
                        let e: int = if !ok0 { 0 } else { 1 };
                        lemma_pair_flat(r as int, i as int, e, w, d as int);
                        let j = 2 * (r * w + i) + e;
                        assert(self.point_at(j) == round@[i as int][e]);
                    }
                    return false;
                }
                i = i + 1;
            }
            r = r + 1;
        }
        proof {
            lemma_pairs_flat(*self);
        }
        let mut i: usize = 0;
        while i < m
            invariant
                m == self.z@.len(),
                i <= m,
                forall|j: int| 0 <= j < i ==> (#[trigger] self.z@[j]).wf(),
            decreases m - i,
        {
            if Scalar::from_canonical_bytes(self.z[i].bytes).is_none() {
                return false;
            }
            i = i + 1;
        }
        true
    }

    /// Checks the proof against `P0 = <a, G>` and `P1 = <a, C1>`, merged with a
    /// fresh challenge `r1` into one multiscalar multiplication that must give the
    /// identity (see [`b_mega_scalars`] and [`b_mega_points`]). Every failure is a
    /// `VerificationError`; an invalid proof, a final vector of the wrong length, or
    /// `C1_vec` of another length than `G_vec` are detected before the transcript is
    /// touched.
    pub fn verify(
        &self,
        transcript: &mut Transcript,
        G_vec: &Vec<RistrettoPoint>,
        C1_vec: &Vec<RistrettoPoint>,
        P0: &RistrettoPoint,
        P1: &RistrettoPoint,
    ) -> (r: Result<(), ProofError>)
        ensures
            r matches Err(e) ==> e == ProofError::VerificationError,
            !(self.wf() && self.A_vecs@.len() < usize::MAX) ==> r.is_err() && *final(transcript) == *old(transcript),
            self.wf() && self.A_vecs@.len() < usize::MAX
                && (self.z@.len() != fold_len(G_vec@.len() as nat, self.k as nat, self.A_vecs@.len() as nat)
                || C1_vec@.len() != G_vec@.len()) ==> r.is_err() && *final(transcript) == *old(transcript),
            self.wf() && self.A_vecs@.len() < usize::MAX
                && self.z@.len() == fold_len(G_vec@.len() as nat, self.k as nat, self.A_vecs@.len() as nat)
                && C1_vec@.len() == G_vec@.len()
                ==> exists|ch: Seq<Scalar>, out: (Vec<Scalar>, Scalar, Vec<Scalar>), r1: nat|
                    #![trigger batched_scalars_are(*self, G_vec@.len() as nat, ch, out), b_mega_scalars(out, r1)]
                    ch.len() == self.A_vecs@.len() && batched_scalars_are(*self, G_vec@.len() as nat, ch, out) && r1 < group_order()
                    && (r.is_ok() <==> is_identity_of(msm_of(b_mega_scalars(out, r1), b_mega_points(*self, G_vec@, C1_vec@, *P0, *P1, r1)))),
    {
        let n = G_vec.len();
        if self.A_vecs.len() == usize::MAX || !self.is_well_formed() {
            return Err(ProofError::VerificationError);
        }
        let d = self.A_vecs.len();
        let lens = reconstruct_round_lengths(n, self.k, d);
        if self.z.len() != lens[d] || C1_vec.len() != n {
            return Err(ProofError::VerificationError);
        }
        let out = match self.verification_scalars(n, transcript) {
            Ok(t) => t,
            Err(_) => {
                return Err(ProofError::VerificationError);
            },
        };
        let ghost ch = choose|ch: Seq<Scalar>| ch.len() == self.A_vecs@.len() && batched_scalars_are(*self, n as nat, ch, out);
        let r1 = challenge_scalar(transcript, "r1");
        let ghost r1v = r1.val() % group_order();
        let (z_s, s_P, s_A) = out;
        let ghost ms = b_mega_scalars(out, r1v);
        let mut scalars: Vec<Scalar> = Vec::new();
        let mut points: Vec<RistrettoPoint> = Vec::new();
        append_block(&mut scalars, z_s.as_slice(), 0, n);
        append_block(&mut points, G_vec.as_slice(), 0, n);
        let mut t: usize = 0;
        while t < n
            invariant
                z_s@.len() == n,
                t <= n,
                scalars@.len() == n + t,
                forall|i: int| 0 <= i < n ==> scalars@[i] == z_s@[i],
                forall|i: int| 0 <= i < t ==> (#[trigger] scalars@[n + i]).val() == fmul(z_s@[i].val(), r1.val()),
            decreases n - t,
        {
            scalars.push(z_s[t].mul(&r1));
            t = t + 1;
        }
        append_block(&mut points, C1_vec.as_slice(), 0, n);
        scalars.push(s_P.neg());
        points.push(add_points(P0, &scalar_mul(&r1, P1)));
        proof {
            assert(G_vec@.subrange(0, n as int) =~= G_vec@);
            assert(C1_vec@.subrange(0, n as int) =~= C1_vec@);
            assert(points@ =~= G_vec@ + C1_vec@ + seq![comb_point(*P0, *P1, r1v)]);
            assert forall|i: int| 0 <= i < n implies (#[trigger] scalars@[n + i]).val() == fmul(z_s@[i].val(), r1.val()) by {}
        }
        let ghost base = points@;
        let ghost w: int = 2 * self.k - 2;
        let mut r: usize = 0;
        while r < d
            invariant
                self.wf(),
                w == self.width(),
                d == self.A_vecs@.len(),
                r <= d,
                points@ == base + Seq::new((r * w) as nat, |j: int| pair_point(*self, j, r1v)),
                r1v == r1.val() % group_order(),
            decreases d - r,
        {
            let round = &self.A_vecs[r];
            let mut i: usize = 0;
            while i < round.len()
                invariant
                    self.wf(),
                    w == self.width(),
                    d == self.A_vecs@.len(),
                    r < d,
                    round@ == self.A_vecs@[r as int]@,
                    round@.len() == w,
                    i <= round@.len(),
                    points@ == base + Seq::new((r * w + i) as nat, |j: int| pair_point(*self, j, r1v)),
                    r1v == r1.val() % group_order(),
                decreases round@.len() - i,
            {
                let ghost j = r * w + i;
                proof {
                    lemma_pair_flat(r as int, i as int, 0, w, d as int);
                    lemma_pair_flat(r as int, i as int, 1, w, d as int);
                    assert(self.point_at(2 * j) == round@[i as int][0]);
                    assert(self.point_at(2 * j + 1) == round@[i as int][1]);
                    assert(decompresses(self.point_at(2 * j).bytes@));
                    assert(decompresses(self.point_at(2 * j + 1).bytes@));
                }
                let pr = round[i];
                proof {
                    assert(pr == round@[i as int]);
                }
                let a0 = match decompress(&pr[0]) {
                    Some(p) => p,
                    None => {
                        return Err(ProofError::VerificationError);
                    },
                };
                let a1 = match decompress(&pr[1]) {
                    Some(p) => p,
                    None => {
                        return Err(ProofError::VerificationError);
                    },
                };
                points.push(add_points(&a0, &scalar_mul(&r1, &a1)));
                proof {
                    assert(a0 == decompress_of(self.point_at(2 * j).bytes@));
                    assert(a1 == decompress_of(self.point_at(2 * j + 1).bytes@));
                    assert(points@.last() == pair_point(*self, j, r1v));
                    assert(points@ =~= base + Seq::new((r * w + i + 1) as nat, |jj: int| pair_point(*self, jj, r1v)));
                }
                i = i + 1;
            }
            proof {
                assert(r * w + w == (r + 1) * w) by (nonlinear_arith);
            }
            r = r + 1;
        }
        let ghost sbase = scalars@;
        let mut t: usize = 0;
        while t < s_A.len()
            invariant
                t <= s_A@.len(),
                scalars@.len() == sbase.len() + t,
                forall|i: int| 0 <= i < sbase.len() ==> scalars@[i] == sbase[i],
                forall|i: int| 0 <= i < t ==> (#[trigger] scalars@[sbase.len() + i]).val() == fneg(s_A@[i].val()),
            decreases s_A@.len() - t,
        {
            scalars.push(s_A[t].neg());
            t = t + 1;
        }
        proof {
            assert(sbase.len() == 2 * n + 1);
            assert(a_points(*self, r1v) =~= Seq::new((d * w) as nat, |j: int| pair_point(*self, j, r1v)));
            assert(points@ =~= b_mega_points(*self, G_vec@, C1_vec@, *P0, *P1, r1v));
            assert forall|i: int| 0 <= i < scalars@.len() implies #[trigger] scalar_ints(scalars@)[i] == ms[i] by {
                if i >= 2 * n + 1 {
                    assert(scalars@[sbase.len() + (i - sbase.len())].val() == fneg(s_A@[i - sbase.len()].val()));
                } else if i >= n && i < 2 * n {
                    assert(sbase[n + (i - n)].val() == fmul(z_s@[i - n].val(), r1.val()));
                    assert(scalars@[i] == sbase[i]);
                } else {
                    assert(scalars@[i] == sbase[i]);
                }
            }
            assert(scalar_ints(scalars@) =~= ms);
            assert(batched_scalars_are(*self, n as nat, ch, out));
        }
        let check = msm(scalars.as_slice(), points.as_slice());
        if is_identity(&check) {
            Ok(())
        } else {
            Err(ProofError::VerificationError)
        }
    }
}

/// `x + r1 * y`, as the verification check merges two points.
pub open spec fn comb_point(x: RistrettoPoint, y: RistrettoPoint, r1: nat) -> RistrettoPoint {
    msm_of(seq![1nat, 1nat], seq![x, msm_of(seq![r1], seq![y])])
}

/// Stored pair `j` (round-major), decompressed and merged with `r1`.
pub open spec fn pair_point(p: batched_eCP, j: int, r1: nat) -> RistrettoPoint {
    comb_point(decompress_of(p.point_at(2 * j).bytes@), decompress_of(p.point_at(2 * j + 1).bytes@), r1)
}

/// The stored pairs, decompressed and merged with `r1`.
pub open spec fn a_points(p: batched_eCP, r1: nat) -> Seq<RistrettoPoint> {
    Seq::new(p.num_pairs() as nat, |j: int| pair_point(p, j, r1))
}

/// The scalars of the verification check: `z_s`, `r1 * z_s`, `-s_P` and `-s_A`,
/// reduced modulo the group order.
pub open spec fn b_mega_scalars(out: (Vec<Scalar>, Scalar, Vec<Scalar>), r1: nat) -> Seq<nat> {
    scalar_ints(out.0@) + Seq::new(out.0@.len(), |i: int| fmul(out.0@[i].val(), r1) % group_order())
        + seq![fneg(out.1.val()) % group_order()] + Seq::new(out.2@.len(), |i: int| fneg(out.2@[i].val()) % group_order())
}

/// The points of the verification check: `G`, `C1`, `P0 + r1 * P1` and the merged
/// pairs.
pub open spec fn b_mega_points(p: batched_eCP, g: Seq<RistrettoPoint>, c1: Seq<RistrettoPoint>, p0: RistrettoPoint, p1: RistrettoPoint, r1: nat) -> Seq<RistrettoPoint> {
    g + c1 + seq![comb_point(p0, p1, r1)] + a_points(p, r1)
}

} // verus!
