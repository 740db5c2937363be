//! Scalar arithmetic shared by the folding arguments: folding blocks with challenge
//! powers, and the verifier's backward expansion of the final vectors.
use vstd::prelude::*;
use vstd::arithmetic::div_mod::{lemma_fundamental_div_mod, lemma_fundamental_div_mod_converse_div, lemma_fundamental_div_mod_converse_mod};
use crate::scalar::{fadd, fmul, fpow, Scalar};

verus! {

/// The integer at index `idx` of `a` padded with zeros.
pub open spec fn pad_val(a: Seq<nat>, idx: int) -> nat {
    if 0 <= idx < a.len() {
        a[idx]
    } else {
        0
    }
}

/// `sum_{i < t} a_pad[i * m + j] * coeffs[i]` in the field: entry `j` of the
/// combination of the first `t` blocks of length `m`.
pub open spec fn block_comb(a: Seq<nat>, m: int, j: int, coeffs: Seq<nat>, t: int) -> nat
    decreases t,
{
    if t <= 0 {
        0
    } else {
        fadd(block_comb(a, m, j, coeffs, t - 1), fmul(pad_val(a, (t - 1) * m + j), coeffs[t - 1]))
    }
}

/// The `m` entries of `sum_i block_i * coeffs[i]`, for `a` zero-padded to `k * m`.
pub open spec fn fold_vals(a: Seq<nat>, m: int, coeffs: Seq<nat>) -> Seq<nat> {
    Seq::new(m as nat, |j: int| block_comb(a, m, j, coeffs, coeffs.len() as int))
}

/// Zero padding does not change a block combination.
pub proof fn lemma_block_comb_pad(a1: Seq<nat>, a2: Seq<nat>, m: int, j: int, coeffs: Seq<nat>, t: int)
    requires
        forall|idx: int| pad_val(a1, idx) == pad_val(a2, idx),
    ensures
        block_comb(a1, m, j, coeffs, t) == block_comb(a2, m, j, coeffs, t),
    decreases t,
{
    if t > 0 {
        lemma_block_comb_pad(a1, a2, m, j, coeffs, t - 1);
        assert(pad_val(a1, (t - 1) * m + j) == pad_val(a2, (t - 1) * m + j));
    }
}

/// Splits `a` (zero-padded to `k * m`) into `k` blocks of length `m` and returns
/// `sum_i block_i * coeffs[i]`.
pub fn fold_blocks(a: &[Scalar], m: usize, coeffs: &[Scalar]) -> (r: Vec<Scalar>)
    requires
        coeffs@.len() * m <= usize::MAX,
    ensures
        r@.len() == m,
        forall|j: int| 0 <= j < m ==> (#[trigger] r@[j]).wf(),
        vals_of(r@) == fold_vals(vals_of(a@), m as int, vals_of(coeffs@)),
{
    let k = coeffs.len();
    let ghost av = vals_of(a@);
    let ghost cv = vals_of(coeffs@);
    let mut r: Vec<Scalar> = Vec::new();
    let mut j: usize = 0;
    while j < m
        invariant
            k == coeffs@.len(),
            k * m <= usize::MAX,
            av == vals_of(a@),
            cv == vals_of(coeffs@),
            j <= m,
            r@.len() == j,
            forall|jj: int| 0 <= jj < j ==> (#[trigger] r@[jj]).wf() && r@[jj].val() == block_comb(av, m as int, jj, cv, k as int),
        decreases m - j,
    {
        let mut acc = Scalar::zero();
        let mut i: usize = 0;
        while i < k
            invariant
                k == coeffs@.len(),
                k * m <= usize::MAX,
                av == vals_of(a@),
                cv == vals_of(coeffs@),
                j < m,
                i <= k,
                acc.wf(),
                acc.val() == block_comb(av, m as int, j as int, cv, i as int),
            decreases k - i,
        {
            proof {
                assert(i * m + j < k * m) by (nonlinear_arith)
                    requires
                        i < k,
                        j < m,
                ;
            }
            let idx = i * m + j;
            let x = if idx < a.len() { a[idx] } else { Scalar::zero() };
            let t = x.mul(&coeffs[i]);
            acc = acc.add(&t);
            i = i + 1;
        }
        r.push(acc);
        j = j + 1;
    }
    proof {
        assert(vals_of(r@) =~= fold_vals(av, m as int, cv));
    }
    r
}

/// `[c^0, c^1, ..., c^(k-1)]`.
pub fn powers(c: &Scalar, k: usize) -> (r: Vec<Scalar>)
    ensures
        r@.len() == k,
        forall|i: int| 0 <= i < k ==> (#[trigger] r@[i]).wf() && r@[i].val() == fpow(c.val(), i as nat),
{
    let mut r: Vec<Scalar> = Vec::new();
    let mut v = Scalar::one();
    let mut i: usize = 0;
    while i < k
        invariant
            i <= k,
            r@.len() == i,
            v.wf(),
            v.val() == fpow(c.val(), i as nat),
            forall|ii: int| 0 <= ii < i ==> (#[trigger] r@[ii]).wf() && r@[ii].val() == fpow(c.val(), ii as nat),
        decreases k - i,
    {
        r.push(v);
        v = v.mul(c);
        i = i + 1;
    }
    r
}

/// `[start * c^0, start * c^1, ..., start * c^(k-1)]`.
pub fn scaled_powers(start: &Scalar, c: &Scalar, k: usize) -> (r: Vec<Scalar>)
    ensures
        r@.len() == k,
        forall|i: int| 0 <= i < k ==> (#[trigger] r@[i]).wf() && r@[i].val() == scaled_pow(start.val(), c.val(), i as nat),
{
    let mut r: Vec<Scalar> = Vec::new();
    let mut v = start.mul(&Scalar::one());
    let mut i: usize = 0;
    while i < k
        invariant
            i <= k,
            r@.len() == i,
            v.wf(),
            v.val() == scaled_pow(start.val(), c.val(), i as nat),
            forall|ii: int| 0 <= ii < i ==> (#[trigger] r@[ii]).wf() && r@[ii].val() == scaled_pow(start.val(), c.val(), ii as nat),
        decreases k - i,
    {
        r.push(v);
        v = v.mul(c);
        i = i + 1;
    }
    r
}

/// `start * c^i` in the field, multiplied out one factor at a time.
pub open spec fn scaled_pow(start: nat, c: nat, i: nat) -> nat
    decreases i,
{
    if i == 0 {
        fmul(start, 1)
    } else {
        fmul(scaled_pow(start, c, (i - 1) as nat), c)
    }
}

/// Entry `t` of the vector expanded from round `d` back to round `r`: the final
/// vector `vals`, blown up at each round `q` (from `d - 1` down to `r`) by the
/// powers of `ch[q]` and cut to `lens[q]`.
pub open spec fn expanded(vals: Seq<Scalar>, lens: Seq<usize>, ch: Seq<nat>, r: int, t: int) -> nat
    decreases ch.len() - r,
{
    if r >= ch.len() || r < 0 {
        vals[t].val()
    } else {
        let ls = lens[r + 1] as int;
        fmul(expanded(vals, lens, ch, r + 1, t % ls), fpow(ch[r], (t / ls) as nat))
    }
}

/// The integers that a list of scalars denotes.
pub open spec fn vals_of(s: Seq<Scalar>) -> Seq<nat> {
    s.map_values(|x: Scalar| x.val())
}

/// Lengths that a backward expansion can go through: `d + 1` of them, each round's
/// length at most `k` times the next, and zero only if every earlier one is.
pub open spec fn expandable(lens: Seq<usize>, d: int, k: int) -> bool {
    &&& lens.len() == d + 1
    &&& forall|r: int| 0 <= r < d ==> (#[trigger] lens[r]) <= k * lens[r + 1]
    &&& forall|r: int| 0 <= r < d ==> lens[r + 1] == 0 ==> #[trigger] lens[r] == 0
}

/// Expands `vals` backward through the rounds: at round `r` (from `d - 1` down to
/// `0`) the entry `t` becomes `prev[t % len] * ch[r]^(t / len)`, for `t < lens[r]`.
/// Each result entry is then multiplied by `scale`.
pub fn expand_backward(vals: &[Scalar], lens: &[usize], ch: &[Scalar], k: usize, scale: &Scalar) -> (r: Vec<Scalar>)
    requires
        expandable(lens@, ch@.len() as int, k as int),
        vals@.len() == lens@[ch@.len() as int],
    ensures
        r@.len() == lens@[0],
        forall|t: int| 0 <= t < lens@[0] ==> (#[trigger] r@[t]).wf() && r@[t].val() == fmul(expanded(vals@, lens@, vals_of(ch@), 0, t), scale.val()),
{
    let d = ch.len();
    let mut s: Vec<Scalar> = Vec::new();
    let mut t: usize = 0;
    while t < vals.len()
        invariant
            d == ch@.len(),
            t <= vals@.len(),
            s@.len() == t,
            forall|i: int| 0 <= i < t ==> (#[trigger] s@[i]).val() == vals@[i].val() && s@[i].val() == expanded(vals@, lens@, vals_of(ch@), d as int, i),
        decreases vals@.len() - t,
    {
        s.push(vals[t]);
        t = t + 1;
    }
    let mut r: usize = d;
    while r > 0
        invariant
            expandable(lens@, d as int, k as int),
            d == ch@.len(),
            r <= d,
            s@.len() == lens@[r as int],
            forall|i: int| 0 <= i < s@.len() ==> (#[trigger] s@[i]).val() == expanded(vals@, lens@, vals_of(ch@), r as int, i),
        decreases r,
    {
        r = r - 1;
        let block = powers(&ch[r], k);
        let ls = s.len();
        let target = lens[r];
        let mut next: Vec<Scalar> = Vec::new();
        let mut t: usize = 0;
        while t < target
            invariant
                expandable(lens@, d as int, k as int),
                d == ch@.len(),
                r < d,
                ls == s@.len(),
                ls == lens@[r + 1],
                target == lens@[r as int],
                block@.len() == k,
                forall|i: int| 0 <= i < k ==> (#[trigger] block@[i]).val() == fpow(ch@[r as int].val(), i as nat),
                forall|i: int| 0 <= i < s@.len() ==> (#[trigger] s@[i]).val() == expanded(vals@, lens@, vals_of(ch@), r + 1, i),
                t <= target,
                next@.len() == t,
                forall|i: int| 0 <= i < t ==> (#[trigger] next@[i]).val() == expanded(vals@, lens@, vals_of(ch@), r as int, i),
            decreases target - t,
        {
            assert(lens@[r as int] <= k * lens@[r + 1]);
            assert(ls > 0);
            let q = t / ls;
            let rem = t % ls;
            proof {
                lemma_fundamental_div_mod(t as int, ls as int);
                assert(q < k) by (nonlinear_arith)
                    requires
                        t < target,
                        target <= k * ls,
                        t == ls * q + rem,
                        rem >= 0,
                        ls > 0,
                ;
            }
            let v = s[rem].mul(&block[q]);
            next.push(v);
            t = t + 1;
        }
        s = next;
    }
    let mut out: Vec<Scalar> = Vec::new();
    let mut t: usize = 0;
    while t < s.len()
        invariant
            r == 0,
            t <= s@.len(),
            out@.len() == t,
            forall|i: int| 0 <= i < s@.len() ==> (#[trigger] s@[i]).val() == expanded(vals@, lens@, vals_of(ch@), 0, i),
            forall|i: int| 0 <= i < t ==> (#[trigger] out@[i]).wf() && out@[i].val() == fmul(expanded(vals@, lens@, vals_of(ch@), 0, i), scale.val()),
        decreases s@.len() - t,
    {
        out.push(s[t].mul(scale));
        t = t + 1;
    }
    out
}

/// Product of `ch[q]^e` over the rounds `q >= r`, multiplied from the last round down.
pub open spec fn suffix_prod(ch: Seq<Scalar>, e: nat, r: int) -> nat
    decreases ch.len() - r,
{
    if r >= ch.len() || r < 0 {
        1
    } else {
        fmul(suffix_prod(ch, e, r + 1), fpow(ch[r].val(), e))
    }
}

/// For each round `r`, the product of `ch[q]^e` over the later rounds `q > r`; and
/// the product over all rounds.
pub fn suffix_products(ch: &[Scalar], e: u64) -> (r: (Vec<Scalar>, Scalar))
    ensures
        r.0@.len() == ch@.len(),
        forall|q: int| 0 <= q < ch@.len() ==> (#[trigger] r.0@[q]).wf() && r.0@[q].val() == suffix_prod(ch@, e as nat, q + 1),
        r.1.wf(),
        r.1.val() == suffix_prod(ch@, e as nat, 0),
{
    let d = ch.len();
    let mut prods: Vec<Scalar> = Vec::new();
    let mut i: usize = 0;
    while i < d
        invariant
            i <= d,
            prods@.len() == i,
        decreases d - i,
    {
        prods.push(Scalar::one());
        i = i + 1;
    }
    let mut so_far = Scalar::one();
    let mut r: usize = d;
    while r > 0
        invariant
            d == ch@.len(),
            r <= d,
            prods@.len() == d,
            so_far.wf(),
            so_far.val() == suffix_prod(ch@, e as nat, r as int),
            forall|q: int| r <= q < d ==> (#[trigger] prods@[q]).wf() && prods@[q].val() == suffix_prod(ch@, e as nat, q + 1),
        decreases r,
    {
        r = r - 1;
        let cp = crate::scalar::scalar_pow(ch[r], e);
        prods.set(r, so_far);
        so_far = so_far.mul(&cp);
    }
    (prods, so_far)
}

/// Appends `len` items of `src` starting at `start`.
pub fn append_block<T: Copy>(dst: &mut Vec<T>, src: &[T], start: usize, len: usize)
    requires
        start + len <= src@.len(),
    ensures
        final(dst)@ == old(dst)@ + src@.subrange(start as int, start + len),
{
    let n = src.len();
    let mut i: usize = 0;
    while i < len
        invariant
            n == src@.len(),
            start + len <= src@.len(),
            i <= len,
            dst@ == old(dst)@ + src@.subrange(start as int, start + i),
        decreases len - i,
    {
        dst.push(src[start + i]);
        i = i + 1;
        proof {
            assert(src@.subrange(start as int, start + i) =~= src@.subrange(start as int, start + i - 1) + seq![src@[start + i - 1]]);
        }
    }
}

/// Extends `v` with copies of `fill` up to length `len`.
pub fn pad_to<T: Copy>(v: &mut Vec<T>, len: usize, fill: T)
    requires
        old(v)@.len() <= len,
    ensures
        final(v)@.len() == len,
        forall|i: int| 0 <= i < old(v)@.len() ==> final(v)@[i] == old(v)@[i],
        forall|i: int| old(v)@.len() <= i < len ==> final(v)@[i] == fill,
{
    while v.len() < len
        invariant
            old(v)@.len() <= v@.len() <= len,
            forall|i: int| 0 <= i < old(v)@.len() ==> v@[i] == old(v)@[i],
            forall|i: int| old(v)@.len() <= i < v@.len() ==> v@[i] == fill,
        decreases len - v@.len(),
    {
        v.push(fill);
    }
}

} // verus!
