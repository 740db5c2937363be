//! Length arithmetic of the k-ary folding rounds.
use vstd::prelude::*;

verus! {

/// `n / k` rounded up: the block length after padding `n` to a multiple of `k`.
pub open spec fn ceil_div(n: nat, k: nat) -> nat
    recommends
        k > 0,
{
    if n % k == 0 {
        n / k
    } else {
        n / k + 1
    }
}

/// Vector length left after `i` rounds of "pad to a multiple of k, divide by k".
pub open spec fn fold_len(n: nat, k: nat, i: nat) -> nat
    decreases i,
{
    if i == 0 {
        n
    } else {
        ceil_div(fold_len(n, k, (i - 1) as nat), k)
    }
}

/// `k` to the power `e`.
pub open spec fn pow_nat(k: nat, e: nat) -> nat
    decreases e,
{
    if e == 0 {
        1
    } else {
        k * pow_nat(k, (e - 1) as nat)
    }
}

/// The least `x` with `k^x >= n` (for `k >= 2`).
pub open spec fn ceil_log(k: nat, n: nat) -> nat
    decreases n,
{
    if n <= 1 || k < 2 || ceil_div(n, k) >= n {
        0
    } else {
        1 + ceil_log(k, ceil_div(n, k))
    }
}

proof fn lemma_ceil_div_smaller(n: nat, k: nat)
    requires
        n > 1,
        k >= 2,
    ensures
        ceil_div(n, k) < n,
        ceil_div(n, k) >= 1,
{
    let q = n / k;
    let r = n % k;
    assert(q * k + r == n && 0 <= r < k) by (nonlinear_arith)
        requires
            k >= 2,
            q == n / k,
            r == n % k,
    ;
    assert(2 * q <= q * k) by (nonlinear_arith)
        requires
            k >= 2,
            q >= 0,
    ;
    if r == 0 {
        assert(q >= 1) by (nonlinear_arith)
            requires
                n > 1,
                q * k == n,
        ;
    }
}

pub proof fn lemma_pow_mono(k: nat, a: nat, b: nat)
    requires
        k >= 1,
        a <= b,
    ensures
        pow_nat(k, a) <= pow_nat(k, b),
    decreases b,
{
    if a < b {
        let b1 = (b - 1) as nat;
        lemma_pow_mono(k, a, b1);
        lemma_pow_ge_one(k, b1);
        assert(pow_nat(k, b1) <= k * pow_nat(k, b1)) by (nonlinear_arith)
            requires
                k >= 1,
                pow_nat(k, b1) >= 1,
        ;
    }
}

proof fn lemma_div_room(n: nat, k: nat)
    requires
        k > 0,
    ensures
        n / k <= n,
        n % k != 0 ==> n / k < n,
{
    let q = n / k;
    let r = n % k;
    assert(q * k + r == n && 0 <= r < k) by (nonlinear_arith)
        requires
            k > 0,
            q == n / k,
            r == n % k,
    ;
    assert(q <= q * k) by (nonlinear_arith)
        requires
            k > 0,
            q >= 0,
    ;
}

/// `k^x >= n` holds exactly when `k^(x-1) >= ceil(n / k)`.
proof fn lemma_pow_ge_ceil(k: nat, x: nat, n: nat)
    requires
        k >= 1,
    ensures
        (k * pow_nat(k, x) >= n) == (pow_nat(k, x) >= ceil_div(n, k)),
{
    let p = pow_nat(k, x);
    let q = n / k;
    let r = n % k;
    assert(q * k + r == n && 0 <= r < k) by (nonlinear_arith)
        requires
            k >= 1,
            q == n / k,
            r == n % k,
    ;
    if p >= ceil_div(n, k) {
        assert(k * p >= n) by (nonlinear_arith)
            requires
                p >= ceil_div(n, k),
                q * k + r == n,
                0 <= r < k,
                ceil_div(n, k) == (if r == 0 { q } else { q + 1 }),
        ;
    } else {
        assert(k * p < n) by (nonlinear_arith)
            requires
                p < ceil_div(n, k),
                q * k + r == n,
                0 <= r < k,
                ceil_div(n, k) == (if r == 0 { q } else { q + 1 }),
        ;
    }
}

pub proof fn lemma_pow_ge_one(k: nat, e: nat)
    requires
        k >= 1,
    ensures
        pow_nat(k, e) >= 1,
    decreases e,
{
    if e > 0 {
        lemma_pow_ge_one(k, (e - 1) as nat);
        assert(k * pow_nat(k, (e - 1) as nat) >= 1) by (nonlinear_arith)
            requires
                k >= 1,
                pow_nat(k, (e - 1) as nat) >= 1,
        ;
    }
}

/// `k^ceil_log(k, n)` is the least power of `k` that is at least `n`.
pub proof fn lemma_ceil_log_least(k: nat, n: nat, x: nat)
    requires
        k >= 2,
    ensures
        pow_nat(k, ceil_log(k, n)) >= n,
        pow_nat(k, x) >= n ==> x >= ceil_log(k, n),
        pow_nat(k, x) >= n ==> pow_nat(k, x) >= pow_nat(k, ceil_log(k, n)),
    decreases n,
{
    lemma_pow_ge_one(k, x);
    if x >= ceil_log(k, n) {
        lemma_pow_mono(k, ceil_log(k, n), x);
    }
    if n <= 1 {
        lemma_pow_ge_one(k, x);
        lemma_pow_ge_one(k, 0);
    } else {
        let c = ceil_div(n, k);
        lemma_ceil_div_smaller(n, k);
        let e = ceil_log(k, c);
        lemma_ceil_log_least(k, c, e);
        lemma_pow_ge_ceil(k, e, n);
        if x > 0 {
            let x1 = (x - 1) as nat;
            lemma_ceil_log_least(k, c, x1);
            lemma_pow_ge_ceil(k, x1, n);
        } else {
            assert(pow_nat(k, 0) == 1);
        }
    }
}

/// Lengths of the vectors at the start of each folding round, and after the last one.
///
/// Element `i` is the length after `i` rounds of padding to a multiple of `k` and
/// dividing by `k`; the result has `d + 1` elements.
pub fn reconstruct_round_lengths(n: usize, k: usize, d: usize) -> (lengths: Vec<usize>)
    requires
        k > 0,
        d < usize::MAX,
    ensures
        lengths@.len() == d + 1,
        forall|i: int| 0 <= i <= d ==> lengths@[i] == fold_len(n as nat, k as nat, i as nat),
{
    let mut lengths: Vec<usize> = Vec::new();
    let mut cur: usize = n;
    lengths.push(cur);
    let mut r: usize = 0;
    while r < d
        invariant
            k > 0,
            r <= d,
            lengths@.len() == r + 1,
            cur == fold_len(n as nat, k as nat, r as nat),
            forall|i: int| 0 <= i <= r ==> lengths@[i] == fold_len(n as nat, k as nat, i as nat),
        decreases d - r,
    {
        let rem = cur % k;
        proof {
            lemma_div_room(cur as nat, k as nat);
        }
        cur = if rem == 0 { cur / k } else { cur / k + 1 };
        r = r + 1;
        lengths.push(cur);
    }
    lengths
}

/// The smallest power of `k` (`k^0 = 1` included) that is at least `n`.
pub fn next_power_of_k(n: usize, k: usize) -> (power: usize)
    requires
        n <= 1 || k >= 2,
        pow_nat(k as nat, ceil_log(k as nat, n as nat)) <= usize::MAX,
    ensures
        power == pow_nat(k as nat, ceil_log(k as nat, n as nat)),
        power >= n,
        k >= 1 ==> forall|x: nat| pow_nat(k as nat, x) >= n ==> pow_nat(k as nat, x) >= power,
{
    if n <= 1 {
        proof {
            if k >= 1 {
                assert forall|x: nat| pow_nat(k as nat, x) >= n implies pow_nat(k as nat, x) >= 1 by {
                    lemma_pow_ge_one(k as nat, x);
                }
            }
        }
        return 1;
    }
    let ghost target = pow_nat(k as nat, ceil_log(k as nat, n as nat));
    proof {
        assert forall|x: nat| pow_nat(k as nat, x) >= n implies pow_nat(k as nat, x) >= target by {
            lemma_ceil_log_least(k as nat, n as nat, x);
        }
        lemma_ceil_log_least(k as nat, n as nat, 0);
    }
    let mut m: usize = n;
    let mut power: usize = 1;
    while m > 1
        invariant
            k >= 2,
            m >= 1,
            target <= usize::MAX,
            target == power * pow_nat(k as nat, ceil_log(k as nat, m as nat)),
        decreases m,
    {
        let ghost old_m = m;
        let rem = m % k;
        proof {
            lemma_div_room(m as nat, k as nat);
        }
        m = if rem == 0 { m / k } else { m / k + 1 };
        proof {
            lemma_ceil_div_smaller(old_m as nat, k as nat);
            let e = ceil_log(k as nat, m as nat);
            lemma_pow_ge_one(k as nat, e);
            assert(pow_nat(k as nat, e + 1) == k * pow_nat(k as nat, e));
            assert(target == power * (k * pow_nat(k as nat, e)));
            assert(power * k <= target) by (nonlinear_arith)
                requires
                    target == power * (k * pow_nat(k as nat, e)),
                    pow_nat(k as nat, e) >= 1,
                    power >= 0,
                    k >= 2,
            ;
            assert(target == (power * k) * pow_nat(k as nat, e)) by (nonlinear_arith)
                requires
                    target == power * (k * pow_nat(k as nat, e)),
            ;
        }
        power = power * k;
    }
    proof {
        assert(ceil_log(k as nat, m as nat) == 0);
        assert(pow_nat(k as nat, 0) == 1);
        assert(pow_nat(k as nat, ceil_log(k as nat, m as nat)) == 1);
        assert(target == power * 1);
    }
    power
}

/// Number of folding rounds that bring `n` down to a single element with arity `k`,
/// and at least one: `max(ceil(log_k(n)), 1)`.
pub fn calc_d(n: usize, k: usize) -> (d: usize)
    requires
        k >= 2,
    ensures
        d == (if ceil_log(k as nat, n as nat) == 0 { 1 } else { ceil_log(k as nat, n as nat) }),
{
    let mut m: usize = n;
    let mut d: usize = 0;
    while m > 1
        invariant
            k >= 2,
            m <= n,
            d + ceil_log(k as nat, m as nat) == ceil_log(k as nat, n as nat),
            d + m <= n,
        decreases m,
    {
        proof {
            lemma_ceil_div_smaller(m as nat, k as nat);
        }
        let rem = m % k;
        proof {
            lemma_div_room(m as nat, k as nat);
        }
        m = if rem == 0 { m / k } else { m / k + 1 };
        d = d + 1;
    }
    if d == 0 {
        1
    } else {
        d
    }
}

/// The round lengths as a sequence of `d + 1` machine integers.
pub open spec fn round_lens(n: nat, k: nat, d: nat) -> Seq<usize> {
    Seq::new(d + 1, |i: int| fold_len(n, k, i as nat) as usize)
}

/// Folding never lengthens a vector.
pub proof fn lemma_fold_len_le(n: nat, k: nat, i: nat)
    requires
        k >= 1,
    ensures
        fold_len(n, k, i) <= n,
    decreases i,
{
    if i > 0 {
        lemma_fold_len_le(n, k, (i - 1) as nat);
        lemma_div_room(fold_len(n, k, (i - 1) as nat), k);
        let x = fold_len(n, k, (i - 1) as nat);
        if x % k != 0 {
            assert(x / k + 1 <= x);
        }
    }
}

/// Each round's length is at most `k` times the next one, and zero only if the
/// next one is.
pub proof fn lemma_fold_len_step(n: nat, k: nat, i: nat)
    requires
        k >= 1,
    ensures
        fold_len(n, k, i) <= k * fold_len(n, k, i + 1),
        fold_len(n, k, i + 1) == 0 ==> fold_len(n, k, i) == 0,
{
    let x = fold_len(n, k, i);
    assert(fold_len(n, k, i + 1) == ceil_div(x, k));
    let q = x / k;
    let r = x % k;
    assert(q * k + r == x && 0 <= r < k) by (nonlinear_arith)
        requires
            k > 0,
            q == x / k,
            r == x % k,
    ;
    assert(x <= k * ceil_div(x, k) && (ceil_div(x, k) == 0 ==> x == 0)) by (nonlinear_arith)
        requires
            q * k + r == x,
            0 <= r < k,
            ceil_div(x, k) == (if r == 0 { q } else { q + 1 }),
    ;
}

/// Folding `i + 1` times is folding the first round's result `i` times.
proof fn lemma_fold_len_shift(n: nat, k: nat, i: nat)
    requires
        k >= 1,
    ensures
        fold_len(n, k, i + 1) == fold_len(ceil_div(n, k), k, i),
    decreases i,
{
    assert(fold_len(n, k, i + 1) == ceil_div(fold_len(n, k, i), k));
    if i > 0 {
        let i1 = (i - 1) as nat;
        lemma_fold_len_shift(n, k, i1);
        assert(fold_len(ceil_div(n, k), k, i) == ceil_div(fold_len(ceil_div(n, k), k, i1), k));
    } else {
        assert(fold_len(n, k, 0) == n);
        assert(fold_len(ceil_div(n, k), k, 0) == ceil_div(n, k));
    }
}

/// A length of at most `k^d` (and at least one) folds down to a single element in
/// `d` rounds.
pub proof fn lemma_fold_len_reaches_one(n: nat, k: nat, d: nat)
    requires
        k >= 2,
        1 <= n <= pow_nat(k, d),
    ensures
        fold_len(n, k, d) == 1,
    decreases d,
{
    if d > 0 {
        let d1 = (d - 1) as nat;
        let c = ceil_div(n, k);
        lemma_pow_ge_ceil(k, d1, n);
        assert(c >= 1) by (nonlinear_arith)
            requires
                n >= 1,
                k >= 2,
                c == (if n % k == 0 { n / k } else { n / k + 1 }),
        ;
        lemma_fold_len_reaches_one(c, k, d1);
        lemma_fold_len_shift(n, k, d1);
    }
}

} // verus!
