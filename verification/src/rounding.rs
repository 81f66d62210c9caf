//! Division rounded to the nearest integer, for fixed-point arithmetic.

use vstd::prelude::*;
use vstd::arithmetic::div_mod::{lemma_fundamental_div_mod, lemma_fundamental_div_mod_converse};

verus! {

/// The quotient of `n` by `d`, rounded to the nearest integer; a quotient
/// exactly halfway between two integers is rounded up. Meant for `d > 0`.
pub open spec fn round_div(n: int, d: int) -> int {
    (2 * n + d) / (2 * d)
}

/// `round_div(n, d)` is the one integer `q` with `-d <= 2 * (n - q * d) < d`.
pub proof fn lemma_round_div_bounds(n: int, d: int)
    requires
        d > 0,
    ensures
        2 * (round_div(n, d) * d) - d <= 2 * n,
        2 * n < 2 * (round_div(n, d) * d) + d,
{
    let q = round_div(n, d);
    let x = 2 * n + d;
    let m = 2 * d;
    lemma_fundamental_div_mod(x, m);
    assert(x == m * q + x % m);
    assert(0 <= x % m < m);
    assert(m * q == 2 * (q * d)) by (nonlinear_arith)
        requires
            m == 2 * d,
    ;
}

/// Whatever integer satisfies the bounds of `lemma_round_div_bounds` is the
/// rounded quotient.
pub proof fn lemma_round_div_unique(n: int, d: int, q: int)
    requires
        d > 0,
        2 * (q * d) - d <= 2 * n,
        2 * n < 2 * (q * d) + d,
    ensures
        round_div(n, d) == q,
{
    let x = 2 * n + d;
    let m = 2 * d;
    let r = x - m * q;
    assert(m * q == 2 * (q * d)) by (nonlinear_arith)
        requires
            m == 2 * d,
    ;
    assert(q * m == m * q) by (nonlinear_arith);
    lemma_fundamental_div_mod_converse(x, m, q, r);
}

/// A multiple of the divisor is divided without rounding.
pub proof fn lemma_round_div_exact(k: int, d: int)
    requires
        d > 0,
    ensures
        round_div(k * d, d) == k,
{
    lemma_round_div_unique(k * d, d, k);
}

/// Rounded division keeps the order of the dividends.
pub proof fn lemma_round_div_monotonic(a: int, b: int, d: int)
    requires
        d > 0,
        a <= b,
    ensures
        round_div(a, d) <= round_div(b, d),
{
    let qa = round_div(a, d);
    let qb = round_div(b, d);
    lemma_round_div_bounds(a, d);
    lemma_round_div_bounds(b, d);
    if qa > qb {
        assert(qa * d >= (qb + 1) * d) by (nonlinear_arith)
            requires
                qa >= qb + 1,
                d > 0,
        ;
        assert((qb + 1) * d == qb * d + d) by (nonlinear_arith);
    }
}

/// A quotient of a dividend between `lo * d` and `hi * d` lies between `lo`
/// and `hi`.
pub proof fn lemma_round_div_between(n: int, d: int, lo: int, hi: int)
    requires
        d > 0,
        lo * d <= n <= hi * d,
    ensures
        lo <= round_div(n, d) <= hi,
{
    lemma_round_div_exact(lo, d);
    lemma_round_div_exact(hi, d);
    lemma_round_div_monotonic(lo * d, n, d);
    lemma_round_div_monotonic(n, hi * d, d);
}

/// Rounded division of unsigned machine integers.
pub fn round_div_u128(n: u128, d: u128) -> (q: u128)
    requires
        d > 0,
    ensures
        q == round_div(n as int, d as int),
{
    let q = n / d;
    let r = n % d;
    proof {
        lemma_fundamental_div_mod(n as int, d as int);
        assert(d * q == q * d) by (nonlinear_arith);
    }
    if r >= d - r {
        proof {
            assert(q < u128::MAX) by (nonlinear_arith)
                requires
                    q * d + r == n,
                    n <= u128::MAX,
                    r >= d - r,
                    d > 0,
                    r < d,
                    q >= 0,
            ;
            assert((q + 1) * d == q * d + d) by (nonlinear_arith);
            lemma_round_div_unique(n as int, d as int, q + 1);
        }
        q + 1
    } else {
        proof {
            lemma_round_div_unique(n as int, d as int, q as int);
        }
        q
    }
}

} // verus!
