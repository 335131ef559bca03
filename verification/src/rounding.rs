//! Rounding a fraction to the nearest whole number.

use vstd::arithmetic::div_mod::lemma_fundamental_div_mod_converse;
use vstd::prelude::*;

verus! {

/// The fraction `n / d` rounded to the nearest whole number, a half upwards.
pub open spec fn rounded(n: int, d: int) -> int
    recommends
        n >= 0,
        d > 0,
{
    (2 * n + d) / (2 * d)
}

/// The fraction `n / d`, rounded to the nearest whole number.
pub fn round_fraction(n: u128, d: u128) -> (result: u128)
    requires
        0 < d <= u128::MAX / 2,
    ensures
        result == rounded(n as int, d as int),
{
    let q: u128 = n / d;
    let r: u128 = n % d;
    proof {
        let x = 2 * n + d;
        assert(n == q * d + r) by (nonlinear_arith)
            requires
                q == n as int / d as int,
                r == n as int % d as int,
                d > 0,
        ;
        if 2 * r >= d {
            assert(x == (q + 1) * (2 * d) + (2 * r - d)) by (nonlinear_arith)
                requires
                    x == 2 * n + d,
                    n == q * d + r,
            ;
            lemma_fundamental_div_mod_converse(x, 2 * d, q + 1, 2 * r - d);
            assert(2 * q <= n) by (nonlinear_arith)
                requires
                    n == q * d + r,
                    d >= 2,
                    r >= 0,
                    q >= 0,
            ;
        } else {
            assert(x == q * (2 * d) + (2 * r + d)) by (nonlinear_arith)
                requires
                    x == 2 * n + d,
                    n == q * d + r,
            ;
            lemma_fundamental_div_mod_converse(x, 2 * d, q as int, 2 * r + d);
        }
    }
    if 2 * r >= d {
        q + 1
    } else {
        q
    }
}

/// A share of a whole, rounded, is at most the whole.
pub proof fn lemma_rounded_share(part: int, whole: int, of: int)
    requires
        0 <= part <= whole,
        0 < whole,
        0 <= of,
    ensures
        0 <= rounded(part * of, whole) <= of,
{
    let x = 2 * (part * of) + whole;
    let d = 2 * whole;
    assert(0 <= part * of <= whole * of) by (nonlinear_arith)
        requires
            0 <= part <= whole,
            0 <= of,
    ;
    assert(x < (of + 1) * d) by (nonlinear_arith)
        requires
            x == 2 * (part * of) + whole,
            d == 2 * whole,
            part * of <= whole * of,
            whole > 0,
    ;
    assert(0 <= x / d <= of) by (nonlinear_arith)
        requires
            0 <= x < (of + 1) * d,
            d > 0,
    ;
}

/// The product of two `usize` values.
pub fn product(a: usize, b: usize) -> (result: u128)
    ensures
        result == a * b,
{
    proof {
        assert(a * b <= u64::MAX * u64::MAX) by (nonlinear_arith)
            requires
                0 <= a <= u64::MAX,
                0 <= b <= u64::MAX,
        ;
    }
    (a as u128) * (b as u128)
}

/// A fraction is rounded to `q` where it lies within a half of `q`.
pub proof fn lemma_rounded_is(n: int, d: int, q: int)
    requires
        d > 0,
        q * (2 * d) <= 2 * n + d < (q + 1) * (2 * d),
    ensures
        rounded(n, d) == q,
{
    let r = 2 * n + d - q * (2 * d);
    assert(r < 2 * d) by (nonlinear_arith)
        requires
            r == 2 * n + d - q * (2 * d),
            2 * n + d < (q + 1) * (2 * d),
    ;
    lemma_fundamental_div_mod_converse(2 * n + d, 2 * d, q, r);
}

} // verus!
