//! Fixed-point scalar arithmetic: truncating division and the integer
//! square root, with the lemmas the geometry layers lean on.

use vstd::prelude::*;
use vstd::arithmetic::div_mod::{
    lemma_div_is_ordered, lemma_div_multiples_vanish, lemma_div_nonincreasing,
    lemma_div_pos_is_pos,
};

verus! {

/// Number of fixed-point units per 1.0: every scalar in this crate is an
/// `i64` counting millionths, so `1_000_000` stands for one unit.
pub const SCALE: i64 = 1_000_000;

/// Truncating division (round toward zero), the rounding every division in
/// this crate uses. Only positive divisors occur.
pub open spec fn tdiv(a: int, b: int) -> int {
    if a >= 0 {
        a / b
    } else {
        -((-a) / b)
    }
}

/// `r` is the integer square root of `n`: the largest integer whose square
/// does not exceed `n`.
pub open spec fn is_sqrt(n: int, r: int) -> bool {
    0 <= r && r * r <= n && n < (r + 1) * (r + 1)
}

/// The integer square root of a nonnegative number as a specification-level
/// value; `lemma_sqrt_floor_exists` shows it deserves the name.
pub open spec fn sqrt_floor(n: int) -> int {
    choose|r: int| is_sqrt(n, r)
}

/// Two integer square roots of the same number are equal.
pub proof fn lemma_sqrt_unique(n: int, r1: int, r2: int)
    requires
        is_sqrt(n, r1),
        is_sqrt(n, r2),
    ensures
        r1 == r2,
{
    if r1 < r2 {
        assert((r1 + 1) * (r1 + 1) <= r2 * r2) by (nonlinear_arith)
            requires
                0 <= r1,
                r1 < r2,
        ;
    }
    if r2 < r1 {
        assert((r2 + 1) * (r2 + 1) <= r1 * r1) by (nonlinear_arith)
            requires
                0 <= r2,
                r2 < r1,
        ;
    }
}

/// Any witness of `is_sqrt` is the value of `sqrt_floor`.
pub proof fn lemma_sqrt_floor_is(n: int, r: int)
    requires
        is_sqrt(n, r),
    ensures
        sqrt_floor(n) == r,
{
    assert(exists|x: int| is_sqrt(n, x));
    let c = choose|x: int| is_sqrt(n, x);
    lemma_sqrt_unique(n, c, r);
}

/// Every nonnegative number has an integer square root.
pub proof fn lemma_sqrt_floor_exists(n: int)
    requires
        0 <= n,
    ensures
        is_sqrt(n, sqrt_floor(n)),
    decreases n,
{
    if n == 0 {
        assert(is_sqrt(0, 0));
        lemma_sqrt_floor_is(0, 0);
    } else {
        lemma_sqrt_floor_exists(n - 1);
        let r = sqrt_floor(n - 1);
        if (r + 1) * (r + 1) <= n {
            assert(is_sqrt(n, r + 1)) by (nonlinear_arith)
                requires
                    is_sqrt(n - 1, r),
                    (r + 1) * (r + 1) <= n,
            ;
            lemma_sqrt_floor_is(n, r + 1);
        } else {
            assert(is_sqrt(n, r));
            lemma_sqrt_floor_is(n, r);
        }
    }
}

/// The integer square root of a perfect square.
pub proof fn lemma_sqrt_square(c: int)
    requires
        0 <= c,
    ensures
        sqrt_floor(c * c) == c,
{
    assert(is_sqrt(c * c, c)) by (nonlinear_arith)
        requires
            0 <= c,
    ;
    lemma_sqrt_floor_is(c * c, c);
}

/// Truncating division stays within `[-m, m]` whenever the dividend stays
/// within `[-(m*b), m*b]`.
pub proof fn lemma_tdiv_bounds(a: int, b: int, m: int)
    requires
        0 < b,
        0 <= m,
        -(m * b) <= a <= m * b,
    ensures
        -m <= tdiv(a, b) <= m,
{
    if a >= 0 {
        lemma_div_pos_is_pos(a, b);
        lemma_div_is_ordered(a, m * b, b);
        lemma_div_multiples_vanish(m, b);
        assert(m * b == b * m) by (nonlinear_arith);
    } else {
        lemma_div_pos_is_pos(-a, b);
        lemma_div_is_ordered(-a, m * b, b);
        lemma_div_multiples_vanish(m, b);
        assert(m * b == b * m) by (nonlinear_arith);
    }
}

/// Truncating division of a nonnegative number is nonnegative and does not
/// grow the number.
pub proof fn lemma_tdiv_nonneg(a: int, b: int)
    requires
        0 <= a,
        0 < b,
    ensures
        0 <= tdiv(a, b) <= a,
{
    lemma_div_pos_is_pos(a, b);
    lemma_div_nonincreasing(a, b);
}

/// Truncating division never grows a number's magnitude.
pub proof fn lemma_tdiv_shrinks(a: int, b: int)
    requires
        0 < b,
    ensures
        a >= 0 ==> 0 <= tdiv(a, b) <= a,
        a < 0 ==> a <= tdiv(a, b) <= 0,
{
    if a >= 0 {
        lemma_tdiv_nonneg(a, b);
    } else {
        lemma_tdiv_nonneg(-a, b);
    }
}

/// Dividing an exact multiple recovers the factor, for either sign.
pub proof fn lemma_tdiv_multiple(x: int, b: int)
    requires
        0 < b,
    ensures
        tdiv(x * b, b) == x,
{
    if x >= 0 {
        lemma_div_multiples_vanish(x, b);
        assert(x * b == b * x) by (nonlinear_arith);
    } else {
        lemma_div_multiples_vanish(-x, b);
        assert(-(x * b) == b * -x) by (nonlinear_arith);
    }
}

/// `b * x / b == x`, with the divisor standing as the left factor.
pub proof fn lemma_tdiv_multiple_left(b: int, x: int)
    requires
        0 < b,
    ensures
        tdiv(b * x, b) == x,
{
    assert(b * x == x * b) by (nonlinear_arith);
    lemma_tdiv_multiple(x, b);
}

/// Multiplying by a fraction `a / s` drawn from `[0, 1]` never grows a
/// nonnegative factor, whichever side the factor stands on.
pub proof fn lemma_tdiv_le_factor(a: int, s: int, t: int)
    requires
        0 <= a <= s,
        0 < s,
        0 <= t,
    ensures
        0 <= tdiv(a * t, s) <= t,
        0 <= tdiv(t * a, s) <= t,
{
    assert(0 <= a * t <= s * t) by (nonlinear_arith)
        requires
            0 <= a <= s,
            0 <= t,
    ;
    assert(t * a == a * t) by (nonlinear_arith);
    lemma_div_pos_is_pos(a * t, s);
    lemma_div_is_ordered(a * t, s * t, s);
    lemma_div_multiples_vanish(t, s);
}

/// Truncating division of `i128` values through unsigned magnitudes.
pub fn tdiv_i128(a: i128, b: i128) -> (q: i128)
    requires
        0 < b,
        i128::MIN < a,
    ensures
        q == tdiv(a as int, b as int),
{
    if a >= 0 {
        let q = (a as u128) / (b as u128);
        proof {
            lemma_div_pos_is_pos(a as int, b as int);
            lemma_div_nonincreasing(a as int, b as int);
        }
        q as i128
    } else {
        let m = (-a) as u128;
        let q = m / (b as u128);
        proof {
            lemma_div_pos_is_pos(m as int, b as int);
            lemma_div_nonincreasing(m as int, b as int);
        }
        -(q as i128)
    }
}

/// The integer square root of a `u128`, by binary search over the root.
pub fn isqrt_u128(n: u128) -> (r: u128)
    ensures
        is_sqrt(n as int, r as int),
        r <= u64::MAX,
{
    let mut lo: u128 = 0;
    let mut hi: u128 = 0x1_0000_0000_0000_0000;
    proof {
        assert((0x1_0000_0000_0000_0000 as int) * (0x1_0000_0000_0000_0000 as int) > n as int)
            by (nonlinear_arith)
            requires
                n <= u128::MAX,
        ;
    }
    while hi - lo > 1
        invariant
            lo < hi,
            hi <= 0x1_0000_0000_0000_0000u128,
            (lo as int) * (lo as int) <= n as int,
            (n as int) < (hi as int) * (hi as int),
        decreases hi - lo,
    {
        let mid: u128 = lo + (hi - lo) / 2;
        proof {
            assert(mid * mid <= u128::MAX) by (nonlinear_arith)
                requires
                    mid < 0x1_0000_0000_0000_0000u128,
            ;
        }
        if mid * mid <= n {
            lo = mid;
        } else {
            hi = mid;
        }
    }
    lo
}

} // verus!
