//! Fixed-point scalar arithmetic.
//!
//! A real number `x` is stored as the integer `round(x * SCALE)`.  All
//! operations here are exact integer computations with floor rounding, so each
//! has a precise functional specification.

use vstd::prelude::*;

verus! {

use vstd::arithmetic::div_mod::{
    lemma_fundamental_div_mod, lemma_fundamental_div_mod_converse, lemma_div_is_ordered,
    lemma_div_is_ordered_by_denominator,
};

/// Raw units per 1.0 of real value.
pub const SCALE: i64 = 65536;

/// Magnitude bound on every stored coordinate, chosen so that the sphere
/// intersection quadratic fits comfortably in `i128` intermediates.
pub const VMAX: i64 = 268435456;

/// Upper bound on ray parameters `t`; stands in for "no far limit".
pub const T_LIMIT: i64 = 1099511627776;

/// Magnitude bound under which all `i128` intermediates in this module stay
/// well clear of overflow.
pub const BIG: i128 = 85070591730234615865843651857942052864;

/// The near bound every scene query uses (about 0.001): rays never re-hit the
/// surface they just left.
pub const T_EPS: i64 = 66;

/// Floor division by a positive divisor, as a function on mathematical
/// integers: this is exactly Verus's Euclidean `/` when the divisor is
/// positive.
pub open spec fn floor_div(a: int, b: int) -> int {
    a / b
}

/// Floor division of an `i128` by a positive `i128`.
pub fn div_floor_i128(a: i128, b: i128) -> (q: i128)
    requires
        0 < b < BIG,
        -BIG < a < BIG,
    ensures
        q == floor_div(a as int, b as int),
{
    if a >= 0 {
        let au = a as u128;
        let bu = b as u128;
        let qu = au / bu;
        proof {
            lemma_fundamental_div_mod(au as int, bu as int);
        }
        qu as i128
    } else {
        let m = (-a) as u128;
        let bu = b as u128;
        let q0 = (m + bu - 1) / bu;
        let q = -(q0 as i128);
        proof {
            let mi = m as int;
            let bi = b as int;
            let d = mi / bi;
            let r = mi % bi;
            lemma_fundamental_div_mod(mi, bi);
            lemma_fundamental_div_mod(mi + bi - 1, bi);
            if r == 0 {
                assert(mi + bi - 1 == bi * d + (bi - 1));
                lemma_fundamental_div_mod_converse(mi + bi - 1, bi, d, bi - 1);
                assert(q0 == d);
                assert(a as int == bi * (-d) + 0) by {
                    assert(bi * (-d) == -(bi * d)) by (nonlinear_arith);
                };
                lemma_fundamental_div_mod_converse(a as int, bi, -d, 0);
            } else {
                assert(mi + bi - 1 == bi * (d + 1) + (r - 1)) by {
                    assert(bi * (d + 1) == bi * d + bi) by (nonlinear_arith);
                };
                lemma_fundamental_div_mod_converse(mi + bi - 1, bi, d + 1, r - 1);
                assert(q0 == d + 1);
                assert(a as int == bi * (-(d + 1)) + (bi - r)) by {
                    assert(bi * (-(d + 1)) == -(bi * d) - bi) by (nonlinear_arith);
                };
                lemma_fundamental_div_mod_converse(a as int, bi, -(d + 1), bi - r);
            }
        }
        q
    }
}

/// `r` is the integer square root of `n`: the greatest integer whose square
/// does not exceed `n`.
pub open spec fn is_sqrt_floor(n: int, r: int) -> bool {
    0 <= r && r * r <= n && n < (r + 1) * (r + 1)
}

/// The integer square root, as a specification-level function.
pub open spec fn sqrt_floor(n: int) -> int {
    choose|r: int| is_sqrt_floor(n, r)
}

/// Every nonnegative integer has an integer square root.
pub proof fn lemma_sqrt_floor_exists(n: int) -> (r: int)
    requires
        0 <= n,
    ensures
        is_sqrt_floor(n, r),
    decreases n,
{
    if n == 0 {
        assert(is_sqrt_floor(0, 0)) by (nonlinear_arith);
        0
    } else {
        let p = lemma_sqrt_floor_exists(n - 1);
        if (p + 1) * (p + 1) <= n {
            assert(n == (p + 1) * (p + 1));
            assert(n < (p + 2) * (p + 2)) by (nonlinear_arith)
                requires n == (p + 1) * (p + 1) && p >= 0;
            assert(is_sqrt_floor(n, p + 1));
            p + 1
        } else {
            assert(is_sqrt_floor(n, p));
            p
        }
    }
}

/// The integer square root is unique.
pub proof fn lemma_sqrt_floor_unique(n: int, r1: int, r2: int)
    requires
        is_sqrt_floor(n, r1),
        is_sqrt_floor(n, r2),
    ensures
        r1 == r2,
{
    if r1 < r2 {
        assert(r2 * r2 <= n && n < (r1 + 1) * (r1 + 1) && (r1 + 1) * (r1 + 1) <= r2 * r2)
            by (nonlinear_arith)
            requires 0 <= r1 < r2 && r2 * r2 <= n && n < (r1 + 1) * (r1 + 1);
    }
    if r2 < r1 {
        assert(r1 * r1 <= n && n < (r2 + 1) * (r2 + 1) && (r2 + 1) * (r2 + 1) <= r1 * r1)
            by (nonlinear_arith)
            requires 0 <= r2 < r1 && r1 * r1 <= n && n < (r2 + 1) * (r2 + 1);
    }
}

/// So `sqrt_floor(n)` itself satisfies the defining property.
pub proof fn lemma_sqrt_floor(n: int)
    requires
        0 <= n,
    ensures
        is_sqrt_floor(n, sqrt_floor(n)),
{
    let w = lemma_sqrt_floor_exists(n);
}

/// Integer square root of a `u128`, by binary search.
pub fn isqrt_u128(n: u128) -> (r: u128)
    ensures
        r == sqrt_floor(n as int),
        r * r <= n,
{
    let mut lo: u128 = 0;
    let mut hi: u128 = 18446744073709551616;
    proof {
        assert((18446744073709551616 as int) * (18446744073709551616 as int) > u128::MAX as int)
            by (nonlinear_arith);
    }
    while hi - lo > 1
        invariant
            lo < hi,
            hi <= 18446744073709551616,
            (lo as int) * (lo as int) <= n as int,
            (n as int) < (hi as int) * (hi as int),
        decreases hi - lo,
    {
        let mid = lo + (hi - lo) / 2;
        assert(mid < hi && lo < mid);
        assert((mid as int) * (mid as int) <= u128::MAX as int) by (nonlinear_arith)
            requires mid < 18446744073709551616;
        let sq = mid * mid;
        if sq <= n {
            lo = mid;
        } else {
            hi = mid;
        }
    }
    proof {
        assert(hi == lo + 1);
        assert(is_sqrt_floor(n as int, lo as int));
        lemma_sqrt_floor(n as int);
        lemma_sqrt_floor_unique(n as int, lo as int, sqrt_floor(n as int));
    }
    lo
}

/// Fixed-point product: `(a * b) / SCALE`, floor-rounded.
pub open spec fn fp_mul_spec(a: int, b: int) -> int {
    floor_div(a * b, SCALE as int)
}

/// Fixed-point quotient: `(a * SCALE) / b`, floor-rounded; `b` must be
/// positive.
pub open spec fn fp_div_spec(a: int, b: int) -> int {
    floor_div(a * SCALE as int, b)
}

/// Floor division is monotone in the dividend (positive divisor).
pub proof fn lemma_floor_div_ordered(a: int, b: int, d: int)
    requires
        a <= b,
        0 < d,
    ensures
        floor_div(a, d) <= floor_div(b, d),
{
    lemma_div_is_ordered(a, b, d);
}

/// A product of bounded factors is bounded.
pub proof fn lemma_mul_bound(x: int, y: int, mx: int, my: int)
    requires
        -mx <= x <= mx,
        -my <= y <= my,
        0 <= mx,
        0 <= my,
    ensures
        -(mx * my) <= x * y <= mx * my,
{
    assert(-(mx * my) <= x * y <= mx * my) by (nonlinear_arith)
        requires -mx <= x <= mx && -my <= y <= my && 0 <= mx && 0 <= my;
}

/// A fixed-point product of bounded factors is bounded.
pub proof fn lemma_fp_mul_bound(a: int, b: int, ma: int, mb: int)
    requires
        -ma <= a <= ma,
        -mb <= b <= mb,
        0 <= ma,
        0 <= mb,
        ma * mb < BIG,
    ensures
        -BIG < a * b < BIG,
        -(ma * mb / SCALE as int) - 1 <= fp_mul_spec(a, b) <= ma * mb / SCALE as int,
{
    lemma_mul_bound(a, b, ma, mb);
    lemma_floor_div_bound(a * b, ma * mb, SCALE as int);
}

/// A fixed-point quotient is bounded once the divisor is bounded below.
pub proof fn lemma_fp_div_bound(a: int, b: int, ma: int, bmin: int)
    requires
        -ma <= a <= ma,
        0 <= ma,
        0 < bmin <= b,
        ma * SCALE < BIG,
    ensures
        -BIG < a * SCALE < BIG,
        -(ma * (SCALE as int) / bmin) - 1 <= fp_div_spec(a, b) <= ma * (SCALE as int) / bmin,
{
    lemma_mul_bound(a, SCALE as int, ma, SCALE as int);
    lemma_floor_div_bound(a * SCALE, ma * SCALE, b);
    lemma_div_is_ordered_by_denominator(ma * SCALE, bmin, b);
    assert(ma * (SCALE as int) >= 0) by (nonlinear_arith)
        requires ma >= 0;
}

/// Floor division of a value of bounded magnitude is bounded.
pub proof fn lemma_floor_div_bound(x: int, m: int, d: int)
    requires
        -m <= x <= m,
        0 <= m,
        0 < d,
    ensures
        -(m / d) - 1 <= floor_div(x, d) <= m / d,
{
    lemma_div_is_ordered(x, m, d);
    lemma_div_is_ordered(-m, x, d);
    lemma_fundamental_div_mod(-m, d);
    lemma_fundamental_div_mod(m, d);
    let q = (-m) / d;
    let r = (-m) % d;
    let q2 = m / d;
    let r2 = m % d;
    assert(d * (q + q2) == -r - r2) by (nonlinear_arith)
        requires d * q + r == -m && d * q2 + r2 == m;
    assert(q + q2 >= -1) by (nonlinear_arith)
        requires d * (q + q2) == -r - r2 && 0 <= r < d && 0 <= r2 < d && 0 < d;
}

} // verus!
