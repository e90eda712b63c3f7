//! Fixed-point scalars.
//!
//! A scalar value is an `i64` counting units of `1 / SCALE`.  All
//! arithmetic is exact integer arithmetic; where a true quotient is not an
//! integer it is rounded half away from zero, the same policy `round`
//! applies to a real number.  `EPSILON` is the tolerance (in units) under
//! which two scalars count as equal.

use vstd::prelude::*;

verus! {

/// Number of fixed-point units in one whole unit (1.0).
pub const SCALE: i64 = 1_000_000_000;

/// Units of approximate-equality tolerance: 1e-5 in whole units.
pub const EPSILON: i64 = 10_000;

/// Absolute value over mathematical integers.
pub open spec fn fxabs(a: int) -> int {
    if a < 0 {
        -a
    } else {
        a
    }
}

/// Quotient of `a` by a positive `d`, rounded half away from zero.
pub open spec fn round_div(a: int, d: int) -> int
    recommends
        d > 0,
{
    if a >= 0 {
        (a + d / 2) / d
    } else {
        -((-a + d / 2) / d)
    }
}

/// Quotient of `a` by a nonzero `d`, rounded half away from zero.
pub open spec fn rdiv(a: int, d: int) -> int
    recommends
        d != 0,
{
    if d > 0 {
        round_div(a, d)
    } else {
        round_div(-a, -d)
    }
}

/// Rounding half away from zero lands within half a divisor of the true
/// quotient: `round_div(a, d) * d` differs from `a` by at most `d / 2`.
pub proof fn lemma_round_div_err(a: int, d: int)
    requires
        d > 0,
    ensures
        2 * fxabs(round_div(a, d) * d - a) <= d,
{
    if a >= 0 {
        lemma_round_div_err_nonneg(a, d);
    } else {
        lemma_round_div_err_nonneg(-a, d);
        let q: int = (-a + d / 2) / d;
        assert(round_div(a, d) * d - a == -(q * d - (-a))) by {
            vstd::arithmetic::mul::lemma_mul_unary_negation(q, d);
        }
    }
}

proof fn lemma_round_div_err_nonneg(a: int, d: int)
    requires
        d > 0,
        a >= 0,
    ensures
        2 * fxabs(round_div(a, d) * d - a) <= d,
{
    let e: int = d / 2;
    let q: int = (a + e) / d;
    vstd::arithmetic::div_mod::lemma_fundamental_div_mod(a + e, d);
    vstd::arithmetic::div_mod::lemma_mod_bound(a + e, d);
    vstd::arithmetic::div_mod::lemma_fundamental_div_mod(d, 2);
    vstd::arithmetic::div_mod::lemma_mod_bound(d, 2);
    let r: int = (a + e) % d;
    assert(q * d - a == e - r) by {
        vstd::arithmetic::mul::lemma_mul_is_commutative(q, d);
    }
}

/// The absolute value of a product with a positive right factor.
pub proof fn lemma_abs_mul(x: int, d: int)
    requires
        d >= 0,
    ensures
        fxabs(x * d) == fxabs(x) * d,
{
    vstd::arithmetic::mul::lemma_mul_unary_negation(x, d);
    if x >= 0 {
        vstd::arithmetic::mul::lemma_mul_nonnegative(x, d);
    } else {
        vstd::arithmetic::mul::lemma_mul_nonnegative(-x, d);
    }
}

/// A rounded quotient of a bounded numerator is itself bounded.
pub proof fn lemma_round_div_bound(a: int, d: int, b: int)
    requires
        d > 0,
        b >= 0,
        fxabs(a) <= b * d,
    ensures
        fxabs(round_div(a, d)) <= b,
{
    let q: int = round_div(a, d);
    lemma_round_div_err(a, d);
    if fxabs(q) > b {
        lemma_abs_mul(q, d);
        assert((b + 1) * d <= fxabs(q) * d) by {
            vstd::arithmetic::mul::lemma_mul_inequality(b + 1, fxabs(q), d);
        }
        assert((b + 1) * d == b * d + d) by {
            vstd::arithmetic::mul::lemma_mul_is_distributive_add_other_way(d, b, 1);
        }
        assert(false);
    }
}

/// Signed rounding lands within half a divisor of the true quotient.
pub proof fn lemma_rdiv_err(a: int, d: int)
    requires
        d != 0,
    ensures
        2 * fxabs(rdiv(a, d) * d - a) <= fxabs(d),
{
    if d > 0 {
        lemma_round_div_err(a, d);
    } else {
        lemma_round_div_err(-a, -d);
        let q: int = round_div(-a, -d);
        assert(q * d - a == -(q * (-d) - (-a))) by {
            vstd::arithmetic::mul::lemma_mul_unary_negation(q, d);
        }
    }
}

/// The absolute value distributes over products.
pub proof fn lemma_abs_mul_general(x: int, y: int)
    ensures
        fxabs(x * y) == fxabs(x) * fxabs(y),
{
    assert(fxabs(x * y) == fxabs(x) * fxabs(y)) by (nonlinear_arith)
        requires
            fxabs(x) == if x < 0 {
                -x
            } else {
                x
            },
            fxabs(y) == if y < 0 {
                -y
            } else {
                y
            },
            fxabs(x * y) == if x * y < 0 {
                -(x * y)
            } else {
                x * y
            },
    ;
}

/// A nonnegative numerator rounds to a nonnegative quotient.
pub proof fn lemma_round_div_nonneg(a: int, d: int)
    requires
        d > 0,
        a >= 0,
    ensures
        round_div(a, d) >= 0,
{
    vstd::arithmetic::div_mod::lemma_div_pos_is_pos(a + d / 2, d);
}

/// An exactly divisible numerator rounds to the exact quotient.
pub proof fn lemma_round_div_exact(k: int, d: int)
    requires
        d > 0,
    ensures
        round_div(k * d, d) == k,
{
    lemma_round_div_err(k * d, d);
    let q: int = round_div(k * d, d);
    assert(q * d - k * d == (q - k) * d) by {
        vstd::arithmetic::mul::lemma_mul_is_distributive_sub_other_way(d, q, k);
    }
    if q != k {
        lemma_abs_mul(q - k, d);
        assert(1 * d <= fxabs(q - k) * d) by {
            vstd::arithmetic::mul::lemma_mul_inequality(1, fxabs(q - k), d);
        }
        assert(false);
    }
}

/// Floor of the square root, as a recursive specification.
pub open spec fn isqrt_spec(n: int) -> int
    decreases n,
{
    if n < 1 {
        0
    } else {
        let r: int = isqrt_spec(n - 1);
        if (r + 1) * (r + 1) <= n {
            r + 1
        } else {
            r
        }
    }
}

/// `isqrt_spec(n)` really is the floor of the square root of `n`.
pub proof fn lemma_isqrt_spec_props(n: int)
    requires
        n >= 0,
    ensures
        isqrt_spec(n) >= 0,
        isqrt_spec(n) * isqrt_spec(n) <= n,
        n < (isqrt_spec(n) + 1) * (isqrt_spec(n) + 1),
    decreases n,
{
    if n == 0 {
    } else {
        lemma_isqrt_spec_props(n - 1);
        let r0: int = isqrt_spec(n - 1);
        if (r0 + 1) * (r0 + 1) <= n {
            assert(n < ((r0 + 1) + 1) * ((r0 + 1) + 1)) by (nonlinear_arith)
                requires
                    r0 >= 0,
                    n - 1 < (r0 + 1) * (r0 + 1),
            ;
        }
    }
}

/// Any integer bracketing the same value as `isqrt_spec` equals it.
pub proof fn lemma_isqrt_unique(n: int, r: int)
    requires
        n >= 0,
        r >= 0,
        r * r <= n,
        n < (r + 1) * (r + 1),
    ensures
        r == isqrt_spec(n),
{
    lemma_isqrt_spec_props(n);
    let s: int = isqrt_spec(n);
    assert(r == s) by (nonlinear_arith)
        requires
            r >= 0,
            s >= 0,
            r * r <= n,
            n < (r + 1) * (r + 1),
            s * s <= n,
            n < (s + 1) * (s + 1),
    ;
}

/// Whether two scalars are equal under the renderer's tolerance.
pub open spec fn approx_eq_spec(a: int, b: int) -> bool {
    fxabs(a - b) < EPSILON
}

/// Determines equality between two scalars, within `EPSILON`.
pub fn approx_eq(left: i64, right: i64) -> (r: bool)
    ensures
        r == approx_eq_spec(left as int, right as int),
{
    let d: i128 = left as i128 - right as i128;
    let a: i128 = if d < 0 {
        -d
    } else {
        d
    };
    a < EPSILON as i128
}

/// Rescales a double-width product back to fixed-point units, rounding
/// half away from zero.
pub fn fx_scale_down(p: i128) -> (r: i64)
    requires
        fxabs(p as int) <= i64::MAX as int * SCALE as int,
    ensures
        r as int == round_div(p as int, SCALE as int),
{
    let ap: u128 = if p < 0 {
        (-p) as u128
    } else {
        p as u128
    };
    let q: u128 = (ap + SCALE as u128 / 2) / SCALE as u128;
    proof {
        lemma_round_div_bound(p as int, SCALE as int, i64::MAX as int);
    }
    if p < 0 {
        -(q as i64)
    } else {
        q as i64
    }
}

/// Multiplies two fixed-point scalars, rounding half away from zero.
pub fn fx_mul(a: i64, b: i64) -> (r: i64)
    requires
        fxabs(a as int * b as int) <= i64::MAX as int * SCALE as int,
    ensures
        r as int == round_div(a as int * b as int, SCALE as int),
{
    fx_scale_down(a as i128 * b as i128)
}

/// A four-term fixed-point dot product: the exact sum of the four
/// products, rescaled with a single rounding.
pub fn fx_dot4(a0: i64, a1: i64, a2: i64, a3: i64, b0: i64, b1: i64, b2: i64, b3: i64) -> (r: i64)
    requires
        fxabs(a0 * b0) + fxabs(a1 * b1) + fxabs(a2 * b2) + fxabs(a3 * b3) <= i64::MAX as int
            * SCALE as int,
    ensures
        r as int == round_div(a0 * b0 + a1 * b1 + a2 * b2 + a3 * b3, SCALE as int),
{
    let p0: i128 = a0 as i128 * b0 as i128;
    let p1: i128 = a1 as i128 * b1 as i128;
    let p2: i128 = a2 as i128 * b2 as i128;
    let p3: i128 = a3 as i128 * b3 as i128;
    fx_scale_down(p0 + p1 + p2 + p3)
}

/// Divides one fixed-point scalar by another, rounding half away from zero.
pub fn fx_div(a: i64, b: i64) -> (r: i64)
    requires
        b != 0,
        fxabs(a as int) * SCALE as int <= i64::MAX as int * fxabs(b as int),
    ensures
        r as int == rdiv(a as int * SCALE as int, b as int),
{
    let aa: u128 = if a < 0 {
        (-(a as i128)) as u128
    } else {
        a as u128
    };
    let ab: u128 = if b < 0 {
        (-(b as i128)) as u128
    } else {
        b as u128
    };
    let an: u128 = aa * SCALE as u128;
    let q: u128 = (an + ab / 2) / ab;
    proof {
        lemma_fx_div_fits(a as int, b as int);
        lemma_abs_mul(a as int, SCALE as int);
        let n: int = a as int * SCALE as int;
        let d: int = b as int;
        assert(an as int == fxabs(n));
        assert(q as int == (fxabs(n) + fxabs(d) / 2) / fxabs(d));
        if d > 0 {
            if n >= 0 {
                assert(rdiv(n, d) == q as int);
            } else {
                assert(rdiv(n, d) == -(q as int));
            }
        } else {
            if n > 0 {
                assert(rdiv(n, d) == -(q as int));
            } else if n == 0 {
                lemma_round_div_bound(0, -d, 0);
                assert(rdiv(n, d) == 0);
                assert(fxabs(d) / 2 < fxabs(d));
                assert(q as int == 0);
            } else {
                assert(rdiv(n, d) == q as int);
            }
        }
    }
    if (a < 0) != (b < 0) {
        -(q as i64)
    } else {
        q as i64
    }
}

proof fn lemma_fx_div_fits(a: int, b: int)
    requires
        b != 0,
        fxabs(a) * SCALE as int <= i64::MAX as int * fxabs(b),
    ensures
        fxabs(rdiv(a * SCALE as int, b)) <= i64::MAX as int,
{
    assert(fxabs(a * SCALE as int) == fxabs(a) * SCALE as int) by {
        vstd::arithmetic::mul::lemma_mul_unary_negation(a, SCALE as int);
    }
    if b > 0 {
        lemma_round_div_bound(a * SCALE as int, b, i64::MAX as int);
    } else {
        lemma_round_div_bound(-(a * SCALE as int), -b, i64::MAX as int);
    }
}

/// Floor of the square root of a 128-bit integer.
pub fn isqrt(n: u128) -> (r: u64)
    ensures
        r as int == isqrt_spec(n as int),
{
    let mut lo: u64 = 0;
    let mut hi: u64 = u64::MAX;
    while lo < hi
        invariant
            lo <= hi,
            lo as int * lo as int <= n as int,
            (hi as int + 1) * (hi as int + 1) > n as int,
        decreases hi - lo,
    {
        let mid: u64 = hi - (hi - lo) / 2;
        proof {
            assert(mid as int * mid as int <= u64::MAX as int * u64::MAX as int)
                by (nonlinear_arith)
                requires
                    mid <= u64::MAX,
            ;
        }
        if (mid as u128) * (mid as u128) <= n {
            lo = mid;
        } else {
            hi = mid - 1;
        }
    }
    proof {
        lemma_isqrt_unique(n as int, lo as int);
    }
    lo
}

} // verus!
