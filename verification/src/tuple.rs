//! Tuple algebra: points and vectors as homogeneous 4-component tuples.
//!
//! The fourth component `w` is a discriminator, not a coordinate:
//! `w == POINT_INDICATOR` (1.0) marks a point, `w == VECTOR_INDICATOR`
//! (0.0) marks a vector.  Every operation enforces the point/vector rules
//! at its boundary and reports `AlgebraError::InvalidOperand` on misuse
//! instead of returning a geometrically meaningless value.

use vstd::prelude::*;

use crate::error::AlgebraError;
use crate::scalar::{
    approx_eq, approx_eq_spec, fx_div, fx_mul, fx_scale_down, fxabs, isqrt, isqrt_spec,
    lemma_isqrt_spec_props, rdiv, round_div, EPSILON, SCALE,
};

verus! {

/// A homogeneous coordinate `(x, y, z, w)` of fixed-point scalars.
pub type Tuple = (i64, i64, i64, i64);

/// Discriminator value marking a point: 1.0 in fixed-point units.
pub const POINT_INDICATOR: i64 = SCALE;

/// Discriminator value marking a vector: 0.0.
pub const VECTOR_INDICATOR: i64 = 0;

/// Whether the discriminator marks a point, under the scalar tolerance.
pub open spec fn is_point_spec(tup: Tuple) -> bool {
    approx_eq_spec(tup.3 as int, POINT_INDICATOR as int)
}

/// Whether the discriminator marks a vector, under the scalar tolerance.
pub open spec fn is_vector_spec(tup: Tuple) -> bool {
    approx_eq_spec(tup.3 as int, VECTOR_INDICATOR as int)
}

/// Componentwise approximate equality of two tuples.
pub open spec fn eq_tup_spec(left: Tuple, right: Tuple) -> bool {
    approx_eq_spec(left.0 as int, right.0 as int)
        && approx_eq_spec(left.1 as int, right.1 as int)
        && approx_eq_spec(left.2 as int, right.2 as int)
        && approx_eq_spec(left.3 as int, right.3 as int)
}

/// Sum of the squares of all four components.
pub open spec fn mag_sq(tup: Tuple) -> int {
    tup.0 * tup.0 + tup.1 * tup.1 + tup.2 * tup.2 + tup.3 * tup.3
}

/// The magnitude of a tuple: the integer square root of `mag_sq`, which
/// is the true Euclidean length rounded down to a whole unit.
pub open spec fn magnitude_spec(tup: Tuple) -> int {
    isqrt_spec(mag_sq(tup))
}

/// The widened dot product of two tuples, before rescaling.
pub open spec fn dot_wide(left: Tuple, right: Tuple) -> int {
    left.0 * right.0 + left.1 * right.1 + left.2 * right.2 + left.3 * right.3
}

/// The x component of a cross product, before rescaling.
pub open spec fn cross_x(left: Tuple, right: Tuple) -> int {
    left.1 * right.2 - left.2 * right.1
}

/// The y component of a cross product, before rescaling.
pub open spec fn cross_y(left: Tuple, right: Tuple) -> int {
    left.2 * right.0 - left.0 * right.2
}

/// The z component of a cross product, before rescaling.
pub open spec fn cross_z(left: Tuple, right: Tuple) -> int {
    left.0 * right.1 - left.1 * right.0
}

/// Creates a tuple representing a point.
pub fn point(x: i64, y: i64, z: i64) -> (r: Tuple)
    ensures
        r == (x, y, z, POINT_INDICATOR),
{
    (x, y, z, POINT_INDICATOR)
}

/// Creates a tuple representing a vector.
pub fn vector(x: i64, y: i64, z: i64) -> (r: Tuple)
    ensures
        r == (x, y, z, VECTOR_INDICATOR),
{
    (x, y, z, VECTOR_INDICATOR)
}

/// Determines if this tuple is a point.
pub fn is_point(tup: Tuple) -> (r: bool)
    ensures
        r == is_point_spec(tup),
{
    approx_eq(tup.3, POINT_INDICATOR)
}

/// Determines if this tuple is a vector.
pub fn is_vector(tup: Tuple) -> (r: bool)
    ensures
        r == is_vector_spec(tup),
{
    approx_eq(tup.3, VECTOR_INDICATOR)
}

/// Determines equality between two tuples, component by component.
pub fn eq_tup(left: Tuple, right: Tuple) -> (r: bool)
    ensures
        r == eq_tup_spec(left, right),
{
    approx_eq(left.0, right.0) && approx_eq(left.1, right.1) && approx_eq(left.2, right.2)
        && approx_eq(left.3, right.3)
}

/// Adds two tuples together.  Adding two points is refused: a position
/// plus a position has no geometric meaning.
pub fn add_tup(left: Tuple, right: Tuple) -> (res: Result<Tuple, AlgebraError>)
    requires
        i64::MIN <= left.0 + right.0 <= i64::MAX,
        i64::MIN <= left.1 + right.1 <= i64::MAX,
        i64::MIN <= left.2 + right.2 <= i64::MAX,
        i64::MIN <= left.3 + right.3 <= i64::MAX,
    ensures
        res is Err <==> (is_point_spec(left) && is_point_spec(right)),
        res is Err ==> res->Err_0 == AlgebraError::InvalidOperand,
        res is Ok ==> res->Ok_0.0 == left.0 + right.0 && res->Ok_0.1 == left.1 + right.1
            && res->Ok_0.2 == left.2 + right.2 && res->Ok_0.3 == left.3 + right.3,
{
    if is_point(left) && is_point(right) {
        return Err(AlgebraError::InvalidOperand);
    }
    Ok((left.0 + right.0, left.1 + right.1, left.2 + right.2, left.3 + right.3))
}

/// Subtracts the right tuple from the left tuple.  Subtracting a point
/// from a vector is refused: it would yield an invalid discriminator.
pub fn sub_tup(left: Tuple, right: Tuple) -> (res: Result<Tuple, AlgebraError>)
    requires
        i64::MIN <= left.0 - right.0 <= i64::MAX,
        i64::MIN <= left.1 - right.1 <= i64::MAX,
        i64::MIN <= left.2 - right.2 <= i64::MAX,
        i64::MIN <= left.3 - right.3 <= i64::MAX,
    ensures
        res is Err <==> (is_vector_spec(left) && is_point_spec(right)),
        res is Err ==> res->Err_0 == AlgebraError::InvalidOperand,
        res is Ok ==> res->Ok_0.0 == left.0 - right.0 && res->Ok_0.1 == left.1 - right.1
            && res->Ok_0.2 == left.2 - right.2 && res->Ok_0.3 == left.3 - right.3,
{
    if is_vector(left) && is_point(right) {
        return Err(AlgebraError::InvalidOperand);
    }
    Ok((left.0 - right.0, left.1 - right.1, left.2 - right.2, left.3 - right.3))
}

/// Negates a tuple.  Negating a point is refused.
pub fn neg_tup(tup: Tuple) -> (res: Result<Tuple, AlgebraError>)
    requires
        !is_point_spec(tup) ==> tup.0 > i64::MIN && tup.1 > i64::MIN && tup.2 > i64::MIN
            && tup.3 > i64::MIN,
    ensures
        res is Err <==> is_point_spec(tup),
        res is Err ==> res->Err_0 == AlgebraError::InvalidOperand,
        res is Ok ==> res->Ok_0.0 == -tup.0 && res->Ok_0.1 == -tup.1 && res->Ok_0.2 == -tup.2
            && res->Ok_0.3 == -tup.3,
{
    if is_point(tup) {
        return Err(AlgebraError::InvalidOperand);
    }
    Ok((-tup.0, -tup.1, -tup.2, -tup.3))
}

/// Multiplies a tuple by a scalar.  Scaling a point is refused.
pub fn mul_tup(tup: Tuple, scalar: i64) -> (res: Result<Tuple, AlgebraError>)
    requires
        !is_point_spec(tup) ==> fxabs(tup.0 * scalar) <= i64::MAX as int * SCALE as int
            && fxabs(tup.1 * scalar) <= i64::MAX as int * SCALE as int && fxabs(
            tup.2 * scalar,
        ) <= i64::MAX as int * SCALE as int && fxabs(tup.3 * scalar) <= i64::MAX as int
            * SCALE as int,
    ensures
        res is Err <==> is_point_spec(tup),
        res is Err ==> res->Err_0 == AlgebraError::InvalidOperand,
        res is Ok ==> res->Ok_0.0 == round_div(tup.0 * scalar, SCALE as int)
            && res->Ok_0.1 == round_div(tup.1 * scalar, SCALE as int) && res->Ok_0.2 == round_div(
            tup.2 * scalar,
            SCALE as int,
        ) && res->Ok_0.3 == round_div(tup.3 * scalar, SCALE as int),
{
    if is_point(tup) {
        return Err(AlgebraError::InvalidOperand);
    }
    Ok(
        (
            fx_mul(tup.0, scalar),
            fx_mul(tup.1, scalar),
            fx_mul(tup.2, scalar),
            fx_mul(tup.3, scalar),
        ),
    )
}

/// Divides a tuple by a scalar.  Dividing a point is refused, and so is
/// dividing by a scalar that is exactly zero.
pub fn div_tup(tup: Tuple, scalar: i64) -> (res: Result<Tuple, AlgebraError>)
    requires
        !is_point_spec(tup) && scalar != 0 ==> fxabs(tup.0 as int) * SCALE as int <= i64::MAX as int
            * fxabs(scalar as int) && fxabs(tup.1 as int) * SCALE as int <= i64::MAX as int * fxabs(
            scalar as int,
        ) && fxabs(tup.2 as int) * SCALE as int <= i64::MAX as int * fxabs(scalar as int) && fxabs(
            tup.3 as int,
        ) * SCALE as int <= i64::MAX as int * fxabs(scalar as int),
    ensures
        res is Err <==> (is_point_spec(tup) || scalar == 0),
        is_point_spec(tup) ==> res == Err::<Tuple, AlgebraError>(AlgebraError::InvalidOperand),
        !is_point_spec(tup) && scalar == 0 ==> res == Err::<Tuple, AlgebraError>(
            AlgebraError::DivisionByZero,
        ),
        res is Ok ==> res->Ok_0.0 == rdiv(tup.0 * SCALE, scalar as int)
            && res->Ok_0.1 == rdiv(tup.1 * SCALE, scalar as int) && res->Ok_0.2 == rdiv(
            tup.2 * SCALE,
            scalar as int,
        ) && res->Ok_0.3 == rdiv(tup.3 * SCALE, scalar as int),
{
    if is_point(tup) {
        return Err(AlgebraError::InvalidOperand);
    }
    if scalar == 0 {
        return Err(AlgebraError::DivisionByZero);
    }
    Ok(
        (
            fx_div(tup.0, scalar),
            fx_div(tup.1, scalar),
            fx_div(tup.2, scalar),
            fx_div(tup.3, scalar),
        ),
    )
}

/// The product of two 64-bit values fits in 127 bits.
proof fn lemma_i64_product_fits(a: int, b: int)
    requires
        i64::MIN <= a <= i64::MAX,
        i64::MIN <= b <= i64::MAX,
    ensures
        fxabs(a * b) <= 0x4000_0000_0000_0000_0000_0000_0000_0000,
{
    assert(fxabs(a * b) <= 0x4000_0000_0000_0000_0000_0000_0000_0000) by (nonlinear_arith)
        requires
            -0x8000_0000_0000_0000 <= a <= 0x7fff_ffff_ffff_ffff,
            -0x8000_0000_0000_0000 <= b <= 0x7fff_ffff_ffff_ffff,
    ;
}

/// The square of any component is at most the sum of all four squares.
proof fn lemma_squares_nonneg(tup: Tuple)
    ensures
        tup.0 * tup.0 >= 0,
        tup.1 * tup.1 >= 0,
        tup.2 * tup.2 >= 0,
        tup.3 * tup.3 >= 0,
{
    assert(tup.0 * tup.0 >= 0) by (nonlinear_arith);
    assert(tup.1 * tup.1 >= 0) by (nonlinear_arith);
    assert(tup.2 * tup.2 >= 0) by (nonlinear_arith);
    assert(tup.3 * tup.3 >= 0) by (nonlinear_arith);
}

/// A value whose square is below `(m + 1)^2` is at most `m` in size.
proof fn lemma_abs_le_sqrt_bound(c: int, s: int, m: int)
    requires
        c * c <= s,
        s < (m + 1) * (m + 1),
        m >= 0,
    ensures
        fxabs(c) <= m,
{
    let a: int = fxabs(c);
    assert(a * a == c * c) by (nonlinear_arith)
        requires
            a == c || a == -c,
    ;
    if a > m {
        assert(a * a >= (m + 1) * (m + 1)) by (nonlinear_arith)
            requires
                a >= m + 1,
                m >= 0,
        ;
        assert(false);
    }
}

/// No component of a tuple is larger in size than the tuple's magnitude.
pub proof fn lemma_component_le_magnitude(tup: Tuple)
    requires
        mag_sq(tup) >= 0,
    ensures
        fxabs(tup.0 as int) <= magnitude_spec(tup),
        fxabs(tup.1 as int) <= magnitude_spec(tup),
        fxabs(tup.2 as int) <= magnitude_spec(tup),
        fxabs(tup.3 as int) <= magnitude_spec(tup),
{
    lemma_squares_nonneg(tup);
    lemma_isqrt_spec_props(mag_sq(tup));
    let m: int = magnitude_spec(tup);
    lemma_abs_le_sqrt_bound(tup.0 as int, mag_sq(tup), m);
    lemma_abs_le_sqrt_bound(tup.1 as int, mag_sq(tup), m);
    lemma_abs_le_sqrt_bound(tup.2 as int, mag_sq(tup), m);
    lemma_abs_le_sqrt_bound(tup.3 as int, mag_sq(tup), m);
}

/// Finds the magnitude of a tuple.
pub fn magnitude(tup: Tuple) -> (r: i64)
    requires
        mag_sq(tup) <= i64::MAX as int * i64::MAX as int,
    ensures
        r as int == magnitude_spec(tup),
        r >= 0,
{
    proof {
        lemma_squares_nonneg(tup);
    }
    let s0: i128 = tup.0 as i128 * tup.0 as i128;
    let s1: i128 = tup.1 as i128 * tup.1 as i128;
    let s2: i128 = tup.2 as i128 * tup.2 as i128;
    let s3: i128 = tup.3 as i128 * tup.3 as i128;
    let sum: u128 = s0 as u128 + s1 as u128 + s2 as u128 + s3 as u128;
    let r: u64 = isqrt(sum);
    proof {
        lemma_isqrt_spec_props(sum as int);
        let ri: int = r as int;
        assert(ri <= i64::MAX as int) by (nonlinear_arith)
            requires
                ri >= 0,
                ri * ri <= i64::MAX as int * i64::MAX as int,
        ;
    }
    r as i64
}

/// Normalizes a vector to unit length.  Points cannot be normalized, and
/// neither can a vector of zero magnitude.
pub fn normalize(tup: Tuple) -> (res: Result<Tuple, AlgebraError>)
    requires
        mag_sq(tup) <= i64::MAX as int * i64::MAX as int,
    ensures
        res is Err <==> (is_point_spec(tup) || magnitude_spec(tup) == 0),
        is_point_spec(tup) ==> res == Err::<Tuple, AlgebraError>(AlgebraError::InvalidOperand),
        !is_point_spec(tup) && magnitude_spec(tup) == 0 ==> res == Err::<Tuple, AlgebraError>(
            AlgebraError::DivisionByZero,
        ),
        res is Ok ==> res->Ok_0.0 == round_div(tup.0 * SCALE, magnitude_spec(tup))
            && res->Ok_0.1 == round_div(tup.1 * SCALE, magnitude_spec(tup))
            && res->Ok_0.2 == round_div(tup.2 * SCALE, magnitude_spec(tup))
            && res->Ok_0.3 == round_div(tup.3 * SCALE, magnitude_spec(tup)),
{
    if is_point(tup) {
        return Err(AlgebraError::InvalidOperand);
    }
    let m: i64 = magnitude(tup);
    if m == 0 {
        return Err(AlgebraError::DivisionByZero);
    }
    proof {
        lemma_squares_nonneg(tup);
        lemma_component_le_magnitude(tup);
        lemma_normalize_fits(tup.0 as int, m as int);
        lemma_normalize_fits(tup.1 as int, m as int);
        lemma_normalize_fits(tup.2 as int, m as int);
        lemma_normalize_fits(tup.3 as int, m as int);
    }
    Ok((fx_div(tup.0, m), fx_div(tup.1, m), fx_div(tup.2, m), fx_div(tup.3, m)))
}

/// A component no larger than the magnitude satisfies the fit condition
/// of the fixed-point division that normalization performs.
proof fn lemma_normalize_fits(c: int, m: int)
    requires
        m > 0,
        fxabs(c) <= m,
    ensures
        fxabs(c) * SCALE as int <= i64::MAX as int * fxabs(m),
{
    assert(fxabs(c) * SCALE as int <= m * SCALE as int) by {
        vstd::arithmetic::mul::lemma_mul_inequality(fxabs(c), m, SCALE as int);
    }
    assert(m * SCALE as int <= m * i64::MAX as int) by {
        vstd::arithmetic::mul::lemma_mul_left_inequality(m, SCALE as int, i64::MAX as int);
    }
    assert(m * i64::MAX as int == i64::MAX as int * m) by {
        vstd::arithmetic::mul::lemma_mul_is_commutative(m, i64::MAX as int);
    }
}

/// Finds the dot product of two vectors.  Points are refused.
pub fn dot_product(left: Tuple, right: Tuple) -> (res: Result<i64, AlgebraError>)
    requires
        !is_point_spec(left) && !is_point_spec(right) ==> fxabs(left.0 * right.0) + fxabs(
            left.1 * right.1,
        ) + fxabs(left.2 * right.2) + fxabs(left.3 * right.3) <= i64::MAX as int * SCALE as int,
    ensures
        res is Err <==> (is_point_spec(left) || is_point_spec(right)),
        res is Err ==> res->Err_0 == AlgebraError::InvalidOperand,
        res is Ok ==> res->Ok_0 as int == round_div(dot_wide(left, right), SCALE as int),
{
    if is_point(left) || is_point(right) {
        return Err(AlgebraError::InvalidOperand);
    }
    let p0: i128 = left.0 as i128 * right.0 as i128;
    let p1: i128 = left.1 as i128 * right.1 as i128;
    let p2: i128 = left.2 as i128 * right.2 as i128;
    let p3: i128 = left.3 as i128 * right.3 as i128;
    let sum: i128 = p0 + p1 + p2 + p3;
    Ok(fx_scale_down(sum))
}

/// Finds the cross product of two vectors.  Points are refused.
pub fn cross_product(left: Tuple, right: Tuple) -> (res: Result<Tuple, AlgebraError>)
    requires
        !is_point_spec(left) && !is_point_spec(right) ==> fxabs(cross_x(left, right))
            <= i64::MAX as int * SCALE as int && fxabs(cross_y(left, right)) <= i64::MAX as int
            * SCALE as int && fxabs(cross_z(left, right)) <= i64::MAX as int * SCALE as int,
    ensures
        res is Err <==> (is_point_spec(left) || is_point_spec(right)),
        res is Err ==> res->Err_0 == AlgebraError::InvalidOperand,
        res is Ok ==> res->Ok_0.0 == round_div(cross_x(left, right), SCALE as int)
            && res->Ok_0.1 == round_div(cross_y(left, right), SCALE as int)
            && res->Ok_0.2 == round_div(cross_z(left, right), SCALE as int)
            && res->Ok_0.3 == VECTOR_INDICATOR,
{
    if is_point(left) || is_point(right) {
        return Err(AlgebraError::InvalidOperand);
    }
    proof {
        lemma_i64_product_fits(left.0 as int, right.1 as int);
        lemma_i64_product_fits(left.0 as int, right.2 as int);
        lemma_i64_product_fits(left.1 as int, right.0 as int);
        lemma_i64_product_fits(left.1 as int, right.2 as int);
        lemma_i64_product_fits(left.2 as int, right.0 as int);
        lemma_i64_product_fits(left.2 as int, right.1 as int);
    }
    let x: i128 = left.1 as i128 * right.2 as i128 - left.2 as i128 * right.1 as i128;
    let y: i128 = left.2 as i128 * right.0 as i128 - left.0 as i128 * right.2 as i128;
    let z: i128 = left.0 as i128 * right.1 as i128 - left.1 as i128 * right.0 as i128;
    Ok((fx_scale_down(x), fx_scale_down(y), fx_scale_down(z), VECTOR_INDICATOR))
}

/// One component of a normalization, squared: `ui` rounds `ti * SCALE /
/// m`, so `(2 ui m)^2` stays within `4 SCALE m^2 + m^2` of `(2 ti
/// SCALE)^2`.
#[verifier::rlimit(100)]
proof fn lemma_norm_component_sq(ti: int, ui: int, m: int)
    by (nonlinear_arith)
    requires
        m > 0,
        -m <= ti,
        ti <= m,
        2 * (ui * m - ti * SCALE) <= m,
        -m <= 2 * (ui * m - ti * SCALE),
    ensures
        4 * (ui * ui) * (m * m) <= 4 * ((ti * ti) * (SCALE as int * SCALE as int)) + 4 * SCALE
            * (m * m) + m * m,
        4 * (ui * ui) * (m * m) >= 4 * ((ti * ti) * (SCALE as int * SCALE as int)) - 4 * SCALE
            * (m * m),
{
}

/// Normalizing scales a vector to unit length: once the vector is long
/// enough for the fixed-point grid to resolve its direction (magnitude
/// at least 0.0002), the magnitude of the normalized vector is 1.0
/// within the scalar tolerance.
#[verifier::rlimit(60)]
pub proof fn lemma_normalize_unit_magnitude(t: Tuple, u: Tuple)
    requires
        mag_sq(t) <= i64::MAX as int * i64::MAX as int,
        magnitude_spec(t) >= 200_000,
        u.0 as int == round_div(t.0 * SCALE, magnitude_spec(t)),
        u.1 as int == round_div(t.1 * SCALE, magnitude_spec(t)),
        u.2 as int == round_div(t.2 * SCALE, magnitude_spec(t)),
        u.3 as int == round_div(t.3 * SCALE, magnitude_spec(t)),
    ensures
        fxabs(magnitude_spec(u) - SCALE) < EPSILON,
{
    let m: int = magnitude_spec(t);
    let s: int = mag_sq(t);
    let su: int = mag_sq(u);
    let kk: int = SCALE as int * SCALE as int;
    lemma_squares_nonneg(t);
    lemma_squares_nonneg((u.0, u.1, u.2, u.3));
    crate::scalar::lemma_isqrt_spec_props(s);
    lemma_component_le_magnitude(t);
    crate::scalar::lemma_round_div_err(t.0 * SCALE, m);
    crate::scalar::lemma_round_div_err(t.1 * SCALE, m);
    crate::scalar::lemma_round_div_err(t.2 * SCALE, m);
    crate::scalar::lemma_round_div_err(t.3 * SCALE, m);
    lemma_norm_component_sq(t.0 as int, u.0 as int, m);
    lemma_norm_component_sq(t.1 as int, u.1 as int, m);
    lemma_norm_component_sq(t.2 as int, u.2 as int, m);
    lemma_norm_component_sq(t.3 as int, u.3 as int, m);
    assert(4 * su * (m * m) == 4 * (u.0 as int * u.0 as int) * (m * m) + 4 * (u.1 as int
        * u.1 as int) * (m * m) + 4 * (u.2 as int * u.2 as int) * (m * m) + 4 * (u.3 as int
        * u.3 as int) * (m * m)) by (nonlinear_arith)
        requires
            su == u.0 as int * u.0 as int + u.1 as int * u.1 as int + u.2 as int * u.2 as int
                + u.3 as int * u.3 as int,
    ;
    assert(4 * s * kk == 4 * ((t.0 as int * t.0 as int) * kk) + 4 * ((t.1 as int * t.1 as int)
        * kk) + 4 * ((t.2 as int * t.2 as int) * kk) + 4 * ((t.3 as int * t.3 as int) * kk))
        by (nonlinear_arith)
        requires
            s == t.0 as int * t.0 as int + t.1 as int * t.1 as int + t.2 as int * t.2 as int
                + t.3 as int * t.3 as int,
    ;
    // upper bound: 4 m^2 su <= 4 kk s + 16 SCALE m^2 + 4 m^2, and s <= m^2 + 2 m
    assert((m + 1) * (m + 1) == m * m + 2 * m + 1) by (nonlinear_arith);
    assert(4 * s * kk <= 4 * (m * m) * kk + 8 * m * kk) by (nonlinear_arith)
        requires
            s <= m * m + 2 * m,
            kk > 0,
    ;
    // pieces against the target 4 m^2 (SCALE + EPSILON)^2
    assert(2 * SCALE <= m * EPSILON);
    assert(8 * m * kk <= 4 * (m * m) * (SCALE as int * EPSILON as int)) by (nonlinear_arith)
        requires
            2 * SCALE <= m * EPSILON,
            m > 0,
            kk == SCALE as int * SCALE as int,
            SCALE > 0,
            EPSILON > 0,
    ;
    assert((16 * SCALE + 4) * (m * m) <= (4 * (SCALE as int * EPSILON as int)) * (m * m)) by {
        vstd::arithmetic::mul::lemma_mul_inequality(
            16 * SCALE as int + 4,
            4 * (SCALE as int * EPSILON as int),
            m * m,
        );
        vstd::arithmetic::mul::lemma_mul_is_commutative(16 * SCALE as int + 4, m * m);
        vstd::arithmetic::mul::lemma_mul_is_commutative(
            4 * (SCALE as int * EPSILON as int),
            m * m,
        );
        vstd::arithmetic::mul::lemma_mul_nonnegative(m, m);
    }
    assert(4 * su * (m * m) < 4 * ((SCALE as int + EPSILON as int) * (SCALE as int
        + EPSILON as int)) * (m * m)) by (nonlinear_arith)
        requires
            4 * su * (m * m) <= 4 * (m * m) * kk + 8 * m * kk + 16 * SCALE * (m * m) + 4 * (m
                * m),
            8 * m * kk <= 4 * (m * m) * (SCALE as int * EPSILON as int),
            (16 * SCALE + 4) * (m * m) <= (4 * (SCALE as int * EPSILON as int)) * (m * m),
            kk == SCALE as int * SCALE as int,
            m > 0,
    ;
    assert(su < (SCALE as int + EPSILON as int) * (SCALE as int + EPSILON as int))
        by (nonlinear_arith)
        requires
            4 * su * (m * m) < 4 * ((SCALE as int + EPSILON as int) * (SCALE as int
                + EPSILON as int)) * (m * m),
            m > 0,
    ;
    // lower bound: su >= kk - 4 SCALE
    assert(4 * s * kk >= 4 * (m * m) * kk) by (nonlinear_arith)
        requires
            s >= m * m,
            kk > 0,
    ;
    assert(su >= kk - 4 * SCALE) by (nonlinear_arith)
        requires
            4 * su * (m * m) >= 4 * (m * m) * kk - 16 * SCALE * (m * m),
            m > 0,
            kk == SCALE as int * SCALE as int,
    ;
    // read the bracket off through the integer square root
    crate::scalar::lemma_isqrt_spec_props(su);
    let bigm: int = isqrt_spec(su);
    assert(bigm < SCALE + EPSILON) by (nonlinear_arith)
        requires
            bigm >= 0,
            bigm * bigm <= su,
            su < (SCALE as int + EPSILON as int) * (SCALE as int + EPSILON as int),
    ;
    assert(bigm >= SCALE - 3) by (nonlinear_arith)
        requires
            bigm >= 0,
            su < (bigm + 1) * (bigm + 1),
            su >= SCALE as int * SCALE as int - 4 * SCALE,
    ;
}

/// Adding a vector to a point moves the point: the componentwise sum is
/// again a point, with the discriminator exactly preserved.
pub proof fn lemma_point_plus_vector_is_point(p: Tuple, v: Tuple, s: Tuple)
    requires
        p.3 == POINT_INDICATOR,
        v.3 == VECTOR_INDICATOR,
        s.3 == p.3 + v.3,
    ensures
        !(is_point_spec(p) && is_point_spec(v)),
        s.3 == POINT_INDICATOR,
        is_point_spec(s),
{
}

/// Subtracting a point from a point yields their geometric difference: a
/// vector, with the discriminator exactly zero.
pub proof fn lemma_point_minus_point_is_vector(p: Tuple, q: Tuple, d: Tuple)
    requires
        p.3 == POINT_INDICATOR,
        q.3 == POINT_INDICATOR,
        d.3 == p.3 - q.3,
    ensures
        !(is_vector_spec(p) && is_point_spec(q)),
        d.3 == VECTOR_INDICATOR,
        is_vector_spec(d),
{
}

} // verus!
