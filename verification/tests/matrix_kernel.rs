use ray_tracer::error::AlgebraError;
use ray_tracer::matrix::{
    m4x1_into_tup, mul_4x4_and_4x1, translation, tup_into_4x1, Matrix2x2, Matrix3x3, Matrix4x1,
    Matrix4x4,
};
use ray_tracer::scalar::{approx_eq, EPSILON, SCALE};
use ray_tracer::tuple::{point, vector};

/// Converts a real value to its fixed-point representation.
fn fx(v: f64) -> i64 {
    (v * SCALE as f64).round() as i64
}

fn mat4(vals: [f64; 16]) -> Matrix4x4 {
    Matrix4x4::new(
        fx(vals[0]),
        fx(vals[1]),
        fx(vals[2]),
        fx(vals[3]),
        fx(vals[4]),
        fx(vals[5]),
        fx(vals[6]),
        fx(vals[7]),
        fx(vals[8]),
        fx(vals[9]),
        fx(vals[10]),
        fx(vals[11]),
        fx(vals[12]),
        fx(vals[13]),
        fx(vals[14]),
        fx(vals[15]),
    )
}

fn mat3(vals: [f64; 9]) -> Matrix3x3 {
    Matrix3x3::new(
        fx(vals[0]),
        fx(vals[1]),
        fx(vals[2]),
        fx(vals[3]),
        fx(vals[4]),
        fx(vals[5]),
        fx(vals[6]),
        fx(vals[7]),
        fx(vals[8]),
    )
}

fn mat2(vals: [f64; 4]) -> Matrix2x2 {
    Matrix2x2::new(fx(vals[0]), fx(vals[1]), fx(vals[2]), fx(vals[3]))
}

#[test]
fn matrix_constructs_properly_4x4() {
    let m = mat4([
        1.0, 2.0, 3.0, 4.0, 5.5, 6.5, 7.5, 8.5, 9.0, 10.0, 11.0, 12.0, 13.5, 14.5, 15.5, 16.5,
    ]);

    assert!(approx_eq(m.entry(0, 0), fx(1.0)));
    assert!(approx_eq(m.entry(0, 3), fx(4.0)));
    assert!(approx_eq(m.entry(1, 0), fx(5.5)));
    assert!(approx_eq(m.entry(1, 2), fx(7.5)));
    assert!(approx_eq(m.entry(2, 2), fx(11.0)));
    assert!(approx_eq(m.entry(3, 0), fx(13.5)));
    assert!(approx_eq(m.entry(3, 2), fx(15.5)));
}

#[test]
fn matrix_constructs_properly_3x3() {
    let m = mat3([-3.0, 5.0, 0.0, 1.0, -2.0, -7.0, 0.0, 1.0, 1.0]);

    assert!(approx_eq(m.entry(0, 0), fx(-3.0)));
    assert!(approx_eq(m.entry(1, 1), fx(-2.0)));
    assert!(approx_eq(m.entry(2, 2), fx(1.0)));
    assert!(approx_eq(m.entry(2, 1), fx(1.0)));
}

#[test]
fn matrix_constructs_properly_2x2() {
    let m = mat2([-3.0, 5.0, 1.0, -2.0]);

    assert!(approx_eq(m.entry(0, 0), fx(-3.0)));
    assert!(approx_eq(m.entry(0, 1), fx(5.0)));
    assert!(approx_eq(m.entry(1, 0), fx(1.0)));
    assert!(approx_eq(m.entry(1, 1), fx(-2.0)));
}

#[test]
fn matrices_are_equal() {
    let m1 = mat2([-3.0, 5.0, 1.0, -2.0]);
    let m2 = mat2([-3.0, 5.0, 1.0, -2.0]);
    assert!(m1.approx_eq_mat(&m2, 0))
}

#[test]
fn matrices_are_not_equal() {
    let m1 = mat2([-2.95, 5.0, 1.0, -2.0]);
    let m2 = mat2([-3.0, 5.0, 1.0, -2.0]);
    assert!(!m1.approx_eq_mat(&m2, 0))
}

#[test]
fn matrix_multiplication_4x4() {
    let m1 = mat4([
        1.0, 2.0, 3.0, 4.0, 5.0, 6.0, 7.0, 8.0, 9.0, 8.0, 7.0, 6.0, 5.0, 4.0, 3.0, 2.0,
    ]);
    let m2 = mat4([
        -2.0, 1.0, 2.0, 3.0, 3.0, 2.0, 1.0, -1.0, 4.0, 3.0, 6.0, 5.0, 1.0, 2.0, 7.0, 8.0,
    ]);

    let m3 = m1.mul(&m2);

    let expected = mat4([
        20.0, 22.0, 50.0, 48.0, 44.0, 54.0, 114.0, 108.0, 40.0, 58.0, 110.0, 102.0, 16.0, 26.0,
        46.0, 42.0,
    ]);

    assert!(expected.approx_eq_mat(&m3, 0));
}

#[test]
fn matrix_multiplication_4x4_and_4x1() {
    let m1 = mat4([
        1.0, 2.0, 3.0, 4.0, 2.0, 4.0, 4.0, 2.0, 8.0, 6.0, 4.0, 1.0, 0.0, 0.0, 0.0, 1.0,
    ]);
    let m2 = Matrix4x1::new(fx(1.0), fx(2.0), fx(3.0), fx(1.0));
    let m3 = mul_4x4_and_4x1(&m1, &m2);
    assert!(approx_eq(m3.entry(0), fx(18.0)));
    assert!(approx_eq(m3.entry(1), fx(24.0)));
    assert!(approx_eq(m3.entry(2), fx(33.0)));
    assert!(approx_eq(m3.entry(3), fx(1.0)));
}

#[test]
fn matrix_identity() {
    let m1 = mat4([
        1.0, 2.0, 3.0, 4.0, 2.0, 4.0, 4.0, 2.0, 8.0, 6.0, 4.0, 1.0, 0.0, 0.0, 0.0, 1.0,
    ]);
    let m2 = m1.mul(&Matrix4x4::identity());
    assert!(m1.approx_eq_mat(&m2, 0));
}

#[test]
fn matrix_transpose() {
    let m1 = mat4([
        1.0, 2.0, 3.0, 4.0, 2.0, 4.0, 4.0, 2.0, 8.0, 6.0, 4.0, 1.0, 0.0, 0.0, 0.0, 1.0,
    ]);
    let m2 = m1.transpose();
    let expected = mat4([
        1.0, 2.0, 8.0, 0.0, 2.0, 4.0, 6.0, 0.0, 3.0, 4.0, 4.0, 0.0, 4.0, 2.0, 1.0, 1.0,
    ]);
    assert!(expected.approx_eq_mat(&m2, 0));
}

#[test]
fn matrix_determinant() {
    let m1 = mat2([1.0, 5.0, -3.0, 2.0]);
    let det = m1.determinant();
    assert!(approx_eq(fx(17.0), det));
}

#[test]
fn matrix_resize_3x3() {
    let m1 = mat3([1.0, 2.0, 3.0, 4.0, 5.0, 6.0, 7.0, 8.0, 9.0]);
    let m2 = m1.submatrix(0, 0);
    let m3 = mat2([5.0, 6.0, 8.0, 9.0]);
    assert!(m3.approx_eq_mat(&m2, 0));
}

#[test]
fn matrix_resize_4x4() {
    let m1 = mat4([
        1.0, 2.0, 3.0, 4.0, 5.0, 6.0, 7.0, 8.0, 9.0, 10.0, 11.0, 12.0, 13.0, 14.0, 15.0, 16.0,
    ]);
    let m2 = m1.submatrix(0, 0);
    let m3 = mat3([6.0, 7.0, 8.0, 10.0, 11.0, 12.0, 14.0, 15.0, 16.0]);
    assert!(m3.approx_eq_mat(&m2, 0));
}

#[test]
fn minor_4x4() {
    let m1 = mat4([
        1.0, 2.0, 3.0, 4.0, 5.0, 6.0, 7.0, 8.0, 9.0, 10.0, 11.0, 12.0, 13.0, 14.0, 15.0, 16.0,
    ]);
    let m2 = m1.submatrix(0, 0);
    assert!(approx_eq(m2.determinant(), m1.minor(0, 0)));
}

#[test]
fn determinant_4x4() {
    let m1 = mat4([
        -2.0, -8.0, 3.0, 5.0, -3.0, 1.0, 7.0, 3.0, 1.0, 2.0, -9.0, 6.0, -6.0, 7.0, 7.0, -9.0,
    ]);
    assert!(approx_eq(fx(-4071.0), m1.determinant()));
}

#[test]
fn determinant_of_4x4_is_zero() {
    let m1 = mat4([
        -4.0, 2.0, -2.0, -3.0, 9.0, 6.0, 2.0, 6.0, 0.0, -5.0, 1.0, -5.0, 0.0, 0.0, 0.0, 0.0,
    ]);
    assert!(approx_eq(fx(0.0), m1.determinant()));
    assert!(!m1.is_invertible());
}

#[test]
fn determinant_of_4x4_is_not_zero() {
    let m1 = mat4([
        6.0, 4.0, 4.0, 4.0, 5.0, 5.0, 7.0, 6.0, 4.0, -9.0, 3.0, -7.0, 9.0, 1.0, 7.0, -6.0,
    ]);
    let a = fx(-2120.0);
    let b = m1.determinant();
    assert!(approx_eq(a, b));
    assert!(m1.is_invertible());
}

#[test]
fn inverse_of_4x4() {
    let a = mat4([
        -5.0, 2.0, 6.0, -8.0, 1.0, -5.0, 1.0, 8.0, 7.0, 7.0, -6.0, -7.0, 1.0, -3.0, 7.0, 4.0,
    ]);

    let b = a.try_inverse();
    assert!(b.is_ok());
    let b = b.unwrap();
    assert!(approx_eq(b.entry(0, 0), fx(0.21805)));
    assert!(approx_eq(b.entry(1, 1), fx(-1.45677)));
    assert!(approx_eq(b.entry(2, 0), fx(-0.07895)));
    assert!(approx_eq(b.entry(0, 2), fx(0.24060)));
}

#[test]
fn inverse_of_4x4_example_two() {
}

#[test]
fn inverse_of_4x4_example_three() {
    let a = mat4([
        8.0, -5.0, 9.0, 2.0, 7.0, 5.0, 6.0, 1.0, -6.0, 0.0, 9.0, 6.0, -3.0, 0.0, -9.0, -4.0,
    ]);

    let b = a.try_inverse();
    assert!(b.is_ok());
    let b = b.unwrap();
    assert!(approx_eq(b.entry(0, 0), fx(-0.15385)));
    let x = b.entry(1, 1);
    assert!(approx_eq(x, fx(0.12308)));
    let x = b.entry(2, 0);
    assert!(approx_eq(x, fx(0.35897)));
    let x = b.entry(0, 2);
    assert!(approx_eq(x, fx(-0.28205)));
}

#[test]
fn product_inverse() {
    let a = mat4([
        3.0, -9.0, 7.0, 3.0, 3.0, -8.0, 2.0, -9.0, -4.0, 4.0, 4.0, 1.0, -6.0, 5.0, -1.0, 1.0,
    ]);

    let b = mat4([
        8.0, 2.0, 2.0, 2.0, 3.0, -1.0, 7.0, 0.0, 7.0, 0.0, 5.0, 4.0, 6.0, -2.0, 0.0, 5.0,
    ]);

    let c = a.mul(&b);

    let d = c.mul(&b.try_inverse().unwrap());
    let rel = 0.000001;
    assert!(a.approx_eq_mat(&d, fx(rel)));
}

#[test]
fn identity_inverse() {
    let a = Matrix4x4::identity();
    let b = a.try_inverse().unwrap();
    assert!(a.approx_eq_mat(&b, 0));
}

#[test]
fn translation_one() {
    let m1 = translation(fx(5.0), fx(-3.0), fx(2.0));
    let p = point(fx(-3.0), fx(4.0), fx(5.0));
    let m4x1 = tup_into_4x1(p);
    let multiplied = mul_4x4_and_4x1(&m1, &m4x1);
    let tup = m4x1_into_tup(&multiplied);
    assert_eq!(tup, (fx(2.0), fx(1.0), fx(7.0), fx(1.0)))
}

#[test]
fn translation_two() {
    let m1 = translation(fx(5.0), fx(-3.0), fx(2.0));
    let m2 = m1.try_inverse().unwrap();
    let p = point(fx(-3.0), fx(4.0), fx(5.0));
    let m4x1 = tup_into_4x1(p);
    let multiplied = mul_4x4_and_4x1(&m2, &m4x1);
    let tup = m4x1_into_tup(&multiplied);
    assert_eq!(tup, (fx(-8.0), fx(7.0), fx(3.0), fx(1.0)))
}

#[test]
fn translation_leaves_vectors_unchanged() {
    // the translation column multiplies the zero discriminator, so any
    // translation fixes any vector exactly
    let m1 = translation(fx(5.0), fx(-3.0), fx(2.0));
    let v = vector(fx(-3.0), fx(4.0), fx(5.0));
    let out = m4x1_into_tup(&mul_4x4_and_4x1(&m1, &tup_into_4x1(v)));
    assert_eq!(out, v);
}

#[test]
fn inverse_round_trip_within_tolerance() {
    // M * M.inverse() stays within 1e-6 of the identity
    let a = mat4([
        -5.0, 2.0, 6.0, -8.0, 1.0, -5.0, 1.0, 8.0, 7.0, 7.0, -6.0, -7.0, 1.0, -3.0, 7.0, 4.0,
    ]);
    let inv = a.try_inverse().unwrap();
    let prod = a.mul(&inv);
    assert!(prod.approx_eq_mat(&Matrix4x4::identity(), fx(0.000001)));
}

#[test]
fn singular_matrix_inversion_fails() {
    let m1 = mat4([
        -4.0, 2.0, -2.0, -3.0, 9.0, 6.0, 2.0, 6.0, 0.0, -5.0, 1.0, -5.0, 0.0, 0.0, 0.0, 0.0,
    ]);
    assert!(matches!(m1.try_inverse(), Err(AlgebraError::NotInvertible)));
}

#[test]
fn near_singular_determinant_counts_as_zero() {
    // a determinant smaller than EPSILON refuses inversion too
    let m1 = Matrix4x4::new(
        EPSILON / 2,
        0,
        0,
        0,
        0,
        SCALE,
        0,
        0,
        0,
        0,
        SCALE,
        0,
        0,
        0,
        0,
        SCALE,
    );
    assert!(!m1.is_invertible());
    assert!(matches!(m1.try_inverse(), Err(AlgebraError::NotInvertible)));
}
