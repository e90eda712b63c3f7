use ray_tracer::error::AlgebraError;
use ray_tracer::scalar::{approx_eq, SCALE};
use ray_tracer::tuple::{
    add_tup, cross_product, div_tup, dot_product, eq_tup, is_point, is_vector, magnitude, mul_tup,
    neg_tup, normalize, point, sub_tup, vector, POINT_INDICATOR, VECTOR_INDICATOR,
};

/// Converts a real value to its fixed-point representation.
fn fx(v: f64) -> i64 {
    (v * SCALE as f64).round() as i64
}

#[test]
fn point_is_point() {
    let (x, y, z) = (1.0, 2.0, 3.0);

    let pt = point(fx(x), fx(y), fx(z));

    assert!(is_point(pt))
}

#[test]
fn point_is_not_vector() {
    let (x, y, z) = (1.0, 2.0, 3.0);

    let pt = point(fx(x), fx(y), fx(z));

    assert!(!is_vector(pt))
}

#[test]
fn vector_is_vector() {
    let (x, y, z) = (1.0, 2.0, 3.0);

    let vec = vector(fx(x), fx(y), fx(z));

    assert!(is_vector(vec))
}

#[test]
fn vector_is_not_point() {
    let (x, y, z) = (1.0, 2.0, 3.0);

    let vec = vector(fx(x), fx(y), fx(z));

    assert!(!is_point(vec))
}

#[test]
fn point_is_not_equal_to_vector() {
    let (x, y, z) = (1.0, 2.0, 3.0);

    let pt = point(fx(x), fx(y), fx(z));
    let vec = vector(fx(x), fx(y), fx(z));

    assert!(!eq_tup(pt, vec))
}

#[test]
fn two_points_match() {
    let (x, y, z) = (1.0, 2.0, 3.0);

    let pt1 = point(fx(x), fx(y), fx(z));
    let pt2 = point(fx(x), fx(y), fx(z));

    assert!(eq_tup(pt1, pt2))
}

#[test]
fn two_vectors_match() {
    let (x, y, z) = (1.0, 2.0, 3.0);

    let v1 = vector(fx(x), fx(y), fx(z));
    let v2 = vector(fx(x), fx(y), fx(z));

    assert!(eq_tup(v1, v2))
}

#[test]
fn vector_values() {
    let (x, y, z) = (1.0, 2.0, 3.0);

    let vec = vector(fx(x), fx(y), fx(z));

    assert_eq!(fx(x), vec.0);
    assert_eq!(fx(y), vec.1);
    assert_eq!(fx(z), vec.2);
    assert_eq!(VECTOR_INDICATOR, vec.3);
}

#[test]
fn point_values() {
    let (x, y, z) = (1.0, 2.0, 3.0);

    let pt = point(fx(x), fx(y), fx(z));

    assert_eq!(fx(x), pt.0);
    assert_eq!(fx(y), pt.1);
    assert_eq!(fx(z), pt.2);
    assert_eq!(POINT_INDICATOR, pt.3);
}

#[test]
fn f64_is_eq() {
    let (x, y) = (1.0, 1.000001);
    assert!(approx_eq(fx(x), fx(y)))
}

#[test]
fn f64_is_ne() {
    let (x, y) = (1.0, 1.1);
    assert!(!approx_eq(fx(x), fx(y)))
}

#[test]
fn add_vector_and_point() {
    let (x1, y1, z1) = (1.0, 2.0, 3.0);
    let (x2, y2, z2) = (10.0, 20.0, 30.0);

    let pt = point(fx(x1), fx(y1), fx(z1));
    let vec = vector(fx(x2), fx(y2), fx(z2));
    let new_pt = add_tup(pt, vec).unwrap();

    assert!(is_point(new_pt));
    assert!(approx_eq(fx(x1 + x2), new_pt.0));
    assert!(approx_eq(fx(y1 + y2), new_pt.1));
    assert!(approx_eq(fx(z1 + z2), new_pt.2));
    assert!(approx_eq(POINT_INDICATOR, new_pt.3));
}

#[test]
fn add_vector_and_vector() {
    let (x1, y1, z1) = (1.0, 2.0, 3.0);
    let (x2, y2, z2) = (10.0, 20.0, 30.0);

    let v1 = vector(fx(x1), fx(y1), fx(z1));
    let v2 = vector(fx(x2), fx(y2), fx(z2));
    let v3 = add_tup(v1, v2).unwrap();

    assert!(is_vector(v3));
    assert!(approx_eq(fx(x1 + x2), v3.0));
    assert!(approx_eq(fx(y1 + y2), v3.1));
    assert!(approx_eq(fx(z1 + z2), v3.2));
    assert!(approx_eq(VECTOR_INDICATOR, v3.3));
}

#[test]
fn add_point_and_point_should_panic() {
    let (x1, y1, z1) = (1.0, 2.0, 3.0);
    let (x2, y2, z2) = (10.0, 20.0, 30.0);

    let p1 = point(fx(x1), fx(y1), fx(z1));
    let p2 = point(fx(x2), fx(y2), fx(z2));
    assert!(add_tup(p1, p2).is_err());
}

#[test]
fn sub_point_and_point() {
    let (x1, y1, z1) = (1.0, 2.0, 3.0);
    let (x2, y2, z2) = (10.0, 20.0, 30.0);

    let p1 = point(fx(x1), fx(y1), fx(z1));
    let p2 = point(fx(x2), fx(y2), fx(z2));
    let vec = sub_tup(p1, p2).unwrap();

    assert!(is_vector(vec));
    assert!(approx_eq(fx(x1 - x2), vec.0));
    assert!(approx_eq(fx(y1 - y2), vec.1));
    assert!(approx_eq(fx(z1 - z2), vec.2));
    assert!(approx_eq(VECTOR_INDICATOR, vec.3));
}

#[test]
fn sub_point_and_vector() {
    let (x1, y1, z1) = (1.0, 2.0, 3.0);
    let (x2, y2, z2) = (10.0, 20.0, 30.0);

    let pt = point(fx(x1), fx(y1), fx(z1));
    let vec = vector(fx(x2), fx(y2), fx(z2));
    let new_pt = sub_tup(pt, vec).unwrap();

    assert!(is_point(new_pt));
    assert!(approx_eq(fx(x1 - x2), new_pt.0));
    assert!(approx_eq(fx(y1 - y2), new_pt.1));
    assert!(approx_eq(fx(z1 - z2), new_pt.2));
    assert!(approx_eq(POINT_INDICATOR, new_pt.3));
}

#[test]
fn sub_vector_and_point_should_panic() {
    let (x1, y1, z1) = (1.0, 2.0, 3.0);
    let (x2, y2, z2) = (10.0, 20.0, 30.0);

    let v = vector(fx(x1), fx(y1), fx(z1));
    let p = point(fx(x2), fx(y2), fx(z2));
    assert!(sub_tup(v, p).is_err());
}

#[test]
fn sub_vector_and_vector() {
    let (x1, y1, z1) = (1.0, 2.0, 3.0);
    let (x2, y2, z2) = (10.0, 20.0, 30.0);

    let v1 = vector(fx(x1), fx(y1), fx(z1));
    let v2 = vector(fx(x2), fx(y2), fx(z2));
    let v3 = sub_tup(v1, v2).unwrap();

    assert!(is_vector(v3));
    assert!(approx_eq(fx(x1 - x2), v3.0));
    assert!(approx_eq(fx(y1 - y2), v3.1));
    assert!(approx_eq(fx(z1 - z2), v3.2));
    assert!(approx_eq(VECTOR_INDICATOR, v3.3));
}

#[test]
fn negate_a_vector() {
    let (x1, y1, z1) = (1.0, 2.0, 3.0);

    let vec = neg_tup(vector(fx(x1), fx(y1), fx(z1))).unwrap();

    assert!(is_vector(vec));
    assert!(approx_eq(fx(-x1), vec.0));
    assert!(approx_eq(fx(-y1), vec.1));
    assert!(approx_eq(fx(-z1), vec.2));
    assert!(approx_eq(VECTOR_INDICATOR, vec.3));
}

#[test]
fn negate_a_point_should_panic() {
    let (x1, y1, z1) = (1.0, 2.0, 3.0);
    assert!(neg_tup(point(fx(x1), fx(y1), fx(z1))).is_err());
}

#[test]
fn multiply_a_vector() {
    let (x1, y1, z1) = (1.0, 2.0, 3.0);
    let scalar = 5.0;
    let vec = mul_tup(vector(fx(x1), fx(y1), fx(z1)), fx(scalar)).unwrap();

    assert!(is_vector(vec));
    assert!(approx_eq(fx(x1 * scalar), vec.0));
    assert!(approx_eq(fx(y1 * scalar), vec.1));
    assert!(approx_eq(fx(z1 * scalar), vec.2));
    assert!(approx_eq(VECTOR_INDICATOR, vec.3));
}

#[test]
fn multiply_a_point_should_panic() {
    let (x1, y1, z1) = (1.0, 2.0, 3.0);
    let scalar = 5.0;
    assert!(mul_tup(point(fx(x1), fx(y1), fx(z1)), fx(scalar)).is_err());
}

#[test]
fn divide_a_vector() {
    let (x1, y1, z1) = (1.0, 2.0, 3.0);
    let scalar = 5.0;
    let vec = div_tup(vector(fx(x1), fx(y1), fx(z1)), fx(scalar)).unwrap();

    assert!(is_vector(vec));
    assert!(approx_eq(fx(x1 / scalar), vec.0));
    assert!(approx_eq(fx(y1 / scalar), vec.1));
    assert!(approx_eq(fx(z1 / scalar), vec.2));
    assert!(approx_eq(VECTOR_INDICATOR, vec.3));
}

#[test]
fn divide_a_point_should_panic() {
    let (x1, y1, z1) = (1.0, 2.0, 3.0);
    let scalar = 5.0;
    assert!(div_tup(point(fx(x1), fx(y1), fx(z1)), fx(scalar)).is_err());
}

#[test]
fn vector_magnitude_one() {
    let (x1, y1, z1) = (1.0, 0.0, 0.0);
    let m = magnitude(vector(fx(x1), fx(y1), fx(z1)));
    assert!(approx_eq(m, fx(1.0)))
}

#[test]
fn vector_magnitude_two() {
    let (x1, y1, z1) = (0.0, 1.0, 0.0);
    let m = magnitude(vector(fx(x1), fx(y1), fx(z1)));
    assert!(approx_eq(m, fx(1.0)))
}

#[test]
fn vector_magnitude_three() {
    let (x1, y1, z1) = (0.0, 0.0, 1.0);
    let m = magnitude(vector(fx(x1), fx(y1), fx(z1)));
    assert!(approx_eq(m, fx(1.0)))
}

#[test]
fn vector_magnitude_four() {
    let (x1, y1, z1) = (1.0, 2.0, 3.0);
    let m = magnitude(vector(fx(x1), fx(y1), fx(z1)));
    assert!(approx_eq(m, fx((14.0 as f64).sqrt())))
}

#[test]
fn vector_magnitude_five() {
    let (x1, y1, z1) = (1.0, 2.0, 3.0);
    let m = magnitude(neg_tup(vector(fx(x1), fx(y1), fx(z1))).unwrap());
    assert!(approx_eq(m, fx((14.0 as f64).sqrt())))
}

#[test]
fn normalized_point_should_panic() {
    let (x1, y1, z1) = (1.0, 2.0, 3.0);
    assert!(normalize(point(fx(x1), fx(y1), fx(z1))).is_err());
}

#[test]
fn normalized_vector_one() {
    let (x1, y1, z1) = (1.0, 2.0, 3.0);
    let vec = normalize(vector(fx(x1), fx(y1), fx(z1))).unwrap();
    assert!(approx_eq(magnitude(vec), fx(1.0)))
}

#[test]
fn normalized_vector_two() {
    let (x1, y1, z1) = (100.223, -2.0, -3113.0);
    let vec = normalize(vector(fx(x1), fx(y1), fx(z1))).unwrap();
    assert!(approx_eq(magnitude(vec), fx(1.0)))
}

#[test]
fn normalized_vector_three() {
    let (x1, y1, z1) = (0.001, -0.002, -0.0003);
    let vec = normalize(vector(fx(x1), fx(y1), fx(z1))).unwrap();
    assert!(approx_eq(magnitude(vec), fx(1.0)))
}

#[test]
fn dot_product_with_point_should_panic() {
    let v1 = vector(fx(1.0), fx(2.0), fx(3.0));
    let v2 = point(fx(2.0), fx(3.0), fx(4.0));
    assert!(dot_product(v1, v2).is_err());
}

#[test]
fn dot_product_one() {
    let v1 = vector(fx(1.0), fx(2.0), fx(3.0));
    let v2 = vector(fx(2.0), fx(3.0), fx(4.0));
    let p = dot_product(v1, v2).unwrap();
    assert!(approx_eq(p, fx(20.0)))
}

#[test]
fn dot_product_two() {
    let v1 = vector(fx(5.0), fx(1.0), fx(3.0));
    let v2 = vector(fx(2.0), fx(3.0), fx(3.0));
    let p = dot_product(v1, v2).unwrap();
    assert!(approx_eq(p, fx(22.0)))
}

#[test]
fn dot_product_three() {
    let v1 = normalize(vector(fx(5.0), fx(1.0), fx(3.0))).unwrap();
    let v2 = normalize(v1).unwrap();
    let p = dot_product(v1, v2).unwrap();
    assert!(approx_eq(p, fx(1.0)))
}

#[test]
fn dot_product_four() {
    let v1 = normalize(vector(fx(5.0), fx(1.0), fx(3.0))).unwrap();
    let v2 = normalize(neg_tup(v1).unwrap()).unwrap();
    let p = dot_product(v1, v2).unwrap();
    assert!(approx_eq(p, fx(-1.0)))
}

#[test]
fn cross_product_with_point_should_panic() {
    let v1 = vector(fx(5.0), fx(1.0), fx(3.0));
    let p = point(fx(1.0), fx(2.0), fx(3.0));
    assert!(cross_product(v1, p).is_err());
}

#[test]
fn cross_product_one() {
    let v1 = vector(fx(1.0), fx(2.0), fx(3.0));
    let v2 = vector(fx(2.0), fx(3.0), fx(4.0));
    let v3 = cross_product(v1, v2).unwrap();
    assert!(is_vector(v3));
    assert!(approx_eq(fx(-1.0), v3.0));
    assert!(approx_eq(fx(2.0), v3.1));
    assert!(approx_eq(fx(-1.0), v3.2));
}

#[test]
fn cross_product_two() {
    let v1 = vector(fx(1.0), fx(2.0), fx(3.0));
    let v2 = vector(fx(2.0), fx(3.0), fx(4.0));
    let v3 = cross_product(v2, v1).unwrap();
    assert!(is_vector(v3));
    assert!(approx_eq(fx(1.0), v3.0));
    assert!(approx_eq(fx(-2.0), v3.1));
    assert!(approx_eq(fx(1.0), v3.2));
}

#[test]
fn divide_by_zero_is_rejected() {
    let v = vector(fx(1.0), fx(2.0), fx(3.0));
    assert!(matches!(div_tup(v, 0), Err(AlgebraError::DivisionByZero)));
}

#[test]
fn normalize_zero_vector_is_rejected() {
    let v = vector(0, 0, 0);
    assert!(matches!(normalize(v), Err(AlgebraError::DivisionByZero)));
}

#[test]
fn approx_eq_tolerance_boundary() {
    // differences strictly below one EPSILON count as equal
    assert!(approx_eq(0, 9_999));
    assert!(!approx_eq(0, 10_000));
    assert!(approx_eq(10_000, 5_000));
}
