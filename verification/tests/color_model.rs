use ray_tracer::color::{
    add_colors, color, color_into_pixel, multiply_by_color, multiply_by_scalar, subtract_colors,
};
use ray_tracer::scalar::{approx_eq, SCALE};

/// Converts a real value to its fixed-point representation.
fn fx(v: f64) -> i64 {
    (v * SCALE as f64).round() as i64
}

#[test]
fn make_color() {
    let (r, g, b) = (-0.5, 0.4, 1.7);
    let c = color(fx(r), fx(g), fx(b));
    assert!(approx_eq(fx(r), c.0));
    assert!(approx_eq(fx(g), c.1));
    assert!(approx_eq(fx(b), c.2));
}

#[test]
fn color_make_color() {
    let (r, g, b) = (-0.5, 0.4, 1.7);
    let c = color(fx(r), fx(g), fx(b));
    assert!(approx_eq(fx(r), c.0));
    assert!(approx_eq(fx(g), c.1));
    assert!(approx_eq(fx(b), c.2));
}

#[test]
fn add_two_colors() {
    let (r, g, b) = (-0.5, 0.4, 1.7);
    let c1 = color(fx(r), fx(g), fx(b));

    let (r, g, b) = (-1.0, 0.6, 0.3);
    let c2 = color(fx(r), fx(g), fx(b));

    let c3 = add_colors(c1, c2);
    assert!(approx_eq(fx(-1.5), c3.0));
    assert!(approx_eq(fx(1.0), c3.1));
    assert!(approx_eq(fx(2.0), c3.2));
}

#[test]
fn sub_two_colors() {
    let (r, g, b) = (-0.5, 0.4, 1.7);
    let c1 = color(fx(r), fx(g), fx(b));

    let (r, g, b) = (-1.0, 0.6, 0.3);
    let c2 = color(fx(r), fx(g), fx(b));

    let c3 = subtract_colors(c1, c2);
    assert!(approx_eq(fx(0.5), c3.0));
    assert!(approx_eq(fx(-0.2), c3.1));
    assert!(approx_eq(fx(1.4), c3.2));
}

#[test]
fn multiply_color_by_scalar() {
    let (r, g, b) = (-0.5, 0.4, 1.7);
    let c1 = color(fx(r), fx(g), fx(b));
    let scalar = 2.0;

    let c3 = multiply_by_scalar(c1, fx(scalar));
    assert!(approx_eq(fx(-1.0), c3.0));
    assert!(approx_eq(fx(0.8), c3.1));
    assert!(approx_eq(fx(3.4), c3.2));
}

#[test]
fn multiply_color_by_color() {
    let (r, g, b) = (-0.5, 0.4, 1.7);
    let c1 = color(fx(r), fx(g), fx(b));

    let (r, g, b) = (1.0, 0.01, 2.0);
    let c2 = color(fx(r), fx(g), fx(b));

    let c3 = multiply_by_color(c1, c2);
    assert!(approx_eq(fx(-0.5), c3.0));
    assert!(approx_eq(fx(0.004), c3.1));
    assert!(approx_eq(fx(3.4), c3.2));
}

#[test]
fn test_color_into_pixel_one() {
    let (r, g, b) = (0.0, 0.0, 0.0);
    let c = color(fx(r), fx(g), fx(b));
    let p = color_into_pixel(c);

    assert_eq!(*p.get(0).unwrap(), 0);
    assert_eq!(*p.get(1).unwrap(), 0);
    assert_eq!(*p.get(2).unwrap(), 0);
}

#[test]
fn test_color_into_pixel_two() {
    let (r, g, b) = (0.5452, 0.2, 0.1);
    let c = color(fx(r), fx(g), fx(b));
    let p = color_into_pixel(c);

    assert_eq!(*p.get(0).unwrap(), 139);
    assert_eq!(*p.get(1).unwrap(), 51);
    assert_eq!(*p.get(2).unwrap(), 26);
}

#[test]
fn test_color_into_rgb_one() {
    let (r, g, b) = (0.0, 0.0, 0.0);
    let c = color(fx(r), fx(g), fx(b));
    let p = image::Rgb(color_into_pixel(c));

    assert_eq!(*p.0.get(0).unwrap(), 0);
    assert_eq!(*p.0.get(1).unwrap(), 0);
    assert_eq!(*p.0.get(2).unwrap(), 0);
}

#[test]
fn test_color_into_rgb_two() {
    let (r, g, b) = (0.5452, 0.2, 0.1);
    let c = color(fx(r), fx(g), fx(b));
    let p = image::Rgb(color_into_pixel(c));

    assert_eq!(*p.0.get(0).unwrap(), 139);
    assert_eq!(*p.0.get(1).unwrap(), 51);
    assert_eq!(*p.0.get(2).unwrap(), 26);
}

#[test]
fn quantize_saturates_high_channels() {
    // any channel at or above 1.0 quantizes to 255, however large
    let p = color_into_pixel(color(fx(1.0), fx(3.5), fx(1000.0)));
    assert_eq!(p, [255, 255, 255]);
}

#[test]
fn quantize_clamps_low_channels() {
    // any channel at or below 0.0 quantizes to 0, however negative
    let p = color_into_pixel(color(0, fx(-0.25), fx(-1000.0)));
    assert_eq!(p, [0, 0, 0]);
}

#[test]
fn quantize_rounds_to_nearest() {
    // 0.1 of 255 is 25.5, which rounds half away from zero to 26
    let p = color_into_pixel(color(fx(0.1), fx(0.8), fx(0.2)));
    assert_eq!(p, [26, 204, 51]);
}
