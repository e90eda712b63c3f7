use ray_tracer::arch::{fly, step_projectile, Arch, FlightOutcome, MAX_SIM_STEPS};
use ray_tracer::canvas::{
    convert_to_bottom_up_coordinates, neighbors, point_is_in_rectangle, Canvas,
};
use ray_tracer::color::color_into_pixel;
use ray_tracer::scalar::SCALE;
use ray_tracer::tuple::{point, vector};

/// Converts a real value to its fixed-point representation.
fn fx(v: f64) -> i64 {
    (v * SCALE as f64).round() as i64
}

#[test]
fn rectangle_membership() {
    assert!(point_is_in_rectangle(0, 0, 10, 10));
    assert!(point_is_in_rectangle(9, 9, 10, 10));
    assert!(!point_is_in_rectangle(10, 9, 10, 10));
    assert!(!point_is_in_rectangle(9, 10, 10, 10));
    assert!(!point_is_in_rectangle(-1, 5, 10, 10));
    assert!(!point_is_in_rectangle(5, -1, 10, 10));
}

#[test]
fn coordinate_conversion_flips_y() {
    assert_eq!(convert_to_bottom_up_coordinates(3, 4, 10, 10), (3, 6));
    assert_eq!(convert_to_bottom_up_coordinates(0, 0, 10, 10), (0, 10));
}

#[test]
fn neighbors_center_of_canvas() {
    // radius 2 at (5, 5) on a 10x10 canvas: the full open square of
    // offsets strictly within 2, nine cells, all in bounds
    let n = neighbors(5, 5, 10, 10, 2);
    assert_eq!(n.len(), 9);
    for &(x, y) in &n {
        assert!(point_is_in_rectangle(x, y, 10, 10));
        assert!(4 <= x && x <= 6);
        assert!(4 <= y && y <= 6);
    }
}

#[test]
fn neighbors_clip_at_the_edge() {
    // at the corner only the in-bounds part of the square remains
    let n = neighbors(0, 0, 10, 10, 2);
    assert_eq!(n, vec![(0, 0), (0, 1), (1, 0), (1, 1)]);
}

#[test]
fn neighbors_are_deterministic() {
    let a = neighbors(5, 5, 10, 10, 2);
    let b = neighbors(5, 5, 10, 10, 2);
    assert_eq!(a, b);
}

#[test]
fn neighbors_row_major_order() {
    let n = neighbors(5, 5, 10, 10, 2);
    assert_eq!(
        n,
        vec![(4, 4), (4, 5), (4, 6), (5, 4), (5, 5), (5, 6), (6, 4), (6, 5), (6, 6)]
    );
}

#[test]
fn neighbors_radius_one_is_only_the_center() {
    // the open square of half-width 1 holds the zero offset alone
    assert_eq!(neighbors(5, 5, 10, 10, 1), vec![(5, 5)]);
}

#[test]
fn neighbors_with_zero_radius_is_empty() {
    assert_eq!(neighbors(5, 5, 10, 10, 0), vec![]);
}

#[test]
fn canvas_starts_black_and_takes_writes() {
    let mut c = Canvas::new(4, 3);
    assert_eq!(c.dimensions(), (4, 3));
    assert_eq!(c.get_pixel(2, 1), [0, 0, 0]);
    c.set_pixel(2, 1, [7, 8, 9]);
    assert_eq!(c.get_pixel(2, 1), [7, 8, 9]);
    assert_eq!(c.get_pixel(1, 2), [0, 0, 0]);
}

#[test]
fn canvas_out_of_bounds_write_is_a_no_op() {
    let mut c = Canvas::new(4, 3);
    c.set_pixel(-1, 0, [7, 8, 9]);
    c.set_pixel(4, 0, [7, 8, 9]);
    c.set_pixel(0, 3, [7, 8, 9]);
    for x in 0..4 {
        for y in 0..3 {
            assert_eq!(c.get_pixel(x, y), [0, 0, 0]);
        }
    }
}

#[test]
fn zero_area_canvas_is_permitted() {
    let c = Canvas::new(0, 0);
    assert_eq!(c.dimensions(), (0, 0));
    assert!(!c.in_bounds(0, 0));
}

#[test]
fn projectile_step_is_drag_then_carry() {
    let p = point(fx(1.0), fx(2.0), 0);
    let v = vector(fx(3.0), fx(4.0), 0);
    let d = vector(fx(-1.0), fx(-2.0), 0);
    let (p2, v2) = step_projectile(p, v, d);
    assert_eq!(v2, vector(fx(2.0), fx(2.0), 0));
    assert_eq!(p2, point(fx(3.0), fx(4.0), 0));
}

#[test]
fn no_drag_flight_is_a_straight_line() {
    // direction (1, 1), magnitude 1, no drag: each step displaces by the
    // same unit vector, a straight diagonal pixel path
    let start = point(fx(1.0), fx(1.0), 0);
    let half_sqrt2 = fx(1.0 / (2.0 as f64).sqrt());
    let v = vector(half_sqrt2, half_sqrt2, 0);
    let drag = vector(0, 0, 0);
    let fr = fly(start, v, drag, 1000, 1000, 100);
    assert_eq!(fr.outcome, FlightOutcome::Flying);
    assert_eq!(fr.steps, 100);
    // the k-th position is exactly k velocities from the start
    assert_eq!(fr.position.0, fx(1.0) + 100 * half_sqrt2);
    assert_eq!(fr.position.1, fx(1.0) + 100 * half_sqrt2);
    assert_eq!(fr.velocity, v);
}

#[test]
fn downward_drag_lands_the_projectile() {
    // a downward drag curves the path until y drops below zero
    let start = point(fx(10.0), fx(10.0), 0);
    let v = vector(fx(4.0), fx(13.0), 0);
    let drag = vector(fx(-0.01), fx(-0.1), 0);
    let fr = fly(start, v, drag, 2000, 2000, MAX_SIM_STEPS);
    assert_eq!(fr.outcome, FlightOutcome::Landed);
    assert!(fr.position.1 < 0);
    assert!(fr.steps < MAX_SIM_STEPS);
}

#[test]
fn narrow_canvas_escapes_off_canvas() {
    // the same launch on a tiny canvas exits the frame before landing
    let start = point(fx(10.0), fx(10.0), 0);
    let v = vector(fx(4.0), fx(13.0), 0);
    let drag = vector(fx(-0.01), fx(-0.1), 0);
    let fr = fly(start, v, drag, 20, 20, MAX_SIM_STEPS);
    assert_eq!(fr.outcome, FlightOutcome::OffCanvas);
    assert!(fr.position.1 >= 0);
}

#[test]
fn arch_paints_the_launch_cell() {
    let (canvas, fr) = Arch::make(2000, 2000, fx(5.0), fx(15.0), fx(14.5)).unwrap();
    assert_eq!(canvas.dimensions(), (2000, 2000));
    assert_eq!(fr.outcome, FlightOutcome::Landed);
    // the start point (10, 10) projects to raster (10, 1990) and is
    // painted with the fixed trajectory color
    let pix = color_into_pixel((fx(0.1), fx(0.8), fx(0.2)));
    assert_eq!(canvas.get_pixel(10, 1990), pix);
    assert_eq!(pix, [26, 204, 51]);
    // the brush reaches one cell around the path; a far corner of the
    // canvas is untouched black
    assert_eq!(canvas.get_pixel(1999, 0), [0, 0, 0]);
}

#[test]
fn arch_with_zero_direction_is_rejected() {
    assert!(Arch::make(100, 100, 0, 0, fx(1.0)).is_err());
}
