//! Trajectory simulator: integrates a projectile under a constant drag
//! vector and rasterizes its path onto a canvas.
//!
//! The projectile is `Flying` while its position has `y >= 0` and its
//! projected raster cell lies on the canvas; it transitions to `Landed`
//! the first time `y < 0`, and the walk stops early as `OffCanvas` the
//! first time the projected cell leaves the frame.  A step budget bounds
//! the walk, and a flight that exhausts it is still `Flying`.

use vstd::prelude::*;

use crate::canvas::{
    in_rect_spec, lemma_neighbors_complete, lemma_neighbors_in_bounds, neighbor_cell_ok,
    neighbors, neighbors_spec, Canvas,
};
use crate::color::{color, color_into_pixel, Pixel};
use crate::error::AlgebraError;
use crate::scalar::{fx_scale_down, fxabs, round_div, SCALE};
use crate::tuple::{
    is_point_spec, mag_sq, magnitude_spec, mul_tup, normalize, point, vector, Tuple,
    POINT_INDICATOR, VECTOR_INDICATOR,
};

verus! {

/// Largest start/velocity component the simulator accepts, in units.
pub const SIM_POS_LIMIT: i64 = 1_000_000_000_000;

/// Largest drag component the simulator accepts, in units.
pub const SIM_DRAG_LIMIT: i64 = 1_000_000_000;

/// Largest step budget the simulator accepts.
pub const MAX_SIM_STEPS: u32 = 50_000;

/// How a simulated flight ended.
#[derive(Clone, Copy, Debug, PartialEq, Eq, Structural)]
pub enum FlightOutcome {
    /// The position's `y` dropped below zero: the terminal state.
    Landed,
    /// The projected raster cell left the canvas before landing.
    OffCanvas,
    /// The step budget ran out while the projectile was still in flight.
    Flying,
}

/// Where a flight stopped: the final state, the number of steps taken,
/// and why the walk ended.
pub struct FlightResult {
    /// Position after the last step taken.
    pub position: Tuple,
    /// Velocity after the last step taken.
    pub velocity: Tuple,
    /// How many steps were taken.
    pub steps: u32,
    /// Why the walk ended.
    pub outcome: FlightOutcome,
}

/// The four components of a tuple, widened to mathematical integers.
pub open spec fn tup_ints(t: Tuple) -> (int, int, int, int) {
    (t.0 as int, t.1 as int, t.2 as int, t.3 as int)
}

/// The exact simulation state after `k` steps: each step adds the drag
/// to the velocity and then the new velocity to the position.
pub open spec fn sim_state(
    start: (int, int, int, int),
    vel: (int, int, int, int),
    drag: (int, int, int, int),
    k: nat,
) -> ((int, int, int, int), (int, int, int, int))
    decreases k,
{
    if k == 0 {
        (start, vel)
    } else {
        let prev = sim_state(start, vel, drag, (k - 1) as nat);
        let v = (prev.1.0 + drag.0, prev.1.1 + drag.1, prev.1.2 + drag.2, prev.1.3 + drag.3);
        ((prev.0.0 + v.0, prev.0.1 + v.1, prev.0.2 + v.2, prev.0.3 + v.3), v)
    }
}

/// The raster cell a simulated position projects to: its coordinates
/// rounded to whole units, with `y` flipped from bottom-up simulation
/// space to top-down raster space.
pub open spec fn sim_raster(p: (int, int, int, int), h: int) -> (int, int) {
    (round_div(p.0, SCALE as int), h - round_div(p.1, SCALE as int))
}

/// Whether a simulated position projects onto the canvas.
pub open spec fn sim_on_canvas(p: (int, int, int, int), w: int, h: int) -> bool {
    in_rect_spec(sim_raster(p, h).0, sim_raster(p, h).1, w, h)
}

/// Whether the projectile is still flying and visible after step `j`:
/// it has not landed and its raster cell is on the canvas.
pub open spec fn sim_step_ok(
    start: (int, int, int, int),
    vel: (int, int, int, int),
    drag: (int, int, int, int),
    w: int,
    h: int,
    j: nat,
) -> bool {
    sim_state(start, vel, drag, j).0.1 >= 0 && sim_on_canvas(sim_state(start, vel, drag, j).0, w, h)
}

/// Whether every step before `k` kept the projectile flying on-canvas.
pub open spec fn sim_ok_upto(
    start: (int, int, int, int),
    vel: (int, int, int, int),
    drag: (int, int, int, int),
    w: int,
    h: int,
    k: nat,
) -> bool {
    forall|j: nat| j < k ==> #[trigger] sim_step_ok(start, vel, drag, w, h, j)
}

/// Velocity components stay within this bound after `k` steps.
pub open spec fn sim_vel_bound(k: int) -> int {
    SIM_POS_LIMIT + k * SIM_DRAG_LIMIT
}

/// Position components stay within this bound after `k` steps.
pub open spec fn sim_pos_bound(k: int) -> int {
    SIM_POS_LIMIT + k * sim_vel_bound(k)
}

/// Whether every component of the tuple is at most `b` in size.
pub open spec fn tup_within(t: Tuple, b: int) -> bool {
    fxabs(t.0 as int) <= b && fxabs(t.1 as int) <= b && fxabs(t.2 as int) <= b && fxabs(t.3 as int)
        <= b
}

/// Growing the step count grows the simulation bounds, and one step of
/// drag moves `sim_vel_bound(k)` to `sim_vel_bound(k + 1)`.
proof fn lemma_sim_bounds_step(k: int)
    requires
        0 <= k,
    ensures
        sim_vel_bound(k) + SIM_DRAG_LIMIT == sim_vel_bound(k + 1),
        sim_pos_bound(k) + sim_vel_bound(k + 1) <= sim_pos_bound(k + 1),
        sim_vel_bound(k) <= sim_vel_bound(k + 1),
{
    vstd::arithmetic::mul::lemma_mul_is_distributive_add_other_way(SIM_DRAG_LIMIT as int, k, 1);
    vstd::arithmetic::mul::lemma_mul_is_distributive_add_other_way(sim_vel_bound(k + 1), k, 1);
    assert(k * sim_vel_bound(k) <= k * sim_vel_bound(k + 1)) by {
        if k > 0 {
            vstd::arithmetic::mul::lemma_mul_left_inequality(
                k,
                sim_vel_bound(k),
                sim_vel_bound(k + 1),
            );
        } else {
            assert(0 * sim_vel_bound(k) == 0 && 0 * sim_vel_bound(k + 1) == 0);
        }
    }
}

/// The simulation bounds are monotone in the step count.
proof fn lemma_sim_bounds_mono(k1: int, k2: int)
    requires
        0 <= k1 <= k2,
    ensures
        sim_vel_bound(k1) <= sim_vel_bound(k2),
        sim_pos_bound(k1) <= sim_pos_bound(k2),
    decreases k2 - k1,
{
    if k1 < k2 {
        lemma_sim_bounds_step(k2 - 1);
        lemma_sim_bounds_mono(k1, k2 - 1);
    }
}

/// Advances the projectile by one unit time step: the drag joins the
/// velocity, and the new velocity carries the position.
pub fn step_projectile(position: Tuple, velocity: Tuple, drag: Tuple) -> (r: (Tuple, Tuple))
    requires
        i64::MIN <= velocity.0 + drag.0 <= i64::MAX,
        i64::MIN <= velocity.1 + drag.1 <= i64::MAX,
        i64::MIN <= velocity.2 + drag.2 <= i64::MAX,
        i64::MIN <= velocity.3 + drag.3 <= i64::MAX,
        i64::MIN <= position.0 + velocity.0 + drag.0 <= i64::MAX,
        i64::MIN <= position.1 + velocity.1 + drag.1 <= i64::MAX,
        i64::MIN <= position.2 + velocity.2 + drag.2 <= i64::MAX,
        i64::MIN <= position.3 + velocity.3 + drag.3 <= i64::MAX,
    ensures
        r.1.0 == velocity.0 + drag.0,
        r.1.1 == velocity.1 + drag.1,
        r.1.2 == velocity.2 + drag.2,
        r.1.3 == velocity.3 + drag.3,
        r.0.0 == position.0 + velocity.0 + drag.0,
        r.0.1 == position.1 + velocity.1 + drag.1,
        r.0.2 == position.2 + velocity.2 + drag.2,
        r.0.3 == position.3 + velocity.3 + drag.3,
{
    let v = (
        velocity.0 + drag.0,
        velocity.1 + drag.1,
        velocity.2 + drag.2,
        velocity.3 + drag.3,
    );
    ((position.0 + v.0, position.1 + v.1, position.2 + v.2, position.3 + v.3), v)
}

/// Rounds a fixed-point coordinate to its whole-unit raster coordinate.
fn round_coord(a: i64) -> (r: i64)
    ensures
        r as int == round_div(a as int, SCALE as int),
{
    proof {
        crate::scalar::lemma_abs_mul(1, SCALE as int);
    }
    fx_scale_down(a as i128)
}

/// Walks the projectile until it lands, leaves the canvas, or exhausts
/// the step budget, without painting anything.
pub fn fly(
    start: Tuple,
    velocity: Tuple,
    drag: Tuple,
    w: u32,
    h: u32,
    max_steps: u32,
) -> (r: FlightResult)
    requires
        tup_within(start, SIM_POS_LIMIT as int),
        tup_within(velocity, SIM_POS_LIMIT as int),
        tup_within(drag, SIM_DRAG_LIMIT as int),
        max_steps <= MAX_SIM_STEPS,
    ensures
        r.steps <= max_steps,
        (tup_ints(r.position), tup_ints(r.velocity)) == sim_state(
            tup_ints(start),
            tup_ints(velocity),
            tup_ints(drag),
            r.steps as nat,
        ),
        sim_ok_upto(tup_ints(start), tup_ints(velocity), tup_ints(drag), w as int, h as int, r.steps as nat),
        r.outcome == FlightOutcome::Landed ==> sim_state(
            tup_ints(start),
            tup_ints(velocity),
            tup_ints(drag),
            r.steps as nat,
        ).0.1 < 0,
        r.outcome == FlightOutcome::OffCanvas ==> sim_state(
            tup_ints(start),
            tup_ints(velocity),
            tup_ints(drag),
            r.steps as nat,
        ).0.1 >= 0 && !sim_on_canvas(
            sim_state(tup_ints(start), tup_ints(velocity), tup_ints(drag), r.steps as nat).0,
            w as int,
            h as int,
        ),
        r.outcome == FlightOutcome::Flying ==> r.steps == max_steps,
{
    let mut pos: Tuple = start;
    let mut vel: Tuple = velocity;
    let mut steps: u32 = 0;
    let mut outcome: FlightOutcome = FlightOutcome::Flying;
    loop
        invariant
            steps <= max_steps,
            max_steps <= MAX_SIM_STEPS,
            tup_within(start, SIM_POS_LIMIT as int),
            tup_within(velocity, SIM_POS_LIMIT as int),
            tup_within(drag, SIM_DRAG_LIMIT as int),
            tup_within(vel, sim_vel_bound(steps as int)),
            tup_within(pos, sim_pos_bound(steps as int)),
            (tup_ints(pos), tup_ints(vel)) == sim_state(tup_ints(start), tup_ints(velocity), tup_ints(drag), steps as nat),
            sim_ok_upto(tup_ints(start), tup_ints(velocity), tup_ints(drag), w as int, h as int, steps as nat),
        ensures
            steps <= max_steps,
            (tup_ints(pos), tup_ints(vel)) == sim_state(tup_ints(start), tup_ints(velocity), tup_ints(drag), steps as nat),
            sim_ok_upto(tup_ints(start), tup_ints(velocity), tup_ints(drag), w as int, h as int, steps as nat),
            outcome == FlightOutcome::Landed ==> pos.1 < 0,
            outcome == FlightOutcome::OffCanvas ==> pos.1 >= 0 && !sim_on_canvas(
                tup_ints(pos),
                w as int,
                h as int,
            ),
            outcome == FlightOutcome::Flying ==> steps == max_steps,
        decreases max_steps - steps,
    {
        if steps == max_steps {
            outcome = FlightOutcome::Flying;
            break ;
        }
        if pos.1 < 0 {
            outcome = FlightOutcome::Landed;
            break ;
        }
        let rx: i64 = round_coord(pos.0);
        let ry: i64 = round_coord(pos.1);
        let bx: i64 = rx;
        let by: i64 = h as i64 - ry;
        if !(bx >= 0 && by >= 0 && bx < w as i64 && by < h as i64) {
            outcome = FlightOutcome::OffCanvas;
            break ;
        }
        proof {
            lemma_sim_bounds_step(steps as int);
            lemma_sim_bounds_mono(steps as int + 1, MAX_SIM_STEPS as int);
            assert(sim_step_ok(tup_ints(start), tup_ints(velocity), tup_ints(drag), w as int, h as int, steps as nat));
        }
        let (p2, v2) = step_projectile(pos, vel, drag);
        pos = p2;
        vel = v2;
        steps = steps + 1;
        proof {
            assert((tup_ints(pos), tup_ints(vel)) == sim_state(
                tup_ints(start),
                tup_ints(velocity),
                tup_ints(drag),
                steps as nat,
            ));
            assert forall|j: nat| j < steps as nat implies #[trigger] sim_step_ok(
                tup_ints(start),
                tup_ints(velocity),
                tup_ints(drag),
                w as int,
                h as int,
                j,
            ) by {
                if j < steps as nat - 1 {
                    assert(sim_ok_upto(
                        tup_ints(start),
                        tup_ints(velocity),
                        tup_ints(drag),
                        w as int,
                        h as int,
                        (steps as nat - 1) as nat,
                    ));
                }
            }
        }
    }
    FlightResult { position: pos, velocity: vel, steps, outcome }
}

/// The `n`-th triangular number: `1 + 2 + ... + n`.
pub open spec fn tri(n: nat) -> int
    decreases n,
{
    if n == 0 {
        0
    } else {
        n + tri((n - 1) as nat)
    }
}

/// Twice a triangular number has the familiar closed form.
proof fn lemma_tri_closed_form(n: nat)
    ensures
        2 * tri(n) == n * (n + 1),
        tri(n) >= 0,
    decreases n,
{
    if n == 0 {
        assert(0nat * 1 == 0) by (nonlinear_arith);
    } else {
        lemma_tri_closed_form((n - 1) as nat);
        assert((n - 1) * n + 2 * n == n * (n + 1)) by (nonlinear_arith);
    }
}

/// The height of the projectile in closed form: the climb is linear in
/// the initial velocity and quadratic (through a triangular number) in
/// the drag, which is what bends the path into an arc.
pub proof fn lemma_sim_y_closed_form(
    start: (int, int, int, int),
    vel: (int, int, int, int),
    drag: (int, int, int, int),
    n: nat,
)
    ensures
        sim_state(start, vel, drag, n).0.1 == start.1 + n * vel.1 + drag.1 * tri(n),
    decreases n,
{
    if n == 0 {
        assert(0nat * vel.1 == 0) by (nonlinear_arith);
        vstd::arithmetic::mul::lemma_mul_by_zero_is_zero(drag.1);
    } else {
        lemma_sim_y_closed_form(start, vel, drag, (n - 1) as nat);
        lemma_sim_velocity_accumulates_drag(start, vel, drag, (n - 1) as nat);
        vstd::arithmetic::mul::lemma_mul_is_distributive_add_other_way(vel.1, n - 1, 1);
        vstd::arithmetic::mul::lemma_mul_is_distributive_add_other_way(drag.1, n - 1, 1);
        vstd::arithmetic::mul::lemma_mul_is_distributive_add(drag.1, tri((n - 1) as nat), n as int);
        vstd::arithmetic::mul::lemma_mul_is_commutative(drag.1, n as int);
        vstd::arithmetic::mul::lemma_mul_is_commutative(drag.1, n - 1);
    }
}

/// At twice the combined starting height and climb rate, the quadratic
/// drop of a downward drag has overtaken the linear climb.
proof fn lemma_landing_witness(y0: int, v0: int, d: int, yy: int, vv: int, n: int)
    requires
        d <= -1,
        yy >= 0,
        yy >= y0,
        vv >= 0,
        vv >= v0,
        n == 2 * (yy + vv + 1),
    ensures
        y0 + n * v0 + d * tri(n as nat) < 0,
{
    lemma_tri_closed_form(n as nat);
    assert(2 * (y0 + n * v0) < 2 * tri(n as nat)) by (nonlinear_arith)
        requires
            yy >= 0,
            yy >= y0,
            vv >= 0,
            vv >= v0,
            n == 2 * (yy + vv + 1),
            2 * tri(n as nat) == n * (n + 1),
    ;
    assert(d * tri(n as nat) <= -tri(n as nat)) by {
        vstd::arithmetic::mul::lemma_mul_inequality(d, -1, tri(n as nat));
        vstd::arithmetic::mul::lemma_mul_unary_negation(1, tri(n as nat));
        vstd::arithmetic::mul::lemma_mul_basics_3(tri(n as nat));
    }
}

/// Any strictly downward drag lands the projectile: after some number
/// of steps, the simulated height has dropped below zero.
pub proof fn lemma_downward_drag_lands(
    start: (int, int, int, int),
    vel: (int, int, int, int),
    drag: (int, int, int, int),
)
    requires
        drag.1 < 0,
    ensures
        exists|n: nat| (#[trigger] sim_state(start, vel, drag, n)).0.1 < 0,
{
    let yy: int = if start.1 > 0 {
        start.1
    } else {
        0
    };
    let vv: int = if vel.1 > 0 {
        vel.1
    } else {
        0
    };
    let n: int = 2 * (yy + vv + 1);
    lemma_sim_y_closed_form(start, vel, drag, n as nat);
    lemma_landing_witness(start.1, vel.1, drag.1, yy, vv, n);
    assert(sim_state(start, vel, drag, n as nat).0.1 < 0);
}

/// The fixed start of the demonstrative arc: the point (10, 10, 0).
pub open spec fn arch_start() -> (int, int, int, int) {
    (10 * SCALE, 10 * SCALE, 0, POINT_INDICATOR as int)
}

/// The fixed drag of the demonstrative arc: the vector (-0.01, -0.1, 0).
pub open spec fn arch_drag() -> (int, int, int, int) {
    (-10_000_000, -100_000_000, 0, 0)
}

/// The velocity a launch starts with: the direction `(dir_x, dir_y, 0)`
/// normalized to unit length, then scaled by `mag`.
pub open spec fn launch_velocity(dir_x: i64, dir_y: i64, mag: i64) -> (int, int, int, int) {
    let m = magnitude_spec((dir_x, dir_y, 0i64, VECTOR_INDICATOR));
    (
        round_div(round_div(dir_x * SCALE, m) * mag, SCALE as int),
        round_div(round_div(dir_y * SCALE, m) * mag, SCALE as int),
        round_div(round_div(0 * SCALE, m) * mag, SCALE as int),
        round_div(round_div(VECTOR_INDICATOR * SCALE, m) * mag, SCALE as int),
    )
}

/// The channels of the color the arc is painted with: (0.1, 0.8, 0.2)
/// quantized to a device pixel.
pub open spec fn trajectory_pixel() -> Seq<u8> {
    seq![26u8, 204u8, 51u8]
}

/// The raster cell the projectile occupies after `j` steps.
pub open spec fn sim_cell(
    start: (int, int, int, int),
    vel: (int, int, int, int),
    drag: (int, int, int, int),
    h: int,
    j: nat,
) -> (int, int) {
    sim_raster(sim_state(start, vel, drag, j).0, h)
}

/// Half-width of the open-square brush the arc is painted with.
pub const BRUSH_RADIUS: i32 = 2;

/// Whether `(x, y)` lies strictly within the open square of half-width
/// `n` centered on the cell `c`.
pub open spec fn in_brush(x: int, y: int, c: (int, int), n: int) -> bool {
    c.0 - n < x < c.0 + n && c.1 - n < y < c.1 + n
}

/// Whether the brush of one of the first `steps` steps covers `(x, y)`.
pub open spec fn brush_covers(
    start: (int, int, int, int),
    vel: (int, int, int, int),
    drag: (int, int, int, int),
    h: int,
    steps: nat,
    x: int,
    y: int,
) -> bool {
    exists|j: nat|
        j < steps && in_brush(
            x,
            y,
            #[trigger] sim_cell(start, vel, drag, h, j),
            BRUSH_RADIUS as int,
        )
}

/// A cell covered within the first `k1` steps stays covered within any
/// larger step count.
proof fn lemma_brush_covers_mono(
    start: (int, int, int, int),
    vel: (int, int, int, int),
    drag: (int, int, int, int),
    h: int,
    k1: nat,
    k2: nat,
    x: int,
    y: int,
)
    requires
        k1 <= k2,
        brush_covers(start, vel, drag, h, k1, x, y),
    ensures
        brush_covers(start, vel, drag, h, k2, x, y),
{
    let j = choose|j: nat|
        j < k1 && in_brush(
            x,
            y,
            #[trigger] sim_cell(start, vel, drag, h, j),
            BRUSH_RADIUS as int,
        );
    assert(j < k2 && in_brush(x, y, sim_cell(start, vel, drag, h, j), BRUSH_RADIUS as int));
}

/// Whether one of the first `t` cells of `s` is `(x, y)`.
spec fn seq_hits(s: Seq<(i32, i32)>, t: int, x: int, y: int) -> bool {
    exists|t2: int| 0 <= t2 < t && (#[trigger] s[t2]).0 == x && s[t2].1 == y
}

/// With no drag at all, the flight is a straight line: after `k` steps
/// the velocity is unchanged and the position is the start displaced by
/// exactly `k` velocities.
pub proof fn lemma_sim_no_drag_is_straight_line(
    start: (int, int, int, int),
    vel: (int, int, int, int),
    drag: (int, int, int, int),
    k: nat,
)
    requires
        drag.0 == 0,
        drag.1 == 0,
        drag.2 == 0,
        drag.3 == 0,
    ensures
        sim_state(start, vel, drag, k).1 == vel,
        sim_state(start, vel, drag, k).0.0 == start.0 + k * vel.0,
        sim_state(start, vel, drag, k).0.1 == start.1 + k * vel.1,
        sim_state(start, vel, drag, k).0.2 == start.2 + k * vel.2,
        sim_state(start, vel, drag, k).0.3 == start.3 + k * vel.3,
    decreases k,
{
    if k == 0 {
        assert(0 * vel.0 == 0 && 0 * vel.1 == 0 && 0 * vel.2 == 0 && 0 * vel.3 == 0);
    } else {
        lemma_sim_no_drag_is_straight_line(start, vel, drag, (k - 1) as nat);
        vstd::arithmetic::mul::lemma_mul_is_distributive_add_other_way(vel.0, k - 1, 1);
        vstd::arithmetic::mul::lemma_mul_is_distributive_add_other_way(vel.1, k - 1, 1);
        vstd::arithmetic::mul::lemma_mul_is_distributive_add_other_way(vel.2, k - 1, 1);
        vstd::arithmetic::mul::lemma_mul_is_distributive_add_other_way(vel.3, k - 1, 1);
    }
}

/// Whatever the drag, the velocity after `k` steps is the initial
/// velocity plus `k` drags: a constant drag accumulates linearly.
pub proof fn lemma_sim_velocity_accumulates_drag(
    start: (int, int, int, int),
    vel: (int, int, int, int),
    drag: (int, int, int, int),
    k: nat,
)
    ensures
        sim_state(start, vel, drag, k).1.0 == vel.0 + k * drag.0,
        sim_state(start, vel, drag, k).1.1 == vel.1 + k * drag.1,
        sim_state(start, vel, drag, k).1.2 == vel.2 + k * drag.2,
        sim_state(start, vel, drag, k).1.3 == vel.3 + k * drag.3,
    decreases k,
{
    if k == 0 {
        assert(0 * drag.0 == 0 && 0 * drag.1 == 0 && 0 * drag.2 == 0 && 0 * drag.3 == 0);
    } else {
        lemma_sim_velocity_accumulates_drag(start, vel, drag, (k - 1) as nat);
        vstd::arithmetic::mul::lemma_mul_is_distributive_add_other_way(drag.0, k - 1, 1);
        vstd::arithmetic::mul::lemma_mul_is_distributive_add_other_way(drag.1, k - 1, 1);
        vstd::arithmetic::mul::lemma_mul_is_distributive_add_other_way(drag.2, k - 1, 1);
        vstd::arithmetic::mul::lemma_mul_is_distributive_add_other_way(drag.3, k - 1, 1);
    }
}

/// The program that fires a bullet in an arching trajectory and writes
/// the trajectory to a canvas.
pub struct Arch {}

impl Arch {
    /// Simulates the launch described by the direction `(dir_x, dir_y)`
    /// and magnitude `mag` from the fixed start under the fixed drag,
    /// painting the brush square of every in-flight raster cell with the
    /// trajectory color: a cell holds that color exactly when some
    /// step's brush covers it, and stays black otherwise.  A direction
    /// of zero magnitude cannot be normalized and is refused.
    pub fn make(w: u32, h: u32, dir_x: i64, dir_y: i64, mag: i64) -> (res: Result<
        (Canvas, FlightResult),
        AlgebraError,
    >)
        requires
            w as int * h as int <= usize::MAX as int,
            w <= 0x7fff_0000u32,
            h <= 0x7fff_0000u32,
            fxabs(dir_x as int) <= SIM_POS_LIMIT as int,
            fxabs(dir_y as int) <= SIM_POS_LIMIT as int,
            0 <= mag <= SIM_POS_LIMIT,
        ensures
            res is Err <==> magnitude_spec((dir_x, dir_y, 0i64, VECTOR_INDICATOR)) == 0,
            res is Err ==> res->Err_0 == AlgebraError::DivisionByZero,
            res is Ok ==> ({
                let c = res->Ok_0.0;
                let fr = res->Ok_0.1;
                let vl = launch_velocity(dir_x, dir_y, mag);
                c.wf() && c.spec_width() == w && c.spec_height() == h && fr.steps <= MAX_SIM_STEPS
                    && (tup_ints(fr.position), tup_ints(fr.velocity)) == sim_state(
                    arch_start(),
                    vl,
                    arch_drag(),
                    fr.steps as nat,
                ) && sim_ok_upto(arch_start(), vl, arch_drag(), w as int, h as int, fr.steps as nat)
                    && (fr.outcome == FlightOutcome::Landed ==> sim_state(
                    arch_start(),
                    vl,
                    arch_drag(),
                    fr.steps as nat,
                ).0.1 < 0) && (fr.outcome == FlightOutcome::OffCanvas ==> sim_state(
                    arch_start(),
                    vl,
                    arch_drag(),
                    fr.steps as nat,
                ).0.1 >= 0 && !sim_on_canvas(
                    sim_state(arch_start(), vl, arch_drag(), fr.steps as nat).0,
                    w as int,
                    h as int,
                )) && (fr.outcome == FlightOutcome::Flying ==> fr.steps == MAX_SIM_STEPS) && (
                forall|x: int, y: int|
                    c.in_bounds_spec(x, y) ==> #[trigger] c.pixel_at(x, y) == (if brush_covers(
                        arch_start(),
                        vl,
                        arch_drag(),
                        h as int,
                        fr.steps as nat,
                        x,
                        y,
                    ) {
                        trajectory_pixel()
                    } else {
                        seq![0u8, 0u8, 0u8]
                    }))
            }),
    {
        let dir: Tuple = vector(dir_x, dir_y, 0);
        proof {
            assert(dir.0 as int * dir.0 as int <= SIM_POS_LIMIT as int * SIM_POS_LIMIT as int)
                by (nonlinear_arith)
                requires
                    fxabs(dir.0 as int) <= SIM_POS_LIMIT as int,
            ;
            assert(dir.1 as int * dir.1 as int <= SIM_POS_LIMIT as int * SIM_POS_LIMIT as int)
                by (nonlinear_arith)
                requires
                    fxabs(dir.1 as int) <= SIM_POS_LIMIT as int,
            ;
        }
        let u: Tuple = match normalize(dir) {
            Ok(u) => u,
            Err(e) => {
                return Err(e);
            },
        };
        proof {
            assert(dir.0 as int * dir.0 as int >= 0) by (nonlinear_arith);
            assert(dir.1 as int * dir.1 as int >= 0) by (nonlinear_arith);
            crate::scalar::lemma_isqrt_spec_props(mag_sq(dir));
            let m = magnitude_spec(dir);
            assert(0 * m == 0);
            crate::scalar::lemma_round_div_bound(0, m, 0);
            assert(u.3 as int == 0);
            assert(!is_point_spec(u));
            lemma_launch_unit_bounds(dir, u);
            lemma_mul_fit(u.0 as int, mag as int);
            lemma_mul_fit(u.1 as int, mag as int);
            lemma_mul_fit(u.2 as int, mag as int);
            lemma_mul_fit(u.3 as int, mag as int);
        }
        let vel: Tuple = match mul_tup(u, mag) {
            Ok(v) => v,
            Err(e) => {
                proof {
                    assert(false);
                }
                return Err(e);
            },
        };
        proof {
            lemma_vel_bound(u.0 as int, mag as int, vel.0 as int);
            lemma_vel_bound(u.1 as int, mag as int, vel.1 as int);
            lemma_vel_bound(u.2 as int, mag as int, vel.2 as int);
            lemma_vel_bound(u.3 as int, mag as int, vel.3 as int);
        }
        let start: Tuple = point(10 * SCALE, 10 * SCALE, 0);
        let drag: Tuple = vector(-10_000_000, -100_000_000, 0);
        let fr = fly(start, vel, drag, w, h, MAX_SIM_STEPS);
        let mut canvas = Canvas::new(w, h);
        let pix: Pixel = color_into_pixel(color(100_000_000, 800_000_000, 200_000_000));
        proof {
            assert(pix@ =~= trajectory_pixel());
            assert(tup_ints(vel) == launch_velocity(dir_x, dir_y, mag));
        }
        let mut pos: Tuple = start;
        let mut vel2: Tuple = vel;
        let mut k: u32 = 0;
        while k < fr.steps
            invariant
                k <= fr.steps,
                fr.steps <= MAX_SIM_STEPS,
                w <= 0x7fff_0000u32,
                h <= 0x7fff_0000u32,
                tup_within(start, SIM_POS_LIMIT as int),
                tup_within(vel, SIM_POS_LIMIT as int),
                tup_within(drag, SIM_DRAG_LIMIT as int),
                tup_within(vel2, sim_vel_bound(k as int)),
                tup_within(pos, sim_pos_bound(k as int)),
                (tup_ints(pos), tup_ints(vel2)) == sim_state(
                    tup_ints(start),
                    tup_ints(vel),
                    tup_ints(drag),
                    k as nat,
                ),
                sim_ok_upto(
                    tup_ints(start),
                    tup_ints(vel),
                    tup_ints(drag),
                    w as int,
                    h as int,
                    fr.steps as nat,
                ),
                canvas.wf(),
                canvas.spec_width() == w,
                canvas.spec_height() == h,
                pix@ == trajectory_pixel(),
                forall|x: int, y: int|
                    canvas.in_bounds_spec(x, y) ==> #[trigger] canvas.pixel_at(x, y) == (
                    if brush_covers(
                        tup_ints(start),
                        tup_ints(vel),
                        tup_ints(drag),
                        h as int,
                        k as nat,
                        x,
                        y,
                    ) {
                        trajectory_pixel()
                    } else {
                        seq![0u8, 0u8, 0u8]
                    }),
            decreases fr.steps - k,
        {
            proof {
                assert(sim_step_ok(
                    tup_ints(start),
                    tup_ints(vel),
                    tup_ints(drag),
                    w as int,
                    h as int,
                    k as nat,
                ));
            }
            let rx: i64 = round_coord(pos.0);
            let ry: i64 = round_coord(pos.1);
            let bx: i64 = rx;
            let by: i64 = h as i64 - ry;
            proof {
                assert((bx as int, by as int) == sim_cell(
                    tup_ints(start),
                    tup_ints(vel),
                    tup_ints(drag),
                    h as int,
                    k as nat,
                ));
            }
            let nb: Vec<(i32, i32)> = neighbors(bx as i32, by as i32, w as i32, h as i32, BRUSH_RADIUS);
            let mut t: usize = 0;
            while t < nb.len()
                invariant
                    t <= nb@.len(),
                    canvas.wf(),
                    canvas.spec_width() == w,
                    canvas.spec_height() == h,
                    w <= 0x7fff_0000u32,
                    h <= 0x7fff_0000u32,
                    pix@ == trajectory_pixel(),
                    k < fr.steps,
                    fr.steps <= MAX_SIM_STEPS,
                    (bx as int, by as int) == sim_cell(
                        tup_ints(start),
                        tup_ints(vel),
                        tup_ints(drag),
                        h as int,
                        k as nat,
                    ),
                    in_rect_spec(bx as int, by as int, w as int, h as int),
                    nb@ == neighbors_spec(
                        bx as int,
                        by as int,
                        w as int,
                        h as int,
                        BRUSH_RADIUS as int,
                    ),
                    forall|x: int, y: int|
                        canvas.in_bounds_spec(x, y) ==> #[trigger] canvas.pixel_at(x, y) == (
                        if brush_covers(
                            tup_ints(start),
                            tup_ints(vel),
                            tup_ints(drag),
                            h as int,
                            k as nat,
                            x,
                            y,
                        ) || seq_hits(nb@, t as int, x, y) {
                            trajectory_pixel()
                        } else {
                            seq![0u8, 0u8, 0u8]
                        }),
                    sim_ok_upto(
                        tup_ints(start),
                        tup_ints(vel),
                        tup_ints(drag),
                        w as int,
                        h as int,
                        fr.steps as nat,
                    ),
                decreases nb@.len() - t,
            {
                let pt: (i32, i32) = nb[t];
                canvas.set_pixel(pt.0, pt.1, pix);
                proof {
                    assert forall|x: int, y: int| canvas.in_bounds_spec(x, y)
                        implies #[trigger] canvas.pixel_at(x, y) == (if brush_covers(
                        tup_ints(start),
                        tup_ints(vel),
                        tup_ints(drag),
                        h as int,
                        k as nat,
                        x,
                        y,
                    ) || seq_hits(nb@, t + 1, x, y) {
                        trajectory_pixel()
                    } else {
                        seq![0u8, 0u8, 0u8]
                    }) by {
                        if x == pt.0 as int && y == pt.1 as int {
                            assert(seq_hits(nb@, t + 1, x, y)) by {
                                assert((#[trigger] nb@[t as int]).0 == x && nb@[t as int].1 == y);
                            }
                        } else {
                            if seq_hits(nb@, t + 1, x, y) && !seq_hits(nb@, t as int, x, y) {
                                let t2 = choose|t2: int|
                                    0 <= t2 < t + 1 && (#[trigger] nb@[t2]).0 == x && nb@[t2].1
                                        == y;
                                assert(t2 == t);
                                assert(false);
                            }
                            if seq_hits(nb@, t as int, x, y) {
                                let t2 = choose|t2: int|
                                    0 <= t2 < t && (#[trigger] nb@[t2]).0 == x && nb@[t2].1 == y;
                                assert(0 <= t2 < t + 1 && (#[trigger] nb@[t2]).0 == x && nb@[t2].1
                                    == y);
                            }
                        }
                    }
                }
                t = t + 1;
            }
            canvas.set_pixel(bx as i32, by as i32, pix);
            proof {
                let gs = tup_ints(start);
                let gv = tup_ints(vel);
                let gd = tup_ints(drag);
                let cell = sim_cell(gs, gv, gd, h as int, k as nat);
                lemma_neighbors_in_bounds(
                    bx as int,
                    by as int,
                    w as int,
                    h as int,
                    BRUSH_RADIUS as int,
                );
                assert forall|x: int, y: int| canvas.in_bounds_spec(x, y)
                    implies #[trigger] canvas.pixel_at(x, y) == (if brush_covers(
                    gs,
                    gv,
                    gd,
                    h as int,
                    (k + 1) as nat,
                    x,
                    y,
                ) {
                    trajectory_pixel()
                } else {
                    seq![0u8, 0u8, 0u8]
                }) by {
                    if brush_covers(gs, gv, gd, h as int, (k + 1) as nat, x, y) {
                        if x == bx as int && y == by as int {
                        } else if brush_covers(gs, gv, gd, h as int, k as nat, x, y) {
                        } else {
                            let j = choose|j: nat|
                                j < (k + 1) as nat && in_brush(
                                    x,
                                    y,
                                    #[trigger] sim_cell(gs, gv, gd, h as int, j),
                                    BRUSH_RADIUS as int,
                                );
                            if j < k as nat {
                                assert(brush_covers(gs, gv, gd, h as int, k as nat, x, y));
                                assert(false);
                            }
                            lemma_neighbors_complete(
                                bx as int,
                                by as int,
                                w as int,
                                h as int,
                                BRUSH_RADIUS as int,
                                x - bx as int,
                                y - by as int,
                            );
                            let e = ((x as i32), (y as i32));
                            assert(nb@.contains(e));
                            let t2 = choose|t2: int| 0 <= t2 < nb@.len() && nb@[t2] == e;
                            assert(seq_hits(nb@, nb@.len() as int, x, y)) by {
                                assert((#[trigger] nb@[t2]).0 == x && nb@[t2].1 == y);
                            }
                        }
                    } else {
                        assert(!brush_covers(gs, gv, gd, h as int, k as nat, x, y)) by {
                            if brush_covers(gs, gv, gd, h as int, k as nat, x, y) {
                                lemma_brush_covers_mono(
                                    gs,
                                    gv,
                                    gd,
                                    h as int,
                                    k as nat,
                                    (k + 1) as nat,
                                    x,
                                    y,
                                );
                            }
                        }
                        assert(!(x == bx as int && y == by as int)) by {
                            if x == bx as int && y == by as int {
                                assert((k as nat) < ((k + 1) as nat) && in_brush(
                                    x,
                                    y,
                                    sim_cell(gs, gv, gd, h as int, k as nat),
                                    BRUSH_RADIUS as int,
                                ));
                                assert(false);
                            }
                        }
                        assert(!seq_hits(nb@, nb@.len() as int, x, y)) by {
                            if seq_hits(nb@, nb@.len() as int, x, y) {
                                let t2 = choose|t2: int|
                                    0 <= t2 < nb@.len() && (#[trigger] nb@[t2]).0 == x && nb@[t2].1
                                        == y;
                                assert(neighbors_spec(
                                    bx as int,
                                    by as int,
                                    w as int,
                                    h as int,
                                    BRUSH_RADIUS as int,
                                )[t2] == nb@[t2]);
                                assert(neighbor_cell_ok(
                                    nb@[t2],
                                    bx as int,
                                    by as int,
                                    w as int,
                                    h as int,
                                    BRUSH_RADIUS as int,
                                ));
                                assert(in_brush(x, y, cell, BRUSH_RADIUS as int));
                                assert((k as nat) < ((k + 1) as nat) && in_brush(
                                    x,
                                    y,
                                    sim_cell(gs, gv, gd, h as int, k as nat),
                                    BRUSH_RADIUS as int,
                                ));
                                assert(false);
                            }
                        }
                    }
                }
                lemma_sim_bounds_step(k as int);
                lemma_sim_bounds_mono(k as int + 1, MAX_SIM_STEPS as int);
            }
            let (p2, v2) = step_projectile(pos, vel2, drag);
            pos = p2;
            vel2 = v2;
            k = k + 1;
        }
        proof {
            assert(tup_ints(start) == arch_start());
            assert(tup_ints(drag) == arch_drag());
        }
        Ok((canvas, fr))
    }
}

/// The components of a normalized direction are bounded by one whole
/// unit, because no component exceeds the magnitude it is divided by.
proof fn lemma_launch_unit_bounds(dir: Tuple, u: Tuple)
    requires
        mag_sq(dir) <= i64::MAX as int * i64::MAX as int,
        magnitude_spec(dir) > 0,
        u.0 as int == round_div(dir.0 * SCALE, magnitude_spec(dir)),
        u.1 as int == round_div(dir.1 * SCALE, magnitude_spec(dir)),
        u.2 as int == round_div(dir.2 * SCALE, magnitude_spec(dir)),
        u.3 as int == round_div(dir.3 * SCALE, magnitude_spec(dir)),
    ensures
        fxabs(u.0 as int) <= SCALE as int,
        fxabs(u.1 as int) <= SCALE as int,
        fxabs(u.2 as int) <= SCALE as int,
        fxabs(u.3 as int) <= SCALE as int,
{
    crate::tuple::lemma_component_le_magnitude(dir);
    let m = magnitude_spec(dir);
    lemma_unit_component(dir.0 as int, m);
    lemma_unit_component(dir.1 as int, m);
    lemma_unit_component(dir.2 as int, m);
    lemma_unit_component(dir.3 as int, m);
}

/// A component at most the magnitude, scaled and divided back by the
/// magnitude, stays within one whole unit.
proof fn lemma_unit_component(c: int, m: int)
    requires
        m > 0,
        fxabs(c) <= m,
    ensures
        fxabs(round_div(c * SCALE, m)) <= SCALE,
{
    crate::scalar::lemma_abs_mul(c, SCALE as int);
    assert(fxabs(c) * SCALE as int <= m * SCALE as int) by {
        vstd::arithmetic::mul::lemma_mul_inequality(fxabs(c), m, SCALE as int);
    }
    assert(m * SCALE as int == SCALE as int * m) by {
        vstd::arithmetic::mul::lemma_mul_is_commutative(m, SCALE as int);
    }
    crate::scalar::lemma_round_div_bound(c * SCALE, m, SCALE as int);
}

/// A unit component times a bounded magnitude fits the rescaling step.
proof fn lemma_mul_fit(c: int, mag: int)
    requires
        fxabs(c) <= SCALE,
        0 <= mag <= SIM_POS_LIMIT,
    ensures
        fxabs(c * mag) <= i64::MAX as int * SCALE as int,
{
    crate::scalar::lemma_abs_mul(c, mag);
    assert(fxabs(c) * mag <= SCALE as int * mag) by {
        vstd::arithmetic::mul::lemma_mul_inequality(fxabs(c), SCALE as int, mag);
    }
    assert(SCALE as int * mag <= SCALE as int * SIM_POS_LIMIT as int) by {
        vstd::arithmetic::mul::lemma_mul_left_inequality(SCALE as int, mag, SIM_POS_LIMIT as int);
    }
}

/// Scaling a unit component by a bounded magnitude and rescaling keeps
/// it within the magnitude, and so within the simulator's limit.
proof fn lemma_vel_bound(c: int, mag: int, v: int)
    requires
        fxabs(c) <= SCALE,
        0 <= mag <= SIM_POS_LIMIT,
        v == round_div(c * mag, SCALE as int),
    ensures
        fxabs(v) <= SIM_POS_LIMIT as int,
{
    crate::scalar::lemma_abs_mul(c, mag);
    assert(fxabs(c) * mag <= SCALE as int * mag) by {
        vstd::arithmetic::mul::lemma_mul_inequality(fxabs(c), SCALE as int, mag);
    }
    assert(SCALE as int * mag == mag * SCALE as int) by {
        vstd::arithmetic::mul::lemma_mul_is_commutative(SCALE as int, mag);
    }
    crate::scalar::lemma_round_div_bound(c * mag, SCALE as int, mag);
}

} // verus!
