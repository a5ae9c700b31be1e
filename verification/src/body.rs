//! The simulated particle and its per-body operations: pairwise gravity,
//! integration with velocity clamping, pairwise collision response, and
//! arena-boundary reflection.

use vstd::prelude::*;

verus! {

use crate::SCALE;
use crate::num::{
    isqrt, isqrt_ceil, lemma_mdiv_bound, lemma_sqrt_floor_at_least, lemma_sqrt_floor_bounds,
    lemma_square_order, mdiv, mul_div, sabs, sqrt_ceil, sqrt_floor,
};
use crate::params::{
    ACC_LIMIT, DT_MAX, FORCE_LIMIT, G_MAX, MASS_MAX, MASS_MIN, PAIR_FORCE_LIMIT, POS_DRIFT,
    POS_LIMIT, RADIUS_MAX, RADIUS_MIN, VEL_LIMIT, VMAX_MAX, Params,
};
use vstd::arithmetic::div_mod::{
    lemma_div_is_ordered, lemma_div_is_ordered_by_denominator, lemma_div_multiples_vanish,
    lemma_div_pos_is_pos, lemma_fundamental_div_mod,
};
use vstd::arithmetic::mul::{lemma_mul_inequality, lemma_mul_is_commutative, lemma_mul_upper_bound};

/// A 2D vector of fixed-point scalars.
#[derive(Clone, Copy, PartialEq, Eq, Structural, Debug)]
pub struct Vec2 {
    pub x: i64,
    pub y: i64,
}

impl Vec2 {
    pub fn zero() -> (v: Vec2)
        ensures
            v.x == 0,
            v.y == 0,
    {
        Vec2 { x: 0, y: 0 }
    }
}

/// The mathematical value of a body: every coordinate as an unbounded integer.
pub ghost struct BodyModel {
    pub px: int,
    pub py: int,
    pub vx: int,
    pub vy: int,
    pub ax: int,
    pub ay: int,
    pub fx: int,
    pub fy: int,
    pub mass: int,
    pub radius: int,
    pub frozen: bool,
}

/// A point mass: position, velocity, per-step acceleration and net force,
/// mass, collision radius, and the interactive freeze flag.
#[derive(Clone, Copy, PartialEq, Eq, Structural, Debug)]
pub struct Body {
    pub position: Vec2,
    pub velocity: Vec2,
    pub acceleration: Vec2,
    pub force: Vec2,
    pub mass: i64,
    pub radius: i64,
    pub frozen: bool,
}

impl View for Body {
    type V = BodyModel;

    open spec fn view(&self) -> BodyModel {
        BodyModel {
            px: self.position.x as int,
            py: self.position.y as int,
            vx: self.velocity.x as int,
            vy: self.velocity.y as int,
            ax: self.acceleration.x as int,
            ay: self.acceleration.y as int,
            fx: self.force.x as int,
            fy: self.force.y as int,
            mass: self.mass as int,
            radius: self.radius as int,
            frozen: self.frozen,
        }
    }
}

/// Well-formedness: the ranges that keep every stage free of overflow.
/// Mass is strictly positive by construction; the radius floor keeps the
/// inverse-square law away from singular distances.
pub open spec fn body_wf(b: BodyModel) -> bool {
    &&& (MASS_MIN as int) <= b.mass <= (MASS_MAX as int)
    &&& (RADIUS_MIN as int) <= b.radius <= (RADIUS_MAX as int)
    &&& sabs(b.px) <= (POS_LIMIT as int)
    &&& sabs(b.py) <= (POS_LIMIT as int)
    &&& sabs(b.vx) <= (VEL_LIMIT as int)
    &&& sabs(b.vy) <= (VEL_LIMIT as int)
    &&& sabs(b.ax) <= (ACC_LIMIT as int)
    &&& sabs(b.ay) <= (ACC_LIMIT as int)
    &&& sabs(b.fx) <= (FORCE_LIMIT as int)
    &&& sabs(b.fy) <= (FORCE_LIMIT as int)
}

/// Squared Euclidean distance between two bodies' positions.
pub open spec fn dist_sq(a: BodyModel, b: BodyModel) -> int {
    (b.px - a.px) * (b.px - a.px) + (b.py - a.py) * (b.py - a.py)
}

/// The gravitational pull of `b` on `a`: zero for an overlapping pair
/// (squared distance under `(2 * radius_a)^2` -- the threshold uses `a`'s own
/// radius), else `g * m_a * m_b / d^2` split along the separation direction.
pub open spec fn pair_force(g: int, a: BodyModel, b: BodyModel) -> (int, int) {
    let dx = b.px - a.px;
    let dy = b.py - a.py;
    let d2 = dist_sq(a, b);
    if d2 < 4 * a.radius * a.radius {
        (0, 0)
    } else {
        let mag = g * a.mass * b.mass / d2;
        let d = sqrt_floor(d2);
        (mdiv(dx, mag, d), mdiv(dy, mag, d))
    }
}

/// An overlapping pair contributes exactly the zero vector to the force sum.
pub proof fn lemma_overlap_no_force(g: int, a: BodyModel, b: BodyModel)
    requires
        dist_sq(a, b) < 4 * a.radius * a.radius,
    ensures
        pair_force(g, a, b) == (0int, 0int),
{
}

/// `acceleration = force * SCALE / mass`, componentwise.
pub open spec fn accel_update(b: BodyModel) -> BodyModel {
    BodyModel {
        ax: mdiv(b.fx, SCALE as int, b.mass),
        ay: mdiv(b.fy, SCALE as int, b.mass),
        ..b
    }
}

/// Clamp a velocity to magnitude `vmax`, direction-preserving: untouched when
/// its squared norm is within `vmax^2`, else rescaled by `vmax / |v|` with the
/// norm rounded up, so the clamped norm never exceeds `vmax`.
pub open spec fn clamp_vel(vmax: int, wx: int, wy: int) -> (int, int) {
    let n2 = wx * wx + wy * wy;
    if n2 <= vmax * vmax {
        (wx, wy)
    } else {
        let n = sqrt_ceil(n2);
        (mdiv(wx, vmax, n), mdiv(wy, vmax, n))
    }
}

/// `velocity += acceleration * dt`, then clamp to `vmax`.
pub open spec fn vel_update(vmax: int, dt: int, b: BodyModel) -> BodyModel {
    let wx = b.vx + mdiv(b.ax, dt, SCALE as int);
    let wy = b.vy + mdiv(b.ay, dt, SCALE as int);
    let c = clamp_vel(vmax, wx, wy);
    BodyModel { vx: c.0, vy: c.1, ..b }
}

/// `position += velocity * dt`, componentwise.
pub open spec fn pos_update(dt: int, b: BodyModel) -> BodyModel {
    BodyModel {
        px: b.px + mdiv(b.vx, dt, SCALE as int),
        py: b.py + mdiv(b.vy, dt, SCALE as int),
        ..b
    }
}

/// One kinematic update of a body: frozen bodies are left untouched, others
/// run acceleration, clamped velocity, then position, in that order.
pub open spec fn integ_body(vmax: int, dt: int, b: BodyModel) -> BodyModel {
    if b.frozen {
        b
    } else {
        pos_update(dt, vel_update(vmax, dt, accel_update(b)))
    }
}

/// Pairwise collision response: on overlap (against either body's own
/// doubled radius) the two velocities are swapped and both scaled by the
/// friction fraction; a separated pair is left untouched.
pub open spec fn collide_pair(fnum: int, fden: int, a: BodyModel, b: BodyModel) -> (
    BodyModel,
    BodyModel,
) {
    let d2 = dist_sq(a, b);
    if d2 < 4 * a.radius * a.radius || d2 < 4 * b.radius * b.radius {
        (
            BodyModel { vx: mdiv(b.vx, fnum, fden), vy: mdiv(b.vy, fnum, fden), ..a },
            BodyModel { vx: mdiv(a.vx, fnum, fden), vy: mdiv(a.vy, fnum, fden), ..b },
        )
    } else {
        (a, b)
    }
}

/// A pair separated by at least twice the larger radius is a fixed point of
/// the collision resolver: both bodies come out exactly as they went in.
pub proof fn lemma_separated_pair_unchanged(fnum: int, fden: int, a: BodyModel, b: BodyModel)
    requires
        a.radius >= 0,
        b.radius >= 0,
        dist_sq(a, b) >= 4 * (if a.radius >= b.radius {
            a.radius
        } else {
            b.radius
        }) * (if a.radius >= b.radius {
            a.radius
        } else {
            b.radius
        }),
    ensures
        collide_pair(fnum, fden, a, b) == (a, b),
{
    let m = if a.radius >= b.radius {
        a.radius
    } else {
        b.radius
    };
    assert(4 * a.radius * a.radius <= 4 * m * m) by (nonlinear_arith)
        requires
            0 <= a.radius <= m,
    ;
    assert(4 * b.radius * b.radius <= 4 * m * m) by (nonlinear_arith)
        requires
            0 <= b.radius <= m,
    ;
}

/// Clamp an integer into `[lo, hi]`.
pub open spec fn clamp_i(x: int, lo: int, hi: int) -> int {
    if x < lo {
        lo
    } else if x > hi {
        hi
    } else {
        x
    }
}

/// Boundary reflection on one axis: within `radius` of either edge, the
/// velocity component is negated and friction-scaled and the coordinate is
/// clamped into `[radius, extent - radius]`.
pub open spec fn bounce_axis(extent: int, fnum: int, fden: int, radius: int, p: int, v: int) -> (
    int,
    int,
) {
    if p <= radius || p >= extent - radius {
        (clamp_i(p, radius, extent - radius), -mdiv(v, fnum, fden))
    } else {
        (p, v)
    }
}

/// Boundary reflection of a body against the arena, both axes independently.
pub open spec fn bounce(width: int, height: int, fnum: int, fden: int, b: BodyModel) -> BodyModel {
    let cx = bounce_axis(width, fnum, fden, b.radius, b.px, b.vx);
    let cy = bounce_axis(height, fnum, fden, b.radius, b.py, b.vy);
    BodyModel { px: cx.0, vx: cx.1, py: cy.0, vy: cy.1, ..b }
}

/// Rescaling a vector of norm at most `n` by `m / n` (rounded toward zero)
/// leaves its squared norm within `m^2`.
pub proof fn lemma_clamp_norm(xx: int, yy: int, m: int, n: int, qx: int, qy: int)
    by (nonlinear_arith)
    requires
        0 <= xx,
        0 <= yy,
        0 <= m,
        1 <= n,
        xx * xx + yy * yy <= n * n,
        0 <= qx,
        0 <= qy,
        qx * n <= xx * m,
        qy * n <= yy * m,
    ensures
        qx * qx + qy * qy <= m * m,
{
    assert(qx * qx * (n * n) <= xx * xx * (m * m));
    assert(qy * qy * (n * n) <= yy * yy * (m * m));
    assert((qx * qx + qy * qy) * (n * n) <= (xx * xx + yy * yy) * (m * m));
    assert((xx * xx + yy * yy) * (m * m) <= (n * n) * (m * m));
}

/// The clamp caps the velocity's squared norm at `vmax^2` for every input
/// velocity whatsoever: however large a force the integrator accumulated,
/// the body leaves the velocity update no faster than the configured cap.
pub proof fn lemma_clamp_vel_norm(vmax: int, wx: int, wy: int)
    requires
        vmax >= 0,
    ensures
        ({
            let c = clamp_vel(vmax, wx, wy);
            c.0 * c.0 + c.1 * c.1 <= vmax * vmax
        }),
{
    let n2 = wx * wx + wy * wy;
    lemma_abs_sq(wx);
    lemma_abs_sq(wy);
    if n2 <= vmax * vmax {
    } else {
        let n = sqrt_ceil(n2);
        lemma_sqrt_floor_bounds(n2);
        lemma_sqrt_floor_at_least(n2, 1);
        let qx = mdiv(wx, vmax, n);
        let qy = mdiv(wy, vmax, n);
        lemma_mdiv_bound(wx, vmax, n, sabs(wx), vmax);
        lemma_mdiv_bound(wy, vmax, n, sabs(wy), vmax);
        lemma_fundamental_div_mod(sabs(wx) * vmax, n);
        lemma_fundamental_div_mod(sabs(wy) * vmax, n);
        vstd::arithmetic::div_mod::lemma_mod_bound(sabs(wx) * vmax, n);
        vstd::arithmetic::div_mod::lemma_mod_bound(sabs(wy) * vmax, n);
        lemma_mul_is_commutative(n, sabs(qx));
        lemma_mul_is_commutative(n, sabs(qy));
        lemma_clamp_norm(sabs(wx), sabs(wy), vmax, n, sabs(qx), sabs(qy));
        lemma_abs_sq(qx);
        lemma_abs_sq(qy);
    }
}

impl Body {
    /// A body pinned at `initial_pos`: mass 1000 units, radius 10 units,
    /// at rest, no force, not frozen.
    pub fn new(initial_pos: Vec2) -> (b: Body)
        requires
            sabs(initial_pos.x as int) <= POS_LIMIT as int,
            sabs(initial_pos.y as int) <= POS_LIMIT as int,
        ensures
            b@ == (BodyModel {
                px: initial_pos.x as int,
                py: initial_pos.y as int,
                vx: 0,
                vy: 0,
                ax: 0,
                ay: 0,
                fx: 0,
                fy: 0,
                mass: 1_000_000,
                radius: 10_000,
                frozen: false,
            }),
            body_wf(b@),
    {
        Body {
            position: initial_pos,
            velocity: Vec2::zero(),
            acceleration: Vec2::zero(),
            force: Vec2::zero(),
            mass: 1_000_000,
            radius: 10_000,
            frozen: false,
        }
    }

    /// Euclidean distance to `other_body`, rounded down.
    pub fn get_distance(&self, other_body: &Body) -> (r: i64)
        requires
            body_wf(self@),
            body_wf(other_body@),
        ensures
            r as int == sqrt_floor(dist_sq(self@, other_body@)),
    {
        let d2 = dist_sq_exec(self, other_body);
        let du = isqrt(d2 as u128);
        proof {
            lemma_square_order(du as int, 300_000_000_000_000_000);
        }
        du as i64
    }

    /// The gravitational force `other_body` exerts on `self`: the exact
    /// fixed-point inverse-square law of `pair_force`, zero for an
    /// overlapping pair.
    pub fn calculate_force(&self, other_body: &Body, params: &Params) -> (r: Vec2)
        requires
            params.wf(),
            body_wf(self@),
            body_wf(other_body@),
        ensures
            r.x as int == pair_force(params.g as int, self@, other_body@).0,
            r.y as int == pair_force(params.g as int, self@, other_body@).1,
            sabs(r.x as int) <= PAIR_FORCE_LIMIT as int,
            sabs(r.y as int) <= PAIR_FORCE_LIMIT as int,
    {
        let dx64: i64 = other_body.position.x - self.position.x;
        let dy64: i64 = other_body.position.y - self.position.y;
        let d2 = dist_sq_exec(self, other_body);
        let t: i64 = 2 * self.radius;
        proof {
            lemma_sq_le(t as int, 200_000);
            lemma_double_sq(t as int, self@.radius);
            assert(4 * self@.radius * self@.radius >= 4_000_000) by (nonlinear_arith)
                requires
                    self@.radius >= 1_000,
            ;
        }
        let thr: i128 = (t as i128) * (t as i128);
        if d2 < thr {
            Vec2::zero()
        } else {
            proof {
                lemma_mul_upper_bound(params.g as int, G_MAX as int, self@.mass, MASS_MAX as int);
                vstd::arithmetic::mul::lemma_mul_nonnegative(params.g as int, self@.mass);
            }
            let gm: i64 = params.g * self.mass;
            proof {
                lemma_mul_upper_bound(gm as int, 20_000_000_000, other_body@.mass, MASS_MAX as int);
                vstd::arithmetic::mul::lemma_mul_nonnegative(gm as int, other_body@.mass);
            }
            let gmm: i64 = gm * other_body.mass;
            let magq: u128 = (gmm as u128) / (d2 as u128);
            proof {
                lemma_div_pos_is_pos(gmm as int, d2 as int);
                lemma_div_is_ordered_by_denominator(gmm as int, 4_000_000, d2 as int);
                lemma_div_is_ordered(gmm as int, 40_000_000_000_000_000, 4_000_000);
                lemma_div_multiples_vanish(PAIR_FORCE_LIMIT as int, 4_000_000);
                assert(40_000_000_000_000_000int == 4_000_000int * (PAIR_FORCE_LIMIT as int));
            }
            let mag: i64 = magq as i64;
            let du: u128 = isqrt(d2 as u128);
            proof {
                lemma_sqrt_floor_at_least(d2 as int, 2_000);
                lemma_square_order(du as int, 300_000_000_000_000_000);
                lemma_abs_sq(dx64 as int);
                lemma_abs_sq(dy64 as int);
                crate::num::lemma_abs_le_sqrt_floor(dx64 as int, d2 as int);
                crate::num::lemma_abs_le_sqrt_floor(dy64 as int, d2 as int);
            }
            let d: i64 = du as i64;
            proof {
                lemma_mul_inequality(sabs(dx64 as int), d as int, mag as int);
                lemma_mul_inequality(sabs(dy64 as int), d as int, mag as int);
                lemma_div_is_ordered(sabs(dx64 as int) * (mag as int), (d as int) * (mag as int), d as int);
                lemma_div_is_ordered(sabs(dy64 as int) * (mag as int), (d as int) * (mag as int), d as int);
                lemma_mul_is_commutative(d as int, mag as int);
                lemma_div_multiples_vanish(mag as int, d as int);
                lemma_div_pos_is_pos(sabs(dx64 as int) * (mag as int), d as int);
                lemma_div_pos_is_pos(sabs(dy64 as int) * (mag as int), d as int);
            }
            let rx = mul_div(dx64, mag, d);
            let ry = mul_div(dy64, mag, d);
            Vec2 { x: rx, y: ry }
        }
    }

    /// Overwrite the accumulated force with the pull of `other_body` alone.
    pub fn update_force(&mut self, other_body: &Body, params: &Params)
        requires
            params.wf(),
            body_wf(old(self)@),
            body_wf(other_body@),
        ensures
            final(self)@ == (BodyModel {
                fx: pair_force(params.g as int, old(self)@, other_body@).0,
                fy: pair_force(params.g as int, old(self)@, other_body@).1,
                ..old(self)@
            }),
            body_wf(final(self)@),
    {
        let f = self.calculate_force(other_body, params);
        self.force = f;
    }

    /// `acceleration = force / mass`, componentwise.
    pub fn update_acceleration(&mut self)
        requires
            body_wf(old(self)@),
        ensures
            final(self)@ == accel_update(old(self)@),
            body_wf(final(self)@),
    {
        proof {
            lemma_acc_in_range(old(self)@.fx, old(self)@.mass);
            lemma_acc_in_range(old(self)@.fy, old(self)@.mass);
        }
        self.acceleration.x = mul_div(self.force.x, SCALE, self.mass);
        self.acceleration.y = mul_div(self.force.y, SCALE, self.mass);
    }

    /// `velocity += acceleration * dt`, then clamp the magnitude to the
    /// configured cap, direction-preserving: afterwards the squared norm
    /// never exceeds `max_velocity^2`, whatever force was accumulated.
    pub fn update_velocity(&mut self, dt: i64, params: &Params)
        requires
            body_wf(old(self)@),
            params.wf(),
            0 <= dt <= DT_MAX,
        ensures
            final(self)@ == vel_update(params.max_velocity as int, dt as int, old(self)@),
            body_wf(final(self)@),
            final(self)@.vx * final(self)@.vx + final(self)@.vy * final(self)@.vy <= (
            params.max_velocity as int) * (params.max_velocity as int),
    {
        proof {
            lemma_dv_in_range(old(self)@.ax, dt as int);
            lemma_dv_in_range(old(self)@.ay, dt as int);
        }
        let dvx = mul_div(self.acceleration.x, dt, SCALE);
        let dvy = mul_div(self.acceleration.y, dt, SCALE);
        let wx: i64 = self.velocity.x + dvx;
        let wy: i64 = self.velocity.y + dvy;
        proof {
            lemma_sq_le(wx as int, 1_001_000_000_000_000);
            lemma_sq_le(wy as int, 1_001_000_000_000_000);
            lemma_sq_le(params.max_velocity as int, VMAX_MAX as int);
        }
        let n2: i128 = (wx as i128) * (wx as i128) + (wy as i128) * (wy as i128);
        let vm: i64 = params.max_velocity;
        let vm2: i128 = (vm as i128) * (vm as i128);
        if n2 <= vm2 {
            proof {
                lemma_sq_order_general(wx as int, vm as int);
                lemma_sq_order_general(wy as int, vm as int);
            }
            self.velocity.x = wx;
            self.velocity.y = wy;
        } else {
            let nu: u128 = isqrt_ceil(n2 as u128);
            proof {
                lemma_sqrt_floor_bounds(n2 as int);
                lemma_square_order(sqrt_floor(n2 as int), 2_000_000_000_000_000);
                lemma_abs_sq(wx as int);
                lemma_abs_sq(wy as int);
                lemma_square_order(sabs(wx as int), nu as int);
                lemma_square_order(sabs(wy as int), nu as int);
            }
            let nd: i64 = nu as i64;
            proof {
                lemma_mul_inequality(sabs(wx as int), nd as int, vm as int);
                lemma_mul_inequality(sabs(wy as int), nd as int, vm as int);
                lemma_div_is_ordered(sabs(wx as int) * (vm as int), (nd as int) * (vm as int), nd as int);
                lemma_div_is_ordered(sabs(wy as int) * (vm as int), (nd as int) * (vm as int), nd as int);
                lemma_mul_is_commutative(nd as int, vm as int);
                lemma_div_multiples_vanish(vm as int, nd as int);
                lemma_div_pos_is_pos(sabs(wx as int) * (vm as int), nd as int);
                lemma_div_pos_is_pos(sabs(wy as int) * (vm as int), nd as int);
            }
            let cx = mul_div(wx, vm, nd);
            let cy = mul_div(wy, vm, nd);
            proof {
                lemma_fundamental_div_mod(sabs(wx as int) * (vm as int), nd as int);
                lemma_fundamental_div_mod(sabs(wy as int) * (vm as int), nd as int);
                vstd::arithmetic::div_mod::lemma_mod_bound(sabs(wx as int) * (vm as int), nd as int);
                vstd::arithmetic::div_mod::lemma_mod_bound(sabs(wy as int) * (vm as int), nd as int);
                lemma_clamp_norm(
                    sabs(wx as int),
                    sabs(wy as int),
                    vm as int,
                    nd as int,
                    sabs(cx as int),
                    sabs(cy as int),
                );
                lemma_abs_sq(cx as int);
                lemma_abs_sq(cy as int);
                lemma_abs_sq(wx as int);
                lemma_abs_sq(wy as int);
            }
            self.velocity.x = cx;
            self.velocity.y = cy;
        }
    }

    /// `position += velocity * dt`, componentwise.
    pub fn update_position(&mut self, dt: i64)
        requires
            body_wf(old(self)@),
            0 <= dt <= DT_MAX,
            sabs(old(self)@.px) <= POS_LIMIT - POS_DRIFT,
            sabs(old(self)@.py) <= POS_LIMIT - POS_DRIFT,
        ensures
            final(self)@ == pos_update(dt as int, old(self)@),
            body_wf(final(self)@),
    {
        proof {
            lemma_mdiv_bound(old(self)@.vx, dt as int, SCALE as int, VEL_LIMIT as int, DT_MAX as int);
            lemma_mdiv_bound(old(self)@.vy, dt as int, SCALE as int, VEL_LIMIT as int, DT_MAX as int);
        }
        let dpx = mul_div(self.velocity.x, dt, SCALE);
        let dpy = mul_div(self.velocity.y, dt, SCALE);
        self.position.x = self.position.x + dpx;
        self.position.y = self.position.y + dpy;
    }

    /// One kinematic update: a frozen body keeps its position and velocity
    /// exactly, whatever force was computed for it; any other body runs
    /// acceleration, clamped velocity, then position.
    pub fn update(&mut self, dt: i64, params: &Params)
        requires
            body_wf(old(self)@),
            params.wf(),
            0 <= dt <= DT_MAX,
            sabs(old(self)@.px) <= POS_LIMIT - POS_DRIFT,
            sabs(old(self)@.py) <= POS_LIMIT - POS_DRIFT,
        ensures
            final(self)@ == integ_body(params.max_velocity as int, dt as int, old(self)@),
            body_wf(final(self)@),
            old(self)@.frozen ==> final(self)@ == old(self)@,
    {
        if !self.frozen {
            self.update_acceleration();
            self.update_velocity(dt, params);
            self.update_position(dt);
        }
    }

    /// Pairwise collision response: on overlap, swap the two velocities and
    /// scale both by the friction fraction; a separated pair is untouched.
    pub fn check_and_resolve_collision(&mut self, other_body: &mut Body, params: &Params)
        requires
            body_wf(old(self)@),
            body_wf(old(other_body)@),
            params.wf(),
        ensures
            final(self)@ == collide_pair(
                params.friction_num as int,
                params.friction_den as int,
                old(self)@,
                old(other_body)@,
            ).0,
            final(other_body)@ == collide_pair(
                params.friction_num as int,
                params.friction_den as int,
                old(self)@,
                old(other_body)@,
            ).1,
            body_wf(final(self)@),
            body_wf(final(other_body)@),
    {
        let d2 = dist_sq_exec(self, other_body);
        let ta: i64 = 2 * self.radius;
        let tb: i64 = 2 * other_body.radius;
        proof {
            lemma_sq_le(ta as int, 200_000);
            lemma_sq_le(tb as int, 200_000);
            lemma_double_sq(ta as int, old(self)@.radius);
            lemma_double_sq(tb as int, old(other_body)@.radius);
        }
        let thra: i128 = (ta as i128) * (ta as i128);
        let thrb: i128 = (tb as i128) * (tb as i128);
        if d2 < thra || d2 < thrb {
            proof {
                lemma_friction_shrinks(old(self)@.vx, params.friction_num as int, params.friction_den as int);
                lemma_friction_shrinks(old(self)@.vy, params.friction_num as int, params.friction_den as int);
                lemma_friction_shrinks(old(other_body)@.vx, params.friction_num as int, params.friction_den as int);
                lemma_friction_shrinks(old(other_body)@.vy, params.friction_num as int, params.friction_den as int);
            }
            let tvx = self.velocity.x;
            let tvy = self.velocity.y;
            self.velocity.x = mul_div(other_body.velocity.x, params.friction_num, params.friction_den);
            self.velocity.y = mul_div(other_body.velocity.y, params.friction_num, params.friction_den);
            other_body.velocity.x = mul_div(tvx, params.friction_num, params.friction_den);
            other_body.velocity.y = mul_div(tvy, params.friction_num, params.friction_den);
        }
    }

    /// Boundary reflection against the arena: on each axis independently, a
    /// body within `radius` of an edge has that velocity component negated
    /// and friction-scaled and its coordinate clamped; afterwards both
    /// coordinates lie in `[radius, extent - radius]`.
    pub fn check_boundary_collisions(&mut self, params: &Params)
        requires
            body_wf(old(self)@),
            params.wf(),
        ensures
            final(self)@ == bounce(
                params.width as int,
                params.height as int,
                params.friction_num as int,
                params.friction_den as int,
                old(self)@,
            ),
            body_wf(final(self)@),
            old(self)@.radius <= final(self)@.px <= params.width - old(self)@.radius,
            old(self)@.radius <= final(self)@.py <= params.height - old(self)@.radius,
    {
        proof {
            lemma_friction_shrinks(old(self)@.vx, params.friction_num as int, params.friction_den as int);
            lemma_friction_shrinks(old(self)@.vy, params.friction_num as int, params.friction_den as int);
        }
        if self.position.x <= self.radius || self.position.x >= params.width - self.radius {
            let nv = mul_div(self.velocity.x, params.friction_num, params.friction_den);
            self.velocity.x = -nv;
            self.position.x = clamp_exec(self.position.x, self.radius, params.width - self.radius);
        }
        if self.position.y <= self.radius || self.position.y >= params.height - self.radius {
            let nv = mul_div(self.velocity.y, params.friction_num, params.friction_den);
            self.velocity.y = -nv;
            self.position.y = clamp_exec(self.position.y, self.radius, params.height - self.radius);
        }
    }
}

/// Squared distance between two well-formed bodies, exactly `dist_sq`.
pub(crate) fn dist_sq_exec(a: &Body, b: &Body) -> (r: i128)
    requires
        body_wf(a@),
        body_wf(b@),
    ensures
        r as int == dist_sq(a@, b@),
        0 <= r <= 80_000_000_000_000_000_000_000_000_000_000_000i128,
{
    let dx: i128 = (b.position.x as i128) - (a.position.x as i128);
    let dy: i128 = (b.position.y as i128) - (a.position.y as i128);
    proof {
        lemma_sq_le(dx as int, 200_000_000_000_000_000);
        lemma_sq_le(dy as int, 200_000_000_000_000_000);
    }
    dx * dx + dy * dy
}

/// Clamp `x` into `[lo, hi]`, exactly `clamp_i`.
pub(crate) fn clamp_exec(x: i64, lo: i64, hi: i64) -> (r: i64)
    requires
        lo <= hi,
    ensures
        r as int == clamp_i(x as int, lo as int, hi as int),
{
    if x < lo {
        lo
    } else if x > hi {
        hi
    } else {
        x
    }
}

/// A doubled radius squared is four radius-squares.
pub(crate) proof fn lemma_double_sq(t: int, r: int)
    by (nonlinear_arith)
    requires
        t == 2 * r,
    ensures
        t * t == 4 * r * r,
{
}

/// `|v| <= c` gives `v * v <= c * c`.
pub(crate) proof fn lemma_sq_le(v: int, c: int)
    by (nonlinear_arith)
    requires
        0 <= c,
        -c <= v <= c,
    ensures
        0 <= v * v <= c * c,
{
}

/// `v^2 <= m^2` bounds `|v|` by `m`, for `m >= 0`.
proof fn lemma_sq_order_general(v: int, m: int)
    requires
        0 <= m,
        v * v <= m * m,
    ensures
        sabs(v) <= m,
{
    lemma_abs_sq(v);
    lemma_square_order(sabs(v), m);
}

/// `sabs(v)^2 == v^2`.
pub(crate) proof fn lemma_abs_sq(v: int)
    by (nonlinear_arith)
    ensures
        sabs(v) * sabs(v) == v * v,
        v * v >= 0,
        sabs(v) >= 0,
{
}

/// An acceleration component stays within `ACC_LIMIT` and the multiply-divide
/// computing it stays within `i64`.
proof fn lemma_acc_in_range(f: int, mass: int)
    requires
        sabs(f) <= FORCE_LIMIT as int,
        MASS_MIN as int <= mass,
    ensures
        (sabs(f) * (SCALE as int)) / mass <= ACC_LIMIT as int,
        sabs(mdiv(f, SCALE as int, mass)) <= ACC_LIMIT as int,
{
    let m = sabs(f);
    lemma_mul_inequality(m, FORCE_LIMIT as int, SCALE as int);
    lemma_div_is_ordered_by_denominator(m * (SCALE as int), SCALE as int, mass);
    lemma_div_is_ordered(
        m * (SCALE as int),
        (FORCE_LIMIT as int) * (SCALE as int),
        SCALE as int,
    );
    lemma_mul_is_commutative(FORCE_LIMIT as int, SCALE as int);
    lemma_div_multiples_vanish(FORCE_LIMIT as int, SCALE as int);
    lemma_mdiv_bound(f, SCALE as int, mass, FORCE_LIMIT as int, SCALE as int);
    lemma_div_is_ordered_by_denominator(m * (SCALE as int), SCALE as int, mass);
    assert(sabs(mdiv(f, SCALE as int, mass)) == (m * (SCALE as int)) / mass);
}

/// A velocity increment `acceleration * dt / SCALE` stays within 10^15.
proof fn lemma_dv_in_range(a: int, dt: int)
    requires
        sabs(a) <= ACC_LIMIT as int,
        0 <= dt <= DT_MAX as int,
    ensures
        (sabs(a) * dt) / (SCALE as int) <= 1_000_000_000_000_000,
        sabs(mdiv(a, dt, SCALE as int)) <= 1_000_000_000_000_000,
{
    let m = sabs(a);
    lemma_mul_upper_bound(m, ACC_LIMIT as int, dt, DT_MAX as int);
    lemma_div_is_ordered(m * dt, (ACC_LIMIT as int) * (DT_MAX as int), SCALE as int);
    assert((ACC_LIMIT as int) * (DT_MAX as int) == (SCALE as int) * 1_000_000_000_000_000);
    lemma_div_multiples_vanish(1_000_000_000_000_000, SCALE as int);
    lemma_mdiv_bound(a, dt, SCALE as int, ACC_LIMIT as int, DT_MAX as int);
    assert(sabs(mdiv(a, dt, SCALE as int)) == (m * dt) / (SCALE as int));
}

/// Friction scaling by `num / den < 1` never grows a velocity component.
proof fn lemma_friction_shrinks(v: int, fnum: int, fden: int)
    requires
        0 <= fnum < fden,
    ensures
        (sabs(v) * fnum) / fden <= sabs(v),
        sabs(mdiv(v, fnum, fden)) <= sabs(v),
{
    let m = sabs(v);
    lemma_mul_inequality(fnum, fden, m);
    lemma_mul_is_commutative(fnum, m);
    lemma_mul_is_commutative(fden, m);
    lemma_div_is_ordered(m * fnum, m * fden, fden);
    lemma_mul_is_commutative(m, fden);
    lemma_div_multiples_vanish(m, fden);
    lemma_mdiv_bound(v, fnum, fden, m, fnum);
    assert(sabs(mdiv(v, fnum, fden)) == (m * fnum) / fden);
}

} // verus!
