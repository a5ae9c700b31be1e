//! The simulation controller: it owns the body collection, runs one step
//! (forces, substepped integration, pairwise collisions, boundary
//! collisions), and applies the interactive commands (spawn, drag, freeze,
//! clear) between steps.

use vstd::prelude::*;

verus! {

use crate::body::{
    Body, BodyModel, Vec2, body_wf, bounce, clamp_exec, clamp_i, collide_pair, lemma_sq_le,
};
use crate::field::{all_pos_within, all_wf, fviews, net_force, sub_dt, substeps_pass, views};
use crate::num::{mul_div, sabs};
use crate::params::{DT_MAX, EXTENT_MAX, N_MAX, POS_SOFT, Params, VEL_LIMIT};
use vstd::arithmetic::div_mod::{lemma_div_is_ordered, lemma_div_multiples_vanish};
use vstd::pervasive::VecAdditionalExecFns;

/// Resolve the pairs `(i, i+1) .. (i, len-1)` in order, starting from `s`.
pub open spec fn collide_row(fnum: int, fden: int, s: Seq<BodyModel>, i: int, j: int) -> Seq<
    BodyModel,
>
    decreases s.len() - j,
    via collide_row_decreases
{
    if !(0 <= j < s.len()) || !(0 <= i < s.len()) {
        s
    } else {
        let p = collide_pair(fnum, fden, s[i], s[j]);
        collide_row(fnum, fden, s.update(i, p.0).update(j, p.1), i, j + 1)
    }
}

#[via_fn]
proof fn collide_row_decreases(fnum: int, fden: int, s: Seq<BodyModel>, i: int, j: int) {
    if 0 <= j < s.len() && 0 <= i < s.len() {
        let p = collide_pair(fnum, fden, s[i], s[j]);
        assert(s.update(i, p.0).len() == s.len());
        assert(s.update(i, p.0).update(j, p.1).len() == s.len());
    }
}

/// Resolve all rows `i, i+1, .., n-1` in order: the single forward pass over
/// all unordered pairs, with no re-checking.
pub open spec fn collide_from(fnum: int, fden: int, n: int, s: Seq<BodyModel>, i: int) -> Seq<
    BodyModel,
>
    decreases n - i,
{
    if i >= n {
        s
    } else {
        collide_from(fnum, fden, n, collide_row(fnum, fden, s, i, i + 1), i + 1)
    }
}

/// The whole pairwise collision pass over a collection.
pub open spec fn collide_all(fnum: int, fden: int, s: Seq<BodyModel>) -> Seq<BodyModel> {
    collide_from(fnum, fden, s.len() as int, s, 0)
}

/// The boundary pass: every body reflected against the arena independently.
pub open spec fn bounce_all(p: Params, s: Seq<BodyModel>) -> Seq<BodyModel> {
    Seq::new(
        s.len(),
        |i: int|
            bounce(
                p.width as int,
                p.height as int,
                p.friction_num as int,
                p.friction_den as int,
                s[i],
            ),
    )
}

/// One whole simulation step: per-body net forces from the starting
/// snapshot, substepped integration with that force array, the pairwise
/// collision pass, then the boundary pass.
pub open spec fn step_spec(p: Params, s: Seq<BodyModel>, dt: int, substeps: nat) -> Seq<
    BodyModel,
> {
    let fs = Seq::new(s.len(), |i: int| net_force(p.g as int, s, i));
    let s1 = substeps_pass(p.max_velocity as int, sub_dt(dt, substeps as int), s, fs, substeps);
    let s2 = collide_all(p.friction_num as int, p.friction_den as int, s1);
    bounce_all(p, s2)
}

/// All fields of `x` besides the velocity agree with `y`.
pub open spec fn same_but_velocity(x: BodyModel, y: BodyModel) -> bool {
    x == (BodyModel { vx: x.vx, vy: x.vy, ..y })
}

/// The pairwise collision pass, as the controller runs it: one forward scan
/// over all pairs `i < j`, each resolved exactly once against the current
/// state, with no iteration to a fixed point. Only velocities change.
pub fn resolve_collisions(params: &Params, bodies: &mut Vec<Body>)
    requires
        params.wf(),
        all_wf(views(old(bodies)@)),
    ensures
        views(final(bodies)@) == collide_all(
            params.friction_num as int,
            params.friction_den as int,
            views(old(bodies)@),
        ),
        all_wf(views(final(bodies)@)),
        final(bodies)@.len() == old(bodies)@.len(),
        forall|k: int|
            0 <= k < final(bodies)@.len() ==> same_but_velocity(
                #[trigger] views(final(bodies)@)[k],
                views(old(bodies)@)[k],
            ),
{
    let ghost s0 = views(bodies@);
    let ghost fnum = params.friction_num as int;
    let ghost fden = params.friction_den as int;
    let n = bodies.len();
    proof {
        assert(views(bodies@).len() == bodies@.len());
    }
    let mut i: usize = 0;
    while i < n
        invariant
            params.wf(),
            n == bodies@.len(),
            i <= n,
            s0.len() == n,
            fnum == params.friction_num as int,
            fden == params.friction_den as int,
            s0 == views(old(bodies)@),
            all_wf(views(bodies@)),
            collide_from(fnum, fden, n as int, s0, 0) == collide_from(
                fnum,
                fden,
                n as int,
                views(bodies@),
                i as int,
            ),
            forall|k: int|
                0 <= k < n ==> same_but_velocity(#[trigger] views(bodies@)[k], s0[k]),
        decreases n - i,
    {
        let mut j: usize = i + 1;
        while j < n
            invariant
                params.wf(),
                n == bodies@.len(),
                i < n,
                i < j <= n,
                s0.len() == n,
                fnum == params.friction_num as int,
                fden == params.friction_den as int,
                s0 == views(old(bodies)@),
                all_wf(views(bodies@)),
                collide_from(fnum, fden, n as int, s0, 0) == collide_from(
                    fnum,
                    fden,
                    n as int,
                    collide_row(fnum, fden, views(bodies@), i as int, j as int),
                    i as int + 1,
                ),
                forall|k: int|
                    0 <= k < n ==> same_but_velocity(#[trigger] views(bodies@)[k], s0[k]),
            decreases n - j,
        {
            let ghost prev = views(bodies@);
            let mut a: Body = bodies[i];
            let mut c: Body = bodies[j];
            proof {
                assert(prev[i as int] == bodies@[i as int]@);
                assert(prev[j as int] == bodies@[j as int]@);
            }
            a.check_and_resolve_collision(&mut c, params);
            bodies.set(i, a);
            bodies.set(j, c);
            proof {
                let p = collide_pair(fnum, fden, prev[i as int], prev[j as int]);
                let mid = prev.update(i as int, p.0).update(j as int, p.1);
                assert(views(bodies@) =~= mid);
                assert(collide_row(fnum, fden, prev, i as int, j as int) == collide_row(
                    fnum,
                    fden,
                    mid,
                    i as int,
                    j as int + 1,
                ));
            }
            j = j + 1;
        }
        proof {
            assert(collide_row(fnum, fden, views(bodies@), i as int, n as int) == views(bodies@));
        }
        i = i + 1;
    }
    proof {
        assert(collide_from(fnum, fden, n as int, views(bodies@), n as int) == views(bodies@));
        assert(views(final(bodies)@) == collide_all(fnum, fden, s0));
    }
}

/// The boundary pass, as the controller runs it: every body reflected
/// against the arena independently; afterwards every coordinate lies in
/// `[radius, extent - radius]`.
pub fn resolve_boundaries(params: &Params, bodies: &mut Vec<Body>)
    requires
        params.wf(),
        all_wf(views(old(bodies)@)),
    ensures
        views(final(bodies)@) == bounce_all(*params, views(old(bodies)@)),
        all_wf(views(final(bodies)@)),
        final(bodies)@.len() == old(bodies)@.len(),
        all_pos_within(views(final(bodies)@), EXTENT_MAX as int),
{
    let n = bodies.len();
    let ghost s0 = views(bodies@);
    proof {
        assert(views(bodies@).len() == bodies@.len());
    }
    let mut k: usize = 0;
    while k < n
        invariant
            params.wf(),
            n == bodies@.len(),
            k <= n,
            s0.len() == n,
            s0 == views(old(bodies)@),
            all_wf(s0),
            forall|i: int| k <= i < n ==> #[trigger] bodies@[i] == old(bodies)@[i],
            forall|i: int|
                0 <= i < k ==> (#[trigger] bodies@[i])@ == bounce_all(*params, s0)[i] && body_wf(
                    bodies@[i]@,
                ) && sabs(bodies@[i]@.px) <= EXTENT_MAX as int && sabs(bodies@[i]@.py)
                    <= EXTENT_MAX as int,
        decreases n - k,
    {
        let mut b: Body = bodies[k];
        proof {
            assert(s0[k as int] == views(old(bodies)@)[k as int]);
            assert(views(old(bodies)@)[k as int] == old(bodies)@[k as int]@);
        }
        b.check_boundary_collisions(params);
        bodies.set(k, b);
        proof {
            assert(bodies@[k as int] == b);
        }
        k = k + 1;
    }
    proof {
        assert(views(bodies@).len() == bodies@.len());
        assert forall|i: int| 0 <= i < n implies views(bodies@)[i] == bounce_all(*params, s0)[i]
            && body_wf(#[trigger] views(bodies@)[i]) && sabs(views(bodies@)[i].px)
            <= EXTENT_MAX as int && sabs(views(bodies@)[i].py) <= EXTENT_MAX as int by {
            assert(views(bodies@)[i] == bodies@[i]@);
        }
        assert(views(bodies@) =~= bounce_all(*params, s0));
    }
}

/// One body matched by an interactive command aimed at `(tx, ty)`: within
/// twice its own radius of the target.
pub open spec fn near_target(tx: int, ty: int, b: BodyModel) -> bool {
    (tx - b.px) * (tx - b.px) + (ty - b.py) * (ty - b.py) < 4 * b.radius * b.radius
}

/// The drag command on one body: a matched body is moved to the target and
/// stopped; any other is untouched.
pub open spec fn drag_one(tx: int, ty: int, b: BodyModel) -> BodyModel {
    if near_target(tx, ty, b) {
        BodyModel { px: tx, py: ty, vx: 0, vy: 0, ..b }
    } else {
        b
    }
}

/// The freeze command on one body: a matched body's frozen flag is flipped.
pub open spec fn toggle_one(tx: int, ty: int, b: BodyModel) -> BodyModel {
    if near_target(tx, ty, b) {
        BodyModel { frozen: !b.frozen, ..b }
    } else {
        b
    }
}

/// Relies on rand's `thread_rng` and `Rng::gen_range` over an inclusive
/// range: the draw lies inside the range (`gen_range` panics on an empty
/// range, which the precondition rules out). Nothing else is assumed of it.
#[verifier::external_body]
fn rand_range(lo: i64, hi: i64) -> (r: i64)
    requires
        lo <= hi,
    ensures
        lo <= r <= hi,
{
    rand::Rng::gen_range(&mut rand::thread_rng(), lo..=hi)
}

impl Body {
    /// A randomized body: pinned at the given position (clamped into the
    /// arena) when one is supplied, else placed uniformly in the arena; mass
    /// drawn from `[500, 1500]` units with `radius = mass / 150`, a small
    /// random initial velocity, no force, not frozen.
    pub fn random(params: &Params, initial_pos: Option<Vec2>) -> (b: Body)
        requires
            params.wf(),
        ensures
            body_wf(b@),
            b@.frozen == false,
            b@.ax == 0 && b@.ay == 0 && b@.fx == 0 && b@.fy == 0,
            match initial_pos {
                Some(q) => b@.px == clamp_i(q.x as int, 0, params.width as int) && b@.py
                    == clamp_i(q.y as int, 0, params.height as int),
                None => 0 <= b@.px <= params.width as int && 0 <= b@.py <= params.height as int,
            },
            -500 <= b@.vx <= 500 && -500 <= b@.vy <= 500,
            500_000 <= b@.mass <= 1_500_000,
            b@.radius == b@.mass / 150,
            sabs(b@.px) <= POS_SOFT as int,
            sabs(b@.py) <= POS_SOFT as int,
    {
        let (px, py): (i64, i64) = match initial_pos {
            Some(q) => (clamp_exec(q.x, 0, params.width), clamp_exec(q.y, 0, params.height)),
            None => (rand_range(0, params.width), rand_range(0, params.height)),
        };
        let vx = rand_range(-500, 500);
        let vy = rand_range(-500, 500);
        let mass = rand_range(500_000, 1_500_000);
        proof {
            lemma_div_is_ordered(150_000, mass as int, 150);
            lemma_div_multiples_vanish(1_000, 150);
            lemma_div_is_ordered(mass as int, 1_500_000, 150);
            lemma_div_multiples_vanish(10_000, 150);
            vstd::arithmetic::div_mod::lemma_div_pos_is_pos(mass as int, 150);
        }
        let radius = mul_div(mass, 1, 150);
        Body {
            position: Vec2 { x: px, y: py },
            velocity: Vec2 { x: vx, y: vy },
            acceleration: Vec2 { x: 0, y: 0 },
            force: Vec2 { x: 0, y: 0 },
            mass,
            radius,
            frozen: false,
        }
    }
}

/// Squared distance from a body to a target point, exactly the spec's.
fn target_dist_sq(b: &Body, tx: i64, ty: i64) -> (r: i128)
    requires
        body_wf(b@),
        sabs(tx as int) <= POS_SOFT as int,
        sabs(ty as int) <= POS_SOFT as int,
    ensures
        r as int == (tx as int - b@.px) * (tx as int - b@.px) + (ty as int - b@.py) * (ty as int
            - b@.py),
{
    let dx: i128 = (tx as i128) - (b.position.x as i128);
    let dy: i128 = (ty as i128) - (b.position.y as i128);
    proof {
        lemma_sq_le(dx as int, 200_000_000_000_000_000);
        lemma_sq_le(dy as int, 200_000_000_000_000_000);
    }
    dx * dx + dy * dy
}

/// The simulation controller: the tunable constants and the one flat body
/// collection, which only the controller mutates.
pub struct Sim {
    pub params: Params,
    pub bodies: Vec<Body>,
}

impl Sim {
    /// The controller's invariant: well-formed constants, a bounded
    /// collection of well-formed bodies, all positions within the range a
    /// step may start from.
    pub open spec fn wf(self) -> bool {
        &&& self.params.wf()
        &&& self.bodies@.len() <= N_MAX
        &&& all_wf(views(self.bodies@))
        &&& all_pos_within(views(self.bodies@), POS_SOFT as int)
    }

    /// An empty simulation under the given constants.
    pub fn new(params: Params) -> (s: Sim)
        requires
            params.wf(),
        ensures
            s.wf(),
            s.params == params,
            s.bodies@.len() == 0,
    {
        let s = Sim { params, bodies: Vec::new() };
        proof {
            assert(views(s.bodies@).len() == 0);
        }
        s
    }

    /// One simulation step over `dt`: net forces from the starting snapshot,
    /// `substeps` integration micro-steps reusing that force array, the
    /// pairwise collision pass, then the boundary pass, in that order.
    pub fn step(&mut self, dt: i64, substeps: usize)
        requires
            old(self).wf(),
            0 <= dt <= DT_MAX,
        ensures
            final(self).wf(),
            final(self).params == old(self).params,
            views(final(self).bodies@) == step_spec(
                old(self).params,
                views(old(self).bodies@),
                dt as int,
                substeps as nat,
            ),
    {
        let p: Params = self.params;
        let ghost s0 = views(self.bodies@);
        let forces = Body::calculate_forces(&p, &self.bodies);
        let ghost fs_spec = Seq::new(s0.len(), |i: int| net_force(p.g as int, s0, i));
        proof {
            assert(fviews(forces@).len() == forces@.len());
            assert forall|i: int| 0 <= i < forces@.len() implies fviews(forces@)[i]
                == fs_spec[i] by {
                assert(fviews(forces@)[i] == (forces@[i].x as int, forces@[i].y as int));
            }
            assert(fviews(forces@) =~= fs_spec);
        }
        Body::apply_forces_with_substeps(&p, &mut self.bodies, &forces, dt, substeps);
        proof {
            assert((VEL_LIMIT as int) * (dt as int) <= (VEL_LIMIT as int) * (DT_MAX as int));
        }
        resolve_collisions(&p, &mut self.bodies);
        resolve_boundaries(&p, &mut self.bodies);
        proof {
            assert(views(self.bodies@) =~= step_spec(
                old(self).params,
                s0,
                dt as int,
                substeps as nat,
            ));
        }
    }

    /// Append one randomized body: pinned at the given position (clamped
    /// into the arena) when one is supplied, else placed uniformly in the
    /// arena; mass drawn from `[500, 1500]` units with `radius = mass / 150`,
    /// and a small random initial velocity.
    pub fn spawn(&mut self, initial_pos: Option<Vec2>)
        requires
            old(self).wf(),
            old(self).bodies@.len() < N_MAX,
        ensures
            final(self).wf(),
            final(self).params == old(self).params,
            final(self).bodies@.len() == old(self).bodies@.len() + 1,
            forall|i: int|
                0 <= i < old(self).bodies@.len() ==> #[trigger] final(self).bodies@[i] == old(
                    self,
                ).bodies@[i],
            ({
                let nb = final(self).bodies@[old(self).bodies@.len() as int]@;
                &&& nb.frozen == false
                &&& nb.ax == 0 && nb.ay == 0 && nb.fx == 0 && nb.fy == 0
                &&& match initial_pos {
                    Some(q) => nb.px == clamp_i(q.x as int, 0, old(self).params.width as int)
                        && nb.py == clamp_i(q.y as int, 0, old(self).params.height as int),
                    None => 0 <= nb.px <= old(self).params.width as int && 0 <= nb.py <= old(
                        self,
                    ).params.height as int,
                }
                &&& -500 <= nb.vx <= 500 && -500 <= nb.vy <= 500
                &&& 500_000 <= nb.mass <= 1_500_000
                &&& nb.radius == nb.mass / 150
            }),
    {
        let nb = Body::random(&self.params, initial_pos);
        self.bodies.push(nb);
        proof {
            assert(views(self.bodies@).len() == self.bodies@.len());
            assert forall|i: int| 0 <= i < self.bodies@.len() implies body_wf(
                #[trigger] views(self.bodies@)[i],
            ) && sabs(views(self.bodies@)[i].px) <= POS_SOFT as int && sabs(
                views(self.bodies@)[i].py,
            ) <= POS_SOFT as int by {
                assert(views(self.bodies@)[i] == self.bodies@[i]@);
                if i < old(self).bodies@.len() {
                    assert(self.bodies@[i] == old(self).bodies@[i]);
                    assert(views(old(self).bodies@)[i] == old(self).bodies@[i]@);
                }
            }
        }
    }

    /// The drag command: every body within twice its own radius of `target`
    /// is moved to `target` and stopped; the rest are untouched.
    pub fn drag(&mut self, target: Vec2)
        requires
            old(self).wf(),
            sabs(target.x as int) <= POS_SOFT as int,
            sabs(target.y as int) <= POS_SOFT as int,
        ensures
            final(self).wf(),
            final(self).params == old(self).params,
            views(final(self).bodies@) == views(old(self).bodies@).map_values(
                |b: BodyModel| drag_one(target.x as int, target.y as int, b),
            ),
    {
        let n = self.bodies.len();
        let ghost s0 = views(self.bodies@);
        let ghost target_seq = s0.map_values(
            |b: BodyModel| drag_one(target.x as int, target.y as int, b),
        );
        proof {
            assert(views(self.bodies@).len() == self.bodies@.len());
        }
        let mut k: usize = 0;
        while k < n
            invariant
                old(self).wf(),
                self.params == old(self).params,
                n == self.bodies@.len(),
                k <= n,
                s0.len() == n,
                s0 == views(old(self).bodies@),
                sabs(target.x as int) <= POS_SOFT as int,
                sabs(target.y as int) <= POS_SOFT as int,
                target_seq == s0.map_values(
                    |b: BodyModel| drag_one(target.x as int, target.y as int, b),
                ),
                forall|i: int| k <= i < n ==> #[trigger] self.bodies@[i] == old(self).bodies@[i],
                forall|i: int|
                    0 <= i < k ==> (#[trigger] self.bodies@[i])@ == target_seq[i] && body_wf(
                        self.bodies@[i]@,
                    ) && sabs(self.bodies@[i]@.px) <= POS_SOFT as int && sabs(
                        self.bodies@[i]@.py,
                    ) <= POS_SOFT as int,
            decreases n - k,
        {
            let mut b: Body = self.bodies[k];
            proof {
                assert(s0[k as int] == views(old(self).bodies@)[k as int]);
                assert(views(old(self).bodies@)[k as int] == old(self).bodies@[k as int]@);
                assert(target_seq[k as int] == drag_one(target.x as int, target.y as int, s0[
                    k as int
                ]));
            }
            let d2 = target_dist_sq(&b, target.x, target.y);
            let t: i64 = 2 * b.radius;
            proof {
                lemma_sq_le(t as int, 200_000);
                crate::body::lemma_double_sq(t as int, b@.radius);
            }
            let thr: i128 = (t as i128) * (t as i128);
            if d2 < thr {
                b.position = target;
                b.velocity = Vec2 { x: 0, y: 0 };
                self.bodies.set(k, b);
            } else {
                self.bodies.set(k, b);
            }
            k = k + 1;
        }
        proof {
            assert(views(self.bodies@).len() == self.bodies@.len());
            assert forall|i: int| 0 <= i < n implies views(self.bodies@)[i] == target_seq[i]
                && body_wf(#[trigger] views(self.bodies@)[i]) && sabs(views(self.bodies@)[i].px)
                <= POS_SOFT as int && sabs(views(self.bodies@)[i].py) <= POS_SOFT as int by {
                assert(views(self.bodies@)[i] == self.bodies@[i]@);
            }
            assert(views(self.bodies@) =~= target_seq);
        }
    }

    /// The freeze command: every body within twice its own radius of
    /// `target` has its frozen flag flipped; the rest are untouched.
    pub fn toggle_freeze(&mut self, target: Vec2)
        requires
            old(self).wf(),
            sabs(target.x as int) <= POS_SOFT as int,
            sabs(target.y as int) <= POS_SOFT as int,
        ensures
            final(self).wf(),
            final(self).params == old(self).params,
            views(final(self).bodies@) == views(old(self).bodies@).map_values(
                |b: BodyModel| toggle_one(target.x as int, target.y as int, b),
            ),
    {
        let n = self.bodies.len();
        let ghost s0 = views(self.bodies@);
        let ghost target_seq = s0.map_values(
            |b: BodyModel| toggle_one(target.x as int, target.y as int, b),
        );
        proof {
            assert(views(self.bodies@).len() == self.bodies@.len());
        }
        let mut k: usize = 0;
        while k < n
            invariant
                old(self).wf(),
                self.params == old(self).params,
                n == self.bodies@.len(),
                k <= n,
                s0.len() == n,
                s0 == views(old(self).bodies@),
                sabs(target.x as int) <= POS_SOFT as int,
                sabs(target.y as int) <= POS_SOFT as int,
                target_seq == s0.map_values(
                    |b: BodyModel| toggle_one(target.x as int, target.y as int, b),
                ),
                forall|i: int| k <= i < n ==> #[trigger] self.bodies@[i] == old(self).bodies@[i],
                forall|i: int|
                    0 <= i < k ==> (#[trigger] self.bodies@[i])@ == target_seq[i] && body_wf(
                        self.bodies@[i]@,
                    ) && sabs(self.bodies@[i]@.px) <= POS_SOFT as int && sabs(
                        self.bodies@[i]@.py,
                    ) <= POS_SOFT as int,
            decreases n - k,
        {
            let mut b: Body = self.bodies[k];
            proof {
                assert(s0[k as int] == views(old(self).bodies@)[k as int]);
                assert(views(old(self).bodies@)[k as int] == old(self).bodies@[k as int]@);
                assert(target_seq[k as int] == toggle_one(target.x as int, target.y as int, s0[
                    k as int
                ]));
            }
            let d2 = target_dist_sq(&b, target.x, target.y);
            let t: i64 = 2 * b.radius;
            proof {
                lemma_sq_le(t as int, 200_000);
                crate::body::lemma_double_sq(t as int, b@.radius);
            }
            let thr: i128 = (t as i128) * (t as i128);
            if d2 < thr {
                b.frozen = !b.frozen;
                self.bodies.set(k, b);
            } else {
                self.bodies.set(k, b);
            }
            k = k + 1;
        }
        proof {
            assert(views(self.bodies@).len() == self.bodies@.len());
            assert forall|i: int| 0 <= i < n implies views(self.bodies@)[i] == target_seq[i]
                && body_wf(#[trigger] views(self.bodies@)[i]) && sabs(views(self.bodies@)[i].px)
                <= POS_SOFT as int && sabs(views(self.bodies@)[i].py) <= POS_SOFT as int by {
                assert(views(self.bodies@)[i] == self.bodies@[i]@);
            }
            assert(views(self.bodies@) =~= target_seq);
        }
    }

    /// The clear command: empty the whole collection.
    pub fn clear(&mut self)
        requires
            old(self).wf(),
        ensures
            final(self).wf(),
            final(self).params == old(self).params,
            final(self).bodies@.len() == 0,
    {
        self.bodies.clear();
        proof {
            assert(views(self.bodies@).len() == 0);
        }
    }

    /// How many bodies the simulation holds.
    pub fn len(&self) -> (n: usize)
        ensures
            n == self.bodies@.len(),
    {
        self.bodies.len()
    }
}

} // verus!
