//! The force field and the integrator: one net force per body over the whole
//! collection (computed in parallel), then the kinematic pass, optionally
//! substepped with a conserved force vector.

use rayon::iter::{IndexedParallelIterator, IntoParallelRefIterator, ParallelIterator};
use vstd::prelude::*;

verus! {

use crate::body::{Body, BodyModel, Vec2, body_wf, integ_body, pair_force};
use crate::num::{lemma_mdiv_bound, sabs};
use crate::params::{DT_MAX, FORCE_LIMIT, N_MAX, PAIR_FORCE_LIMIT, POS_DRIFT, POS_LIMIT, Params, VEL_LIMIT};
use vstd::arithmetic::div_mod::{lemma_fundamental_div_mod, lemma_mod_bound};
use vstd::arithmetic::mul::lemma_mul_inequality;
use vstd::pervasive::VecAdditionalExecFns;

/// The mathematical contents of a body collection.
pub open spec fn views(s: Seq<Body>) -> Seq<BodyModel> {
    s.map_values(|b: Body| b@)
}

/// The mathematical contents of a force array.
pub open spec fn fviews(s: Seq<Vec2>) -> Seq<(int, int)> {
    s.map_values(|v: Vec2| (v.x as int, v.y as int))
}

/// Every body in the collection is well-formed.
pub open spec fn all_wf(s: Seq<BodyModel>) -> bool {
    forall|i: int| 0 <= i < s.len() ==> body_wf(#[trigger] s[i])
}

/// Every position coordinate in the collection is within `cap`.
pub open spec fn all_pos_within(s: Seq<BodyModel>, cap: int) -> bool {
    forall|i: int| 0 <= i < s.len() ==> sabs(#[trigger] s[i].px) <= cap && sabs(s[i].py) <= cap
}

/// Every component of every force in the array is within `cap`.
pub open spec fn all_forces_within(fs: Seq<(int, int)>, cap: int) -> bool {
    forall|i: int| 0 <= i < fs.len() ==> sabs((#[trigger] fs[i]).0) <= cap && sabs(fs[i].1) <= cap
}

/// The sum of the pairwise pulls of bodies `0 .. k` on body `i` (skipping
/// `i` itself).
pub open spec fn net_force_rec(g: int, s: Seq<BodyModel>, i: int, k: int) -> (int, int)
    decreases k,
{
    if k <= 0 {
        (0, 0)
    } else {
        let p = net_force_rec(g, s, i, k - 1);
        if k - 1 == i {
            p
        } else {
            let c = pair_force(g, s[i], s[k - 1]);
            (p.0 + c.0, p.1 + c.1)
        }
    }
}

/// The net gravitational force on body `i`: the vector sum of the pairwise
/// contributions of every other body, overlapping pairs contributing zero.
pub open spec fn net_force(g: int, s: Seq<BodyModel>, i: int) -> (int, int) {
    net_force_rec(g, s, i, s.len() as int)
}

/// The net force on body `i` of a well-formed collection, by a sequential
/// scan of the whole collection.
pub fn force_on(params: &Params, bodies: &Vec<Body>, i: usize) -> (r: Vec2)
    requires
        params.wf(),
        all_wf(views(bodies@)),
        i < bodies@.len(),
        bodies@.len() <= N_MAX,
    ensures
        (r.x as int, r.y as int) == net_force(params.g as int, views(bodies@), i as int),
        sabs(r.x as int) <= FORCE_LIMIT as int,
        sabs(r.y as int) <= FORCE_LIMIT as int,
{
    let me: Body = bodies[i];
    let mut fx: i64 = 0;
    let mut fy: i64 = 0;
    let n = bodies.len();
    let mut j: usize = 0;
    while j < n
        invariant
            params.wf(),
            all_wf(views(bodies@)),
            i < bodies@.len(),
            bodies@.len() <= N_MAX,
            n == bodies@.len(),
            j <= n,
            me == bodies@[i as int],
            (fx as int, fy as int) == net_force_rec(params.g as int, views(bodies@), i as int, j as int),
            sabs(fx as int) <= (j as int) * (PAIR_FORCE_LIMIT as int),
            sabs(fy as int) <= (j as int) * (PAIR_FORCE_LIMIT as int),
        decreases n - j,
    {
        if j != i {
            let ob: Body = bodies[j];
            proof {
                assert(views(bodies@)[j as int] == bodies@[j as int]@);
                assert(views(bodies@)[i as int] == bodies@[i as int]@);
            }
            let c = me.calculate_force(&ob, params);
            fx = fx + c.x;
            fy = fy + c.y;
        }
        j = j + 1;
    }
    Vec2 { x: fx, y: fy }
}

/// Relies on rayon's indexed parallel iterators: `par_iter().enumerate()` is
/// an indexed parallel iterator over `(slot, body)` pairs, `map` keeps it
/// indexed, and `collect` into a `Vec` places each mapped value at its slot,
/// so slot `i` holds exactly `force_on(params, bodies, i)` -- whose own
/// contract is what every clause below states.
#[verifier::external_body]
fn forces_par(params: &Params, bodies: &Vec<Body>) -> (r: Vec<Vec2>)
    requires
        params.wf(),
        all_wf(views(bodies@)),
        bodies@.len() <= N_MAX,
    ensures
        r@.len() == bodies@.len(),
        forall|i: int|
            0 <= i < r@.len() ==> ((#[trigger] r@[i]).x as int, r@[i].y as int) == net_force(
                params.g as int,
                views(bodies@),
                i,
            ) && sabs(r@[i].x as int) <= FORCE_LIMIT as int && sabs(r@[i].y as int)
                <= FORCE_LIMIT as int,
{
    bodies.par_iter().enumerate().map(|(i, _b)| force_on(params, bodies, i)).collect()
}

/// Set a body's accumulated force.
pub open spec fn set_force_b(b: BodyModel, f: (int, int)) -> BodyModel {
    BodyModel { fx: f.0, fy: f.1, ..b }
}

/// One integration pass: every body gets its force slot stored, then one
/// kinematic update (frozen bodies keep position and velocity).
pub open spec fn integ_pass(vmax: int, dt: int, s: Seq<BodyModel>, fs: Seq<(int, int)>) -> Seq<
    BodyModel,
> {
    Seq::new(s.len(), |i: int| integ_body(vmax, dt, set_force_b(s[i], fs[i])))
}

/// After one integration pass, every body that integrates (every non-frozen
/// body) has its velocity's squared norm within `vmax^2`, whatever force its
/// slot carried.
pub proof fn lemma_integrator_caps_velocity(
    vmax: int,
    dt: int,
    s: Seq<BodyModel>,
    fs: Seq<(int, int)>,
    i: int,
)
    requires
        0 <= i < s.len(),
        vmax >= 0,
        !s[i].frozen,
    ensures
        ({
            let b = integ_pass(vmax, dt, s, fs)[i];
            b.vx * b.vx + b.vy * b.vy <= vmax * vmax
        }),
{
    let bf = set_force_b(s[i], fs[i]);
    let ba = crate::body::accel_update(bf);
    let wx = ba.vx + crate::num::mdiv(ba.ax, dt, crate::SCALE as int);
    let wy = ba.vy + crate::num::mdiv(ba.ay, dt, crate::SCALE as int);
    crate::body::lemma_clamp_vel_norm(vmax, wx, wy);
}

/// `k` integration passes with the same force array and the same `dt`.
pub open spec fn substeps_pass(
    vmax: int,
    dts: int,
    s: Seq<BodyModel>,
    fs: Seq<(int, int)>,
    k: nat,
) -> Seq<BodyModel>
    decreases k,
{
    if k == 0 {
        s
    } else {
        substeps_pass(vmax, dts, integ_pass(vmax, dts, s, fs), fs, (k - 1) as nat)
    }
}

/// Peeling the last pass instead of the first gives the same result.
pub proof fn lemma_substeps_pass_snoc(
    vmax: int,
    dts: int,
    s: Seq<BodyModel>,
    fs: Seq<(int, int)>,
    k: nat,
)
    ensures
        substeps_pass(vmax, dts, s, fs, (k + 1) as nat) == integ_pass(
            vmax,
            dts,
            substeps_pass(vmax, dts, s, fs, k),
            fs,
        ),
    decreases k,
{
    let ip0 = integ_pass(vmax, dts, s, fs);
    if k == 0 {
        assert(substeps_pass(vmax, dts, s, fs, 1) == substeps_pass(vmax, dts, ip0, fs, 0));
    } else {
        lemma_substeps_pass_snoc(vmax, dts, ip0, fs, (k - 1) as nat);
        assert(substeps_pass(vmax, dts, s, fs, (k + 1) as nat) == substeps_pass(
            vmax,
            dts,
            ip0,
            fs,
            k,
        ));
        assert(substeps_pass(vmax, dts, s, fs, k) == substeps_pass(
            vmax,
            dts,
            ip0,
            fs,
            (k - 1) as nat,
        ));
    }
}

impl Body {
    /// One net force vector per body, index-aligned with the collection:
    /// slot `i` is the vector sum of the pairwise contributions of every
    /// other body on body `i` (an overlapping pair contributing exactly
    /// zero), computed in parallel over a read-only snapshot.
    pub fn calculate_forces(params: &Params, bodies: &Vec<Body>) -> (r: Vec<Vec2>)
        requires
            params.wf(),
            all_wf(views(bodies@)),
            bodies@.len() <= N_MAX,
        ensures
            r@.len() == bodies@.len(),
            forall|i: int|
                0 <= i < r@.len() ==> ((#[trigger] r@[i]).x as int, r@[i].y as int) == net_force(
                    params.g as int,
                    views(bodies@),
                    i,
                ),
            all_forces_within(fviews(r@), FORCE_LIMIT as int),
    {
        let r = forces_par(params, bodies);
        assert forall|i: int| 0 <= i < fviews(r@).len() implies sabs(
            (#[trigger] fviews(r@)[i]).0,
        ) <= FORCE_LIMIT as int && sabs(fviews(r@)[i].1) <= FORCE_LIMIT as int by {
            assert(fviews(r@)[i] == (r@[i].x as int, r@[i].y as int));
        }
        r
    }

    /// Apply an index-aligned force array: each body stores its force slot
    /// and runs one kinematic update over `dt`.
    pub fn apply_forces(params: &Params, bodies: &mut Vec<Body>, forces: &Vec<Vec2>, dt: i64)
        requires
            params.wf(),
            0 <= dt <= DT_MAX,
            all_wf(views(old(bodies)@)),
            forces@.len() == old(bodies)@.len(),
            all_forces_within(fviews(forces@), FORCE_LIMIT as int),
            all_pos_within(views(old(bodies)@), POS_LIMIT as int - POS_DRIFT as int),
        ensures
            final(bodies)@.len() == old(bodies)@.len(),
            views(final(bodies)@) == integ_pass(
                params.max_velocity as int,
                dt as int,
                views(old(bodies)@),
                fviews(forces@),
            ),
            all_wf(views(final(bodies)@)),
            forall|i: int|
                0 <= i < final(bodies)@.len() ==> sabs((#[trigger] views(final(bodies)@)[i]).px)
                    <= sabs(views(old(bodies)@)[i].px) + (VEL_LIMIT as int) * (dt as int) && sabs(
                    views(final(bodies)@)[i].py,
                ) <= sabs(views(old(bodies)@)[i].py) + (VEL_LIMIT as int) * (dt as int),
    {
        let n = bodies.len();
        let ghost s0 = views(bodies@);
        let ghost fs = fviews(forces@);
        let ghost target = integ_pass(params.max_velocity as int, dt as int, s0, fs);
        let mut k: usize = 0;
        while k < n
            invariant
                params.wf(),
                0 <= dt <= DT_MAX,
                n == bodies@.len(),
                s0.len() == n,
                fs.len() == n,
                k <= n,
                s0 == views(old(bodies)@),
                fs == fviews(forces@),
                forces@.len() == n,
                target == integ_pass(params.max_velocity as int, dt as int, s0, fs),
                all_wf(s0),
                all_forces_within(fs, FORCE_LIMIT as int),
                all_pos_within(s0, POS_LIMIT as int - POS_DRIFT as int),
                forall|i: int| k <= i < n ==> #[trigger] bodies@[i] == old(bodies)@[i],
                forall|i: int|
                    0 <= i < k ==> (#[trigger] bodies@[i])@ == target[i] && body_wf(bodies@[i]@)
                        && sabs(bodies@[i]@.px) <= sabs(s0[i].px) + (VEL_LIMIT as int) * (dt as int)
                        && sabs(bodies@[i]@.py) <= sabs(s0[i].py) + (VEL_LIMIT as int) * (
                    dt as int),
            decreases n - k,
        {
            let mut b: Body = bodies[k];
            let f: Vec2 = forces[k];
            proof {
                assert(s0[k as int] == views(old(bodies)@)[k as int]);
                assert(views(old(bodies)@)[k as int] == old(bodies)@[k as int]@);
                assert(fs[k as int] == fviews(forces@)[k as int]);
                assert(fviews(forces@)[k as int] == (forces@[k as int].x as int, forces@[
                    k as int
                ].y as int));
            }
            assert(b@ == s0[k as int]);
            assert((f.x as int, f.y as int) == fs[k as int]);
            b.force = f;
            let ghost bf = b@;
            assert(bf == set_force_b(s0[k as int], fs[k as int]));
            b.update(dt, params);
            proof {
                if !bf.frozen {
                    let bv = crate::body::vel_update(
                        params.max_velocity as int,
                        dt as int,
                        crate::body::accel_update(bf),
                    );
                    lemma_mdiv_bound(
                        bv.vx,
                        dt as int,
                        crate::SCALE as int,
                        VEL_LIMIT as int,
                        dt as int,
                    );
                    lemma_mdiv_bound(
                        bv.vy,
                        dt as int,
                        crate::SCALE as int,
                        VEL_LIMIT as int,
                        dt as int,
                    );
                }
            }
            bodies.set(k, b);
            proof {
                assert(bodies@[k as int] == b);
                assert(bodies@[k as int]@ == target[k as int]);
            }
            k = k + 1;
        }
        proof {
            assert(views(bodies@).len() == bodies@.len());
            assert forall|i: int| 0 <= i < n implies views(bodies@)[i] == target[i] by {
                assert(views(bodies@)[i] == bodies@[i]@);
            }
            assert(views(bodies@) =~= target);
            assert forall|i: int|
                0 <= i < final(bodies)@.len() implies sabs(
                (#[trigger] views(bodies@)[i]).px,
            ) <= sabs(views(old(bodies)@)[i].px) + (VEL_LIMIT as int) * (dt as int) && sabs(
                views(bodies@)[i].py,
            ) <= sabs(views(old(bodies)@)[i].py) + (VEL_LIMIT as int) * (dt as int) by {
                assert(views(bodies@)[i] == bodies@[i]@);
                assert(s0[i] == views(old(bodies)@)[i]);
            }
        }
    }

    /// Substepped integration: the whole kinematic pass is repeated
    /// `substeps` times over `dt / substeps`, every micro-step reusing the
    /// same force array (the force is deliberately not recomputed between
    /// micro-steps: stability is traded for exact substep physics).
    pub fn apply_forces_with_substeps(
        params: &Params,
        bodies: &mut Vec<Body>,
        forces: &Vec<Vec2>,
        dt: i64,
        substeps: usize,
    )
        requires
            params.wf(),
            0 <= dt <= DT_MAX,
            all_wf(views(old(bodies)@)),
            forces@.len() == old(bodies)@.len(),
            all_forces_within(fviews(forces@), FORCE_LIMIT as int),
            all_pos_within(views(old(bodies)@), crate::params::POS_SOFT as int),
        ensures
            final(bodies)@.len() == old(bodies)@.len(),
            views(final(bodies)@) == substeps_pass(
                params.max_velocity as int,
                sub_dt(dt as int, substeps as int),
                views(old(bodies)@),
                fviews(forces@),
                substeps as nat,
            ),
            all_wf(views(final(bodies)@)),
            all_pos_within(
                views(final(bodies)@),
                crate::params::POS_SOFT as int + (VEL_LIMIT as int) * (dt as int),
            ),
    {
        let ghost s0 = views(bodies@);
        let ghost fs = fviews(forces@);
        if substeps == 0 {
            return ;
        }
        let dts: i64 = ((dt as u64) / (substeps as u64)) as i64;
        proof {
            lemma_fundamental_div_mod(dt as int, substeps as int);
            lemma_mod_bound(dt as int, substeps as int);
        }
        let mut k: usize = 0;
        while k < substeps
            invariant
                params.wf(),
                0 <= dt <= DT_MAX,
                substeps >= 1,
                k <= substeps,
                dts as int == sub_dt(dt as int, substeps as int),
                0 <= dts <= dt,
                (substeps as int) * (dts as int) <= dt as int,
                s0 == views(old(bodies)@),
                fs == fviews(forces@),
                forces@.len() == s0.len(),
                bodies@.len() == s0.len(),
                all_wf(s0),
                all_forces_within(fs, FORCE_LIMIT as int),
                all_pos_within(s0, crate::params::POS_SOFT as int),
                views(bodies@) == substeps_pass(
                    params.max_velocity as int,
                    dts as int,
                    s0,
                    fs,
                    k as nat,
                ),
                all_wf(views(bodies@)),
                all_pos_within(
                    views(bodies@),
                    crate::params::POS_SOFT as int + (VEL_LIMIT as int) * ((k as int) * (
                    dts as int)),
                ),
            decreases substeps - k,
        {
            proof {
                lemma_mul_inequality(k as int, substeps as int, dts as int);
                assert((VEL_LIMIT as int) * ((k as int) * (dts as int)) <= (VEL_LIMIT as int) * (
                dt as int)) by (nonlinear_arith)
                    requires
                        (k as int) * (dts as int) <= dt as int,
                        VEL_LIMIT as int > 0,
                ;
            }
            Self::apply_forces(params, bodies, forces, dts);
            proof {
                assert(views(bodies@).len() == bodies@.len());
                lemma_substeps_pass_snoc(params.max_velocity as int, dts as int, s0, fs, k as nat);
                assert forall|i: int| 0 <= i < views(bodies@).len() implies sabs(
                    (#[trigger] views(bodies@)[i]).px,
                ) <= crate::params::POS_SOFT as int + (VEL_LIMIT as int) * (((k + 1) as int) * (
                dts as int)) && sabs(views(bodies@)[i].py) <= crate::params::POS_SOFT as int + (
                VEL_LIMIT as int) * (((k + 1) as int) * (dts as int)) by {
                    assert((VEL_LIMIT as int) * ((k as int) * (dts as int)) + (VEL_LIMIT as int) * (
                    dts as int) == (VEL_LIMIT as int) * (((k + 1) as int) * (dts as int)))
                        by (nonlinear_arith);
                }
            }
            k = k + 1;
        }
        proof {
            lemma_mul_inequality(k as int, substeps as int, dts as int);
            assert((VEL_LIMIT as int) * ((k as int) * (dts as int)) <= (VEL_LIMIT as int) * (
            dt as int)) by (nonlinear_arith)
                requires
                    (k as int) * (dts as int) <= dt as int,
                    VEL_LIMIT as int > 0,
            ;
        }
    }
}

/// The micro-step delta: `dt / substeps`, zero when there are no substeps.
pub open spec fn sub_dt(dt: int, substeps: int) -> int {
    if substeps == 0 {
        0
    } else {
        dt / substeps
    }
}

/// One micro-step over the full delta reproduces the plain single pass
/// exactly, body for body and bit for bit.
pub proof fn lemma_substeps_one(vmax: int, dt: int, s: Seq<BodyModel>, fs: Seq<(int, int)>)
    requires
        dt >= 0,
    ensures
        substeps_pass(vmax, sub_dt(dt, 1), s, fs, 1) == integ_pass(vmax, dt, s, fs),
{
    assert(dt / 1 == dt) by (nonlinear_arith)
        requires
            dt >= 0,
    ;
    assert(substeps_pass(vmax, dt, s, fs, 1) == substeps_pass(
        vmax,
        dt,
        integ_pass(vmax, dt, s, fs),
        fs,
        0,
    ));
}

/// Every micro-step conserves the given force array: after any positive
/// number of passes, each body's accumulated force is exactly its slot of
/// the array handed in.
pub proof fn lemma_substeps_conserve_force(
    vmax: int,
    dts: int,
    s: Seq<BodyModel>,
    fs: Seq<(int, int)>,
    k: nat,
)
    requires
        k >= 1,
        fs.len() == s.len(),
    ensures
        substeps_pass(vmax, dts, s, fs, k).len() == s.len(),
        forall|i: int|
            0 <= i < s.len() ==> (#[trigger] substeps_pass(vmax, dts, s, fs, k)[i]).fx == fs[i].0
                && substeps_pass(vmax, dts, s, fs, k)[i].fy == fs[i].1,
    decreases k,
{
    let s1 = integ_pass(vmax, dts, s, fs);
    assert(s1.len() == s.len());
    assert forall|i: int| 0 <= i < s.len() implies (#[trigger] s1[i]).fx == fs[i].0 && s1[i].fy
        == fs[i].1 by {
        assert(s1[i] == integ_body(vmax, dts, set_force_b(s[i], fs[i])));
    }
    assert(substeps_pass(vmax, dts, s, fs, k) == substeps_pass(vmax, dts, s1, fs, (k - 1) as nat));
    if k == 1 {
        assert(substeps_pass(vmax, dts, s1, fs, 0) == s1);
    } else {
        lemma_substeps_conserve_force(vmax, dts, s1, fs, (k - 1) as nat);
    }
}

} // verus!
