//! Tunable configuration of the engine and the fixed-point bounds that keep
//! every stage of the pipeline free of overflow.

use vstd::prelude::*;

verus! {

/// Largest admissible gravitational constant (10 units).
pub const G_MAX: i64 = 10_000;

/// Smallest admissible body mass (1 unit): division by mass happens every step.
pub const MASS_MIN: i64 = 1_000;

/// Largest admissible body mass (2000 units).
pub const MASS_MAX: i64 = 2_000_000;

/// Smallest admissible body radius (1 unit): the collision threshold
/// `2 * radius` is then the least distance any force is computed over,
/// which bounds every pairwise force.
pub const RADIUS_MIN: i64 = 1_000;

/// Largest admissible body radius (100 units).
pub const RADIUS_MAX: i64 = 100_000;

/// Largest admissible arena side (100 000 units).
pub const EXTENT_MAX: i64 = 100_000_000;

/// Largest admissible friction denominator.
pub const FRICTION_DEN_MAX: i64 = 1_000_000;

/// Largest admissible velocity cap (1 000 000 units per second).
pub const VMAX_MAX: i64 = 1_000_000_000;

/// Largest admissible time delta for one step (2 seconds).
pub const DT_MAX: i64 = 2_000;

/// Largest number of bodies one simulation may hold.
pub const N_MAX: usize = 50_000;

/// Bound on either component of one pairwise force:
/// `G_MAX * MASS_MAX^2 / (2 * RADIUS_MIN)^2`.
pub const PAIR_FORCE_LIMIT: i64 = 10_000_000_000;

/// Bound on either component of a net force: `N_MAX * PAIR_FORCE_LIMIT`.
pub const FORCE_LIMIT: i64 = 500_000_000_000_000;

/// Bound on either component of an acceleration:
/// `FORCE_LIMIT * SCALE / MASS_MIN`.
pub const ACC_LIMIT: i64 = 500_000_000_000_000;

/// Bound on either component of a velocity held by a well-formed body.
pub const VEL_LIMIT: i64 = 2_000_000_000;

/// Bound on either coordinate of a position held by a well-formed body.
pub const POS_LIMIT: i64 = 100_000_000_000_000_000;

/// Headroom one integration pass may add to a coordinate; positions must
/// stay `POS_DRIFT` below `POS_LIMIT` when a pass begins.
pub const POS_DRIFT: i64 = 10_000_000_000;

/// Bound on a coordinate entering a whole simulation step (commands keep
/// positions under it, and a step's integration stays well inside the drift
/// headroom from there).
pub const POS_SOFT: i64 = 1_000_000_000_000;

/// The tunable constants of one simulation: gravitational constant, arena
/// extents, friction coefficient (as a fraction `num / den < 1`), and the
/// velocity cap, all in fixed-point counts of `SCALE` per unit.
#[derive(Clone, Copy, PartialEq, Eq, Structural, Debug)]
pub struct Params {
    pub g: i64,
    pub width: i64,
    pub height: i64,
    pub friction_num: i64,
    pub friction_den: i64,
    pub max_velocity: i64,
}

impl Params {
    /// The ranges every stage's overflow argument rests on.
    pub open spec fn wf(self) -> bool {
        &&& 1 <= self.g <= G_MAX
        &&& 2 * RADIUS_MAX <= self.width <= EXTENT_MAX
        &&& 2 * RADIUS_MAX <= self.height <= EXTENT_MAX
        &&& 0 <= self.friction_num < self.friction_den <= FRICTION_DEN_MAX
        &&& 0 <= self.max_velocity <= VMAX_MAX
    }

    /// The stock configuration: `G = 0.1`, an 800 x 600 arena, friction
    /// `0.99`, and a velocity cap of 10 units per second.
    pub fn standard() -> (p: Params)
        ensures
            p.wf(),
            p.g == 100,
            p.width == 800_000,
            p.height == 600_000,
            p.friction_num == 99,
            p.friction_den == 100,
            p.max_velocity == 10_000,
    {
        Params {
            g: 100,
            width: 800_000,
            height: 600_000,
            friction_num: 99,
            friction_den: 100,
            max_velocity: 10_000,
        }
    }
}

} // verus!
