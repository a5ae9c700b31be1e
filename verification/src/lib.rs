//! A bounded-arena N-body gravity simulation on fixed-point integers.
//!
//! All scalar quantities (positions, velocities, masses, radii, forces,
//! time deltas) are carried as `i64` counts of thousandths of a unit, so
//! every stage of the pipeline (force accumulation, substepped
//! integration, collision and boundary resolution) has an exact
//! mathematical meaning that the contracts state and the proofs cover.

pub mod body;
pub mod field;
pub mod num;
pub mod params;
pub mod sim;

use vstd::prelude::*;

verus! {

/// Number of fixed-point counts per whole unit: every scalar in the
/// simulation is an `i64` holding `value * SCALE`.
pub const SCALE: i64 = 1000;

} // verus!
