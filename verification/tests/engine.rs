//! Scenario tests of the simulation engine: exact fixed-point values for the
//! force field, the integrator, the collision and boundary resolvers, and the
//! interactive commands.

use nbody::body::{Body, Vec2};
use nbody::num::{isqrt, isqrt_ceil, mul_div};
use nbody::params::Params;
use nbody::sim::Sim;

fn test_params(g: i64) -> Params {
    Params {
        g,
        width: 800_000,
        height: 600_000,
        friction_num: 99,
        friction_den: 100,
        max_velocity: 10_000,
    }
}

#[test]
fn mul_div_truncates_toward_zero() {
    assert_eq!(mul_div(7, 3, 2), 10);
    assert_eq!(mul_div(-7, 3, 2), -10);
    assert_eq!(mul_div(0, 5, 9), 0);
    assert_eq!(mul_div(1_000_000_000, 1_000_000_000, 1), 1_000_000_000_000_000_000);
}

#[test]
fn isqrt_exact_values() {
    assert_eq!(isqrt(0), 0);
    assert_eq!(isqrt(1), 1);
    assert_eq!(isqrt(200), 14);
    assert_eq!(isqrt(10_000_000_000), 100_000);
    assert_eq!(isqrt_ceil(200), 15);
    assert_eq!(isqrt_ceil(10_000_000_000), 100_000);
}

#[test]
fn distance_of_three_four_five_triangle() {
    let a = Body::new(Vec2 { x: 0, y: 0 });
    let b = Body::new(Vec2 { x: 30_000, y: 40_000 });
    assert_eq!(a.get_distance(&b), 50_000);
}

#[test]
fn pairwise_force_exact_inverse_square() {
    // g = 1.0, two 1000-unit masses 100 units apart: F = 1000*1000/100^2 = 100.
    let p = test_params(1_000);
    let a = Body::new(Vec2 { x: 0, y: 0 });
    let b = Body::new(Vec2 { x: 100_000, y: 0 });
    let f = a.calculate_force(&b, &p);
    assert_eq!(f.x, 100_000);
    assert_eq!(f.y, 0);
}

#[test]
fn overlapping_pair_contributes_zero_force() {
    // 15 units apart with radius 10: inside 2 * radius, so no force at all.
    let p = test_params(1_000);
    let a = Body::new(Vec2 { x: 0, y: 0 });
    let b = Body::new(Vec2 { x: 15_000, y: 0 });
    let f = a.calculate_force(&b, &p);
    assert_eq!(f.x, 0);
    assert_eq!(f.y, 0);
    let bodies = vec![a, b];
    let forces = Body::calculate_forces(&p, &bodies);
    assert_eq!(forces[0].x, 0);
    assert_eq!(forces[0].y, 0);
    assert_eq!(forces[1].x, 0);
    assert_eq!(forces[1].y, 0);
}

#[test]
fn two_equal_masses_acquire_opposite_velocities() {
    // Two 1000-unit masses at (0,0) and (100,0), g = 1.0, one pass, dt = 0.1.
    let p = test_params(1_000);
    let mut bodies = vec![
        Body::new(Vec2 { x: 0, y: 0 }),
        Body::new(Vec2 { x: 100_000, y: 0 }),
    ];
    let forces = Body::calculate_forces(&p, &bodies);
    assert_eq!(forces.len(), 2);
    assert_eq!(forces[0].x, 100_000);
    assert_eq!(forces[1].x, -100_000);
    Body::apply_forces(&p, &mut bodies, &forces, 100);
    assert_eq!(bodies[0].velocity.x, 10);
    assert_eq!(bodies[1].velocity.x, -10);
    assert_eq!(bodies[0].velocity.y, 0);
    assert_eq!(bodies[1].velocity.y, 0);
    assert_ne!(bodies[0].velocity.x, 0);
    assert_eq!(bodies[0].velocity.x, -bodies[1].velocity.x);
    assert_eq!(bodies[0].position.x, 1);
    assert_eq!(bodies[1].position.x, 99_999);
}

#[test]
fn velocity_is_clamped_direction_preserving() {
    let p = test_params(100);
    let mut b = Body::new(Vec2 { x: 0, y: 0 });
    b.acceleration = Vec2 { x: 30_000, y: 40_000 };
    // dt of one second: dv == acceleration, norm 50000 > cap 10000.
    b.update_velocity(1_000, &p);
    assert_eq!(b.velocity.x, 6_000);
    assert_eq!(b.velocity.y, 8_000);
    let n2 = (b.velocity.x as i128) * (b.velocity.x as i128)
        + (b.velocity.y as i128) * (b.velocity.y as i128);
    assert!(n2 <= (p.max_velocity as i128) * (p.max_velocity as i128));
}

#[test]
fn velocity_cap_holds_for_huge_force() {
    let p = test_params(100);
    let mut b = Body::new(Vec2 { x: 0, y: 0 });
    b.force = Vec2 { x: 500_000_000, y: 0 };
    b.update_acceleration();
    assert_eq!(b.acceleration.x, 500_000);
    b.update_velocity(1_000, &p);
    assert_eq!(b.velocity.x, 10_000);
    assert_eq!(b.velocity.y, 0);
}

#[test]
fn one_substep_matches_single_pass_bit_for_bit() {
    let p = test_params(1_000);
    let make = || vec![
        Body::new(Vec2 { x: 0, y: 0 }),
        Body::new(Vec2 { x: 100_000, y: 0 }),
        Body::new(Vec2 { x: 300_000, y: 250_000 }),
    ];
    let mut plain = make();
    let mut stepped = make();
    let forces = Body::calculate_forces(&p, &plain);
    Body::apply_forces(&p, &mut plain, &forces, 100);
    Body::apply_forces_with_substeps(&p, &mut stepped, &forces, 100, 1);
    assert_eq!(plain, stepped);
}

#[test]
fn substeps_conserve_the_force_vector() {
    let p = test_params(1_000);
    let mut bodies = vec![
        Body::new(Vec2 { x: 0, y: 0 }),
        Body::new(Vec2 { x: 100_000, y: 0 }),
    ];
    let forces = Body::calculate_forces(&p, &bodies);
    Body::apply_forces_with_substeps(&p, &mut bodies, &forces, 100, 5);
    assert_eq!(bodies[0].force.x, forces[0].x);
    assert_eq!(bodies[0].force.y, forces[0].y);
    assert_eq!(bodies[1].force.x, forces[1].x);
    assert_eq!(bodies[1].force.y, forces[1].y);
}

#[test]
fn zero_substeps_leave_bodies_untouched() {
    let p = test_params(1_000);
    let mut bodies = vec![Body::new(Vec2 { x: 50_000, y: 60_000 })];
    let forces = Body::calculate_forces(&p, &bodies);
    let before = bodies.clone();
    Body::apply_forces_with_substeps(&p, &mut bodies, &forces, 100, 0);
    assert_eq!(bodies, before);
}

#[test]
fn frozen_body_keeps_position_and_velocity() {
    let p = test_params(1_000);
    let mut b = Body::new(Vec2 { x: 40_000, y: 50_000 });
    b.frozen = true;
    b.force = Vec2 { x: 100_000, y: -3_000 };
    let before = b;
    b.update(100, &p);
    assert_eq!(b.position, before.position);
    assert_eq!(b.velocity, before.velocity);
}

#[test]
fn separated_pair_velocities_unchanged() {
    let p = test_params(1_000);
    let mut a = Body::new(Vec2 { x: 0, y: 0 });
    let mut b = Body::new(Vec2 { x: 100_000, y: 0 });
    a.velocity = Vec2 { x: 5, y: 7 };
    b.velocity = Vec2 { x: -3, y: 11 };
    a.check_and_resolve_collision(&mut b, &p);
    assert_eq!(a.velocity, Vec2 { x: 5, y: 7 });
    assert_eq!(b.velocity, Vec2 { x: -3, y: 11 });
}

#[test]
fn colliding_pair_swaps_friction_scaled_velocities() {
    let p = test_params(1_000);
    let mut a = Body::new(Vec2 { x: 0, y: 0 });
    let mut b = Body::new(Vec2 { x: 15_000, y: 0 });
    a.velocity = Vec2 { x: 100, y: 0 };
    b.velocity = Vec2 { x: -200, y: 0 };
    a.check_and_resolve_collision(&mut b, &p);
    assert_eq!(a.velocity, Vec2 { x: -198, y: 0 });
    assert_eq!(b.velocity, Vec2 { x: 99, y: 0 });
}

#[test]
fn boundary_reflects_and_clamps_at_far_edge() {
    // Exactly at x == extent with outward velocity: clamped to
    // extent - radius with reversed, friction-scaled x-velocity.
    let p = test_params(1_000);
    let mut b = Body::new(Vec2 { x: 800_000, y: 300_000 });
    b.velocity = Vec2 { x: 50, y: 0 };
    b.check_boundary_collisions(&p);
    assert_eq!(b.position.x, 790_000);
    assert_eq!(b.velocity.x, -49);
    assert!(b.position.x <= p.width - b.radius);
    assert_eq!(b.position.y, 300_000);
    assert_eq!(b.velocity.y, 0);
}

#[test]
fn boundary_corner_triggers_both_axes() {
    let p = test_params(1_000);
    let mut b = Body::new(Vec2 { x: 0, y: 0 });
    b.velocity = Vec2 { x: -100, y: -200 };
    b.check_boundary_collisions(&p);
    assert_eq!(b.position.x, 10_000);
    assert_eq!(b.position.y, 10_000);
    assert_eq!(b.velocity.x, 99);
    assert_eq!(b.velocity.y, 198);
}

#[test]
fn boundary_leaves_interior_body_alone() {
    let p = test_params(1_000);
    let mut b = Body::new(Vec2 { x: 400_000, y: 300_000 });
    b.velocity = Vec2 { x: 123, y: -456 };
    let before = b;
    b.check_boundary_collisions(&p);
    assert_eq!(b, before);
}

#[test]
fn update_force_stores_single_pair_pull() {
    let p = test_params(1_000);
    let mut a = Body::new(Vec2 { x: 0, y: 0 });
    let b = Body::new(Vec2 { x: 100_000, y: 0 });
    a.update_force(&b, &p);
    assert_eq!(a.force.x, 100_000);
    assert_eq!(a.force.y, 0);
}

#[test]
fn full_step_runs_all_stages_in_order() {
    let p = test_params(1_000);
    let mut sim = Sim {
        params: p,
        bodies: vec![
            Body::new(Vec2 { x: 0, y: 0 }),
            Body::new(Vec2 { x: 100_000, y: 0 }),
        ],
    };
    sim.step(100, 1);
    // Integration pulls the pair together (velocities +-10, positions 1 and
    // 99999); the pair stays separated; the left body sits within its radius
    // of the near edge, so the boundary stage clamps it and reflects its
    // velocity (10 * 99 / 100 == 9).
    assert_eq!(sim.bodies[0].position.x, 10_000);
    assert_eq!(sim.bodies[0].velocity.x, -9);
    assert_eq!(sim.bodies[1].position.x, 99_999);
    assert_eq!(sim.bodies[1].velocity.x, -10);
}

#[test]
fn clear_then_spawn_yields_one_body_at_position() {
    let mut sim = Sim::new(Params::standard());
    sim.spawn(None);
    sim.spawn(None);
    sim.clear();
    assert_eq!(sim.len(), 0);
    let target = Vec2 { x: 123_000, y: 45_000 };
    sim.spawn(Some(target));
    assert_eq!(sim.len(), 1);
    let b = sim.bodies[0];
    assert_eq!(b.position, target);
    // Spawn randomizes the velocity: only its documented range is fixed.
    assert!(-500 <= b.velocity.x && b.velocity.x <= 500);
    assert!(-500 <= b.velocity.y && b.velocity.y <= 500);
    assert!(500_000 <= b.mass && b.mass <= 1_500_000);
    assert_eq!(b.radius, b.mass / 150);
    assert!(!b.frozen);
    assert_eq!(b.force, Vec2 { x: 0, y: 0 });
    assert_eq!(b.acceleration, Vec2 { x: 0, y: 0 });
}

#[test]
fn spawn_without_position_lands_in_arena() {
    let mut sim = Sim::new(Params::standard());
    sim.spawn(None);
    let b = sim.bodies[0];
    assert!(0 <= b.position.x && b.position.x <= sim.params.width);
    assert!(0 <= b.position.y && b.position.y <= sim.params.height);
}

#[test]
fn spawn_clamps_out_of_range_position() {
    let mut sim = Sim::new(Params::standard());
    sim.spawn(Some(Vec2 { x: -50_000, y: 900_000 }));
    let b = sim.bodies[0];
    assert_eq!(b.position.x, 0);
    assert_eq!(b.position.y, 600_000);
}

#[test]
fn drag_moves_and_stops_matched_bodies_only() {
    let p = Params::standard();
    let mut sim = Sim {
        params: p,
        bodies: vec![
            Body::new(Vec2 { x: 0, y: 0 }),
            Body::new(Vec2 { x: 100_000, y: 0 }),
        ],
    };
    sim.bodies[0].velocity = Vec2 { x: 77, y: 88 };
    let target = Vec2 { x: 5_000, y: 0 };
    sim.drag(target);
    assert_eq!(sim.bodies[0].position, target);
    assert_eq!(sim.bodies[0].velocity, Vec2 { x: 0, y: 0 });
    assert_eq!(sim.bodies[1].position, Vec2 { x: 100_000, y: 0 });
}

#[test]
fn toggle_freeze_flips_matched_bodies_only() {
    let p = Params::standard();
    let mut sim = Sim {
        params: p,
        bodies: vec![
            Body::new(Vec2 { x: 0, y: 0 }),
            Body::new(Vec2 { x: 100_000, y: 0 }),
        ],
    };
    sim.toggle_freeze(Vec2 { x: 5_000, y: 0 });
    assert!(sim.bodies[0].frozen);
    assert!(!sim.bodies[1].frozen);
    sim.toggle_freeze(Vec2 { x: 5_000, y: 0 });
    assert!(!sim.bodies[0].frozen);
}
