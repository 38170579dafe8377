use particle_life::config::{DEFAULT_DELTA_TIME, DEFAULT_FRICTION, FRICTION_HALF_TIME};
use particle_life::fixed::{LIMIT, ONE};
use particle_life::integration::{accelerations_are_valid, apply_acceleration, integrate};
use particle_life::particle::{Particle, SimulationError};
use particle_life::vector::Vec2;

fn particle(x: i64, y: i64, vx: i64, vy: i64) -> Particle {
    Particle { ty: 0, position: Vec2 { x, y }, velocity: Vec2 { x: vx, y: vy } }
}

#[test]
fn integrate_damps_then_accelerates_then_moves() {
    let moved = integrate(
        particle(0, 0, 2 * ONE, -2 * ONE),
        Vec2 { x: 10 * ONE, y: 0 },
        500_000,
        100_000,
    );
    assert_eq!(moved, Ok(particle(200_000, -100_000, 2 * ONE, -ONE)));
}

#[test]
fn integrate_rounds_toward_zero() {
    let moved = integrate(
        particle(5, 7, 123_456, -654_321),
        Vec2 { x: -1_000_001, y: 999_999 },
        840_896,
        100_000,
    );
    assert_eq!(moved, Ok(particle(386, -45_014, 3_813, -450_216)));
}

#[test]
fn integrate_keeps_the_type() {
    let before = Particle { ty: 4, position: Vec2 { x: 1, y: 2 }, velocity: Vec2 { x: 3, y: 4 } };
    let after = integrate(before, Vec2 { x: 0, y: 0 }, ONE, ONE).unwrap();
    assert_eq!(after.ty, 4);
    assert_eq!(after.velocity, Vec2 { x: 3, y: 4 });
    assert_eq!(after.position, Vec2 { x: 4, y: 6 });
}

#[test]
fn integrate_with_a_zero_time_step_only_damps() {
    let after = integrate(particle(10, 20, 1_000, -1_000), Vec2 { x: 77, y: 77 }, 250_000, 0);
    assert_eq!(after, Ok(particle(10, 20, 250, -250)));
}

#[test]
fn friction_alone_scales_velocity_each_tick() {
    let mut p = particle(0, 0, 1_000_000_000, -1_000_000_000);
    let mut expected: i64 = 1_000_000_000;
    for _ in 0..10 {
        p = integrate(p, Vec2 { x: 0, y: 0 }, DEFAULT_FRICTION, DEFAULT_DELTA_TIME).unwrap();
        expected = expected * DEFAULT_FRICTION / ONE;
        assert_eq!(p.velocity, Vec2 { x: expected, y: -expected });
    }
}

#[test]
fn friction_halves_velocity_over_the_half_time() {
    let ticks = FRICTION_HALF_TIME / DEFAULT_DELTA_TIME;
    assert_eq!(ticks, 4);
    let mut p = particle(0, 0, 1_000_000_000, -3 * ONE);
    for _ in 0..ticks {
        p = integrate(p, Vec2 { x: 0, y: 0 }, DEFAULT_FRICTION, DEFAULT_DELTA_TIME).unwrap();
    }
    assert_eq!(p.velocity.x, 499_999_010);
    let ratio_x = p.velocity.x as f64 / 1_000_000_000f64;
    let ratio_y = p.velocity.y as f64 / (-3 * ONE) as f64;
    assert!((ratio_x - 0.5).abs() < 1e-5);
    assert!((ratio_y - 0.5).abs() < 1e-5);
}

#[test]
fn friction_from_any_half_time_halves_velocity() {
    for (delta_time, half_time) in [(0.1f64, 0.4f64), (0.05, 0.4), (0.016, 0.25), (0.2, 1.0)] {
        let friction = (0.5f64.powf(delta_time / half_time) * ONE as f64).round() as i64;
        let step = (delta_time * ONE as f64).round() as i64;
        let ticks = (half_time / delta_time).round() as usize;
        let mut p = particle(0, 0, 800 * ONE, 0);
        for _ in 0..ticks {
            p = integrate(p, Vec2 { x: 0, y: 0 }, friction, step).unwrap();
        }
        let ratio = p.velocity.x as f64 / (800 * ONE) as f64;
        assert!((ratio - 0.5).abs() < 0.02);
    }
}

#[test]
fn integrate_reports_a_velocity_beyond_the_limit() {
    let fast = integrate(particle(0, 0, LIMIT, 0), Vec2 { x: ONE, y: 0 }, ONE, ONE);
    assert_eq!(fast, Err(SimulationError::VelocityOutOfRange));
    let edge = integrate(particle(0, 0, LIMIT - 1, 0), Vec2 { x: 1, y: 0 }, ONE, ONE);
    assert_eq!(edge, Ok(particle(LIMIT, 0, LIMIT, 0)));
    let past = integrate(particle(1, 0, LIMIT - 1, 0), Vec2 { x: 1, y: 0 }, ONE, ONE);
    assert_eq!(past, Err(SimulationError::PositionOutOfRange));
    let slow = integrate(particle(0, 0, LIMIT - 1, 0), Vec2 { x: 1, y: 0 }, ONE, ONE / 2);
    assert_eq!(slow.unwrap().velocity.x, LIMIT - 1);
}

#[test]
fn integrate_reports_a_position_beyond_the_limit() {
    let out = integrate(particle(LIMIT, 0, ONE, 0), Vec2 { x: 0, y: 0 }, ONE, 1);
    assert_eq!(out, Err(SimulationError::PositionOutOfRange));
    let down = integrate(particle(0, -LIMIT, 0, -ONE), Vec2 { x: 0, y: 0 }, ONE, 1);
    assert_eq!(down, Err(SimulationError::PositionOutOfRange));
    let stay = integrate(particle(LIMIT, 0, ONE - 1, 0), Vec2 { x: 0, y: 0 }, ONE, 1);
    assert_eq!(stay, Ok(particle(LIMIT, 0, ONE - 1, 0)));
}

#[test]
fn velocity_is_checked_before_position() {
    let both = integrate(particle(LIMIT, 0, LIMIT, 0), Vec2 { x: LIMIT, y: 0 }, ONE, ONE);
    assert_eq!(both, Err(SimulationError::VelocityOutOfRange));
}

#[test]
fn apply_acceleration_updates_the_named_particles_in_order() {
    let mut particles = vec![particle(0, 0, 0, 0), particle(100, 100, ONE, 0), particle(5, 5, 0, 0)];
    let accelerations =
        vec![(2usize, Vec2 { x: 10 * ONE, y: 0 }), (0, Vec2 { x: 0, y: -10 * ONE }), (2, Vec2 { x: 0, y: 0 })];
    assert!(accelerations_are_valid(&accelerations, particles.len()));
    let result = apply_acceleration(&accelerations, &mut particles, 500_000, 100_000);
    assert_eq!(result, Ok(()));
    assert_eq!(
        particles,
        vec![
            particle(0, -100_000, 0, -ONE),
            particle(100, 100, ONE, 0),
            particle(5 + 100_000 + 50_000, 5, 500_000, 0),
        ]
    );
}

#[test]
fn apply_acceleration_leaves_the_population_alone_on_failure() {
    let before = vec![particle(0, 0, 0, 0), particle(0, 0, LIMIT, 0)];
    let mut particles = before.clone();
    let accelerations = vec![(0usize, Vec2 { x: ONE, y: ONE }), (1, Vec2 { x: ONE, y: 0 })];
    let result = apply_acceleration(&accelerations, &mut particles, ONE, ONE);
    assert_eq!(result, Err(SimulationError::VelocityOutOfRange));
    assert_eq!(particles, before);
}

#[test]
fn accelerations_with_a_foreign_handle_are_not_valid() {
    assert!(!accelerations_are_valid(&vec![(3usize, Vec2 { x: 0, y: 0 })], 3));
    assert!(!accelerations_are_valid(&vec![(0usize, Vec2 { x: LIMIT + 1, y: 0 })], 3));
    assert!(!accelerations_are_valid(&vec![(0usize, Vec2 { x: 0, y: -LIMIT - 1 })], 3));
    assert!(accelerations_are_valid(&vec![(2usize, Vec2 { x: LIMIT, y: -LIMIT })], 3));
    assert!(accelerations_are_valid(&vec![], 0));
}
