use particle_life::acceleration::{accelerate, compute_acceleration, pull};
use particle_life::attraction::AttractionFactors;
use particle_life::fixed::{LIMIT, ONE};
use particle_life::particle::{Particle, SimulationError};
use particle_life::vector::Vec2;

const RADIUS: i64 = 20 * ONE;

fn at(ty: usize, x: i64, y: i64) -> Particle {
    Particle { ty, position: Vec2 { x, y }, velocity: Vec2 { x: 0, y: 0 } }
}

fn one_type(factor: i64) -> AttractionFactors {
    AttractionFactors::new(1, vec![factor]).unwrap()
}

#[test]
fn pull_points_along_the_displacement() {
    let factors = one_type(0);
    assert_eq!(
        pull(&at(0, 0, 0), &at(0, 3 * ONE, 4 * ONE), &factors, RADIUS),
        Vec2 { x: -300_000, y: -400_000 }
    );
    assert_eq!(
        pull(&at(0, 3 * ONE, 4 * ONE), &at(0, 0, 0), &factors, RADIUS),
        Vec2 { x: 300_000, y: 400_000 }
    );
    assert_eq!(pull(&at(0, 0, 0), &at(0, 1, 1), &factors, RADIUS), Vec2 { x: -ONE, y: -ONE });
}

#[test]
fn pull_in_the_shell_follows_the_factor() {
    assert_eq!(
        pull(&at(0, 0, 0), &at(0, 15 * ONE, 0), &one_type(500_000), RADIUS),
        Vec2 { x: 500_000, y: 0 }
    );
    assert_eq!(
        pull(&at(0, 0, 0), &at(0, 15 * ONE, 0), &one_type(-500_000), RADIUS),
        Vec2 { x: -500_000, y: 0 }
    );
    assert_eq!(
        pull(&at(0, 0, 0), &at(0, -7 * ONE, 11 * ONE), &one_type(-300_000), RADIUS),
        Vec2 { x: 97_874, y: -153_802 }
    );
}

#[test]
fn pull_uses_the_factor_of_the_ordered_pair() {
    let factors = AttractionFactors::new(2, vec![0, 400_000, -800_000, 0]).unwrap();
    let a = at(0, 0, 0);
    let b = at(1, 15 * ONE, 0);
    assert_eq!(pull(&a, &b, &factors, RADIUS), Vec2 { x: 400_000, y: 0 });
    assert_eq!(pull(&b, &a, &factors, RADIUS), Vec2 { x: 800_000, y: 0 });
}

#[test]
fn coincident_particles_do_not_pull() {
    for factor in [-ONE, 0, ONE] {
        assert_eq!(
            pull(&at(0, 5, -5), &at(0, 5, -5), &one_type(factor), RADIUS),
            Vec2 { x: 0, y: 0 }
        );
    }
    let particles = vec![at(0, 5, -5), at(0, 5, -5), at(0, 5, -5)];
    let acceleration = accelerate(&vec![0, 1, 2], &particles, &one_type(ONE), RADIUS);
    assert_eq!(acceleration, Ok(Vec2 { x: 0, y: 0 }));
}

#[test]
fn particles_beyond_the_radius_do_not_pull() {
    for factor in [-ONE, ONE] {
        assert_eq!(
            pull(&at(0, 0, 0), &at(0, 20 * ONE, 0), &one_type(factor), RADIUS),
            Vec2 { x: 0, y: 0 }
        );
        assert_eq!(
            pull(&at(0, 0, 0), &at(0, 200 * ONE, -300 * ONE), &one_type(factor), RADIUS),
            Vec2 { x: 0, y: 0 }
        );
    }
}

#[test]
fn pull_ignores_the_shorter_way_round_the_domain() {
    let left = at(0, -399 * ONE, 0);
    let right = at(0, 399 * ONE, 0);
    assert_eq!(pull(&left, &right, &one_type(ONE), RADIUS), Vec2 { x: 0, y: 0 });
}

#[test]
fn acceleration_sums_the_pulls_and_scales_by_the_radius() {
    let particles = vec![at(0, 0, 0), at(0, 3 * ONE, 4 * ONE), at(0, 15 * ONE, 0), at(0, 0, -ONE)];
    let factors = one_type(500_000);
    let all = accelerate(&vec![0, 1, 2, 3], &particles, &factors, RADIUS);
    assert_eq!(all, Ok(Vec2 { x: 20 * (-300_000 + 500_000), y: 20 * (-400_000 + 900_000) }));
    let reordered = accelerate(&vec![0, 3, 2, 1], &particles, &factors, RADIUS);
    assert_eq!(reordered, all);
    let alone = accelerate(&vec![2], &particles, &factors, RADIUS);
    assert_eq!(alone, Ok(Vec2 { x: 0, y: 0 }));
}

#[test]
fn compute_acceleration_pairs_each_result_with_its_handle() {
    let particles = vec![at(0, 0, 0), at(0, 15 * ONE, 0), at(0, 300 * ONE, 0)];
    let lists = vec![vec![1, 0], vec![2], vec![0, 1]];
    let result = compute_acceleration(&lists, &particles, &one_type(500_000), RADIUS);
    assert_eq!(
        result,
        Ok(vec![
            (1, Vec2 { x: -10 * ONE, y: 0 }),
            (2, Vec2 { x: 0, y: 0 }),
            (0, Vec2 { x: 10 * ONE, y: 0 }),
        ])
    );
    assert_eq!(compute_acceleration(&vec![], &particles, &one_type(0), RADIUS), Ok(vec![]));
}

#[test]
fn acceleration_beyond_the_limit_is_reported() {
    let particles = vec![at(0, 0, 0), at(0, 1, 0), at(0, 2, 0)];
    let factors = one_type(0);
    let one = accelerate(&vec![0, 1], &particles, &factors, LIMIT);
    assert_eq!(one, Ok(Vec2 { x: -LIMIT, y: 0 }));
    let two = accelerate(&vec![0, 1, 2], &particles, &factors, LIMIT);
    assert_eq!(two, Err(SimulationError::AccelerationOutOfRange));
    let lists = vec![vec![1], vec![0, 1, 2]];
    assert_eq!(
        compute_acceleration(&lists, &particles, &factors, LIMIT),
        Err(SimulationError::AccelerationOutOfRange)
    );
}
