use particle_life::attraction::AttractionFactors;
use particle_life::config::Config;
use particle_life::fixed::{LIMIT, ONE};
use particle_life::particle::{Particle, SimulationError};
use particle_life::population::{population_is_valid, setup, spawn_particle, NUMBER_OF_PARTICLES};
use particle_life::simulation::{advance, step, tick};
use particle_life::spatial::SpatialIndex;
use particle_life::vector::Vec2;

fn at(ty: usize, x: i64, y: i64) -> Particle {
    Particle { ty, position: Vec2 { x, y }, velocity: Vec2 { x: 0, y: 0 } }
}

fn one_type(factor: i64) -> AttractionFactors {
    AttractionFactors::new(1, vec![factor]).unwrap()
}

#[test]
fn two_particles_in_the_shell_attract() {
    let config = Config::default();
    let mut particles = vec![at(0, 0, 0), at(0, 15 * ONE, 0)];
    assert_eq!(step(&mut particles, &one_type(500_000), &config), Ok(()));
    assert_eq!(particles[0].velocity, Vec2 { x: ONE, y: 0 });
    assert_eq!(particles[1].velocity, Vec2 { x: -ONE, y: 0 });
    assert_eq!(particles[0].position, Vec2 { x: 100_000, y: 0 });
    assert_eq!(particles[1].position, Vec2 { x: 14_900_000, y: 0 });
}

#[test]
fn two_particles_in_the_shell_repel_under_a_negative_factor() {
    let config = Config::default();
    let mut particles = vec![at(0, 0, 0), at(0, 0, 15 * ONE)];
    assert_eq!(step(&mut particles, &one_type(-500_000), &config), Ok(()));
    assert_eq!(particles[0].velocity, Vec2 { x: 0, y: -ONE });
    assert_eq!(particles[1].velocity, Vec2 { x: 0, y: ONE });
}

#[test]
fn two_particles_in_the_core_repel_whatever_the_factor() {
    let config = Config::default();
    for factor in [-ONE, -500_000, 0, 500_000, ONE] {
        let mut particles = vec![at(0, 0, 0), at(0, 2 * ONE, 0)];
        assert_eq!(step(&mut particles, &one_type(factor), &config), Ok(()));
        assert_eq!(particles[0].velocity, Vec2 { x: -1_600_000, y: 0 });
        assert_eq!(particles[1].velocity, Vec2 { x: 1_600_000, y: 0 });
        assert_eq!(particles[0].position, Vec2 { x: -160_000, y: 0 });
        assert_eq!(particles[1].position, Vec2 { x: 2_160_000, y: 0 });
    }
}

#[test]
fn particles_of_different_types_repel_in_the_core() {
    let config = Config::default();
    let factors = AttractionFactors::new(2, vec![ONE, ONE, ONE, ONE]).unwrap();
    let mut particles = vec![at(0, 0, 0), at(1, 0, 2 * ONE)];
    assert_eq!(step(&mut particles, &factors, &config), Ok(()));
    assert_eq!(particles[0].velocity, Vec2 { x: 0, y: -1_600_000 });
    assert_eq!(particles[1].velocity, Vec2 { x: 0, y: 1_600_000 });
}

#[test]
fn tick_reads_neighbors_from_the_index_it_is_given() {
    let config = Config::default();
    let mut particles = vec![at(0, 0, 0), at(0, 15 * ONE, 0)];
    let far = SpatialIndex::build(
        &vec![at(0, 300 * ONE, 300 * ONE), at(0, 200 * ONE, 0)],
        config.width,
        config.height,
        config.radius,
    );
    assert_eq!(tick(&mut particles, &far, &one_type(500_000), &config), Ok(()));
    assert_eq!(particles, vec![at(0, 0, 0), at(0, 15 * ONE, 0)]);
    let half = SpatialIndex::build(
        &vec![at(0, 0, 0), at(0, 200 * ONE, 0)],
        config.width,
        config.height,
        config.radius,
    );
    assert_eq!(tick(&mut particles, &half, &one_type(500_000), &config), Ok(()));
    assert_eq!(particles[0], at(0, 0, 0));
    assert_eq!(particles[1].velocity, Vec2 { x: -ONE, y: 0 });
    particles[1] = at(0, 15 * ONE, 0);
    let near = SpatialIndex::build(&particles, config.width, config.height, config.radius);
    assert_eq!(tick(&mut particles, &near, &one_type(500_000), &config), Ok(()));
    assert_eq!(particles[0].velocity, Vec2 { x: ONE, y: 0 });
}

#[test]
fn tick_does_not_wrap_but_step_does() {
    let config = Config::default();
    let start = Particle {
        ty: 0,
        position: Vec2 { x: 399_999_999, y: 0 },
        velocity: Vec2 { x: 10 * ONE, y: 0 },
    };
    let mut ticked = vec![start];
    let index = SpatialIndex::build(&ticked, config.width, config.height, config.radius);
    assert_eq!(tick(&mut ticked, &index, &one_type(0), &config), Ok(()));
    assert_eq!(ticked[0].velocity.x, 8_408_960);
    assert_eq!(ticked[0].position.x, 399_999_999 + 840_896);
    let mut stepped = vec![start];
    assert_eq!(step(&mut stepped, &one_type(0), &config), Ok(()));
    assert_eq!(stepped[0].velocity.x, 8_408_960);
    assert_eq!(stepped[0].position.x, 399_999_999 + 840_896 - 800_000_000);
}

#[test]
fn population_and_types_survive_many_ticks() {
    let config = Config::default();
    let factors = AttractionFactors::default();
    let mut particles = setup(300, config.width, config.height, factors.number_of_types());
    let types: Vec<usize> = particles.iter().map(|p| p.ty).collect();
    assert_eq!(advance(&mut particles, &factors, &config, 25), Ok(()));
    assert_eq!(particles.len(), 300);
    assert_eq!(particles.iter().map(|p| p.ty).collect::<Vec<usize>>(), types);
    assert!(population_is_valid(&particles, factors.number_of_types()));
    for p in &particles {
        assert!((-400 * ONE..400 * ONE).contains(&p.position.x));
        assert!((-400 * ONE..400 * ONE).contains(&p.position.y));
    }
}

#[test]
fn advance_is_a_run_of_steps() {
    let config = Config::default();
    let factors = AttractionFactors::new(2, vec![300_000, -700_000, 900_000, -100_000]).unwrap();
    let start = vec![at(0, 0, 0), at(1, 12 * ONE, 3 * ONE), at(0, -5 * ONE, 9 * ONE), at(1, 4 * ONE, -6 * ONE)];
    let mut by_steps = start.clone();
    for _ in 0..7 {
        assert_eq!(step(&mut by_steps, &factors, &config), Ok(()));
    }
    let mut at_once = start.clone();
    assert_eq!(advance(&mut at_once, &factors, &config, 7), Ok(()));
    assert_eq!(at_once, by_steps);
    assert_ne!(at_once, start);
    let mut untouched = start.clone();
    assert_eq!(advance(&mut untouched, &factors, &config, 0), Ok(()));
    assert_eq!(untouched, start);
}

#[test]
fn a_failing_step_leaves_the_population_as_it_was() {
    let config = Config::new(LIMIT, LIMIT, LIMIT, ONE, ONE).unwrap();
    let start = vec![at(0, 0, 0), at(0, 1, 0), at(0, 2, 0)];
    let mut particles = start.clone();
    assert_eq!(
        step(&mut particles, &one_type(0), &config),
        Err(SimulationError::AccelerationOutOfRange)
    );
    assert_eq!(particles, start);
    assert_eq!(
        advance(&mut particles, &one_type(0), &config, 3),
        Err(SimulationError::AccelerationOutOfRange)
    );
    assert_eq!(particles, start);
}

#[test]
fn setup_scatters_particles_at_rest_over_the_domain() {
    let particles = setup(2_000, 800 * ONE, 600 * ONE, 5);
    assert_eq!(particles.len(), 2_000);
    assert!(population_is_valid(&particles, 5));
    let mut types = [0usize; 5];
    for p in &particles {
        assert!((-400 * ONE..400 * ONE).contains(&p.position.x));
        assert!((-300 * ONE..300 * ONE).contains(&p.position.y));
        assert_eq!(p.velocity, Vec2 { x: 0, y: 0 });
        types[p.ty] += 1;
    }
    assert!(types.iter().all(|count| *count > 0));
    assert!(particles.iter().any(|p| p.position.x != -400 * ONE));
    assert!(particles.iter().any(|p| p.position.y != -300 * ONE));
    assert!(particles.iter().any(|p| p.position.x > 0));
    assert!(particles.iter().any(|p| p.position.x < 0));
}

#[test]
fn setup_of_the_default_population_fills_it() {
    let particles = setup(NUMBER_OF_PARTICLES as usize, 800 * ONE, 800 * ONE, 5);
    assert_eq!(particles.len(), 10_000);
    assert!(setup(0, 1, 1, 1).is_empty());
    assert_eq!(setup(3, 1, 1, 1), vec![at(0, 0, 0), at(0, 0, 0), at(0, 0, 0)]);
}

#[test]
fn spawn_particle_appends_a_particle_at_rest() {
    let mut particles = vec![at(1, 5, 5)];
    let handle = spawn_particle(&mut particles, Vec2 { x: -3, y: 8 }, 2);
    assert_eq!(handle, 1);
    assert_eq!(particles, vec![at(1, 5, 5), at(2, -3, 8)]);
}

#[test]
fn population_validity_checks_types_and_limits() {
    assert!(population_is_valid(&vec![at(0, LIMIT, -LIMIT)], 1));
    assert!(!population_is_valid(&vec![at(1, 0, 0)], 1));
    assert!(!population_is_valid(&vec![at(0, LIMIT + 1, 0)], 1));
    assert!(!population_is_valid(&vec![at(0, 0, -LIMIT - 1)], 1));
    let fast = Particle { ty: 0, position: Vec2 { x: 0, y: 0 }, velocity: Vec2 { x: 0, y: LIMIT + 1 } };
    assert!(!population_is_valid(&vec![at(0, 0, 0), fast], 1));
    assert!(population_is_valid(&vec![], 0));
}
