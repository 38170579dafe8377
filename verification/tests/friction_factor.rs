use particle_life::config::{
    Config, ConfigError, DEFAULT_DELTA_TIME, DEFAULT_FRICTION, FRICTION_HALF_TIME,
};
use particle_life::fixed::{LIMIT, ONE};
use particle_life::friction::{friction_factor, MAX_HALF_TIME_PARTS};

#[test]
fn friction_factor_of_the_default_clock() {
    assert_eq!(friction_factor(DEFAULT_DELTA_TIME, FRICTION_HALF_TIME), Some(DEFAULT_FRICTION));
    assert_eq!(friction_factor(100_000, 400_000), Some(840_896));
    assert_eq!(friction_factor(1, 4), Some(840_896));
    assert_eq!(friction_factor(25, 100), Some(840_896));
}

#[test]
fn friction_factor_of_whole_half_times() {
    assert_eq!(friction_factor(0, 400_000), Some(ONE));
    assert_eq!(friction_factor(0, 1), Some(ONE));
    assert_eq!(friction_factor(400_000, 400_000), Some(500_000));
    assert_eq!(friction_factor(800_000, 400_000), Some(250_000));
    assert_eq!(friction_factor(1_200_000, 400_000), Some(125_000));
    assert_eq!(friction_factor(6, 1), Some(15_625));
    assert_eq!(friction_factor(7, 1), Some(7_812));
}

#[test]
fn friction_factor_rounds_down() {
    assert_eq!(friction_factor(1, 2), Some(707_106));
    assert_eq!(friction_factor(1, 3), Some(793_700));
    assert_eq!(friction_factor(2, 3), Some(629_960));
    assert_eq!(friction_factor(1, 12), Some(943_874));
    assert_eq!(friction_factor(50_000, 400_000), Some(917_004));
}

#[test]
fn friction_factor_vanishes_for_long_steps() {
    assert_eq!(friction_factor(19, 1), Some(1));
    assert_eq!(friction_factor(20, 1), Some(0));
    assert_eq!(friction_factor(21, 1), Some(0));
    assert_eq!(friction_factor(i64::MAX, 1), Some(0));
    assert_eq!(friction_factor(39, 2), Some(1));
    assert_eq!(friction_factor(41, 2), Some(0));
}

#[test]
fn friction_factor_agrees_with_the_float_power() {
    for half in 1..=24i64 {
        for step in 0..=60i64 {
            let exact = 0.5f64.powf(step as f64 / half as f64) * ONE as f64;
            if (exact - exact.round()).abs() > 1e-6 {
                assert_eq!(friction_factor(step, half), Some(exact.floor() as i64));
            }
        }
    }
}

#[test]
fn friction_factor_handles_the_finest_half_time() {
    let parts = MAX_HALF_TIME_PARTS;
    let exact = 0.5f64.powf(1.0 / parts as f64) * ONE as f64;
    assert_eq!(friction_factor(1, parts), Some(exact.floor() as i64));
    let slow = 0.5f64.powf((20 * parts - 1) as f64 / parts as f64) * ONE as f64;
    assert_eq!(friction_factor(20 * parts - 1, parts), Some(slow.floor() as i64));
}

#[test]
fn friction_factor_needs_a_common_measure() {
    assert_eq!(friction_factor(16_667, 400_000), None);
    assert_eq!(friction_factor(1, MAX_HALF_TIME_PARTS + 1), None);
    assert_eq!(friction_factor(1, i64::MAX), None);
    assert!(friction_factor(2, 2 * MAX_HALF_TIME_PARTS).is_some());
    assert!(friction_factor(16_000, 400_000).is_some());
}

#[test]
fn friction_factor_needs_a_positive_half_time() {
    assert_eq!(friction_factor(100_000, 0), None);
    assert_eq!(friction_factor(100_000, -400_000), None);
    assert_eq!(friction_factor(0, 0), None);
    assert_eq!(friction_factor(-1, 400_000), None);
    assert_eq!(friction_factor(i64::MIN, i64::MIN), None);
}

#[test]
fn config_from_a_half_time_holds_the_friction_factor() {
    let config =
        Config::with_half_time(800 * ONE, 800 * ONE, 20 * ONE, FRICTION_HALF_TIME, DEFAULT_DELTA_TIME);
    assert_eq!(config, Ok(Config::default()));
    let still = Config::with_half_time(800, 600, 20, 1, 0).unwrap();
    assert_eq!(still, Config { width: 800, height: 600, radius: 20, friction: ONE, delta_time: 0 });
}

#[test]
fn config_without_a_half_time_is_refused() {
    assert_eq!(Config::with_half_time(800, 800, 20, 0, 5), Err(ConfigError::HalfTime));
    assert_eq!(Config::with_half_time(800, 800, 20, -4, 5), Err(ConfigError::HalfTime));
    assert_eq!(Config::with_half_time(800, 800, 20, 400_000, 16_667), Err(ConfigError::HalfTime));
}

#[test]
fn config_from_a_half_time_checks_the_rest_first() {
    assert_eq!(Config::with_half_time(0, 800, 0, 0, -1), Err(ConfigError::Domain));
    assert_eq!(Config::with_half_time(800, LIMIT + 1, 20, 4, 1), Err(ConfigError::Domain));
    assert_eq!(Config::with_half_time(800, 800, 0, 0, -1), Err(ConfigError::Radius));
    assert_eq!(Config::with_half_time(800, 800, 20, 0, -1), Err(ConfigError::TimeStep));
    assert_eq!(Config::with_half_time(800, 800, 20, 4, LIMIT + 1), Err(ConfigError::TimeStep));
}
