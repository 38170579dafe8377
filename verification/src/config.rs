//! The physical parameters of a simulation.

use vstd::prelude::*;
use vstd::arithmetic::power::pow;
use crate::fixed::{ONE, LIMIT};
use crate::friction::{
    commensurable, friction_factor, is_friction_factor, lemma_decay_ignores_the_unit,
};

verus! {

/// Width of the default domain.
pub const WINDOW_WIDTH: i64 = 800_000_000;

/// Height of the default domain.
pub const WINDOW_HEIGHT: i64 = 800_000_000;

/// Default distance beyond which two particles exert no force on each other.
pub const MAXIMUM_RADIUS_OF_EFFECT: i64 = 20_000_000;

/// Time step of the default clock: a tenth of a second.
pub const DEFAULT_DELTA_TIME: i64 = 100_000;

/// Time after which friction alone halves a velocity, by default.
pub const FRICTION_HALF_TIME: i64 = 400_000;

/// Factor by which friction scales a velocity over one default time step:
/// one half to the power of the time step over the half time, rounded down.
pub const DEFAULT_FRICTION: i64 = 840_896;

/// Why a set of parameters was refused.
#[derive(Clone, Copy, Debug, PartialEq, Eq, Structural)]
pub enum ConfigError {
    /// The width or the height is not positive, or exceeds the limit.
    Domain,
    /// The interaction radius is not positive, or exceeds the limit.
    Radius,
    /// The friction factor is negative or exceeds one.
    Friction,
    /// The time step is negative or exceeds the limit.
    TimeStep,
    /// The half time of friction is not positive, or has no common measure
    /// with the time step that is coarse enough.
    HalfTime,
}

/// The parameters that every stage of a tick is handed.
#[derive(Clone, Copy, Debug, PartialEq, Eq, Structural)]
pub struct Config {
    /// Extent of the domain along the first axis.
    pub width: i64,
    /// Extent of the domain along the second axis.
    pub height: i64,
    /// Distance beyond which two particles exert no force on each other.
    pub radius: i64,
    /// Factor by which friction scales a velocity over one time step.
    pub friction: i64,
    /// Length of a time step.
    pub delta_time: i64,
}

/// The parameters, or the reason for which they are refused: the domain is
/// looked at first, then the radius, the friction and the time step.
pub open spec fn checked_config(
    width: int,
    height: int,
    radius: int,
    friction: int,
    delta_time: int,
) -> Result<Config, ConfigError> {
    if !(0 < width <= LIMIT && 0 < height <= LIMIT) {
        Err(ConfigError::Domain)
    } else if !(0 < radius <= LIMIT) {
        Err(ConfigError::Radius)
    } else if !(0 <= friction <= ONE) {
        Err(ConfigError::Friction)
    } else if !(0 <= delta_time <= LIMIT) {
        Err(ConfigError::TimeStep)
    } else {
        Ok(
            Config {
                width: width as i64,
                height: height as i64,
                radius: radius as i64,
                friction: friction as i64,
                delta_time: delta_time as i64,
            },
        )
    }
}

/// The reason for which parameters with a half time are refused, if they
/// are: the domain is looked at first, then the radius, the time step and
/// the half time.
pub open spec fn half_time_refusal(
    width: int,
    height: int,
    radius: int,
    half_time: int,
    delta_time: int,
) -> Option<ConfigError> {
    if !(0 < width <= LIMIT && 0 < height <= LIMIT) {
        Some(ConfigError::Domain)
    } else if !(0 < radius <= LIMIT) {
        Some(ConfigError::Radius)
    } else if !(0 <= delta_time <= LIMIT) {
        Some(ConfigError::TimeStep)
    } else if !commensurable(delta_time, half_time) {
        Some(ConfigError::HalfTime)
    } else {
        None
    }
}

impl Config {
    /// Well-formedness: a domain and a radius that are positive and within
    /// the limit, a friction factor between zero and one, and a time step
    /// that is not negative and within the limit.
    pub open spec fn wf(self) -> bool {
        &&& 0 < self.width <= LIMIT
        &&& 0 < self.height <= LIMIT
        &&& 0 < self.radius <= LIMIT
        &&& 0 <= self.friction <= ONE
        &&& 0 <= self.delta_time <= LIMIT
    }

    /// Checks a set of parameters.
    pub fn new(
        width: i64,
        height: i64,
        radius: i64,
        friction: i64,
        delta_time: i64,
    ) -> (result: Result<Config, ConfigError>)
        ensures
            result == checked_config(
                width as int,
                height as int,
                radius as int,
                friction as int,
                delta_time as int,
            ),
            result matches Ok(config) ==> config.wf(),
    {
        if width <= 0 || width > LIMIT || height <= 0 || height > LIMIT {
            Err(ConfigError::Domain)
        } else if radius <= 0 || radius > LIMIT {
            Err(ConfigError::Radius)
        } else if friction < 0 || friction > ONE {
            Err(ConfigError::Friction)
        } else if delta_time < 0 || delta_time > LIMIT {
            Err(ConfigError::TimeStep)
        } else {
            Ok(Config { width, height, radius, friction, delta_time })
        }
    }

    /// Checks a set of parameters in which friction is given by its half
    /// time, and works out the friction factor of the time step.
    pub fn with_half_time(
        width: i64,
        height: i64,
        radius: i64,
        half_time: i64,
        delta_time: i64,
    ) -> (result: Result<Config, ConfigError>)
        ensures
            match half_time_refusal(
                width as int,
                height as int,
                radius as int,
                half_time as int,
                delta_time as int,
            ) {
                Some(e) => result == Err::<Config, ConfigError>(e),
                None => result matches Ok(config) && config.wf() && config.width == width
                    && config.height == height && config.radius == radius && config.delta_time
                    == delta_time && is_friction_factor(
                    config.friction as int,
                    delta_time as nat,
                    half_time as nat,
                ),
            },
    {
        if width <= 0 || width > LIMIT || height <= 0 || height > LIMIT {
            Err(ConfigError::Domain)
        } else if radius <= 0 || radius > LIMIT {
            Err(ConfigError::Radius)
        } else if delta_time < 0 || delta_time > LIMIT {
            Err(ConfigError::TimeStep)
        } else {
            match friction_factor(delta_time, half_time) {
                Some(friction) => Ok(Config { width, height, radius, friction, delta_time }),
                None => Err(ConfigError::HalfTime),
            }
        }
    }

    /// Tells whether the parameters are well-formed.
    pub fn is_valid(&self) -> (valid: bool)
        ensures
            valid == self.wf(),
    {
        0 < self.width && self.width <= LIMIT && 0 < self.height && self.height <= LIMIT && 0
            < self.radius && self.radius <= LIMIT && 0 <= self.friction && self.friction <= ONE
            && 0 <= self.delta_time && self.delta_time <= LIMIT
    }
}

impl Default for Config {
    /// The default parameters.
    fn default() -> (config: Config)
        ensures
            config.wf(),
            config == (Config {
                width: WINDOW_WIDTH,
                height: WINDOW_HEIGHT,
                radius: MAXIMUM_RADIUS_OF_EFFECT,
                friction: DEFAULT_FRICTION,
                delta_time: DEFAULT_DELTA_TIME,
            }),
    {
        Config {
            width: WINDOW_WIDTH,
            height: WINDOW_HEIGHT,
            radius: MAXIMUM_RADIUS_OF_EFFECT,
            friction: DEFAULT_FRICTION,
            delta_time: DEFAULT_DELTA_TIME,
        }
    }
}

/// The default friction factor is the friction factor of the default time
/// step for the default half time: four time steps make up the half time,
/// and the factor is the fourth root of one half in millionths, rounded
/// down.
pub proof fn default_friction_is_the_friction_factor()
    ensures
        4 * DEFAULT_DELTA_TIME == FRICTION_HALF_TIME,
        is_friction_factor(
            DEFAULT_FRICTION as int,
            DEFAULT_DELTA_TIME as nat,
            FRICTION_HALF_TIME as nat,
        ),
{
    reveal_with_fuel(pow, 5);
    assert(840_896int * (840_896 * (840_896 * (840_896 * 1)))
        == 499_999_012_355_387_850_489_856int) by (nonlinear_arith);
    assert(840_897int * (840_897 * (840_897 * (840_897 * 1)))
        == 500_001_390_770_336_952_922_881int) by (nonlinear_arith);
    assert(1_000_000int * (1_000_000 * (1_000_000 * (1_000_000 * 1)))
        == 1_000_000_000_000_000_000_000_000int) by (nonlinear_arith);
    assert(pow(2, 1) == 2);
    assert(is_friction_factor(DEFAULT_FRICTION as int, 1, 4));
    lemma_decay_ignores_the_unit(DEFAULT_FRICTION as int, 1, 4, 100_000);
    lemma_decay_ignores_the_unit(DEFAULT_FRICTION + 1, 1, 4, 100_000);
}

} // verus!
