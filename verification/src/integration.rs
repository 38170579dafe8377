//! Advancing velocities and positions by one time step.
//!
//! The velocity is damped by the friction factor and then gains the
//! acceleration over the step; the position moves with the new velocity.

use vstd::prelude::*;
use crate::config::DEFAULT_FRICTION;
use crate::fixed::{
    div_trunc, in_limit, lemma_scaled_by_fraction, magnitude, mul_fixed, LIMIT, ONE,
};
use crate::particle::{Particle, SimulationError, population_in_limit, same_types};
use crate::vector::Vec2;

verus! {

/// A velocity component after one step.
pub open spec fn next_velocity(velocity: int, acceleration: int, friction: int, delta_time: int)
    -> int {
    mul_fixed(friction, velocity) + mul_fixed(acceleration, delta_time)
}

/// A position component after one step, given the velocity after the step.
pub open spec fn next_position(position: int, velocity: int, delta_time: int) -> int {
    position + mul_fixed(velocity, delta_time)
}

/// The particle after one step, or the quantity that left the limit: the
/// velocity is looked at before the position.
pub open spec fn integrate_spec(
    particle: Particle,
    acceleration: Vec2,
    friction: int,
    delta_time: int,
) -> Result<Particle, SimulationError> {
    let vx = next_velocity(particle.velocity.x as int, acceleration.x as int, friction, delta_time);
    let vy = next_velocity(particle.velocity.y as int, acceleration.y as int, friction, delta_time);
    let px = next_position(particle.position.x as int, vx, delta_time);
    let py = next_position(particle.position.y as int, vy, delta_time);
    if !in_limit(vx) || !in_limit(vy) {
        Err(SimulationError::VelocityOutOfRange)
    } else if !in_limit(px) || !in_limit(py) {
        Err(SimulationError::PositionOutOfRange)
    } else {
        Ok(
            Particle {
                ty: particle.ty,
                position: Vec2 { x: px as i64, y: py as i64 },
                velocity: Vec2 { x: vx as i64, y: vy as i64 },
            },
        )
    }
}

/// The population after the accelerations have been applied in order, each
/// to the particle that it names, or the error of the first one that fails.
pub open spec fn apply_spec(
    particles: Seq<Particle>,
    accelerations: Seq<(usize, Vec2)>,
    friction: int,
    delta_time: int,
) -> Result<Seq<Particle>, SimulationError>
    decreases accelerations.len(),
{
    if accelerations.len() == 0 {
        Ok(particles)
    } else {
        match apply_spec(particles, accelerations.drop_last(), friction, delta_time) {
            Err(e) => Err(e),
            Ok(before) => {
                let (handle, acceleration) = accelerations.last();
                match integrate_spec(before[handle as int], acceleration, friction, delta_time) {
                    Err(e) => Err(e),
                    Ok(particle) => Ok(before.update(handle as int, particle)),
                }
            },
        }
    }
}

/// Whether every acceleration names a particle of the population and stays
/// within the limit.
pub open spec fn accelerations_valid(accelerations: Seq<(usize, Vec2)>, population: nat) -> bool {
    forall|k: int|
        0 <= k < accelerations.len() ==> (#[trigger] accelerations[k]).0 < population
            && accelerations[k].1.within_limit()
}

/// Tells whether every acceleration names a particle of a population of the
/// given size and stays within the limit.
pub fn accelerations_are_valid(
    accelerations: &Vec<(usize, Vec2)>,
    population: usize,
) -> (valid: bool)
    ensures
        valid == accelerations_valid(accelerations@, population as nat),
{
    let mut k: usize = 0;
    while k < accelerations.len()
        invariant
            k <= accelerations@.len(),
            forall|i: int|
                0 <= i < k ==> (#[trigger] accelerations@[i]).0 < population
                    && accelerations@[i].1.within_limit(),
        decreases accelerations@.len() - k,
    {
        let (handle, a) = accelerations[k];
        if handle >= population || a.x < -LIMIT || a.x > LIMIT || a.y < -LIMIT || a.y > LIMIT {
            return false;
        }
        k += 1;
    }
    true
}

/// The product of two scalars within the limit fits comfortably.
proof fn lemma_product_in_limit(a: int, b: int)
    requires
        in_limit(a),
        in_limit(b),
    ensures
        -0x100_0000_0000 * 0x100_0000_0000 <= a * b <= 0x100_0000_0000 * 0x100_0000_0000,
{
    assert(-0x100_0000_0000 * 0x100_0000_0000 <= a * b <= 0x100_0000_0000 * 0x100_0000_0000)
        by (nonlinear_arith)
        requires
            -0x100_0000_0000 <= a <= 0x100_0000_0000,
            -0x100_0000_0000 <= b <= 0x100_0000_0000,
    ;
}

/// Multiplies two fixed-point numbers within the limit.
fn scale(a: i64, b: i64) -> (product: i128)
    requires
        in_limit(a as int),
        in_limit(b as int),
    ensures
        product == mul_fixed(a as int, b as int),
        -0x100_0000_0000 * 0x100_0000_0000 <= product <= 0x100_0000_0000 * 0x100_0000_0000,
{
    proof {
        lemma_product_in_limit(a as int, b as int);
    }
    div_trunc((a as i128) * (b as i128), ONE as i128)
}

/// Advances one particle by one step.
pub fn integrate(
    particle: Particle,
    acceleration: Vec2,
    friction: i64,
    delta_time: i64,
) -> (result: Result<Particle, SimulationError>)
    requires
        particle.position.within_limit(),
        particle.velocity.within_limit(),
        acceleration.within_limit(),
        0 <= friction <= ONE,
        0 <= delta_time <= LIMIT,
    ensures
        result == integrate_spec(particle, acceleration, friction as int, delta_time as int),
        result matches Ok(p) ==> p.ty == particle.ty && p.position.within_limit()
            && p.velocity.within_limit(),
{
    let limit: i128 = LIMIT as i128;
    let vx: i128 = scale(friction, particle.velocity.x) + scale(acceleration.x, delta_time);
    let vy: i128 = scale(friction, particle.velocity.y) + scale(acceleration.y, delta_time);
    if vx < -limit || vx > limit || vy < -limit || vy > limit {
        return Err(SimulationError::VelocityOutOfRange);
    }
    let px: i128 = particle.position.x as i128 + scale(vx as i64, delta_time);
    let py: i128 = particle.position.y as i128 + scale(vy as i64, delta_time);
    if px < -limit || px > limit || py < -limit || py > limit {
        return Err(SimulationError::PositionOutOfRange);
    }
    Ok(
        Particle {
            ty: particle.ty,
            position: Vec2 { x: px as i64, y: py as i64 },
            velocity: Vec2 { x: vx as i64, y: vy as i64 },
        },
    )
}

/// Copies a population.
fn snapshot(particles: &Vec<Particle>) -> (copy: Vec<Particle>)
    ensures
        copy@ == particles@,
{
    let mut copy: Vec<Particle> = Vec::new();
    let mut i: usize = 0;
    while i < particles.len()
        invariant
            i <= particles.len(),
            copy@ == particles@.subrange(0, i as int),
        decreases particles.len() - i,
    {
        copy.push(particles[i]);
        assert(copy@ =~= particles@.subrange(0, i + 1));
        i += 1;
    }
    assert(particles@.subrange(0, i as int) =~= particles@);
    copy
}

/// Applies the accelerations in order, each to the particle that it names.
/// Where a velocity or a position leaves the limit, the population is left
/// as it was.
pub fn apply_acceleration(
    accelerations: &Vec<(usize, Vec2)>,
    particles: &mut Vec<Particle>,
    friction: i64,
    delta_time: i64,
) -> (result: Result<(), SimulationError>)
    requires
        population_in_limit(old(particles)@),
        accelerations_valid(accelerations@, old(particles)@.len()),
        0 <= friction <= ONE,
        0 <= delta_time <= LIMIT,
    ensures
        match apply_spec(old(particles)@, accelerations@, friction as int, delta_time as int) {
            Ok(next) => result is Ok && final(particles)@ == next,
            Err(e) => result == Err::<(), SimulationError>(e) && final(particles)@ == old(
                particles,
            )@,
        },
        same_types(old(particles)@, final(particles)@),
        population_in_limit(final(particles)@),
{
    let mut next = snapshot(particles);
    let mut k: usize = 0;
    while k < accelerations.len()
        invariant
            k <= accelerations.len(),
            same_types(particles@, next@),
            population_in_limit(particles@),
            population_in_limit(next@),
            accelerations_valid(accelerations@, particles@.len()),
            0 <= friction <= ONE,
            0 <= delta_time <= LIMIT,
            apply_spec(
                particles@,
                accelerations@.subrange(0, k as int),
                friction as int,
                delta_time as int,
            ) == Ok::<Seq<Particle>, SimulationError>(next@),
        decreases accelerations.len() - k,
    {
        let (handle, acceleration) = accelerations[k];
        proof {
            let prefix = accelerations@.subrange(0, k + 1);
            assert(prefix.drop_last() =~= accelerations@.subrange(0, k as int));
            assert(prefix.last() == accelerations@[k as int]);
            lemma_apply_failure_persists(
                particles@,
                accelerations@,
                k + 1,
                friction as int,
                delta_time as int,
            );
        }
        match integrate(next[handle], acceleration, friction, delta_time) {
            Ok(particle) => {
                next.set(handle, particle);
            },
            Err(e) => {
                return Err(e);
            },
        }
        k += 1;
    }
    assert(accelerations@.subrange(0, k as int) =~= accelerations@);
    *particles = next;
    Ok(())
}

/// Once a prefix of the accelerations has failed, the whole sequence fails
/// with the same error.
pub proof fn lemma_apply_failure_persists(
    particles: Seq<Particle>,
    accelerations: Seq<(usize, Vec2)>,
    k: int,
    friction: int,
    delta_time: int,
)
    requires
        0 <= k <= accelerations.len(),
    ensures
        apply_spec(particles, accelerations.subrange(0, k), friction, delta_time) matches Err(e)
            ==> apply_spec(particles, accelerations, friction, delta_time) == Err::<
            Seq<Particle>,
            SimulationError,
        >(e),
    decreases accelerations.len() - k,
{
    if k == accelerations.len() {
        assert(accelerations.subrange(0, k) =~= accelerations);
    } else {
        let longer = accelerations.subrange(0, k + 1);
        assert(longer.drop_last() =~= accelerations.subrange(0, k));
        lemma_apply_failure_persists(particles, accelerations, k + 1, friction, delta_time);
    }
}

/// With no acceleration, friction alone acts: each step scales a velocity
/// component by the friction factor, so its magnitude never grows and its
/// sign never flips.
pub proof fn friction_decays_velocity(velocity: int, friction: int, delta_time: int)
    requires
        0 <= friction <= ONE,
    ensures
        next_velocity(velocity, 0, friction, delta_time) == mul_fixed(friction, velocity),
        magnitude(next_velocity(velocity, 0, friction, delta_time)) <= magnitude(velocity),
        velocity >= 0 ==> next_velocity(velocity, 0, friction, delta_time) >= 0,
        velocity <= 0 ==> next_velocity(velocity, 0, friction, delta_time) <= 0,
{
    lemma_scaled_by_fraction(velocity, friction);
    assert(friction * velocity == velocity * friction) by (nonlinear_arith);
    assert(0 * delta_time == 0) by (nonlinear_arith);
}

/// A velocity component after `ticks` steps without acceleration.
pub open spec fn coast(velocity: int, friction: int, ticks: nat) -> int
    decreases ticks,
{
    if ticks == 0 {
        velocity
    } else {
        mul_fixed(friction, coast(velocity, friction, (ticks - 1) as nat))
    }
}

/// Without acceleration a velocity decays geometrically: every further step
/// scales it by the friction factor once more, and its magnitude never
/// exceeds the one it started with.
pub proof fn coasting_decays_geometrically(
    velocity: int,
    friction: int,
    delta_time: int,
    ticks: nat,
)
    requires
        0 <= friction <= ONE,
    ensures
        coast(velocity, friction, ticks + 1) == next_velocity(
            coast(velocity, friction, ticks),
            0,
            friction,
            delta_time,
        ),
        magnitude(coast(velocity, friction, ticks + 1)) <= magnitude(
            coast(velocity, friction, ticks),
        ),
        magnitude(coast(velocity, friction, ticks)) <= magnitude(velocity),
    decreases ticks,
{
    friction_decays_velocity(coast(velocity, friction, ticks), friction, delta_time);
    if ticks > 0 {
        coasting_decays_geometrically(velocity, friction, delta_time, (ticks - 1) as nat);
    }
}

/// With the default friction factor, the four steps that make up the half
/// time halve a velocity: what is left is never more than half of it, and
/// falls short of half by no more than a millionth of the velocity and four
/// units of rounding.
pub proof fn default_friction_halves_velocity(velocity: int)
    ensures
        2 * magnitude(coast(velocity, DEFAULT_FRICTION as int, 4)) <= magnitude(velocity),
        2 * magnitude(coast(velocity, DEFAULT_FRICTION as int, 4)) >= magnitude(velocity)
            - magnitude(velocity) / 500_000 - 8,
{
    let f = DEFAULT_FRICTION as int;
    let m = magnitude(velocity);
    reveal_with_fuel(coast, 5);
    let v1 = coast(velocity, f, 1);
    let v2 = coast(velocity, f, 2);
    let v3 = coast(velocity, f, 3);
    let v4 = coast(velocity, f, 4);
    assert(v1 == mul_fixed(f, velocity));
    assert(v2 == mul_fixed(f, v1));
    assert(v3 == mul_fixed(f, v2));
    assert(v4 == mul_fixed(f, v3));
    let m1 = (840_896 * m) / 1_000_000;
    let m2 = (840_896 * m1) / 1_000_000;
    let m3 = (840_896 * m2) / 1_000_000;
    let m4 = (840_896 * m3) / 1_000_000;
    assert(magnitude(v1) == m1);
    assert(magnitude(v2) == m2);
    assert(magnitude(v3) == m3);
    assert(magnitude(v4) == m4);
}

} // verus!
