//! Creating and checking populations.

use vstd::prelude::*;
use crate::boundary::population_in_domain;
use crate::fixed::LIMIT;
use crate::particle::{Particle, particle_valid, population_valid};
use crate::random::random_in_range;
use crate::vector::Vec2;

verus! {

/// Number of particles of the default population.
pub const NUMBER_OF_PARTICLES: u64 = 10000;

/// A particle at rest.
pub open spec fn at_rest(p: Particle) -> bool {
    p.velocity.x == 0 && p.velocity.y == 0
}

/// Adds a particle at rest to the population and returns its handle.
pub fn spawn_particle(particles: &mut Vec<Particle>, location: Vec2, ty: usize) -> (handle: usize)
    ensures
        handle == old(particles)@.len(),
        final(particles)@ == old(particles)@.push(
            Particle { ty, position: location, velocity: Vec2 { x: 0, y: 0 } },
        ),
{
    let handle = particles.len();
    particles.push(Particle { ty, position: location, velocity: Vec2::zero() });
    handle
}

/// Creates a population of particles at rest, each with a random type and
/// at a random position of the domain.
pub fn setup(
    number_of_particles: usize,
    width: i64,
    height: i64,
    number_of_types: usize,
) -> (particles: Vec<Particle>)
    requires
        0 < width <= LIMIT,
        0 < height <= LIMIT,
        0 < number_of_types <= i64::MAX,
    ensures
        particles@.len() == number_of_particles,
        population_valid(particles@, number_of_types as nat),
        population_in_domain(particles@, width as int, height as int),
        forall|i: int| 0 <= i < particles@.len() ==> at_rest(#[trigger] particles@[i]),
{
    let mut particles: Vec<Particle> = Vec::new();
    let mut i: usize = 0;
    while i < number_of_particles
        invariant
            0 < width <= LIMIT,
            0 < height <= LIMIT,
            0 < number_of_types <= i64::MAX,
            i <= number_of_particles,
            particles@.len() == i,
            population_valid(particles@, number_of_types as nat),
            population_in_domain(particles@, width as int, height as int),
            forall|j: int| 0 <= j < particles@.len() ==> at_rest(#[trigger] particles@[j]),
        decreases number_of_particles - i,
    {
        let x: i64 = random_in_range(-(width / 2), width - width / 2);
        let y: i64 = random_in_range(-(height / 2), height - height / 2);
        let ty: i64 = random_in_range(0, number_of_types as i64);
        spawn_particle(&mut particles, Vec2 { x, y }, ty as usize);
        i += 1;
    }
    particles
}

/// Tells whether every particle of a population has one of `types` types
/// and keeps its position and velocity within the limit.
pub fn population_is_valid(particles: &Vec<Particle>, types: usize) -> (valid: bool)
    ensures
        valid == population_valid(particles@, types as nat),
{
    let mut i: usize = 0;
    while i < particles.len()
        invariant
            i <= particles@.len(),
            forall|j: int| 0 <= j < i ==> particle_valid(#[trigger] particles@[j], types as nat),
        decreases particles@.len() - i,
    {
        let p = particles[i];
        if p.ty >= types || !within(p.position) || !within(p.velocity) {
            return false;
        }
        i += 1;
    }
    true
}

/// Tells whether both components of a vector lie within the limit.
fn within(v: Vec2) -> (inside: bool)
    ensures
        inside == v.within_limit(),
{
    -LIMIT <= v.x && v.x <= LIMIT && -LIMIT <= v.y && v.y <= LIMIT
}

} // verus!
