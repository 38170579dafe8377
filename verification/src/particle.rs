//! Particles and populations.

use vstd::prelude::*;
use crate::vector::Vec2;

verus! {

/// A point particle. Its handle is its index in the population that holds it.
#[derive(Clone, Copy, Debug, PartialEq, Eq, Structural)]
pub struct Particle {
    /// The type, which selects the row and the column of the attraction
    /// table.
    pub ty: usize,
    /// Where the particle is.
    pub position: Vec2,
    /// How far the particle moves in a unit of time.
    pub velocity: Vec2,
}

/// Why a stage of the simulation could not produce its result: a component of
/// the named quantity left `[-LIMIT, LIMIT]`.
#[derive(Clone, Copy, Debug, PartialEq, Eq, Structural)]
pub enum SimulationError {
    /// The pulls on a particle add up to more than can be stored.
    AccelerationOutOfRange,
    /// A particle would become faster than can be stored.
    VelocityOutOfRange,
    /// A particle would move farther out than can be stored.
    PositionOutOfRange,
}

/// Whether a particle keeps its position and velocity within the limit.
pub open spec fn particle_in_limit(p: Particle) -> bool {
    p.position.within_limit() && p.velocity.within_limit()
}

/// Whether every particle of a population keeps within the limit.
pub open spec fn population_in_limit(particles: Seq<Particle>) -> bool {
    forall|i: int| 0 <= i < particles.len() ==> particle_in_limit(#[trigger] particles[i])
}

/// Whether a particle has one of `types` types and keeps within the limit.
pub open spec fn particle_valid(p: Particle, types: nat) -> bool {
    p.ty < types && particle_in_limit(p)
}

/// Whether every particle of a population is valid.
pub open spec fn population_valid(particles: Seq<Particle>, types: nat) -> bool {
    forall|i: int| 0 <= i < particles.len() ==> particle_valid(#[trigger] particles[i], types)
}

/// Whether two populations hold the same number of particles, with the same
/// types under the same handles.
pub open spec fn same_types(before: Seq<Particle>, after: Seq<Particle>) -> bool {
    &&& after.len() == before.len()
    &&& forall|i: int| 0 <= i < before.len() ==> (#[trigger] after[i]).ty == before[i].ty
}

} // verus!
