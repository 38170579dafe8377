//! One tick of the simulation, and runs of many ticks.
//!
//! A tick asks the index for the neighbors of every particle, accumulates
//! the accelerations and integrates them. A step is a tick on a fresh index,
//! followed by wrapping the positions into the domain.

use vstd::prelude::*;
use crate::acceleration::{
    acceleration_in_limit, acceleration_spec, compute_acceleration, pair_pull, total_pull,
};
use crate::attraction::AttractionFactors;
use crate::boundary::{population_in_domain, wrap_particle_spec, wrap_particles};
use crate::config::Config;
use crate::fixed::{in_limit, mul_fixed};
use crate::integration::{apply_acceleration, apply_spec};
use crate::neighbors::{get_particles, is_neighbor_list};
use crate::particle::{Particle, SimulationError, population_valid, same_types};
use crate::spatial::{SpatialIndex, positions_of, within_radius};
use crate::vector::Vec2;

verus! {

/// Whether the particle with handle `other` acts on the one with handle
/// `this`: it is another particle of the population, and the index holds it
/// nearer to the current position of `this` than the radius.
pub open spec fn is_neighbor(
    particles: Seq<Particle>,
    points: Seq<Vec2>,
    this: int,
    other: int,
    radius: int,
) -> bool {
    &&& other != this
    &&& 0 <= other < particles.len()
    &&& other < points.len()
    &&& within_radius(points[other], particles[this].position, radius)
}

/// The sum of the pulls on `this` of its neighbors with a handle below
/// `bound`.
pub open spec fn neighborhood_pull(
    particles: Seq<Particle>,
    points: Seq<Vec2>,
    this: int,
    factors: AttractionFactors,
    radius: int,
    bound: int,
) -> (int, int)
    decreases bound,
{
    if bound <= 0 {
        (0, 0)
    } else {
        let rest = neighborhood_pull(particles, points, this, factors, radius, bound - 1);
        if is_neighbor(particles, points, this, bound - 1, radius) {
            let last = pair_pull(particles[this], particles[bound - 1], factors, radius);
            (rest.0 + last.0, rest.1 + last.1)
        } else {
            rest
        }
    }
}

/// The acceleration of `this` under the pull of all its neighbors, scaled
/// by the interaction radius.
pub open spec fn neighborhood_acceleration(
    particles: Seq<Particle>,
    points: Seq<Vec2>,
    this: int,
    factors: AttractionFactors,
    radius: int,
) -> (int, int) {
    let sum = neighborhood_pull(particles, points, this, factors, radius, particles.len() as int);
    (mul_fixed(sum.0, radius), mul_fixed(sum.1, radius))
}

/// Taking one handle out of a list takes its pull out of the sum.
proof fn lemma_total_pull_remove(
    particles: Seq<Particle>,
    this: Particle,
    others: Seq<usize>,
    factors: AttractionFactors,
    radius: int,
    i: int,
)
    requires
        0 <= i < others.len(),
    ensures
        total_pull(particles, this, others, factors, radius).0 == total_pull(
            particles,
            this,
            others.remove(i),
            factors,
            radius,
        ).0 + pair_pull(this, particles[others[i] as int], factors, radius).0,
        total_pull(particles, this, others, factors, radius).1 == total_pull(
            particles,
            this,
            others.remove(i),
            factors,
            radius,
        ).1 + pair_pull(this, particles[others[i] as int], factors, radius).1,
    decreases others.len(),
{
    if i == others.len() - 1 {
        assert(others.remove(i) =~= others.drop_last());
    } else {
        lemma_total_pull_remove(particles, this, others.drop_last(), factors, radius, i);
        assert(others.remove(i).drop_last() =~= others.drop_last().remove(i));
        assert(others.remove(i).last() == others.last());
    }
}

/// The sum of the pulls along a list that names each neighbor below `bound`
/// once, and nothing else, is the sum over those neighbors, whatever the
/// order of the list.
proof fn lemma_pull_in_any_order(
    particles: Seq<Particle>,
    points: Seq<Vec2>,
    this: int,
    others: Seq<usize>,
    factors: AttractionFactors,
    radius: int,
    bound: int,
)
    requires
        bound <= usize::MAX,
        others.no_duplicates(),
        forall|h: usize|
            others.contains(h) <==> h < bound && is_neighbor(particles, points, this, h as int, radius),
    ensures
        total_pull(particles, particles[this], others, factors, radius) == neighborhood_pull(
            particles,
            points,
            this,
            factors,
            radius,
            bound,
        ),
    decreases bound,
{
    if bound <= 0 {
        if others.len() > 0 {
            assert(others.contains(others[0]));
        }
    } else {
        let last = (bound - 1) as usize;
        if is_neighbor(particles, points, this, bound - 1, radius) {
            assert(others.contains(last));
            let i = choose|i: int| 0 <= i < others.len() && others[i] == last;
            let rest = others.remove(i);
            assert(rest.no_duplicates()) by {
                assert forall|a: int, b: int|
                    0 <= a < rest.len() && 0 <= b < rest.len() && a != b implies rest[a]
                    != rest[b] by {
                    let a0 = if a < i { a } else { a + 1 };
                    let b0 = if b < i { b } else { b + 1 };
                    assert(rest[a] == others[a0] && rest[b] == others[b0]);
                }
            }
            assert forall|h: usize|
                rest.contains(h) <==> h < bound - 1 && is_neighbor(
                    particles,
                    points,
                    this,
                    h as int,
                    radius,
                ) by {
                if rest.contains(h) {
                    let a = choose|a: int| 0 <= a < rest.len() && rest[a] == h;
                    let a0 = if a < i { a } else { a + 1 };
                    assert(others[a0] == h);
                    assert(others.contains(h));
                    assert(a0 != i);
                }
                if h < bound - 1 && is_neighbor(particles, points, this, h as int, radius) {
                    assert(others.contains(h));
                    let a0 = choose|a0: int| 0 <= a0 < others.len() && others[a0] == h;
                    let a = if a0 < i { a0 } else { a0 - 1 };
                    assert(rest[a] == h);
                }
            }
            lemma_total_pull_remove(particles, particles[this], others, factors, radius, i);
            lemma_pull_in_any_order(particles, points, this, rest, factors, radius, bound - 1);
        } else {
            lemma_pull_in_any_order(particles, points, this, others, factors, radius, bound - 1);
        }
    }
}

/// The acceleration along a neighbor list is the acceleration under the
/// pull of the neighborhood, whatever the order of the list.
pub proof fn acceleration_ignores_order(
    particles: Seq<Particle>,
    points: Seq<Vec2>,
    this: usize,
    nearest: Seq<usize>,
    factors: AttractionFactors,
    radius: int,
)
    requires
        this < particles.len() <= usize::MAX,
        is_neighbor_list(
            nearest,
            this,
            particles[this as int].position,
            points,
            particles.len(),
            radius,
        ),
    ensures
        acceleration_spec(particles, nearest, factors, radius) == neighborhood_acceleration(
            particles,
            points,
            this as int,
            factors,
            radius,
        ),
{
    let others = nearest.skip(1);
    assert(others.no_duplicates()) by {
        assert forall|a: int, b: int|
            0 <= a < others.len() && 0 <= b < others.len() && a != b implies others[a]
            != others[b] by {
            assert(others[a] == nearest[a + 1] && others[b] == nearest[b + 1]);
        }
    }
    lemma_pull_in_any_order(
        particles,
        points,
        this as int,
        others,
        factors,
        radius,
        particles.len() as int,
    );
}

/// Whether the acceleration of every particle can be stored.
pub open spec fn accelerations_in_limit(
    particles: Seq<Particle>,
    points: Seq<Vec2>,
    factors: AttractionFactors,
    radius: int,
) -> bool {
    forall|i: int|
        0 <= i < particles.len() ==> {
            let a = #[trigger] neighborhood_acceleration(particles, points, i, factors, radius);
            in_limit(a.0) && in_limit(a.1)
        }
}

/// The acceleration of every particle, each with the particle's handle.
pub open spec fn accelerations_spec(
    particles: Seq<Particle>,
    points: Seq<Vec2>,
    factors: AttractionFactors,
    radius: int,
) -> Seq<(usize, Vec2)> {
    Seq::new(
        particles.len(),
        |i: int|
            {
                let a = neighborhood_acceleration(particles, points, i, factors, radius);
                (i as usize, Vec2 { x: a.0 as i64, y: a.1 as i64 })
            },
    )
}

/// The population after one tick against an index that holds `points`, or
/// the quantity that left the limit.
pub open spec fn tick_spec(
    particles: Seq<Particle>,
    points: Seq<Vec2>,
    factors: AttractionFactors,
    config: Config,
) -> Result<Seq<Particle>, SimulationError> {
    if !accelerations_in_limit(particles, points, factors, config.radius as int) {
        Err(SimulationError::AccelerationOutOfRange)
    } else {
        apply_spec(
            particles,
            accelerations_spec(particles, points, factors, config.radius as int),
            config.friction as int,
            config.delta_time as int,
        )
    }
}

/// The population after one step: a tick against its own positions, then
/// the wrap into the domain.
pub open spec fn step_spec(particles: Seq<Particle>, factors: AttractionFactors, config: Config)
    -> Result<Seq<Particle>, SimulationError> {
    match tick_spec(particles, positions_of(particles), factors, config) {
        Err(e) => Err(e),
        Ok(moved) => Ok(
            Seq::new(
                moved.len(),
                |i: int| wrap_particle_spec(moved[i], config.width as int, config.height as int),
            ),
        ),
    }
}

/// The population after up to `ticks` steps, and how the run ended: it stops
/// at the first step that fails, with the population as that step found it.
pub open spec fn advance_spec(
    particles: Seq<Particle>,
    factors: AttractionFactors,
    config: Config,
    ticks: nat,
) -> (Seq<Particle>, Result<(), SimulationError>)
    decreases ticks,
{
    if ticks == 0 {
        (particles, Ok(()))
    } else {
        match step_spec(particles, factors, config) {
            Err(e) => (particles, Err(e)),
            Ok(next) => advance_spec(next, factors, config, (ticks - 1) as nat),
        }
    }
}

/// Advances the population by one tick: neighbor query against `tree`,
/// accelerations, integration. The population is left as it was where a
/// quantity leaves the limit.
pub fn tick(
    particles: &mut Vec<Particle>,
    tree: &SpatialIndex,
    factors: &AttractionFactors,
    config: &Config,
) -> (result: Result<(), SimulationError>)
    requires
        config.wf(),
        factors.wf(),
        tree.wf(),
        population_valid(old(particles)@, factors.types()),
    ensures
        match tick_spec(old(particles)@, tree.points(), *factors, *config) {
            Ok(next) => result is Ok && final(particles)@ == next,
            Err(e) => result == Err::<(), SimulationError>(e) && final(particles)@ == old(
                particles,
            )@,
        },
        same_types(old(particles)@, final(particles)@),
        population_valid(final(particles)@, factors.types()),
{
    let ghost before = particles@;
    let ghost points = tree.points();
    let ghost radius = config.radius as int;
    let size = particles.len();
    let lists = get_particles(particles, tree, config.radius);
    proof {
        assert forall|i: int| 0 <= i < before.len() implies acceleration_spec(
            before,
            (#[trigger] lists@[i])@,
            *factors,
            radius,
        ) == neighborhood_acceleration(before, points, i, *factors, radius) by {
            acceleration_ignores_order(before, points, i as usize, lists@[i]@, *factors, radius);
        }
    }
    let accelerations = match compute_acceleration(&lists, particles, factors, config.radius) {
        Ok(accelerations) => accelerations,
        Err(e) => {
            proof {
                let k = choose|k: int|
                    0 <= k < lists@.len() && !acceleration_in_limit(
                        before,
                        #[trigger] lists@[k]@,
                        *factors,
                        radius,
                    );
                let a = neighborhood_acceleration(before, points, k, *factors, radius);
                assert(!(in_limit(a.0) && in_limit(a.1)));
            }
            return Err(e);
        },
    };
    proof {
        assert forall|i: int| 0 <= i < before.len() implies {
            let a = #[trigger] neighborhood_acceleration(before, points, i, *factors, radius);
            in_limit(a.0) && in_limit(a.1)
        } by {
            assert(acceleration_in_limit(before, lists@[i]@, *factors, radius));
        }
        assert(accelerations@ =~= accelerations_spec(before, points, *factors, radius));
    }
    apply_acceleration(&accelerations, particles, config.friction, config.delta_time)
}

/// Advances the population by one step: builds an index over the current
/// positions, runs a tick against it and wraps the positions into the
/// domain. The population is left as it was where a quantity leaves the
/// limit.
pub fn step(
    particles: &mut Vec<Particle>,
    factors: &AttractionFactors,
    config: &Config,
) -> (result: Result<(), SimulationError>)
    requires
        config.wf(),
        factors.wf(),
        population_valid(old(particles)@, factors.types()),
    ensures
        match step_spec(old(particles)@, *factors, *config) {
            Ok(next) => result is Ok && final(particles)@ == next,
            Err(e) => result == Err::<(), SimulationError>(e) && final(particles)@ == old(
                particles,
            )@,
        },
        same_types(old(particles)@, final(particles)@),
        population_valid(final(particles)@, factors.types()),
        result is Ok ==> population_in_domain(
            final(particles)@,
            config.width as int,
            config.height as int,
        ),
{
    let tree = SpatialIndex::build(particles, config.width, config.height, config.radius);
    match tick(particles, &tree, factors, config) {
        Ok(()) => {
            let ghost moved = particles@;
            wrap_particles(particles, config.width, config.height);
            assert(particles@ =~= Seq::new(
                moved.len(),
                |i: int| wrap_particle_spec(moved[i], config.width as int, config.height as int),
            ));
            Ok(())
        },
        Err(e) => Err(e),
    }
}

/// Runs up to `ticks` steps and stops at the first one that fails. However
/// the run ends, the population holds the particles it held before, each
/// with its type.
pub fn advance(
    particles: &mut Vec<Particle>,
    factors: &AttractionFactors,
    config: &Config,
    ticks: u64,
) -> (result: Result<(), SimulationError>)
    requires
        config.wf(),
        factors.wf(),
        population_valid(old(particles)@, factors.types()),
    ensures
        (final(particles)@, result) == advance_spec(
            old(particles)@,
            *factors,
            *config,
            ticks as nat,
        ),
        same_types(old(particles)@, final(particles)@),
        population_valid(final(particles)@, factors.types()),
{
    let ghost before = particles@;
    let mut done: u64 = 0;
    while done < ticks
        invariant
            config.wf(),
            factors.wf(),
            done <= ticks,
            before == old(particles)@,
            same_types(before, particles@),
            population_valid(particles@, factors.types()),
            advance_spec(before, *factors, *config, ticks as nat) == advance_spec(
                particles@,
                *factors,
                *config,
                (ticks - done) as nat,
            ),
        decreases ticks - done,
    {
        match step(particles, factors, config) {
            Ok(()) => {},
            Err(e) => {
                return Err(e);
            },
        }
        done += 1;
    }
    Ok(())
}

} // verus!
