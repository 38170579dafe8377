//! Accumulation of the forces that act on each particle.
//!
//! A particle is pulled along the direction to each of its neighbors with the
//! magnitude that the force law gives for their distance, measured in raw
//! coordinates: no account is taken of the shorter way round the periodic
//! domain. A neighbor at the very same position exerts no pull.

use vstd::prelude::*;
use crate::attraction::AttractionFactors;
use crate::fixed::{ONE, LIMIT, trunc_div, mul_fixed, in_limit, div_trunc, magnitude};
use crate::force::{force, force_spec};
use crate::particle::{Particle, SimulationError, particle_valid, population_valid};
use crate::vector::{Vec2, norm, lemma_norm_bounds};

verus! {

/// Distance as a fraction of the interaction radius.
pub open spec fn normalized_distance(distance: int, radius: int) -> int {
    distance * ONE / radius
}

/// The pull that `other` exerts on `this`: the unit vector toward `other`
/// times the force for their distance, or nothing where the two coincide.
pub open spec fn pair_pull(
    this: Particle,
    other: Particle,
    factors: AttractionFactors,
    radius: int,
) -> (int, int) {
    let dx = other.position.x - this.position.x;
    let dy = other.position.y - this.position.y;
    let distance = norm(dx, dy) as int;
    if distance == 0 {
        (0, 0)
    } else {
        let f = force_spec(
            factors.factor(this.ty as int, other.ty as int),
            normalized_distance(distance, radius),
        );
        (trunc_div(dx * f, distance), trunc_div(dy * f, distance))
    }
}

/// The sum of the pulls that the particles named by `others` exert on `this`.
pub open spec fn total_pull(
    particles: Seq<Particle>,
    this: Particle,
    others: Seq<usize>,
    factors: AttractionFactors,
    radius: int,
) -> (int, int)
    decreases others.len(),
{
    if others.len() == 0 {
        (0, 0)
    } else {
        let rest = total_pull(particles, this, others.drop_last(), factors, radius);
        let last = pair_pull(this, particles[others.last() as int], factors, radius);
        (rest.0 + last.0, rest.1 + last.1)
    }
}

/// The acceleration of the first particle of `entities` under the pull of the
/// others, scaled by the interaction radius.
pub open spec fn acceleration_spec(
    particles: Seq<Particle>,
    entities: Seq<usize>,
    factors: AttractionFactors,
    radius: int,
) -> (int, int) {
    let sum = total_pull(particles, particles[entities[0] as int], entities.skip(1), factors, radius);
    (mul_fixed(sum.0, radius), mul_fixed(sum.1, radius))
}

/// Whether both components of the acceleration can be stored.
pub open spec fn acceleration_in_limit(
    particles: Seq<Particle>,
    entities: Seq<usize>,
    factors: AttractionFactors,
    radius: int,
) -> bool {
    let a = acceleration_spec(particles, entities, factors, radius);
    in_limit(a.0) && in_limit(a.1)
}

/// Whether a neighbor list names its own particle first and holds only
/// handles of the population.
pub open spec fn list_valid(entities: Seq<usize>, population: nat) -> bool {
    &&& entities.len() > 0
    &&& forall|j: int| 0 <= j < entities.len() ==> #[trigger] entities[j] < population
}

/// Whether every neighbor list is valid.
pub open spec fn lists_valid(lists: Seq<Vec<usize>>, population: nat) -> bool {
    forall|k: int| 0 <= k < lists.len() ==> list_valid(#[trigger] lists[k]@, population)
}

/// Tells whether every neighbor list names its own particle first and holds
/// only handles of a population of the given size.
pub fn lists_are_valid(lists: &Vec<Vec<usize>>, population: usize) -> (valid: bool)
    ensures
        valid == lists_valid(lists@, population as nat),
{
    let mut k: usize = 0;
    while k < lists.len()
        invariant
            k <= lists@.len(),
            forall|i: int| 0 <= i < k ==> list_valid(#[trigger] lists@[i]@, population as nat),
        decreases lists@.len() - k,
    {
        let entities = &lists[k];
        if entities.len() == 0 {
            return false;
        }
        let mut j: usize = 0;
        while j < entities.len()
            invariant
                k < lists@.len(),
                entities@ == lists@[k as int]@,
                j <= entities@.len(),
                forall|i: int| 0 <= i < j ==> #[trigger] entities@[i] < population,
            decreases entities@.len() - j,
        {
            if entities[j] >= population {
                assert(!list_valid(lists@[k as int]@, population as nat));
                return false;
            }
            j += 1;
        }
        k += 1;
    }
    true
}

/// A component of a vector, scaled by a force and divided by the vector's
/// length, is no larger in magnitude than the force.
pub proof fn lemma_projection_bounded(component: int, f: int, distance: int)
    requires
        distance > 0,
        -distance <= component <= distance,
    ensures
        magnitude(trunc_div(component * f, distance)) <= magnitude(f),
{
    let c = magnitude(component);
    let m = magnitude(f);
    assert(magnitude(component * f) == c * m) by (nonlinear_arith)
        requires
            c == magnitude(component),
            m == magnitude(f),
    ;
    assert(0 <= c * m <= distance * m) by (nonlinear_arith)
        requires
            0 <= c <= distance,
            0 <= m,
    ;
    assert((c * m) / distance <= m && (c * m) / distance >= 0) by (nonlinear_arith)
        requires
            0 <= c * m <= distance * m,
            distance > 0,
    ;
}

/// Computes the pull that `other` exerts on `this`.
pub fn pull(
    this: &Particle,
    other: &Particle,
    factors: &AttractionFactors,
    radius: i64,
) -> (p: Vec2)
    requires
        factors.wf(),
        particle_valid(*this, factors.types()),
        particle_valid(*other, factors.types()),
        0 < radius <= LIMIT,
    ensures
        (p.x as int, p.y as int) == pair_pull(*this, *other, *factors, radius as int),
        -ONE <= p.x <= ONE,
        -ONE <= p.y <= ONE,
{
    let vector = other.position.sub(this.position);
    let distance: u64 = vector.length();
    if distance == 0 {
        return Vec2::zero();
    }
    proof {
        lemma_norm_bounds(vector.x as int, vector.y as int);
        assert((distance as int) < 0x400_0000_0000) by (nonlinear_arith)
            requires
                distance * distance <= vector.x * vector.x + vector.y * vector.y,
                -0x200_0000_0000 <= vector.x <= 0x200_0000_0000,
                -0x200_0000_0000 <= vector.y <= 0x200_0000_0000,
        ;
    }
    assert(distance * ONE < 0x400_0000_0000 * 1_000_000) by (nonlinear_arith)
        requires
            distance < 0x400_0000_0000,
            ONE == 1_000_000,
    ;
    let scaled: u128 = (distance as u128) * (ONE as u128);
    let normalized: u128 = scaled / (radius as u128);
    assert(normalized <= scaled) by (nonlinear_arith)
        requires
            normalized == scaled / (radius as u128),
            radius > 0,
    ;
    let f: i64 = force(factors.get_factor(this.ty, other.ty), normalized as u64);
    proof {
        lemma_projection_bounded(vector.x as int, f as int, distance as int);
        lemma_projection_bounded(vector.y as int, f as int, distance as int);
        assert(-0x400_0000_0000 * 1_000_000 <= vector.x * f <= 0x400_0000_0000 * 1_000_000)
            by (nonlinear_arith)
            requires
                -0x400_0000_0000 <= vector.x <= 0x400_0000_0000,
                -1_000_000 <= f <= 1_000_000,
        ;
        assert(-0x400_0000_0000 * 1_000_000 <= vector.y * f <= 0x400_0000_0000 * 1_000_000)
            by (nonlinear_arith)
            requires
                -0x400_0000_0000 <= vector.y <= 0x400_0000_0000,
                -1_000_000 <= f <= 1_000_000,
        ;
    }
    let x: i128 = div_trunc((vector.x as i128) * (f as i128), distance as i128);
    let y: i128 = div_trunc((vector.y as i128) * (f as i128), distance as i128);
    Vec2 { x: x as i64, y: y as i64 }
}

/// Computes the acceleration of the first particle of `entities` under the
/// pull of the others. Fails where a component of it leaves the limit.
pub fn accelerate(
    entities: &Vec<usize>,
    particles: &Vec<Particle>,
    factors: &AttractionFactors,
    radius: i64,
) -> (result: Result<Vec2, SimulationError>)
    requires
        factors.wf(),
        population_valid(particles@, factors.types()),
        list_valid(entities@, particles@.len()),
        0 < radius <= LIMIT,
    ensures
        result is Ok <==> acceleration_in_limit(particles@, entities@, *factors, radius as int),
        result matches Ok(a) ==> (a.x as int, a.y as int) == acceleration_spec(
            particles@,
            entities@,
            *factors,
            radius as int,
        ),
        result matches Err(e) ==> e == SimulationError::AccelerationOutOfRange,
{
    let this = particles[entities[0]];
    let mut sum_x: i128 = 0;
    let mut sum_y: i128 = 0;
    let mut k: usize = 1;
    assert(entities@.subrange(1, 1) =~= Seq::<usize>::empty());
    while k < entities.len()
        invariant
            1 <= k <= entities.len(),
            factors.wf(),
            population_valid(particles@, factors.types()),
            list_valid(entities@, particles@.len()),
            0 < radius <= LIMIT,
            this == particles@[entities@[0] as int],
            (sum_x as int, sum_y as int) == total_pull(
                particles@,
                this,
                entities@.subrange(1, k as int),
                *factors,
                radius as int,
            ),
            -(k - 1) * ONE <= sum_x <= (k - 1) * ONE,
            -(k - 1) * ONE <= sum_y <= (k - 1) * ONE,
        decreases entities.len() - k,
    {
        let other = particles[entities[k]];
        let p = pull(&this, &other, factors, radius);
        proof {
            let next = entities@.subrange(1, k + 1);
            assert(next.drop_last() =~= entities@.subrange(1, k as int));
            assert(next.last() == entities@[k as int]);
        }
        sum_x = sum_x + p.x as i128;
        sum_y = sum_y + p.y as i128;
        k += 1;
    }
    assert(entities@.subrange(1, k as int) =~= entities@.skip(1));
    assert(-0x1_0000_0000_0000_0000 * 1_000_000 * 0x100_0000_0000 <= sum_x * radius
        <= 0x1_0000_0000_0000_0000 * 1_000_000 * 0x100_0000_0000) by (nonlinear_arith)
        requires
            -0x1_0000_0000_0000_0000 * 1_000_000 <= sum_x <= 0x1_0000_0000_0000_0000 * 1_000_000,
            0 < radius <= 0x100_0000_0000,
    ;
    assert(-0x1_0000_0000_0000_0000 * 1_000_000 * 0x100_0000_0000 <= sum_y * radius
        <= 0x1_0000_0000_0000_0000 * 1_000_000 * 0x100_0000_0000) by (nonlinear_arith)
        requires
            -0x1_0000_0000_0000_0000 * 1_000_000 <= sum_y <= 0x1_0000_0000_0000_0000 * 1_000_000,
            0 < radius <= 0x100_0000_0000,
    ;
    let x: i128 = div_trunc(sum_x * (radius as i128), ONE as i128);
    let y: i128 = div_trunc(sum_y * (radius as i128), ONE as i128);
    let limit: i128 = LIMIT as i128;
    if x < -limit || x > limit || y < -limit || y > limit {
        Err(SimulationError::AccelerationOutOfRange)
    } else {
        Ok(Vec2 { x: x as i64, y: y as i64 })
    }
}

/// Computes the acceleration of every particle that heads a neighbor list,
/// each paired with the particle's handle. Fails where a component of any of
/// them leaves the limit.
pub fn compute_acceleration(
    list_of_nearest_entities: &Vec<Vec<usize>>,
    particles: &Vec<Particle>,
    factors: &AttractionFactors,
    radius: i64,
) -> (result: Result<Vec<(usize, Vec2)>, SimulationError>)
    requires
        factors.wf(),
        population_valid(particles@, factors.types()),
        lists_valid(list_of_nearest_entities@, particles@.len()),
        0 < radius <= LIMIT,
    ensures
        result is Ok <==> forall|k: int|
            0 <= k < list_of_nearest_entities@.len() ==> acceleration_in_limit(
                particles@,
                #[trigger] list_of_nearest_entities@[k]@,
                *factors,
                radius as int,
            ),
        result matches Ok(accelerations) ==> {
            &&& accelerations@.len() == list_of_nearest_entities@.len()
            &&& forall|k: int|
                0 <= k < accelerations@.len() ==> {
                    &&& (#[trigger] accelerations@[k]).0 == list_of_nearest_entities@[k]@[0]
                    &&& accelerations@[k].1.within_limit()
                    &&& (accelerations@[k].1.x as int, accelerations@[k].1.y as int)
                        == acceleration_spec(
                        particles@,
                        list_of_nearest_entities@[k]@,
                        *factors,
                        radius as int,
                    )
                }
        },
        result matches Err(e) ==> e == SimulationError::AccelerationOutOfRange,
{
    let mut accelerations: Vec<(usize, Vec2)> = Vec::new();
    let mut k: usize = 0;
    while k < list_of_nearest_entities.len()
        invariant
            k <= list_of_nearest_entities.len(),
            factors.wf(),
            population_valid(particles@, factors.types()),
            lists_valid(list_of_nearest_entities@, particles@.len()),
            0 < radius <= LIMIT,
            accelerations@.len() == k,
            forall|j: int|
                0 <= j < k ==> acceleration_in_limit(
                    particles@,
                    #[trigger] list_of_nearest_entities@[j]@,
                    *factors,
                    radius as int,
                ),
            forall|j: int|
                0 <= j < k ==> {
                    &&& (#[trigger] accelerations@[j]).0 == list_of_nearest_entities@[j]@[0]
                    &&& accelerations@[j].1.within_limit()
                    &&& (accelerations@[j].1.x as int, accelerations@[j].1.y as int)
                        == acceleration_spec(
                        particles@,
                        list_of_nearest_entities@[j]@,
                        *factors,
                        radius as int,
                    )
                },
        decreases list_of_nearest_entities.len() - k,
    {
        let entities = &list_of_nearest_entities[k];
        match accelerate(entities, particles, factors, radius) {
            Ok(acceleration) => {
                accelerations.push((entities[0], acceleration));
            },
            Err(e) => {
                return Err(e);
            },
        }
        k += 1;
    }
    Ok(accelerations)
}

} // verus!
