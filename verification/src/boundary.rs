//! Wrapping of coordinates across the periodic domain.
//!
//! An axis of extent `e` covers the half-open interval that starts at
//! `-(e / 2)` and has length `e`; a coordinate outside of it re-enters from
//! the opposite side.

use vstd::prelude::*;
use vstd::arithmetic::div_mod::{
    lemma_fundamental_div_mod_converse, lemma_mod_bound, lemma_small_mod,
};
use crate::fixed::LIMIT;
use crate::particle::{Particle, population_in_limit, same_types};
use crate::vector::Vec2;

verus! {

/// Lowest coordinate of an axis of the given extent.
pub open spec fn axis_low(extent: int) -> int {
    -(extent / 2)
}

/// First coordinate above an axis of the given extent.
pub open spec fn axis_high(extent: int) -> int {
    extent - extent / 2
}

/// Whether `value` lies on an axis of the given extent.
pub open spec fn on_axis(value: int, extent: int) -> bool {
    axis_low(extent) <= value < axis_high(extent)
}

/// The coordinate on the axis that `value` is mapped to: shifted by half the
/// extent, reduced by the Euclidean remainder, and shifted back.
pub open spec fn wrap_spec(value: int, extent: int) -> int {
    (value + extent / 2) % extent - extent / 2
}

/// Wraps one coordinate onto an axis of the given extent.
pub fn wrap_coordinate(value: i64, extent: i64) -> (wrapped: i64)
    requires
        extent > 0,
    ensures
        wrapped == wrap_spec(value as int, extent as int),
        on_axis(wrapped as int, extent as int),
        on_axis(value as int, extent as int) ==> wrapped == value,
{
    let half: i64 = extent / 2;
    let e: i128 = extent as i128;
    let shifted: i128 = value as i128 + half as i128;
    let remainder: i128 = if shifted >= 0 {
        shifted % e
    } else {
        let m: i128 = (-shifted) % e;
        proof {
            let s: int = shifted as int;
            let d: int = e as int;
            let r: int = m as int;
            let q: int = (-s) / d;
            lemma_mod_bound(-s, d);
            assert(-s == d * q + r) by (nonlinear_arith)
                requires
                    q == (-s) / d,
                    r == (-s) % d,
                    d > 0,
            ;
            if r == 0 {
                assert(s == d * (-q) + 0) by (nonlinear_arith)
                    requires
                        -s == d * q + r,
                        r == 0,
                ;
                lemma_fundamental_div_mod_converse(s, d, -q, 0);
            } else {
                assert(s == d * (-q - 1) + (d - r)) by (nonlinear_arith)
                    requires
                        -s == d * q + r,
                ;
                lemma_fundamental_div_mod_converse(s, d, -q - 1, d - r);
            }
        }
        if m == 0 {
            0
        } else {
            e - m
        }
    };
    proof {
        lemma_mod_bound(shifted as int, e as int);
        if on_axis(value as int, extent as int) {
            lemma_small_mod(shifted as nat, e as nat);
        }
    }
    (remainder - half as i128) as i64
}

/// Whether a position lies in the domain of the given width and height.
pub open spec fn in_domain(position: Vec2, width: int, height: int) -> bool {
    on_axis(position.x as int, width) && on_axis(position.y as int, height)
}

/// Whether every particle of a population lies in the domain.
pub open spec fn population_in_domain(particles: Seq<Particle>, width: int, height: int) -> bool {
    forall|i: int|
        0 <= i < particles.len() ==> in_domain((#[trigger] particles[i]).position, width, height)
}

/// The particle with its position wrapped into the domain, axis by axis.
pub open spec fn wrap_particle_spec(particle: Particle, width: int, height: int) -> Particle {
    Particle {
        ty: particle.ty,
        position: Vec2 {
            x: wrap_spec(particle.position.x as int, width) as i64,
            y: wrap_spec(particle.position.y as int, height) as i64,
        },
        velocity: particle.velocity,
    }
}

/// Wraps the position of every particle into the domain. Types and
/// velocities stay as they are.
pub fn wrap_particles(particles: &mut Vec<Particle>, width: i64, height: i64)
    requires
        width > 0,
        height > 0,
    ensures
        final(particles)@.len() == old(particles)@.len(),
        forall|i: int|
            0 <= i < old(particles)@.len() ==> #[trigger] final(particles)@[i]
                == wrap_particle_spec(old(particles)@[i], width as int, height as int),
        same_types(old(particles)@, final(particles)@),
        population_in_domain(final(particles)@, width as int, height as int),
        width <= LIMIT && height <= LIMIT && population_in_limit(old(particles)@)
            ==> population_in_limit(final(particles)@),
{
    let ghost before = particles@;
    let mut i: usize = 0;
    while i < particles.len()
        invariant
            width > 0,
            height > 0,
            i <= particles@.len(),
            particles@.len() == before.len(),
            forall|j: int|
                0 <= j < i ==> #[trigger] particles@[j] == wrap_particle_spec(
                    before[j],
                    width as int,
                    height as int,
                ),
            forall|j: int| i <= j < before.len() ==> #[trigger] particles@[j] == before[j],
        decreases particles@.len() - i,
    {
        let particle = particles[i];
        let wrapped = Particle {
            ty: particle.ty,
            position: Vec2 {
                x: wrap_coordinate(particle.position.x, width),
                y: wrap_coordinate(particle.position.y, height),
            },
            velocity: particle.velocity,
        };
        particles.set(i, wrapped);
        i += 1;
    }
    proof {
        assert forall|j: int| 0 <= j < before.len() implies in_domain(
            (#[trigger] particles@[j]).position,
            width as int,
            height as int,
        ) by {
            wrap_lands_on_axis(before[j].position.x as int, width as int);
            wrap_lands_on_axis(before[j].position.y as int, height as int);
        }
    }
}

/// A wrapped coordinate lies on the axis, whatever the input.
pub proof fn wrap_lands_on_axis(value: int, extent: int)
    requires
        extent > 0,
    ensures
        on_axis(wrap_spec(value, extent), extent),
{
    lemma_mod_bound(value + extent / 2, extent);
}

/// Wrapping leaves a coordinate that already lies on the axis unchanged, so
/// wrapping twice is the same as wrapping once.
pub proof fn wrap_is_idempotent(value: int, extent: int)
    requires
        extent > 0,
    ensures
        on_axis(value, extent) ==> wrap_spec(value, extent) == value,
        wrap_spec(wrap_spec(value, extent), extent) == wrap_spec(value, extent),
{
    if on_axis(value, extent) {
        lemma_small_mod((value + extent / 2) as nat, extent as nat);
    }
    let once = wrap_spec(value, extent);
    lemma_mod_bound(value + extent / 2, extent);
    lemma_small_mod((once + extent / 2) as nat, extent as nat);
}

} // verus!
