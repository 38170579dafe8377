//! The neighbor query: for every particle, the particles within reach.
//!
//! The index may have been built some time ago: it is asked about the
//! particle's current position, but answers from the positions it was built
//! over, and may name handles that the population does not hold. Such
//! handles are dropped, as is the particle itself.

use vstd::prelude::*;
use crate::acceleration::{list_valid, lists_valid};
use crate::fixed::LIMIT;
use crate::particle::{Particle, population_in_limit};
use crate::spatial::{SpatialIndex, names, names_once, within_radius};
use crate::vector::Vec2;

verus! {

/// The handles of an answer of the index, in its order.
pub open spec fn handles_of(reported: Seq<(Vec2, usize)>) -> Seq<usize> {
    reported.map_values(|entry: (Vec2, usize)| entry.1)
}

/// The test for a handle to name another particle of the population.
pub open spec fn is_other(this_entity: usize, population: nat) -> spec_fn(usize) -> bool {
    |handle: usize| handle != this_entity && handle < population
}

/// The handles of an answer that name another particle of the population.
pub open spec fn others_of(
    reported: Seq<(Vec2, usize)>,
    this_entity: usize,
    population: nat,
) -> Seq<usize> {
    handles_of(reported).filter(is_other(this_entity, population))
}

/// Whether `nearest` is the neighbor list of `this_entity`: the particle
/// itself, followed, each once, by the other particles of the population
/// whose position in `points` lies nearer to `center` than `radius`.
pub open spec fn is_neighbor_list(
    nearest: Seq<usize>,
    this_entity: usize,
    center: Vec2,
    points: Seq<Vec2>,
    population: nat,
    radius: int,
) -> bool {
    &&& nearest.len() >= 1
    &&& nearest[0] == this_entity
    &&& nearest.no_duplicates()
    &&& forall|h: usize|
        nearest.skip(1).contains(h) <==> h != this_entity && h < population && h < points.len()
            && within_radius(points[h as int], center, radius)
}

/// An answer cut after `k + 1` entries names what it names when cut after
/// `k`, and the handle of the entry at `k`.
proof fn lemma_names_step(reported: Seq<(Vec2, usize)>, k: int, h: usize)
    requires
        0 <= k < reported.len(),
    ensures
        names(reported.take(k + 1), h) <==> names(reported.take(k), h) || reported[k].1 == h,
{
    let shorter = reported.take(k);
    let longer = reported.take(k + 1);
    if names(longer, h) {
        let m = choose|m: int| 0 <= m < longer.len() && (#[trigger] longer[m]).1 == h;
        if m < k {
            assert(shorter[m].1 == h);
        }
    }
    if names(shorter, h) {
        let m = choose|m: int| 0 <= m < shorter.len() && (#[trigger] shorter[m]).1 == h;
        assert(longer[m].1 == h);
    }
    if reported[k].1 == h {
        assert(longer[k].1 == h);
    }
}

/// A sequence with one more element holds what it held before, and that
/// element.
proof fn lemma_contains_step(list: Seq<usize>, last: usize, h: usize)
    ensures
        list.push(last).contains(h) <==> list.contains(h) || last == h,
{
    let longer = list.push(last);
    if longer.contains(h) {
        let i = choose|i: int| 0 <= i < longer.len() && longer[i] == h;
        if i < list.len() {
            assert(list[i] == h);
        }
    }
    if list.contains(h) {
        let i = choose|i: int| 0 <= i < list.len() && list[i] == h;
        assert(longer[i] == h);
    }
    if last == h {
        assert(longer[list.len() as int] == h);
    }
}

/// Builds the neighbor list of one particle from the answer of the index:
/// the particle itself comes first, then the handles of the answer in its
/// order, without the particle itself and without handles that the
/// population does not hold.
pub fn neighbor_list(
    this_entity: usize,
    reported: &Vec<(Vec2, usize)>,
    population: usize,
) -> (nearest: Vec<usize>)
    ensures
        nearest@ == seq![this_entity] + others_of(reported@, this_entity, population as nat),
        this_entity < population ==> list_valid(nearest@, population as nat),
        names_once(reported@) ==> nearest@.no_duplicates(),
        forall|h: usize|
            nearest@.skip(1).contains(h) <==> h != this_entity && h < population && names(
                reported@,
                h,
            ),
{
    let mut nearest: Vec<usize> = Vec::new();
    nearest.push(this_entity);
    let ghost keep = is_other(this_entity, population as nat);
    let mut k: usize = 0;
    proof {
        reveal(Seq::filter);
        assert(handles_of(reported@).take(0) =~= Seq::<usize>::empty());
        assert(nearest@ =~= seq![this_entity] + handles_of(reported@).take(0).filter(keep));
        assert(nearest@.skip(1) =~= Seq::<usize>::empty());
    }
    while k < reported.len()
        invariant
            k <= reported@.len(),
            keep == is_other(this_entity, population as nat),
            nearest@ == seq![this_entity] + handles_of(reported@).take(k as int).filter(keep),
            nearest@.len() >= 1,
            nearest@[0] == this_entity,
            forall|h: usize|
                nearest@.skip(1).contains(h) <==> keep(h) && names(reported@.take(k as int), h),
            names_once(reported@) ==> nearest@.skip(1).no_duplicates(),
        decreases reported@.len() - k,
    {
        let other_entity = reported[k].1;
        let ghost earlier = nearest@;
        proof {
            reveal(Seq::filter);
            let longer = handles_of(reported@).take(k + 1);
            assert(longer.drop_last() =~= handles_of(reported@).take(k as int));
            assert(longer.last() == other_entity);
            if names_once(reported@) && names(reported@.take(k as int), other_entity) {
                let m = choose|m: int|
                    0 <= m < k && (#[trigger] reported@.take(k as int)[m]).1 == other_entity;
                assert(reported@[m].1 != reported@[k as int].1);
            }
        }
        if other_entity != this_entity && other_entity < population {
            nearest.push(other_entity);
            proof {
                assert(nearest@.skip(1) =~= earlier.skip(1).push(other_entity));
                assert forall|h: usize|
                    nearest@.skip(1).contains(h) <==> keep(h) && names(
                        reported@.take(k + 1),
                        h,
                    ) by {
                    lemma_contains_step(earlier.skip(1), other_entity, h);
                    lemma_names_step(reported@, k as int, h);
                }
            }
        } else {
            proof {
                assert forall|h: usize|
                    nearest@.skip(1).contains(h) <==> keep(h) && names(
                        reported@.take(k + 1),
                        h,
                    ) by {
                    lemma_names_step(reported@, k as int, h);
                }
            }
        }
        k += 1;
    }
    proof {
        assert(reported@.take(k as int) =~= reported@);
        assert(handles_of(reported@).take(k as int) =~= handles_of(reported@));
        if names_once(reported@) {
            assert forall|a: int, b: int|
                0 <= a < nearest@.len() && 0 <= b < nearest@.len() && a != b implies nearest@[a]
                != nearest@[b] by {
                if a >= 1 {
                    assert(nearest@.skip(1)[a - 1] == nearest@[a]);
                    assert(nearest@.skip(1).contains(nearest@[a]));
                }
                if b >= 1 {
                    assert(nearest@.skip(1)[b - 1] == nearest@[b]);
                    assert(nearest@.skip(1).contains(nearest@[b]));
                }
            }
        }
        if this_entity < population {
            assert forall|j: int| 0 <= j < nearest@.len() implies #[trigger] nearest@[j]
                < population by {
                if j >= 1 {
                    assert(nearest@.skip(1)[j - 1] == nearest@[j]);
                    assert(nearest@.skip(1).contains(nearest@[j]));
                }
            }
        }
    }
    nearest
}

/// Whether `lists` holds, for every particle of the population in the order
/// of the handles, its neighbor list.
pub open spec fn are_neighbor_lists(
    lists: Seq<Vec<usize>>,
    particles: Seq<Particle>,
    points: Seq<Vec2>,
    radius: int,
) -> bool {
    &&& lists.len() == particles.len()
    &&& forall|i: int|
        0 <= i < lists.len() ==> is_neighbor_list(
            (#[trigger] lists[i])@,
            i as usize,
            particles[i].position,
            points,
            particles.len(),
            radius,
        )
}

/// Finds, for every particle, the particles that the index holds nearer to
/// the particle's current position than `radius`.
pub fn get_particles(
    particles: &Vec<Particle>,
    tree: &SpatialIndex,
    radius: i64,
) -> (lists: Vec<Vec<usize>>)
    requires
        population_in_limit(particles@),
        tree.wf(),
        0 <= radius <= LIMIT,
    ensures
        are_neighbor_lists(lists@, particles@, tree.points(), radius as int),
        lists_valid(lists@, particles@.len()),
{
    let mut list_of_nearest_entities: Vec<Vec<usize>> = Vec::new();
    let mut this_entity: usize = 0;
    while this_entity < particles.len()
        invariant
            population_in_limit(particles@),
            tree.wf(),
            0 <= radius <= LIMIT,
            this_entity <= particles@.len(),
            list_of_nearest_entities@.len() == this_entity,
            forall|i: int|
                0 <= i < this_entity ==> is_neighbor_list(
                    (#[trigger] list_of_nearest_entities@[i])@,
                    i as usize,
                    particles@[i].position,
                    tree.points(),
                    particles@.len(),
                    radius as int,
                ),
            forall|i: int|
                0 <= i < this_entity ==> list_valid(
                    (#[trigger] list_of_nearest_entities@[i])@,
                    particles@.len(),
                ),
        decreases particles@.len() - this_entity,
    {
        let center = particles[this_entity].position;
        let reported = tree.within_distance(center, radius);
        let nearest_entities = neighbor_list(this_entity, &reported, particles.len());
        proof {
            assert forall|h: usize|
                nearest_entities@.skip(1).contains(h) <==> h != this_entity && h < particles@.len()
                    && h < tree.points().len() && within_radius(
                    tree.points()[h as int],
                    center,
                    radius as int,
                ) by {
                assert(names(reported@, h) <==> h < tree.points().len() && within_radius(
                    tree.points()[h as int],
                    center,
                    radius as int,
                ));
            }
        }
        list_of_nearest_entities.push(nearest_entities);
        this_entity += 1;
    }
    list_of_nearest_entities
}

} // verus!
