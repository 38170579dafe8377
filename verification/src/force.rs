//! The pairwise force law.
//!
//! The force depends on the distance between two particles, measured as a
//! fraction of the interaction radius, and on the attraction factor of the
//! ordered pair of their types. Below [`BETA_REPULSION_DISTANCE`] every pair
//! repels; between it and [`ONE`] the factor is shaped by a triangular kernel;
//! from [`ONE`] on there is no force.

use vstd::prelude::*;
use crate::fixed::{ONE, mul_fixed, div_trunc, magnitude, lemma_scaled_by_fraction};

verus! {

/// Normalized distance below which every pair repels.
pub const BETA_REPULSION_DISTANCE: i64 = 500_000;

/// Force in the repulsion core: rises linearly from `-ONE` at distance zero
/// to zero at the edge of the core.
pub open spec fn repulsion(distance: int) -> int {
    distance * ONE / (BETA_REPULSION_DISTANCE as int) - ONE
}

/// The triangular kernel of the shell: zero at both of its edges and `ONE`
/// halfway between them.
pub open spec fn shell_kernel(distance: int) -> int {
    let numerator = magnitude(2 * distance - ONE - BETA_REPULSION_DISTANCE);
    let denominator = ONE - BETA_REPULSION_DISTANCE;
    ONE - numerator * ONE / denominator
}

/// Force in the shell: the attraction factor scaled by the kernel.
pub open spec fn shell_force(attraction_factor: int, distance: int) -> int {
    mul_fixed(attraction_factor, shell_kernel(distance))
}

/// The force law over normalized distance.
pub open spec fn force_spec(attraction_factor: int, distance: int) -> int {
    if distance < BETA_REPULSION_DISTANCE {
        repulsion(distance)
    } else if distance < ONE {
        shell_force(attraction_factor, distance)
    } else {
        0
    }
}

/// Computes the force between two particles from the attraction factor of
/// their types and their normalized distance.
pub fn force(attraction_factor: i64, distance: u64) -> (f: i64)
    ensures
        f == force_spec(attraction_factor as int, distance as int),
        distance >= ONE ==> f == 0,
        distance < BETA_REPULSION_DISTANCE ==> -ONE <= f < 0,
        magnitude(f as int) <= ONE || magnitude(f as int) <= magnitude(attraction_factor as int),
{
    if distance < BETA_REPULSION_DISTANCE as u64 {
        let d: i64 = distance as i64;
        d * ONE / BETA_REPULSION_DISTANCE - ONE
    } else if distance < ONE as u64 {
        let d: i64 = distance as i64;
        let offset: i64 = 2 * d - ONE - BETA_REPULSION_DISTANCE;
        let numerator: i64 = if offset < 0 {
            -offset
        } else {
            offset
        };
        let denominator: i64 = ONE - BETA_REPULSION_DISTANCE;
        let kernel: i64 = ONE - numerator * ONE / denominator;
        proof {
            lemma_scaled_by_fraction(attraction_factor as int, kernel as int);
            assert((attraction_factor as int) * (kernel as int) <= 0x7fff_ffff_ffff_ffff * 1_000_000
                && (attraction_factor as int) * (kernel as int) >= -0x8000_0000_0000_0000
                * 1_000_000) by (nonlinear_arith)
                requires
                    0 <= kernel <= 1_000_000,
                    -0x8000_0000_0000_0000 <= attraction_factor <= 0x7fff_ffff_ffff_ffff,
            ;
        }
        let product: i128 = (attraction_factor as i128) * (kernel as i128);
        let scaled: i128 = div_trunc(product, ONE as i128);
        scaled as i64
    } else {
        0
    }
}

/// At the edge of the repulsion core the two branches meet: the core's
/// formula and the shell's formula both give zero there, whatever the
/// attraction factor.
pub proof fn force_is_continuous_at_core_edge(attraction_factor: int)
    ensures
        repulsion(BETA_REPULSION_DISTANCE as int) == 0,
        shell_force(attraction_factor, BETA_REPULSION_DISTANCE as int) == 0,
        force_spec(attraction_factor, BETA_REPULSION_DISTANCE as int) == 0,
        force_spec(attraction_factor, BETA_REPULSION_DISTANCE - 1) == -2,
{
    lemma_scaled_by_fraction(attraction_factor, 0);
}

/// Beyond the interaction radius there is no force.
pub proof fn force_vanishes_beyond_cutoff(attraction_factor: int, distance: int)
    requires
        distance >= ONE,
    ensures
        force_spec(attraction_factor, distance) == 0,
{
}

/// At zero separation the force is pure repulsion of magnitude one, whatever
/// the attraction factor.
pub proof fn force_at_contact(attraction_factor: int)
    ensures
        force_spec(attraction_factor, 0) == -ONE,
{
}

/// Halfway through the shell the force equals the attraction factor, and at
/// the shell's outer edge it has tapered to nothing.
pub proof fn force_peaks_mid_shell(attraction_factor: int)
    ensures
        force_spec(attraction_factor, (ONE + BETA_REPULSION_DISTANCE) / 2) == attraction_factor,
        shell_kernel(ONE as int) == 0,
{
    lemma_scaled_by_fraction(attraction_factor, ONE as int);
}

/// For a factor in `[-ONE, ONE]` the force lies in `[-ONE, ONE]` at every
/// distance that is not negative.
pub proof fn force_is_bounded(attraction_factor: int, distance: int)
    requires
        -ONE <= attraction_factor <= ONE,
        0 <= distance,
    ensures
        -ONE <= force_spec(attraction_factor, distance) <= ONE,
{
    if BETA_REPULSION_DISTANCE <= distance < ONE {
        lemma_scaled_by_fraction(attraction_factor, shell_kernel(distance));
    }
}

} // verus!
