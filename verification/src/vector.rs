//! Two-dimensional vectors with fixed-point components.

use vstd::prelude::*;
use crate::fixed::{
    floor_sqrt, in_limit, isqrt, lemma_floor_sqrt_exists, lemma_floor_sqrt_monotonic,
    lemma_floor_sqrt_unique,
};

verus! {

/// A point of the plane, or a displacement between two points.
#[derive(Clone, Copy, Debug, PartialEq, Eq, Structural)]
pub struct Vec2 {
    /// The component along the first axis.
    pub x: i64,
    /// The component along the second axis.
    pub y: i64,
}

/// Sum of the squares of two components.
pub open spec fn norm_squared(x: int, y: int) -> nat {
    (x * x + y * y) as nat
}

/// Euclidean length of the vector `(x, y)`, rounded down.
pub open spec fn norm(x: int, y: int) -> nat {
    floor_sqrt(norm_squared(x, y))
}

/// The length of a vector is zero only for the zero vector, and is never
/// smaller than the magnitude of either component.
pub proof fn lemma_norm_bounds(x: int, y: int)
    ensures
        norm(x, y) == 0 <==> (x == 0 && y == 0),
        -norm(x, y) <= x <= norm(x, y),
        -norm(x, y) <= y <= norm(x, y),
        norm(x, y) * norm(x, y) <= x * x + y * y,
{
    let n = norm_squared(x, y);
    assert(x * x >= 0 && y * y >= 0) by (nonlinear_arith);
    lemma_floor_sqrt_exists(n);
    let ax: nat = if x < 0 { (-x) as nat } else { x as nat };
    let ay: nat = if y < 0 { (-y) as nat } else { y as nat };
    assert(ax * ax == x * x) by (nonlinear_arith)
        requires
            ax == x || ax == -x,
    ;
    assert(ay * ay == y * y) by (nonlinear_arith)
        requires
            ay == y || ay == -y,
    ;
    assert(ax * ax < (ax + 1) * (ax + 1)) by (nonlinear_arith);
    assert(ay * ay < (ay + 1) * (ay + 1)) by (nonlinear_arith);
    lemma_floor_sqrt_unique(ax * ax, ax);
    lemma_floor_sqrt_unique(ay * ay, ay);
    lemma_floor_sqrt_monotonic(ax * ax, n);
    lemma_floor_sqrt_monotonic(ay * ay, n);
    if x == 0 && y == 0 {
        assert(n == 0);
        lemma_floor_sqrt_unique(0, 0);
    }
}

impl Vec2 {
    /// Whether both components lie in `[-LIMIT, LIMIT]`.
    pub open spec fn within_limit(self) -> bool {
        in_limit(self.x as int) && in_limit(self.y as int)
    }

    /// Builds a vector from its components.
    pub fn new(x: i64, y: i64) -> (v: Vec2)
        ensures
            v.x == x,
            v.y == y,
    {
        Vec2 { x, y }
    }

    /// The zero vector.
    pub fn zero() -> (v: Vec2)
        ensures
            v.x == 0,
            v.y == 0,
    {
        Vec2 { x: 0, y: 0 }
    }

    /// The displacement that leads from `rhs` to `self`.
    pub fn sub(self, rhs: Vec2) -> (d: Vec2)
        requires
            i64::MIN <= self.x - rhs.x <= i64::MAX,
            i64::MIN <= self.y - rhs.y <= i64::MAX,
        ensures
            d.x == self.x - rhs.x,
            d.y == self.y - rhs.y,
    {
        Vec2 { x: self.x - rhs.x, y: self.y - rhs.y }
    }

    /// The squared Euclidean length.
    pub fn length_squared(self) -> (s: u128)
        ensures
            s == norm_squared(self.x as int, self.y as int),
    {
        let x: i128 = self.x as i128;
        let y: i128 = self.y as i128;
        assert(0 <= x * x <= 0x8000_0000_0000_0000 * 0x8000_0000_0000_0000) by (nonlinear_arith)
            requires
                -0x8000_0000_0000_0000 <= x <= 0x7fff_ffff_ffff_ffff,
        ;
        assert(0 <= y * y <= 0x8000_0000_0000_0000 * 0x8000_0000_0000_0000) by (nonlinear_arith)
            requires
                -0x8000_0000_0000_0000 <= y <= 0x7fff_ffff_ffff_ffff,
        ;
        let xx: i128 = x * x;
        let yy: i128 = y * y;
        (xx as u128) + (yy as u128)
    }

    /// The Euclidean length, rounded down.
    pub fn length(self) -> (l: u64)
        ensures
            l == norm(self.x as int, self.y as int),
    {
        isqrt(self.length_squared())
    }
}

} // verus!
