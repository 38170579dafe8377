//! Fixed-point scalars: integers that count millionths of a unit.

use vstd::prelude::*;

verus! {

/// The fixed-point representation of the real number one.
pub const ONE: i64 = 1_000_000;

/// Largest magnitude that a stored coordinate, velocity or acceleration
/// component may have.
pub const LIMIT: i64 = 0x100_0000_0000;

/// Absolute value of an integer.
pub open spec fn magnitude(v: int) -> int {
    if v < 0 {
        -v
    } else {
        v
    }
}

/// Quotient of `a` by a positive `b`, rounded toward zero.
pub open spec fn trunc_div(a: int, b: int) -> int {
    if a >= 0 {
        a / b
    } else {
        -((-a) / b)
    }
}

/// Product of two fixed-point numbers, rounded toward zero.
pub open spec fn mul_fixed(a: int, b: int) -> int {
    trunc_div(a * b, ONE as int)
}

/// Whether `v` lies in `[-LIMIT, LIMIT]`.
pub open spec fn in_limit(v: int) -> bool {
    -(LIMIT as int) <= v <= LIMIT as int
}

/// Scaling a number by a fraction between zero and one does not increase
/// its magnitude and does not flip its sign; scaling by one changes nothing,
/// and scaling by zero leaves nothing.
pub proof fn lemma_scaled_by_fraction(a: int, k: int)
    requires
        0 <= k <= ONE,
    ensures
        magnitude(mul_fixed(a, k)) <= magnitude(a),
        a >= 0 ==> mul_fixed(a, k) >= 0,
        a <= 0 ==> mul_fixed(a, k) <= 0,
        k == ONE ==> mul_fixed(a, k) == a,
        k == 0 ==> mul_fixed(a, k) == 0,
{
    let m = magnitude(a);
    assert(0 <= m * k <= m * ONE) by (nonlinear_arith)
        requires
            0 <= k <= ONE,
            0 <= m,
    ;
    assert((m * k) / (ONE as int) <= m && (m * k) / (ONE as int) >= 0) by (nonlinear_arith)
        requires
            0 <= m * k <= m * ONE,
    ;
    assert(k == ONE ==> (m * k) / (ONE as int) == m) by (nonlinear_arith);
    assert(k == 0 ==> m * k == 0) by (nonlinear_arith);
    if a >= 0 {
        assert(a * k == m * k);
    } else {
        assert(-(a * k) == m * k) by (nonlinear_arith)
            requires
                m == -a,
        ;
        assert(a * k <= 0);
        if a * k == 0 {
            assert(m * k == 0);
        }
    }
}

/// Divides `a` by a positive `b`, rounding toward zero.
pub fn div_trunc(a: i128, b: i128) -> (q: i128)
    requires
        b > 0,
        a > i128::MIN,
    ensures
        q == trunc_div(a as int, b as int),
{
    if a >= 0 {
        a / b
    } else {
        let n: i128 = -a;
        let m: i128 = n / b;
        -m
    }
}

/// Whether `r` is the square root of `n`, rounded down.
pub open spec fn is_floor_sqrt(n: nat, r: nat) -> bool {
    r * r <= n < (r + 1) * (r + 1)
}

/// The integer square root: the one `r` with `r * r <= n < (r + 1) * (r + 1)`.
pub open spec fn floor_sqrt(n: nat) -> nat {
    choose|r: nat| is_floor_sqrt(n, r)
}

/// Every natural number has an integer square root.
pub proof fn lemma_floor_sqrt_exists(n: nat)
    ensures
        floor_sqrt(n) * floor_sqrt(n) <= n < (floor_sqrt(n) + 1) * (floor_sqrt(n) + 1),
    decreases n,
{
    if n == 0 {
        let r: nat = 0;
        assert(r * r == 0 && (r + 1) * (r + 1) == 1) by (nonlinear_arith)
            requires
                r == 0,
        ;
        assert(is_floor_sqrt(n, r));
    } else {
        lemma_floor_sqrt_exists((n - 1) as nat);
        let p: nat = floor_sqrt((n - 1) as nat);
        if (p + 1) * (p + 1) <= n {
            let r: nat = p + 1;
            assert((r + 1) * (r + 1) > r * r) by (nonlinear_arith);
            assert(is_floor_sqrt(n, r));
        } else {
            assert(is_floor_sqrt(n, p));
        }
    }
}

/// The integer square root is unique.
pub proof fn lemma_floor_sqrt_unique(n: nat, r: nat)
    requires
        r * r <= n < (r + 1) * (r + 1),
    ensures
        r == floor_sqrt(n),
{
    lemma_floor_sqrt_exists(n);
    let s = floor_sqrt(n);
    assert(r == s) by (nonlinear_arith)
        requires
            r * r <= n < (r + 1) * (r + 1),
            s * s <= n < (s + 1) * (s + 1),
    ;
}

/// The integer square root does not decrease when its argument grows.
pub proof fn lemma_floor_sqrt_monotonic(m: nat, n: nat)
    requires
        m <= n,
    ensures
        floor_sqrt(m) <= floor_sqrt(n),
{
    lemma_floor_sqrt_exists(m);
    lemma_floor_sqrt_exists(n);
    let r = floor_sqrt(m);
    let s = floor_sqrt(n);
    assert(r <= s) by (nonlinear_arith)
        requires
            r * r <= m,
            m <= n,
            n < (s + 1) * (s + 1),
    ;
}

/// Computes the integer square root by bisection.
pub fn isqrt(n: u128) -> (r: u64)
    ensures
        r == floor_sqrt(n as nat),
{
    let mut low: u128 = 0;
    let mut high: u128 = 0x1_0000_0000_0000_0000;
    assert(n < high * high) by (nonlinear_arith)
        requires
            high == 0x1_0000_0000_0000_0000,
            n <= u128::MAX,
    ;
    while high - low > 1
        invariant
            low < high <= 0x1_0000_0000_0000_0000,
            low * low <= n,
            n < high * high,
        decreases high - low,
    {
        let middle: u128 = low + (high - low) / 2;
        assert(middle * middle <= 0xffff_ffff_ffff_ffff * 0xffff_ffff_ffff_ffff)
            by (nonlinear_arith)
            requires
                middle <= 0xffff_ffff_ffff_ffff,
        ;
        if middle * middle <= n {
            low = middle;
        } else {
            high = middle;
        }
    }
    proof {
        lemma_floor_sqrt_unique(n as nat, low as nat);
    }
    low as u64
}

} // verus!
