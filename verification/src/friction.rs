//! The friction factor of a time step.
//!
//! Friction halves a velocity over the half time, so over a time step it
//! scales a velocity by one half to the power of the time step over the half
//! time. The factor is that power in millionths, rounded down. It is found
//! exactly, by comparing whole powers: `f / ONE` is at most the power just
//! when `f` to the half time, times two to the time step, is at most `ONE`
//! to the half time. The powers are taken after dividing both times by their
//! greatest common divisor, and only where the half time then counts at most
//! [`MAX_HALF_TIME_PARTS`] parts.

use vstd::prelude::*;
use vstd::arithmetic::div_mod::{lemma_fundamental_div_mod, lemma_mod_multiples_basic};
use vstd::arithmetic::power::{
    lemma0_pow, lemma1_pow, lemma_pow_distributes, lemma_pow_increases, lemma_pow_multiplies,
    lemma_pow_positive, pow,
};
use vstd::arithmetic::power2::{lemma2_to64, lemma_pow2, pow2};
use crate::fixed::ONE;
use crate::natural::{at_most, mul_small, power, value};

verus! {

/// Largest number of parts that the half time may count once both times
/// have been divided by their greatest common divisor.
pub const MAX_HALF_TIME_PARTS: i64 = 256;

/// The greatest common divisor of two numbers.
pub open spec fn gcd(a: nat, b: nat) -> nat
    decreases b,
{
    if b == 0 {
        a
    } else {
        gcd(b, a % b)
    }
}

/// Whether `friction / ONE` is at most one half to the power of the time
/// step over the half time.
pub open spec fn at_most_decay(friction: int, delta_time: nat, half_time: nat) -> bool {
    pow(friction, half_time) * pow(2, delta_time) <= pow(ONE as int, half_time)
}

/// Whether `friction` is the friction factor of the time step: one half to
/// the power of the time step over the half time, in millionths, rounded
/// down.
pub open spec fn is_friction_factor(friction: int, delta_time: nat, half_time: nat) -> bool {
    &&& 0 <= friction
    &&& at_most_decay(friction, delta_time, half_time)
    &&& !at_most_decay(friction + 1, delta_time, half_time)
}

/// Whether the factor of the time step can be found: the time step is not
/// negative, the half time is positive, and it counts few enough parts.
pub open spec fn commensurable(delta_time: int, half_time: int) -> bool {
    &&& delta_time >= 0
    &&& half_time > 0
    &&& half_time / (gcd(delta_time as nat, half_time as nat) as int) <= MAX_HALF_TIME_PARTS
}

/// The greatest common divisor of two numbers divides both, and is positive
/// unless both are zero.
pub proof fn lemma_gcd_divides(a: nat, b: nat)
    ensures
        a > 0 || b > 0 ==> gcd(a, b) > 0,
        gcd(a, b) > 0 ==> a % gcd(a, b) == 0 && b % gcd(a, b) == 0,
    decreases b,
{
    if b != 0 {
        lemma_gcd_divides(b, a % b);
        let g = gcd(a, b) as int;
        let r = (a % b) as int;
        lemma_fundamental_div_mod(a as int, b as int);
        lemma_fundamental_div_mod(b as int, g);
        lemma_fundamental_div_mod(r, g);
        let whole: int = (a as int) / (b as int);
        let in_b: int = (b as int) / g;
        let in_r: int = r / g;
        let x = in_b * whole + in_r;
        assert(a == x * g) by (nonlinear_arith)
            requires
                a == b * whole + r,
                b == g * in_b,
                r == g * in_r,
                x == in_b * whole + in_r,
        ;
        lemma_mod_multiples_basic(x, g);
    } else if a > 0 {
        lemma_mod_multiples_basic(1, a as int);
        lemma_mod_multiples_basic(0, a as int);
    }
}

/// A power grows with its base.
pub proof fn lemma_pow_base_increases(a: int, b: int, e: nat)
    requires
        0 <= a <= b,
    ensures
        0 <= pow(a, e) <= pow(b, e),
    decreases e,
{
    reveal(pow);
    if e > 0 {
        lemma_pow_base_increases(a, b, (e - 1) as nat);
        let x = pow(a, (e - 1) as nat);
        let y = pow(b, (e - 1) as nat);
        assert(0 <= a * x <= b * y) by (nonlinear_arith)
            requires
                0 <= a <= b,
                0 <= x <= y,
        ;
    }
}

/// A power with a positive exponent grows strictly with its base.
pub proof fn lemma_pow_base_strictly_increases(a: int, b: int, e: nat)
    requires
        0 <= a < b,
        e > 0,
    ensures
        0 <= pow(a, e) < pow(b, e),
    decreases e,
{
    reveal(pow);
    lemma_pow_base_increases(a, b, (e - 1) as nat);
    lemma_pow_positive(b, (e - 1) as nat);
    let x = pow(a, (e - 1) as nat);
    let y = pow(b, (e - 1) as nat);
    assert(0 <= a * x < b * y) by (nonlinear_arith)
        requires
            0 <= a < b,
            0 <= x <= y,
            0 < y,
    ;
}

/// Measuring both times in a unit that is `scale` times finer does not
/// change which factors are at most the decay.
pub proof fn lemma_decay_ignores_the_unit(friction: int, delta_time: nat, half_time: nat, scale: nat)
    requires
        0 <= friction,
        scale > 0,
    ensures
        at_most_decay(friction, delta_time * scale, half_time * scale) <==> at_most_decay(
            friction,
            delta_time,
            half_time,
        ),
{
    let left = pow(friction, half_time) * pow(2, delta_time);
    let right = pow(ONE as int, half_time);
    lemma_pow_multiplies(friction, half_time, scale);
    lemma_pow_multiplies(2, delta_time, scale);
    lemma_pow_multiplies(ONE as int, half_time, scale);
    lemma_pow_distributes(pow(friction, half_time), pow(2, delta_time), scale);
    lemma_pow_base_increases(0, friction, half_time);
    lemma_pow_positive(2, delta_time);
    lemma_pow_positive(ONE as int, half_time);
    assert(0 <= left) by (nonlinear_arith)
        requires
            left == pow(friction, half_time) * pow(2, delta_time),
            0 <= pow(friction, half_time),
            0 < pow(2, delta_time),
    ;
    if left <= right {
        lemma_pow_base_increases(left, right, scale);
    } else {
        lemma_pow_base_strictly_increases(right, left, scale);
    }
}

/// There is at most one friction factor for a time step and a positive half
/// time.
pub proof fn friction_factor_is_unique(first: int, second: int, delta_time: nat, half_time: nat)
    requires
        half_time > 0,
        is_friction_factor(first, delta_time, half_time),
        is_friction_factor(second, delta_time, half_time),
    ensures
        first == second,
{
    lemma_pow_positive(2, delta_time);
    let t = pow(2, delta_time);
    if first < second {
        lemma_pow_base_increases(first + 1, second, half_time);
        assert(pow(first + 1, half_time) * t <= pow(second, half_time) * t) by (nonlinear_arith)
            requires
                pow(first + 1, half_time) <= pow(second, half_time),
                0 < t,
        ;
    } else if second < first {
        lemma_pow_base_increases(second + 1, first, half_time);
        assert(pow(second + 1, half_time) * t <= pow(first, half_time) * t) by (nonlinear_arith)
            requires
                pow(second + 1, half_time) <= pow(first, half_time),
                0 < t,
        ;
    }
}

/// Computes the greatest common divisor of two numbers.
fn greatest_common_divisor(a: u64, b: u64) -> (g: u64)
    ensures
        g == gcd(a as nat, b as nat),
{
    let mut x: u64 = a;
    let mut y: u64 = b;
    while y != 0
        invariant
            gcd(x as nat, y as nat) == gcd(a as nat, b as nat),
        decreases y,
    {
        let r: u64 = x % y;
        x = y;
        y = r;
    }
    x
}

/// Tells whether `friction / ONE` is at most one half to the power of
/// `step_parts` over `half_parts`, given `ONE` to the power of `half_parts`.
fn decays(friction: u32, step_parts: u32, half_parts: u32, one_to_half: &Vec<u32>) -> (result: bool)
    requires
        value(one_to_half@) == pow(ONE as int, half_parts as nat),
    ensures
        result == at_most_decay(friction as int, step_parts as nat, half_parts as nat),
{
    let mut left = power(friction, half_parts);
    let mut doubled: u32 = 0;
    proof {
        reveal_with_fuel(pow, 1);
    }
    while doubled < step_parts
        invariant
            doubled <= step_parts,
            value(left@) == pow(friction as int, half_parts as nat) * pow(2, doubled as nat),
        decreases step_parts - doubled,
    {
        left = mul_small(&left, 2);
        proof {
            reveal_with_fuel(pow, 2);
            let f = pow(friction as int, half_parts as nat);
            let t = pow(2, doubled as nat);
            assert(pow(2, (doubled + 1) as nat) == 2 * t);
            assert((f * t) * 2 == f * (2 * t)) by (nonlinear_arith);
        }
        doubled += 1;
    }
    at_most(&left, one_to_half)
}

/// Computes the friction factor of a time step for a half time: one half to
/// the power of the time step over the half time, in millionths, rounded
/// down. Fails where the time step is negative, where the half time is not
/// positive, and where it counts more than [`MAX_HALF_TIME_PARTS`] parts.
pub fn friction_factor(delta_time: i64, half_time: i64) -> (friction: Option<i64>)
    ensures
        friction is Some <==> commensurable(delta_time as int, half_time as int),
        friction matches Some(f) ==> is_friction_factor(
            f as int,
            delta_time as nat,
            half_time as nat,
        ) && f <= ONE,
{
    if delta_time < 0 || half_time <= 0 {
        return None;
    }
    let unit: u64 = greatest_common_divisor(delta_time as u64, half_time as u64);
    proof {
        lemma_gcd_divides(delta_time as nat, half_time as nat);
        lemma_fundamental_div_mod(delta_time as int, unit as int);
        lemma_fundamental_div_mod(half_time as int, unit as int);
    }
    let step_parts: u64 = delta_time as u64 / unit;
    let half_parts: u64 = half_time as u64 / unit;
    if half_parts > MAX_HALF_TIME_PARTS as u64 {
        return None;
    }
    assert(half_parts > 0) by (nonlinear_arith)
        requires
            half_time == unit * half_parts,
            half_time > 0,
            unit > 0,
    ;
    assert(delta_time == step_parts * unit && half_time == half_parts * unit) by (nonlinear_arith)
        requires
            delta_time == unit * step_parts,
            half_time == unit * half_parts,
    ;
    let ghost p: nat = step_parts as nat;
    let ghost q: nat = half_parts as nat;
    if step_parts >= 20 * half_parts {
        proof {
            lemma0_pow(q);
            lemma1_pow(q);
            lemma_pow_positive(ONE as int, q);
            lemma_pow_base_strictly_increases(ONE as int, 0x10_0000, q);
            lemma2_to64();
            lemma_pow2(20);
            lemma_pow_multiplies(2, 20, q);
            lemma_pow_increases(2, 20 * q, p);
            assert(0 * pow(2, p) == 0) by (nonlinear_arith);
            assert(1 * pow(2, p) == pow(2, p)) by (nonlinear_arith);
            assert(is_friction_factor(0, p, q));
            lemma_decay_ignores_the_unit(0, p, q, unit as nat);
            lemma_decay_ignores_the_unit(1, p, q, unit as nat);
        }
        return Some(0);
    }
    let one_to_half = power(ONE as u32, half_parts as u32);
    let mut low: u32 = 0;
    let mut high: u32 = ONE as u32 + 1;
    proof {
        lemma0_pow(q);
        lemma_pow_positive(ONE as int, q);
        lemma_pow_positive(2, p);
        lemma_pow_base_strictly_increases(ONE as int, ONE + 1, q);
        assert(0 * pow(2, p) == 0) by (nonlinear_arith);
        assert(pow(ONE + 1, q) * pow(2, p) >= pow(ONE + 1, q)) by (nonlinear_arith)
            requires
                pow(2, p) >= 1,
                pow(ONE + 1, q) >= 0,
        ;
    }
    while high - low > 1
        invariant
            low < high <= ONE + 1,
            p == step_parts,
            q == half_parts,
            step_parts < 20 * half_parts,
            0 < half_parts <= MAX_HALF_TIME_PARTS,
            value(one_to_half@) == pow(ONE as int, q),
            at_most_decay(low as int, p, q),
            !at_most_decay(high as int, p, q),
        decreases high - low,
    {
        let middle: u32 = low + (high - low) / 2;
        if decays(middle, step_parts as u32, half_parts as u32, &one_to_half) {
            low = middle;
        } else {
            high = middle;
        }
    }
    proof {
        lemma_decay_ignores_the_unit(low as int, p, q, unit as nat);
        lemma_decay_ignores_the_unit(low + 1, p, q, unit as nat);
    }
    Some(low as i64)
}

} // verus!
