//! Natural numbers of any size.
//!
//! A number is a vector of limbs in base 2^32, the least significant first.
//! Limbs that are zero may stand at the top.

use vstd::prelude::*;
use vstd::arithmetic::power::pow;

verus! {

/// The base of a limb.
pub const BASE: u64 = 0x1_0000_0000;

/// The weight of the limb at position `n`: the base to the power of `n`.
pub open spec fn weight(n: nat) -> nat
    decreases n,
{
    if n == 0 {
        1
    } else {
        BASE as nat * weight((n - 1) as nat)
    }
}

/// The number that the limbs stand for.
pub open spec fn value(limbs: Seq<u32>) -> nat
    decreases limbs.len(),
{
    if limbs.len() == 0 {
        0
    } else {
        value(limbs.drop_last()) + limbs.last() as nat * weight((limbs.len() - 1) as nat)
    }
}

/// A number is smaller than the weight of the first limb it does not have.
pub proof fn lemma_value_bound(limbs: Seq<u32>)
    ensures
        value(limbs) < weight(limbs.len()),
    decreases limbs.len(),
{
    if limbs.len() > 0 {
        lemma_value_bound(limbs.drop_last());
        let w = weight((limbs.len() - 1) as nat);
        let top = limbs.last() as nat;
        assert(top * w + w <= BASE as nat * w) by (nonlinear_arith)
            requires
                top + 1 <= BASE as nat,
        ;
    }
}

/// Appending a limb adds the limb times its weight.
pub proof fn lemma_value_push(limbs: Seq<u32>, top: u32)
    ensures
        value(limbs.push(top)) == value(limbs) + top as nat * weight(limbs.len()),
{
    assert(limbs.push(top).drop_last() =~= limbs);
}

/// The first `n + 1` limbs stand for what the first `n` stand for, plus the
/// next limb times its weight.
pub proof fn lemma_value_take(limbs: Seq<u32>, n: int)
    requires
        0 <= n < limbs.len(),
    ensures
        value(limbs.take(n + 1)) == value(limbs.take(n)) + limbs[n] as nat * weight(n as nat),
{
    assert(limbs.take(n + 1).drop_last() =~= limbs.take(n));
}

/// Multiplies a number by a limb.
pub fn mul_small(a: &Vec<u32>, m: u32) -> (product: Vec<u32>)
    ensures
        value(product@) == value(a@) * m,
        product@.len() <= a@.len() + 1,
{
    let mut product: Vec<u32> = Vec::new();
    let mut carry: u64 = 0;
    let mut i: usize = 0;
    assert(a@.take(0) =~= Seq::<u32>::empty());
    assert(0 * weight(0) == 0 && 0 * (m as int) == 0) by (nonlinear_arith);
    while i < a.len()
        invariant
            i <= a@.len(),
            product@.len() == i,
            carry < BASE,
            value(product@) + carry * weight(i as nat) == value(a@.take(i as int)) * m,
        decreases a@.len() - i,
    {
        let limb: u64 = a[i] as u64;
        assert(limb * (m as u64) + carry < 0x1_0000_0000 * 0x1_0000_0000) by (nonlinear_arith)
            requires
                limb < 0x1_0000_0000,
                m < 0x1_0000_0000,
                carry < 0x1_0000_0000,
        ;
        let total: u64 = limb * (m as u64) + carry;
        let low: u64 = total % BASE;
        let high: u64 = total / BASE;
        proof {
            let w = weight(i as nat) as int;
            let before = value(product@) as int;
            let taken = value(a@.take(i as int)) as int;
            lemma_value_push(product@, low as u32);
            lemma_value_take(a@, i as int);
            assert(weight((i + 1) as nat) == BASE as nat * weight(i as nat));
            assert(before + low * w + high * (BASE * w) == (taken + limb * w) * m)
                by (nonlinear_arith)
                requires
                    before + carry * w == taken * m,
                    total == limb * m + carry,
                    total == high * BASE + low,
            ;
        }
        product.push(low as u32);
        carry = high;
        i += 1;
    }
    assert(a@.take(i as int) =~= a@);
    if carry > 0 {
        proof {
            lemma_value_push(product@, carry as u32);
        }
        product.push(carry as u32);
    }
    product
}

/// Raises a limb to a power.
pub fn power(base: u32, exponent: u32) -> (result: Vec<u32>)
    ensures
        value(result@) == pow(base as int, exponent as nat),
        result@.len() <= exponent + 1,
{
    let mut result: Vec<u32> = Vec::new();
    result.push(1);
    proof {
        lemma_value_push(Seq::<u32>::empty(), 1);
        assert(result@ =~= Seq::<u32>::empty().push(1));
        reveal_with_fuel(pow, 1);
    }
    let mut done: u32 = 0;
    while done < exponent
        invariant
            done <= exponent,
            value(result@) == pow(base as int, done as nat),
            result@.len() <= done + 1,
        decreases exponent - done,
    {
        result = mul_small(&result, base);
        proof {
            reveal_with_fuel(pow, 2);
            assert(pow(base as int, (done + 1) as nat) == base * pow(base as int, done as nat));
            assert(value(result@) == pow(base as int, (done + 1) as nat)) by (nonlinear_arith)
                requires
                    value(result@) == pow(base as int, done as nat) * base,
                    pow(base as int, (done + 1) as nat) == base * pow(base as int, done as nat),
            ;
        }
        done += 1;
    }
    result
}

/// Extends a number to `length` limbs with zeros at the top.
fn padded(a: &Vec<u32>, length: usize) -> (result: Vec<u32>)
    requires
        a@.len() <= length,
    ensures
        result@.len() == length,
        value(result@) == value(a@),
{
    let mut result: Vec<u32> = Vec::new();
    let mut i: usize = 0;
    while i < a.len()
        invariant
            i <= a@.len(),
            result@ == a@.take(i as int),
        decreases a@.len() - i,
    {
        result.push(a[i]);
        assert(result@ =~= a@.take(i + 1));
        i += 1;
    }
    assert(a@.take(i as int) =~= a@);
    while i < length
        invariant
            a@.len() <= i <= length,
            result@.len() == i,
            value(result@) == value(a@),
        decreases length - i,
    {
        proof {
            lemma_value_push(result@, 0);
            assert(0 * weight(i as nat) == 0) by (nonlinear_arith);
        }
        result.push(0);
        i += 1;
    }
    result
}

/// Tells whether one number is at most another.
pub fn at_most(a: &Vec<u32>, b: &Vec<u32>) -> (result: bool)
    ensures
        result == (value(a@) <= value(b@)),
{
    let length = if a.len() > b.len() {
        a.len()
    } else {
        b.len()
    };
    let x = padded(a, length);
    let y = padded(b, length);
    let mut i: usize = length;
    assert(x@.take(i as int) =~= x@);
    assert(y@.take(i as int) =~= y@);
    while i > 0
        invariant
            i <= length,
            x@.len() == length,
            y@.len() == length,
            value(x@) == value(a@),
            value(y@) == value(b@),
            value(x@) - value(x@.take(i as int)) == value(y@) - value(y@.take(i as int)),
        decreases i,
    {
        proof {
            lemma_value_take(x@, i - 1);
            lemma_value_take(y@, i - 1);
            lemma_value_bound(x@.take(i - 1));
            lemma_value_bound(y@.take(i - 1));
        }
        if x[i - 1] != y[i - 1] {
            proof {
                let w = weight((i - 1) as nat) as int;
                let p = x@[i - 1] as int;
                let q = y@[i - 1] as int;
                if p < q {
                    assert(p * w + w <= q * w) by (nonlinear_arith)
                        requires
                            p + 1 <= q,
                            w >= 0,
                    ;
                } else {
                    assert(q * w + w <= p * w) by (nonlinear_arith)
                        requires
                            q + 1 <= p,
                            w >= 0,
                    ;
                }
            }
            return x[i - 1] < y[i - 1];
        }
        i -= 1;
    }
    assert(x@.take(0) =~= Seq::<u32>::empty());
    assert(y@.take(0) =~= Seq::<u32>::empty());
    true
}

} // verus!
