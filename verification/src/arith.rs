//! Greatest common divisor and least common multiple.

use vstd::prelude::*;

verus! {

/// Euclid's greatest common divisor.
pub open spec fn spec_gcd(a: nat, b: nat) -> nat
    decreases b,
{
    if b == 0 {
        a
    } else {
        spec_gcd(b, a % b)
    }
}

/// A positive first argument keeps the divisor positive.
pub proof fn lemma_gcd_pos(a: nat, b: nat)
    requires
        a >= 1,
    ensures
        spec_gcd(a, b) >= 1,
    decreases b,
{
    if b != 0 {
        lemma_gcd_pos(b, a % b);
    }
}

pub fn gcd(a: usize, b: usize) -> (r: usize)
    ensures
        r == spec_gcd(a as nat, b as nat),
{
    let mut x = a;
    let mut y = b;
    while y > 0
        invariant
            spec_gcd(x as nat, y as nat) == spec_gcd(a as nat, b as nat),
        decreases y,
    {
        let tmp_x = x;
        x = y;
        y = tmp_x % y;
    }
    x
}

/// The least common multiple as the product divided by the greatest common
/// divisor; the factors must be positive and their product must fit.
pub fn lcm(a: usize, b: usize) -> (r: usize)
    requires
        a >= 1,
        b >= 1,
        a * b <= usize::MAX,
    ensures
        r == (a * b) as int / spec_gcd(a as nat, b as nat) as int,
{
    proof {
        lemma_gcd_pos(a as nat, b as nat);
    }
    (a * b) / gcd(a, b)
}

} // verus!
