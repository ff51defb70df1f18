//! Greatest common divisors, and the divisibility facts about them that the
//! algebra of dimensions rests on.

use vstd::arithmetic::div_mod::{
    lemma_div_multiples_vanish, lemma_fundamental_div_mod, lemma_mod_multiples_basic,
    lemma_mod_self_0, lemma_small_mod, lemma_truncate_middle,
};
use vstd::prelude::*;

verus! {

/// `|x|`.
pub open spec fn magnitude(x: int) -> nat {
    if x < 0 {
        (-x) as nat
    } else {
        x as nat
    }
}

/// The greatest common divisor of `a` and `b` (which is `a` when `b` is 0),
/// by Euclid's recursion.
pub open spec fn gcd(a: nat, b: nat) -> nat
    decreases b,
{
    if b == 0 {
        a
    } else {
        gcd(b, a % b)
    }
}

/// The positive number `k` divides `x`.
pub open spec fn divides(k: int, x: int) -> bool {
    k > 0 && x % k == 0
}

/// A multiple of `k` is divisible by `k`.
pub proof fn lemma_multiple_divides(k: int, q: int)
    requires
        k > 0,
    ensures
        divides(k, k * q),
        (k * q) / k == q,
{
    lemma_mod_multiples_basic(q, k);
    lemma_div_multiples_vanish(q, k);
    assert(q * k == k * q) by (nonlinear_arith);
}

/// What `k` divides is `k` times the quotient.
pub proof fn lemma_divides_quotient(k: int, x: int)
    requires
        divides(k, x),
    ensures
        x == k * (x / k),
{
    lemma_fundamental_div_mod(x, k);
}

/// What divides two numbers divides their sum and their difference.
pub proof fn lemma_divides_sum(k: int, x: int, y: int)
    requires
        divides(k, x),
        divides(k, y),
    ensures
        divides(k, x + y),
        divides(k, x - y),
{
    lemma_divides_quotient(k, x);
    lemma_divides_quotient(k, y);
    let p = x / k;
    let q = y / k;
    assert(x + y == k * (p + q)) by (nonlinear_arith)
        requires
            x == k * p,
            y == k * q,
    ;
    assert(x - y == k * (p - q)) by (nonlinear_arith)
        requires
            x == k * p,
            y == k * q,
    ;
    lemma_multiple_divides(k, p + q);
    lemma_multiple_divides(k, p - q);
}

/// What divides a number divides its multiples.
pub proof fn lemma_divides_product(k: int, x: int, m: int)
    requires
        divides(k, x),
    ensures
        divides(k, x * m),
        divides(k, m * x),
{
    lemma_divides_quotient(k, x);
    let p = x / k;
    assert(x * m == k * (p * m)) by (nonlinear_arith)
        requires
            x == k * p,
    ;
    assert(m * x == x * m) by (nonlinear_arith);
    lemma_multiple_divides(k, p * m);
}

/// Divisibility is transitive.
pub proof fn lemma_divides_transitive(k: int, m: int, x: int)
    requires
        divides(k, m),
        divides(m, x),
    ensures
        divides(k, x),
{
    lemma_divides_quotient(m, x);
    lemma_divides_product(k, m, x / m);
}

/// A positive number that divides a positive number is at most that number.
pub proof fn lemma_divisor_at_most(k: int, x: int)
    requires
        k > 0,
        x > 0,
        divides(k, x),
    ensures
        k <= x,
{
    if k > x {
        lemma_small_mod(x as nat, k as nat);
    }
}

/// Two positive numbers that divide each other are equal.
pub proof fn lemma_divides_antisymmetric(a: int, b: int)
    requires
        a > 0,
        b > 0,
        divides(a, b),
        divides(b, a),
    ensures
        a == b,
{
    lemma_divisor_at_most(a, b);
    lemma_divisor_at_most(b, a);
}

/// The greatest common divisor divides both numbers, and is positive unless
/// both are zero.
pub proof fn lemma_gcd_divides(a: nat, b: nat)
    ensures
        (a > 0 || b > 0) ==> gcd(a, b) > 0,
        a == 0 && b == 0 ==> gcd(a, b) == 0,
        gcd(a, b) > 0 ==> divides(gcd(a, b) as int, a as int) && divides(
            gcd(a, b) as int,
            b as int,
        ),
    decreases b,
{
    if b == 0 {
        if a > 0 {
            lemma_mod_self_0(a as int);
            lemma_multiple_divides(a as int, 0);
            assert((a as int) * 0 == 0);
        }
    } else {
        lemma_gcd_divides(b, a % b);
        let g = gcd(b, a % b) as int;
        lemma_fundamental_div_mod(a as int, b as int);
        lemma_divides_product(g, b as int, (a as int) / (b as int));
        lemma_divides_sum(g, (b as int) * ((a as int) / (b as int)), (a % b) as int);
    }
}

/// Every common divisor divides the greatest common divisor.
pub proof fn lemma_gcd_greatest(a: nat, b: nat, k: int)
    requires
        divides(k, a as int),
        divides(k, b as int),
    ensures
        divides(k, gcd(a, b) as int),
    decreases b,
{
    if b != 0 {
        lemma_fundamental_div_mod(a as int, b as int);
        lemma_divides_product(k, b as int, (a as int) / (b as int));
        lemma_divides_sum(k, a as int, (b as int) * ((a as int) / (b as int)));
        lemma_gcd_greatest(b, a % b, k);
    }
}

/// The greatest common divisor does not depend on the order of its
/// arguments.
pub proof fn lemma_gcd_symmetric(a: nat, b: nat)
    ensures
        gcd(a, b) == gcd(b, a),
{
    lemma_gcd_divides(a, b);
    lemma_gcd_divides(b, a);
    if a > 0 || b > 0 {
        lemma_gcd_greatest(a, b, gcd(b, a) as int);
        lemma_gcd_greatest(b, a, gcd(a, b) as int);
        lemma_divides_antisymmetric(gcd(a, b) as int, gcd(b, a) as int);
    }
}

/// A common positive factor of both arguments is a factor of the greatest
/// common divisor.
pub proof fn lemma_gcd_scales(a: nat, b: nat, m: nat)
    requires
        m > 0,
    ensures
        gcd(m * a, m * b) == m * gcd(a, b),
    decreases b,
{
    if b == 0 {
        assert(m * b == 0) by (nonlinear_arith)
            requires
                b == 0,
        ;
    } else {
        assert(m * b > 0) by (nonlinear_arith)
            requires
                m > 0,
                b > 0,
        ;
        lemma_truncate_middle(a as int, m as int, b as int);
        assert((m * a) % (m * b) == m * (a % b));
        lemma_gcd_scales(b, a % b, m);
    }
}

/// The greatest common divisor of two bytes.
pub fn gcd_u8(m: u8, n: u8) -> (r: u8)
    ensures
        r == gcd(m as nat, n as nat),
    decreases n,
{
    if n == 0 {
        m
    } else {
        gcd_u8(n, m % n)
    }
}

} // verus!
