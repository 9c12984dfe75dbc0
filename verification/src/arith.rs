//! Greatest common divisors, as needed to keep fractions in lowest terms.

use vstd::prelude::*;
use vstd::arithmetic::div_mod::*;
use vstd::arithmetic::mul::*;

verus! {

/// The greatest common divisor of `a` and `b`, by Euclid's recursion.
/// `gcd(0, 0)` is `0`.
pub open spec fn gcd(a: nat, b: nat) -> nat
    decreases b,
{
    if b == 0 {
        a
    } else {
        gcd(b, a % b)
    }
}

/// `d` divides `n`.
pub open spec fn divides(d: nat, n: nat) -> bool {
    d > 0 && n % d == 0
}

/// A multiple of `d` is divisible by `d`.
pub proof fn lemma_multiple_divides(d: nat, k: nat)
    requires
        d > 0,
    ensures
        divides(d, k * d),
        divides(d, d * k),
        (k * d) / d == k,
        (d * k) / d == k,
{
    lemma_mod_multiples_basic(k as int, d as int);
    lemma_div_multiples_vanish(k as int, d as int);
    lemma_mul_is_commutative(k as int, d as int);
}

/// What `d` divides is `d` times its quotient.
pub proof fn lemma_divides_quotient(d: nat, n: nat)
    requires
        divides(d, n),
    ensures
        n == d * (n / d),
        n == (n / d) * d,
{
    lemma_fundamental_div_mod(n as int, d as int);
    lemma_mul_is_commutative(d as int, (n / d) as int);
}

/// A common divisor of two numbers divides their sum of multiples.
pub proof fn lemma_divides_combination(d: nat, x: nat, k: nat, y: nat)
    requires
        divides(d, x),
        divides(d, y),
    ensures
        divides(d, x * k + y),
{
    lemma_divides_quotient(d, x);
    lemma_divides_quotient(d, y);
    let qx = x / d;
    let qy = y / d;
    assert(x * k + y == (qx * k + qy) * d) by (nonlinear_arith)
        requires
            x == qx * d,
            y == qy * d,
    ;
    lemma_multiple_divides(d, qx * k + qy);
}

/// The greatest common divisor of two numbers that are not both zero is
/// positive and divides both.
pub proof fn lemma_gcd_divides(a: nat, b: nat)
    requires
        a > 0 || b > 0,
    ensures
        gcd(a, b) > 0,
        divides(gcd(a, b), a),
        divides(gcd(a, b), b),
    decreases b,
{
    if b == 0 {
        lemma_mod_self_0(a as int);
        lemma_small_mod(0, a);
    } else {
        let r = a % b;
        lemma_mod_bound(a as int, b as int);
        lemma_gcd_divides(b, r);
        let g = gcd(b, r);
        lemma_fundamental_div_mod(a as int, b as int);
        lemma_divides_combination(g, b, a / b, r);
        assert(b * (a / b) + r == a);
    }
}

/// Every common divisor divides the greatest common divisor.
pub proof fn lemma_common_divisor_divides_gcd(c: nat, a: nat, b: nat)
    requires
        divides(c, a),
        divides(c, b),
        a > 0 || b > 0,
    ensures
        divides(c, gcd(a, b)),
    decreases b,
{
    if b != 0 {
        let r = a % b;
        lemma_mod_bound(a as int, b as int);
        lemma_fundamental_div_mod(a as int, b as int);
        lemma_divides_quotient(c, a);
        lemma_divides_quotient(c, b);
        let qa = a / c;
        let qb = b / c;
        let k = a / b;
        assert(qa * c >= (qb * k) * c) by (nonlinear_arith)
            requires
                a == qa * c,
                b == qb * c,
                a == b * k + r,
                r >= 0,
        ;
        assert(qa >= qb * k) by (nonlinear_arith)
            requires
                qa * c >= (qb * k) * c,
                c > 0,
        ;
        assert(r == ((qa - qb * k) as nat) * c) by (nonlinear_arith)
            requires
                a == qa * c,
                b == qb * c,
                a == b * k + r,
                qa >= qb * k,
        ;
        lemma_multiple_divides(c, (qa - qb * k) as nat);
        lemma_common_divisor_divides_gcd(c, b, r);
    }
}

/// Scaling both numbers scales their greatest common divisor.
pub proof fn lemma_gcd_scale(k: nat, a: nat, b: nat)
    requires
        k > 0,
    ensures
        gcd(k * a, k * b) == k * gcd(a, b),
    decreases b,
{
    if b == 0 {
        assert(k * b == 0) by (nonlinear_arith)
            requires
                b == 0,
        ;
    } else {
        assert(k * b > 0) by (nonlinear_arith)
            requires
                k > 0,
                b > 0,
        ;
        lemma_truncate_middle(a as int, k as int, b as int);
        lemma_mod_bound(a as int, b as int);
        assert((k * a) % (k * b) == k * (a % b));
        lemma_gcd_scale(k, b, a % b);
    }
}

/// Dividing two numbers by their greatest common divisor leaves them
/// without a common factor.
pub proof fn lemma_reduced_coprime(a: nat, b: nat)
    requires
        a > 0 || b > 0,
    ensures
        gcd(a / gcd(a, b), b / gcd(a, b)) == 1,
{
    lemma_gcd_divides(a, b);
    let g = gcd(a, b);
    lemma_divides_quotient(g, a);
    lemma_divides_quotient(g, b);
    lemma_gcd_scale(g, a / g, b / g);
    let h = gcd(a / g, b / g);
    assert(h == 1) by (nonlinear_arith)
        requires
            g == g * h,
            g > 0,
    ;
}

/// A number without a common factor with `a` that divides `a * d` divides `d`.
pub proof fn lemma_coprime_divides(a: nat, b: nat, d: nat)
    requires
        gcd(a, b) == 1,
        divides(b, a * d),
    ensures
        divides(b, d),
{
    if d == 0 {
        lemma_small_mod(0, b);
    } else {
        lemma_gcd_scale(d, a, b);
        lemma_mul_is_commutative(a as int, d as int);
        lemma_multiple_divides(b, d);
        assert(d * b > 0) by (nonlinear_arith)
            requires
                d > 0,
                b > 0,
        ;
        lemma_common_divisor_divides_gcd(b, d * a, d * b);
        assert(d * gcd(a, b) == d) by (nonlinear_arith)
            requires
                gcd(a, b) == 1,
        ;
    }
}

/// Two positive numbers that divide each other are equal.
pub proof fn lemma_divides_antisymmetric(b: nat, d: nat)
    requires
        b > 0,
        d > 0,
        divides(b, d),
        divides(d, b),
    ensures
        b == d,
{
    lemma_divides_quotient(b, d);
    lemma_divides_quotient(d, b);
    let p = d / b;
    let q = b / d;
    assert(b == d) by (nonlinear_arith)
        requires
            d == b * p,
            b == d * q,
            b > 0,
            d > 0,
    ;
}

/// A fraction has one form in lowest terms: two such forms of the same
/// value agree in numerator and denominator.
pub proof fn lemma_lowest_terms_unique(a: nat, b: nat, c: nat, d: nat)
    requires
        b > 0,
        d > 0,
        gcd(a, b) == 1,
        gcd(c, d) == 1,
        a * d == c * b,
    ensures
        a == c,
        b == d,
{
    lemma_multiple_divides(b, c);
    lemma_coprime_divides(a, b, d);
    lemma_multiple_divides(d, a);
    lemma_mul_is_commutative(c as int, b as int);
    lemma_mul_is_commutative(a as int, d as int);
    assert(divides(d, c * b));
    lemma_coprime_divides(c, d, b);
    lemma_divides_antisymmetric(b, d);
    assert(a == c) by (nonlinear_arith)
        requires
            a * d == c * b,
            b == d,
            d > 0,
    ;
}

/// Euclid's algorithm on machine integers.
pub fn gcd_u128(a: u128, b: u128) -> (g: u128)
    ensures
        g == gcd(a as nat, b as nat),
{
    let mut x: u128 = a;
    let mut y: u128 = b;
    while y != 0
        invariant
            gcd(x as nat, y as nat) == gcd(a as nat, b as nat),
        decreases y,
    {
        proof {
            lemma_mod_bound(x as int, y as int);
        }
        let r: u128 = x % y;
        x = y;
        y = r;
    }
    x
}

} // verus!
