//! The arithmetic of fractions in lowest terms: sums and products are
//! exact, so the usual laws of addition and multiplication hold of them.

use vstd::prelude::*;
use crate::amount::{Ratio, lemma_reduced, lemma_reduced_wf, lemma_same_value_equal};

verus! {

/// The sum of two fractions before it is brought to lowest terms.
pub open spec fn raw_plus(a: Ratio, b: Ratio) -> Ratio {
    Ratio { num: a.num * b.den + b.num * a.den, den: a.den * b.den }
}

/// The product of two fractions before it is brought to lowest terms.
pub open spec fn raw_times(a: Ratio, b: Ratio) -> Ratio {
    Ratio { num: a.num * b.num, den: a.den * b.den }
}

/// The quotient of two fractions before it is brought to lowest terms.
pub open spec fn raw_over(a: Ratio, b: Ratio) -> Ratio {
    Ratio { num: a.num * b.den, den: a.den * b.num }
}

/// The fraction zero.
pub open spec fn zero() -> Ratio {
    Ratio::whole(0)
}

/// Two fractions of the same value as a third have the same value.
pub proof fn lemma_same_value_transitive(a: Ratio, b: Ratio, c: Ratio)
    requires
        b.den > 0,
        a.same_value(b),
        b.same_value(c),
    ensures
        a.same_value(c),
{
    assert((a.num * c.den) * b.den == (c.num * a.den) * b.den) by (nonlinear_arith)
        requires
            a.num * b.den == b.num * a.den,
            b.num * c.den == c.num * b.den,
    ;
    assert(a.num * c.den == c.num * a.den) by (nonlinear_arith)
        requires
            (a.num * c.den) * b.den == (c.num * a.den) * b.den,
            b.den > 0,
    ;
}

/// The product of two positive numbers is positive.
pub proof fn lemma_product_positive(x: nat, y: nat)
    requires
        x > 0,
        y > 0,
    ensures
        x * y > 0,
{
    assert(x * y > 0) by (nonlinear_arith)
        requires
            x > 0,
            y > 0,
    ;
}

/// The sum is in lowest terms and has the value of the raw sum.
pub proof fn lemma_plus(a: Ratio, b: Ratio)
    requires
        a.den > 0,
        b.den > 0,
    ensures
        a.plus(b).wf(),
        a.plus(b).same_value(raw_plus(a, b)),
        raw_plus(a, b).den > 0,
{
    lemma_product_positive(a.den, b.den);
    lemma_reduced(a.num * b.den + b.num * a.den, a.den * b.den);
}

/// The product is in lowest terms and has the value of the raw product.
pub proof fn lemma_times(a: Ratio, b: Ratio)
    requires
        a.den > 0,
        b.den > 0,
    ensures
        a.times(b).wf(),
        a.times(b).same_value(raw_times(a, b)),
        raw_times(a, b).den > 0,
{
    lemma_product_positive(a.den, b.den);
    lemma_reduced(a.num * b.num, a.den * b.den);
}

/// The quotient by a positive fraction is in lowest terms and has the
/// value of the raw quotient.
pub proof fn lemma_over(a: Ratio, b: Ratio)
    requires
        a.den > 0,
        b.den > 0,
        b.num > 0,
    ensures
        a.over(b).wf(),
        a.over(b).same_value(raw_over(a, b)),
        raw_over(a, b).den > 0,
        a.num > 0 ==> a.over(b).num > 0,
{
    lemma_product_positive(a.den, b.num);
    lemma_reduced(a.num * b.den, a.den * b.num);
    if a.num > 0 {
        lemma_product_positive(a.num, b.den);
        let q = a.over(b);
        if q.num == 0 {
            assert(q.num * (a.den * b.num) == 0) by (nonlinear_arith)
                requires
                    q.num == 0,
            ;
            assert((a.num * b.den) * q.den > 0) by (nonlinear_arith)
                requires
                    a.num * b.den > 0,
                    q.den > 0,
            ;
        }
    }
}

/// Four factors multiply to the same product however they are paired.
proof fn lemma_pairs(a: int, b: int, c: int, d: int)
    ensures
        (a * b) * (c * d) == (a * c) * (b * d),
        (a * b) * (c * d) == (a * d) * (b * c),
        (a * b) * (c * d) == (c * a) * (d * b),
{
    assert((a * b) * (c * d) == (a * c) * (b * d)) by (nonlinear_arith);
    assert((a * b) * (c * d) == (a * d) * (b * c)) by (nonlinear_arith);
    assert((a * b) * (c * d) == (c * a) * (d * b)) by (nonlinear_arith);
}

/// A sum times a number is the sum of the products.
proof fn lemma_spread(x: int, y: int, m: int)
    ensures
        (x + y) * m == x * m + y * m,
{
    assert((x + y) * m == x * m + y * m) by (nonlinear_arith);
}

/// Three factors multiply to the same product in any grouping and order.
proof fn lemma_triples(a: int, b: int, c: int)
    ensures
        (a * b) * c == a * (b * c),
        (a * b) * c == (a * c) * b,
        a * (b * c) == (c * b) * a,
{
    assert((a * b) * c == a * (b * c)) by (nonlinear_arith);
    assert((a * b) * c == (a * c) * b) by (nonlinear_arith);
    assert(a * (b * c) == (c * b) * a) by (nonlinear_arith);
}

/// Raw sums of fractions of the same values have the same value.
pub proof fn lemma_raw_plus_congruent(a: Ratio, a2: Ratio, b: Ratio, b2: Ratio)
    requires
        a.same_value(a2),
        b.same_value(b2),
    ensures
        raw_plus(a, b).same_value(raw_plus(a2, b2)),
{
    let (p, q, pp, qq) = (a.num as int, a.den as int, a2.num as int, a2.den as int);
    let (u, v, uu, vv) = (b.num as int, b.den as int, b2.num as int, b2.den as int);
    lemma_spread(p * v, u * q, qq * vv);
    lemma_pairs(p, v, qq, vv);
    lemma_pairs(u, q, qq, vv);
    lemma_spread(pp * vv, uu * qq, q * v);
    lemma_pairs(pp, vv, q, v);
    lemma_pairs(uu, qq, q, v);
    assert((p * qq) * (v * vv) == (pp * q) * (vv * v)) by (nonlinear_arith)
        requires
            p * qq == pp * q,
    ;
    assert((u * vv) * (q * qq) == (uu * v) * (qq * q)) by (nonlinear_arith)
        requires
            u * vv == uu * v,
    ;
}

/// Raw products of fractions of the same values have the same value.
pub proof fn lemma_raw_times_congruent(a: Ratio, a2: Ratio, b: Ratio, b2: Ratio)
    requires
        a.same_value(a2),
        b.same_value(b2),
    ensures
        raw_times(a, b).same_value(raw_times(a2, b2)),
{
    let (p, q, pp, qq) = (a.num as int, a.den as int, a2.num as int, a2.den as int);
    let (u, v, uu, vv) = (b.num as int, b.den as int, b2.num as int, b2.den as int);
    lemma_pairs(p, u, qq, vv);
    lemma_pairs(pp, uu, q, v);
    assert((p * qq) * (u * vv) == (pp * q) * (uu * v)) by (nonlinear_arith)
        requires
            p * qq == pp * q,
            u * vv == uu * v,
    ;
}

/// Addition does not depend on the order of its operands.
pub proof fn law_plus_commutes(a: Ratio, b: Ratio)
    ensures
        a.plus(b) == b.plus(a),
{
    assert(a.num * b.den + b.num * a.den == b.num * a.den + a.num * b.den);
    assert(a.den * b.den == b.den * a.den) by (nonlinear_arith);
}

/// Adding zero changes nothing.
pub proof fn law_plus_zero(a: Ratio)
    requires
        a.wf(),
    ensures
        a.plus(zero()) == a,
        zero().plus(a) == a,
{
    law_plus_commutes(a, zero());
    assert(a.num * 1 + 0 * a.den == a.num) by (nonlinear_arith);
    assert(a.den * 1 == a.den) by (nonlinear_arith);
    lemma_reduced_wf(a);
}

/// Addition does not depend on how its operands are grouped.
pub proof fn law_plus_associates(a: Ratio, b: Ratio, c: Ratio)
    requires
        a.den > 0,
        b.den > 0,
        c.den > 0,
    ensures
        a.plus(b).plus(c) == a.plus(b.plus(c)),
{
    let ab = a.plus(b);
    let bc = b.plus(c);
    lemma_plus(a, b);
    lemma_plus(b, c);
    lemma_plus(ab, c);
    lemma_plus(a, bc);
    let left = raw_plus(raw_plus(a, b), c);
    let right = raw_plus(a, raw_plus(b, c));
    lemma_raw_plus_congruent(ab, raw_plus(a, b), c, c);
    lemma_raw_plus_congruent(a, a, bc, raw_plus(b, c));
    lemma_product_positive(a.den * b.den, c.den);
    lemma_product_positive(a.den, b.den * c.den);
    lemma_product_positive(ab.den, c.den);
    lemma_product_positive(a.den, bc.den);
    assert(left == right) by {
        let (p, q) = (a.num as int, a.den as int);
        let (u, v) = (b.num as int, b.den as int);
        let (x, y) = (c.num as int, c.den as int);
        lemma_spread(p * v, u * q, y);
        lemma_spread(u * y, x * v, q);
        lemma_triples(p, v, y);
        lemma_triples(u, q, y);
        lemma_triples(x, q, v);
        lemma_triples(q, v, y);
    }
    lemma_same_value_transitive(ab.plus(c), raw_plus(ab, c), left);
    lemma_same_value_transitive(ab.plus(c), left, right);
    lemma_same_value_transitive(a.plus(bc), raw_plus(a, bc), right);
    assert(right.same_value(a.plus(bc)));
    lemma_same_value_transitive(ab.plus(c), right, a.plus(bc));
    lemma_same_value_equal(ab.plus(c), a.plus(bc));
}

/// Multiplication distributes over addition.
pub proof fn law_times_distributes(a: Ratio, b: Ratio, r: Ratio)
    requires
        a.den > 0,
        b.den > 0,
        r.den > 0,
    ensures
        a.plus(b).times(r) == a.times(r).plus(b.times(r)),
{
    let ab = a.plus(b);
    let ar = a.times(r);
    let br = b.times(r);
    lemma_plus(a, b);
    lemma_times(a, r);
    lemma_times(b, r);
    lemma_times(ab, r);
    lemma_plus(ar, br);
    let left = raw_times(raw_plus(a, b), r);
    let right = raw_plus(raw_times(a, r), raw_times(b, r));
    lemma_raw_times_congruent(ab, raw_plus(a, b), r, r);
    lemma_raw_plus_congruent(ar, raw_times(a, r), br, raw_times(b, r));
    lemma_product_positive(a.den * b.den, r.den);
    lemma_product_positive(a.den * r.den, b.den * r.den);
    lemma_product_positive(ab.den, r.den);
    lemma_product_positive(ar.den, br.den);
    assert(left.same_value(right)) by {
        let (p, q) = (a.num as int, a.den as int);
        let (u, v) = (b.num as int, b.den as int);
        let (x, y) = (r.num as int, r.den as int);
        let n = (p * v + u * q) * x;
        let k = (q * v) * y;
        lemma_triples(p * v + u * q, x, y);
        lemma_spread(p * v, u * q, x * y);
        lemma_pairs(p, v, x, y);
        lemma_pairs(u, q, x, y);
        assert(right.num == n * y);
        lemma_pairs(q, y, v, y);
        lemma_triples(q * v, y, y);
        assert(right.den == k * y);
        lemma_triples(n, k, y);
        lemma_triples(n, y, k);
    }
    lemma_same_value_transitive(ab.times(r), raw_times(ab, r), left);
    lemma_same_value_transitive(ab.times(r), left, right);
    lemma_same_value_transitive(ar.plus(br), raw_plus(ar, br), right);
    assert(right.same_value(ar.plus(br)));
    lemma_same_value_transitive(ab.times(r), right, ar.plus(br));
    lemma_same_value_equal(ab.times(r), ar.plus(br));
}

/// Converting through a ratio and back: an amount times `from / to`, times
/// `to`, is the amount times `from`.
pub proof fn law_conversion_cancels(b: Ratio, from: Ratio, to: Ratio)
    requires
        b.den > 0,
        from.den > 0,
        to.den > 0,
        to.num > 0,
    ensures
        b.times(from.over(to)).times(to) == b.times(from),
{
    let f = from.over(to);
    let c = b.times(f);
    lemma_over(from, to);
    lemma_times(b, f);
    lemma_times(c, to);
    lemma_times(b, from);
    let left = raw_times(raw_times(b, raw_over(from, to)), to);
    let right = raw_times(b, from);
    lemma_raw_times_congruent(b, b, f, raw_over(from, to));
    lemma_same_value_transitive(c, raw_times(b, f), raw_times(b, raw_over(from, to)));
    lemma_raw_times_congruent(c, raw_times(b, raw_over(from, to)), to, to);
    lemma_product_positive(from.den, to.num);
    lemma_product_positive(b.den, from.den * to.num);
    lemma_product_positive(b.den * (from.den * to.num), to.den);
    lemma_product_positive(c.den, to.den);
    lemma_product_positive(b.den, from.den);
    let (p, q) = (b.num as int, b.den as int);
    let (u, v) = (from.num as int, from.den as int);
    let (x, y) = (to.num as int, to.den as int);
    assert(((p * (u * y)) * x) * (q * v) == (p * u) * ((q * (v * x)) * y)) by (nonlinear_arith);
    assert(left.same_value(right));
    lemma_same_value_transitive(c.times(to), raw_times(c, to), left);
    lemma_same_value_transitive(c.times(to), left, right);
    assert(right.same_value(b.times(from)));
    lemma_same_value_transitive(c.times(to), right, b.times(from));
    lemma_same_value_equal(c.times(to), b.times(from));
}

} // verus!
