//! Exact amounts: non-negative fractions kept in lowest terms.

use vstd::prelude::*;
use vstd::arithmetic::div_mod::*;
use vstd::arithmetic::mul::*;
use crate::arith::{gcd, gcd_u128, lemma_gcd_divides, lemma_divides_quotient, lemma_reduced_coprime,
    lemma_lowest_terms_unique};

verus! {

/// The largest numerator and the largest denominator an [`Amount`] can hold.
/// With both parts below 2^63 the cross sum of two amounts fits in 128 bits.
pub const PART_MAX: u64 = 0x7fff_ffff_ffff_ffff;

/// A non-negative fraction `num / den` over the natural numbers: the
/// mathematical value of an [`Amount`].
pub struct Ratio {
    pub num: nat,
    pub den: nat,
}

impl Ratio {
    /// The fraction `n / d` brought to lowest terms.
    pub open spec fn reduced(n: nat, d: nat) -> Ratio {
        Ratio { num: n / gcd(n, d), den: d / gcd(n, d) }
    }

    /// A whole number.
    pub open spec fn whole(n: nat) -> Ratio {
        Ratio { num: n, den: 1 }
    }

    /// The denominator is positive and shares no factor with the numerator.
    pub open spec fn wf(self) -> bool {
        self.den > 0 && gcd(self.num, self.den) == 1
    }

    /// Both parts are small enough to be stored.
    pub open spec fn fits(self) -> bool {
        self.num <= PART_MAX && self.den <= PART_MAX
    }

    /// Both fractions denote the same rational number.
    pub open spec fn same_value(self, other: Ratio) -> bool {
        self.num * other.den == other.num * self.den
    }

    /// The sum, in lowest terms.
    pub open spec fn plus(self, other: Ratio) -> Ratio {
        Ratio::reduced(self.num * other.den + other.num * self.den, self.den * other.den)
    }

    /// The product, in lowest terms.
    pub open spec fn times(self, other: Ratio) -> Ratio {
        Ratio::reduced(self.num * other.num, self.den * other.den)
    }

    /// The quotient, in lowest terms. Meaningful where `other` is not zero.
    pub open spec fn over(self, other: Ratio) -> Ratio {
        Ratio::reduced(self.num * other.den, self.den * other.num)
    }
}

/// Bringing a fraction to lowest terms keeps its value and yields a
/// well-formed fraction.
pub proof fn lemma_reduced(n: nat, d: nat)
    requires
        d > 0,
    ensures
        Ratio::reduced(n, d).wf(),
        Ratio::reduced(n, d).same_value(Ratio { num: n, den: d }),
        Ratio::reduced(n, d).num <= n,
        Ratio::reduced(n, d).den <= d,
{
    lemma_gcd_divides(n, d);
    lemma_reduced_coprime(n, d);
    let g = gcd(n, d);
    lemma_divides_quotient(g, n);
    lemma_divides_quotient(g, d);
    let rn = n / g;
    let rd = d / g;
    assert(rd > 0) by (nonlinear_arith)
        requires
            d == g * rd,
            d > 0,
    ;
    assert(rn * d == n * rd) by (nonlinear_arith)
        requires
            n == g * rn,
            d == g * rd,
    ;
    assert(rn <= n && rd <= d) by (nonlinear_arith)
        requires
            n == g * rn,
            d == g * rd,
            g > 0,
    ;
}

/// A well-formed fraction is its own lowest-terms form.
pub proof fn lemma_reduced_wf(r: Ratio)
    requires
        r.wf(),
    ensures
        Ratio::reduced(r.num, r.den) == r,
{
    lemma_div_basics(r.num as int);
    lemma_div_basics(r.den as int);
}

/// Two well-formed fractions of the same value are the same fraction.
pub proof fn lemma_same_value_equal(a: Ratio, b: Ratio)
    requires
        a.wf(),
        b.wf(),
        a.same_value(b),
    ensures
        a == b,
{
    lemma_lowest_terms_unique(a.num, a.den, b.num, b.den);
}

/// An exact non-negative amount, stored as a fraction in lowest terms whose
/// numerator and denominator are at most [`PART_MAX`].
#[derive(Clone, Copy, Debug, PartialEq, Eq, Structural)]
pub struct Amount {
    num: u64,
    den: u64,
}

impl View for Amount {
    type V = Ratio;

    closed spec fn view(&self) -> Ratio {
        Ratio { num: self.num as nat, den: self.den as nat }
    }
}

impl Amount {
    /// What holds of every amount a program can hold.
    #[verifier::type_invariant]
    pub closed spec fn inv(self) -> bool {
        &&& 0 < self.den <= PART_MAX
        &&& self.num <= PART_MAX
        &&& gcd(self.num as nat, self.den as nat) == 1
    }

    /// An amount that meets the type's invariant is in lowest terms and fits.
    pub proof fn lemma_inv(self)
        requires
            self.inv(),
        ensures
            self@.wf(),
            self@.fits(),
    {
    }

    /// Amounts with the same view are the same amount.
    pub proof fn law_equal_views_equal_amounts(a: Amount, b: Amount)
        ensures
            a@ == b@ <==> a == b,
    {
    }

    /// The amount `n / d` in lowest terms, for `d` positive; `None` where
    /// that form does not fit.
    fn from_parts(n: u128, d: u128) -> (r: Option<Amount>)
        requires
            d > 0,
        ensures
            match r {
                Some(a) => a@ == Ratio::reduced(n as nat, d as nat) && a@.wf() && a@.fits(),
                None => !Ratio::reduced(n as nat, d as nat).fits(),
            },
    {
        let g: u128 = gcd_u128(n, d);
        proof {
            lemma_gcd_divides(n as nat, d as nat);
            lemma_reduced(n as nat, d as nat);
        }
        let rn: u128 = n / g;
        let rd: u128 = d / g;
        if rn <= PART_MAX as u128 && rd <= PART_MAX as u128 {
            Some(Amount { num: rn as u64, den: rd as u64 })
        } else {
            None
        }
    }

    /// The amount `num / den`. `None` where `den` is zero or the fraction in
    /// lowest terms has a part above [`PART_MAX`].
    pub fn new(num: u64, den: u64) -> (r: Option<Amount>)
        ensures
            r is Some <==> den != 0 && Ratio::reduced(num as nat, den as nat).fits(),
            r matches Some(a) ==> a@ == Ratio::reduced(num as nat, den as nat) && a@.wf(),
    {
        if den == 0 {
            None
        } else {
            Amount::from_parts(num as u128, den as u128)
        }
    }

    /// The whole number `n`.
    pub fn from_integer(n: u32) -> (a: Amount)
        ensures
            a@ == Ratio::whole(n as nat),
            a@.wf(),
    {
        proof {
            assert(gcd(n as nat, 1) == 1) by {
                assert(gcd(1, (n as nat) % 1) == 1) by {
                    lemma_mod_bound(n as int, 1);
                    assert(gcd(1, 0) == 1);
                }
            }
        }
        Amount { num: n as u64, den: 1 }
    }

    /// The numerator of the lowest-terms form.
    pub fn numerator(&self) -> (n: u64)
        ensures
            n == self@.num,
    {
        self.num
    }

    /// The denominator of the lowest-terms form.
    pub fn denominator(&self) -> (d: u64)
        ensures
            d == self@.den,
            d > 0,
    {
        proof {
            use_type_invariant(self);
        }
        self.den
    }

    /// Whether the amount is zero.
    pub fn is_zero(&self) -> (z: bool)
        ensures
            z == (self@.num == 0),
    {
        self.num == 0
    }

    /// The exact sum, or `None` where it does not fit.
    pub fn checked_add(&self, other: &Amount) -> (r: Option<Amount>)
        ensures
            r is Some <==> self@.plus(other@).fits(),
            r matches Some(s) ==> s@ == self@.plus(other@) && s@.wf(),
    {
        proof {
            use_type_invariant(self);
            use_type_invariant(other);
            lemma_part_products(self.num, other.den);
            lemma_part_products(other.num, self.den);
            lemma_part_products(self.den, other.den);
        }
        let n: u128 = (self.num as u128) * (other.den as u128) + (other.num as u128) * (
        self.den as u128);
        let d: u128 = (self.den as u128) * (other.den as u128);
        Amount::from_parts(n, d)
    }

    /// The exact product, or `None` where it does not fit.
    pub fn checked_mul(&self, other: &Amount) -> (r: Option<Amount>)
        ensures
            r is Some <==> self@.times(other@).fits(),
            r matches Some(s) ==> s@ == self@.times(other@) && s@.wf(),
    {
        proof {
            use_type_invariant(self);
            use_type_invariant(other);
            lemma_part_products(self.num, other.num);
            lemma_part_products(self.den, other.den);
        }
        let n: u128 = (self.num as u128) * (other.num as u128);
        let d: u128 = (self.den as u128) * (other.den as u128);
        Amount::from_parts(n, d)
    }

    /// The exact quotient, or `None` where `other` is zero or the quotient
    /// does not fit.
    pub fn checked_div(&self, other: &Amount) -> (r: Option<Amount>)
        ensures
            r is Some <==> other@.num != 0 && self@.over(other@).fits(),
            r matches Some(s) ==> s@ == self@.over(other@) && s@.wf(),
    {
        if other.num == 0 {
            return None;
        }
        proof {
            use_type_invariant(self);
            use_type_invariant(other);
            lemma_part_products(self.num, other.den);
            lemma_part_products(self.den, other.num);
        }
        let n: u128 = (self.num as u128) * (other.den as u128);
        let d: u128 = (self.den as u128) * (other.num as u128);
        Amount::from_parts(n, d)
    }
}

/// The product of two parts stays far below 2^128, and is positive where
/// both are.
proof fn lemma_part_products(x: u64, y: u64)
    requires
        x <= PART_MAX,
        y <= PART_MAX,
    ensures
        x * y <= 0x3fff_ffff_ffff_ffff_0000_0000_0000_0001,
        x > 0 && y > 0 ==> x * y > 0,
{
    assert(x * y <= 0x7fff_ffff_ffff_ffff * 0x7fff_ffff_ffff_ffff) by (nonlinear_arith)
        requires
            0 <= x <= 0x7fff_ffff_ffff_ffff,
            0 <= y <= 0x7fff_ffff_ffff_ffff,
    ;
    assert(x > 0 && y > 0 ==> x * y > 0) by (nonlinear_arith);
}

} // verus!
