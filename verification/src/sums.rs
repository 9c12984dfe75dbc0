//! Sums of fractions over a sequence, and what leaves them unchanged.

use vstd::prelude::*;
use crate::amount::Ratio;
use crate::algebra::{zero, lemma_plus, law_plus_commutes, law_plus_associates, law_plus_zero};

verus! {

/// The sum of `f` over the items of `s`.
pub open spec fn sum_by<A>(s: Seq<A>, f: spec_fn(A) -> Ratio) -> Ratio
    decreases s.len(),
{
    if s.len() == 0 {
        zero()
    } else {
        sum_by(s.drop_last(), f).plus(f(s.last()))
    }
}

/// Every term of the sum is a fraction in lowest terms.
pub open spec fn terms_wf<A>(s: Seq<A>, f: spec_fn(A) -> Ratio) -> bool {
    forall|i: int| 0 <= i < s.len() ==> (#[trigger] f(s[i])).wf()
}

/// Zero is in lowest terms.
pub proof fn lemma_zero_wf()
    ensures
        zero().wf(),
{
    assert(crate::arith::gcd(0, 1) == 1) by {
        assert(crate::arith::gcd(1, 0) == 1);
        assert(0nat % 1 == 0);
    }
}

/// A sum of fractions in lowest terms is in lowest terms.
pub proof fn lemma_sum_wf<A>(s: Seq<A>, f: spec_fn(A) -> Ratio)
    requires
        terms_wf(s, f),
    ensures
        sum_by(s, f).wf(),
    decreases s.len(),
{
    lemma_zero_wf();
    if s.len() > 0 {
        assert forall|i: int| 0 <= i < s.drop_last().len() implies (#[trigger] f(
            s.drop_last()[i],
        )).wf() by {
            assert(s.drop_last()[i] == s[i]);
        }
        lemma_sum_wf(s.drop_last(), f);
        assert(f(s[s.len() - 1]).wf());
        lemma_plus(sum_by(s.drop_last(), f), f(s.last()));
    }
}

/// Two terms added to a sum can change places.
pub proof fn lemma_plus_swap(a: Ratio, x: Ratio, y: Ratio)
    requires
        a.den > 0,
        x.den > 0,
        y.den > 0,
    ensures
        a.plus(x).plus(y) == a.plus(y).plus(x),
{
    law_plus_associates(a, x, y);
    law_plus_associates(a, y, x);
    law_plus_commutes(x, y);
}

/// The sum without one item, plus the term of that item, is the sum.
pub proof fn lemma_sum_remove<A>(s: Seq<A>, f: spec_fn(A) -> Ratio, i: int)
    requires
        terms_wf(s, f),
        0 <= i < s.len(),
    ensures
        sum_by(s, f) == sum_by(s.remove(i), f).plus(f(s[i])),
        terms_wf(s.remove(i), f),
    decreases s.len(),
{
    assert forall|k: int| 0 <= k < s.remove(i).len() implies (#[trigger] f(s.remove(i)[k])).wf() by {
        if k < i {
            assert(s.remove(i)[k] == s[k]);
        } else {
            assert(s.remove(i)[k] == s[k + 1]);
        }
    }
    if i == s.len() - 1 {
        assert(s.remove(i) =~= s.drop_last());
    } else {
        let rest = s.drop_last();
        assert forall|k: int| 0 <= k < rest.len() implies (#[trigger] f(rest[k])).wf() by {
            assert(rest[k] == s[k]);
        }
        lemma_sum_remove(rest, f, i);
        assert(s.remove(i).drop_last() =~= rest.remove(i));
        assert(s.remove(i).last() == s.last());
        assert(rest[i] == s[i]);
        lemma_sum_wf(rest.remove(i), f);
        assert(f(s[i]).wf());
        assert(f(s[s.len() - 1]).wf());
        lemma_plus_swap(sum_by(rest.remove(i), f), f(s[i]), f(s.last()));
    }
}

/// The sum is the first term plus the sum of the rest.
pub proof fn lemma_sum_first<A>(s: Seq<A>, f: spec_fn(A) -> Ratio)
    requires
        terms_wf(s, f),
        s.len() > 0,
    ensures
        sum_by(s, f) == f(s[0]).plus(sum_by(s.drop_first(), f)),
        terms_wf(s.drop_first(), f),
{
    lemma_sum_remove(s, f, 0);
    assert(s.remove(0) =~= s.drop_first());
    law_plus_commutes(f(s[0]), sum_by(s.drop_first(), f));
}

/// Where one item is replaced by one whose term is larger by `d`, the sum
/// is larger by `d`.
pub proof fn lemma_sum_update<A>(s: Seq<A>, f: spec_fn(A) -> Ratio, i: int, x: A, d: Ratio)
    requires
        terms_wf(s, f),
        0 <= i < s.len(),
        d.wf(),
        f(x) == f(s[i]).plus(d),
    ensures
        sum_by(s.update(i, x), f) == sum_by(s, f).plus(d),
        terms_wf(s.update(i, x), f),
    decreases s.len(),
{
    let t = s.update(i, x);
    assert(f(s[i]).wf());
    lemma_plus(f(s[i]), d);
    assert forall|k: int| 0 <= k < t.len() implies (#[trigger] f(t[k])).wf() by {
        if k != i {
            assert(t[k] == s[k]);
        }
    }
    let rest = s.drop_last();
    assert forall|k: int| 0 <= k < rest.len() implies (#[trigger] f(rest[k])).wf() by {
        assert(rest[k] == s[k]);
    }
    lemma_sum_wf(rest, f);
    if i == s.len() - 1 {
        assert(t.drop_last() =~= rest);
        law_plus_associates(sum_by(rest, f), f(s[i]), d);
    } else {
        lemma_sum_update(rest, f, i, x, d);
        assert(t.drop_last() =~= rest.update(i, x));
        assert(t.last() == s.last());
        assert(f(s[s.len() - 1]).wf());
        lemma_plus_swap(sum_by(rest, f), d, f(s.last()));
    }
}

/// The sum over a sequence followed by one more item.
pub proof fn lemma_sum_push<A>(s: Seq<A>, f: spec_fn(A) -> Ratio, x: A)
    ensures
        sum_by(s.push(x), f) == sum_by(s, f).plus(f(x)),
{
    assert(s.push(x).drop_last() =~= s);
}

/// The sum does not depend on the order of the items: two sequences that
/// hold the same items the same number of times have the same sum.
pub proof fn lemma_sum_permutation<A>(s1: Seq<A>, s2: Seq<A>, f: spec_fn(A) -> Ratio)
    requires
        s1.to_multiset() == s2.to_multiset(),
        terms_wf(s1, f),
        terms_wf(s2, f),
    ensures
        sum_by(s1, f) == sum_by(s2, f),
    decreases s1.len(),
{
    s1.to_multiset_ensures();
    s2.to_multiset_ensures();
    if s1.len() > 0 {
        let x = s1.last();
        let rest = s1.drop_last();
        rest.to_multiset_ensures();
        assert(rest.push(x) =~= s1);
        assert(s1.to_multiset() =~= rest.to_multiset().insert(x));
        assert(s2.to_multiset().count(x) > 0);
        assert(s2.contains(x));
        let j = choose|j: int| 0 <= j < s2.len() && s2[j] == x;
        lemma_sum_remove(s2, f, j);
        assert(s2.remove(j).to_multiset() =~= rest.to_multiset());
        assert forall|k: int| 0 <= k < rest.len() implies (#[trigger] f(rest[k])).wf() by {
            assert(rest[k] == s1[k]);
        }
        lemma_sum_permutation(rest, s2.remove(j), f);
    } else {
        assert(s2.len() == 0);
    }
}

/// A sum of zeros is zero.
pub proof fn lemma_sum_of_zeros<A>(s: Seq<A>, f: spec_fn(A) -> Ratio)
    requires
        forall|i: int| 0 <= i < s.len() ==> #[trigger] f(s[i]) == zero(),
    ensures
        sum_by(s, f) == zero(),
    decreases s.len(),
{
    if s.len() > 0 {
        assert forall|i: int| 0 <= i < s.drop_last().len() implies #[trigger] f(s.drop_last()[i])
            == zero() by {
            assert(s.drop_last()[i] == s[i]);
        }
        lemma_sum_of_zeros(s.drop_last(), f);
        assert(f(s[s.len() - 1]) == zero());
        lemma_zero_wf();
        law_plus_zero(zero());
    }
}

} // verus!
