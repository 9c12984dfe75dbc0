//! The aisle mapping: which category of the store an ingredient belongs to.

use vstd::prelude::*;
use crate::text::{lowercase_of, lowercase, is_word_prefix, starts_with_word};
use crate::seqs::{first_where, lemma_first_where_is, lemma_first_where_none};

verus! {

/// One line of the mapping: ingredients whose name starts with the word or
/// words `pattern` belong to `category`.
#[derive(Clone, Debug, PartialEq, Eq)]
pub struct AisleRule {
    pub pattern: String,
    pub category: String,
}

/// The mathematical value of an [`AisleRule`].
pub struct AisleRuleView {
    pub pattern: Seq<char>,
    pub category: Seq<char>,
}

impl View for AisleRule {
    type V = AisleRuleView;

    open spec fn view(&self) -> AisleRuleView {
        AisleRuleView { pattern: self.pattern@, category: self.category@ }
    }
}

impl DeepView for AisleRule {
    type V = AisleRuleView;

    open spec fn deep_view(&self) -> AisleRuleView {
        self@
    }
}

/// The rules of the mapping, in the order of the file they come from.
#[derive(Clone, Debug, PartialEq, Eq)]
pub struct AisleMapping {
    pub rules: Vec<AisleRule>,
}

impl View for AisleMapping {
    type V = Seq<AisleRuleView>;

    open spec fn view(&self) -> Seq<AisleRuleView> {
        self.rules.deep_view()
    }
}

/// Whether a pattern matches an ingredient name: letter case apart, the
/// name is the pattern or starts with it at a word boundary, that is with a
/// space after the pattern.
pub open spec fn pattern_matches(pattern: Seq<char>, name: Seq<char>) -> bool {
    is_word_prefix(lowercase_of(pattern), lowercase_of(name))
}

/// The test "matches `name`" on a rule.
pub open spec fn matching(name: Seq<char>) -> spec_fn(AisleRuleView) -> bool {
    |r: AisleRuleView| pattern_matches(r.pattern, name)
}

/// The category of the first rule that matches `name`: of several rules
/// that match, the one that stands first counts, whatever their lengths.
pub open spec fn categorize_spec(rules: Seq<AisleRuleView>, name: Seq<char>) -> Option<Seq<char>> {
    match first_where(rules, matching(name)) {
        Some(i) => Some(rules[i].category),
        None => None,
    }
}

impl AisleMapping {
    /// A mapping without rules.
    pub fn new() -> (m: AisleMapping)
        ensures
            m@ == Seq::<AisleRuleView>::empty(),
    {
        let m = AisleMapping { rules: Vec::new() };
        assert(m@ =~= Seq::<AisleRuleView>::empty());
        m
    }

    /// Adds a rule at the end of the mapping.
    pub fn add_rule(&mut self, pattern: &str, category: &str)
        ensures
            final(self)@ == old(self)@.push(
                AisleRuleView { pattern: pattern@, category: category@ },
            ),
    {
        let ghost before = self@;
        self.rules.push(AisleRule { pattern: pattern.to_owned(), category: category.to_owned() });
        assert(self@ =~= before.push(AisleRuleView { pattern: pattern@, category: category@ }));
    }

    /// The number of rules.
    pub fn len(&self) -> (n: usize)
        ensures
            n == self@.len(),
    {
        self.rules.len()
    }

    /// The category of the ingredient `name`: that of the first rule whose
    /// pattern matches the name, or `None` where no rule does.
    pub fn categorize(&self, name: &str) -> (r: Option<String>)
        ensures
            match (r, categorize_spec(self@, name@)) {
                (Some(c), Some(d)) => c@ == d,
                (None, None) => true,
                _ => false,
            },
    {
        let ghost rules = self@;
        let lowered = lowercase(name);
        let mut i: usize = 0;
        while i < self.rules.len()
            invariant
                i <= self.rules.len(),
                rules == self@,
                lowered@ == lowercase_of(name@),
                forall|j: int| 0 <= j < i ==> !matching(name@)(#[trigger] rules[j]),
            decreases self.rules.len() - i,
        {
            proof {
                assert(rules[i as int] == self.rules[i as int]@);
            }
            let pattern = lowercase(self.rules[i].pattern.as_str());
            if starts_with_word(lowered.as_str(), pattern.as_str()) {
                proof {
                    lemma_first_where_is(rules, matching(name@), i as int);
                }
                return Some(self.rules[i].category.clone());
            }
            i += 1;
        }
        proof {
            lemma_first_where_none(rules, matching(name@));
        }
        None
    }
}

} // verus!
