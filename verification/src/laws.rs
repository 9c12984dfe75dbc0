//! Laws of the engine: what holds of sums, of merging and of the assembled
//! list, for all inputs.

use vstd::prelude::*;
use crate::amount::{Ratio, lemma_reduced};
use crate::units::{UnitInfo, resolve_spec};
use crate::quantity::{QuantityView, MagnitudeView, AddError};
use crate::seqs::{first_where, lemma_first_where, lemma_first_where_is, lemma_first_where_none};
use crate::text::same_name;
use crate::ingredient::{AggregatedView, OccurrenceView, RecipeId, takes, named, find_name,
    merge_quantity_spec, merge_quantities_spec, merge_ingredient_spec, merge_occurrence_spec,
    merge_occurrences_spec, add_source_spec, add_sources_spec, group_recipe_spec};
use crate::aggregate::{merge_grouped_spec, aggregate_from};
use crate::aisle::{AisleRuleView, matching};
use crate::shopping::{CategoryView, uncategorized, label_of, labels_of, named_labels, select,
    assemble_spec};

verus! {

/// The quantity of the number `amount` in `unit`.
pub open spec fn number_in(amount: Ratio, unit: Option<Seq<char>>) -> QuantityView {
    QuantityView { value: MagnitudeView::Number(amount), unit: unit }
}

/// Two numbers in the same unit add up to the sum of their values, in that
/// unit, wherever the sum can be stored.
pub proof fn law_same_unit_adds_values(
    a: QuantityView,
    b: QuantityView,
    unit: Seq<char>,
    table: Seq<UnitInfo>,
)
    requires
        !a.is_unspecified(),
        !b.is_unspecified(),
        a.unit == Some(unit),
        b.unit == Some(unit),
        a.amount().plus(b.amount()).fits(),
    ensures
        a.try_add(b, table) == Ok::<QuantityView, AddError>(
            number_in(a.amount().plus(b.amount()), Some(unit)),
        ),
{
}

/// Two numbers in the same unit whose sum cannot be stored: the addition
/// reports an overflow.
pub proof fn law_same_unit_at_the_limit(
    a: QuantityView,
    b: QuantityView,
    unit: Seq<char>,
    table: Seq<UnitInfo>,
)
    requires
        !a.is_unspecified(),
        !b.is_unspecified(),
        a.unit == Some(unit),
        b.unit == Some(unit),
        !a.amount().plus(b.amount()).fits(),
    ensures
        a.try_add(b, table) == Err::<QuantityView, AddError>(AddError::Overflow),
{
}

/// Two occurrences of one ingredient, numbers in the same unit, group into
/// one entry with one quantity: the sum of the two, in that unit, wherever
/// the sum can be stored. The entry has the name of the first occurrence
/// and the recipes of both as its sources.
pub proof fn law_two_occurrences_make_one_entry(
    a: OccurrenceView,
    b: OccurrenceView,
    unit: Seq<char>,
    table: Seq<UnitInfo>,
)
    requires
        same_name(a.name, b.name),
        !a.quantity.is_unspecified(),
        !b.quantity.is_unspecified(),
        a.quantity.unit == Some(unit),
        b.quantity.unit == Some(unit),
        a.quantity.amount().plus(b.quantity.amount()).fits(),
    ensures
        group_recipe_spec(seq![a, b], table) == Some(
            seq![
                AggregatedView {
                    name: a.name,
                    quantities: seq![
                        number_in(a.quantity.amount().plus(b.quantity.amount()), Some(unit)),
                    ],
                    sources: add_source_spec(seq![a.recipe_ref], b.recipe_ref),
                },
            ],
        ),
{
    reveal_with_fuel(merge_occurrences_spec, 3);
    reveal_with_fuel(merge_quantities_spec, 2);
    reveal_with_fuel(add_sources_spec, 2);
    let occs = seq![a, b];
    let empty = Seq::<AggregatedView>::empty();
    let none = Seq::<QuantityView>::empty();
    assert(occs[0] == a);
    assert(occs.drop_first() =~= seq![b]);
    assert(seq![b][0] == b);
    assert(seq![b].drop_first() =~= Seq::<OccurrenceView>::empty());
    assert(seq![a.quantity][0] == a.quantity);
    assert(seq![b.quantity][0] == b.quantity);
    assert(seq![a.quantity].drop_first() =~= none);
    assert(seq![b.quantity].drop_first() =~= none);
    assert(seq![a.recipe_ref][0] == a.recipe_ref);
    assert(seq![b.recipe_ref][0] == b.recipe_ref);
    assert(seq![a.recipe_ref].drop_first() =~= Seq::<RecipeId>::empty());
    assert(seq![b.recipe_ref].drop_first() =~= Seq::<RecipeId>::empty());
    lemma_first_where_none(empty, named(a.name));
    lemma_first_where_none(none, takes(a.quantity, table));
    assert(none.push(a.quantity) =~= seq![a.quantity]);
    assert(Seq::<RecipeId>::empty().push(a.recipe_ref) =~= seq![a.recipe_ref]);
    let first = AggregatedView {
        name: a.name,
        quantities: seq![a.quantity],
        sources: seq![a.recipe_ref],
    };
    assert(empty.push(first) =~= seq![first]);
    assert(merge_occurrence_spec(empty, a, table) == Some(seq![first]));
    let one = seq![first];
    assert(named(b.name)(one[0]));
    lemma_first_where_is(one, named(b.name), 0);
    assert(takes(b.quantity, table)(seq![a.quantity][0]));
    lemma_first_where_is(seq![a.quantity], takes(b.quantity, table), 0);
    let sum = number_in(a.quantity.amount().plus(b.quantity.amount()), Some(unit));
    assert(seq![a.quantity].update(0, sum) =~= seq![sum]);
    let merged = AggregatedView {
        name: a.name,
        quantities: seq![sum],
        sources: add_source_spec(seq![a.recipe_ref], b.recipe_ref),
    };
    assert(one.update(0, merged) =~= seq![merged]);
}

/// The sum of two fractions is the fraction of their cross sum: it has the
/// value `a + b`, in lowest terms.
pub proof fn law_plus_is_exact(a: Ratio, b: Ratio)
    requires
        a.den > 0,
        b.den > 0,
    ensures
        a.plus(b).wf(),
        a.plus(b).num * (a.den * b.den) == (a.num * b.den + b.num * a.den) * a.plus(b).den,
{
    assert(a.den * b.den > 0) by (nonlinear_arith)
        requires
            a.den > 0,
            b.den > 0,
    ;
    lemma_reduced(a.num * b.den + b.num * a.den, a.den * b.den);
}

/// A fraction added to itself has twice its value.
pub proof fn law_plus_self_is_twice(a: Ratio)
    requires
        a.den > 0,
    ensures
        a.plus(a).num * a.den == 2 * a.num * a.plus(a).den,
{
    law_plus_is_exact(a, a);
    let s = a.plus(a);
    assert(s.num * a.den == 2 * a.num * s.den) by (nonlinear_arith)
        requires
            s.num * (a.den * a.den) == (a.num * a.den + a.num * a.den) * s.den,
            a.den > 0,
    ;
}

/// Numbers whose units the table knows in different dimensions do not add
/// up: the addition reports them incompatible, and merging the second into
/// the groups of the first leaves both standing side by side.
pub proof fn law_dimensions_do_not_mix(a: QuantityView, b: QuantityView, table: Seq<UnitInfo>)
    requires
        !a.is_unspecified(),
        !b.is_unspecified(),
        a.unit is Some,
        b.unit is Some,
        resolve_spec(table, a.unit->0) is Some,
        resolve_spec(table, b.unit->0) is Some,
        resolve_spec(table, a.unit->0)->0.dimension != resolve_spec(table, b.unit->0)->0.dimension,
    ensures
        a.try_add(b, table) == Err::<QuantityView, AddError>(AddError::Incompatible),
        merge_quantity_spec(seq![a], b, table) == Some(seq![a, b]),
{
    let groups = seq![a];
    assert forall|j: int| 0 <= j < groups.len() implies !takes(b, table)(#[trigger] groups[j]) by {}
    lemma_first_where_none(groups, takes(b, table));
    assert(groups.push(b) =~= seq![a, b]);
}

/// Without rules, be it that there is no mapping or that the mapping is
/// empty, every ingredient is uncategorized: the list is the one
/// uncategorized category, holding all ingredients in their order.
pub proof fn law_no_rules_no_categories(items: Seq<AggregatedView>, rules: Option<Seq<AisleRuleView>>)
    requires
        rules is None || rules == Some(Seq::<AisleRuleView>::empty()),
    ensures
        assemble_spec(items, rules) == seq![
            CategoryView { name: uncategorized(), ingredients: items },
        ],
{
    let labels = labels_of(items, rules);
    assert forall|i: int| 0 <= i < labels.len() implies labels[i] == uncategorized() by {
        if rules is Some {
            lemma_first_where_none(rules->0, matching(items[i].name));
        }
    }
    lemma_all_uncategorized(items, labels);
    assert(assemble_spec(items, rules) =~= seq![
        CategoryView { name: uncategorized(), ingredients: items },
    ]);
}

/// Where every label is the uncategorized one, no category is named and
/// the uncategorized one selects every ingredient.
proof fn lemma_all_uncategorized(items: Seq<AggregatedView>, labels: Seq<Seq<char>>)
    requires
        labels.len() == items.len(),
        forall|i: int| 0 <= i < labels.len() ==> labels[i] == uncategorized(),
    ensures
        named_labels(labels) == Seq::<Seq<char>>::empty(),
        select(items, labels, uncategorized()) == items,
    decreases items.len(),
{
    if items.len() > 0 {
        lemma_all_uncategorized(items.drop_last(), labels.drop_last());
        assert(items.drop_last().push(items.last()) =~= items);
    } else {
        assert(items =~= Seq::<AggregatedView>::empty());
    }
}

/// The entries of `before` stand in `after` at the same places under the
/// same names.
pub open spec fn keeps_places(before: Seq<AggregatedView>, after: Seq<AggregatedView>) -> bool {
    &&& before.len() <= after.len()
    &&& forall|i: int| 0 <= i < before.len() ==> (#[trigger] after[i]).name == before[i].name
}

/// Merging an ingredient moves and renames no entry: the list keeps its
/// length where the ingredient is on it, and grows by one entry at the end,
/// under the name given, where it is not.
pub proof fn law_merge_keeps_places(
    list: Seq<AggregatedView>,
    name: Seq<char>,
    qs: Seq<QuantityView>,
    sources: Seq<RecipeId>,
    table: Seq<UnitInfo>,
)
    ensures
        merge_ingredient_spec(list, name, qs, sources, table) matches Some(l) ==> keeps_places(
            list,
            l,
        ) && if find_name(list, name) is Some {
            l.len() == list.len()
        } else {
            l.len() == list.len() + 1 && l.last().name == name
        },
{
    lemma_first_where(list, named(name));
}

/// Merging a grouped recipe moves and renames no entry.
pub proof fn lemma_merge_grouped_keeps_places(
    running: Seq<AggregatedView>,
    grouped: Seq<AggregatedView>,
    table: Seq<UnitInfo>,
)
    ensures
        merge_grouped_spec(running, grouped, table) matches Some(l) ==> keeps_places(running, l),
    decreases grouped.len(),
{
    if grouped.len() > 0 {
        let e = grouped[0];
        law_merge_keeps_places(running, e.name, e.quantities, e.sources, table);
        if let Some(next) = merge_ingredient_spec(running, e.name, e.quantities, e.sources, table) {
            lemma_merge_grouped_keeps_places(next, grouped.drop_first(), table);
        }
    }
}

/// Presentation follows first appearance: aggregating further recipes
/// moves and renames no entry of the list, so an ingredient stands where
/// it was first put and new ingredients follow at the end.
pub proof fn law_aggregation_keeps_places(
    running: Seq<AggregatedView>,
    recipes: Seq<Seq<OccurrenceView>>,
    table: Seq<UnitInfo>,
)
    ensures
        aggregate_from(running, recipes, table) matches Some(l) ==> keeps_places(running, l),
    decreases recipes.len(),
{
    if recipes.len() > 0 {
        if let Some(grouped) = group_recipe_spec(recipes[0], table) {
            lemma_merge_grouped_keeps_places(running, grouped, table);
            if let Some(next) = merge_grouped_spec(running, grouped, table) {
                law_aggregation_keeps_places(next, recipes.drop_first(), table);
            }
        }
    }
}

/// The named categories are told apart, are never the uncategorized one,
/// hold every label but the uncategorized one, and hold labels only.
proof fn lemma_named_labels(labels: Seq<Seq<char>>)
    ensures
        named_labels(labels).no_duplicates(),
        !named_labels(labels).contains(uncategorized()),
        forall|i: int|
            0 <= i < labels.len() && labels[i] != uncategorized() ==> named_labels(labels).contains(
                #[trigger] labels[i],
            ),
        forall|j: int|
            0 <= j < named_labels(labels).len() ==> labels.contains(#[trigger] named_labels(labels)[j]),
    decreases labels.len(),
{
    let names = named_labels(labels);
    if labels.len() > 0 {
        let rest = labels.drop_last();
        let before = named_labels(rest);
        lemma_named_labels(rest);
        assert forall|i: int| 0 <= i < labels.len() && labels[i] != uncategorized() implies names.contains(
            #[trigger] labels[i],
        ) by {
            if i < rest.len() {
                assert(rest[i] == labels[i]);
                let k = choose|k: int| 0 <= k < before.len() && before[k] == labels[i];
                assert(names[k] == labels[i]);
            } else if before.contains(labels[i]) {
            } else {
                assert(names[before.len() as int] == labels[i]);
            }
        }
        assert forall|j: int| 0 <= j < names.len() implies labels.contains(#[trigger] names[j]) by {
            if j < before.len() {
                assert(names[j] == before[j]);
                let k = choose|k: int| 0 <= k < rest.len() && rest[k] == before[j];
                assert(labels[k] == names[j]);
            } else {
                assert(labels[labels.len() - 1] == names[j]);
            }
        }
        if names.contains(uncategorized()) {
            let k = choose|k: int| 0 <= k < names.len() && names[k] == uncategorized();
            if k < before.len() {
                assert(before[k] == uncategorized());
            }
        }
    }
}

/// An ingredient is among those selected for its label.
proof fn lemma_select_holds(items: Seq<AggregatedView>, labels: Seq<Seq<char>>, i: int)
    requires
        labels.len() == items.len(),
        0 <= i < items.len(),
    ensures
        select(items, labels, labels[i]).contains(items[i]),
    decreases items.len(),
{
    let chosen = select(items, labels, labels[i]);
    if i == items.len() - 1 {
        assert(chosen[chosen.len() - 1] == items[i]);
    } else {
        lemma_select_holds(items.drop_last(), labels.drop_last(), i);
        let before = select(items.drop_last(), labels.drop_last(), labels[i]);
        let k = choose|k: int| 0 <= k < before.len() && before[k] == items[i];
        assert(chosen[k] == items[i]);
    }
}

/// The list ends with the uncategorized category, and no category before
/// it has that name, is empty, or repeats the name of another.
pub proof fn law_list_ends_uncategorized(
    items: Seq<AggregatedView>,
    rules: Option<Seq<AisleRuleView>>,
)
    ensures
        assemble_spec(items, rules).len() >= 1,
        assemble_spec(items, rules).last().name == uncategorized(),
        forall|j: int|
            0 <= j < assemble_spec(items, rules).len() - 1 ==> (#[trigger] assemble_spec(
                items,
                rules,
            )[j]).name != uncategorized() && assemble_spec(items, rules)[j].ingredients.len() > 0,
        forall|j: int, k: int|
            0 <= j < k < assemble_spec(items, rules).len() ==> (#[trigger] assemble_spec(
                items,
                rules,
            )[j]).name != (#[trigger] assemble_spec(items, rules)[k]).name,
{
    let labels = labels_of(items, rules);
    let names = named_labels(labels);
    let list = assemble_spec(items, rules);
    lemma_named_labels(labels);
    assert forall|j: int| 0 <= j < list.len() - 1 implies (#[trigger] list[j]).name
        != uncategorized() && list[j].ingredients.len() > 0 by {
        assert(names.contains(names[j]));
        let i = choose|i: int| 0 <= i < labels.len() && labels[i] == names[j];
        lemma_select_holds(items, labels, i);
    }
    assert forall|j: int, k: int| 0 <= j < k < list.len() implies (#[trigger] list[j]).name != (
    #[trigger] list[k]).name by {
        assert(names.contains(names[j]));
    }
}

/// Every ingredient is on the list, in the category of its label.
pub proof fn law_every_ingredient_is_placed(
    items: Seq<AggregatedView>,
    rules: Option<Seq<AisleRuleView>>,
    i: int,
)
    requires
        0 <= i < items.len(),
    ensures
        exists|j: int|
            0 <= j < assemble_spec(items, rules).len() && (#[trigger] assemble_spec(
                items,
                rules,
            )[j]).name == label_of(rules, items[i].name) && assemble_spec(
                items,
                rules,
            )[j].ingredients.contains(items[i]),
{
    let labels = labels_of(items, rules);
    let names = named_labels(labels);
    let list = assemble_spec(items, rules);
    lemma_named_labels(labels);
    lemma_select_holds(items, labels, i);
    if labels[i] == uncategorized() {
        assert(list[names.len() as int].name == labels[i]);
    } else {
        let j = choose|j: int| 0 <= j < names.len() && names[j] == labels[i];
        assert(list[j].name == labels[i]);
    }
}

/// The category of an ingredient does not depend on the case of the
/// letters of its name: whichever spelling was seen first, the ingredient
/// lands in the same category.
pub proof fn law_category_ignores_case(
    rules: Option<Seq<AisleRuleView>>,
    a: Seq<char>,
    b: Seq<char>,
)
    requires
        same_name(a, b),
    ensures
        label_of(rules, a) == label_of(rules, b),
{
    if let Some(r) = rules {
        lemma_first_where(r, matching(a));
        lemma_first_where(r, matching(b));
        match (first_where(r, matching(a)), first_where(r, matching(b))) {
            (Some(i), Some(j)) => {
                assert(matching(b)(r[i]));
                assert(matching(a)(r[j]));
                assert(i == j);
            },
            (Some(i), None) => {
                assert(matching(b)(r[i]));
            },
            (None, Some(j)) => {
                assert(matching(a)(r[j]));
            },
            (None, None) => {},
        }
    }
}

} // verus!
