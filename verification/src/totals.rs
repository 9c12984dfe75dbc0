//! What a list holds, whatever the order it was built in: for each
//! ingredient and each class of units, the total in canonical units.

use vstd::prelude::*;
use crate::amount::Ratio;
use crate::algebra::{zero, lemma_plus, lemma_times, lemma_over, law_plus_zero, law_plus_associates,
    law_times_distributes, law_conversion_cancels};
use crate::sums::{sum_by, terms_wf, lemma_zero_wf, lemma_sum_wf, lemma_sum_first, lemma_sum_update,
    lemma_sum_push, lemma_sum_permutation, lemma_sum_remove, lemma_sum_of_zeros};
use crate::units::{Dimension, UnitInfo, resolve_spec, table_wf, lemma_resolve_member};
use crate::quantity::{QuantityView, units_compatible};
use crate::seqs::lemma_first_where;
use crate::text::{lowercase_of, same_name};
use crate::ingredient::{AggregatedView, OccurrenceView, RecipeId, takes, named, first_compatible,
    find_name, merge_quantity_spec, merge_quantities_spec, merge_ingredient_spec,
    merge_occurrence_spec, merge_occurrences_spec, group_recipe_spec, list_wf};
use crate::aggregate::{merge_grouped_spec, aggregate_from, aggregate_spec, lemma_aggregate_wf};

verus! {

/// The classes of units whose amounts add up: no unit, the units of one
/// dimension, and each unit that the table does not know, by its spelling.
pub enum UnitClass {
    NoUnit,
    Known(Dimension),
    Other(Seq<char>),
}

/// The class of a unit.
pub open spec fn class_of(unit: Option<Seq<char>>, table: Seq<UnitInfo>) -> UnitClass {
    match unit {
        None => UnitClass::NoUnit,
        Some(u) => match resolve_spec(table, u) {
            Some(info) => UnitClass::Known(info.dimension),
            None => UnitClass::Other(u),
        },
    }
}

/// The amount of a number in the canonical unit of its dimension; the
/// amount itself where the number has no unit or one the table does not
/// know.
pub open spec fn canonical(q: QuantityView, table: Seq<UnitInfo>) -> Ratio {
    match q.unit {
        None => q.amount(),
        Some(u) => match resolve_spec(table, u) {
            Some(info) => q.amount().times(info.ratio),
            None => q.amount(),
        },
    }
}

/// The quantity is a number, in lowest terms.
pub open spec fn valid_number(q: QuantityView) -> bool {
    !q.is_unspecified() && q.amount().wf()
}

/// Every quantity is a number in lowest terms.
pub open spec fn valid_numbers(qs: Seq<QuantityView>) -> bool {
    forall|i: int| 0 <= i < qs.len() ==> valid_number(#[trigger] qs[i])
}

/// What a quantity adds to the total of a class: its canonical amount where
/// it is of the class, nothing where it is not.
pub open spec fn contribution(class: UnitClass, table: Seq<UnitInfo>) -> spec_fn(
    QuantityView,
) -> Ratio {
    |q: QuantityView|
        if class_of(q.unit, table) == class {
            canonical(q, table)
        } else {
            zero()
        }
}

/// The total of a class over some quantities, in canonical units.
pub open spec fn groups_total(qs: Seq<QuantityView>, class: UnitClass, table: Seq<UnitInfo>)
    -> Ratio {
    sum_by(qs, contribution(class, table))
}

/// Two units are compatible exactly when they are of one class.
pub proof fn lemma_compatible_is_same_class(
    a: Option<Seq<char>>,
    b: Option<Seq<char>>,
    table: Seq<UnitInfo>,
)
    ensures
        units_compatible(a, b, table) == (class_of(a, table) == class_of(b, table)),
{
    if a is Some && b is Some {
        lemma_resolve_member(table, a->0, 0);
        lemma_resolve_member(table, b->0, 0);
    }
}

/// What a well-formed table resolves a unit to is well-formed.
pub proof fn lemma_resolved_wf(table: Seq<UnitInfo>, unit: Seq<char>)
    requires
        table_wf(table),
    ensures
        resolve_spec(table, unit) matches Some(info) ==> info.wf(),
{
    lemma_resolve_member(table, unit, 0);
}

/// The canonical amount of a valid number is in lowest terms.
pub proof fn lemma_canonical_wf(q: QuantityView, table: Seq<UnitInfo>)
    requires
        table_wf(table),
        valid_number(q),
    ensures
        canonical(q, table).wf(),
{
    if let Some(u) = q.unit {
        lemma_resolved_wf(table, u);
        if let Some(info) = resolve_spec(table, u) {
            lemma_times(q.amount(), info.ratio);
        }
    }
}

/// The contributions of valid numbers are in lowest terms, and so is their
/// total.
pub proof fn lemma_contributions_wf(qs: Seq<QuantityView>, class: UnitClass, table: Seq<UnitInfo>)
    requires
        table_wf(table),
        valid_numbers(qs),
    ensures
        terms_wf(qs, contribution(class, table)),
        groups_total(qs, class, table).wf(),
{
    lemma_zero_wf();
    assert forall|i: int| 0 <= i < qs.len() implies (#[trigger] contribution(class, table)(
        qs[i],
    )).wf() by {
        lemma_canonical_wf(qs[i], table);
    }
    lemma_sum_wf(qs, contribution(class, table));
}

/// The sum of two compatible numbers is a number of their class whose
/// canonical amount is the sum of their canonical amounts.
pub proof fn lemma_try_add_canonical(a: QuantityView, b: QuantityView, table: Seq<UnitInfo>)
    requires
        table_wf(table),
        valid_number(a),
        valid_number(b),
        a.try_add(b, table) is Ok,
    ensures
        valid_number(a.try_add(b, table)->Ok_0),
        class_of(a.try_add(b, table)->Ok_0.unit, table) == class_of(a.unit, table),
        class_of(b.unit, table) == class_of(a.unit, table),
        canonical(a.try_add(b, table)->Ok_0, table) == canonical(a, table).plus(canonical(b, table)),
{
    let s = a.try_add(b, table)->Ok_0;
    lemma_compatible_is_same_class(a.unit, b.unit, table);
    match (a.unit, b.unit) {
        (Some(x), Some(y)) => {
            lemma_resolved_wf(table, x);
            lemma_resolved_wf(table, y);
            if x == y {
                lemma_plus(a.amount(), b.amount());
                if let Some(info) = resolve_spec(table, x) {
                    law_times_distributes(a.amount(), b.amount(), info.ratio);
                }
            } else {
                let fx = resolve_spec(table, x)->0;
                let fy = resolve_spec(table, y)->0;
                let factor = fy.ratio.over(fx.ratio);
                let c = b.amount().times(factor);
                lemma_over(fy.ratio, fx.ratio);
                lemma_times(b.amount(), factor);
                lemma_plus(a.amount(), c);
                law_times_distributes(a.amount(), c, fx.ratio);
                law_conversion_cancels(b.amount(), fy.ratio, fx.ratio);
            }
        },
        _ => {
            lemma_plus(a.amount(), b.amount());
        },
    }
}

/// Merging a valid number into valid numbers leaves valid numbers, and adds
/// its contribution to the total of every class.
pub proof fn lemma_merge_quantity_total(
    groups: Seq<QuantityView>,
    q: QuantityView,
    class: UnitClass,
    table: Seq<UnitInfo>,
)
    requires
        table_wf(table),
        valid_numbers(groups),
        valid_number(q),
        merge_quantity_spec(groups, q, table) is Some,
    ensures
        valid_numbers(merge_quantity_spec(groups, q, table)->0),
        groups_total(merge_quantity_spec(groups, q, table)->0, class, table) == groups_total(
            groups,
            class,
            table,
        ).plus(contribution(class, table)(q)),
{
    let f = contribution(class, table);
    lemma_first_where(groups, takes(q, table));
    lemma_contributions_wf(groups, class, table);
    lemma_canonical_wf(q, table);
    lemma_zero_wf();
    match first_compatible(groups, q, table) {
        Some(i) => {
            let s = groups[i].try_add(q, table)->Ok_0;
            lemma_try_add_canonical(groups[i], q, table);
            lemma_canonical_wf(groups[i], table);
            law_plus_zero(zero());
            lemma_sum_update(groups, f, i, s, f(q));
        },
        None => {
            lemma_sum_push(groups, f, q);
        },
    }
}

/// Merging valid numbers into valid numbers leaves valid numbers, and adds
/// their total to the total of every class.
pub proof fn lemma_merge_quantities_total(
    groups: Seq<QuantityView>,
    qs: Seq<QuantityView>,
    class: UnitClass,
    table: Seq<UnitInfo>,
)
    requires
        table_wf(table),
        valid_numbers(groups),
        valid_numbers(qs),
        merge_quantities_spec(groups, qs, table) is Some,
    ensures
        valid_numbers(merge_quantities_spec(groups, qs, table)->0),
        groups_total(merge_quantities_spec(groups, qs, table)->0, class, table) == groups_total(
            groups,
            class,
            table,
        ).plus(groups_total(qs, class, table)),
    decreases qs.len(),
{
    let f = contribution(class, table);
    lemma_contributions_wf(groups, class, table);
    lemma_contributions_wf(qs, class, table);
    if qs.len() == 0 {
        law_plus_zero(groups_total(groups, class, table));
    } else {
        let next = merge_quantity_spec(groups, qs[0], table)->0;
        lemma_merge_quantity_total(groups, qs[0], class, table);
        assert forall|i: int| 0 <= i < qs.drop_first().len() implies valid_number(
            #[trigger] qs.drop_first()[i],
        ) by {
            assert(qs.drop_first()[i] == qs[i + 1]);
        }
        lemma_merge_quantities_total(next, qs.drop_first(), class, table);
        lemma_sum_first(qs, f);
        lemma_contributions_wf(qs.drop_first(), class, table);
        assert(f(qs[0]).wf());
        law_plus_associates(
            groups_total(groups, class, table),
            f(qs[0]),
            groups_total(qs.drop_first(), class, table),
        );
    }
}

/// Every group of every entry for the ingredient `key` is a number in
/// lowest terms.
pub open spec fn list_valid(list: Seq<AggregatedView>, key: Seq<char>) -> bool {
    forall|i: int|
        0 <= i < list.len() && lowercase_of((#[trigger] list[i]).name) == key ==> valid_numbers(
            list[i].quantities,
        )
}

/// Every occurrence of the ingredient `key` states a number in lowest
/// terms.
pub open spec fn occurrences_valid(occs: Seq<OccurrenceView>, key: Seq<char>) -> bool {
    forall|i: int|
        0 <= i < occs.len() && lowercase_of((#[trigger] occs[i]).name) == key ==> valid_number(
            occs[i].quantity,
        )
}

/// Every occurrence of the ingredient `key` in every recipe states a
/// number in lowest terms.
pub open spec fn recipes_valid(recipes: Seq<Seq<OccurrenceView>>, key: Seq<char>) -> bool {
    forall|i: int| 0 <= i < recipes.len() ==> occurrences_valid(#[trigger] recipes[i], key)
}

/// What an entry adds to the total of an ingredient and a class: the total
/// of its groups where it is that ingredient, nothing where it is not. An
/// ingredient is told by the lowercase form of its name.
pub open spec fn entry_contribution(key: Seq<char>, class: UnitClass, table: Seq<UnitInfo>)
    -> spec_fn(AggregatedView) -> Ratio {
    |e: AggregatedView|
        if lowercase_of(e.name) == key {
            groups_total(e.quantities, class, table)
        } else {
            zero()
        }
}

/// The total of an ingredient and a class over a list, in canonical units.
pub open spec fn list_total(
    list: Seq<AggregatedView>,
    key: Seq<char>,
    class: UnitClass,
    table: Seq<UnitInfo>,
) -> Ratio {
    sum_by(list, entry_contribution(key, class, table))
}

/// The contributions of the entries of a valid list are in lowest terms,
/// and so is their total.
pub proof fn lemma_entries_wf(
    list: Seq<AggregatedView>,
    key: Seq<char>,
    class: UnitClass,
    table: Seq<UnitInfo>,
)
    requires
        table_wf(table),
        list_valid(list, key),
    ensures
        terms_wf(list, entry_contribution(key, class, table)),
        list_total(list, key, class, table).wf(),
{
    lemma_zero_wf();
    assert forall|i: int| 0 <= i < list.len() implies (#[trigger] entry_contribution(
        key,
        class,
        table,
    )(list[i])).wf() by {
        if lowercase_of(list[i].name) == key {
            lemma_contributions_wf(list[i].quantities, class, table);
        }
    }
    lemma_sum_wf(list, entry_contribution(key, class, table));
}

/// Merging valid numbers of an ingredient into a valid list leaves a valid
/// list, and adds their total to the totals of that ingredient.
pub proof fn lemma_merge_ingredient_total(
    list: Seq<AggregatedView>,
    name: Seq<char>,
    qs: Seq<QuantityView>,
    sources: Seq<RecipeId>,
    key: Seq<char>,
    class: UnitClass,
    table: Seq<UnitInfo>,
)
    requires
        table_wf(table),
        list_valid(list, key),
        lowercase_of(name) == key ==> valid_numbers(qs),
        merge_ingredient_spec(list, name, qs, sources, table) is Some,
    ensures
        list_valid(merge_ingredient_spec(list, name, qs, sources, table)->0, key),
        list_total(merge_ingredient_spec(list, name, qs, sources, table)->0, key, class, table)
            == list_total(list, key, class, table).plus(
            entry_contribution(key, class, table)(
                AggregatedView { name: name, quantities: qs, sources: sources },
            ),
        ),
{
    let f = entry_contribution(key, class, table);
    let merged = merge_ingredient_spec(list, name, qs, sources, table)->0;
    let d = f(AggregatedView { name: name, quantities: qs, sources: sources });
    lemma_first_where(list, named(name));
    lemma_entries_wf(list, key, class, table);
    lemma_zero_wf();
    law_plus_zero(zero());
    if lowercase_of(name) == key {
        lemma_contributions_wf(qs, class, table);
    }
    match find_name(list, name) {
        Some(i) => {
            if lowercase_of(name) == key {
                lemma_merge_quantities_total(list[i].quantities, qs, class, table);
            }
            lemma_sum_update(list, f, i, merged[i], d);
            assert forall|k: int|
                0 <= k < merged.len() && lowercase_of((#[trigger] merged[k]).name)
                    == key implies valid_numbers(merged[k].quantities) by {
                if k != i {
                    assert(merged[k] == list[k]);
                }
            }
        },
        None => {
            let empty = Seq::<QuantityView>::empty();
            if lowercase_of(name) == key {
                lemma_merge_quantities_total(empty, qs, class, table);
                law_plus_zero(groups_total(qs, class, table));
            }
            lemma_sum_push(list, f, merged[list.len() as int]);
            assert(merged =~= list.push(merged[list.len() as int]));
            assert forall|k: int|
                0 <= k < merged.len() && lowercase_of((#[trigger] merged[k]).name)
                    == key implies valid_numbers(merged[k].quantities) by {
                if k < list.len() {
                    assert(merged[k] == list[k]);
                }
            }
        },
    }
}

/// Merging a valid grouped recipe into a valid list leaves a valid list,
/// and adds its totals to the totals of the list.
pub proof fn lemma_merge_grouped_total(
    running: Seq<AggregatedView>,
    grouped: Seq<AggregatedView>,
    key: Seq<char>,
    class: UnitClass,
    table: Seq<UnitInfo>,
)
    requires
        table_wf(table),
        list_valid(running, key),
        list_valid(grouped, key),
        merge_grouped_spec(running, grouped, table) is Some,
    ensures
        list_valid(merge_grouped_spec(running, grouped, table)->0, key),
        list_total(merge_grouped_spec(running, grouped, table)->0, key, class, table) == list_total(
            running,
            key,
            class,
            table,
        ).plus(list_total(grouped, key, class, table)),
    decreases grouped.len(),
{
    let f = entry_contribution(key, class, table);
    lemma_entries_wf(running, key, class, table);
    lemma_entries_wf(grouped, key, class, table);
    if grouped.len() == 0 {
        law_plus_zero(list_total(running, key, class, table));
    } else {
        let e = grouped[0];
        let next = merge_ingredient_spec(running, e.name, e.quantities, e.sources, table)->0;
        lemma_merge_ingredient_total(running, e.name, e.quantities, e.sources, key, class, table);
        assert(AggregatedView { name: e.name, quantities: e.quantities, sources: e.sources } == e);
        assert forall|i: int|
            0 <= i < grouped.drop_first().len() && lowercase_of(
                (#[trigger] grouped.drop_first()[i]).name,
            ) == key implies valid_numbers(grouped.drop_first()[i].quantities) by {
            assert(grouped.drop_first()[i] == grouped[i + 1]);
        }
        lemma_merge_grouped_total(next, grouped.drop_first(), key, class, table);
        lemma_sum_first(grouped, f);
        lemma_entries_wf(grouped.drop_first(), key, class, table);
        assert(f(grouped[0]).wf());
        law_plus_associates(
            list_total(running, key, class, table),
            f(e),
            list_total(grouped.drop_first(), key, class, table),
        );
    }
}

/// Merging valid occurrences into a valid list leaves a valid list.
pub proof fn lemma_merge_occurrences_valid(
    list: Seq<AggregatedView>,
    occs: Seq<OccurrenceView>,
    key: Seq<char>,
    table: Seq<UnitInfo>,
)
    requires
        table_wf(table),
        list_valid(list, key),
        occurrences_valid(occs, key),
    ensures
        merge_occurrences_spec(list, occs, table) matches Some(l) ==> list_valid(l, key),
    decreases occs.len(),
{
    if occs.len() > 0 {
        if let Some(next) = merge_occurrence_spec(list, occs[0], table) {
            let qs = seq![occs[0].quantity];
            if lowercase_of(occs[0].name) == key {
                assert(valid_number(qs[0]));
            }
            lemma_merge_ingredient_total(
                list,
                occs[0].name,
                qs,
                seq![occs[0].recipe_ref],
                key,
                UnitClass::NoUnit,
                table,
            );
            assert forall|i: int|
                0 <= i < occs.drop_first().len() && lowercase_of(
                    (#[trigger] occs.drop_first()[i]).name,
                ) == key implies valid_number(occs.drop_first()[i].quantity) by {
                assert(occs.drop_first()[i] == occs[i + 1]);
            }
            lemma_merge_occurrences_valid(next, occs.drop_first(), key, table);
        }
    }
}

/// What a recipe adds to the total of an ingredient and a class: the total
/// of its grouping.
pub open spec fn recipe_contribution(key: Seq<char>, class: UnitClass, table: Seq<UnitInfo>)
    -> spec_fn(Seq<OccurrenceView>) -> Ratio {
    |recipe: Seq<OccurrenceView>|
        match group_recipe_spec(recipe, table) {
            Some(grouped) => list_total(grouped, key, class, table),
            None => zero(),
        }
}

/// The total of an ingredient and a class over recipes, in canonical
/// units.
pub open spec fn recipes_total(
    recipes: Seq<Seq<OccurrenceView>>,
    key: Seq<char>,
    class: UnitClass,
    table: Seq<UnitInfo>,
) -> Ratio {
    sum_by(recipes, recipe_contribution(key, class, table))
}

/// The contributions of valid recipes are in lowest terms.
pub proof fn lemma_recipes_wf(
    recipes: Seq<Seq<OccurrenceView>>,
    key: Seq<char>,
    class: UnitClass,
    table: Seq<UnitInfo>,
)
    requires
        table_wf(table),
        recipes_valid(recipes, key),
    ensures
        terms_wf(recipes, recipe_contribution(key, class, table)),
        recipes_total(recipes, key, class, table).wf(),
{
    lemma_zero_wf();
    assert forall|i: int| 0 <= i < recipes.len() implies (#[trigger] recipe_contribution(
        key,
        class,
        table,
    )(recipes[i])).wf() by {
        lemma_merge_occurrences_valid(Seq::empty(), recipes[i], key, table);
        if let Some(grouped) = group_recipe_spec(recipes[i], table) {
            lemma_entries_wf(grouped, key, class, table);
        }
    }
    lemma_sum_wf(recipes, recipe_contribution(key, class, table));
}

/// Aggregating valid recipes into a valid list adds their totals to the
/// totals of the list.
pub proof fn lemma_aggregate_total(
    running: Seq<AggregatedView>,
    recipes: Seq<Seq<OccurrenceView>>,
    key: Seq<char>,
    class: UnitClass,
    table: Seq<UnitInfo>,
)
    requires
        table_wf(table),
        list_valid(running, key),
        recipes_valid(recipes, key),
        aggregate_from(running, recipes, table) is Some,
    ensures
        list_valid(aggregate_from(running, recipes, table)->0, key),
        list_total(aggregate_from(running, recipes, table)->0, key, class, table) == list_total(
            running,
            key,
            class,
            table,
        ).plus(recipes_total(recipes, key, class, table)),
    decreases recipes.len(),
{
    let f = recipe_contribution(key, class, table);
    lemma_entries_wf(running, key, class, table);
    lemma_recipes_wf(recipes, key, class, table);
    if recipes.len() == 0 {
        law_plus_zero(list_total(running, key, class, table));
    } else {
        let grouped = group_recipe_spec(recipes[0], table)->0;
        lemma_merge_occurrences_valid(Seq::empty(), recipes[0], key, table);
        let next = merge_grouped_spec(running, grouped, table)->0;
        lemma_merge_grouped_total(running, grouped, key, class, table);
        assert forall|i: int| 0 <= i < recipes.drop_first().len() implies occurrences_valid(
            #[trigger] recipes.drop_first()[i],
            key,
        ) by {
            assert(recipes.drop_first()[i] == recipes[i + 1]);
        }
        lemma_aggregate_total(next, recipes.drop_first(), key, class, table);
        lemma_sum_first(recipes, f);
        lemma_recipes_wf(recipes.drop_first(), key, class, table);
        assert(f(recipes[0]).wf());
        law_plus_associates(
            list_total(running, key, class, table),
            f(recipes[0]),
            recipes_total(recipes.drop_first(), key, class, table),
        );
    }
}

/// The totals of an aggregation are the totals of its recipes: for an
/// ingredient whose amounts are all numbers and every class of units, the
/// list holds, in canonical units, the sum of what the groupings of the
/// recipes hold.
pub proof fn law_aggregate_totals(
    recipes: Seq<Seq<OccurrenceView>>,
    key: Seq<char>,
    class: UnitClass,
    table: Seq<UnitInfo>,
)
    requires
        table_wf(table),
        recipes_valid(recipes, key),
        aggregate_spec(recipes, table) is Some,
    ensures
        list_total(aggregate_spec(recipes, table)->0, key, class, table) == recipes_total(
            recipes,
            key,
            class,
            table,
        ),
{
    lemma_aggregate_total(Seq::empty(), recipes, key, class, table);
    lemma_recipes_wf(recipes, key, class, table);
    law_plus_zero(recipes_total(recipes, key, class, table));
}

/// The order of the recipes does not change what the list holds. Two
/// orders of the same recipes give lists with the same total, in canonical
/// units, for every class of units and every ingredient whose amounts are
/// all numbers, wherever both lists can be stored. (An ingredient with an
/// amount left open is open on both lists: see
/// `law_recipe_order_keeps_open_amounts`.)
pub proof fn law_recipe_order_keeps_totals(
    first: Seq<Seq<OccurrenceView>>,
    second: Seq<Seq<OccurrenceView>>,
    key: Seq<char>,
    class: UnitClass,
    table: Seq<UnitInfo>,
)
    requires
        table_wf(table),
        first.to_multiset() == second.to_multiset(),
        recipes_valid(first, key),
        aggregate_spec(first, table) is Some,
        aggregate_spec(second, table) is Some,
    ensures
        list_total(aggregate_spec(first, table)->0, key, class, table) == list_total(
            aggregate_spec(second, table)->0,
            key,
            class,
            table,
        ),
{
    first.to_multiset_ensures();
    second.to_multiset_ensures();
    assert forall|i: int| 0 <= i < second.len() implies occurrences_valid(
        #[trigger] second[i],
            key,
        ) by {
        let x = second[i];
        assert(second.contains(x));
        assert(second.to_multiset().count(x) > 0);
        assert(first.to_multiset().count(x) > 0);
        assert(first.contains(x));
        let j = choose|j: int| 0 <= j < first.len() && first[j] == x;
        assert(occurrences_valid(first[j], key));
    }
    law_aggregate_totals(first, key, class, table);
    law_aggregate_totals(second, key, class, table);
    lemma_recipes_wf(first, key, class, table);
    lemma_recipes_wf(second, key, class, table);
    lemma_sum_permutation(first, second, recipe_contribution(key, class, table));
}

/// On a list in order, the total of an ingredient is the total of the
/// groups of its one entry.
pub proof fn lemma_entry_total(
    list: Seq<AggregatedView>,
    i: int,
    class: UnitClass,
    table: Seq<UnitInfo>,
)
    requires
        table_wf(table),
        0 <= i < list.len(),
        list_valid(list, lowercase_of(list[i].name)),
        list_wf(list, table),
    ensures
        list_total(list, lowercase_of(list[i].name), class, table) == groups_total(
            list[i].quantities,
            class,
            table,
        ),
{
    let key = lowercase_of(list[i].name);
    let f = entry_contribution(key, class, table);
    lemma_entries_wf(list, key, class, table);
    lemma_sum_remove(list, f, i);
    let others = list.remove(i);
    assert forall|k: int| 0 <= k < others.len() implies #[trigger] f(others[k]) == zero() by {
        if k < i {
            assert(others[k] == list[k]);
            assert(!same_name(list[k].name, list[i].name));
        } else {
            assert(others[k] == list[k + 1]);
            assert(!same_name(list[i].name, list[k + 1].name));
        }
    }
    lemma_sum_of_zeros(others, f);
    lemma_contributions_wf(list[i].quantities, class, table);
    law_plus_zero(groups_total(list[i].quantities, class, table));
}

/// The order of the recipes does not change what the groups of an
/// ingredient add up to. Two orders of the same recipes give lists on
/// which the entries of one ingredient, its amounts all numbers, have, for
/// every class of units, groups of the same total in canonical units,
/// wherever both lists can be stored. As no two groups of an entry are of
/// one class, the groups of the two entries are the same amounts, class by
/// class.
pub proof fn law_recipe_order_keeps_groups(
    first: Seq<Seq<OccurrenceView>>,
    second: Seq<Seq<OccurrenceView>>,
    class: UnitClass,
    table: Seq<UnitInfo>,
    i: int,
    j: int,
)
    requires
        table_wf(table),
        first.to_multiset() == second.to_multiset(),
        aggregate_spec(first, table) is Some,
        aggregate_spec(second, table) is Some,
        0 <= i < aggregate_spec(first, table)->0.len(),
        0 <= j < aggregate_spec(second, table)->0.len(),
        recipes_valid(first, lowercase_of(aggregate_spec(first, table)->0[i].name)),
        lowercase_of(aggregate_spec(first, table)->0[i].name) == lowercase_of(
            aggregate_spec(second, table)->0[j].name,
        ),
    ensures
        groups_total(aggregate_spec(first, table)->0[i].quantities, class, table) == groups_total(
            aggregate_spec(second, table)->0[j].quantities,
            class,
            table,
        ),
{
    let one = aggregate_spec(first, table)->0;
    let other = aggregate_spec(second, table)->0;
    let key = lowercase_of(one[i].name);
    first.to_multiset_ensures();
    second.to_multiset_ensures();
    assert forall|k: int| 0 <= k < second.len() implies occurrences_valid(
        #[trigger] second[k],
            key,
        ) by {
        let x = second[k];
        assert(second.contains(x));
        assert(second.to_multiset().count(x) > 0);
        assert(first.to_multiset().count(x) > 0);
        assert(first.contains(x));
        let m = choose|m: int| 0 <= m < first.len() && first[m] == x;
        assert(occurrences_valid(first[m], key));
    }
    law_recipe_order_keeps_totals(first, second, key, class, table);
    lemma_aggregate_total(Seq::empty(), first, key, class, table);
    lemma_aggregate_total(Seq::empty(), second, key, class, table);
    lemma_aggregate_wf(Seq::empty(), first, table);
    lemma_aggregate_wf(Seq::empty(), second, table);
    lemma_entry_total(one, i, class, table);
    lemma_entry_total(other, j, class, table);
}

} // verus!
