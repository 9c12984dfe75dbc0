//! Which ingredients a list names and which recipes ask for them, whatever
//! the order the list was built in.

use vstd::prelude::*;
use crate::units::UnitInfo;
use crate::quantity::QuantityView;
use crate::seqs::lemma_first_where;
use crate::text::{lowercase_of, same_name};
use crate::ingredient::{AggregatedView, OccurrenceView, RecipeId, takes, named, find_name,
    first_compatible, merge_quantity_spec, merge_quantities_spec, merge_ingredient_spec,
    merge_occurrence_spec, merge_occurrences_spec, group_recipe_spec, list_wf,
    lemma_add_sources_wf, lemma_merge_ingredient_wf, lemma_merge_occurrences_wf};
use crate::aggregate::{merge_grouped_spec, aggregate_from, aggregate_spec, lemma_merge_grouped_wf};
use crate::aisle::AisleRuleView;
use crate::shopping::label_of;
use crate::laws::law_category_ignores_case;

verus! {

/// The list has an entry for the ingredient `key`, an ingredient being told
/// by the lowercase form of its name.
pub open spec fn on_list(list: Seq<AggregatedView>, key: Seq<char>) -> bool {
    exists|i: int| 0 <= i < list.len() && lowercase_of((#[trigger] list[i]).name) == key
}

/// On the list, the recipe `source` asks for the ingredient `key`.
pub open spec fn list_asks(list: Seq<AggregatedView>, key: Seq<char>, source: RecipeId) -> bool {
    exists|i: int|
        0 <= i < list.len() && lowercase_of((#[trigger] list[i]).name) == key
            && list[i].sources.contains(source)
}

/// An occurrence names the ingredient `key`.
pub open spec fn named_in(occs: Seq<OccurrenceView>, key: Seq<char>) -> bool {
    exists|i: int| 0 <= i < occs.len() && lowercase_of((#[trigger] occs[i]).name) == key
}

/// An occurrence of the recipe `source` names the ingredient `key`.
pub open spec fn asked_in(occs: Seq<OccurrenceView>, key: Seq<char>, source: RecipeId) -> bool {
    exists|i: int|
        0 <= i < occs.len() && lowercase_of((#[trigger] occs[i]).name) == key && occs[i].recipe_ref
            == source
}

/// One of the recipes names the ingredient `key`.
pub open spec fn recipes_name(recipes: Seq<Seq<OccurrenceView>>, key: Seq<char>) -> bool {
    exists|r: int| 0 <= r < recipes.len() && named_in(#[trigger] recipes[r], key)
}

/// In one of the recipes an occurrence of the recipe `source` names the
/// ingredient `key`.
pub open spec fn recipes_ask(recipes: Seq<Seq<OccurrenceView>>, key: Seq<char>, source: RecipeId)
    -> bool {
    exists|r: int| 0 <= r < recipes.len() && asked_in(#[trigger] recipes[r], key, source)
}

/// Merging an ingredient puts it on the list, with its sources, and
/// changes nothing else of who is on the list and who asks for what.
pub proof fn lemma_merge_ingredient_names(
    list: Seq<AggregatedView>,
    name: Seq<char>,
    qs: Seq<QuantityView>,
    sources: Seq<RecipeId>,
    table: Seq<UnitInfo>,
    key: Seq<char>,
    source: RecipeId,
)
    requires
        list_wf(list, table),
        merge_ingredient_spec(list, name, qs, sources, table) is Some,
    ensures
        on_list(merge_ingredient_spec(list, name, qs, sources, table)->0, key) == (on_list(list, key)
            || lowercase_of(name) == key),
        list_asks(merge_ingredient_spec(list, name, qs, sources, table)->0, key, source) == (
        list_asks(list, key, source) || (lowercase_of(name) == key && sources.contains(source))),
{
    let merged = merge_ingredient_spec(list, name, qs, sources, table)->0;
    lemma_first_where(list, named(name));
    match find_name(list, name) {
        Some(i) => {
            lemma_add_sources_wf(list[i].sources, sources);
            assert(lowercase_of(merged[i].name) == lowercase_of(name));
            if on_list(list, key) {
                let k = choose|k: int| 0 <= k < list.len() && lowercase_of((#[trigger] list[k]).name)
                    == key;
                assert(lowercase_of(merged[k].name) == key);
            }
            if on_list(merged, key) {
                let k = choose|k: int|
                    0 <= k < merged.len() && lowercase_of((#[trigger] merged[k]).name) == key;
                assert(lowercase_of(list[k].name) == key);
            }
            if list_asks(list, key, source) {
                let k = choose|k: int|
                    0 <= k < list.len() && lowercase_of((#[trigger] list[k]).name) == key
                        && list[k].sources.contains(source);
                assert(lowercase_of(merged[k].name) == key && merged[k].sources.contains(source));
            }
            if lowercase_of(name) == key && sources.contains(source) {
                assert(lowercase_of(merged[i].name) == key && merged[i].sources.contains(source));
            }
            if list_asks(merged, key, source) {
                let k = choose|k: int|
                    0 <= k < merged.len() && lowercase_of((#[trigger] merged[k]).name) == key
                        && merged[k].sources.contains(source);
                if k != i {
                    assert(merged[k] == list[k]);
                } else if !sources.contains(source) {
                    assert(lowercase_of(list[i].name) == key && list[i].sources.contains(source));
                }
            }
        },
        None => {
            let n = list.len() as int;
            lemma_add_sources_wf(Seq::empty(), sources);
            assert(merged.len() == n + 1);
            assert(merged[n].name == name);
            if on_list(list, key) {
                let k = choose|k: int| 0 <= k < list.len() && lowercase_of((#[trigger] list[k]).name)
                    == key;
                assert(lowercase_of(merged[k].name) == key);
            }
            if lowercase_of(name) == key {
                assert(lowercase_of(merged[n].name) == key);
            }
            if on_list(merged, key) {
                let k = choose|k: int|
                    0 <= k < merged.len() && lowercase_of((#[trigger] merged[k]).name) == key;
                if k < n {
                    assert(lowercase_of(list[k].name) == key);
                }
            }
            if list_asks(list, key, source) {
                let k = choose|k: int|
                    0 <= k < list.len() && lowercase_of((#[trigger] list[k]).name) == key
                        && list[k].sources.contains(source);
                assert(lowercase_of(merged[k].name) == key && merged[k].sources.contains(source));
            }
            if lowercase_of(name) == key && sources.contains(source) {
                assert(lowercase_of(merged[n].name) == key && merged[n].sources.contains(source));
            }
            if list_asks(merged, key, source) {
                let k = choose|k: int|
                    0 <= k < merged.len() && lowercase_of((#[trigger] merged[k]).name) == key
                        && merged[k].sources.contains(source);
                if k < n {
                    assert(lowercase_of(list[k].name) == key && list[k].sources.contains(source));
                }
            }
        },
    }
}

/// The first occurrence aside, an ingredient is named among the
/// occurrences where it is named among the rest.
proof fn lemma_named_in_first(occs: Seq<OccurrenceView>, key: Seq<char>, source: RecipeId)
    requires
        occs.len() > 0,
    ensures
        named_in(occs, key) == (lowercase_of(occs[0].name) == key || named_in(occs.drop_first(), key)),
        asked_in(occs, key, source) == ((lowercase_of(occs[0].name) == key && occs[0].recipe_ref
            == source) || asked_in(occs.drop_first(), key, source)),
{
    let rest = occs.drop_first();
    if named_in(occs, key) {
        let i = choose|i: int| 0 <= i < occs.len() && lowercase_of((#[trigger] occs[i]).name) == key;
        if i > 0 {
            assert(lowercase_of(rest[i - 1].name) == key);
        }
    }
    if named_in(rest, key) {
        let i = choose|i: int| 0 <= i < rest.len() && lowercase_of((#[trigger] rest[i]).name) == key;
        assert(lowercase_of(occs[i + 1].name) == key);
    }
    if asked_in(occs, key, source) {
        let i = choose|i: int|
            0 <= i < occs.len() && lowercase_of((#[trigger] occs[i]).name) == key && occs[i].recipe_ref
                == source;
        if i > 0 {
            assert(lowercase_of(rest[i - 1].name) == key && rest[i - 1].recipe_ref == source);
        }
    }
    if asked_in(rest, key, source) {
        let i = choose|i: int|
            0 <= i < rest.len() && lowercase_of((#[trigger] rest[i]).name) == key && rest[i].recipe_ref
                == source;
        assert(lowercase_of(occs[i + 1].name) == key && occs[i + 1].recipe_ref == source);
    }
    if lowercase_of(occs[0].name) == key {
        assert(lowercase_of(occs[0].name) == key);
    }
}

/// Merging occurrences puts their ingredients on the list, each with the
/// recipe of the occurrence among its sources.
pub proof fn lemma_merge_occurrences_names(
    list: Seq<AggregatedView>,
    occs: Seq<OccurrenceView>,
    table: Seq<UnitInfo>,
    key: Seq<char>,
    source: RecipeId,
)
    requires
        list_wf(list, table),
        merge_occurrences_spec(list, occs, table) is Some,
    ensures
        on_list(merge_occurrences_spec(list, occs, table)->0, key) == (on_list(list, key) || named_in(
            occs,
            key,
        )),
        list_asks(merge_occurrences_spec(list, occs, table)->0, key, source) == (list_asks(
            list,
            key,
            source,
        ) || asked_in(occs, key, source)),
    decreases occs.len(),
{
    if occs.len() > 0 {
        let o = occs[0];
        let next = merge_occurrence_spec(list, o, table)->0;
        lemma_merge_ingredient_names(
            list,
            o.name,
            seq![o.quantity],
            seq![o.recipe_ref],
            table,
            key,
            source,
        );
        lemma_merge_ingredient_wf(list, o.name, seq![o.quantity], seq![o.recipe_ref], table);
        lemma_merge_occurrences_names(next, occs.drop_first(), table, key, source);
        lemma_named_in_first(occs, key, source);
        assert(seq![o.recipe_ref].contains(source) == (o.recipe_ref == source)) by {
            if o.recipe_ref == source {
                assert(seq![o.recipe_ref][0] == source);
            }
        }
    }
}

/// The first entry aside, an ingredient is on a list where it is on the
/// rest.
proof fn lemma_on_list_first(list: Seq<AggregatedView>, key: Seq<char>, source: RecipeId)
    requires
        list.len() > 0,
    ensures
        on_list(list, key) == (lowercase_of(list[0].name) == key || on_list(list.drop_first(), key)),
        list_asks(list, key, source) == ((lowercase_of(list[0].name) == key
            && list[0].sources.contains(source)) || list_asks(list.drop_first(), key, source)),
{
    let rest = list.drop_first();
    if on_list(list, key) {
        let i = choose|i: int| 0 <= i < list.len() && lowercase_of((#[trigger] list[i]).name) == key;
        if i > 0 {
            assert(lowercase_of(rest[i - 1].name) == key);
        }
    }
    if on_list(rest, key) {
        let i = choose|i: int| 0 <= i < rest.len() && lowercase_of((#[trigger] rest[i]).name) == key;
        assert(lowercase_of(list[i + 1].name) == key);
    }
    if list_asks(list, key, source) {
        let i = choose|i: int|
            0 <= i < list.len() && lowercase_of((#[trigger] list[i]).name) == key
                && list[i].sources.contains(source);
        if i > 0 {
            assert(lowercase_of(rest[i - 1].name) == key && rest[i - 1].sources.contains(source));
        }
    }
    if list_asks(rest, key, source) {
        let i = choose|i: int|
            0 <= i < rest.len() && lowercase_of((#[trigger] rest[i]).name) == key
                && rest[i].sources.contains(source);
        assert(lowercase_of(list[i + 1].name) == key && list[i + 1].sources.contains(source));
    }
    if lowercase_of(list[0].name) == key {
        assert(lowercase_of(list[0].name) == key);
    }
}

/// Merging a grouped recipe puts its ingredients on the list, with their
/// sources.
pub proof fn lemma_merge_grouped_names(
    running: Seq<AggregatedView>,
    grouped: Seq<AggregatedView>,
    table: Seq<UnitInfo>,
    key: Seq<char>,
    source: RecipeId,
)
    requires
        list_wf(running, table),
        merge_grouped_spec(running, grouped, table) is Some,
    ensures
        on_list(merge_grouped_spec(running, grouped, table)->0, key) == (on_list(running, key)
            || on_list(grouped, key)),
        list_asks(merge_grouped_spec(running, grouped, table)->0, key, source) == (list_asks(
            running,
            key,
            source,
        ) || list_asks(grouped, key, source)),
    decreases grouped.len(),
{
    if grouped.len() > 0 {
        let e = grouped[0];
        let next = merge_ingredient_spec(running, e.name, e.quantities, e.sources, table)->0;
        lemma_merge_ingredient_names(running, e.name, e.quantities, e.sources, table, key, source);
        lemma_merge_ingredient_wf(running, e.name, e.quantities, e.sources, table);
        lemma_merge_grouped_names(next, grouped.drop_first(), table, key, source);
        lemma_on_list_first(grouped, key, source);
    }
}

/// The first recipe aside, an ingredient is named by the recipes where it
/// is named by the rest.
proof fn lemma_recipes_name_first(
    recipes: Seq<Seq<OccurrenceView>>,
    key: Seq<char>,
    source: RecipeId,
)
    requires
        recipes.len() > 0,
    ensures
        recipes_name(recipes, key) == (named_in(recipes[0], key) || recipes_name(
            recipes.drop_first(),
            key,
        )),
        recipes_ask(recipes, key, source) == (asked_in(recipes[0], key, source) || recipes_ask(
            recipes.drop_first(),
            key,
            source,
        )),
{
    let rest = recipes.drop_first();
    if recipes_name(recipes, key) {
        let r = choose|r: int| 0 <= r < recipes.len() && named_in(#[trigger] recipes[r], key);
        if r > 0 {
            assert(named_in(rest[r - 1], key));
        }
    }
    if recipes_name(rest, key) {
        let r = choose|r: int| 0 <= r < rest.len() && named_in(#[trigger] rest[r], key);
        assert(named_in(recipes[r + 1], key));
    }
    if recipes_ask(recipes, key, source) {
        let r = choose|r: int| 0 <= r < recipes.len() && asked_in(#[trigger] recipes[r], key, source);
        if r > 0 {
            assert(asked_in(rest[r - 1], key, source));
        }
    }
    if recipes_ask(rest, key, source) {
        let r = choose|r: int| 0 <= r < rest.len() && asked_in(#[trigger] rest[r], key, source);
        assert(asked_in(recipes[r + 1], key, source));
    }
    if named_in(recipes[0], key) {
        assert(named_in(recipes[0], key));
    }
    if asked_in(recipes[0], key, source) {
        assert(asked_in(recipes[0], key, source));
    }
}

/// Aggregating recipes puts on the list the ingredients they name, each
/// with the recipes that ask for it.
pub proof fn lemma_aggregate_names(
    running: Seq<AggregatedView>,
    recipes: Seq<Seq<OccurrenceView>>,
    table: Seq<UnitInfo>,
    key: Seq<char>,
    source: RecipeId,
)
    requires
        list_wf(running, table),
        aggregate_from(running, recipes, table) is Some,
    ensures
        on_list(aggregate_from(running, recipes, table)->0, key) == (on_list(running, key)
            || recipes_name(recipes, key)),
        list_asks(aggregate_from(running, recipes, table)->0, key, source) == (list_asks(
            running,
            key,
            source,
        ) || recipes_ask(recipes, key, source)),
    decreases recipes.len(),
{
    if recipes.len() > 0 {
        let empty = Seq::<AggregatedView>::empty();
        let grouped = group_recipe_spec(recipes[0], table)->0;
        lemma_merge_occurrences_names(empty, recipes[0], table, key, source);
        lemma_merge_occurrences_wf(empty, recipes[0], table);
        assert(!on_list(empty, key));
        assert(!list_asks(empty, key, source));
        let next = merge_grouped_spec(running, grouped, table)->0;
        lemma_merge_grouped_names(running, grouped, table, key, source);
        lemma_merge_grouped_wf(running, grouped, table);
        lemma_aggregate_names(next, recipes.drop_first(), table, key, source);
        lemma_recipes_name_first(recipes, key, source);
    } else {
        assert(!recipes_name(recipes, key));
        assert(!recipes_ask(recipes, key, source));
    }
}

/// What the recipes name and ask for does not depend on their order.
proof fn lemma_recipes_name_any_order(
    first: Seq<Seq<OccurrenceView>>,
    second: Seq<Seq<OccurrenceView>>,
    key: Seq<char>,
    source: RecipeId,
)
    requires
        first.to_multiset() == second.to_multiset(),
    ensures
        recipes_name(first, key) ==> recipes_name(second, key),
        recipes_ask(first, key, source) ==> recipes_ask(second, key, source),
{
    first.to_multiset_ensures();
    second.to_multiset_ensures();
    if recipes_name(first, key) {
        let r = choose|r: int| 0 <= r < first.len() && named_in(#[trigger] first[r], key);
        let x = first[r];
        assert(first.contains(x));
        assert(first.to_multiset().count(x) > 0);
        assert(second.to_multiset().count(x) > 0);
        assert(second.contains(x));
        let j = choose|j: int| 0 <= j < second.len() && second[j] == x;
        assert(named_in(second[j], key));
    }
    if recipes_ask(first, key, source) {
        let r = choose|r: int| 0 <= r < first.len() && asked_in(#[trigger] first[r], key, source);
        let x = first[r];
        assert(first.contains(x));
        assert(first.to_multiset().count(x) > 0);
        assert(second.to_multiset().count(x) > 0);
        assert(second.contains(x));
        let j = choose|j: int| 0 <= j < second.len() && second[j] == x;
        assert(asked_in(second[j], key, source));
    }
}

/// A list names the ingredients that its recipes name, and gives each the
/// recipes that ask for it as sources.
pub proof fn law_list_names_what_recipes_name(
    recipes: Seq<Seq<OccurrenceView>>,
    table: Seq<UnitInfo>,
    key: Seq<char>,
    source: RecipeId,
)
    requires
        aggregate_spec(recipes, table) is Some,
    ensures
        on_list(aggregate_spec(recipes, table)->0, key) == recipes_name(recipes, key),
        list_asks(aggregate_spec(recipes, table)->0, key, source) == recipes_ask(recipes, key, source),
{
    let empty = Seq::<AggregatedView>::empty();
    assert(!on_list(empty, key));
    assert(!list_asks(empty, key, source));
    lemma_aggregate_names(empty, recipes, table, key, source);
}

/// The order of the recipes changes neither which ingredients are on the
/// list nor which recipes are the sources of each: two orders of the same
/// recipes give lists that agree on both, wherever both lists can be
/// stored.
pub proof fn law_recipe_order_keeps_names_and_sources(
    first: Seq<Seq<OccurrenceView>>,
    second: Seq<Seq<OccurrenceView>>,
    table: Seq<UnitInfo>,
    key: Seq<char>,
    source: RecipeId,
)
    requires
        first.to_multiset() == second.to_multiset(),
        aggregate_spec(first, table) is Some,
        aggregate_spec(second, table) is Some,
    ensures
        on_list(aggregate_spec(first, table)->0, key) == on_list(
            aggregate_spec(second, table)->0,
            key,
        ),
        list_asks(aggregate_spec(first, table)->0, key, source) == list_asks(
            aggregate_spec(second, table)->0,
            key,
            source,
        ),
{
    law_list_names_what_recipes_name(first, table, key, source);
    law_list_names_what_recipes_name(second, table, key, source);
    lemma_recipes_name_any_order(first, second, key, source);
    lemma_recipes_name_any_order(second, first, key, source);
}

/// The order of the recipes does not change the category of an ingredient:
/// an entry of one list and an entry of the other for the same ingredient
/// are placed in the same category, however their names are spelled.
pub proof fn law_recipe_order_keeps_categories(
    one: Seq<AggregatedView>,
    other: Seq<AggregatedView>,
    rules: Option<Seq<AisleRuleView>>,
    i: int,
    j: int,
)
    requires
        0 <= i < one.len(),
        0 <= j < other.len(),
        lowercase_of(one[i].name) == lowercase_of(other[j].name),
    ensures
        label_of(rules, one[i].name) == label_of(rules, other[j].name),
{
    assert(same_name(one[i].name, other[j].name));
    law_category_ignores_case(rules, one[i].name, other[j].name);
}

/// One of the groups leaves its amount open.
pub open spec fn has_open(groups: Seq<QuantityView>) -> bool {
    exists|j: int| 0 <= j < groups.len() && (#[trigger] groups[j]).is_unspecified()
}

/// On the list, the amount of the ingredient `key` is left open.
pub open spec fn list_open(list: Seq<AggregatedView>, key: Seq<char>) -> bool {
    exists|i: int|
        0 <= i < list.len() && lowercase_of((#[trigger] list[i]).name) == key && has_open(
            list[i].quantities,
        )
}

/// An occurrence of the ingredient `key` leaves its amount open.
pub open spec fn open_in(occs: Seq<OccurrenceView>, key: Seq<char>) -> bool {
    exists|i: int|
        0 <= i < occs.len() && lowercase_of((#[trigger] occs[i]).name) == key
            && occs[i].quantity.is_unspecified()
}

/// In one of the recipes an occurrence of the ingredient `key` leaves its
/// amount open.
pub open spec fn recipes_open(recipes: Seq<Seq<OccurrenceView>>, key: Seq<char>) -> bool {
    exists|r: int| 0 <= r < recipes.len() && open_in(#[trigger] recipes[r], key)
}

/// After a merge an amount is open where one was before or the quantity
/// merged leaves its amount open.
pub proof fn lemma_merge_quantity_open(groups: Seq<QuantityView>, q: QuantityView, table: Seq<UnitInfo>)
    requires
        merge_quantity_spec(groups, q, table) is Some,
    ensures
        has_open(merge_quantity_spec(groups, q, table)->0) == (has_open(groups)
            || q.is_unspecified()),
{
    let merged = merge_quantity_spec(groups, q, table)->0;
    lemma_first_where(groups, takes(q, table));
    if q.is_unspecified() && groups.len() > 0 {
        assert(merged[0].is_unspecified());
    } else {
        match first_compatible(groups, q, table) {
            Some(i) => {
                if has_open(groups) {
                    let j = choose|j: int| 0 <= j < groups.len() && (
                    #[trigger] groups[j]).is_unspecified();
                    assert(merged[j].is_unspecified());
                }
                if has_open(merged) {
                    let j = choose|j: int| 0 <= j < merged.len() && (
                    #[trigger] merged[j]).is_unspecified();
                    if j != i {
                        assert(merged[j] == groups[j]);
                    }
                    assert(groups[j].is_unspecified());
                }
            },
            None => {
                let n = groups.len() as int;
                if has_open(groups) {
                    let j = choose|j: int| 0 <= j < groups.len() && (
                    #[trigger] groups[j]).is_unspecified();
                    assert(merged[j].is_unspecified());
                }
                if q.is_unspecified() {
                    assert(merged[n].is_unspecified());
                }
                if has_open(merged) {
                    let j = choose|j: int| 0 <= j < merged.len() && (
                    #[trigger] merged[j]).is_unspecified();
                    if j < n {
                        assert(groups[j].is_unspecified());
                    }
                }
            },
        }
    }
}

/// After a merge of several quantities an amount is open where one was
/// before or one of the quantities leaves its amount open.
pub proof fn lemma_merge_quantities_open(
    groups: Seq<QuantityView>,
    qs: Seq<QuantityView>,
    table: Seq<UnitInfo>,
)
    requires
        merge_quantities_spec(groups, qs, table) is Some,
    ensures
        has_open(merge_quantities_spec(groups, qs, table)->0) == (has_open(groups) || has_open(qs)),
    decreases qs.len(),
{
    if qs.len() > 0 {
        let rest = qs.drop_first();
        let next = merge_quantity_spec(groups, qs[0], table)->0;
        lemma_merge_quantity_open(groups, qs[0], table);
        lemma_merge_quantities_open(next, rest, table);
        if has_open(qs) {
            let j = choose|j: int| 0 <= j < qs.len() && (#[trigger] qs[j]).is_unspecified();
            if j > 0 {
                assert(rest[j - 1].is_unspecified());
            }
        }
        if has_open(rest) {
            let j = choose|j: int| 0 <= j < rest.len() && (#[trigger] rest[j]).is_unspecified();
            assert(qs[j + 1].is_unspecified());
        }
        if qs[0].is_unspecified() {
            assert(qs[0].is_unspecified());
        }
    } else {
        assert(!has_open(qs));
    }
}

/// After an ingredient is merged, its amount is open on the list where it
/// was before or one of the merged quantities leaves its amount open;
/// nothing else changes.
pub proof fn lemma_merge_ingredient_open(
    list: Seq<AggregatedView>,
    name: Seq<char>,
    qs: Seq<QuantityView>,
    sources: Seq<RecipeId>,
    table: Seq<UnitInfo>,
    key: Seq<char>,
)
    requires
        merge_ingredient_spec(list, name, qs, sources, table) is Some,
    ensures
        list_open(merge_ingredient_spec(list, name, qs, sources, table)->0, key) == (list_open(
            list,
            key,
        ) || (lowercase_of(name) == key && has_open(qs))),
{
    let merged = merge_ingredient_spec(list, name, qs, sources, table)->0;
    lemma_first_where(list, named(name));
    match find_name(list, name) {
        Some(i) => {
            lemma_merge_quantities_open(list[i].quantities, qs, table);
            assert(lowercase_of(merged[i].name) == lowercase_of(name));
            if list_open(list, key) {
                let k = choose|k: int|
                    0 <= k < list.len() && lowercase_of((#[trigger] list[k]).name) == key
                        && has_open(list[k].quantities);
                assert(lowercase_of(merged[k].name) == key && has_open(merged[k].quantities));
            }
            if lowercase_of(name) == key && has_open(qs) {
                assert(lowercase_of(merged[i].name) == key && has_open(merged[i].quantities));
            }
            if list_open(merged, key) {
                let k = choose|k: int|
                    0 <= k < merged.len() && lowercase_of((#[trigger] merged[k]).name) == key
                        && has_open(merged[k].quantities);
                if k != i {
                    assert(merged[k] == list[k]);
                } else if !has_open(qs) {
                    assert(lowercase_of(list[i].name) == key && has_open(list[i].quantities));
                }
            }
        },
        None => {
            let n = list.len() as int;
            let none = Seq::<QuantityView>::empty();
            lemma_merge_quantities_open(none, qs, table);
            assert(!has_open(none));
            assert(merged[n].name == name);
            if list_open(list, key) {
                let k = choose|k: int|
                    0 <= k < list.len() && lowercase_of((#[trigger] list[k]).name) == key
                        && has_open(list[k].quantities);
                assert(lowercase_of(merged[k].name) == key && has_open(merged[k].quantities));
            }
            if lowercase_of(name) == key && has_open(qs) {
                assert(lowercase_of(merged[n].name) == key && has_open(merged[n].quantities));
            }
            if list_open(merged, key) {
                let k = choose|k: int|
                    0 <= k < merged.len() && lowercase_of((#[trigger] merged[k]).name) == key
                        && has_open(merged[k].quantities);
                if k < n {
                    assert(lowercase_of(list[k].name) == key && has_open(list[k].quantities));
                }
            }
        },
    }
}

/// After occurrences are merged, the amount of an ingredient is open on
/// the list where it was before or one of its occurrences leaves it open.
pub proof fn lemma_merge_occurrences_open(
    list: Seq<AggregatedView>,
    occs: Seq<OccurrenceView>,
    table: Seq<UnitInfo>,
    key: Seq<char>,
)
    requires
        merge_occurrences_spec(list, occs, table) is Some,
    ensures
        list_open(merge_occurrences_spec(list, occs, table)->0, key) == (list_open(list, key)
            || open_in(occs, key)),
    decreases occs.len(),
{
    if occs.len() > 0 {
        let o = occs[0];
        let rest = occs.drop_first();
        let next = merge_occurrence_spec(list, o, table)->0;
        lemma_merge_ingredient_open(list, o.name, seq![o.quantity], seq![o.recipe_ref], table, key);
        lemma_merge_occurrences_open(next, rest, table, key);
        assert(has_open(seq![o.quantity]) == o.quantity.is_unspecified()) by {
            if o.quantity.is_unspecified() {
                assert(seq![o.quantity][0].is_unspecified());
            }
        }
        if open_in(occs, key) {
            let i = choose|i: int|
                0 <= i < occs.len() && lowercase_of((#[trigger] occs[i]).name) == key
                    && occs[i].quantity.is_unspecified();
            if i > 0 {
                assert(lowercase_of(rest[i - 1].name) == key && rest[i - 1].quantity.is_unspecified());
            }
        }
        if open_in(rest, key) {
            let i = choose|i: int|
                0 <= i < rest.len() && lowercase_of((#[trigger] rest[i]).name) == key
                    && rest[i].quantity.is_unspecified();
            assert(lowercase_of(occs[i + 1].name) == key && occs[i + 1].quantity.is_unspecified());
        }
        if lowercase_of(o.name) == key && o.quantity.is_unspecified() {
            assert(lowercase_of(occs[0].name) == key && occs[0].quantity.is_unspecified());
        }
    } else {
        assert(!open_in(occs, key));
    }
}

/// After a grouped recipe is merged, the amount of an ingredient is open on
/// the list where it was open on either.
pub proof fn lemma_merge_grouped_open(
    running: Seq<AggregatedView>,
    grouped: Seq<AggregatedView>,
    table: Seq<UnitInfo>,
    key: Seq<char>,
)
    requires
        merge_grouped_spec(running, grouped, table) is Some,
    ensures
        list_open(merge_grouped_spec(running, grouped, table)->0, key) == (list_open(running, key)
            || list_open(grouped, key)),
    decreases grouped.len(),
{
    if grouped.len() > 0 {
        let e = grouped[0];
        let rest = grouped.drop_first();
        let next = merge_ingredient_spec(running, e.name, e.quantities, e.sources, table)->0;
        lemma_merge_ingredient_open(running, e.name, e.quantities, e.sources, table, key);
        lemma_merge_grouped_open(next, rest, table, key);
        if list_open(grouped, key) {
            let i = choose|i: int|
                0 <= i < grouped.len() && lowercase_of((#[trigger] grouped[i]).name) == key
                    && has_open(grouped[i].quantities);
            if i > 0 {
                assert(lowercase_of(rest[i - 1].name) == key && has_open(rest[i - 1].quantities));
            }
        }
        if list_open(rest, key) {
            let i = choose|i: int|
                0 <= i < rest.len() && lowercase_of((#[trigger] rest[i]).name) == key && has_open(
                    rest[i].quantities,
                );
            assert(lowercase_of(grouped[i + 1].name) == key && has_open(grouped[i + 1].quantities));
        }
        if lowercase_of(e.name) == key && has_open(e.quantities) {
            assert(lowercase_of(grouped[0].name) == key && has_open(grouped[0].quantities));
        }
    } else {
        assert(!list_open(grouped, key));
    }
}

/// After recipes are aggregated, the amount of an ingredient is open on the
/// list where it was before or one of the recipes leaves it open.
pub proof fn lemma_aggregate_open(
    running: Seq<AggregatedView>,
    recipes: Seq<Seq<OccurrenceView>>,
    table: Seq<UnitInfo>,
    key: Seq<char>,
)
    requires
        aggregate_from(running, recipes, table) is Some,
    ensures
        list_open(aggregate_from(running, recipes, table)->0, key) == (list_open(running, key)
            || recipes_open(recipes, key)),
    decreases recipes.len(),
{
    if recipes.len() > 0 {
        let empty = Seq::<AggregatedView>::empty();
        let rest = recipes.drop_first();
        let grouped = group_recipe_spec(recipes[0], table)->0;
        lemma_merge_occurrences_open(empty, recipes[0], table, key);
        assert(!list_open(empty, key));
        let next = merge_grouped_spec(running, grouped, table)->0;
        lemma_merge_grouped_open(running, grouped, table, key);
        lemma_aggregate_open(next, rest, table, key);
        if recipes_open(recipes, key) {
            let r = choose|r: int| 0 <= r < recipes.len() && open_in(#[trigger] recipes[r], key);
            if r > 0 {
                assert(open_in(rest[r - 1], key));
            }
        }
        if recipes_open(rest, key) {
            let r = choose|r: int| 0 <= r < rest.len() && open_in(#[trigger] rest[r], key);
            assert(open_in(recipes[r + 1], key));
        }
        if open_in(recipes[0], key) {
            assert(open_in(recipes[0], key));
        }
    } else {
        assert(!recipes_open(recipes, key));
    }
}

/// The order of the recipes does not change which ingredients are left
/// open: on the list the amount of an ingredient is open exactly where one
/// of its occurrences leaves it open, so two orders of the same recipes
/// agree on it, wherever both lists can be stored.
pub proof fn law_recipe_order_keeps_open_amounts(
    first: Seq<Seq<OccurrenceView>>,
    second: Seq<Seq<OccurrenceView>>,
    table: Seq<UnitInfo>,
    key: Seq<char>,
)
    requires
        first.to_multiset() == second.to_multiset(),
        aggregate_spec(first, table) is Some,
        aggregate_spec(second, table) is Some,
    ensures
        list_open(aggregate_spec(first, table)->0, key) == recipes_open(first, key),
        list_open(aggregate_spec(first, table)->0, key) == list_open(
            aggregate_spec(second, table)->0,
            key,
        ),
{
    let empty = Seq::<AggregatedView>::empty();
    assert(!list_open(empty, key));
    lemma_aggregate_open(empty, first, table, key);
    lemma_aggregate_open(empty, second, table, key);
    first.to_multiset_ensures();
    second.to_multiset_ensures();
    if recipes_open(first, key) {
        let r = choose|r: int| 0 <= r < first.len() && open_in(#[trigger] first[r], key);
        let x = first[r];
        assert(first.contains(x));
        assert(first.to_multiset().count(x) > 0);
        assert(second.to_multiset().count(x) > 0);
        assert(second.contains(x));
        let j = choose|j: int| 0 <= j < second.len() && second[j] == x;
        assert(open_in(second[j], key));
    }
    if recipes_open(second, key) {
        let r = choose|r: int| 0 <= r < second.len() && open_in(#[trigger] second[r], key);
        let x = second[r];
        assert(second.contains(x));
        assert(second.to_multiset().count(x) > 0);
        assert(first.to_multiset().count(x) > 0);
        assert(first.contains(x));
        let j = choose|j: int| 0 <= j < first.len() && first[j] == x;
        assert(open_in(first[j], key));
    }
}

} // verus!
