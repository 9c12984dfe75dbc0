//! Aggregation across recipes: the grouped ingredients of each recipe are
//! merged, recipe after recipe, into one list.

use vstd::prelude::*;
use crate::units::{UnitConversionTable, UnitInfo};
use crate::ingredient::{AggregatedIngredient, AggregatedView, IngredientOccurrence, OccurrenceView,
    merge_ingredient_spec, merge_ingredient, group_recipe_spec, group_recipe, list_wf,
    lemma_merge_ingredient_wf};

verus! {

/// Merges the entries of one grouped recipe into the running list, one
/// after the other.
pub open spec fn merge_grouped_spec(
    running: Seq<AggregatedView>,
    grouped: Seq<AggregatedView>,
    table: Seq<UnitInfo>,
) -> Option<Seq<AggregatedView>>
    decreases grouped.len(),
{
    if grouped.len() == 0 {
        Some(running)
    } else {
        match merge_ingredient_spec(
            running,
            grouped[0].name,
            grouped[0].quantities,
            grouped[0].sources,
            table,
        ) {
            Some(l) => merge_grouped_spec(l, grouped.drop_first(), table),
            None => None,
        }
    }
}

/// Groups one recipe and merges it into the running list.
pub open spec fn merge_recipe_spec(
    running: Seq<AggregatedView>,
    recipe: Seq<OccurrenceView>,
    table: Seq<UnitInfo>,
) -> Option<Seq<AggregatedView>> {
    match group_recipe_spec(recipe, table) {
        Some(grouped) => merge_grouped_spec(running, grouped, table),
        None => None,
    }
}

/// Merges the recipes into the running list, in their order.
pub open spec fn aggregate_from(
    running: Seq<AggregatedView>,
    recipes: Seq<Seq<OccurrenceView>>,
    table: Seq<UnitInfo>,
) -> Option<Seq<AggregatedView>>
    decreases recipes.len(),
{
    if recipes.len() == 0 {
        Some(running)
    } else {
        match merge_recipe_spec(running, recipes[0], table) {
            Some(l) => aggregate_from(l, recipes.drop_first(), table),
            None => None,
        }
    }
}

/// The aggregated ingredients of the recipes: `None` where a sum cannot be
/// stored.
pub open spec fn aggregate_spec(recipes: Seq<Seq<OccurrenceView>>, table: Seq<UnitInfo>) -> Option<
    Seq<AggregatedView>,
> {
    aggregate_from(Seq::empty(), recipes, table)
}

/// Merging a grouped recipe keeps the list in order.
pub proof fn lemma_merge_grouped_wf(
    running: Seq<AggregatedView>,
    grouped: Seq<AggregatedView>,
    table: Seq<UnitInfo>,
)
    requires
        list_wf(running, table),
    ensures
        merge_grouped_spec(running, grouped, table) matches Some(l) ==> list_wf(l, table),
    decreases grouped.len(),
{
    if grouped.len() > 0 {
        lemma_merge_ingredient_wf(
            running,
            grouped[0].name,
            grouped[0].quantities,
            grouped[0].sources,
            table,
        );
        if let Some(l) = merge_ingredient_spec(
            running,
            grouped[0].name,
            grouped[0].quantities,
            grouped[0].sources,
            table,
        ) {
            lemma_merge_grouped_wf(l, grouped.drop_first(), table);
        }
    }
}

/// Aggregation keeps the list in order.
pub proof fn lemma_aggregate_wf(
    running: Seq<AggregatedView>,
    recipes: Seq<Seq<OccurrenceView>>,
    table: Seq<UnitInfo>,
)
    requires
        list_wf(running, table),
    ensures
        aggregate_from(running, recipes, table) matches Some(l) ==> list_wf(l, table),
    decreases recipes.len(),
{
    if recipes.len() > 0 {
        if let Some(grouped) = group_recipe_spec(recipes[0], table) {
            lemma_merge_grouped_wf(running, grouped, table);
            if let Some(l) = merge_grouped_spec(running, grouped, table) {
                lemma_aggregate_wf(l, recipes.drop_first(), table);
            }
        }
    }
}

/// Merges the entries of a grouped recipe into the running list. The
/// result is `false`, and the list stays as it was, where a sum cannot be
/// stored.
pub fn merge_grouped(
    running: &mut Vec<AggregatedIngredient>,
    grouped: &Vec<AggregatedIngredient>,
    table: &UnitConversionTable,
) -> (ok: bool)
    ensures
        match merge_grouped_spec(old(running).deep_view(), grouped.deep_view(), table@) {
            Some(l) => ok && final(running).deep_view() == l,
            None => !ok && final(running).deep_view() == old(running).deep_view(),
        },
{
    let ghost before = running.deep_view();
    let ghost all = grouped.deep_view();
    let mut work = copy_list(running);
    let mut k: usize = 0;
    assert(all.skip(0) =~= all);
    while k < grouped.len()
        invariant
            k <= grouped.len(),
            all == grouped.deep_view(),
            running.deep_view() == before,
            before == old(running).deep_view(),
            merge_grouped_spec(work.deep_view(), all.skip(k as int), table@) == merge_grouped_spec(
                before,
                all,
                table@,
            ),
        decreases grouped.len() - k,
    {
        proof {
            assert(all.skip(k as int)[0] == grouped[k as int]@);
            assert(all.skip(k as int).drop_first() =~= all.skip(k + 1));
        }
        let entry = &grouped[k];
        if !merge_ingredient(
            &mut work,
            entry.name.as_str(),
            &entry.quantities,
            &entry.sources,
            table,
        ) {
            return false;
        }
        k += 1;
    }
    *running = work;
    true
}

/// A copy of a list of entries.
pub fn copy_list(list: &Vec<AggregatedIngredient>) -> (r: Vec<AggregatedIngredient>)
    ensures
        r.deep_view() == list.deep_view(),
{
    let mut r: Vec<AggregatedIngredient> = Vec::new();
    let mut k: usize = 0;
    while k < list.len()
        invariant
            k <= list.len(),
            r.len() == k,
            forall|j: int| 0 <= j < k ==> (#[trigger] r[j])@ == list[j]@,
        decreases list.len() - k,
    {
        r.push(list[k].duplicate());
        k += 1;
    }
    assert(r.deep_view() =~= list.deep_view());
    r
}

/// Aggregates the ingredients of the recipes, each given as the list of its
/// occurrences. Every recipe is grouped by itself; the grouped entries are
/// then merged into one list, recipe after recipe and entry after entry, by
/// the rule that groups a recipe. The entries stand in the order in which
/// their names first appear. `None` where a sum cannot be stored.
pub fn aggregate(recipes: &Vec<Vec<IngredientOccurrence>>, table: &UnitConversionTable) -> (r:
    Option<Vec<AggregatedIngredient>>)
    ensures
        match (r, aggregate_spec(recipes.deep_view(), table@)) {
            (Some(l), Some(m)) => l.deep_view() == m && list_wf(m, table@),
            (None, None) => true,
            _ => false,
        },
{
    let ghost all = recipes.deep_view();
    let mut running: Vec<AggregatedIngredient> = Vec::new();
    assert(running.deep_view() =~= Seq::<AggregatedView>::empty());
    let mut k: usize = 0;
    assert(all.skip(0) =~= all);
    while k < recipes.len()
        invariant
            k <= recipes.len(),
            all == recipes.deep_view(),
            aggregate_from(running.deep_view(), all.skip(k as int), table@) == aggregate_spec(
                all,
                table@,
            ),
        decreases recipes.len() - k,
    {
        proof {
            assert(all.skip(k as int)[0] == recipes[k as int].deep_view());
            assert(all.skip(k as int).drop_first() =~= all.skip(k + 1));
        }
        match group_recipe(&recipes[k], table) {
            Some(grouped) => {
                if !merge_grouped(&mut running, &grouped, table) {
                    return None;
                }
            },
            None => {
                return None;
            },
        }
        k += 1;
    }
    proof {
        lemma_aggregate_wf(Seq::empty(), all, table@);
    }
    Some(running)
}

} // verus!
