//! What aggregation makes of a recipe that is given twice.

use vstd::prelude::*;
use crate::units::UnitInfo;
use crate::quantity::QuantityView;
use crate::seqs::{lemma_first_where_is, lemma_first_where_none};
use crate::text::same_name;
use crate::ingredient::{AggregatedView, OccurrenceView, RecipeId, takes, named,
    merge_quantities_spec, add_sources_spec, group_recipe_spec, groups_wf, sources_wf, list_wf,
    lemma_merge_occurrences_wf};
use crate::aggregate::{merge_grouped_spec, aggregate_from, aggregate_spec};
use crate::laws::{number_in, law_plus_self_is_twice};

verus! {

/// A quantity added to itself: a number doubles in its unit, an amount left
/// open stays open.
pub open spec fn double(q: QuantityView) -> QuantityView {
    if q.is_unspecified() {
        QuantityView::unspecified()
    } else {
        number_in(q.amount().plus(q.amount()), q.unit)
    }
}

/// The double of the quantity can be stored.
pub open spec fn double_fits(q: QuantityView) -> bool {
    q.is_unspecified() || q.amount().plus(q.amount()).fits()
}

/// The groups, the first `j` of them doubled.
pub open spec fn doubled_upto(groups: Seq<QuantityView>, j: int) -> Seq<QuantityView> {
    Seq::new(
        groups.len(),
        |i: int|
            if i < j {
                double(groups[i])
            } else {
                groups[i]
            },
    )
}

/// Every group doubled.
pub open spec fn doubled_groups(groups: Seq<QuantityView>) -> Seq<QuantityView> {
    doubled_upto(groups, groups.len() as int)
}

/// The double of every group from the `j`-th on can be stored.
pub open spec fn doubles_fit_from(groups: Seq<QuantityView>, j: int) -> bool {
    forall|i: int| j <= i < groups.len() ==> double_fits(#[trigger] groups[i])
}

/// The entry with every group doubled.
pub open spec fn doubled_entry(e: AggregatedView) -> AggregatedView {
    AggregatedView { name: e.name, quantities: doubled_groups(e.quantities), sources: e.sources }
}

/// The list, the first `k` of its entries doubled.
pub open spec fn doubled_list_upto(list: Seq<AggregatedView>, k: int) -> Seq<AggregatedView> {
    Seq::new(
        list.len(),
        |i: int|
            if i < k {
                doubled_entry(list[i])
            } else {
                list[i]
            },
    )
}

/// The list with every group of every entry doubled.
pub open spec fn doubled_list(list: Seq<AggregatedView>) -> Seq<AggregatedView> {
    doubled_list_upto(list, list.len() as int)
}

/// The double of every group of every entry from the `k`-th on can be
/// stored.
pub open spec fn list_doubles_fit_from(list: Seq<AggregatedView>, k: int) -> bool {
    forall|i: int| k <= i < list.len() ==> doubles_fit_from((#[trigger] list[i]).quantities, 0)
}

/// Groups in order, merged one by one, stay as they are.
proof fn lemma_merge_own_groups(groups: Seq<QuantityView>, j: int, table: Seq<UnitInfo>)
    requires
        groups_wf(groups, table),
        0 <= j <= groups.len(),
    ensures
        merge_quantities_spec(groups.take(j), groups.skip(j), table) == Some(groups),
    decreases groups.len() - j,
{
    if j == groups.len() {
        assert(groups.take(j) =~= groups);
    } else {
        let cur = groups.take(j);
        let q = groups[j];
        assert(groups.skip(j)[0] == q);
        if j > 0 {
            assert(!groups[0].compatible(groups[j], table));
        }
        assert forall|i: int| 0 <= i < cur.len() implies !takes(q, table)(#[trigger] cur[i]) by {
            assert(cur[i] == groups[i]);
            assert(!groups[i].compatible(groups[j], table));
        }
        lemma_first_where_none(cur, takes(q, table));
        assert(cur.push(q) =~= groups.take(j + 1));
        assert(groups.skip(j).drop_first() =~= groups.skip(j + 1));
        lemma_merge_own_groups(groups, j + 1, table);
    }
}

/// Sources without repetition, added one by one, stay as they are.
proof fn lemma_add_own_sources(sources: Seq<RecipeId>, j: int)
    requires
        sources_wf(sources),
        0 <= j <= sources.len(),
    ensures
        add_sources_spec(sources.take(j), sources.skip(j)) == sources,
    decreases sources.len() - j,
{
    if j == sources.len() {
        assert(sources.take(j) =~= sources);
    } else {
        let cur = sources.take(j);
        assert(sources.skip(j)[0] == sources[j]);
        if cur.contains(sources[j]) {
            let i = choose|i: int| 0 <= i < cur.len() && cur[i] == sources[j];
            assert(sources[i] == sources[j]);
        }
        assert(cur.push(sources[j]) =~= sources.take(j + 1));
        assert(sources.skip(j).drop_first() =~= sources.skip(j + 1));
        lemma_add_own_sources(sources, j + 1);
    }
}

/// Sources that are all present already add nothing.
proof fn lemma_add_present_sources(sources: Seq<RecipeId>, more: Seq<RecipeId>)
    requires
        forall|i: int| 0 <= i < more.len() ==> sources.contains(#[trigger] more[i]),
    ensures
        add_sources_spec(sources, more) == sources,
    decreases more.len(),
{
    if more.len() > 0 {
        assert(sources.contains(more[0]));
        assert forall|i: int| 0 <= i < more.drop_first().len() implies sources.contains(
            #[trigger] more.drop_first()[i],
        ) by {
            assert(more.drop_first()[i] == more[i + 1]);
        }
        lemma_add_present_sources(sources, more.drop_first());
    }
}

/// A list in order, merged entry by entry, stays as it is.
proof fn lemma_merge_own_list(list: Seq<AggregatedView>, k: int, table: Seq<UnitInfo>)
    requires
        list_wf(list, table),
        0 <= k <= list.len(),
    ensures
        merge_grouped_spec(list.take(k), list.skip(k), table) == Some(list),
    decreases list.len() - k,
{
    if k == list.len() {
        assert(list.take(k) =~= list);
    } else {
        let cur = list.take(k);
        let e = list[k];
        assert(list.skip(k)[0] == e);
        assert forall|i: int| 0 <= i < cur.len() implies !named(e.name)(#[trigger] cur[i]) by {
            assert(cur[i] == list[i]);
            assert(!same_name(list[i].name, list[k].name));
        }
        lemma_first_where_none(cur, named(e.name));
        lemma_merge_own_groups(e.quantities, 0, table);
        assert(e.quantities.take(0) =~= Seq::<QuantityView>::empty());
        assert(e.quantities.skip(0) =~= e.quantities);
        lemma_add_own_sources(e.sources, 0);
        assert(e.sources.take(0) =~= Seq::<RecipeId>::empty());
        assert(e.sources.skip(0) =~= e.sources);
        assert(cur.push(e) =~= list.take(k + 1));
        assert(list.skip(k).drop_first() =~= list.skip(k + 1));
        lemma_merge_own_list(list, k + 1, table);
    }
}

/// Groups in order, merged into themselves, double one by one.
proof fn lemma_double_groups(groups: Seq<QuantityView>, j: int, table: Seq<UnitInfo>)
    requires
        groups_wf(groups, table),
        0 <= j <= groups.len(),
    ensures
        merge_quantities_spec(doubled_upto(groups, j), groups.skip(j), table) == if doubles_fit_from(
            groups,
            j,
        ) {
            Some(doubled_groups(groups))
        } else {
            None
        },
    decreases groups.len() - j,
{
    if j < groups.len() {
        let cur = doubled_upto(groups, j);
        let q = groups[j];
        assert(groups.skip(j)[0] == q);
        assert(groups.skip(j).drop_first() =~= groups.skip(j + 1));
        assert(cur[j] == q);
        if j > 0 {
            assert(!groups[0].compatible(groups[j], table));
        }
        if j + 1 < groups.len() {
            assert(!groups[j].compatible(groups[j + 1], table));
        }
        if q.is_unspecified() {
            assert(seq![QuantityView::unspecified()] =~= doubled_upto(groups, j + 1));
            lemma_double_groups(groups, j + 1, table);
            assert(doubles_fit_from(groups, j) == doubles_fit_from(groups, j + 1));
        } else {
            assert(takes(q, table)(cur[j]));
            assert forall|i: int| 0 <= i < j implies !takes(q, table)(#[trigger] cur[i]) by {
                assert(cur[i] == double(groups[i]));
                assert(!groups[i].compatible(groups[j], table));
            }
            lemma_first_where_is(cur, takes(q, table), j);
            if double_fits(q) {
                assert(cur.update(j, double(q)) =~= doubled_upto(groups, j + 1));
                lemma_double_groups(groups, j + 1, table);
                assert(doubles_fit_from(groups, j) == doubles_fit_from(groups, j + 1));
            } else {
                assert(!doubles_fit_from(groups, j));
            }
        }
    }
}

/// A list in order, merged into itself, doubles entry by entry.
proof fn lemma_double_list(list: Seq<AggregatedView>, k: int, table: Seq<UnitInfo>)
    requires
        list_wf(list, table),
        0 <= k <= list.len(),
    ensures
        merge_grouped_spec(doubled_list_upto(list, k), list.skip(k), table) == if list_doubles_fit_from(
            list,
            k,
        ) {
            Some(doubled_list(list))
        } else {
            None
        },
    decreases list.len() - k,
{
    if k < list.len() {
        let cur = doubled_list_upto(list, k);
        let e = list[k];
        assert(list.skip(k)[0] == e);
        assert(cur[k] == e);
        assert(named(e.name)(cur[k]));
        assert forall|i: int| 0 <= i < k implies !named(e.name)(#[trigger] cur[i]) by {
            assert(cur[i] == doubled_entry(list[i]));
            assert(!same_name(list[i].name, list[k].name));
        }
        lemma_first_where_is(cur, named(e.name), k);
        lemma_double_groups(e.quantities, 0, table);
        assert(doubled_upto(e.quantities, 0) =~= e.quantities);
        assert(e.quantities.skip(0) =~= e.quantities);
        lemma_add_present_sources(e.sources, e.sources);
        assert(list.skip(k).drop_first() =~= list.skip(k + 1));
        if doubles_fit_from(e.quantities, 0) {
            assert(cur.update(k, doubled_entry(e)) =~= doubled_list_upto(list, k + 1));
            lemma_double_list(list, k + 1, table);
            assert(list_doubles_fit_from(list, k) == list_doubles_fit_from(list, k + 1));
        } else {
            assert(!list_doubles_fit_from(list, k));
        }
    }
}

/// A recipe aggregates, alone, to its own grouping.
pub proof fn law_single_recipe_is_its_grouping(recipe: Seq<OccurrenceView>, table: Seq<UnitInfo>)
    ensures
        aggregate_spec(seq![recipe], table) == group_recipe_spec(recipe, table),
{
    reveal_with_fuel(aggregate_from, 3);
    let recipes = seq![recipe];
    assert(recipes[0] == recipe);
    assert(recipes.drop_first() =~= Seq::<Seq<OccurrenceView>>::empty());
    if let Some(grouped) = group_recipe_spec(recipe, table) {
        lemma_merge_occurrences_wf(Seq::empty(), recipe, table);
        lemma_merge_own_list(grouped, 0, table);
        assert(grouped.take(0) =~= Seq::<AggregatedView>::empty());
        assert(grouped.skip(0) =~= grouped);
    }
}

/// Aggregating a recipe twice doubles what aggregating it once gives: the
/// same entries with the same names, groups, units and sources, the recipe
/// counted once among the sources, every number added to itself and every
/// amount left open still open. Where a double cannot be stored, the
/// aggregation gives no list.
pub proof fn law_recipe_twice_doubles(recipe: Seq<OccurrenceView>, table: Seq<UnitInfo>)
    ensures
        aggregate_spec(seq![recipe, recipe], table) == match aggregate_spec(seq![recipe], table) {
            Some(once) => if list_doubles_fit_from(once, 0) {
                Some(doubled_list(once))
            } else {
                None
            },
            None => None,
        },
{
    law_single_recipe_is_its_grouping(recipe, table);
    reveal_with_fuel(aggregate_from, 4);
    let recipes = seq![recipe, recipe];
    assert(recipes[0] == recipe);
    assert(recipes.drop_first() =~= seq![recipe]);
    assert(seq![recipe].drop_first() =~= Seq::<Seq<OccurrenceView>>::empty());
    assert(seq![recipe][0] == recipe);
    if let Some(grouped) = group_recipe_spec(recipe, table) {
        lemma_merge_occurrences_wf(Seq::empty(), recipe, table);
        lemma_merge_own_list(grouped, 0, table);
        assert(grouped.take(0) =~= Seq::<AggregatedView>::empty());
        assert(grouped.skip(0) =~= grouped);
        lemma_double_list(grouped, 0, table);
        assert(doubled_list_upto(grouped, 0) =~= grouped);
    }
}

/// The same law, entry by entry and group by group. Where the list of a
/// recipe and the list of the recipe given twice can both be stored, the
/// second has the entries of the first, under the same names, in the same
/// order, with the same sources and as many groups; every group has the
/// unit of its counterpart, and twice its value: `num / den` in the first
/// list is `num2 / den2` in the second with `num2 * den == 2 * num * den2`.
/// An amount left open is left open in both.
pub proof fn law_recipe_twice_is_twice(
    recipe: Seq<OccurrenceView>,
    table: Seq<UnitInfo>,
    i: int,
    j: int,
)
    requires
        aggregate_spec(seq![recipe], table) is Some,
        aggregate_spec(seq![recipe, recipe], table) is Some,
        0 <= i < aggregate_spec(seq![recipe], table)->0.len(),
        0 <= j < aggregate_spec(seq![recipe], table)->0[i].quantities.len(),
        aggregate_spec(seq![recipe], table)->0[i].quantities[j].amount().den > 0,
    ensures
        ({
            let once = aggregate_spec(seq![recipe], table)->0;
            let twice = aggregate_spec(seq![recipe, recipe], table)->0;
            let a = once[i].quantities[j];
            let b = twice[i].quantities[j];
            &&& twice.len() == once.len()
            &&& twice[i].name == once[i].name
            &&& twice[i].sources == once[i].sources
            &&& twice[i].quantities.len() == once[i].quantities.len()
            &&& b.is_unspecified() == a.is_unspecified()
            &&& !a.is_unspecified() ==> b.unit == a.unit && b.amount().num * a.amount().den == 2
                * a.amount().num * b.amount().den
        }),
{
    law_recipe_twice_doubles(recipe, table);
    let once = aggregate_spec(seq![recipe], table)->0;
    law_plus_self_is_twice(once[i].quantities[j].amount());
}

} // verus!
