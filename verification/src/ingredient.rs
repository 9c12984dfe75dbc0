//! Ingredients of a shopping list: occurrences as recipes state them, the
//! aggregated entries they merge into, and the merge itself.

use vstd::prelude::*;
use crate::quantity::{Quantity, QuantityView};
use crate::units::{UnitConversionTable, UnitInfo};
use crate::text::{same_name, names_match};
use crate::seqs::{first_where, lemma_first_where, lemma_first_where_is, lemma_first_where_none};

verus! {

/// The identity of a recipe.
pub type RecipeId = u64;

/// One mention of an ingredient in a scaled recipe.
#[derive(Clone, Debug, PartialEq, Eq)]
pub struct IngredientOccurrence {
    pub name: String,
    pub quantity: Quantity,
    pub recipe_ref: RecipeId,
}

/// The mathematical value of an [`IngredientOccurrence`].
pub struct OccurrenceView {
    pub name: Seq<char>,
    pub quantity: QuantityView,
    pub recipe_ref: RecipeId,
}

impl View for IngredientOccurrence {
    type V = OccurrenceView;

    open spec fn view(&self) -> OccurrenceView {
        OccurrenceView { name: self.name@, quantity: self.quantity@, recipe_ref: self.recipe_ref }
    }
}

impl DeepView for IngredientOccurrence {
    type V = OccurrenceView;

    open spec fn deep_view(&self) -> OccurrenceView {
        self@
    }
}

/// An ingredient of the list: its name as first seen, one quantity for each
/// group of amounts that could not be added to another, in the order in
/// which the groups arose, and the recipes that ask for it, each once, in
/// the order in which they first did. No two of the quantities are
/// compatible; where one of the amounts was left open, that is all the
/// entry says of the quantity.
#[derive(Clone, Debug, PartialEq, Eq)]
pub struct AggregatedIngredient {
    pub name: String,
    pub quantities: Vec<Quantity>,
    pub sources: Vec<RecipeId>,
}

/// The mathematical value of an [`AggregatedIngredient`].
pub struct AggregatedView {
    pub name: Seq<char>,
    pub quantities: Seq<QuantityView>,
    pub sources: Seq<RecipeId>,
}

impl View for AggregatedIngredient {
    type V = AggregatedView;

    open spec fn view(&self) -> AggregatedView {
        AggregatedView {
            name: self.name@,
            quantities: self.quantities.deep_view(),
            sources: self.sources@,
        }
    }
}

impl DeepView for AggregatedIngredient {
    type V = AggregatedView;

    open spec fn deep_view(&self) -> AggregatedView {
        self@
    }
}

/// The test "can take `q`" on a group.
pub open spec fn takes(q: QuantityView, table: Seq<UnitInfo>) -> spec_fn(QuantityView) -> bool {
    |g: QuantityView| g.compatible(q, table)
}

/// The test "is named `name`, letter case apart" on an entry.
pub open spec fn named(name: Seq<char>) -> spec_fn(AggregatedView) -> bool {
    |e: AggregatedView| same_name(e.name, name)
}

impl AggregatedIngredient {
    /// A copy of the entry.
    pub fn duplicate(&self) -> (r: AggregatedIngredient)
        ensures
            r@ == self@,
    {
        AggregatedIngredient {
            name: self.name.clone(),
            quantities: duplicate_quantities(&self.quantities),
            sources: duplicate_sources(&self.sources),
        }
    }
}

/// The first group that `q` can be merged into.
pub open spec fn first_compatible(groups: Seq<QuantityView>, q: QuantityView, table: Seq<UnitInfo>)
    -> Option<int> {
    first_where(groups, takes(q, table))
}

/// Merges one quantity into the groups of an ingredient. A number is added
/// to the first group it is compatible with, and becomes a new last group
/// where there is none. An amount left open is compatible with every group:
/// it absorbs them all, and one open amount is what is left; into no groups
/// at all it goes as it is. `None` where a sum cannot be stored.
pub open spec fn merge_quantity_spec(
    groups: Seq<QuantityView>,
    q: QuantityView,
    table: Seq<UnitInfo>,
) -> Option<Seq<QuantityView>> {
    if q.is_unspecified() && groups.len() > 0 {
        Some(seq![QuantityView::unspecified()])
    } else {
        match first_compatible(groups, q, table) {
            Some(i) => match groups[i].try_add(q, table) {
                Ok(sum) => Some(groups.update(i, sum)),
                Err(_) => None,
            },
            None => Some(groups.push(q)),
        }
    }
}

/// Merges quantities one after the other, in their order.
pub open spec fn merge_quantities_spec(
    groups: Seq<QuantityView>,
    qs: Seq<QuantityView>,
    table: Seq<UnitInfo>,
) -> Option<Seq<QuantityView>>
    decreases qs.len(),
{
    if qs.len() == 0 {
        Some(groups)
    } else {
        match merge_quantity_spec(groups, qs[0], table) {
            Some(g) => merge_quantities_spec(g, qs.drop_first(), table),
            None => None,
        }
    }
}

/// Adds a recipe to the sources unless it is among them.
pub open spec fn add_source_spec(sources: Seq<RecipeId>, id: RecipeId) -> Seq<RecipeId> {
    if sources.contains(id) {
        sources
    } else {
        sources.push(id)
    }
}

/// Adds recipes to the sources one after the other.
pub open spec fn add_sources_spec(sources: Seq<RecipeId>, more: Seq<RecipeId>) -> Seq<RecipeId>
    decreases more.len(),
{
    if more.len() == 0 {
        sources
    } else {
        add_sources_spec(add_source_spec(sources, more[0]), more.drop_first())
    }
}

/// The entry of the list that has this name, letter case apart.
pub open spec fn find_name(list: Seq<AggregatedView>, name: Seq<char>) -> Option<int> {
    first_where(list, named(name))
}

/// Merges quantities of the ingredient `name`, asked for by `sources`, into
/// the list. They go to the entry of that name, which keeps its spelling and
/// place; where there is none, a new entry at the end takes them. `None`
/// where a sum cannot be stored.
pub open spec fn merge_ingredient_spec(
    list: Seq<AggregatedView>,
    name: Seq<char>,
    qs: Seq<QuantityView>,
    sources: Seq<RecipeId>,
    table: Seq<UnitInfo>,
) -> Option<Seq<AggregatedView>> {
    match find_name(list, name) {
        Some(i) => match merge_quantities_spec(list[i].quantities, qs, table) {
            Some(g) => Some(
                list.update(
                    i,
                    AggregatedView {
                        name: list[i].name,
                        quantities: g,
                        sources: add_sources_spec(list[i].sources, sources),
                    },
                ),
            ),
            None => None,
        },
        None => match merge_quantities_spec(Seq::empty(), qs, table) {
            Some(g) => Some(
                list.push(
                    AggregatedView {
                        name: name,
                        quantities: g,
                        sources: add_sources_spec(Seq::empty(), sources),
                    },
                ),
            ),
            None => None,
        },
    }
}

/// Merges one occurrence into the list.
pub open spec fn merge_occurrence_spec(
    list: Seq<AggregatedView>,
    occ: OccurrenceView,
    table: Seq<UnitInfo>,
) -> Option<Seq<AggregatedView>> {
    merge_ingredient_spec(list, occ.name, seq![occ.quantity], seq![occ.recipe_ref], table)
}

/// Merges the occurrences into the list, one after the other.
pub open spec fn merge_occurrences_spec(
    list: Seq<AggregatedView>,
    occs: Seq<OccurrenceView>,
    table: Seq<UnitInfo>,
) -> Option<Seq<AggregatedView>>
    decreases occs.len(),
{
    if occs.len() == 0 {
        Some(list)
    } else {
        match merge_occurrence_spec(list, occs[0], table) {
            Some(l) => merge_occurrences_spec(l, occs.drop_first(), table),
            None => None,
        }
    }
}

/// The ingredients of one recipe, grouped: one entry for each name, in the
/// order in which the names first appear.
pub open spec fn group_recipe_spec(occs: Seq<OccurrenceView>, table: Seq<UnitInfo>) -> Option<
    Seq<AggregatedView>,
> {
    merge_occurrences_spec(Seq::empty(), occs, table)
}

/// The groups of one ingredient are in order: no two of them are
/// compatible, so none could be merged into another. An amount left open,
/// being compatible with everything, is then the only group.
pub open spec fn groups_wf(groups: Seq<QuantityView>, table: Seq<UnitInfo>) -> bool {
    forall|i: int, j: int|
        0 <= i < j < groups.len() ==> !(#[trigger] groups[i]).compatible(
            #[trigger] groups[j],
            table,
        )
}

/// No recipe occurs twice among the sources.
pub open spec fn sources_wf(sources: Seq<RecipeId>) -> bool {
    sources.no_duplicates()
}

/// The list is in order: every entry's groups and sources are, every entry
/// has a quantity, and no two entries have the same name.
pub open spec fn list_wf(list: Seq<AggregatedView>, table: Seq<UnitInfo>) -> bool {
    &&& forall|i: int|
        0 <= i < list.len() ==> groups_wf((#[trigger] list[i]).quantities, table) && sources_wf(
            list[i].sources,
        )
    &&& forall|i: int, j: int|
        0 <= i < j < list.len() ==> !same_name((#[trigger] list[i]).name, (#[trigger] list[j]).name)
}

/// Merging a quantity keeps the groups in order.
pub proof fn lemma_merge_quantity_wf(groups: Seq<QuantityView>, q: QuantityView, table: Seq<UnitInfo>)
    requires
        groups_wf(groups, table),
    ensures
        merge_quantity_spec(groups, q, table) matches Some(g) ==> groups_wf(g, table),
{
    lemma_first_where(groups, takes(q, table));
    if !(q.is_unspecified() && groups.len() > 0) {
        match first_compatible(groups, q, table) {
            Some(i) => {
                if let Ok(sum) = groups[i].try_add(q, table) {
                    let g = groups.update(i, sum);
                    assert forall|a: int, b: int| 0 <= a < b < g.len() implies !(
                    #[trigger] g[a]).compatible(#[trigger] g[b], table) by {
                        assert(!groups[a].compatible(groups[b], table));
                    }
                }
            },
            None => {
                let g = groups.push(q);
                assert forall|a: int, b: int| 0 <= a < b < g.len() implies !(
                #[trigger] g[a]).compatible(#[trigger] g[b], table) by {
                    if b == groups.len() {
                        assert(!takes(q, table)(groups[a]));
                    } else {
                        assert(!groups[a].compatible(groups[b], table));
                    }
                }
            },
        }
    }
}

/// Merging quantities keeps the groups in order.
pub proof fn lemma_merge_quantities_wf(
    groups: Seq<QuantityView>,
    qs: Seq<QuantityView>,
    table: Seq<UnitInfo>,
)
    requires
        groups_wf(groups, table),
    ensures
        merge_quantities_spec(groups, qs, table) matches Some(g) ==> groups_wf(g, table),
    decreases qs.len(),
{
    if qs.len() > 0 {
        lemma_merge_quantity_wf(groups, qs[0], table);
        if let Some(g) = merge_quantity_spec(groups, qs[0], table) {
            lemma_merge_quantities_wf(g, qs.drop_first(), table);
        }
    }
}

/// Adding sources keeps them free of repetitions, and keeps what was there.
pub proof fn lemma_add_sources_wf(sources: Seq<RecipeId>, more: Seq<RecipeId>)
    requires
        sources_wf(sources),
    ensures
        sources_wf(add_sources_spec(sources, more)),
        forall|id: RecipeId|
            add_sources_spec(sources, more).contains(id) <==> sources.contains(id) || more.contains(
                id,
            ),
    decreases more.len(),
{
    let r = add_sources_spec(sources, more);
    if more.len() > 0 {
        let next = add_source_spec(sources, more[0]);
        let rest = more.drop_first();
        lemma_add_sources_wf(next, rest);
        assert forall|id: RecipeId|
            r.contains(id) <==> sources.contains(id) || more.contains(id) by {
            if more.contains(id) {
                let k = choose|k: int| 0 <= k < more.len() && more[k] == id;
                if k > 0 {
                    assert(rest[k - 1] == id);
                }
            }
            if rest.contains(id) {
                let k = choose|k: int| 0 <= k < rest.len() && rest[k] == id;
                assert(more[k + 1] == id);
            }
            if next.contains(id) && !sources.contains(id) {
                let k = choose|k: int| 0 <= k < next.len() && next[k] == id;
                assert(id == more[0]);
            }
            if sources.contains(id) {
                let k = choose|k: int| 0 <= k < sources.len() && sources[k] == id;
                assert(next[k] == id);
            }
            if id == more[0] && !sources.contains(id) {
                assert(next[sources.len() as int] == id);
            }
        }
    }
}

/// Merging an ingredient keeps the list in order.
pub proof fn lemma_merge_ingredient_wf(
    list: Seq<AggregatedView>,
    name: Seq<char>,
    qs: Seq<QuantityView>,
    sources: Seq<RecipeId>,
    table: Seq<UnitInfo>,
)
    requires
        list_wf(list, table),
    ensures
        merge_ingredient_spec(list, name, qs, sources, table) matches Some(l) ==> list_wf(l, table),
{
    lemma_first_where(list, named(name));
    match find_name(list, name) {
        Some(i) => {
            lemma_merge_quantities_wf(list[i].quantities, qs, table);
            lemma_add_sources_wf(list[i].sources, sources);
        },
        None => {
            lemma_merge_quantities_wf(Seq::empty(), qs, table);
            lemma_add_sources_wf(Seq::empty(), sources);
            if let Some(l) = merge_ingredient_spec(list, name, qs, sources, table) {
                assert forall|a: int, b: int| 0 <= a < b < l.len() implies !same_name(
                    (#[trigger] l[a]).name,
                    (#[trigger] l[b]).name,
                ) by {
                    if b == list.len() {
                        assert(!named(name)(list[a]));
                    }
                }
            }
        },
    }
}

/// Merging occurrences keeps the list in order.
pub proof fn lemma_merge_occurrences_wf(
    list: Seq<AggregatedView>,
    occs: Seq<OccurrenceView>,
    table: Seq<UnitInfo>,
)
    requires
        list_wf(list, table),
    ensures
        merge_occurrences_spec(list, occs, table) matches Some(l) ==> list_wf(l, table),
    decreases occs.len(),
{
    if occs.len() > 0 {
        lemma_merge_ingredient_wf(
            list,
            occs[0].name,
            seq![occs[0].quantity],
            seq![occs[0].recipe_ref],
            table,
        );
        if let Some(l) = merge_occurrence_spec(list, occs[0], table) {
            lemma_merge_occurrences_wf(l, occs.drop_first(), table);
        }
    }
}

/// A copy of a list of quantities.
pub fn duplicate_quantities(qs: &Vec<Quantity>) -> (r: Vec<Quantity>)
    ensures
        r.deep_view() == qs.deep_view(),
{
    let mut r: Vec<Quantity> = Vec::new();
    let mut k: usize = 0;
    while k < qs.len()
        invariant
            k <= qs.len(),
            r.len() == k,
            forall|j: int| 0 <= j < k ==> (#[trigger] r[j])@ == qs[j]@,
        decreases qs.len() - k,
    {
        r.push(qs[k].duplicate());
        k += 1;
    }
    assert(r.deep_view() =~= qs.deep_view());
    r
}

/// A copy of a list of recipe identities.
fn duplicate_sources(ids: &Vec<RecipeId>) -> (r: Vec<RecipeId>)
    ensures
        r@ == ids@,
{
    let mut r: Vec<RecipeId> = Vec::new();
    let mut k: usize = 0;
    while k < ids.len()
        invariant
            k <= ids.len(),
            r@ == ids@.take(k as int),
        decreases ids.len() - k,
    {
        r.push(ids[k]);
        assert(ids@.take(k + 1) =~= ids@.take(k as int).push(ids@[k as int]));
        k += 1;
    }
    assert(ids@.take(ids.len() as int) =~= ids@);
    r
}

/// Merges `q` into the groups of an ingredient. A number is added to the
/// first group it is compatible with, and becomes a new last group where
/// there is none. An amount left open absorbs all groups there are, and one
/// open amount is left. The result is `false`, and the groups stay as they
/// were, where a sum cannot be stored.
pub fn merge_quantity(groups: &mut Vec<Quantity>, q: &Quantity, table: &UnitConversionTable) -> (ok:
    bool)
    ensures
        match merge_quantity_spec(old(groups).deep_view(), q@, table@) {
            Some(g) => ok && final(groups).deep_view() == g,
            None => !ok && final(groups).deep_view() == old(groups).deep_view(),
        },
{
    if q.is_unspecified() && groups.len() > 0 {
        let mut open: Vec<Quantity> = Vec::new();
        open.push(Quantity::unspecified());
        assert(open.deep_view() =~= seq![QuantityView::unspecified()]);
        *groups = open;
        return true;
    }
    let ghost before = groups.deep_view();
    let mut i: usize = 0;
    while i < groups.len()
        invariant
            i <= groups.len(),
            groups.deep_view() == before,
            before == old(groups).deep_view(),
            !(q@.is_unspecified() && before.len() > 0),
            forall|j: int| 0 <= j < i ==> !takes(q@, table@)(#[trigger] before[j]),
        decreases groups.len() - i,
    {
        if groups[i].is_compatible(q, table) {
            proof {
                assert(before[i as int] == groups[i as int]@);
                lemma_first_where_is(before, takes(q@, table@), i as int);
            }
            match groups[i].try_add(q, table) {
                Ok(sum) => {
                    groups[i] = sum;
                    assert(groups.deep_view() =~= before.update(i as int, sum@));
                    return true;
                },
                Err(_) => {
                    return false;
                },
            }
        }
        proof {
            assert(before[i as int] == groups[i as int]@);
        }
        i += 1;
    }
    proof {
        lemma_first_where_none(before, takes(q@, table@));
    }
    groups.push(q.duplicate());
    assert(groups.deep_view() =~= before.push(q@));
    true
}

/// Merges the quantities `qs` into the groups, one after the other. The
/// result is `false`, and the groups stay as they were, where a sum cannot
/// be stored.
pub fn merge_quantities(groups: &mut Vec<Quantity>, qs: &Vec<Quantity>, table: &UnitConversionTable)
    -> (ok: bool)
    ensures
        match merge_quantities_spec(old(groups).deep_view(), qs.deep_view(), table@) {
            Some(g) => ok && final(groups).deep_view() == g,
            None => !ok && final(groups).deep_view() == old(groups).deep_view(),
        },
{
    let ghost before = groups.deep_view();
    let ghost all = qs.deep_view();
    let mut work = duplicate_quantities(groups);
    let mut k: usize = 0;
    assert(all.skip(0) =~= all);
    while k < qs.len()
        invariant
            k <= qs.len(),
            all == qs.deep_view(),
            groups.deep_view() == before,
            before == old(groups).deep_view(),
            merge_quantities_spec(work.deep_view(), all.skip(k as int), table@)
                == merge_quantities_spec(before, all, table@),
        decreases qs.len() - k,
    {
        proof {
            assert(all.skip(k as int)[0] == qs[k as int]@);
            assert(all.skip(k as int).drop_first() =~= all.skip(k + 1));
        }
        if !merge_quantity(&mut work, &qs[k], table) {
            return false;
        }
        k += 1;
    }
    *groups = work;
    true
}

/// Whether `id` is among the sources.
fn has_source(sources: &Vec<RecipeId>, id: RecipeId) -> (r: bool)
    ensures
        r == sources@.contains(id),
{
    let mut k: usize = 0;
    while k < sources.len()
        invariant
            k <= sources.len(),
            forall|j: int| 0 <= j < k ==> sources@[j] != id,
        decreases sources.len() - k,
    {
        if sources[k] == id {
            return true;
        }
        k += 1;
    }
    false
}

/// Adds to the sources each recipe of `more` that is not yet among them.
pub fn add_sources(sources: &mut Vec<RecipeId>, more: &Vec<RecipeId>)
    ensures
        final(sources)@ == add_sources_spec(old(sources)@, more@),
{
    let ghost before = sources@;
    let mut k: usize = 0;
    assert(more@.skip(0) =~= more@);
    while k < more.len()
        invariant
            k <= more.len(),
            add_sources_spec(sources@, more@.skip(k as int)) == add_sources_spec(before, more@),
        decreases more.len() - k,
    {
        proof {
            assert(more@.skip(k as int)[0] == more@[k as int]);
            assert(more@.skip(k as int).drop_first() =~= more@.skip(k + 1));
        }
        if !has_source(sources, more[k]) {
            sources.push(more[k]);
        }
        k += 1;
    }
}

/// The position of the entry named `name`, letter case apart.
pub fn position_of(list: &Vec<AggregatedIngredient>, name: &str) -> (r: Option<usize>)
    ensures
        match (r, find_name(list.deep_view(), name@)) {
            (Some(i), Some(k)) => i == k && k < list.len(),
            (None, None) => true,
            _ => false,
        },
{
    let ghost view = list.deep_view();
    let mut i: usize = 0;
    while i < list.len()
        invariant
            i <= list.len(),
            view == list.deep_view(),
            forall|j: int| 0 <= j < i ==> !named(name@)(#[trigger] view[j]),
        decreases list.len() - i,
    {
        proof {
            assert(view[i as int] == list[i as int]@);
        }
        if names_match(list[i].name.as_str(), name) {
            proof {
                lemma_first_where_is(view, named(name@), i as int);
            }
            return Some(i);
        }
        i += 1;
    }
    proof {
        lemma_first_where_none(view, named(name@));
    }
    None
}

/// Merges quantities of the ingredient `name`, asked for by the recipes
/// `sources`, into the list. They go to the entry of that name, letter case
/// apart, which keeps its spelling and place; where there is none, a new
/// entry at the end takes them. The result is `false`, and the list stays
/// as it was, where a sum cannot be stored.
pub fn merge_ingredient(
    list: &mut Vec<AggregatedIngredient>,
    name: &str,
    qs: &Vec<Quantity>,
    sources: &Vec<RecipeId>,
    table: &UnitConversionTable,
) -> (ok: bool)
    ensures
        match merge_ingredient_spec(
            old(list).deep_view(),
            name@,
            qs.deep_view(),
            sources@,
            table@,
        ) {
            Some(l) => ok && final(list).deep_view() == l,
            None => !ok && final(list).deep_view() == old(list).deep_view(),
        },
{
    let ghost before = list.deep_view();
    match position_of(list, name) {
        Some(i) => {
            proof {
                assert(before[i as int] == list[i as int]@);
            }
            let mut quantities = duplicate_quantities(&list[i].quantities);
            if !merge_quantities(&mut quantities, qs, table) {
                return false;
            }
            let mut merged_sources = duplicate_sources(&list[i].sources);
            add_sources(&mut merged_sources, sources);
            let entry = AggregatedIngredient {
                name: list[i].name.clone(),
                quantities,
                sources: merged_sources,
            };
            list[i] = entry;
            assert(list.deep_view() =~= before.update(i as int, entry@));
            true
        },
        None => {
            let mut quantities: Vec<Quantity> = Vec::new();
            assert(quantities.deep_view() =~= Seq::<QuantityView>::empty());
            if !merge_quantities(&mut quantities, qs, table) {
                return false;
            }
            let mut merged_sources: Vec<RecipeId> = Vec::new();
            add_sources(&mut merged_sources, sources);
            let entry = AggregatedIngredient {
                name: name.to_owned(),
                quantities,
                sources: merged_sources,
            };
            list.push(entry);
            assert(list.deep_view() =~= before.push(entry@));
            true
        },
    }
}

/// Merges one occurrence into the list.
pub fn merge_occurrence(
    list: &mut Vec<AggregatedIngredient>,
    occ: &IngredientOccurrence,
    table: &UnitConversionTable,
) -> (ok: bool)
    ensures
        match merge_occurrence_spec(old(list).deep_view(), occ@, table@) {
            Some(l) => ok && final(list).deep_view() == l,
            None => !ok && final(list).deep_view() == old(list).deep_view(),
        },
{
    let mut qs: Vec<Quantity> = Vec::new();
    qs.push(occ.quantity.duplicate());
    let mut ids: Vec<RecipeId> = Vec::new();
    ids.push(occ.recipe_ref);
    assert(qs.deep_view() =~= seq![occ@.quantity]);
    assert(ids@ =~= seq![occ@.recipe_ref]);
    merge_ingredient(list, occ.name.as_str(), &qs, &ids, table)
}

/// Groups the ingredients of one scaled recipe: one entry for each name,
/// letter case apart, in the order in which the names first appear; in each
/// entry the quantities that add up are added, the others stand side by
/// side. `None` where a sum cannot be stored.
pub fn group_recipe(occs: &Vec<IngredientOccurrence>, table: &UnitConversionTable) -> (r: Option<
    Vec<AggregatedIngredient>,
>)
    ensures
        match (r, group_recipe_spec(occs.deep_view(), table@)) {
            (Some(l), Some(m)) => l.deep_view() == m && list_wf(m, table@),
            (None, None) => true,
            _ => false,
        },
{
    let ghost all = occs.deep_view();
    let mut list: Vec<AggregatedIngredient> = Vec::new();
    assert(list.deep_view() =~= Seq::<AggregatedView>::empty());
    let mut k: usize = 0;
    assert(all.skip(0) =~= all);
    while k < occs.len()
        invariant
            k <= occs.len(),
            all == occs.deep_view(),
            merge_occurrences_spec(list.deep_view(), all.skip(k as int), table@)
                == group_recipe_spec(all, table@),
        decreases occs.len() - k,
    {
        proof {
            assert(all.skip(k as int)[0] == occs[k as int]@);
            assert(all.skip(k as int).drop_first() =~= all.skip(k + 1));
        }
        if !merge_occurrence(&mut list, &occs[k], table) {
            return None;
        }
        k += 1;
    }
    proof {
        lemma_merge_occurrences_wf(Seq::empty(), all, table@);
    }
    Some(list)
}

} // verus!
