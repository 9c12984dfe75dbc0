//! The shopping list: the aggregated ingredients, sorted into the
//! categories of the store.

use vstd::prelude::*;
use crate::aisle::{AisleMapping, AisleRuleView, categorize_spec};
use crate::ingredient::{AggregatedIngredient, AggregatedView, IngredientOccurrence, OccurrenceView};
use crate::aggregate::{aggregate, aggregate_spec};
use crate::units::{UnitConversionTable, UnitInfo};

verus! {

/// A category of the store with the ingredients found there.
#[derive(Clone, Debug, PartialEq, Eq)]
pub struct Category {
    pub name: String,
    pub ingredients: Vec<AggregatedIngredient>,
}

/// The mathematical value of a [`Category`].
pub struct CategoryView {
    pub name: Seq<char>,
    pub ingredients: Seq<AggregatedView>,
}

impl View for Category {
    type V = CategoryView;

    open spec fn view(&self) -> CategoryView {
        CategoryView { name: self.name@, ingredients: self.ingredients.deep_view() }
    }
}

impl DeepView for Category {
    type V = CategoryView;

    open spec fn deep_view(&self) -> CategoryView {
        self@
    }
}

/// The shopping list: its categories in order, the last of them the one for
/// ingredients that no rule places.
#[derive(Clone, Debug, PartialEq, Eq)]
pub struct ShoppingList {
    pub categories: Vec<Category>,
}

impl View for ShoppingList {
    type V = Seq<CategoryView>;

    open spec fn view(&self) -> Seq<CategoryView> {
        self.categories.deep_view()
    }
}

/// The name of the category for ingredients that no rule places.
pub open spec fn uncategorized() -> Seq<char> {
    "uncategorized"@
}

/// The rules of an optional mapping.
pub open spec fn rules_of(mapping: Option<&AisleMapping>) -> Option<Seq<AisleRuleView>> {
    match mapping {
        Some(m) => Some(m@),
        None => None,
    }
}

/// The category an ingredient name is placed in: that of the first rule
/// that matches it; the uncategorized one where no rule matches or there is
/// no mapping.
pub open spec fn label_of(rules: Option<Seq<AisleRuleView>>, name: Seq<char>) -> Seq<char> {
    match rules {
        Some(r) => match categorize_spec(r, name) {
            Some(c) => c,
            None => uncategorized(),
        },
        None => uncategorized(),
    }
}

/// The category of each ingredient of the list.
pub open spec fn labels_of(items: Seq<AggregatedView>, rules: Option<Seq<AisleRuleView>>) -> Seq<
    Seq<char>,
> {
    Seq::new(items.len(), |i: int| label_of(rules, items[i].name))
}

/// The categories that occur among the labels, the uncategorized one left
/// out, each once, in the order in which they first occur.
pub open spec fn named_labels(labels: Seq<Seq<char>>) -> Seq<Seq<char>>
    decreases labels.len(),
{
    if labels.len() == 0 {
        Seq::empty()
    } else {
        let before = named_labels(labels.drop_last());
        if labels.last() == uncategorized() || before.contains(labels.last()) {
            before
        } else {
            before.push(labels.last())
        }
    }
}

/// The ingredients labelled `category`, in their order.
pub open spec fn select(items: Seq<AggregatedView>, labels: Seq<Seq<char>>, category: Seq<char>)
    -> Seq<AggregatedView>
    decreases items.len(),
{
    if items.len() == 0 || labels.len() != items.len() {
        Seq::empty()
    } else {
        let before = select(items.drop_last(), labels.drop_last(), category);
        if labels.last() == category {
            before.push(items.last())
        } else {
            before
        }
    }
}

/// The category `name` with the ingredients that are placed in it.
pub open spec fn category_of(
    items: Seq<AggregatedView>,
    labels: Seq<Seq<char>>,
    name: Seq<char>,
) -> CategoryView {
    CategoryView { name: name, ingredients: select(items, labels, name) }
}

/// The shopping list of the aggregated ingredients `items`. The categories
/// that rules place an ingredient in come first, in the order in which each
/// first receives one; the uncategorized one stands last, whenever its
/// ingredients appeared and even when it has none. Inside a category the
/// ingredients keep their order.
pub open spec fn assemble_spec(items: Seq<AggregatedView>, rules: Option<Seq<AisleRuleView>>)
    -> Seq<CategoryView> {
    let labels = labels_of(items, rules);
    let names = named_labels(labels);
    Seq::new(
        names.len() + 1,
        |i: int|
            if i < names.len() {
                category_of(items, labels, names[i])
            } else {
                category_of(items, labels, uncategorized())
            },
    )
}

/// The name of the uncategorized category.
pub fn uncategorized_name() -> (s: String)
    ensures
        s@ == uncategorized(),
{
    "uncategorized".to_owned()
}

/// Whether `text` is among `list`.
fn has_text(list: &Vec<String>, text: &String) -> (r: bool)
    ensures
        r == list.deep_view().contains(text@),
{
    let mut k: usize = 0;
    while k < list.len()
        invariant
            k <= list.len(),
            forall|j: int| 0 <= j < k ==> list.deep_view()[j] != text@,
        decreases list.len() - k,
    {
        assert(list.deep_view()[k as int] == list[k as int]@);
        if list[k] == *text {
            return true;
        }
        k += 1;
    }
    false
}

/// The category of each ingredient.
fn label_items(items: &Vec<AggregatedIngredient>, mapping: Option<&AisleMapping>) -> (labels: Vec<
    String,
>)
    ensures
        labels.deep_view() == labels_of(items.deep_view(), rules_of(mapping)),
{
    let mut labels: Vec<String> = Vec::new();
    let mut k: usize = 0;
    while k < items.len()
        invariant
            k <= items.len(),
            labels.len() == k,
            forall|j: int|
                0 <= j < k ==> (#[trigger] labels[j])@ == label_of(rules_of(mapping), items[j]@.name),
        decreases items.len() - k,
    {
        let label = match mapping {
            Some(m) => match m.categorize(items[k].name.as_str()) {
                Some(c) => c,
                None => uncategorized_name(),
            },
            None => uncategorized_name(),
        };
        labels.push(label);
        k += 1;
    }
    assert(labels.deep_view() =~= labels_of(items.deep_view(), rules_of(mapping)));
    labels
}

/// The categories among the labels, each once, in order of first
/// occurrence, without the uncategorized one.
fn distinct_labels(labels: &Vec<String>) -> (names: Vec<String>)
    ensures
        names.deep_view() == named_labels(labels.deep_view()),
{
    let ghost all = labels.deep_view();
    let unplaced = uncategorized_name();
    let mut names: Vec<String> = Vec::new();
    let mut k: usize = 0;
    assert(names.deep_view() =~= named_labels(all.take(0)));
    while k < labels.len()
        invariant
            k <= labels.len(),
            all == labels.deep_view(),
            unplaced@ == uncategorized(),
            names.deep_view() == named_labels(all.take(k as int)),
        decreases labels.len() - k,
    {
        let ghost before = names.deep_view();
        proof {
            assert(all.take(k + 1).drop_last() =~= all.take(k as int));
            assert(all.take(k + 1).last() == labels[k as int]@);
        }
        if !(labels[k] == unplaced) && !has_text(&names, &labels[k]) {
            names.push(labels[k].clone());
            assert(names.deep_view() =~= before.push(labels[k as int]@));
        }
        k += 1;
    }
    assert(all.take(labels.len() as int) =~= all);
    names
}

/// The ingredients labelled `category`, in their order.
fn select_items(items: &Vec<AggregatedIngredient>, labels: &Vec<String>, category: &String) -> (r:
    Vec<AggregatedIngredient>)
    requires
        labels.len() == items.len(),
    ensures
        r.deep_view() == select(items.deep_view(), labels.deep_view(), category@),
{
    let ghost all = items.deep_view();
    let ghost marks = labels.deep_view();
    let mut r: Vec<AggregatedIngredient> = Vec::new();
    let mut k: usize = 0;
    assert(r.deep_view() =~= select(all.take(0), marks.take(0), category@));
    while k < items.len()
        invariant
            k <= items.len(),
            labels.len() == items.len(),
            all == items.deep_view(),
            marks == labels.deep_view(),
            r.deep_view() == select(all.take(k as int), marks.take(k as int), category@),
        decreases items.len() - k,
    {
        let ghost before = r.deep_view();
        proof {
            assert(all.take(k + 1).drop_last() =~= all.take(k as int));
            assert(marks.take(k + 1).drop_last() =~= marks.take(k as int));
            assert(all.take(k + 1).last() == items[k as int]@);
            assert(marks.take(k + 1).last() == labels[k as int]@);
        }
        if labels[k] == *category {
            r.push(items[k].duplicate());
            assert(r.deep_view() =~= before.push(items[k as int]@));
        }
        k += 1;
    }
    assert(all.take(items.len() as int) =~= all);
    assert(marks.take(items.len() as int) =~= marks);
    r
}

/// Sorts the aggregated ingredients into categories. Each ingredient goes
/// to the category of the first rule of `mapping` that matches its name, and
/// to the uncategorized one where no rule matches or there is no mapping.
/// The categories stand in the order in which each first receives an
/// ingredient, the uncategorized one always last; inside a category the
/// ingredients keep their order.
pub fn assemble(items: &Vec<AggregatedIngredient>, mapping: Option<&AisleMapping>) -> (list:
    ShoppingList)
    ensures
        list@ == assemble_spec(items.deep_view(), rules_of(mapping)),
{
    let labels = label_items(items, mapping);
    let names = distinct_labels(&labels);
    let ghost all = items.deep_view();
    let ghost marks = labels.deep_view();
    let ghost wanted = assemble_spec(all, rules_of(mapping));
    let mut categories: Vec<Category> = Vec::new();
    let mut k: usize = 0;
    while k < names.len()
        invariant
            k <= names.len(),
            labels.len() == items.len(),
            all == items.deep_view(),
            marks == labels.deep_view(),
            marks == labels_of(all, rules_of(mapping)),
            names.deep_view() == named_labels(marks),
            wanted == assemble_spec(all, rules_of(mapping)),
            categories.len() == k,
            forall|j: int| 0 <= j < k ==> (#[trigger] categories[j])@ == wanted[j],
        decreases names.len() - k,
    {
        assert(names.deep_view()[k as int] == names[k as int]@);
        let ingredients = select_items(items, &labels, &names[k]);
        categories.push(Category { name: names[k].clone(), ingredients });
        k += 1;
    }
    let unplaced = uncategorized_name();
    let ingredients = select_items(items, &labels, &unplaced);
    categories.push(Category { name: unplaced, ingredients });
    let list = ShoppingList { categories };
    assert(list@ =~= wanted);
    list
}

/// The shopping list of the recipes: their ingredients aggregated and then
/// sorted into categories. `None` where a sum cannot be stored.
pub open spec fn shopping_list_spec(
    recipes: Seq<Seq<OccurrenceView>>,
    table: Seq<UnitInfo>,
    rules: Option<Seq<AisleRuleView>>,
) -> Option<Seq<CategoryView>> {
    match aggregate_spec(recipes, table) {
        Some(items) => Some(assemble_spec(items, rules)),
        None => None,
    }
}

/// Builds the shopping list of the recipes, each given as the list of its
/// occurrences, already scaled: aggregates their ingredients and sorts them
/// into the categories of `mapping`. Without a mapping every ingredient is
/// uncategorized. `None` where a sum cannot be stored.
pub fn shopping_list(
    recipes: &Vec<Vec<IngredientOccurrence>>,
    table: &UnitConversionTable,
    mapping: Option<&AisleMapping>,
) -> (r: Option<ShoppingList>)
    ensures
        match (r, shopping_list_spec(recipes.deep_view(), table@, rules_of(mapping))) {
            (Some(l), Some(m)) => l@ == m,
            (None, None) => true,
            _ => false,
        },
{
    match aggregate(recipes, table) {
        Some(items) => Some(assemble(&items, mapping)),
        None => None,
    }
}

} // verus!
