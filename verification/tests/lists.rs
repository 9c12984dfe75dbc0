use cookcli::aisle::AisleMapping;
use cookcli::amount::Amount;
use cookcli::ingredient::{AggregatedIngredient, IngredientOccurrence};
use cookcli::quantity::Quantity;
use cookcli::shopping::{assemble, shopping_list, uncategorized_name, Category};
use cookcli::text::{names_match, starts_with, starts_with_word};
use cookcli::units::{Dimension, UnitConversionTable};

fn amount(num: u64, den: u64) -> Amount {
    Amount::new(num, den).unwrap()
}

fn grams(n: u64) -> Quantity {
    Quantity::number(amount(n, 1), "g")
}

fn entry(name: &str) -> AggregatedIngredient {
    AggregatedIngredient { name: name.to_string(), quantities: vec![grams(1)], sources: vec![1] }
}

fn store() -> AisleMapping {
    let mut m = AisleMapping::new();
    m.add_rule("milk", "dairy");
    m.add_rule("egg", "dairy");
    m.add_rule("apple", "produce");
    m.add_rule("Olive Oil", "oils");
    m.add_rule("olive", "produce");
    m.add_rule("mystery", "uncategorized");
    m
}

fn names(category: &Category) -> Vec<String> {
    category.ingredients.iter().map(|i| i.name.clone()).collect()
}

#[test]
fn word_prefix_needs_a_boundary() {
    assert!(starts_with_word("egg", "egg"));
    assert!(starts_with_word("egg yolk", "egg"));
    assert!(!starts_with_word("eggplant", "egg"));
    assert!(!starts_with_word("eggs", "egg"));
    assert!(!starts_with_word("eg", "egg"));
    assert!(!starts_with_word("egg", ""));
    assert!(!starts_with_word("", ""));
    assert!(!starts_with_word("an egg", "egg"));
    assert!(starts_with_word("olive oil extra", "olive oil"));
}

#[test]
fn plain_prefix() {
    assert!(starts_with("https://x", "https://"));
    assert!(starts_with("abc", ""));
    assert!(starts_with("abc", "abc"));
    assert!(!starts_with("ab", "abc"));
    assert!(!starts_with("xbc", "abc"));
}

#[test]
fn names_match_whatever_the_case() {
    assert!(names_match("Flour", "fLOUR"));
    assert!(names_match("Crème", "CRÈME"));
    assert!(!names_match("flour", "flours"));
    assert!(!names_match("Flour", "Floor"));
}

#[test]
fn categorize_takes_the_first_matching_rule() {
    let m = store();
    assert_eq!(m.len(), 6);
    assert_eq!(m.categorize("Milk"), Some("dairy".to_string()));
    assert_eq!(m.categorize("EGG white"), Some("dairy".to_string()));
    assert_eq!(m.categorize("eggplant"), None);
    assert_eq!(m.categorize("olive oil"), Some("oils".to_string()));
    assert_eq!(m.categorize("olive"), Some("produce".to_string()));
    assert_eq!(m.categorize("olive tapenade"), Some("produce".to_string()));
    assert_eq!(m.categorize("green apple"), None);
    assert_eq!(AisleMapping::new().categorize("milk"), None);
}

#[test]
fn first_rule_wins_over_longer_pattern() {
    let mut m = AisleMapping::new();
    m.add_rule("olive", "produce");
    m.add_rule("olive oil", "oils");
    assert_eq!(m.categorize("olive oil"), Some("produce".to_string()));
}

#[test]
fn empty_mapping_puts_everything_in_uncategorized() {
    let items = vec![entry("flour"), entry("milk"), entry("egg")];
    let list = assemble(&items, Some(&AisleMapping::new()));
    assert_eq!(list.categories.len(), 1);
    assert_eq!(list.categories[0].name, "uncategorized");
    assert_eq!(list.categories[0].ingredients, items);
    let without = assemble(&items, None);
    assert_eq!(without, list);
}

#[test]
fn uncategorized_is_there_even_when_empty() {
    let list = assemble(&Vec::new(), None);
    assert_eq!(list.categories.len(), 1);
    assert_eq!(list.categories[0].name, uncategorized_name());
    assert!(list.categories[0].ingredients.is_empty());
    let placed = assemble(&vec![entry("milk")], Some(&store()));
    assert_eq!(placed.categories.len(), 2);
    assert_eq!(placed.categories[0].name, "dairy");
    assert_eq!(placed.categories[1].name, "uncategorized");
    assert!(placed.categories[1].ingredients.is_empty());
}

#[test]
fn categories_follow_first_appearance_and_uncategorized_is_last() {
    let items = vec![
        entry("flour"),
        entry("apple"),
        entry("Milk"),
        entry("mystery meat"),
        entry("apple juice"),
        entry("egg"),
        entry("olive oil"),
    ];
    let list = assemble(&items, Some(&store()));
    let order: Vec<String> = list.categories.iter().map(|c| c.name.clone()).collect();
    assert_eq!(order, vec!["produce", "dairy", "oils", "uncategorized"]);
    assert_eq!(names(&list.categories[0]), vec!["apple", "apple juice"]);
    assert_eq!(names(&list.categories[1]), vec!["Milk", "egg"]);
    assert_eq!(names(&list.categories[2]), vec!["olive oil"]);
    assert_eq!(names(&list.categories[3]), vec!["flour", "mystery meat"]);
}

#[test]
fn shopping_list_runs_the_whole_pipeline() {
    let table = UnitConversionTable::new()
        .with_unit("g", Dimension::Mass, amount(1, 1))
        .with_unit("cup", Dimension::Mass, amount(240, 1));
    let first = vec![
        IngredientOccurrence { name: "flour".to_string(), quantity: grams(200), recipe_ref: 1 },
        IngredientOccurrence { name: "milk".to_string(), quantity: grams(30), recipe_ref: 1 },
    ];
    let second = vec![IngredientOccurrence {
        name: "Flour".to_string(),
        quantity: Quantity::number(amount(1, 1), "cup"),
        recipe_ref: 2,
    }];
    let list = shopping_list(&vec![first, second], &table, Some(&store())).unwrap();
    assert_eq!(list.categories.len(), 2);
    assert_eq!(list.categories[0].name, "dairy");
    assert_eq!(names(&list.categories[0]), vec!["milk"]);
    assert_eq!(list.categories[1].name, "uncategorized");
    assert_eq!(
        list.categories[1].ingredients,
        vec![AggregatedIngredient {
            name: "flour".to_string(),
            quantities: vec![grams(440)],
            sources: vec![1, 2],
        }]
    );
}

#[test]
fn shopping_list_reports_overflow() {
    let table = UnitConversionTable::new().with_unit("g", Dimension::Mass, amount(1, 1));
    let big = Quantity::number(amount(cookcli::amount::PART_MAX, 1), "g");
    let first = vec![IngredientOccurrence { name: "gold".to_string(), quantity: big, recipe_ref: 1 }];
    let second = vec![IngredientOccurrence { name: "gold".to_string(), quantity: grams(1), recipe_ref: 2 }];
    assert_eq!(shopping_list(&vec![first, second], &table, None), None);
}
