use cookcli::aggregate::{aggregate, copy_list, merge_grouped};
use cookcli::amount::{Amount, PART_MAX};
use cookcli::ingredient::{
    add_sources, duplicate_quantities, group_recipe, merge_ingredient, merge_occurrence,
    merge_quantities, merge_quantity, position_of, AggregatedIngredient, IngredientOccurrence,
};
use cookcli::quantity::Quantity;
use cookcli::units::{Dimension, UnitConversionTable};

fn amount(num: u64, den: u64) -> Amount {
    Amount::new(num, den).unwrap()
}

fn kitchen() -> UnitConversionTable {
    UnitConversionTable::new()
        .with_unit("g", Dimension::Mass, amount(1, 1))
        .with_unit("kg", Dimension::Mass, amount(1000, 1))
        .with_unit("cup", Dimension::Mass, amount(240, 1))
        .with_unit("ml", Dimension::Volume, amount(1, 1))
        .with_unit("tsp", Dimension::Volume, amount(5, 1))
}

fn of(name: &str, quantity: Quantity, recipe: u64) -> IngredientOccurrence {
    IngredientOccurrence { name: name.to_string(), quantity, recipe_ref: recipe }
}

fn grams(n: u64) -> Quantity {
    Quantity::number(amount(n, 1), "g")
}

fn entry(name: &str, quantities: Vec<Quantity>, sources: Vec<u64>) -> AggregatedIngredient {
    AggregatedIngredient { name: name.to_string(), quantities, sources }
}

#[test]
fn merge_quantity_adds_to_first_compatible_group() {
    let table = kitchen();
    let mut groups = vec![Quantity::number(amount(100, 1), "ml"), grams(200)];
    assert!(merge_quantity(&mut groups, &Quantity::number(amount(1, 1), "cup"), &table));
    assert_eq!(groups, vec![Quantity::number(amount(100, 1), "ml"), grams(440)]);
    assert!(merge_quantity(&mut groups, &Quantity::number(amount(2, 1), "tsp"), &table));
    assert_eq!(groups, vec![Quantity::number(amount(110, 1), "ml"), grams(440)]);
}

#[test]
fn merge_quantity_appends_what_fits_nowhere() {
    let table = kitchen();
    let mut groups = vec![grams(200)];
    assert!(merge_quantity(&mut groups, &Quantity::number(amount(100, 1), "ml"), &table));
    assert!(merge_quantity(&mut groups, &Quantity::count(amount(2, 1)), &table));
    assert!(merge_quantity(&mut groups, &Quantity::number(amount(1, 1), "pinch"), &table));
    assert_eq!(
        groups,
        vec![
            grams(200),
            Quantity::number(amount(100, 1), "ml"),
            Quantity::count(amount(2, 1)),
            Quantity::number(amount(1, 1), "pinch"),
        ]
    );
}

#[test]
fn merge_quantity_leaves_groups_on_overflow() {
    let table = kitchen();
    let mut groups = vec![Quantity::number(amount(PART_MAX, 1), "g")];
    assert!(!merge_quantity(&mut groups, &grams(1), &table));
    assert_eq!(groups, vec![Quantity::number(amount(PART_MAX, 1), "g")]);
}

#[test]
fn open_amount_absorbs_every_group() {
    let table = kitchen();
    let mut groups = vec![grams(200), Quantity::number(amount(100, 1), "ml")];
    assert!(merge_quantity(&mut groups, &Quantity::unspecified(), &table));
    assert_eq!(groups, vec![Quantity::unspecified()]);
    assert!(merge_quantity(&mut groups, &Quantity::number(amount(5, 1), "ml"), &table));
    assert_eq!(groups, vec![Quantity::unspecified()]);
    let mut none: Vec<Quantity> = Vec::new();
    let open_grams = Quantity::new(cookcli::quantity::Magnitude::Unspecified, Some("g".to_string()));
    assert!(merge_quantity(&mut none, &open_grams, &table));
    assert_eq!(none, vec![open_grams]);
    assert!(merge_quantity(&mut none, &Quantity::unspecified(), &table));
    assert_eq!(none, vec![Quantity::unspecified()]);
}

#[test]
fn merge_quantities_is_all_or_nothing() {
    let table = kitchen();
    let mut groups = vec![Quantity::number(amount(PART_MAX, 1), "g")];
    let more = vec![Quantity::number(amount(3, 1), "ml"), grams(1)];
    assert!(!merge_quantities(&mut groups, &more, &table));
    assert_eq!(groups, vec![Quantity::number(amount(PART_MAX, 1), "g")]);
    let fine = vec![Quantity::number(amount(3, 1), "ml"), Quantity::number(amount(1, 1), "tsp")];
    assert!(merge_quantities(&mut groups, &fine, &table));
    assert_eq!(
        groups,
        vec![Quantity::number(amount(PART_MAX, 1), "g"), Quantity::number(amount(8, 1), "ml")]
    );
}

#[test]
fn sources_are_a_set_in_first_seen_order() {
    let mut sources = vec![3, 1];
    add_sources(&mut sources, &vec![1, 2, 3, 2, 7]);
    assert_eq!(sources, vec![3, 1, 2, 7]);
}

#[test]
fn position_ignores_letter_case() {
    let list = vec![entry("Flour", vec![grams(1)], vec![1]), entry("salt", vec![grams(1)], vec![1])];
    assert_eq!(position_of(&list, "flour"), Some(0));
    assert_eq!(position_of(&list, "SALT"), Some(1));
    assert_eq!(position_of(&list, "sugar"), None);
    assert_eq!(position_of(&list, "flou"), None);
}

#[test]
fn merge_ingredient_keeps_first_spelling_and_place() {
    let table = kitchen();
    let mut list = vec![entry("Flour", vec![grams(200)], vec![1]), entry("salt", vec![grams(1)], vec![1])];
    assert!(merge_ingredient(&mut list, "FLOUR", &vec![grams(50)], &vec![2], &table));
    assert_eq!(
        list,
        vec![entry("Flour", vec![grams(250)], vec![1, 2]), entry("salt", vec![grams(1)], vec![1])]
    );
    assert!(merge_ingredient(&mut list, "Sugar", &vec![grams(5)], &vec![2, 2], &table));
    assert_eq!(list.len(), 3);
    assert_eq!(list[2], entry("Sugar", vec![grams(5)], vec![2]));
}

#[test]
fn merge_occurrence_is_a_merge_of_one() {
    let table = kitchen();
    let mut list = Vec::new();
    assert!(merge_occurrence(&mut list, &of("egg", Quantity::count(amount(2, 1)), 4), &table));
    assert!(merge_occurrence(&mut list, &of("Egg", Quantity::count(amount(1, 1)), 4), &table));
    assert_eq!(list, vec![entry("egg", vec![Quantity::count(amount(3, 1))], vec![4])]);
}

#[test]
fn group_recipe_orders_by_first_appearance() {
    let table = kitchen();
    let recipe = vec![
        of("flour", grams(200), 1),
        of("milk", Quantity::number(amount(100, 1), "ml"), 1),
        of("Flour", Quantity::number(amount(1, 2), "kg"), 1),
        of("milk", grams(10), 1),
        of("flour", Quantity::number(amount(1, 1), "tsp"), 1),
    ];
    let grouped = group_recipe(&recipe, &table).unwrap();
    assert_eq!(
        grouped,
        vec![
            entry("flour", vec![grams(700), Quantity::number(amount(1, 1), "tsp")], vec![1]),
            entry("milk", vec![Quantity::number(amount(100, 1), "ml"), grams(10)], vec![1]),
        ]
    );
}

#[test]
fn group_recipe_of_nothing_is_empty() {
    assert_eq!(group_recipe(&Vec::new(), &kitchen()), Some(Vec::new()));
}

#[test]
fn group_recipe_reports_overflow() {
    let table = kitchen();
    let recipe = vec![of("gold", Quantity::number(amount(PART_MAX, 1), "g"), 1), of("gold", grams(1), 1)];
    assert_eq!(group_recipe(&recipe, &table), None);
}

#[test]
fn flour_in_grams_and_cups_merges_into_grams() {
    let table = kitchen();
    let first = vec![of("flour", grams(200), 1)];
    let second = vec![of("flour", Quantity::number(amount(1, 1), "cup"), 2)];
    let list = aggregate(&vec![first, second], &table).unwrap();
    assert_eq!(list, vec![entry("flour", vec![grams(440)], vec![1, 2])]);
}

#[test]
fn salt_to_taste_absorbs_a_teaspoon() {
    let table = kitchen();
    let first = vec![of("salt", Quantity::unspecified(), 1)];
    let second = vec![of("salt", Quantity::number(amount(1, 1), "tsp"), 2)];
    let list = aggregate(&vec![first, second], &table).unwrap();
    assert_eq!(list, vec![entry("salt", vec![Quantity::unspecified()], vec![1, 2])]);
    let within = vec![
        of("salt", Quantity::number(amount(1, 1), "tsp"), 1),
        of("salt", Quantity::unspecified(), 1),
    ];
    assert_eq!(
        group_recipe(&within, &table).unwrap(),
        vec![entry("salt", vec![Quantity::unspecified()], vec![1])]
    );
}

#[test]
fn same_recipe_twice_doubles_and_counts_once() {
    let table = kitchen();
    let recipe = vec![
        of("flour", grams(200), 9),
        of("flour", Quantity::number(amount(1, 3), "cup"), 9),
        of("milk", Quantity::number(amount(100, 1), "ml"), 9),
        of("flour", Quantity::number(amount(2, 1), "tsp"), 9),
    ];
    let once = aggregate(&vec![recipe.clone()], &table).unwrap();
    let twice = aggregate(&vec![recipe.clone(), recipe], &table).unwrap();
    assert_eq!(
        once,
        vec![
            entry("flour", vec![grams(280), Quantity::number(amount(2, 1), "tsp")], vec![9]),
            entry("milk", vec![Quantity::number(amount(100, 1), "ml")], vec![9]),
        ]
    );
    assert_eq!(
        twice,
        vec![
            entry("flour", vec![grams(560), Quantity::number(amount(4, 1), "tsp")], vec![9]),
            entry("milk", vec![Quantity::number(amount(200, 1), "ml")], vec![9]),
        ]
    );
}

#[test]
fn recipe_order_changes_presentation_not_totals() {
    let table = kitchen();
    let a = vec![of("flour", grams(200), 1), of("salt", grams(2), 1)];
    let b = vec![of("salt", grams(3), 2), of("flour", grams(50), 2)];
    let ab = aggregate(&vec![a.clone(), b.clone()], &table).unwrap();
    let ba = aggregate(&vec![b, a], &table).unwrap();
    assert_eq!(
        ab,
        vec![entry("flour", vec![grams(250)], vec![1, 2]), entry("salt", vec![grams(5)], vec![1, 2])]
    );
    assert_eq!(
        ba,
        vec![entry("salt", vec![grams(5)], vec![2, 1]), entry("flour", vec![grams(250)], vec![2, 1])]
    );
}

#[test]
fn recipe_order_decides_the_unit_shown() {
    let table = kitchen();
    let a = vec![of("flour", grams(200), 1)];
    let b = vec![of("flour", Quantity::number(amount(1, 1), "cup"), 2)];
    let ba = aggregate(&vec![b, a], &table).unwrap();
    assert_eq!(ba, vec![entry("flour", vec![Quantity::number(amount(11, 6), "cup")], vec![2, 1])]);
    assert_eq!(table.convert(amount(11, 6), "cup", "g"), Some(amount(440, 1)));
}

#[test]
fn aggregate_of_no_recipes_is_empty() {
    assert_eq!(aggregate(&Vec::new(), &kitchen()), Some(Vec::new()));
    assert_eq!(aggregate(&vec![Vec::new(), Vec::new()], &kitchen()), Some(Vec::new()));
}

#[test]
fn aggregate_reports_overflow_across_recipes() {
    let table = kitchen();
    let a = vec![of("gold", Quantity::number(amount(PART_MAX, 1), "g"), 1)];
    let b = vec![of("gold", grams(1), 2)];
    assert_eq!(aggregate(&vec![a, b], &table), None);
}

#[test]
fn merge_grouped_is_all_or_nothing() {
    let table = kitchen();
    let mut running = vec![entry("gold", vec![Quantity::number(amount(PART_MAX, 1), "g")], vec![1])];
    let grouped = vec![entry("silver", vec![grams(1)], vec![2]), entry("gold", vec![grams(1)], vec![2])];
    let before = copy_list(&running);
    assert!(!merge_grouped(&mut running, &grouped, &table));
    assert_eq!(running, before);
    let fine = vec![entry("silver", vec![grams(1)], vec![2])];
    assert!(merge_grouped(&mut running, &fine, &table));
    assert_eq!(running.len(), 2);
    assert_eq!(running[1], entry("silver", vec![grams(1)], vec![2]));
}

#[test]
fn copies_are_equal() {
    let qs = vec![grams(1), Quantity::unspecified()];
    assert_eq!(duplicate_quantities(&qs), qs);
    let e = entry("x", qs, vec![1, 2]);
    assert_eq!(e.duplicate(), e);
}

#[test]
fn open_amount_stays_open_when_the_recipe_repeats() {
    let table = kitchen();
    let recipe = vec![
        of("salt", grams(1), 3),
        of("salt", Quantity::number(amount(1, 1), "ml"), 3),
        of("salt", Quantity::unspecified(), 3),
        of("oil", Quantity::number(amount(2, 1), "tsp"), 3),
    ];
    let grouped = group_recipe(&recipe, &table).unwrap();
    assert_eq!(
        grouped,
        vec![
            entry("salt", vec![Quantity::unspecified()], vec![3]),
            entry("oil", vec![Quantity::number(amount(2, 1), "tsp")], vec![3]),
        ]
    );
    let once = aggregate(&vec![recipe.clone()], &table).unwrap();
    let twice = aggregate(&vec![recipe.clone(), recipe], &table).unwrap();
    assert_eq!(once, grouped);
    assert_eq!(
        twice,
        vec![
            entry("salt", vec![Quantity::unspecified()], vec![3]),
            entry("oil", vec![Quantity::number(amount(4, 1), "tsp")], vec![3]),
        ]
    );
}

#[test]
fn open_amount_absorbs_in_either_order_of_recipes() {
    let table = kitchen();
    let measured = vec![of("salt", grams(1), 1), of("salt", Quantity::number(amount(1, 1), "ml"), 1)];
    let open = vec![of("salt", Quantity::unspecified(), 2)];
    let measured_first = aggregate(&vec![measured.clone(), open.clone()], &table).unwrap();
    let open_first = aggregate(&vec![open, measured], &table).unwrap();
    assert_eq!(measured_first, vec![entry("salt", vec![Quantity::unspecified()], vec![1, 2])]);
    assert_eq!(open_first, vec![entry("salt", vec![Quantity::unspecified()], vec![2, 1])]);
}

#[test]
fn no_two_groups_of_an_entry_are_compatible() {
    let table = kitchen();
    let recipe = vec![
        of("salt", grams(1), 1),
        of("salt", Quantity::number(amount(1, 1), "ml"), 1),
        of("salt", Quantity::count(amount(2, 1)), 1),
        of("salt", Quantity::number(amount(1, 1), "pinch"), 1),
        of("salt", Quantity::number(amount(1, 1), "kg"), 1),
        of("salt", Quantity::number(amount(1, 1), "tsp"), 1),
    ];
    let list = aggregate(&vec![recipe.clone(), recipe], &table).unwrap();
    let groups = &list[0].quantities;
    assert_eq!(groups.len(), 4);
    for i in 0..groups.len() {
        for j in 0..groups.len() {
            if i != j {
                assert!(!groups[i].is_compatible(&groups[j], &table));
            }
        }
    }
}
