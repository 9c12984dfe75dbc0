use cookcli::amount::{Amount, PART_MAX};
use cookcli::quantity::{AddError, Magnitude, Quantity};
use cookcli::units::{Dimension, UnitConversionTable};

fn amount(num: u64, den: u64) -> Amount {
    Amount::new(num, den).unwrap()
}

fn kitchen() -> UnitConversionTable {
    UnitConversionTable::new()
        .with_unit("g", Dimension::Mass, amount(1, 1))
        .with_unit("kg", Dimension::Mass, amount(1000, 1))
        .with_unit("cup", Dimension::Mass, amount(240, 1))
        .with_unit("ml", Dimension::Volume, amount(1, 1))
        .with_unit("tsp", Dimension::Volume, amount(5, 1))
        .with_unit("l", Dimension::Volume, amount(1000, 1))
}

#[test]
fn table_resolves_known_units() {
    let table = kitchen();
    assert_eq!(table.len(), 6);
    assert_eq!(table.resolve("kg"), Some((Dimension::Mass, amount(1000, 1))));
    assert_eq!(table.resolve("tsp"), Some((Dimension::Volume, amount(5, 1))));
    assert_eq!(table.resolve("pinch"), None);
    assert_eq!(table.resolve("KG"), None);
}

#[test]
fn table_first_definition_counts() {
    let table = kitchen().with_unit("g", Dimension::Volume, amount(7, 1));
    assert_eq!(table.len(), 7);
    assert_eq!(table.resolve("g"), Some((Dimension::Mass, amount(1, 1))));
}

#[test]
fn table_ignores_zero_ratio() {
    let table = kitchen().with_unit("nothing", Dimension::Mass, amount(0, 1));
    assert_eq!(table.len(), 6);
    assert_eq!(table.resolve("nothing"), None);
}

#[test]
fn convert_between_units_of_one_dimension() {
    let table = kitchen();
    assert_eq!(table.convert(amount(1, 1), "cup", "g"), Some(amount(240, 1)));
    assert_eq!(table.convert(amount(200, 1), "g", "cup"), Some(amount(5, 6)));
    assert_eq!(table.convert(amount(3, 2), "kg", "g"), Some(amount(1500, 1)));
    assert_eq!(table.convert(amount(3, 2), "g", "g"), Some(amount(3, 2)));
}

#[test]
fn convert_fails_across_dimensions_and_for_unknown_units() {
    let table = kitchen();
    assert_eq!(table.convert(amount(1, 1), "g", "ml"), None);
    assert_eq!(table.convert(amount(1, 1), "pinch", "g"), None);
    assert_eq!(table.convert(amount(1, 1), "g", "pinch"), None);
}

#[test]
fn convert_fails_where_the_result_does_not_fit() {
    let table = kitchen();
    assert_eq!(table.convert(amount(PART_MAX, 1), "kg", "g"), None);
}

#[test]
fn same_known_unit_adds_values() {
    let table = kitchen();
    let a = Quantity::number(amount(200, 1), "g");
    let b = Quantity::number(amount(1, 2), "g");
    assert_eq!(a.try_add(&b, &table), Ok(Quantity::number(amount(401, 2), "g")));
    assert!(a.is_compatible(&b, &table));
}

#[test]
fn sum_is_in_the_unit_of_the_first_operand() {
    let table = kitchen();
    let grams = Quantity::number(amount(200, 1), "g");
    let cups = Quantity::number(amount(1, 1), "cup");
    assert_eq!(grams.try_add(&cups, &table), Ok(Quantity::number(amount(440, 1), "g")));
    assert_eq!(cups.try_add(&grams, &table), Ok(Quantity::number(amount(11, 6), "cup")));
}

#[test]
fn different_dimensions_are_incompatible() {
    let table = kitchen();
    let a = Quantity::number(amount(200, 1), "g");
    let b = Quantity::number(amount(100, 1), "ml");
    assert_eq!(a.try_add(&b, &table), Err(AddError::Incompatible));
    assert_eq!(b.try_add(&a, &table), Err(AddError::Incompatible));
    assert!(!a.is_compatible(&b, &table));
}

#[test]
fn unknown_units_add_only_when_spelled_alike() {
    let table = kitchen();
    let a = Quantity::number(amount(1, 1), "pinch");
    let b = Quantity::number(amount(2, 1), "pinch");
    let c = Quantity::number(amount(2, 1), "dash");
    let g = Quantity::number(amount(2, 1), "g");
    assert_eq!(a.try_add(&b, &table), Ok(Quantity::number(amount(3, 1), "pinch")));
    assert_eq!(a.try_add(&c, &table), Err(AddError::Incompatible));
    assert_eq!(a.try_add(&g, &table), Err(AddError::Incompatible));
    assert_eq!(g.try_add(&a, &table), Err(AddError::Incompatible));
}

#[test]
fn missing_unit_adds_only_to_missing_unit() {
    let table = kitchen();
    let eggs = Quantity::count(amount(2, 1));
    let more = Quantity::count(amount(3, 1));
    let g = Quantity::number(amount(2, 1), "g");
    assert_eq!(eggs.try_add(&more, &table), Ok(Quantity::count(amount(5, 1))));
    assert_eq!(eggs.try_add(&g, &table), Err(AddError::Incompatible));
    assert_eq!(g.try_add(&eggs, &table), Err(AddError::Incompatible));
}

#[test]
fn unspecified_absorbs() {
    let table = kitchen();
    let some = Quantity::unspecified();
    let tsp = Quantity::number(amount(1, 1), "tsp");
    assert_eq!(some.try_add(&tsp, &table), Ok(Quantity::unspecified()));
    assert_eq!(tsp.try_add(&some, &table), Ok(Quantity::unspecified()));
    assert_eq!(some.try_add(&some, &table), Ok(Quantity::unspecified()));
    assert!(tsp.is_compatible(&some, &table));
    let open_grams = Quantity::new(Magnitude::Unspecified, Some("g".to_string()));
    assert_eq!(open_grams.try_add(&tsp, &table), Ok(Quantity::unspecified()));
    assert!(open_grams.is_unspecified());
    assert!(!tsp.is_unspecified());
}

#[test]
fn overflow_is_not_incompatibility() {
    let table = kitchen();
    let big = Quantity::number(amount(PART_MAX, 1), "g");
    let one = Quantity::number(amount(1, 1), "g");
    let kilo = Quantity::number(amount(PART_MAX, 1), "kg");
    assert_eq!(big.try_add(&one, &table), Err(AddError::Overflow));
    assert_eq!(one.try_add(&kilo, &table), Err(AddError::Overflow));
    assert!(big.is_compatible(&one, &table));
}

#[test]
fn duplicate_is_equal() {
    let q = Quantity::number(amount(7, 3), "cup");
    assert_eq!(q.duplicate(), q);
    assert_eq!(Quantity::unspecified().duplicate(), Quantity::unspecified());
}
