use cookcli::amount::{Amount, PART_MAX};
use cookcli::arith::gcd_u128;

fn amount(num: u64, den: u64) -> Amount {
    Amount::new(num, den).unwrap()
}

#[test]
fn gcd_of_two_numbers() {
    assert_eq!(gcd_u128(12, 18), 6);
    assert_eq!(gcd_u128(18, 12), 6);
    assert_eq!(gcd_u128(7, 0), 7);
    assert_eq!(gcd_u128(0, 7), 7);
    assert_eq!(gcd_u128(0, 0), 0);
    assert_eq!(gcd_u128(17, 5), 1);
}

#[test]
fn new_brings_to_lowest_terms() {
    let a = amount(2, 4);
    assert_eq!(a.numerator(), 1);
    assert_eq!(a.denominator(), 2);
    assert_eq!(a, amount(1, 2));
    assert_eq!(amount(0, 5), amount(0, 1));
}

#[test]
fn new_rejects_zero_denominator() {
    assert_eq!(Amount::new(1, 0), None);
    assert_eq!(Amount::new(0, 0), None);
}

#[test]
fn new_rejects_parts_that_do_not_fit() {
    assert_eq!(Amount::new(u64::MAX, 1), None);
    assert_eq!(Amount::new(1, u64::MAX), None);
    assert!(Amount::new(PART_MAX, 1).is_some());
    assert_eq!(Amount::new(u64::MAX - 1, 2).unwrap().numerator(), PART_MAX);
}

#[test]
fn from_integer_is_whole() {
    let a = Amount::from_integer(440);
    assert_eq!(a.numerator(), 440);
    assert_eq!(a.denominator(), 1);
    assert!(Amount::from_integer(0).is_zero());
    assert!(!a.is_zero());
}

#[test]
fn sums_are_exact() {
    assert_eq!(amount(1, 3).checked_add(&amount(1, 6)), Some(amount(1, 2)));
    assert_eq!(amount(200, 1).checked_add(&amount(240, 1)), Some(amount(440, 1)));
    assert_eq!(amount(1, 3).checked_add(&amount(2, 3)), Some(amount(1, 1)));
    assert_eq!(amount(0, 1).checked_add(&amount(5, 7)), Some(amount(5, 7)));
}

#[test]
fn sum_overflow_is_reported() {
    assert_eq!(amount(PART_MAX, 1).checked_add(&amount(1, 1)), None);
    let p = amount(1, 4294967311);
    let q = amount(1, 4294967357);
    assert_eq!(p.checked_add(&q), None);
}

#[test]
fn products_and_quotients_are_exact() {
    assert_eq!(amount(3, 2).checked_mul(&amount(240, 1)), Some(amount(360, 1)));
    assert_eq!(amount(2, 3).checked_mul(&amount(3, 4)), Some(amount(1, 2)));
    assert_eq!(amount(200, 1).checked_div(&amount(240, 1)), Some(amount(5, 6)));
    assert_eq!(amount(1, 2).checked_div(&amount(0, 1)), None);
    assert_eq!(amount(PART_MAX, 1).checked_mul(&amount(2, 1)), None);
    assert_eq!(amount(1, PART_MAX).checked_div(&amount(2, 1)), None);
}

#[test]
fn doubling_is_twice_the_value() {
    let a = amount(5, 6);
    let twice = a.checked_add(&a).unwrap();
    assert_eq!(twice, amount(10, 6));
    assert_eq!(twice.numerator() * a.denominator(), 2 * a.numerator() * twice.denominator());
}
