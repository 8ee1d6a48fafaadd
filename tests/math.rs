use quid::crank::{Crank, UpdateStep, BATCH};
use quid::error::QuidError;
use quid::math::{checked_cr, checked_ratio, computeCR, ratio, EIGHT_HOURS, KILL_CR, MIN_CR, ONE};
use quid::pledge::{magnitude_of, Pledge, Sort, SortKeys};
use quid::pool::Pod;

#[test]
fn ratio_exact_values() {
    assert_eq!(ratio(5 * ONE, 2 * ONE, ONE), 10 * ONE);
    assert_eq!(ratio(7, 10, 3), 23);
    assert_eq!(ratio(u128::MAX, u128::MAX, u128::MAX), u128::MAX);
    assert_eq!(ratio(u128::MAX, 3, 4), u128::MAX / 4 * 3 + 2);
}

#[test]
fn ratio_refusals() {
    assert_eq!(checked_ratio(1, 1, 0), None);
    assert_eq!(checked_ratio(u128::MAX, 2, 1), None);
    assert_eq!(checked_ratio(u128::MAX, 2, 2), Some(u128::MAX));
}

#[test]
fn compute_cr_cases() {
    let p = 5 * ONE;
    assert_eq!(computeCR(p, 2 * ONE, 5 * ONE, false), 2 * ONE);
    assert_eq!(computeCR(p, 5 * ONE, ONE, true), ONE);
    assert_eq!(computeCR(p, 0, ONE, false), 0);
    assert_eq!(computeCR(p, ONE, 0, true), u128::MAX);
    assert_eq!(computeCR(p, 0, 0, false), 0);
    // short debt worth nothing at the price cannot be divided by
    assert_eq!(checked_cr(0, ONE, ONE, true), None);
}

#[test]
fn compute_cr_monotone_examples() {
    let p = 24 * ONE / 10;
    let base = computeCR(p, 2 * ONE, 5 * ONE, false);
    assert_eq!(base, 96 * ONE / 100);
    assert!(base < KILL_CR);
    assert!(computeCR(p, 3 * ONE, 5 * ONE, false) >= base);
    assert!(computeCR(p, 2 * ONE, 4 * ONE, false) >= base);
    assert!(computeCR(p, ONE, 5 * ONE, false) <= base);
    let s = computeCR(5 * ONE, 55 * ONE / 10, ONE, true);
    assert_eq!(s, MIN_CR);
    assert!(computeCR(5 * ONE, 55 * ONE / 10, 2 * ONE, true) <= s);
}

#[test]
fn magnitude_is_floor_log10() {
    assert_eq!(magnitude_of(0), 0);
    assert_eq!(magnitude_of(9), 0);
    assert_eq!(magnitude_of(10), 1);
    assert_eq!(magnitude_of(12345), 4);
    assert_eq!(magnitude_of(5 * ONE), 24);
}

fn position(id: &str, credit: u128, debit: u128) -> Pledge {
    let mut p = Pledge::empty(id.to_string(), MIN_CR);
    p.long = Pod::new(credit, debit);
    p
}

#[test]
fn sort_keys_order() {
    let price = 5 * ONE;
    let big = SortKeys::new(&position("a.near", 100 * ONE, 100 * ONE), "a.near".to_string(), &Sort::Composite, false, price);
    let small_low = SortKeys::new(&position("b.near", ONE, 4 * ONE), "b.near".to_string(), &Sort::Composite, false, price);
    let small_high = SortKeys::new(&position("c.near", ONE, ONE), "c.near".to_string(), &Sort::Composite, false, price);
    assert_eq!(big.cmp(&small_low), std::cmp::Ordering::Less);
    assert_eq!(small_low.cmp(&small_high), std::cmp::Ordering::Less);
    assert!(big.eq(&big));
    let same_a = SortKeys::new(&position("a.near", ONE, ONE), "a.near".to_string(), &Sort::Composite, false, price);
    let same_b = SortKeys::new(&position("b.near", ONE, ONE), "b.near".to_string(), &Sort::Composite, false, price);
    assert_eq!(same_a.cmp(&same_b), std::cmp::Ordering::Less);
    assert_eq!(same_b.cmp(&same_a), std::cmp::Ordering::Greater);
}

#[test]
fn crank_cycle() {
    let mut c = Crank::new();
    assert!(c.done);
    assert_eq!(c.update(EIGHT_HOURS - 1, 100), Err(QuidError::TooEarly));
    assert_eq!(c, Crank::new());
    assert_eq!(c.update(EIGHT_HOURS, 100), Ok(UpdateStep::Begin));
    assert!(!c.done);
    assert_eq!(c.update(EIGHT_HOURS + 1, 100), Ok(UpdateStep::Stress { start: 0, stop: BATCH }));
    assert_eq!(c.index, 42);
    assert_eq!(c.update(EIGHT_HOURS + 2, 100), Ok(UpdateStep::Stress { start: 42, stop: 84 }));
    assert_eq!(c.update(EIGHT_HOURS + 3, 100), Ok(UpdateStep::Stress { start: 84, stop: 100 }));
    assert!(c.done);
    assert_eq!(c.index, 0);
    assert_eq!(c.last, EIGHT_HOURS + 3);
    assert_eq!(c.update(EIGHT_HOURS + 4, 100), Err(QuidError::TooEarly));
}

#[test]
fn crank_index_past_end() {
    let mut c = Crank { done: false, index: 5, last: 0 };
    assert_eq!(c.update(1, 3), Err(QuidError::SubtractionUnderflow));
    assert_eq!(c.index, 5);
}
