use quid::index::PledgesTreeMap;
use quid::math::{MIN_CR, ONE};
use quid::pledge::{Pledge, Sort};
use quid::pool::Pod;

fn position(id: &str, credit: u128, debit: u128) -> Pledge {
    let mut p = Pledge::empty(id.to_string(), MIN_CR);
    p.long = Pod::new(credit, debit);
    p
}

fn ids(v: &[Pledge]) -> Vec<String> {
    v.iter().map(|p| p.id.clone()).collect()
}

#[test]
fn index_orders_by_magnitude_then_ratio() {
    let price = ONE;
    let mut m = PledgesTreeMap::new(Sort::Composite, false);
    let a = position("a.near", 3 * ONE, 2 * ONE);
    let b = position("b.near", 20 * ONE, 10 * ONE);
    let c = position("c.near", 2 * ONE, 2 * ONE);
    assert_eq!(m.insert(&a, price), None);
    assert_eq!(m.insert(&b, price), None);
    assert_eq!(m.insert(&c, price), None);
    assert_eq!(m.len(), 3);
    // larger debt first, then lower ratio
    assert_eq!(ids(&m.iter()), vec!["b.near", "c.near", "a.near"]);
    assert_eq!(ids(&m.get_top(2)), vec!["b.near", "c.near"]);
    assert_eq!(ids(&m.iter_rev()), vec!["a.near", "c.near", "b.near"]);
    assert_eq!(m.min().unwrap().id, "b.near".to_string());
    assert_eq!(m.max().unwrap().id, "a.near".to_string());
    assert_eq!(m.higher(&c, price).unwrap().id, "a.near".to_string());
    assert_eq!(m.lower(&c, price).unwrap().id, "b.near".to_string());
    assert_eq!(m.ceil_key(&c, price).unwrap().id, "c.near".to_string());
    assert_eq!(m.floor_key(&c, price).unwrap().id, "c.near".to_string());
    assert!(m.higher(&a, price).is_none());
    assert_eq!(ids(&m.iter_from(&c, price)), vec!["c.near", "a.near"]);
    assert_eq!(ids(&m.iter_rev_from(&c, price)), vec!["c.near", "b.near"]);
    assert_eq!(ids(&m.range(&b, false, &a, true, price)), vec!["c.near", "a.near"]);
    assert!(m.contains_key(&c, price));
    assert_eq!(m.get(&c, price), Some(()));
    assert_eq!(m.insert(&c, price), Some(()));
    assert_eq!(m.remove(&c, price), Some(()));
    assert_eq!(m.remove(&c, price), None);
    assert_eq!(m.len(), 2);
    m.remove_id(&"b.near".to_string());
    assert_eq!(ids(&m.to_vec()), vec!["a.near"]);
    m.clear();
    assert_eq!(m.len(), 0);
}

#[test]
fn index_by_ratio_only() {
    let price = ONE;
    let mut m = PledgesTreeMap::new(Sort::CollaterlizationRatio, true);
    let mut x = Pledge::empty("x.near".to_string(), MIN_CR);
    x.short = Pod::new(3 * ONE, ONE);
    let mut y = Pledge::empty("y.near".to_string(), MIN_CR);
    y.short = Pod::new(2 * ONE, 100 * ONE);
    m.insert(&x, price);
    m.insert(&y, price);
    assert_eq!(ids(&m.iter()), vec!["y.near", "x.near"]);
}
