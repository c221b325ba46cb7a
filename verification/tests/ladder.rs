use market_maker::binary64::Binary64;
use market_maker::ladder::Ladder;
use ordered_float::OrderedFloat;
use std::collections::BTreeMap;

fn number(x: f64) -> Binary64 {
    Binary64::from_bits(x.to_bits())
}

fn prices(ladder: &Ladder<Binary64, u8>) -> Vec<f64> {
    (0..ladder.len()).map(|i| f64::from_bits(ladder.level(i).0.bits)).collect()
}

fn sample() -> Ladder<Binary64, u8> {
    let mut ladder = Ladder::new();
    ladder.insert(number(2.0), 2);
    ladder.insert(number(-1.0), 1);
    ladder.insert(number(10.0), 3);
    ladder
}

#[test]
fn levels_stand_in_order() {
    assert_eq!(prices(&sample()), vec![-1.0, 2.0, 10.0]);
}

#[test]
fn a_value_put_is_found_and_displaces_the_old_one() {
    let mut ladder = sample();
    assert_eq!(ladder.get(&number(2.0)), Some(&2));
    ladder.insert(number(2.0), 9);
    assert_eq!(ladder.get(&number(2.0)), Some(&9));
    assert_eq!(ladder.get(&number(-1.0)), Some(&1));
    assert_eq!(ladder.get(&number(3.0)), None);
    assert_eq!(ladder.len(), 3);
}

#[test]
fn zeros_share_a_level_which_keeps_its_key() {
    let mut ladder = Ladder::new();
    ladder.insert(number(0.0), 1u8);
    ladder.insert(number(-0.0), 2u8);
    assert_eq!(ladder.len(), 1);
    assert_eq!(ladder.level(0).0, number(0.0));
    assert_eq!(ladder.level(0).1, 2);
}

#[test]
fn nan_is_the_greatest_and_equals_itself() {
    let mut ladder = sample();
    ladder.insert(number(f64::NAN), 7);
    ladder.insert(number(f64::INFINITY), 6);
    ladder.insert(number(-f64::NAN), 8);
    assert_eq!(ladder.len(), 5);
    assert_eq!(ladder.level(4).1, 8);
    assert_eq!(ladder.level(3).1, 6);
}

#[test]
fn put_then_removed_is_as_before() {
    let mut ladder = sample();
    ladder.insert(number(5.0), 5);
    ladder.remove(&number(5.0));
    assert_eq!(prices(&ladder), vec![-1.0, 2.0, 10.0]);
    ladder.remove(&number(5.0));
    assert_eq!(prices(&ladder), vec![-1.0, 2.0, 10.0]);
}

#[test]
fn a_value_can_be_changed_in_place() {
    let mut ladder = sample();
    if let Some(value) = ladder.get_mut(&number(10.0)) {
        *value += 1;
    }
    assert_eq!(ladder.get(&number(10.0)), Some(&4));
    assert!(ladder.get_mut(&number(11.0)).is_none());
}

#[test]
fn only_the_ends_are_kept() {
    let mut low = sample();
    low.keep_lowest(2);
    assert_eq!(prices(&low), vec![-1.0, 2.0]);
    let mut high = sample();
    high.keep_highest(1);
    assert_eq!(prices(&high), vec![10.0]);
    high.keep_highest(4);
    assert_eq!(high.len(), 1);
}

#[test]
fn copies_hold_the_same() {
    assert_eq!(prices(&sample().clone()), prices(&sample()));
}

#[test]
fn empty_levels_are_dropped() {
    let mut ladder: Ladder<Binary64, Vec<u8>> = Ladder::new();
    ladder.insert(number(1.0), vec![]);
    ladder.insert(number(2.0), vec![1]);
    ladder.drop_empty();
    assert_eq!(ladder.len(), 1);
    assert_eq!(ladder.level(0).1, vec![1]);
}

#[test]
fn levels_stand_as_in_a_tree_of_ordered_floats() {
    let prices = [
        5.0,
        f64::NAN,
        -0.0,
        f64::NEG_INFINITY,
        1e-320,
        0.0,
        -7.25,
        f64::INFINITY,
        -f64::NAN,
        5.0,
        f64::MIN_POSITIVE,
        -1e-320,
    ];
    let mut ladder: Ladder<Binary64, usize> = Ladder::new();
    let mut tree: BTreeMap<OrderedFloat<f64>, usize> = BTreeMap::new();
    for (i, price) in prices.iter().enumerate() {
        ladder.insert(number(*price), i);
        tree.insert(OrderedFloat(*price), i);
    }
    ladder.remove(&number(-7.25));
    tree.remove(&OrderedFloat(-7.25));
    assert_eq!(ladder.len(), tree.len());
    for (i, (price, value)) in tree.iter().enumerate() {
        assert_eq!(ladder.level(i).0.bits, price.0.to_bits());
        assert_eq!(ladder.level(i).1, *value);
    }
}
