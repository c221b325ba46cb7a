use market_maker::string_map::StringMap;

fn sample() -> StringMap<u32> {
    let mut map = StringMap::new();
    map.insert("one".to_string(), 1);
    map.insert("two".to_string(), 2);
    map.insert("three".to_string(), 3);
    map
}

#[test]
fn what_is_stored_is_found() {
    let map = sample();
    assert_eq!(map.len(), 3);
    assert_eq!(map.get("two"), Some(&2));
    assert_eq!(map.get("four"), None);
    assert!(map.contains_key("one"));
    assert!(!map.contains_key("ONE"));
}

#[test]
fn storing_again_displaces_in_place() {
    let mut map = sample();
    assert_eq!(map.insert("two".to_string(), 22), Some(2));
    assert_eq!(map.insert("four".to_string(), 4), None);
    assert_eq!(map.values(), vec![&1, &22, &3, &4]);
    assert_eq!(map.entry(1), &("two".to_string(), 22));
}

#[test]
fn removing_gives_the_value_back() {
    let mut map = sample();
    assert_eq!(map.remove("two"), Some(2));
    assert_eq!(map.remove("two"), None);
    assert_eq!(map.values(), vec![&1, &3]);
}

#[test]
fn copies_of_maps_hold_the_same() {
    assert_eq!(sample().clone().values(), sample().values());
}
