use capture::bounded_recency::{BoundedInsertDisplacement, BoundedRecencyMap};
use capture::ebpf::descriptor_lease::DescriptorLeaseKey;

fn key(fd: i32) -> DescriptorLeaseKey {
    DescriptorLeaseKey::from_observed(100, fd, 1).expect("a valid descriptor")
}

fn value(text: &str) -> String {
    text.to_string()
}

fn three_of_three() -> BoundedRecencyMap<DescriptorLeaseKey, String> {
    let mut map = BoundedRecencyMap::new(3);
    map.insert(key(1), value("one"));
    map.insert(key(2), value("two"));
    map.insert(key(3), value("three"));
    map
}

#[test]
fn oldest_entry_makes_room() {
    let mut map = three_of_three();
    let displaced = map.insert_displacing(key(4), value("four"));
    assert!(matches!(
        displaced,
        Some(BoundedInsertDisplacement::Evicted { key: evicted, value })
            if evicted == key(1) && value == "one"
    ));
    assert_eq!(map.len(), 3);
    assert!(map.get(&key(1)).is_none());
    assert_eq!(map.values_by_recency(), vec!["two", "three", "four"]);
}

#[test]
fn used_entry_outlives_others() {
    let mut map = three_of_three();
    assert!(map.refresh(&key(1)));
    assert!(!map.refresh(&key(9)));
    map.insert(key(4), value("four"));
    assert_eq!(map.get(&key(1)), Some(&value("one")));
    assert!(map.get(&key(2)).is_none());
    assert_eq!(map.keys(), vec![&key(3), &key(1), &key(4)]);
}

#[test]
fn replaced_entry_comes_back() {
    let mut map = three_of_three();
    let displaced = map.insert_displacing(key(2), value("other"));
    assert!(matches!(
        displaced,
        Some(BoundedInsertDisplacement::Replaced { value, .. }) if value == "two"
    ));
    assert_eq!(map.len(), 3);
    assert_eq!(map.values_by_recency(), vec!["one", "three", "other"]);
}

#[test]
fn map_for_nothing_drops_what_is_inserted() {
    let mut map = BoundedRecencyMap::new(0);
    let displaced = map.insert_displacing(key(1), value("one"));
    assert!(matches!(
        displaced,
        Some(BoundedInsertDisplacement::Dropped { key: dropped, value })
            if dropped == key(1) && value == "one"
    ));
    assert_eq!(map.len(), 0);
}

#[test]
fn entries_are_changed_and_taken_out() {
    let mut map = three_of_three();
    if let Some(value) = map.get_mut(&key(2)) {
        value.push_str(" again");
    }
    assert_eq!(map.remove(&key(2)), Some(value("two again")));
    assert_eq!(map.remove(&key(2)), None);
    assert_eq!(map.len(), 2);
    map.clear();
    assert_eq!(map.len(), 0);
    assert!(map.get(&key(1)).is_none());
}
