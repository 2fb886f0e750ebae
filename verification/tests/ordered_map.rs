use token_ceiling::ordered_map::OrderedMap;

fn keys(map: &OrderedMap<u64>) -> Vec<String> {
    let mut keys = Vec::new();
    for index in 0..map.len() {
        keys.push(map.key_at(index).to_owned());
    }
    keys
}

#[test]
fn keys_come_out_in_the_order_of_str() {
    let mut sorted = vec!["", "a", "aa", "ab", "b", "B", "z", "\u{e9}", "\u{ffff}", "\u{10000}"];
    let mut map: OrderedMap<u64> = OrderedMap::new();
    for key in ["b", "\u{10000}", "ab", "", "z", "\u{ffff}", "B", "aa", "\u{e9}", "a"] {
        map.insert(key, key.len() as u64);
    }
    sorted.sort();
    assert_eq!(keys(&map), sorted);
    for key in sorted {
        assert_eq!(map.get(key), Some(&(key.len() as u64)));
    }
}

#[test]
fn inserting_again_replaces_the_value() {
    let mut map: OrderedMap<u64> = OrderedMap::new();
    assert!(map.is_empty());
    map.insert("b", 1);
    map.insert("a", 2);
    map.insert("b", 3);
    assert!(!map.is_empty());
    assert_eq!(map.len(), 2);
    assert_eq!(map.get("b"), Some(&3));
    assert_eq!(*map.value_at(0), 2);
    assert_eq!(map.get("ab"), None);
    assert_eq!(map.get(""), None);
}
