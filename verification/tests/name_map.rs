use ebdb::name_map::NameMap;

#[test]
fn new_map_is_empty() {
    let map: NameMap<u64> = NameMap::new();
    assert_eq!(map.len(), 0);
    assert!(!map.contains_key("a"));
    assert!(map.get("a").is_none());
}

#[test]
fn insert_adds_behind_the_others() {
    let mut map: NameMap<u64> = NameMap::new();
    map.insert("b".to_string(), 2);
    map.insert("a".to_string(), 1);
    map.insert("c".to_string(), 3);
    assert_eq!(map.len(), 3);
    assert_eq!(map.name_at(0), "b");
    assert_eq!(map.name_at(1), "a");
    assert_eq!(map.name_at(2), "c");
    assert_eq!(*map.value_at(0), 2);
    assert_eq!(*map.value_at(1), 1);
    assert_eq!(*map.value_at(2), 3);
    assert_eq!(map.get("a"), Some(&1));
    assert_eq!(map.get("b"), Some(&2));
    assert_eq!(map.get("c"), Some(&3));
    assert_eq!(map.get("d"), None);
    assert!(map.contains_key("c"));
    assert!(!map.contains_key(""));
}

#[test]
fn insert_replaces_in_place() {
    let mut map: NameMap<u64> = NameMap::new();
    map.insert("a".to_string(), 1);
    map.insert("b".to_string(), 2);
    map.insert("a".to_string(), 10);
    assert_eq!(map.len(), 2);
    assert_eq!(map.name_at(0), "a");
    assert_eq!(*map.value_at(0), 10);
    assert_eq!(map.name_at(1), "b");
    assert_eq!(map.get("a"), Some(&10));
}

#[test]
fn names_are_told_apart_by_every_character() {
    let mut map: NameMap<u64> = NameMap::new();
    map.insert("ab".to_string(), 1);
    map.insert("abc".to_string(), 2);
    map.insert("Ab".to_string(), 3);
    map.insert("".to_string(), 4);
    assert_eq!(map.len(), 4);
    assert_eq!(map.get("ab"), Some(&1));
    assert_eq!(map.get("abc"), Some(&2));
    assert_eq!(map.get("Ab"), Some(&3));
    assert_eq!(map.get(""), Some(&4));
    assert_eq!(map.get("a"), None);
}
