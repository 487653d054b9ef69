use thumper::pathmap::PathMap;

#[test]
fn new_map_is_empty() {
    let map: PathMap<u32> = PathMap::new();
    assert_eq!(map.len(), 0);
    assert!(!map.contains("a"));
    assert_eq!(map.get("a"), None);
}

#[test]
fn insert_then_get() {
    let mut map: PathMap<u32> = PathMap::new();
    map.insert("a".to_string(), 1);
    map.insert("b/c".to_string(), 2);
    assert_eq!(map.len(), 2);
    assert_eq!(map.get("a"), Some(&1));
    assert_eq!(map.get("b/c"), Some(&2));
    assert_eq!(map.get("b"), None);
    assert!(map.contains("b/c"));
    assert!(!map.contains("c"));
}

#[test]
fn order_is_that_of_first_arrival() {
    let mut map: PathMap<u32> = PathMap::new();
    map.insert("z".to_string(), 1);
    map.insert("a".to_string(), 2);
    map.insert("m".to_string(), 3);
    assert_eq!(map.path_at(0), "z");
    assert_eq!(map.path_at(1), "a");
    assert_eq!(map.path_at(2), "m");
    assert_eq!(*map.value_at(0), 1);
    assert_eq!(*map.value_at(1), 2);
    assert_eq!(*map.value_at(2), 3);
}

#[test]
fn insert_of_known_path_replaces_value_in_place() {
    let mut map: PathMap<u32> = PathMap::new();
    map.insert("z".to_string(), 1);
    map.insert("a".to_string(), 2);
    map.insert("z".to_string(), 9);
    assert_eq!(map.len(), 2);
    assert_eq!(map.get("z"), Some(&9));
    assert_eq!(map.path_at(0), "z");
    assert_eq!(*map.value_at(0), 9);
    assert_eq!(map.path_at(1), "a");
}

#[test]
fn many_entries_stay_reachable() {
    let mut map: PathMap<usize> = PathMap::new();
    for i in 0..500usize {
        map.insert(format!("dir{}/file{}.txt", i % 7, i), i);
    }
    assert_eq!(map.len(), 500);
    for i in 0..500usize {
        assert_eq!(map.get(&format!("dir{}/file{}.txt", i % 7, i)), Some(&i));
        assert_eq!(*map.value_at(i), i);
    }
}
