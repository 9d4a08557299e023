use next_api::module_map::ModuleMap;

#[test]
fn new_map_is_empty() {
    let map: ModuleMap<u32> = ModuleMap::new();
    assert_eq!(map.len(), 0);
    assert!(map.get(7).is_none());
    assert!(map.get_index(0).is_none());
}

#[test]
fn insert_appends_new_keys_in_order() {
    let mut map: ModuleMap<&str> = ModuleMap::new();
    assert_eq!(map.insert(30, "thirty"), None);
    assert_eq!(map.insert(10, "ten"), None);
    assert_eq!(map.insert(20, "twenty"), None);
    assert_eq!(map.len(), 3);
    assert_eq!(map.get_index(0), Some((30, &"thirty")));
    assert_eq!(map.get_index(1), Some((10, &"ten")));
    assert_eq!(map.get_index(2), Some((20, &"twenty")));
    assert_eq!(map.get_index(3), None);
}

#[test]
fn insert_replaces_in_place_and_returns_the_old_value() {
    let mut map: ModuleMap<&str> = ModuleMap::new();
    map.insert(1, "a");
    map.insert(2, "b");
    map.insert(3, "c");
    assert_eq!(map.insert(2, "B"), Some("b"));
    assert_eq!(map.len(), 3);
    assert_eq!(map.get_index(0), Some((1, &"a")));
    assert_eq!(map.get_index(1), Some((2, &"B")));
    assert_eq!(map.get_index(2), Some((3, &"c")));
}

#[test]
fn get_finds_the_value_of_a_key() {
    let mut map: ModuleMap<u32> = ModuleMap::new();
    map.insert(5, 50);
    map.insert(6, 60);
    assert_eq!(map.get(5), Some(&50));
    assert_eq!(map.get(6), Some(&60));
    assert_eq!(map.get(50), None);
    assert_eq!(map.get(0), None);
}

#[test]
fn keys_at_the_ends_of_the_range_are_kept_apart() {
    let mut map: ModuleMap<u8> = ModuleMap::new();
    map.insert(u64::MAX, 1);
    map.insert(0, 2);
    assert_eq!(map.get(u64::MAX), Some(&1));
    assert_eq!(map.get(0), Some(&2));
    assert_eq!(map.get_index(0), Some((u64::MAX, &1)));
}
