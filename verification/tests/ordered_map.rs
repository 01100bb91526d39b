use profiles::ordered_map::OrderedMap;
use profiles::route::Route;

fn list(map: &OrderedMap<u64, &'static str>) -> Vec<(u64, &'static str)> {
    map.iter().into_iter().map(|(k, v)| (*k, *v)).collect()
}

#[test]
fn new_map_is_empty() {
    assert_eq!(list(&OrderedMap::new()), Vec::new());
}

#[test]
fn entries_keep_the_order_of_insertion() {
    let mut map = OrderedMap::new();
    assert_eq!(map.insert(3, "c"), None);
    assert_eq!(map.insert(1, "a"), None);
    assert_eq!(map.insert(2, "b"), None);
    assert_eq!(list(&map), vec![(3, "c"), (1, "a"), (2, "b")]);
}

#[test]
fn inserting_again_keeps_the_place() {
    let mut map = OrderedMap::new();
    map.insert(3, "c");
    map.insert(1, "a");
    assert_eq!(map.insert(3, "z"), Some("c"));
    assert_eq!(list(&map), vec![(3, "z"), (1, "a")]);
}

#[test]
fn last_entry_takes_the_place_of_a_removed_one() {
    let mut map = OrderedMap::new();
    map.insert(1, "a");
    map.insert(2, "b");
    map.insert(3, "c");
    map.insert(4, "d");
    assert_eq!(map.remove(&2), Some("b"));
    assert_eq!(list(&map), vec![(1, "a"), (4, "d"), (3, "c")]);
    assert_eq!(map.remove(&3), Some("c"));
    assert_eq!(list(&map), vec![(1, "a"), (4, "d")]);
    assert_eq!(map.remove(&9), None);
    assert_eq!(list(&map), vec![(1, "a"), (4, "d")]);
}

#[test]
fn default_route_has_no_labels() {
    assert_eq!(Route::default().labels.len(), 0);
}

#[test]
fn clone_of_a_route_has_the_same_labels() {
    let mut route = Route::default();
    route.labels.insert("b".to_string(), "2".to_string());
    route.labels.insert("a".to_string(), "1".to_string());
    let copy = route.clone();
    let labels: Vec<(String, String)> = copy.labels.into_iter().collect();
    assert_eq!(
        labels,
        vec![("b".to_string(), "2".to_string()), ("a".to_string(), "1".to_string())]
    );
    assert_eq!(route.labels.len(), 2);
}
