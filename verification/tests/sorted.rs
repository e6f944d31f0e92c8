use visionary::ordering::sort_texts;
use visionary::paths::{at_root, file_extension, file_name, join, path_parts, same_path};
use visionary::sorted::SortedMap;

#[test]
fn a_map_keeps_its_keys_in_order() {
    let mut map: SortedMap<u64, &str> = SortedMap::new();
    for (key, value) in [(5, "e"), (1, "a"), (3, "c"), (5, "E")] {
        map.insert(key, value);
    }
    assert_eq!(map.len(), 3);
    let keys: Vec<u64> = (0..map.len()).map(|i| *map.key_at(i)).collect();
    assert_eq!(keys, vec![1, 3, 5]);
    assert_eq!(map.get(&5), Some(&"E"));
    assert_eq!(map.get(&4), None);
    assert!(map.contains_key(&1));
    assert_eq!(map.remove(&3), Some("c"));
    assert_eq!(map.remove(&3), None);
    assert_eq!(map.find(&5), Some(1));
    map.update_at(0, "b");
    assert_eq!(map.value_at(0), &"b");
    assert_eq!(map.remove_at(1), "E");
    assert_eq!(map.len(), 1);
}

#[test]
fn keys_of_several_parts_are_ordered_by_the_first_that_differs() {
    let mut map: SortedMap<(i32, u64, u32), u8> = SortedMap::new();
    for key in [(1, 0, 0), (-1, 9, 9), (1, 0, 1), (1, 1, 0), (-1, 9, 8)] {
        map.insert(key, 0);
    }
    let keys: Vec<(i32, u64, u32)> = (0..map.len()).map(|i| *map.key_at(i)).collect();
    let mut sorted = keys.clone();
    sorted.sort();
    assert_eq!(keys, sorted);
    assert_eq!(keys.len(), 5);
}

#[test]
fn texts_are_sorted_and_repetitions_kept() {
    let items: Vec<String> = ["b", "a", "c", "a", ""].iter().map(|t| t.to_string()).collect();
    let mut expected = items.clone();
    expected.sort();
    assert_eq!(sort_texts(&items), expected);
}

#[test]
fn paths_are_compared_by_their_parts() {
    assert!(same_path("/a/b", "/a//b/"));
    assert!(same_path("/a/./b", "/a/b"));
    assert!(!same_path("a/b", "/a/b"));
    assert!(!same_path("./a", "a"));
    assert!(!same_path("/a/../b", "/b"));
    assert_eq!(path_parts("/a//b/./c/"), vec!["a", "b", "c"]);
    assert!(at_root("/x"));
    assert!(!at_root("x"));
}

#[test]
fn paths_are_taken_apart_and_put_together() {
    assert_eq!(join("/a", "b"), "/a/b");
    assert_eq!(join("/a/", "b"), "/a/b");
    assert_eq!(join("", "b"), "b");
    assert_eq!(join("/a", "/b"), "/b");
    assert_eq!(file_name("/a/b.txt").as_deref(), Some("b.txt"));
    assert_eq!(file_name("/a/b/").as_deref(), Some("b"));
    assert_eq!(file_name("/a/.."), None);
    assert_eq!(file_name("/"), None);
    assert_eq!(file_extension("/a/b.tar.gz"), "gz");
    assert_eq!(file_extension("/a/.hidden"), "");
    assert_eq!(file_extension("/a/b."), "");
}
