use std::collections::BTreeMap;

use pubg_analyzer_core::grouping::{group_by_key, group_by_name, text_less};

#[test]
fn key_groups_follow_btreemap_order() {
    let keys = vec![(2, -1, 0), (1, 5, 3), (2, -1, 0), (1, 5, -3), (-4, 0, 0), (1, 5, 3)];
    let groups = group_by_key(&keys);
    let mut expected: BTreeMap<(i64, i64, i64), Vec<usize>> = BTreeMap::new();
    for (index, key) in keys.iter().enumerate() {
        expected.entry(*key).or_default().push(index);
    }
    let actual: Vec<((i64, i64, i64), Vec<usize>)> =
        groups.into_iter().map(|group| (group.key, group.members)).collect();
    assert_eq!(actual, expected.into_iter().collect::<Vec<_>>());
}

#[test]
fn name_groups_follow_string_order() {
    let names: Vec<String> = ["Erangel_Main", "Baltic_Main", "", "Baltic", "\u{e9}t\u{e9}", "Erangel_Main"]
        .iter()
        .map(|name| (*name).to_owned())
        .collect();
    let groups = group_by_name(&names);
    let mut expected: BTreeMap<String, Vec<usize>> = BTreeMap::new();
    for (index, name) in names.iter().enumerate() {
        expected.entry(name.clone()).or_default().push(index);
    }
    let actual: Vec<(String, Vec<usize>)> =
        groups.into_iter().map(|group| (group.name, group.members)).collect();
    assert_eq!(actual, expected.into_iter().collect::<Vec<_>>());
}

#[test]
fn no_groups_for_no_keys() {
    assert!(group_by_key(&Vec::new()).is_empty());
    assert!(group_by_name(&Vec::new()).is_empty());
}

#[test]
fn text_order_matches_string_order() {
    for (a, b) in [("a", "b"), ("ab", "a"), ("", "a"), ("same", "same"), ("Z", "a"), ("\u{e9}", "z")] {
        assert_eq!(text_less(a, b), a < b, "{a:?} < {b:?}");
    }
}
