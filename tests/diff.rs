use zdoc::api::ApiItem;
use zdoc::diff::compare_api_items;

fn api(path: &[&str], name: &str, kind: &str, signature: &str) -> ApiItem {
    ApiItem {
        name: name.to_string(),
        item_type: kind.to_string(),
        path: path.iter().map(|p| p.to_string()).collect(),
        signature: signature.to_string(),
    }
}

fn paths(items: &[ApiItem]) -> Vec<String> {
    items.iter().map(|i| i.full_path()).collect()
}

fn sample_old() -> Vec<ApiItem> {
    vec![
        api(&["k"], "gone", "Function", "()"),
        api(&["k"], "bar", "Struct", "{ 2 fields }"),
        api(&["k"], "same", "Enum", "{ 1 variants }"),
        api(&["k", "m"], "moved", "Function", "(a: u8)"),
    ]
}

fn sample_new() -> Vec<ApiItem> {
    vec![
        api(&["k"], "bar", "Struct", "{ 3 fields }"),
        api(&["k"], "same", "Enum", "{ 1 variants }"),
        api(&["k"], "fresh", "Trait", "{ 0 items }"),
        api(&["k"], "moved", "Function", "(a: u8)"),
    ]
}

#[test]
fn struct_field_count_change_is_modified() {
    let old = vec![api(&[], "bar", "Struct", "{ 2 fields }")];
    let new = vec![api(&[], "bar", "Struct", "{ 3 fields }")];
    let (added, removed, modified) = compare_api_items(old, new);
    assert!(added.is_empty());
    assert!(removed.is_empty());
    assert_eq!(modified.len(), 1);
    assert_eq!(modified[0].0.signature, "{ 2 fields }");
    assert_eq!(modified[0].1.signature, "{ 3 fields }");
    assert_eq!(modified[0].0.name, "bar");
}

#[test]
fn categories_of_a_mixed_change() {
    let (added, removed, modified) = compare_api_items(sample_old(), sample_new());
    assert_eq!(paths(&added), vec!["k::fresh", "k::moved"]);
    assert_eq!(paths(&removed), vec!["k::gone", "k::m::moved"]);
    assert_eq!(modified.len(), 1);
    assert_eq!(modified[0].0.full_path(), "k::bar");
    assert_eq!(modified[0].1.full_path(), "k::bar");
}

#[test]
fn diff_is_symmetric_on_an_example() {
    let (added_ab, removed_ab, modified_ab) = compare_api_items(sample_old(), sample_new());
    let (added_ba, removed_ba, modified_ba) = compare_api_items(sample_new(), sample_old());
    assert_eq!(added_ab, removed_ba);
    assert_eq!(removed_ab, added_ba);
    assert_eq!(modified_ab.len(), modified_ba.len());
    assert_eq!(modified_ab[0].0, modified_ba[0].1);
    assert_eq!(modified_ab[0].1, modified_ba[0].0);
}

#[test]
fn diff_with_itself_is_empty() {
    let (added, removed, modified) = compare_api_items(sample_old(), sample_old());
    assert!(added.is_empty());
    assert!(removed.is_empty());
    assert!(modified.is_empty());
    let (added, removed, modified) = compare_api_items(vec![], vec![]);
    assert!(added.is_empty() && removed.is_empty() && modified.is_empty());
}

#[test]
fn modified_pairs_share_key_and_differ_in_signature() {
    let (added, removed, modified) = compare_api_items(sample_old(), sample_new());
    for (old, new) in &modified {
        assert_eq!(format!("{}::{}", old.full_path(), old.item_type), format!("{}::{}", new.full_path(), new.item_type));
        assert_ne!(old.signature, new.signature);
    }
    let key = |i: &ApiItem| format!("{}::{}", i.full_path(), i.item_type);
    for a in &added {
        assert!(removed.iter().all(|r| key(r) != key(a)));
        assert!(modified.iter().all(|(o, _)| key(o) != key(a)));
    }
    for r in &removed {
        assert!(modified.iter().all(|(o, _)| key(o) != key(r)));
    }
}

#[test]
fn results_are_sorted_and_ignore_input_order() {
    let (added, removed, modified) = compare_api_items(sample_old(), sample_new());
    let mut old_shuffled = sample_old();
    old_shuffled.reverse();
    let mut new_shuffled = sample_new();
    new_shuffled.rotate_left(2);
    let (added2, removed2, modified2) = compare_api_items(old_shuffled, new_shuffled);
    assert_eq!(added, added2);
    assert_eq!(removed, removed2);
    assert_eq!(modified, modified2);
    let sorted = |v: &Vec<String>| v.windows(2).all(|w| w[0] < w[1]);
    assert!(sorted(&paths(&added)));
    assert!(sorted(&paths(&removed)));
}

#[test]
fn same_path_different_kind_are_distinct() {
    let old = vec![api(&["k"], "thing", "Function", "()")];
    let new = vec![api(&["k"], "thing", "Struct", "{ 0 fields }"), api(&["k"], "thing", "Function", "()")];
    let (added, removed, modified) = compare_api_items(old, new);
    assert_eq!(added.len(), 1);
    assert_eq!(added[0].item_type, "Struct");
    assert!(removed.is_empty());
    assert!(modified.is_empty());
}

#[test]
fn ties_on_full_path_are_ordered_by_kind() {
    let new = vec![api(&[], "x", "Struct", ""), api(&[], "x", "Function", ""), api(&[], "w", "Trait", "")];
    let (added, _, _) = compare_api_items(vec![], new);
    let kinds: Vec<String> = added.iter().map(|i| format!("{} {}", i.full_path(), i.item_type)).collect();
    assert_eq!(kinds, vec!["w Trait", "x Function", "x Struct"]);
}

#[test]
fn last_occurrence_stands_for_a_repeated_declaration() {
    let old = vec![api(&[], "f", "Function", "(a: u8)"), api(&[], "f", "Function", "(b: u8)")];
    let new = vec![api(&[], "f", "Function", "(b: u8)")];
    let (added, removed, modified) = compare_api_items(old, new);
    assert!(added.is_empty() && removed.is_empty() && modified.is_empty());
    let old = vec![api(&[], "f", "Function", "(b: u8)"), api(&[], "f", "Function", "(a: u8)")];
    let new = vec![api(&[], "f", "Function", "(b: u8)")];
    let (_, _, modified) = compare_api_items(old, new);
    assert_eq!(modified.len(), 1);
    assert_eq!(modified[0].0.signature, "(a: u8)");
}

#[test]
fn path_order_is_by_code_point() {
    let new = vec![api(&[], "b", "Function", ""), api(&[], "B", "Function", ""), api(&[], "a_b", "Function", ""), api(&[], "ab", "Function", "")];
    let (added, _, _) = compare_api_items(vec![], new);
    assert_eq!(paths(&added), vec!["B", "a_b", "ab", "b"]);
}

#[test]
fn equal_identity_keys_are_one_declaration() {
    let old = vec![api(&[], "x", "a::b", "(a: u8)")];
    let new = vec![api(&["x"], "a", "b", "(b: u8)")];
    let (added, removed, modified) = compare_api_items(old, new);
    assert!(added.is_empty());
    assert!(removed.is_empty());
    assert_eq!(modified.len(), 1);
    assert_eq!(modified[0].0.full_path(), "x");
    assert_eq!(modified[0].1.full_path(), "x::a");
    let old = vec![api(&[], "x", "a::b", "()")];
    let new = vec![api(&["x"], "a", "b", "()")];
    let (added, removed, modified) = compare_api_items(old, new);
    assert!(added.is_empty() && removed.is_empty() && modified.is_empty());
}

#[test]
fn later_item_with_an_equal_key_stands_for_it() {
    let new = vec![api(&[], "x", "a::b", "first"), api(&["x"], "a", "b", "second")];
    let (added, _, _) = compare_api_items(vec![], new);
    assert_eq!(added.len(), 1);
    assert_eq!(added[0].signature, "second");
}
