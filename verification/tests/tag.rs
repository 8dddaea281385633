use tagsfs::tag::{is_valid_tag, TagSet};

fn set_of(names: &[&str]) -> TagSet {
    let mut set = TagSet::new();
    for name in names {
        set.insert(name.to_string());
    }
    set
}

#[test]
fn new_set_is_empty() {
    let set = TagSet::new();
    assert!(set.is_empty());
    assert_eq!(set.len(), 0);
    assert!(set.to_vec().is_empty());
}

#[test]
fn insert_keeps_ascending_order() {
    let set = set_of(&["red", "big", "zebra", "alpha"]);
    assert_eq!(set.to_vec(), vec!["alpha", "big", "red", "zebra"]);
    assert_eq!(set.len(), 4);
    assert_eq!(set.get(0), "alpha");
    assert_eq!(set.get(3), "zebra");
}

#[test]
fn insert_orders_by_code_point() {
    // Upper case stands before lower case, and a prefix before its extensions.
    let set = set_of(&["b", "a", "B", "ab", "é", "z"]);
    assert_eq!(set.to_vec(), vec!["B", "a", "ab", "b", "z", "é"]);
}

#[test]
fn insert_reports_whether_the_tag_was_new() {
    let mut set = TagSet::new();
    assert!(set.insert("red".to_string()));
    assert!(!set.insert("red".to_string()));
    assert!(set.insert("big".to_string()));
    assert_eq!(set.len(), 2);
}

#[test]
fn order_of_insertion_does_not_matter() {
    let a = set_of(&["red", "big", "old"]);
    let b = set_of(&["old", "red", "big"]);
    let c = set_of(&["big", "old", "red", "big"]);
    assert_eq!(a, b);
    assert_eq!(a, c);
    assert_eq!(a.to_vec(), b.to_vec());
}

#[test]
fn contains_finds_members_only() {
    let set = set_of(&["red", "big"]);
    assert!(set.contains("red"));
    assert!(set.contains("big"));
    assert!(!set.contains("re"));
    assert!(!set.contains("redd"));
    assert!(!set.contains(""));
}

#[test]
fn subset_of_a_wider_set() {
    let small = set_of(&["red"]);
    let wide = set_of(&["red", "big"]);
    let other = set_of(&["big", "old"]);
    assert!(TagSet::new().is_subset(&small));
    assert!(TagSet::new().is_subset(&TagSet::new()));
    assert!(small.is_subset(&wide));
    assert!(wide.is_subset(&wide));
    assert!(!wide.is_subset(&small));
    assert!(!small.is_subset(&other));
}

#[test]
fn difference_drops_what_the_other_has() {
    let a = set_of(&["red", "big", "old"]);
    let b = set_of(&["big", "new"]);
    assert_eq!(a.difference(&b).to_vec(), vec!["old", "red"]);
    assert_eq!(b.difference(&a).to_vec(), vec!["new"]);
    assert!(a.difference(&a).is_empty());
    assert_eq!(a.difference(&TagSet::new()), a);
}

#[test]
fn clone_is_equal() {
    let a = set_of(&["red", "big"]);
    let b = a.clone();
    assert_eq!(a, b);
    assert_eq!(b.to_vec(), vec!["big", "red"]);
}

#[test]
fn tag_names_are_not_empty_and_have_no_separator() {
    assert!(is_valid_tag("red"));
    assert!(is_valid_tag("a b"));
    assert!(is_valid_tag("é"));
    assert!(!is_valid_tag(""));
    assert!(!is_valid_tag("/"));
    assert!(!is_valid_tag("a/b"));
    assert!(!is_valid_tag("red/"));
}

#[test]
fn singleton_holds_one_tag() {
    let set = TagSet::singleton("red".to_string());
    assert_eq!(set.to_vec(), vec!["red"]);
    assert_eq!(set, set_of(&["red"]));
    assert!(!set.is_empty());
}
