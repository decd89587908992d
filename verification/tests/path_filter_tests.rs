//! Tests of the path model and the filter engine.

use rjrssync::filter::Filters;
use rjrssync::path::PathOrder;
use rjrssync::path::RootRelativePath;

#[test]
fn normalize_fixes_separators_and_trailing_slashes() {
    let p = RootRelativePath::normalize("a\\b\\c").unwrap();
    assert_eq!(p.as_bytes(), b"a/b/c");
    let q = RootRelativePath::normalize("a/b/").unwrap();
    assert_eq!(q.as_bytes(), b"a/b");
    assert!(RootRelativePath::normalize("/leading").is_err());
    assert!(RootRelativePath::new("a//b").is_err());
    assert!(RootRelativePath::new("a\\b").is_err());
}

#[test]
fn canonical_order_is_lexicographic() {
    let a = RootRelativePath::new("a").unwrap();
    let ab = RootRelativePath::new("a/b").unwrap();
    let b = RootRelativePath::new("b").unwrap();
    let root = RootRelativePath::root();
    assert!(matches!(root.compare(&a), PathOrder::Less));
    assert!(matches!(a.compare(&ab), PathOrder::Less));
    assert!(matches!(ab.compare(&b), PathOrder::Less));
    assert!(matches!(b.compare(&b), PathOrder::Equal));
    assert!(matches!(b.compare(&a), PathOrder::Greater));
}

#[test]
fn first_matching_filter_rule_decides() {
    let filters = Filters::compile(&vec![
        "+.*\\.txt".to_string(),
        "-subfolder".to_string(),
    ])
    .unwrap();
    // The first filter is an include, so only matching entries are synced.
    assert!(filters.passes(b"notes.txt"));
    assert!(!filters.passes(b"notes.dat"));
    // A match must cover the entire path, not a substring of it.
    assert!(!filters.passes(b"prefix-notes.txt-suffix"));
    // The implicit default is the opposite of the first rule's polarity.
    assert!(!filters.passes(b"subfolder"));
}

#[test]
fn excluded_folders_prune_their_subtree() {
    let filters = Filters::compile(&vec!["-sub".to_string()]).unwrap();
    let inside = RootRelativePath::new("sub/kept.txt").unwrap();
    let outside = RootRelativePath::new("kept.txt").unwrap();
    // The file inside the excluded folder would pass the filter itself, but
    // its parent folder is pruned.
    assert!(filters.passes(b"sub/kept.txt"));
    assert!(!filters.includes(&inside));
    assert!(filters.includes(&outside));
}

#[test]
fn invalid_filters_are_rejected() {
    assert!(Filters::compile(&vec!["nosign".to_string()]).is_err());
    assert!(Filters::compile(&vec!["+(unclosed".to_string()]).is_err());
    assert!(Filters::compile(&vec!["".to_string()]).is_err());
}
