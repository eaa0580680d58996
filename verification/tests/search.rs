use rustlp::search::noaccents;
use std::cmp::Ordering;

#[test]
fn matching_title_compares_equal() {
    assert_eq!(noaccents("Hello World", "o W"), Ordering::Equal);
    assert_eq!(noaccents("Hello", "Hello"), Ordering::Equal);
}

#[test]
fn non_matching_title_compares_greater() {
    assert_eq!(noaccents("abc", "xyz"), Ordering::Greater);
    assert_eq!(noaccents("", "query"), Ordering::Greater);
}

#[test]
fn matching_ignores_case() {
    assert_eq!(noaccents("ABC", "abc"), Ordering::Equal);
    assert_eq!(noaccents("abc", "ABC"), Ordering::Equal);
}

#[test]
fn matching_ignores_accents() {
    assert_eq!(noaccents("Ärger", "arger"), Ordering::Equal);
    assert_eq!(noaccents("étude", "etude"), Ordering::Equal);
    assert_eq!(noaccents("plain", "étude"), Ordering::Greater);
}

#[test]
fn empty_query_always_matches() {
    assert_eq!(noaccents("", ""), Ordering::Equal);
    assert_eq!(noaccents("anything", ""), Ordering::Equal);
}
