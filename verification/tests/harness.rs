use mold_macho::harness::{contains_bytes, matches_patterns};

#[test]
fn selects_tests_by_substring() {
    assert!(matches_patterns("dead-strip", &[]));
    assert!(matches_patterns("dead-strip", &["strip".to_owned()]));
    assert!(!matches_patterns("hello", &["strip".to_owned()]));
}

#[test]
fn any_pattern_selects() {
    let pats = vec!["zzz".to_owned(), "llo".to_owned()];
    assert!(matches_patterns("hello", &pats));
    assert!(!matches_patterns("help", &pats));
}

#[test]
fn empty_pattern_selects_everything() {
    assert!(matches_patterns("anything", &["".to_owned()]));
    assert!(matches_patterns("", &["".to_owned()]));
    assert!(!matches_patterns("", &["a".to_owned()]));
}

#[test]
fn substring_search_edges() {
    assert!(contains_bytes(b"abc", b"abc"));
    assert!(contains_bytes(b"abc", b"c"));
    assert!(!contains_bytes(b"ab", b"abc"));
    assert!(contains_bytes(b"aab", b"ab"));
}
