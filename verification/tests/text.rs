use covert::namespace::new_root_namespace;
use covert::text::{
    concat2, concat3, decimal_text, join, str_chars, str_contains, str_ends_with_char,
    str_equal, str_starts_with, str_starts_with_char,
};

#[test]
fn text_helpers() {
    assert_eq!(str_chars("ab"), vec!['a', 'b']);
    assert_eq!(concat2("a", "b"), "ab");
    assert_eq!(concat3("a", "b", "c"), "abc");
    assert!(str_starts_with("sys/mounts", "sys/"));
    assert!(!str_starts_with("sy", "sys/"));
    assert!(str_starts_with_char("/a", '/'));
    assert!(str_ends_with_char("a/", '/'));
    assert!(str_contains("file::memory:", ":memory:"));
    assert!(!str_contains("file.db", ":memory:"));
    assert!(str_equal("abc", "abc"));
    assert!(!str_equal("abc", "abd"));
}

#[test]
fn joining_and_digits() {
    assert_eq!(join(&vec![], ", "), "");
    assert_eq!(join(&vec!["a".to_string()], ", "), "a");
    assert_eq!(
        join(&vec!["a".to_string(), "b".to_string(), "c".to_string()], "/"),
        "a/b/c"
    );
    assert_eq!(decimal_text(0), "0");
    assert_eq!(decimal_text(7), "7");
    assert_eq!(decimal_text(10), "10");
    assert_eq!(decimal_text(12345), "12345");
}

#[test]
fn uuids_are_fresh() {
    let a = new_root_namespace().id;
    let b = new_root_namespace().id;
    assert_eq!(a.len(), 36);
    assert_ne!(a, b);
    assert_eq!(&a[14..15], "4");
}
