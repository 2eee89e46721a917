use covert::trie::{NodeRef, Trie};

#[test]
fn insert_and_get() {
    let mut trie = Trie::default();
    assert_eq!(trie.get("/foo"), None);
    assert!(trie.insert("/foo", "bar").is_none());
    assert_eq!(trie.get("/foo"), Some(&"bar"));
}

#[test]
fn remove() {
    let mut trie = Trie::default();
    assert!(trie.insert("/foo", "bar").is_none());
    assert_eq!(trie.get("/foo"), Some(&"bar"));
    trie.remove("/foo");
    assert_eq!(trie.get("/foo"), None);
}

#[test]
fn get() {
    let mut trie = Trie::default();
    assert!(trie.insert("/foo", "foo").is_none());
    assert!(trie.insert("/foo/bar", "foo_bar").is_none());
    assert!(trie.insert("/foo/bar/baz", "foo_bar_baz").is_none());
    assert_eq!(trie.get("/foo"), Some(&"foo"));
    assert_eq!(trie.get("/foo/"), None);
    assert_eq!(trie.get("/foo/bar"), Some(&"foo_bar"));
    assert_eq!(trie.get("/foo/bar/"), None);
    assert_eq!(trie.get("/foo/bar/baz"), Some(&"foo_bar_baz"));
    assert_eq!(trie.get("/foo/bar/baz/"), None);
}

#[test]
fn trie_longest_prefix() {
    let mut trie = Trie::default();
    assert!(trie.insert("/foo", "foo").is_none());
    assert!(trie.insert("/foo/bar", "foo_bar").is_none());
    assert!(trie.insert("/foo/bar/baz", "foo_bar_baz").is_none());
    assert_eq!(trie.longest_prefix("/"), None);
    assert_eq!(
        trie.longest_prefix("/foo"),
        Some(NodeRef {
            prefix: &"/foo",
            value: &"foo",
        })
    );
    assert_eq!(
        trie.longest_prefix("/foo/ba"),
        Some(NodeRef {
            prefix: &"/foo",
            value: &"foo",
        })
    );
    assert_eq!(
        trie.longest_prefix("/foo/bar"),
        Some(NodeRef {
            prefix: &"/foo/bar",
            value: &"foo_bar",
        })
    );
    assert_eq!(
        trie.longest_prefix("/foo/bar/ba"),
        Some(NodeRef {
            prefix: &"/foo/bar",
            value: &"foo_bar",
        })
    );
    assert_eq!(
        trie.longest_prefix("/foo/bar/baz"),
        Some(NodeRef {
            prefix: &"/foo/bar/baz",
            value: &"foo_bar_baz",
        })
    );
    assert_eq!(
        trie.longest_prefix("/foo/bar/baz/"),
        Some(NodeRef {
            prefix: &"/foo/bar/baz",
            value: &"foo_bar_baz",
        })
    );
}

#[test]
fn get_router_mounts() {
    let mut trie = Trie::default();
    assert!(trie.insert("/foo", "foo").is_none());
    assert!(trie.insert("/foo/bar", "foo").is_none());
    assert!(trie.insert("/foo/bar2", "foo").is_none());
    assert!(trie.insert("/foo/bar3", "foo").is_none());
    assert!(trie.insert("/foo/bar4/baz", "foo").is_none());

    assert_eq!(
        trie.mounts(),
        vec![
            NodeRef {
                prefix: &"/foo",
                value: &"foo"
            },
            NodeRef {
                prefix: &"/foo/bar",
                value: &"foo"
            },
            NodeRef {
                prefix: &"/foo/bar2",
                value: &"foo"
            },
            NodeRef {
                prefix: &"/foo/bar3",
                value: &"foo"
            },
            NodeRef {
                prefix: &"/foo/bar4/baz",
                value: &"foo"
            },
        ]
    );
}

#[test]
fn insert_replaces_and_returns_previous_value() {
    let mut trie = Trie::default();
    assert_eq!(trie.insert("/foo", 1), None);
    assert_eq!(trie.insert("/foo", 2), Some(1));
    assert_eq!(trie.get("/foo"), Some(&2));
    assert_eq!(trie.insert("", 3), None);
    assert_eq!(trie.get(""), None);
}

#[test]
fn removal_keeps_unrelated_paths() {
    let mut trie = Trie::default();
    trie.insert("/foo", "foo");
    trie.insert("/bar", "bar");
    trie.remove("/foo");
    assert_eq!(trie.get("/foo"), None);
    assert_eq!(trie.get("/bar"), Some(&"bar"));
}

#[test]
fn removal_prunes_ancestors_on_the_removed_path() {
    let mut trie = Trie::default();
    trie.insert("/foo", "foo");
    trie.insert("/foo/bar", "foo_bar");
    // "/foo" holds nothing but the way to "/foo/bar", so it goes too.
    assert!(trie.remove("/foo/bar"));
    assert_eq!(trie.get("/foo/bar"), None);
    assert_eq!(trie.get("/foo"), None);
}

#[test]
fn removal_of_unknown_path_changes_nothing() {
    let mut trie = Trie::default();
    trie.insert("/foo", "foo");
    assert!(!trie.remove("/bar"));
    assert!(!trie.remove(""));
    assert_eq!(trie.get("/foo"), Some(&"foo"));
}

#[test]
fn stored_path_is_its_own_longest_prefix() {
    let mut trie = Trie::default();
    trie.insert("/a", 1);
    trie.insert("/a/b", 2);
    let found = trie.longest_prefix("/a/b").unwrap();
    assert_eq!(found.prefix, "/a/b");
    assert_eq!(*found.value, 2);
}

#[test]
fn clear_empties_the_trie() {
    let mut trie = Trie::default();
    trie.insert("/foo", 1);
    trie.clear();
    assert_eq!(trie.get("/foo"), None);
    assert!(trie.mounts().is_empty());
}

#[test]
fn mounts_leave_out_single_character_paths() {
    let mut trie = Trie::default();
    trie.insert("/", 0);
    trie.insert("/b", 1);
    trie.insert("/a", 2);
    let mounts = trie.mounts();
    assert_eq!(
        mounts,
        vec![
            NodeRef {
                prefix: "/a",
                value: &2
            },
            NodeRef {
                prefix: "/b",
                value: &1
            }
        ]
    );
}

#[test]
fn node_refs_carry_the_key_they_were_stored_under() {
    let mut trie = Trie::default();
    trie.insert("kv/", 1);
    trie.insert("kv/data/", 2);
    trie.insert("kv/meta/", 5);
    trie.insert("psql/", 3);
    trie.remove("kv/data/");
    let found = trie.longest_prefix("kv/data/foo").unwrap();
    assert_eq!(found.prefix, "kv/");
    assert_eq!(*found.value, 1);
    let prefixes: Vec<&str> = trie.mounts().iter().map(|r| r.prefix).collect();
    assert_eq!(prefixes, vec!["kv/", "kv/meta/", "psql/"]);
    trie.clear();
    trie.insert("kv/", 4);
    assert_eq!(trie.longest_prefix("kv/x").unwrap().prefix, "kv/");
}
