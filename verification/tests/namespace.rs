use covert::error::ErrorType;
use covert::namespace::check_seal_allowed;
use covert::namespace::{attach_namespace, looks_up_namespace};
use covert::server::StorageState;
use covert::namespace::{
    find_by_path_query, find_named, full_path, new_child_namespace, new_root_namespace,
    request_path, scoped_policy_path, AncestorWalk, Namespace,
};

fn ns(id: &str, name: &str, parent: Option<&str>) -> Namespace {
    Namespace {
        id: id.to_string(),
        name: name.to_string(),
        parent_namespace_id: parent.map(str::to_string),
    }
}

#[test]
fn find_by_path_query_for_one_name() {
    assert_eq!(
        find_by_path_query(1),
        "SELECT NS0.* FROM NAMESPACES AS NS0 WHERE NS0.parent_namespace_id IS NULL"
    );
}

#[test]
fn find_by_path_query_for_three_names() {
    assert_eq!(
        find_by_path_query(3),
        "SELECT NS2.* FROM NAMESPACES AS NS0 \
INNER JOIN NAMESPACES AS NS1 ON NS1.parent_namespace_id = NS0.id \
INNER JOIN NAMESPACES AS NS2 ON NS2.parent_namespace_id = NS1.id \
WHERE NS1.name = $2 AND NS2.name = $3 AND NS0.parent_namespace_id IS NULL"
    );
}

#[test]
fn find_by_path_query_counts_past_nine() {
    let q = find_by_path_query(12);
    assert!(q.starts_with("SELECT NS11.* FROM NAMESPACES AS NS0"));
    assert!(q.contains("INNER JOIN NAMESPACES AS NS10 ON NS10.parent_namespace_id = NS9.id"));
    assert!(q.contains("NS11.name = $12 AND"));
}

#[test]
fn ancestors_are_walked_to_the_root() {
    let mut walk = AncestorWalk::new("c".to_string());
    assert_eq!(walk.next_id(), Some("c"));
    walk.record(Some(ns("c", "baz", Some("b"))));
    assert_eq!(walk.next_id(), Some("b"));
    walk.record(Some(ns("b", "bar", Some("a"))));
    walk.record(Some(ns("a", "root", None)));
    assert_eq!(walk.next_id(), None);
    let found = walk.into_found();
    assert_eq!(full_path(&found), "root/bar/baz");
}

#[test]
fn walk_stops_at_missing_namespace() {
    let mut walk = AncestorWalk::new("x".to_string());
    walk.record(None);
    assert_eq!(walk.next_id(), None);
    assert!(walk.into_found().is_empty());
}

#[test]
fn namespace_paths() {
    assert_eq!(
        request_path(&vec!["root".to_string(), "foo".to_string()], "sys/mounts"),
        "root/foo/sys/mounts"
    );
    assert_eq!(scoped_policy_path("root/foo", "/secrets/*"), "root/foo/secrets/*");
    assert_eq!(scoped_policy_path("root/foo", "secrets/*"), "root/foo/secrets/*");
}

#[test]
fn new_namespaces() {
    let root = new_root_namespace();
    assert_eq!(root.name, "root");
    assert_eq!(root.parent_namespace_id, None);
    assert_eq!(root.id.len(), 36);
    let child = new_child_namespace("foo".to_string(), root.id.clone());
    assert_eq!(child.parent_namespace_id.as_deref(), Some(root.id.as_str()));
    assert_ne!(child.id, root.id);
}

#[test]
fn find_named_child() {
    let children = vec![ns("1", "foo", Some("r")), ns("2", "bar", Some("r"))];
    assert_eq!(find_named(&children, "bar"), Some(1));
    assert_eq!(find_named(&children, "baz"), None);
}

#[test]
fn only_root_namespace_may_seal() {
    assert_eq!(check_seal_allowed(&ns("r", "root", None)), Ok(()));
    assert_eq!(
        check_seal_allowed(&ns("c", "child", Some("r"))),
        Err(ErrorType::SealInNonRootNamespace)
    );
}

#[test]
fn namespace_is_looked_up_only_when_unsealed() {
    assert!(looks_up_namespace(Some(StorageState::Unsealed)));
    assert!(!looks_up_namespace(Some(StorageState::Sealed)));
    assert!(!looks_up_namespace(Some(StorageState::Uninitialized)));
    assert!(!looks_up_namespace(None));
}

#[test]
fn unknown_namespace_is_a_bad_request() {
    let err = attach_namespace(None).unwrap_err();
    assert_eq!(err.status_code, 400);
    assert_eq!(err.message, "Invalid namespace");
    let ns = Namespace {
        id: "id".to_string(),
        name: "root".to_string(),
        parent_namespace_id: None,
    };
    assert_eq!(attach_namespace(Some(ns)).unwrap().name, "root");
}
