use covert::deletion::{DeletionAction, DeletionEvent, NamespaceDeletion};

fn ids(v: &[&str]) -> Vec<String> {
    v.iter().map(|s| s.to_string()).collect()
}

fn describe(a: &DeletionAction) -> String {
    match a {
        DeletionAction::ListChildren { namespace_id } => format!("children {namespace_id}"),
        DeletionAction::ListMounts { namespace_id } => format!("mounts {namespace_id}"),
        DeletionAction::RemoveMount { path, namespace_id } => format!("remove {path} in {namespace_id}"),
        DeletionAction::DeleteNamespace { namespace_id } => format!("delete {namespace_id}"),
        DeletionAction::Done => "done".to_string(),
        DeletionAction::Fail { namespace_id } => format!("fail {namespace_id}"),
    }
}

#[test]
fn namespaces_are_deleted_depth_first() {
    // root has children a (with child c) and b; root has mount kv/, a has psql/.
    let (mut deletion, mut action) = NamespaceDeletion::new("root".to_string());
    let mut log = vec![describe(&action)];
    loop {
        let event = match &action {
            DeletionAction::ListChildren { namespace_id } => DeletionEvent::ChildrenListed {
                ids: match namespace_id.as_str() {
                    "root" => ids(&["a", "b"]),
                    "a" => ids(&["c"]),
                    _ => vec![],
                },
            },
            DeletionAction::ListMounts { namespace_id } => DeletionEvent::MountsListed {
                paths: match namespace_id.as_str() {
                    "root" => ids(&["kv/"]),
                    "a" => ids(&["psql/"]),
                    _ => vec![],
                },
            },
            DeletionAction::RemoveMount { .. } => DeletionEvent::MountRemoved,
            DeletionAction::DeleteNamespace { .. } => DeletionEvent::NamespaceDeleted { deleted: true },
            DeletionAction::Done | DeletionAction::Fail { .. } => break,
        };
        action = deletion.step(event);
        log.push(describe(&action));
    }
    assert_eq!(
        log,
        vec![
            "children root",
            "children a",
            "children c",
            "mounts c",
            "delete c",
            "mounts a",
            "remove psql/ in a",
            "delete a",
            "children b",
            "mounts b",
            "delete b",
            "mounts root",
            "remove kv/ in root",
            "delete root",
            "done",
        ]
    );
}

#[test]
fn failed_namespace_deletion_stops_everything() {
    let (mut deletion, _) = NamespaceDeletion::new("root".to_string());
    deletion.step(DeletionEvent::ChildrenListed { ids: ids(&["a"]) });
    deletion.step(DeletionEvent::ChildrenListed { ids: vec![] });
    deletion.step(DeletionEvent::MountsListed { paths: vec![] });
    match deletion.step(DeletionEvent::NamespaceDeleted { deleted: false }) {
        DeletionAction::Fail { namespace_id } => assert_eq!(namespace_id, "a"),
        _ => panic!("expected failure"),
    }
}
