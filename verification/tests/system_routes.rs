use covert::server::StorageState;
use covert::system_routes::{system_routes, Operation, SystemHandler};

#[test]
fn seal_routes_open_in_their_states() {
    let routes = system_routes();
    assert_eq!(routes.len(), 27);
    let unseal: Vec<_> = routes.iter().filter(|r| r.path == "/unseal").collect();
    assert_eq!(unseal.len(), 2);
    for r in &unseal {
        assert_eq!(r.handler, SystemHandler::Unseal);
        assert_eq!(r.open_in, Some(vec![StorageState::Sealed]));
    }
    let status = routes.iter().find(|r| r.path == "/status").unwrap();
    assert_eq!(status.operation, Operation::Read);
    assert_eq!(
        status.open_in,
        Some(vec![
            StorageState::Uninitialized,
            StorageState::Sealed,
            StorageState::Unsealed
        ])
    );
    let init = routes
        .iter()
        .find(|r| r.path == "/init" && r.operation == Operation::Update)
        .unwrap();
    assert_eq!(init.open_in, Some(vec![StorageState::Uninitialized]));
}

#[test]
fn other_routes_keep_the_default_rule() {
    let routes = system_routes();
    let mount = routes
        .iter()
        .find(|r| r.path == "/mounts/*path" && r.operation == Operation::Delete)
        .unwrap();
    assert_eq!(mount.handler, SystemHandler::MountDisable);
    assert!(mount.open_in.is_none());
    let with_rule = routes.iter().filter(|r| r.open_in.is_some()).count();
    assert_eq!(with_rule, 7);
}
