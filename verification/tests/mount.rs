use covert::mount::{
    check_core_mount, check_mount, check_removal, read_stored_ttl, stored_ttl, BackendCategory,
    storage_prefix, BackendType, FoundMount, MountConfig, MountEntryRaw, MountError,
    MountRemoval, RemovalAction, RemovalError, RemovalEvent, SYSTEM_MOUNT_PATH,
};

const NS: &str = "6F9619FF-8B86-D011-B42D-00C04FC964FF";
const MOUNT_ID: &str = "936da01f-9abd-4d9d-80c7-02af85c822a8";

fn found(variant: BackendType, name: &str) -> Option<FoundMount> {
    Some(FoundMount {
        id: MOUNT_ID.to_string(),
        variant,
        variant_name: name.to_string(),
    })
}
use covert::sqlite::Table;

#[test]
fn auth_backend_needs_to_be_mounted_under_auth_path() {
    let err = check_mount("not-auth/", BackendType::Userpass, None).unwrap_err();
    assert!(matches!(err, MountError::AuthBackendNotUnderAuthPath));
}

#[test]
fn secret_engine_cannot_be_mounted_under_auth_path() {
    let err = check_mount("auth/kv/", BackendType::Kv, None).unwrap_err();
    assert!(matches!(err, MountError::LogicalBackendUnderAuthPath));
}

#[test]
fn system_backend_cannot_be_externally_mounted() {
    let err = check_mount("new-sys/", BackendType::System, None).unwrap_err();
    assert!(matches!(err, MountError::InvalidMountType));
}

#[test]
fn cannot_mount_at_path_that_collides_with_sys() {
    let bad_paths = ["", "sy", "sys", "sys/", "sys/new/"];
    for path in bad_paths {
        let err = check_mount(path, BackendType::Kv, None).unwrap_err();
        assert!(matches!(
            err,
            MountError::MountPathConflict { existing_path, .. } if existing_path == SYSTEM_MOUNT_PATH
        ));
    }
}

#[test]
fn mount_conflicts_with_existing_prefix() {
    let err = check_mount("kv/inner/", BackendType::Kv, Some("kv/".to_string())).unwrap_err();
    assert_eq!(
        err,
        MountError::MountPathConflict {
            path: "kv/inner/".to_string(),
            existing_path: "kv/".to_string()
        }
    );
}

#[test]
fn valid_mounts_are_accepted() {
    assert_eq!(check_mount("kv/", BackendType::Kv, None), Ok(()));
    assert_eq!(check_mount("psql/", BackendType::Postgres, None), Ok(()));
    assert_eq!(check_mount("auth/userpass/", BackendType::Userpass, None), Ok(()));
}

#[test]
fn backend_categories() {
    assert_eq!(BackendType::Userpass.category(), BackendCategory::Credential);
    assert_eq!(BackendType::Kv.category(), BackendCategory::Logical);
    assert_eq!(BackendType::Postgres.category(), BackendCategory::Logical);
    assert_eq!(BackendType::System.category(), BackendCategory::Logical);
}

#[test]
fn system_backend_cannot_be_removed() {
    assert_eq!(check_removal(BackendType::System), Err(MountError::InvalidMountType));
    assert_eq!(check_removal(BackendType::Kv), Ok(()));
}

#[test]
fn core_mounts_system_only_internally() {
    assert_eq!(check_core_mount(BackendType::System, false), Err(MountError::InvalidMountType));
    assert_eq!(check_core_mount(BackendType::System, true), Ok(false));
    assert_eq!(check_core_mount(BackendType::Kv, false), Ok(true));
}

#[test]
fn stored_ttls_round_trip() {
    assert_eq!(read_stored_ttl(30), 30);
    assert_eq!(read_stored_ttl(-1), u64::MAX);
    assert_eq!(stored_ttl(60), 60);
    assert_eq!(stored_ttl(u128::from(u64::MAX)), i64::MAX);
    assert_eq!(read_stored_ttl(stored_ttl(1234)), 1234);
    let raw = MountEntryRaw {
        id: "id".to_string(),
        path: "foo/".to_string(),
        default_lease_ttl: 30,
        max_lease_ttl: -5,
        variant: "kv".to_string(),
        namespace_id: "ns".to_string(),
    };
    assert_eq!(
        raw.config(),
        MountConfig {
            default_lease_ttl: 30,
            max_lease_ttl: u64::MAX
        }
    );
    let config = MountConfig {
        default_lease_ttl: 30,
        max_lease_ttl: u64::MAX,
    };
    assert_eq!(config.stored_ttls(), (30, i64::MAX));
}

#[test]
fn removal_drops_every_table() {
    let mut removal = MountRemoval::new("kv/".to_string(), NS.to_string());
    match removal.step(RemovalEvent::MountLookedUp { mount: found(BackendType::Kv, "kv") }) {
        RemovalAction::RevokeLeases { prefix } => assert_eq!(prefix, "kv/"),
        _ => panic!("expected lease revocation"),
    }
    assert!(matches!(
        removal.step(RemovalEvent::LeasesRevoked),
        RemovalAction::Unroute
    ));
    assert!(matches!(
        removal.step(RemovalEvent::Unrouted { removed: true }),
        RemovalAction::DeleteEntry
    ));
    match removal.step(RemovalEvent::EntryDeleted) {
        RemovalAction::ListTables { pattern } => assert_eq!(
            pattern,
            "covert_6f9619ff8b86d011b42d00c04fc964ff_kv_936da01f9abd4d9d80c702af85c822a8_%"
        ),
        _ => panic!("expected the tables to be listed"),
    }
    let tables = vec![
        Table {
            name: "FOO_123_users".to_string(),
        },
        Table {
            name: "FOO_123_books".to_string(),
        },
    ];
    match removal.step(RemovalEvent::TablesListed { tables }) {
        RemovalAction::DropTable { statement } => {
            assert_eq!(statement, "DROP TABLE IF EXISTS FOO_123_users")
        }
        _ => panic!("expected a drop"),
    }
    match removal.step(RemovalEvent::TableDropped) {
        RemovalAction::DropTable { statement } => {
            assert_eq!(statement, "DROP TABLE IF EXISTS FOO_123_books")
        }
        _ => panic!("expected a drop"),
    }
    assert!(matches!(
        removal.step(RemovalEvent::TableDropped),
        RemovalAction::Done
    ));
}

#[test]
fn removal_of_missing_or_system_mount_fails() {
    let mut removal = MountRemoval::new("nope/".to_string(), NS.to_string());
    match removal.step(RemovalEvent::MountLookedUp { mount: None }) {
        RemovalAction::Fail {
            error: RemovalError::MountNotFound { path },
        } => assert_eq!(path, "nope/"),
        _ => panic!("expected mount not found"),
    }
    let mut removal = MountRemoval::new("sys/".to_string(), NS.to_string());
    assert!(matches!(
        removal.step(RemovalEvent::MountLookedUp { mount: found(BackendType::System, "system") }),
        RemovalAction::Fail {
            error: RemovalError::InvalidMountType
        }
    ));
    let mut removal = MountRemoval::new("kv/".to_string(), NS.to_string());
    removal.step(RemovalEvent::MountLookedUp { mount: found(BackendType::Kv, "kv") });
    removal.step(RemovalEvent::LeasesRevoked);
    match removal.step(RemovalEvent::Unrouted { removed: false }) {
        RemovalAction::Fail {
            error: RemovalError::MountNotFound { path },
        } => assert_eq!(path, "kv/"),
        _ => panic!("expected mount not found"),
    }
}

#[test]
fn removal_without_tables_is_done() {
    let mut removal = MountRemoval::new("kv/".to_string(), NS.to_string());
    removal.step(RemovalEvent::MountLookedUp { mount: found(BackendType::Kv, "kv") });
    removal.step(RemovalEvent::LeasesRevoked);
    removal.step(RemovalEvent::Unrouted { removed: true });
    removal.step(RemovalEvent::EntryDeleted);
    assert!(matches!(
        removal.step(RemovalEvent::TablesListed { tables: vec![] }),
        RemovalAction::Done
    ));
}

#[test]
fn mounts_split_into_auth_and_secret() {
    let mounts = vec![
        (BackendType::Kv, "kv/"),
        (BackendType::Userpass, "auth/userpass/"),
        (BackendType::Postgres, "psql/"),
    ];
    let (auth, secret) = covert::mount::split_by_category(mounts);
    assert_eq!(auth, vec!["auth/userpass/"]);
    assert_eq!(secret, vec!["kv/", "psql/"]);
}

#[test]
fn storage_prefix_uses_simple_ids() {
    assert_eq!(
        storage_prefix(NS, "postgres", MOUNT_ID).unwrap(),
        "covert_6f9619ff8b86d011b42d00c04fc964ff_postgres_936da01f9abd4d9d80c702af85c822a8_"
    );
    // braced, URN and simple forms name the same UUID
    let braced = format!("{{{NS}}}");
    let urn = format!("URN:uuid:{MOUNT_ID}");
    assert_eq!(
        storage_prefix(&braced, "kv", &urn),
        storage_prefix(NS, "kv", "936DA01F9ABD4D9D80C702AF85C822A8")
    );
    assert!(storage_prefix("not-a-uuid", "kv", MOUNT_ID).is_none());
    assert!(storage_prefix(NS, "kv", "936da01f-9abd-4d9d-80c7-02af85c822a").is_none());
}

#[test]
fn removal_fails_on_ids_that_are_not_uuids() {
    let mut removal = MountRemoval::new("kv/".to_string(), NS.to_string());
    let mount = Some(FoundMount {
        id: "abc".to_string(),
        variant: BackendType::Kv,
        variant_name: "kv".to_string(),
    });
    match removal.step(RemovalEvent::MountLookedUp { mount }) {
        RemovalAction::Fail {
            error: RemovalError::BadData { message },
        } => assert_eq!(message, "`abc` is not a valid uuid mount id"),
        _ => panic!("expected bad data"),
    }
    let mut removal = MountRemoval::new("kv/".to_string(), "root".to_string());
    removal.step(RemovalEvent::MountLookedUp { mount: found(BackendType::Kv, "kv") });
    removal.step(RemovalEvent::LeasesRevoked);
    removal.step(RemovalEvent::Unrouted { removed: true });
    match removal.step(RemovalEvent::EntryDeleted) {
        RemovalAction::Fail {
            error: RemovalError::InternalError { message },
        } => assert_eq!(message, "Namespace id was not a valid UUID"),
        _ => panic!("expected an internal error"),
    }
}
