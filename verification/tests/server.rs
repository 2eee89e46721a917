use covert::server::{initial_storage_state, ServerLimits, StorageState};
use covert::auth::{authorized_by, token_lookup_needed};
use covert::config::{join_path, Config, ConfigError, ReplicationConfig};
use covert::error::{classify_storage_error, ErrorType};
use covert::layer::LogicalRequestResponseLayer;
use covert::outcome::successes;
use covert::mount::MountConfig;
use covert::routing::{choose_route, route_target, RouteChoice, RouteError, RouteTarget};
use covert::sqlite::{drop_table_statement, prefix_pattern, TABLES_BY_PATTERN_QUERY};

fn replication() -> ReplicationConfig {
    ReplicationConfig {
        access_key_id: "id".to_string(),
        secret_access_key: "secret".to_string(),
        bucket_url: "s3://bucket".to_string(),
    }
}

#[test]
fn storage_paths() {
    let config = Config {
        port: 0,
        replication: None,
        storage_path: "/data".to_string(),
    };
    assert_eq!(config.seal_storage_path(), "/data/seal.db");
    assert_eq!(config.encrypted_storage_path(), "/data/covert.db");
    let config = Config {
        port: 0,
        replication: None,
        storage_path: "/data/".to_string(),
    };
    assert_eq!(config.seal_storage_path(), "/data/seal.db");
    let config = Config {
        port: 0,
        replication: None,
        storage_path: ":memory:".to_string(),
    };
    assert!(config.using_inmemory_storage());
    assert_eq!(config.seal_storage_path(), ":memory:");
    assert_eq!(config.encrypted_storage_path(), ":memory:");
    assert_eq!(join_path("a", "b"), "a/b");
}

#[test]
fn bucket_urls() {
    let r = replication();
    assert_eq!(r.seal_bucket_url(), "s3://bucket/seal.db");
    assert_eq!(r.encrypted_bucket_url(), "s3://bucket/covert.db");
    let r = ReplicationConfig {
        bucket_url: "s3://bucket/".to_string(),
        ..replication()
    };
    assert_eq!(r.seal_bucket_url(), "s3://bucket/seal.db");
}

#[test]
fn sanitize_outcomes() {
    let in_memory_replicated = Config {
        port: 0,
        replication: Some(replication()),
        storage_path: ":memory:".to_string(),
    };
    assert_eq!(
        in_memory_replicated.sanitize(true, true, true),
        Err(ConfigError::ReplicationInMemory)
    );
    assert_eq!(
        ConfigError::ReplicationInMemory.message(),
        "Replication is not supported for inmemory storage"
    );
    let replicated = Config {
        port: 0,
        replication: Some(replication()),
        storage_path: "/data".to_string(),
    };
    assert!(replicated.needs_litestream());
    assert_eq!(
        replicated.sanitize(false, true, true),
        Err(ConfigError::LitestreamNotFound)
    );
    assert_eq!(
        replicated.sanitize(true, false, true),
        Err(ConfigError::StorageDirectoryCreation)
    );
    assert_eq!(
        replicated.sanitize(true, true, false),
        Err(ConfigError::StorageNotDirectory)
    );
    assert_eq!(replicated.sanitize(true, true, true), Ok(()));
    let in_memory = Config {
        port: 0,
        replication: None,
        storage_path: ":memory:".to_string(),
    };
    assert!(!in_memory.needs_storage_directory());
    assert_eq!(in_memory.sanitize(false, false, false), Ok(()));
}

#[test]
fn error_status_codes() {
    assert_eq!(ErrorType::NotFound.status_code(), 404);
    assert_eq!(ErrorType::MountPathConflict.status_code(), 409);
    assert_eq!(ErrorType::ForeignKeyViolation.status_code(), 422);
    assert_eq!(ErrorType::Unauthorized.status_code(), 401);
    assert_eq!(ErrorType::SealInNonRootNamespace.status_code(), 403);
    assert_eq!(ErrorType::InvalidMountType.status_code(), 400);
    assert_eq!(ErrorType::Storage.status_code(), 500);
}

#[test]
fn storage_errors_are_classified() {
    assert_eq!(classify_storage_error(Some("787")), ErrorType::ForeignKeyViolation);
    assert_eq!(
        classify_storage_error(Some("1555")),
        ErrorType::UniqueConstraintViolation
    );
    assert_eq!(classify_storage_error(Some("19")), ErrorType::Storage);
    assert_eq!(classify_storage_error(None), ErrorType::Storage);
}

#[test]
fn routing_decisions() {
    assert_eq!(route_target(false, "sys/unseal"), Ok(RouteTarget::System));
    assert_eq!(route_target(true, "sys/mounts"), Ok(RouteTarget::System));
    assert_eq!(route_target(true, "kv/data/foo"), Ok(RouteTarget::Mount));
    assert_eq!(route_target(false, "kv/data/foo"), Err(RouteError::Unauthorized));
    let default = MountConfig {
        default_lease_ttl: 0,
        max_lease_ttl: 0,
    };
    let kv_config = MountConfig {
        default_lease_ttl: 30_000,
        max_lease_ttl: 60_000,
    };
    assert_eq!(
        choose_route(RouteTarget::System, "sys/unseal", None, true, default),
        Ok(RouteChoice {
            mount_path: "sys/".to_string(),
            config: default
        })
    );
    assert_eq!(
        choose_route(RouteTarget::System, "sys/unseal", None, false, default),
        Err(RouteError::Internal)
    );
    assert_eq!(
        choose_route(
            RouteTarget::Mount,
            "kv/data/foo",
            Some(("kv/".to_string(), kv_config)),
            true,
            default
        ),
        Ok(RouteChoice {
            mount_path: "kv/".to_string(),
            config: kv_config
        })
    );
    assert_eq!(
        choose_route(RouteTarget::Mount, "kv/data/foo", None, true, default),
        Err(RouteError::MountNotFound {
            path: "kv/data/foo".to_string()
        })
    );
    assert_eq!(
        choose_route(
            RouteTarget::Mount,
            "kv/data/foo",
            Some(("kv/".to_string(), kv_config)),
            false,
            default
        ),
        Err(RouteError::Internal)
    );
    assert_eq!(RouteError::Unauthorized.kind(), ErrorType::Unauthorized);
}

#[test]
fn authorization_decisions() {
    assert!(!token_lookup_needed(false, true));
    assert!(!token_lookup_needed(true, false));
    assert!(token_lookup_needed(true, true));
    let ns = vec!["root".to_string(), "root".to_string()];
    assert!(authorized_by(&ns, &vec![false, true]));
    assert!(!authorized_by(&ns, &vec![false, false]));
    assert!(!authorized_by(&vec![], &vec![]));
    let mixed = vec!["root".to_string(), "other".to_string()];
    assert!(!authorized_by(&mixed, &vec![false, true]));
}

#[test]
fn sqlite_statements() {
    assert_eq!(prefix_pattern("foo"), "foo%");
    assert_eq!(
        drop_table_statement("FOO_123_users"),
        "DROP TABLE IF EXISTS FOO_123_users"
    );
    assert_eq!(
        TABLES_BY_PATTERN_QUERY,
        "SELECT name FROM sqlite_master WHERE type='table' AND name LIKE ?"
    );
}

#[test]
fn successes_keep_order() {
    assert_eq!(successes(vec![Some(1), None, Some(3)]), vec![1, 3]);
    assert!(successes::<u8>(vec![None, None]).is_empty());
}

#[test]
fn layer_wraps_service() {
    let layer = LogicalRequestResponseLayer::new();
    let service = layer.layer(42u8);
    assert_eq!(*service.inner(), 42);
}

#[test]
fn server_starts_sealed_when_storage_exists() {

    assert_eq!(initial_storage_state(false, false), StorageState::Uninitialized);
    assert_eq!(initial_storage_state(true, false), StorageState::Sealed);
    assert_eq!(initial_storage_state(false, true), StorageState::Sealed);
    let limits = ServerLimits::new();
    assert_eq!(limits.concurrency, 1000);
    assert_eq!(limits.timeout, 30000);
    assert_eq!(limits.body_limit, 16 * 1024);
}
