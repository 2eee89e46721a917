use covert::error::ErrorType;
use covert::expiration::LeaseEntry;
use covert::registration::{
    BackendResponse, Registration, RegistrationAction, RegistrationEvent,
};
use covert::renewal::{Renewal, RenewalAction, RenewalError, RenewalEvent};

fn stored_lease() -> LeaseEntry {
    LeaseEntry::new(
        "psql/".to_string(),
        Some("creds".to_string()),
        "{}".to_string(),
        Some("creds/renew".to_string()),
        "{\"user\":\"x\"}".to_string(),
        1_000,
        3_600_000,
        "ns".to_string(),
    )
}

#[test]
fn renewal_happy_path() {
    let le = stored_lease();
    let id = le.id().to_string();
    let mut renewal = Renewal::new(id.clone(), Some(86_400_000));
    match renewal.step(RenewalEvent::LeaseLookedUp { lease: Some(le) }, 0) {
        RenewalAction::LookupMount { path } => assert_eq!(path, "psql/"),
        _ => panic!("expected mount lookup"),
    }
    match renewal.step(RenewalEvent::MountLookedUp { found: true }, 0) {
        RenewalAction::CalculateTtl { issued_at, requested } => {
            assert_eq!(issued_at, 1_000);
            assert_eq!(requested, Some(86_400_000));
        }
        _ => panic!("expected ttl calculation"),
    }
    match renewal.step(RenewalEvent::TtlCalculated { ttl: Some(3_600_000) }, 0) {
        RenewalAction::SendRenew { path, ttl, data } => {
            assert_eq!(path, "psql/creds/renew");
            assert_eq!(ttl, 3_600_000);
            assert_eq!(data, "{\"user\":\"x\"}");
        }
        _ => panic!("expected renew request"),
    }
    match renewal.step(RenewalEvent::BackendReplied { ttl: Some(7_200_000) }, 0) {
        RenewalAction::CalculateTtl { requested, .. } => assert_eq!(requested, Some(7_200_000)),
        _ => panic!("expected ttl calculation"),
    }
    match renewal.step(RenewalEvent::TtlCalculated { ttl: Some(7_200_000) }, 50_000) {
        RenewalAction::Store {
            lease_id,
            expires_at,
            last_renewal_time,
        } => {
            assert_eq!(lease_id, id);
            assert_eq!(expires_at, 7_250_000);
            assert_eq!(last_renewal_time, 50_000);
        }
        _ => panic!("expected store"),
    }
    match renewal.step(RenewalEvent::Stored, 50_000) {
        RenewalAction::Done { lease } => {
            assert_eq!(lease.id(), id);
            assert_eq!(lease.expires_at, 7_250_000);
            assert_eq!(lease.last_renewal_time, 50_000);
            assert_eq!(lease.issued_at, 1_000);
        }
        _ => panic!("expected done"),
    }
}

#[test]
fn renewal_failures() {
    let mut renewal = Renewal::new("missing".to_string(), None);
    match renewal.step(RenewalEvent::LeaseLookedUp { lease: None }, 0) {
        RenewalAction::Fail {
            error: RenewalError::NotFound { lease_id },
        } => assert_eq!(lease_id, "missing"),
        _ => panic!("expected not found"),
    }
    let mut renewal = Renewal::new("x".to_string(), None);
    renewal.step(
        RenewalEvent::LeaseLookedUp {
            lease: Some(stored_lease()),
        },
        0,
    );
    match renewal.step(RenewalEvent::MountLookedUp { found: false }, 0) {
        RenewalAction::Fail {
            error: RenewalError::MountNotFound { path },
        } => assert_eq!(path, "psql/"),
        _ => panic!("expected mount not found"),
    }
    let mut renewal = Renewal::new("x".to_string(), None);
    renewal.step(
        RenewalEvent::LeaseLookedUp {
            lease: Some(stored_lease()),
        },
        0,
    );
    renewal.step(RenewalEvent::MountLookedUp { found: true }, 0);
    let action = renewal.step(RenewalEvent::TtlCalculated { ttl: Some(-1) }, 0);
    match action {
        RenewalAction::Fail { error } => {
            assert_eq!(error, RenewalError::BadTtl);
            assert_eq!(error.kind(), ErrorType::BadRequest);
        }
        _ => panic!("expected bad ttl"),
    }
    let mut renewal = Renewal::new("x".to_string(), None);
    renewal.step(
        RenewalEvent::LeaseLookedUp {
            lease: Some(stored_lease()),
        },
        0,
    );
    renewal.step(RenewalEvent::MountLookedUp { found: true }, 0);
    renewal.step(RenewalEvent::TtlCalculated { ttl: Some(10) }, 0);
    match renewal.step(RenewalEvent::BackendFailed, 0) {
        RenewalAction::Fail { error } => {
            assert_eq!(
                error,
                RenewalError::RenewLease {
                    lease_id: "x".to_string()
                }
            );
            assert_eq!(error.kind(), ErrorType::RenewLease);
        }
        _ => panic!("expected renew failure"),
    }
}

#[test]
fn renewal_with_unreadable_reply_or_failed_ttl() {
    let mut renewal = Renewal::new("x".to_string(), None);
    renewal.step(
        RenewalEvent::LeaseLookedUp {
            lease: Some(stored_lease()),
        },
        0,
    );
    renewal.step(RenewalEvent::MountLookedUp { found: true }, 0);
    match renewal.step(RenewalEvent::TtlCalculated { ttl: None }, 0) {
        RenewalAction::Fail { error } => assert_eq!(error, RenewalError::TtlCalculation),
        _ => panic!("expected ttl failure"),
    }
    let mut renewal = Renewal::new("x".to_string(), None);
    renewal.step(
        RenewalEvent::LeaseLookedUp {
            lease: Some(stored_lease()),
        },
        0,
    );
    renewal.step(RenewalEvent::MountLookedUp { found: true }, 0);
    renewal.step(RenewalEvent::TtlCalculated { ttl: Some(10) }, 0);
    match renewal.step(RenewalEvent::BackendReplied { ttl: None }, 0) {
        RenewalAction::Fail { error } => assert_eq!(error, RenewalError::UnexpectedResponse),
        _ => panic!("expected unexpected response"),
    }
}

#[test]
fn register_lease_for_lease_responses() {
    let mut reg = Registration::new("psql/".to_string(), "ns".to_string());
    let response = BackendResponse::Lease {
        ttl: Some(3_600_000),
        revoke_path: "creds".to_string(),
        revoke_data: "{\"user\":\"foo\"}".to_string(),
        renew_path: "creds/renew".to_string(),
        renew_data: "{\"user\":\"bar\"}".to_string(),
    };
    match reg.step(RegistrationEvent::Responded { response }, 1_000) {
        RegistrationAction::CalculateTtl { now, requested } => {
            assert_eq!(now, 1_000);
            assert_eq!(requested, Some(3_600_000));
        }
        _ => panic!("expected ttl calculation"),
    }
    let lease_id = match reg.step(RegistrationEvent::TtlCalculated { ttl: Some(3_600_000) }, 2_000) {
        RegistrationAction::RegisterLease { lease } => {
            assert_eq!(lease.issued_mount_path, "psql/");
            assert_eq!(lease.revoke_path.as_deref(), Some("creds"));
            assert_eq!(lease.revoke_data, "{\"user\":\"foo\"}");
            assert_eq!(lease.renew_path.as_deref(), Some("creds/renew"));
            assert_eq!(lease.renew_data, "{\"user\":\"bar\"}");
            assert_eq!(lease.issued_at, 1_000);
            assert_eq!(lease.expires_at, 3_601_000);
            assert_eq!(lease.namespace_id, "ns");
            lease.id().to_string()
        }
        _ => panic!("expected registration"),
    };
    match reg.step(RegistrationEvent::LeaseRegistered, 2_000) {
        RegistrationAction::RespondLease { lease_id: id, ttl } => {
            assert_eq!(id, lease_id);
            assert_eq!(ttl, 3_600_000);
        }
        _ => panic!("expected lease response"),
    }
}

#[test]
fn register_lease_for_auth_responses() {
    let mut reg = Registration::new("auth/userpass/".to_string(), "ns".to_string());
    let response = BackendResponse::Auth {
        alias: "foo".to_string(),
        ttl: None,
    };
    match reg.step(RegistrationEvent::Responded { response }, 5) {
        RegistrationAction::LookupEntity { alias, mount_path } => {
            assert_eq!(alias, "foo");
            assert_eq!(mount_path, "auth/userpass/");
        }
        _ => panic!("expected entity lookup"),
    }
    match reg.step(
        RegistrationEvent::EntityLookedUp {
            entity_name: Some("John".to_string()),
        },
        6,
    ) {
        RegistrationAction::CalculateTtl { now, requested } => {
            assert_eq!(now, 6);
            assert_eq!(requested, None);
        }
        _ => panic!("expected ttl calculation"),
    }
    match reg.step(RegistrationEvent::TtlCalculated { ttl: Some(100) }, 7) {
        RegistrationAction::IssueToken { entity_name, ttl } => {
            assert_eq!(entity_name, "John");
            assert_eq!(ttl, 100);
        }
        _ => panic!("expected token"),
    }
    let lease_id = match reg.step(
        RegistrationEvent::TokenIssued {
            token: "tok".to_string(),
            revoke_data: "{\"token\":\"tok\"}".to_string(),
        },
        8,
    ) {
        RegistrationAction::RegisterLease { lease } => {
            assert_eq!(lease.revoke_path, None);
            assert_eq!(lease.renew_path, None);
            assert_eq!(lease.revoke_data, "{\"token\":\"tok\"}");
            assert_eq!(lease.renew_data, "{\"token\":\"tok\"}");
            assert_eq!(lease.issued_at, 6);
            assert_eq!(lease.expires_at, 106);
            assert_eq!(lease.revoke_request_path(), "sys/token/revoke");
            lease.id().to_string()
        }
        _ => panic!("expected registration"),
    };
    match reg.step(RegistrationEvent::LeaseRegistered, 9) {
        RegistrationAction::RespondAuth {
            token,
            lease_id: id,
            ttl,
        } => {
            assert_eq!(token, "tok");
            assert_eq!(id, lease_id);
            assert_eq!(ttl, 100);
        }
        _ => panic!("expected auth response"),
    }
}

#[test]
fn unknown_alias_is_refused_and_raw_passes() {
    let mut reg = Registration::new("auth/userpass/".to_string(), "ns".to_string());
    reg.step(
        RegistrationEvent::Responded {
            response: BackendResponse::Auth {
                alias: "nobody".to_string(),
                ttl: None,
            },
        },
        0,
    );
    assert!(matches!(
        reg.step(RegistrationEvent::EntityLookedUp { entity_name: None }, 0),
        RegistrationAction::Fail {
            error: ErrorType::BadRequest
        }
    ));
    let mut reg = Registration::new("kv/".to_string(), "ns".to_string());
    assert!(matches!(
        reg.step(
            RegistrationEvent::Responded {
                response: BackendResponse::Raw
            },
            0
        ),
        RegistrationAction::PassThrough
    ));
}

#[test]
fn negative_lease_ttl_fails_after_registration() {
    let mut reg = Registration::new("psql/".to_string(), "ns".to_string());
    reg.step(
        RegistrationEvent::Responded {
            response: BackendResponse::Lease {
                ttl: None,
                revoke_path: "r".to_string(),
                revoke_data: "{}".to_string(),
                renew_path: "n".to_string(),
                renew_data: "{}".to_string(),
            },
        },
        100,
    );
    assert!(matches!(
        reg.step(RegistrationEvent::TtlCalculated { ttl: Some(-50) }, 100),
        RegistrationAction::RegisterLease { .. }
    ));
    assert!(matches!(
        reg.step(RegistrationEvent::LeaseRegistered, 100),
        RegistrationAction::Fail {
            error: ErrorType::InternalError
        }
    ));
}

#[test]
fn renewal_error_messages() {
    assert_eq!(
        RenewalError::NotFound {
            lease_id: "abc".to_string()
        }
        .message(),
        "Lease `abc` not found"
    );
    assert_eq!(
        RenewalError::MountNotFound {
            path: "psql/".to_string()
        }
        .message(),
        "Mount for path `psql/` was not found"
    );
    assert_eq!(
        RenewalError::RenewLease {
            lease_id: "abc".to_string()
        }
        .message(),
        "Failed to renew lease `abc`"
    );
    assert_eq!(RenewalError::BadTtl.message(), "Bad renew TTL");
    assert_eq!(RenewalError::TtlCalculation.message(), "Internal error");
    assert_eq!(RenewalError::NotFound { lease_id: "x".to_string() }.kind().status_code(), 404);
}
