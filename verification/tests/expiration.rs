use covert::expiration::{
    idle_wait, pull_limit, time_until, ExpirationSettings, LeaseEntry,
    RevocationStep,
};
use covert::pending::{NextDue, PendingLeases};
use covert::worker::{worker_step, WorkerAction, WorkerEvent};

fn lease(mount: &str, revoke: Option<&str>, now: i64, ttl: i64) -> LeaseEntry {
    LeaseEntry::new(
        mount.to_string(),
        revoke.map(str::to_string),
        "{\"a\":1}".to_string(),
        Some("renew-entry".to_string()),
        "{}".to_string(),
        now,
        ttl,
        "ns".to_string(),
    )
}

fn is_uuid_v4(s: &str) -> bool {
    let b = s.as_bytes();
    b.len() == 36
        && b.iter().enumerate().all(|(i, c)| {
            if [8, 13, 18, 23].contains(&i) {
                *c == b'-'
            } else {
                c.is_ascii_digit() || (b'a'..=b'f').contains(c)
            }
        })
        && b[14] == b'4'
        && [b'8', b'9', b'a', b'b'].contains(&b[19])
}

#[test]
fn new_lease_starts_now() {
    let le = lease("psql/", Some("revoke-entry"), 1000, 500);
    assert!(is_uuid_v4(le.id()));
    assert_eq!(le.issued_at, 1000);
    assert_eq!(le.expires_at, 1500);
    assert_eq!(le.last_renewal_time, 1000);
    assert_eq!(le.failed_revocation_attempts, 0);
    assert_eq!(le.namespace_id, "ns");
    let other = lease("psql/", None, 1000, 500);
    assert_ne!(le.id(), other.id());
}

#[test]
fn lease_endpoints() {
    let le = lease("psql/", Some("revoke-entry"), 0, 10);
    assert_eq!(le.revoke_request_path(), "psql/revoke-entry");
    assert_eq!(le.renew_request_path(), "psql/renew-entry");
    let token_lease = LeaseEntry::new(
        "auth/".to_string(),
        None,
        String::new(),
        None,
        String::new(),
        0,
        10,
        "ns".to_string(),
    );
    assert_eq!(token_lease.revoke_request_path(), "sys/token/revoke");
    assert_eq!(token_lease.renew_request_path(), "sys/token/renew");
}

#[test]
fn settings_defaults() {
    let s = ExpirationSettings::new();
    assert_eq!(s.revocation_retry_timeout, 5000);
    assert_eq!(s.revocation_max_retries, 10);
    assert_eq!(s.revocation_timeout, 10000);
    assert_eq!(s.revocation_worker_concurrency, 100);
}

#[test]
fn retry_failed_revocation_until_max_attempts() {
    let settings = ExpirationSettings::new();
    let mut le = lease("psql/", Some("invalid-revoke-path"), 0, 10);
    assert_eq!(le.revocation_step(true, &settings), RevocationStep::Delete);
    assert_eq!(
        le.revocation_step(false, &settings),
        RevocationStep::Retry { retry_at: 5010 }
    );
    le.failed_revocation_attempts = 8;
    assert_eq!(
        le.revocation_step(false, &settings),
        RevocationStep::Retry { retry_at: 5010 }
    );
    le.failed_revocation_attempts = 9;
    assert_eq!(le.revocation_step(false, &settings), RevocationStep::Delete);
}

#[test]
fn renew_moves_expiry() {
    let mut le = lease("psql/", None, 0, 10);
    let id = le.id().to_string();
    le.renew(100, 3600);
    assert_eq!(le.expires_at, 3700);
    assert_eq!(le.last_renewal_time, 100);
    assert_eq!(le.issued_at, 0);
    assert_eq!(le.id(), id);
}

#[test]
fn waiting_times() {
    assert_eq!(time_until(1500, 1000), Some(500));
    assert_eq!(time_until(1000, 1000), Some(0));
    assert_eq!(time_until(900, 1000), None);
    assert_eq!(idle_wait(Some(1500), 1000), Some(500));
    assert_eq!(idle_wait(Some(900), 1000), None);
    assert_eq!(idle_wait(None, 1000), None);
    assert_eq!(pull_limit(5), 5);
    assert_eq!(pull_limit(1000), 100);
}

#[test]
fn earlier_lease_comes_first() {
    let a = lease("a/", None, 0, 10);
    let b = lease("b/", None, 0, 20);
    assert!(a.expires_before(&b));
    assert!(!b.expires_before(&a));
}

#[test]
fn pending_queue_orders_by_expiry() {
    let mut q = PendingLeases::new();
    assert_eq!(q.next_due(0), NextDue::Empty);
    assert!(q.register(lease("b/", None, 0, 50)));
    assert!(q.register(lease("a/", None, 0, 10)));
    assert!(!q.register(lease("c/", None, 0, 30)));
    assert!(!q.register(lease("d/", None, 0, 10)));
    assert_eq!(q.len(), 4);
    assert_eq!(q.peek().unwrap().issued_mount_path, "a/");
    assert_eq!(q.next_due(4), NextDue::NotDue { wait: 6 });
    assert_eq!(q.next_due(10), NextDue::Due);
    let order: Vec<String> = std::iter::from_fn(|| q.pop())
        .map(|le| le.issued_mount_path)
        .collect();
    assert_eq!(order, vec!["a/", "d/", "c/", "b/"]);
    assert!(q.pop().is_none());
}

#[test]
fn settling_the_front_lease() {
    let mut q = PendingLeases::new();
    let first = lease("a/", None, 0, 10);
    let first_id = first.id().to_string();
    q.register(first.clone());
    q.register(lease("b/", None, 0, 20));
    // still stored: revoke it
    let revoked = q.settle_front(Some(first.clone())).unwrap();
    assert_eq!(revoked.id(), first_id);
    assert_eq!(q.len(), 1);
    // already revoked: dropped
    let mut q2 = PendingLeases::new();
    q2.register(first.clone());
    assert!(q2.settle_front(None).is_none());
    assert_eq!(q2.len(), 0);
    // a different lease under that id: it takes the place in order
    let mut q3 = PendingLeases::new();
    q3.register(first);
    let renewed = lease("a/", None, 0, 99);
    assert!(q3.settle_front(Some(renewed)).is_none());
    assert_eq!(q3.len(), 1);
    assert_eq!(q3.peek().unwrap().expires_at, 99);
}

#[test]
fn worker_reactions() {
    let s = ExpirationSettings::new();
    assert_eq!(
        worker_step(WorkerEvent::Started, 7, &s),
        WorkerAction::Pull { limit: 100, now: 7 }
    );
    assert_eq!(
        worker_step(WorkerEvent::PullFailed, 7, &s),
        WorkerAction::Backoff { millis: 500 }
    );
    assert_eq!(
        worker_step(WorkerEvent::Pulled { count: 0 }, 7, &s),
        WorkerAction::Peek
    );
    assert_eq!(
        worker_step(WorkerEvent::Pulled { count: 3 }, 7, &s),
        WorkerAction::Revoke { concurrency: 100 }
    );
    assert_eq!(
        worker_step(WorkerEvent::Peeked { next_expiry: Some(10) }, 7, &s),
        WorkerAction::Wait { wait: Some(3) }
    );
    assert_eq!(
        worker_step(WorkerEvent::Peeked { next_expiry: Some(5) }, 7, &s),
        WorkerAction::Wait { wait: None }
    );
    assert_eq!(
        worker_step(WorkerEvent::Peeked { next_expiry: None }, 7, &s),
        WorkerAction::Wait { wait: None }
    );
    assert_eq!(
        worker_step(WorkerEvent::Woken, 8, &s),
        WorkerAction::Pull { limit: 100, now: 8 }
    );
    assert_eq!(
        worker_step(WorkerEvent::ShutdownRequested, 8, &s),
        WorkerAction::Stop
    );
}

#[test]
fn lease_dto_shows_rfc3339_times() {
    let le = lease("psql/", None, 0, 1000);
    let dto = le.to_dto().unwrap();
    assert_eq!(dto.id, le.id());
    assert_eq!(dto.issued_mount_path, "psql/");
    assert_eq!(dto.issue_time, "1970-01-01T00:00:00+00:00");
    assert_eq!(dto.expire_time, "1970-01-01T00:00:01+00:00");
    assert_eq!(dto.last_renewal_time, "1970-01-01T00:00:01+00:00");
    let far = LeaseEntry::new(
        "x/".to_string(),
        None,
        String::new(),
        None,
        String::new(),
        i64::MAX - 10,
        1,
        "ns".to_string(),
    );
    assert!(far.to_dto().is_none());
}

#[test]
fn pull_takes_only_due_leases() {
    let mut q = PendingLeases::new();
    q.register(lease("c/", None, 0, 30));
    q.register(lease("a/", None, 0, 10));
    q.register(lease("b/", None, 0, 20));
    // nothing is due before the first expiry
    assert_eq!(q.due_count(10, 9), 0);
    // two are due at 20, the limit lets one out
    assert_eq!(q.due_count(1, 20), 1);
    assert_eq!(q.due_count(10, 20), 2);
    assert_eq!(q.get(1).issued_mount_path, "b/");
    // selecting leaves the queue as it is
    assert_eq!(q.len(), 3);
    assert_eq!(q.due_count(10, 30), 3);
}

#[test]
fn removing_a_lease_by_id() {
    let mut q = PendingLeases::new();
    let a = lease("a/", None, 0, 10);
    let a_id = a.id().to_string();
    q.register(a);
    q.register(lease("b/", None, 0, 20));
    let removed = q.remove_lease(&a_id).unwrap();
    assert_eq!(removed.issued_mount_path, "a/");
    assert_eq!(q.len(), 1);
    assert_eq!(q.peek().unwrap().issued_mount_path, "b/");
    assert!(q.remove_lease(&a_id).is_none());
    assert_eq!(q.len(), 1);
}

#[test]
fn always_failing_revocation_sends_max_retries_requests() {
    let mut settings = ExpirationSettings::new();
    settings.revocation_max_retries = 5;
    settings.revocation_retry_timeout = 100;
    let mut le = lease("psql/", Some("creds"), 0, 10);
    let mut requests = 0;
    loop {
        requests += 1;
        match le.revocation_step(false, &settings) {
            RevocationStep::Delete => break,
            RevocationStep::Retry { retry_at } => {
                assert_eq!(retry_at, le.expires_at + 100);
                le.record_failed_revocation(retry_at);
            }
        }
    }
    assert_eq!(requests, 5);
    assert_eq!(le.failed_revocation_attempts, 4);
    assert_eq!(le.expires_at, 10 + 4 * 100);
}

#[test]
fn worker_revokes_the_lease_once_it_expires() {
    let settings = ExpirationSettings::new();
    let hour = 3_600_000;
    let mut q = PendingLeases::new();
    q.register(lease("foo/", Some("creds"), 0, 4 * hour));
    for (now, expected) in [(3 * hour, 0), (4 * hour, 1)] {
        match worker_step(WorkerEvent::Started, now, &settings) {
            WorkerAction::Pull { limit, now: at } => {
                assert_eq!(at, now);
                let count = q.due_count(pull_limit(limit) as usize, at);
                assert_eq!(count, expected);
            }
            other => panic!("unexpected {other:?}"),
        }
    }
    assert_eq!(q.get(0).revoke_request_path(), "foo/creds");
}
