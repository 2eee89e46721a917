use vstd::prelude::*;

use crate::ids::{is_uuid_v4_text, new_uuid_text};
use crate::text::concat2;

verus! {

/// A lease on a secret or a token. Times are milliseconds since the Unix
/// epoch; revoke and renew data are already serialized.
#[derive(Debug, Clone)]
pub struct LeaseEntry {
    pub id: String,
    pub issued_mount_path: String,
    pub revoke_path: Option<String>,
    pub revoke_data: String,
    pub renew_path: Option<String>,
    pub renew_data: String,
    pub issued_at: i64,
    pub expires_at: i64,
    pub last_renewal_time: i64,
    pub failed_revocation_attempts: u32,
    pub namespace_id: String,
}

/// Tunables of the expiration manager.
#[derive(Debug, Clone, Copy)]
pub struct ExpirationSettings {
    /// Time before retrying a failed revocation, in milliseconds.
    pub revocation_retry_timeout: i64,
    /// Number of revoke attempts after which the lease is deleted.
    pub revocation_max_retries: u32,
    /// Timeout for the revoke endpoint, in milliseconds.
    pub revocation_timeout: u64,
    /// Number of leases revoked at the same time.
    pub revocation_worker_concurrency: usize,
}

impl ExpirationSettings {
    /// The settings the expiration manager starts with.
    pub fn new() -> (r: Self)
        ensures
            r.revocation_retry_timeout == 5000,
            r.revocation_max_retries == 10,
            r.revocation_timeout == 10000,
            r.revocation_worker_concurrency == 100,
    {
        ExpirationSettings {
            revocation_retry_timeout: 5000,
            revocation_max_retries: 10,
            revocation_timeout: 10000,
            revocation_worker_concurrency: 100,
        }
    }
}

/// What happens to a lease after a revocation attempt.
#[derive(Debug, Clone, Copy, PartialEq, Eq, Structural)]
pub enum RevocationStep {
    /// Remove the lease from the store.
    Delete,
    /// Count the failure and try again at `retry_at`.
    Retry { retry_at: i64 },
}

/// Path and default of the revoke or renew endpoint of a lease.
pub open spec fn endpoint_path(mount: Seq<char>, path: Option<String>, default: Seq<char>) -> Seq<
    char,
> {
    match path {
        Some(p) => mount + p@,
        None => default,
    }
}

/// What happens to `le` after a revocation attempt whose backend call
/// succeeded (`revoked`) or failed: it is deleted when revoked or when this
/// was its last allowed attempt, and otherwise retried once the retry
/// timeout has passed after its expiry.
pub open spec fn revocation_result(le: LeaseEntry, revoked: bool, settings: ExpirationSettings) -> RevocationStep {
    if revoked || le.failed_revocation_attempts + 1 >= settings.revocation_max_retries {
        RevocationStep::Delete
    } else {
        RevocationStep::Retry { retry_at: (le.expires_at + settings.revocation_retry_timeout) as i64 }
    }
}

/// `le` after a failed revocation to be retried at `retry_at`.
pub open spec fn after_failed_revocation(le: LeaseEntry, retry_at: i64) -> LeaseEntry {
    LeaseEntry {
        failed_revocation_attempts: (le.failed_revocation_attempts + 1) as u32,
        expires_at: retry_at,
        ..le
    }
}

/// How many revoke requests `le` gets when every one of them fails: one per
/// attempt until its failures reach the retry limit.
pub open spec fn failing_requests(le: LeaseEntry, settings: ExpirationSettings) -> nat
    decreases settings.revocation_max_retries - le.failed_revocation_attempts,
{
    match revocation_result(le, false, settings) {
        RevocationStep::Delete => 1,
        RevocationStep::Retry { retry_at } => 1 + failing_requests(
            after_failed_revocation(le, retry_at),
            settings,
        ),
    }
}

/// A lease whose revocation always fails gets one request per attempt left
/// before the retry limit (at least one), and is then deleted: with no
/// failures yet, exactly `revocation_max_retries` requests.
pub proof fn law_failing_revocations_are_retried_to_the_limit(le: LeaseEntry, settings: ExpirationSettings)
    ensures
        failing_requests(le, settings) == (if le.failed_revocation_attempts + 1
            >= settings.revocation_max_retries {
            1
        } else {
            settings.revocation_max_retries - le.failed_revocation_attempts
        }),
    decreases settings.revocation_max_retries - le.failed_revocation_attempts,
{
    if le.failed_revocation_attempts + 1 < settings.revocation_max_retries {
        let next = after_failed_revocation(
            le,
            (le.expires_at + settings.revocation_retry_timeout) as i64,
        );
        law_failing_revocations_are_retried_to_the_limit(next, settings);
    }
}

impl LeaseEntry {
    /// A new lease issued at `now` and expiring `ttl` milliseconds later,
    /// with a fresh random id.
    pub fn new(
        issued_mount_path: String,
        revoke_path: Option<String>,
        revoke_data: String,
        renew_path: Option<String>,
        renew_data: String,
        now: i64,
        ttl: i64,
        namespace_id: String,
    ) -> (r: Self)
        requires
            i64::MIN <= now + ttl <= i64::MAX,
        ensures
            is_uuid_v4_text(r.id@),
            r.issued_mount_path == issued_mount_path,
            r.revoke_path == revoke_path,
            r.revoke_data == revoke_data,
            r.renew_path == renew_path,
            r.renew_data == renew_data,
            r.issued_at == now,
            r.expires_at == now + ttl,
            r.last_renewal_time == now,
            r.failed_revocation_attempts == 0,
            r.namespace_id == namespace_id,
    {
        LeaseEntry {
            id: new_uuid_text(),
            issued_mount_path,
            revoke_path,
            revoke_data,
            renew_path,
            renew_data,
            issued_at: now,
            expires_at: now + ttl,
            last_renewal_time: now,
            failed_revocation_attempts: 0,
            namespace_id,
        }
    }

    /// The lease id.
    pub fn id(&self) -> (r: &str)
        ensures
            r@ == self.id@,
    {
        self.id.as_str()
    }

    /// The lease expires strictly before `other` (the order of the queue of
    /// pending leases).
    pub fn expires_before(&self, other: &LeaseEntry) -> (r: bool)
        ensures
            r == (self.expires_at < other.expires_at),
    {
        self.expires_at < other.expires_at
    }

    /// Path of the request that revokes the lease: the mount's revoke
    /// endpoint, or the token revocation endpoint.
    pub fn revoke_request_path(&self) -> (r: String)
        ensures
            r@ == endpoint_path(self.issued_mount_path@, self.revoke_path, "sys/token/revoke"@),
    {
        match &self.revoke_path {
            Some(p) => concat2(self.issued_mount_path.as_str(), p.as_str()),
            None => "sys/token/revoke".to_owned(),
        }
    }

    /// Path of the request that renews the lease: the mount's renew
    /// endpoint, or the token renewal endpoint.
    pub fn renew_request_path(&self) -> (r: String)
        ensures
            r@ == endpoint_path(self.issued_mount_path@, self.renew_path, "sys/token/renew"@),
    {
        match &self.renew_path {
            Some(p) => concat2(self.issued_mount_path.as_str(), p.as_str()),
            None => "sys/token/renew".to_owned(),
        }
    }

    /// What to do with the lease after a revocation attempt whose backend
    /// call succeeded (`revoked`) or failed.
    pub fn revocation_step(&self, revoked: bool, settings: &ExpirationSettings) -> (r: RevocationStep)
        requires
            !revoked ==> self.failed_revocation_attempts < u32::MAX,
            !revoked && self.failed_revocation_attempts + 1 < settings.revocation_max_retries
                ==> i64::MIN <= self.expires_at + settings.revocation_retry_timeout <= i64::MAX,
        ensures
            r == revocation_result(*self, revoked, *settings),
    {
        if revoked || self.failed_revocation_attempts + 1 >= settings.revocation_max_retries {
            RevocationStep::Delete
        } else {
            RevocationStep::Retry { retry_at: self.expires_at + settings.revocation_retry_timeout }
        }
    }

    /// Records a failed revocation that is to be retried at `retry_at`: one
    /// more failed attempt, and the lease is due again at `retry_at`.
    pub fn record_failed_revocation(&mut self, retry_at: i64)
        requires
            old(self).failed_revocation_attempts < u32::MAX,
        ensures
            *final(self) == after_failed_revocation(*old(self), retry_at),
    {
        self.failed_revocation_attempts = self.failed_revocation_attempts + 1;
        self.expires_at = retry_at;
    }

    /// Records a successful renewal at `now` for `ttl` milliseconds.
    pub fn renew(&mut self, now: i64, ttl: i64)
        requires
            i64::MIN <= now + ttl <= i64::MAX,
        ensures
            final(self).expires_at == now + ttl,
            final(self).last_renewal_time == now,
            final(self).id == old(self).id,
            final(self).issued_at == old(self).issued_at,
            final(self).issued_mount_path == old(self).issued_mount_path,
            final(self).revoke_path == old(self).revoke_path,
            final(self).revoke_data == old(self).revoke_data,
            final(self).renew_path == old(self).renew_path,
            final(self).renew_data == old(self).renew_data,
            final(self).failed_revocation_attempts == old(self).failed_revocation_attempts,
            final(self).namespace_id == old(self).namespace_id,
    {
        self.expires_at = now + ttl;
        self.last_renewal_time = now;
    }
}

/// Milliseconds from `now` until `at`, or `None` when `at` has passed.
pub fn time_until(at: i64, now: i64) -> (r: Option<u64>)
    ensures
        r is Some <==> at >= now,
        r matches Some(d) ==> d == at - now,
{
    if at >= now {
        Some((at as i128 - now as i128) as u64)
    } else {
        None
    }
}

/// How long the revocation worker sleeps when no lease is due: until the
/// next lease expires, or (`None`) until it is woken up.
pub fn idle_wait(next_expiry: Option<i64>, now: i64) -> (r: Option<u64>)
    ensures
        match next_expiry {
            Some(at) => r == (if at >= now { Some((at - now) as u64) } else { None::<u64> }),
            None => r is None,
        },
{
    match next_expiry {
        Some(at) => time_until(at, now),
        None => None,
    }
}

/// The RFC 3339 text of the time `millis` milliseconds after the Unix epoch
/// in UTC, or `None` outside the range of times `chrono` represents.
pub uninterp spec fn rfc3339_of_millis(millis: i64) -> Option<Seq<char>>;

/// `chrono::DateTime::<Utc>::from_timestamp_millis`, shown with
/// `to_rfc3339`.
#[verifier::external_body]
fn rfc3339_from_millis(millis: i64) -> (r: Option<String>)
    ensures
        match r {
            Some(t) => rfc3339_of_millis(millis) == Some(t@),
            None => rfc3339_of_millis(millis) is None,
        },
{
    match chrono::DateTime::<chrono::Utc>::from_timestamp_millis(millis) {
        Some(t) => Some(t.to_rfc3339()),
        None => None,
    }
}

/// A lease as the API shows it, its times in RFC 3339.
#[derive(Debug, Clone, PartialEq, Eq)]
pub struct LeaseEntryDTO {
    pub id: String,
    pub issued_mount_path: String,
    pub issue_time: String,
    pub expire_time: String,
    pub last_renewal_time: String,
}

impl LeaseEntry {
    /// The lease as the API shows it. The renewal time shown is the expiry
    /// time. `None` when a time is outside chrono's range.
    pub fn to_dto(&self) -> (r: Option<LeaseEntryDTO>)
        ensures
            r is Some <==> (rfc3339_of_millis(self.issued_at) is Some && rfc3339_of_millis(
                self.expires_at,
            ) is Some),
            r matches Some(d) ==> {
                &&& d.id@ == self.id@
                &&& d.issued_mount_path@ == self.issued_mount_path@
                &&& rfc3339_of_millis(self.issued_at) == Some(d.issue_time@)
                &&& rfc3339_of_millis(self.expires_at) == Some(d.expire_time@)
                &&& rfc3339_of_millis(self.expires_at) == Some(d.last_renewal_time@)
            },
    {
        let issue_time = match rfc3339_from_millis(self.issued_at) {
            Some(t) => t,
            None => return None,
        };
        let expire_time = match rfc3339_from_millis(self.expires_at) {
            Some(t) => t,
            None => return None,
        };
        let last_renewal_time = expire_time.clone();
        Some(
            LeaseEntryDTO {
                id: self.id.clone(),
                issued_mount_path: self.issued_mount_path.clone(),
                issue_time,
                expire_time,
                last_renewal_time,
            },
        )
    }
}

/// How many expired leases one pull takes at most: the count asked for,
/// capped at one hundred.
pub fn pull_limit(count: u32) -> (r: u32)
    ensures
        r == (if count < 100 { count } else { 100 }),
{
    if count < 100 {
        count
    } else {
        100
    }
}

/// The system clock; reading it and sleeping are done around the library.
pub struct SystemClock {}

impl SystemClock {
    pub fn new() -> (r: Self) {
        SystemClock {  }
    }
}

} // verus!
