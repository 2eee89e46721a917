use vstd::prelude::*;

use crate::error::ErrorType;
use crate::expiration::{endpoint_path, LeaseEntry};
use crate::text::concat3;

verus! {

/// Why a lease could not be renewed.
#[derive(Debug, Clone, PartialEq, Eq)]
pub enum RenewalError {
    /// No lease has the id.
    NotFound { lease_id: String },
    /// The mount that issued the lease is gone.
    MountNotFound { path: String },
    /// The TTL could not be calculated.
    TtlCalculation,
    /// The TTL to ask the backend for is negative.
    BadTtl,
    /// The backend's answer is not a renewal response.
    UnexpectedResponse,
    /// The backend refused to renew.
    RenewLease { lease_id: String },
}

impl RenewalError {
    /// The kind of server error this is reported as.
    pub fn kind(&self) -> (r: ErrorType)
        ensures
            r == match self {
                RenewalError::NotFound { .. } => ErrorType::NotFound,
                RenewalError::MountNotFound { .. } => ErrorType::MountNotFound,
                RenewalError::TtlCalculation => ErrorType::InternalError,
                RenewalError::BadTtl => ErrorType::BadRequest,
                RenewalError::UnexpectedResponse => ErrorType::InternalError,
                RenewalError::RenewLease { .. } => ErrorType::RenewLease,
            },
    {
        match self {
            RenewalError::NotFound { .. } => ErrorType::NotFound,
            RenewalError::MountNotFound { .. } => ErrorType::MountNotFound,
            RenewalError::TtlCalculation => ErrorType::InternalError,
            RenewalError::BadTtl => ErrorType::BadRequest,
            RenewalError::UnexpectedResponse => ErrorType::InternalError,
            RenewalError::RenewLease { .. } => ErrorType::RenewLease,
        }
    }
}

/// The message a renewal error is reported with.
pub open spec fn renewal_error_message(e: RenewalError) -> Seq<char> {
    match e {
        RenewalError::NotFound { lease_id } => "Lease `"@ + lease_id@ + "` not found"@,
        RenewalError::MountNotFound { path } => "Mount for path `"@ + path@ + "` was not found"@,
        RenewalError::TtlCalculation => "Internal error"@,
        RenewalError::BadTtl => "Bad renew TTL"@,
        RenewalError::UnexpectedResponse => "Internal error"@,
        RenewalError::RenewLease { lease_id } => "Failed to renew lease `"@ + lease_id@ + "`"@,
    }
}

impl RenewalError {
    /// The message the error is reported with.
    pub fn message(&self) -> (r: String)
        ensures
            r@ == renewal_error_message(*self),
    {
        match self {
            RenewalError::NotFound { lease_id } => concat3("Lease `", lease_id.as_str(), "` not found"),
            RenewalError::MountNotFound { path } => concat3(
                "Mount for path `",
                path.as_str(),
                "` was not found",
            ),
            RenewalError::TtlCalculation => "Internal error".to_owned(),
            RenewalError::BadTtl => "Bad renew TTL".to_owned(),
            RenewalError::UnexpectedResponse => "Internal error".to_owned(),
            RenewalError::RenewLease { lease_id } => concat3(
                "Failed to renew lease `",
                lease_id.as_str(),
                "`",
            ),
        }
    }
}

/// Where a renewal stands.
pub enum RenewalState {
    /// Looking up the lease.
    LookingUpLease,
    /// Looking up the mount that issued `lease`.
    LookingUpMount { lease: LeaseEntry },
    /// Calculating the TTL to ask the backend for.
    CalculatingRequestTtl { lease: LeaseEntry },
    /// Waiting for the backend that issued the lease.
    AwaitingBackend { lease: LeaseEntry },
    /// Calculating the TTL from the one the backend granted.
    CalculatingGrantedTtl { lease: LeaseEntry },
    /// Storing the new expiry of `lease`.
    Storing { lease: LeaseEntry },
    /// Done, or failed.
    Finished,
}

/// What the outside world answered.
pub enum RenewalEvent {
    /// The lease store holds this lease under the id, or none.
    LeaseLookedUp { lease: Option<LeaseEntry> },
    /// Whether the mount that issued the lease exists.
    MountLookedUp { found: bool },
    /// The calculated TTL in milliseconds, or `None` when it could not be
    /// calculated.
    TtlCalculated { ttl: Option<i64> },
    /// The backend failed to renew.
    BackendFailed,
    /// The backend answered with the TTL it granted, in milliseconds, or
    /// with something that is not a renewal response (`None`).
    BackendReplied { ttl: Option<u64> },
    /// The new expiry was stored.
    Stored,
}

/// What to do next.
pub enum RenewalAction {
    /// Look up the mount at `path`.
    LookupMount { path: String },
    /// Calculate the TTL of a lease issued at `issued_at` for the `requested`
    /// TTL (milliseconds), within the limits of the mount.
    CalculateTtl { issued_at: i64, requested: Option<u64> },
    /// Send a renew request to `path` for `ttl` milliseconds, with `data`.
    SendRenew { path: String, ttl: u64, data: String },
    /// Store the new expiry and renewal time of the lease `lease_id`.
    Store { lease_id: String, expires_at: i64, last_renewal_time: i64 },
    /// The lease was renewed.
    Done { lease: LeaseEntry },
    /// The renewal failed.
    Fail { error: RenewalError },
}

/// The renewal of one lease, driven by the answers of the lease store, the
/// mount store, the TTL calculation and the backend.
pub struct Renewal {
    lease_id: String,
    requested_ttl: Option<u64>,
    state: RenewalState,
}

/// The lease renewed at `now` for `ttl` milliseconds.
pub open spec fn renewed(le: LeaseEntry, now: i64, ttl: i64) -> LeaseEntry {
    LeaseEntry { expires_at: (now + ttl) as i64, last_renewal_time: now, ..le }
}

impl Renewal {
    /// The id of the lease being renewed.
    pub closed spec fn lease_id(&self) -> Seq<char> {
        self.lease_id@
    }

    /// The TTL the caller asked for.
    pub closed spec fn requested_ttl(&self) -> Option<u64> {
        self.requested_ttl
    }

    /// Where the renewal stands.
    pub closed spec fn state(&self) -> RenewalState {
        self.state
    }

    /// Whether `event` answers the action last returned, and a granted TTL
    /// added to `now` stays in range.
    pub open spec fn expects(&self, event: RenewalEvent, now: i64) -> bool {
        match (self.state(), event) {
            (RenewalState::LookingUpLease, RenewalEvent::LeaseLookedUp { .. }) => true,
            (RenewalState::LookingUpMount { .. }, RenewalEvent::MountLookedUp { .. }) => true,
            (RenewalState::CalculatingRequestTtl { .. }, RenewalEvent::TtlCalculated { .. }) => true,
            (RenewalState::AwaitingBackend { .. }, RenewalEvent::BackendFailed) => true,
            (RenewalState::AwaitingBackend { .. }, RenewalEvent::BackendReplied { .. }) => true,
            (RenewalState::CalculatingGrantedTtl { .. }, RenewalEvent::TtlCalculated { ttl }) => {
                ttl matches Some(t) ==> i64::MIN <= now + t <= i64::MAX
            },
            (RenewalState::Storing { .. }, RenewalEvent::Stored) => true,
            _ => false,
        }
    }

    /// Starts renewing the lease `lease_id` for the `ttl` the caller asked
    /// for, if any: the lease is to be looked up first.
    pub fn new(lease_id: String, ttl: Option<u64>) -> (r: Self)
        ensures
            r.lease_id() == lease_id@,
            r.requested_ttl() == ttl,
            r.state() == RenewalState::LookingUpLease,
    {
        Renewal { lease_id, requested_ttl: ttl, state: RenewalState::LookingUpLease }
    }

    /// Takes in the answer to the last action and says what to do next. A
    /// missing lease or mount, a failed TTL calculation, a negative TTL, a
    /// failed or unreadable backend answer end the renewal with the matching
    /// error; otherwise the lease expires at `now` plus the TTL calculated
    /// from the one the backend granted, and was renewed at `now`.
    #[verifier::rlimit(30)]
    pub fn step(&mut self, event: RenewalEvent, now: i64) -> (r: RenewalAction)
        requires
            old(self).expects(event, now),
        ensures
            final(self).lease_id() == old(self).lease_id(),
            final(self).requested_ttl() == old(self).requested_ttl(),
            match (old(self).state(), event) {
                (RenewalState::LookingUpLease, RenewalEvent::LeaseLookedUp { lease }) => match lease {
                    None => {
                        &&& final(self).state() == RenewalState::Finished
                        &&& r matches RenewalAction::Fail { error: RenewalError::NotFound { lease_id } }
                            && lease_id@ == old(self).lease_id()
                    },
                    Some(le) => {
                        &&& final(self).state() == (RenewalState::LookingUpMount { lease: le })
                        &&& r matches RenewalAction::LookupMount { path } && path@
                            == le.issued_mount_path@
                    },
                },
                (RenewalState::LookingUpMount { lease }, RenewalEvent::MountLookedUp { found }) => if found {
                    final(self).state() == (RenewalState::CalculatingRequestTtl { lease })
                        && r == (RenewalAction::CalculateTtl {
                        issued_at: lease.issued_at,
                        requested: old(self).requested_ttl(),
                    })
                } else {
                    &&& final(self).state() == RenewalState::Finished
                    &&& r matches RenewalAction::Fail { error: RenewalError::MountNotFound { path } }
                        && path@ == lease.issued_mount_path@
                },
                (
                    RenewalState::CalculatingRequestTtl { lease },
                    RenewalEvent::TtlCalculated { ttl },
                ) => match ttl {
                    None => final(self).state() == RenewalState::Finished && r == (RenewalAction::Fail {
                        error: RenewalError::TtlCalculation,
                    }),
                    Some(t) => if t < 0 {
                        final(self).state() == RenewalState::Finished && r == (RenewalAction::Fail {
                            error: RenewalError::BadTtl,
                        })
                    } else {
                        &&& final(self).state() == (RenewalState::AwaitingBackend { lease })
                        &&& r matches RenewalAction::SendRenew { path, ttl, data } && path@
                            == endpoint_path(lease.issued_mount_path@, lease.renew_path, "sys/token/renew"@)
                            && ttl == t && data@ == lease.renew_data@
                    },
                },
                (RenewalState::AwaitingBackend { lease }, RenewalEvent::BackendFailed) => {
                    &&& final(self).state() == RenewalState::Finished
                    &&& r matches RenewalAction::Fail { error: RenewalError::RenewLease { lease_id } }
                        && lease_id@ == old(self).lease_id()
                },
                (RenewalState::AwaitingBackend { lease }, RenewalEvent::BackendReplied { ttl }) => match ttl {
                    None => final(self).state() == RenewalState::Finished && r == (RenewalAction::Fail {
                        error: RenewalError::UnexpectedResponse,
                    }),
                    Some(t) => final(self).state() == (RenewalState::CalculatingGrantedTtl { lease })
                        && r == (RenewalAction::CalculateTtl {
                        issued_at: lease.issued_at,
                        requested: Some(t),
                    }),
                },
                (
                    RenewalState::CalculatingGrantedTtl { lease },
                    RenewalEvent::TtlCalculated { ttl },
                ) => match ttl {
                    None => final(self).state() == RenewalState::Finished && r == (RenewalAction::Fail {
                        error: RenewalError::TtlCalculation,
                    }),
                    Some(t) => {
                        &&& final(self).state() == (RenewalState::Storing {
                            lease: renewed(lease, now, t),
                        })
                        &&& r matches RenewalAction::Store { lease_id, expires_at, last_renewal_time }
                            && lease_id@ == old(self).lease_id() && expires_at == now + t
                            && last_renewal_time == now
                    },
                },
                (RenewalState::Storing { lease }, RenewalEvent::Stored) => final(self).state()
                    == RenewalState::Finished && r == (RenewalAction::Done { lease }),
                _ => false,
            },
    {
        let mut state = RenewalState::Finished;
        std::mem::swap(&mut state, &mut self.state);
        match (state, event) {
            (RenewalState::LookingUpLease, RenewalEvent::LeaseLookedUp { lease }) => match lease {
                None => RenewalAction::Fail {
                    error: RenewalError::NotFound { lease_id: self.lease_id.clone() },
                },
                Some(le) => {
                    let path = le.issued_mount_path.clone();
                    self.state = RenewalState::LookingUpMount { lease: le };
                    RenewalAction::LookupMount { path }
                },
            },
            (RenewalState::LookingUpMount { lease }, RenewalEvent::MountLookedUp { found }) => {
                if found {
                    let issued_at = lease.issued_at;
                    self.state = RenewalState::CalculatingRequestTtl { lease };
                    RenewalAction::CalculateTtl { issued_at, requested: self.requested_ttl }
                } else {
                    RenewalAction::Fail {
                        error: RenewalError::MountNotFound { path: lease.issued_mount_path },
                    }
                }
            },
            (RenewalState::CalculatingRequestTtl { lease }, RenewalEvent::TtlCalculated { ttl }) => {
                match ttl {
                    None => RenewalAction::Fail { error: RenewalError::TtlCalculation },
                    Some(t) => {
                        if t < 0 {
                            RenewalAction::Fail { error: RenewalError::BadTtl }
                        } else {
                            let path = lease.renew_request_path();
                            let data = lease.renew_data.clone();
                            self.state = RenewalState::AwaitingBackend { lease };
                            RenewalAction::SendRenew { path, ttl: t as u64, data }
                        }
                    },
                }
            },
            (RenewalState::AwaitingBackend { lease }, RenewalEvent::BackendFailed) => {
                RenewalAction::Fail {
                    error: RenewalError::RenewLease { lease_id: self.lease_id.clone() },
                }
            },
            (RenewalState::AwaitingBackend { lease }, RenewalEvent::BackendReplied { ttl }) => {
                match ttl {
                    None => RenewalAction::Fail { error: RenewalError::UnexpectedResponse },
                    Some(t) => {
                        let issued_at = lease.issued_at;
                        self.state = RenewalState::CalculatingGrantedTtl { lease };
                        RenewalAction::CalculateTtl { issued_at, requested: Some(t) }
                    },
                }
            },
            (RenewalState::CalculatingGrantedTtl { lease }, RenewalEvent::TtlCalculated { ttl }) => {
                match ttl {
                    None => RenewalAction::Fail { error: RenewalError::TtlCalculation },
                    Some(t) => {
                        let mut le = lease;
                        le.renew(now, t);
                        let expires_at = le.expires_at;
                        self.state = RenewalState::Storing { lease: le };
                        RenewalAction::Store {
                            lease_id: self.lease_id.clone(),
                            expires_at,
                            last_renewal_time: now,
                        }
                    },
                }
            },
            (RenewalState::Storing { lease }, RenewalEvent::Stored) => {
                RenewalAction::Done { lease }
            },
            _ => {
                proof {
                    assert(false);
                }
                RenewalAction::Fail { error: RenewalError::TtlCalculation }
            },
        }
    }
}

/// A renewed lease is the same lease (same id, mount, endpoints, data,
/// issue time and failed attempts), renewed at the time given and expiring
/// exactly the granted TTL after that renewal.
pub proof fn law_renewal_extends_from_the_renewal_time(le: LeaseEntry, now: i64, ttl: i64)
    requires
        i64::MIN <= now + ttl <= i64::MAX,
    ensures
        renewed(le, now, ttl).last_renewal_time == now,
        renewed(le, now, ttl).expires_at - renewed(le, now, ttl).last_renewal_time == ttl,
        renewed(le, now, ttl).id == le.id,
        renewed(le, now, ttl).issued_mount_path == le.issued_mount_path,
        renewed(le, now, ttl).revoke_path == le.revoke_path,
        renewed(le, now, ttl).revoke_data == le.revoke_data,
        renewed(le, now, ttl).renew_path == le.renew_path,
        renewed(le, now, ttl).renew_data == le.renew_data,
        renewed(le, now, ttl).issued_at == le.issued_at,
        renewed(le, now, ttl).failed_revocation_attempts == le.failed_revocation_attempts,
        renewed(le, now, ttl).namespace_id == le.namespace_id,
{
}

} // verus!
