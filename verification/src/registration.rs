use vstd::prelude::*;

use crate::error::ErrorType;
use crate::expiration::LeaseEntry;
use crate::ids::is_uuid_v4_text;

verus! {

/// What a backend answered a request with.
pub enum BackendResponse {
    /// Leased secret data, with the TTL the backend asks for and the
    /// endpoints (relative to the mount) and serialized data that revoke and
    /// renew it.
    Lease {
        ttl: Option<u64>,
        revoke_path: String,
        revoke_data: String,
        renew_path: String,
        renew_data: String,
    },
    /// A successful login as `alias` on the mount, with the TTL the backend
    /// asks for.
    Auth { alias: String, ttl: Option<u64> },
    /// Plain data, passed on as it is.
    Raw,
}

/// What the outside world answered.
pub enum RegistrationEvent {
    /// The backend answered the request.
    Responded { response: BackendResponse },
    /// The entity with the alias, by name, or none.
    EntityLookedUp { entity_name: Option<String> },
    /// The calculated TTL in milliseconds, or `None` when it could not be
    /// calculated.
    TtlCalculated { ttl: Option<i64> },
    /// A token was issued and stored; `revoke_data` is the serialized
    /// request body that revokes it.
    TokenIssued { token: String, revoke_data: String },
    /// The lease was registered with the expiration manager.
    LeaseRegistered,
}

/// What to do next.
pub enum RegistrationAction {
    /// Answer with the backend's response as it is.
    PassThrough,
    /// Look up the entity that has the alias `alias` on the mount `mount_path`.
    LookupEntity { alias: String, mount_path: String },
    /// Calculate the TTL of something issued at `now` for the `requested` TTL
    /// (milliseconds), within the limits of the mount.
    CalculateTtl { now: i64, requested: Option<u64> },
    /// Issue and store a token for the entity `entity_name`, valid `ttl`
    /// milliseconds.
    IssueToken { entity_name: String, ttl: i64 },
    /// Register `lease` with the expiration manager.
    RegisterLease { lease: LeaseEntry },
    /// Answer with the secret data, the lease id and the TTL.
    RespondLease { lease_id: String, ttl: u64 },
    /// Answer with the token, the lease id and the TTL.
    RespondAuth { token: String, lease_id: String, ttl: u64 },
    /// Answer with an error of kind `error`.
    Fail { error: ErrorType },
}

/// Where a registration stands.
pub enum RegistrationState {
    /// Waiting for the backend.
    AwaitingResponse,
    /// Calculating the TTL of a secret lease issued at `now`.
    CalculatingLeaseTtl {
        now: i64,
        revoke_path: String,
        revoke_data: String,
        renew_path: String,
        renew_data: String,
    },
    /// Looking up the entity of a login, which asked for `requested`.
    LookingUpEntity { requested: Option<u64> },
    /// Calculating the TTL of a token for `entity_name` issued at `now`.
    CalculatingTokenTtl { now: i64, entity_name: String },
    /// Issuing a token valid `ttl` milliseconds, at `now`.
    IssuingToken { now: i64, ttl: i64 },
    /// Registering the lease `lease_id` of `ttl` milliseconds, for `token`
    /// when the lease is a token's.
    RegisteringLease { lease_id: String, ttl: i64, token: Option<String> },
    /// Done, or failed.
    Finished,
}

/// The registration of the lease of one backend response: secrets and
/// logins get a lease that the expiration manager revokes when it expires.
pub struct Registration {
    mount_path: String,
    namespace_id: String,
    state: RegistrationState,
}

impl Registration {
    /// The path of the mount that answered.
    pub closed spec fn mount_path(&self) -> Seq<char> {
        self.mount_path@
    }

    /// The namespace of the request.
    pub closed spec fn namespace_id(&self) -> Seq<char> {
        self.namespace_id@
    }

    /// Where the registration stands.
    pub closed spec fn state(&self) -> RegistrationState {
        self.state
    }

    /// Whether `event` answers the action last returned, and the expiry of
    /// the lease to come stays in range.
    pub open spec fn expects(&self, event: RegistrationEvent) -> bool {
        match (self.state(), event) {
            (RegistrationState::AwaitingResponse, RegistrationEvent::Responded { .. }) => true,
            (
                RegistrationState::CalculatingLeaseTtl { now, .. },
                RegistrationEvent::TtlCalculated { ttl },
            ) => ttl matches Some(t) ==> i64::MIN <= now + t <= i64::MAX,
            (RegistrationState::LookingUpEntity { .. }, RegistrationEvent::EntityLookedUp { .. }) => true,
            (
                RegistrationState::CalculatingTokenTtl { now, .. },
                RegistrationEvent::TtlCalculated { ttl },
            ) => ttl matches Some(t) ==> i64::MIN <= now + t <= i64::MAX,
            (RegistrationState::IssuingToken { now, ttl }, RegistrationEvent::TokenIssued { .. }) => i64::MIN
                <= now + ttl <= i64::MAX,
            (RegistrationState::RegisteringLease { .. }, RegistrationEvent::LeaseRegistered) => true,
            _ => false,
        }
    }

    /// Starts the registration for a response of the mount at `mount_path`
    /// in the namespace `namespace_id`.
    pub fn new(mount_path: String, namespace_id: String) -> (r: Self)
        ensures
            r.mount_path() == mount_path@,
            r.namespace_id() == namespace_id@,
            r.state() == RegistrationState::AwaitingResponse,
    {
        Registration { mount_path, namespace_id, state: RegistrationState::AwaitingResponse }
    }

    /// Takes in the answer to the last action, at time `now`, and says what
    /// to do next. Plain data passes through. A secret gets a lease of the
    /// calculated TTL, revoked and renewed through the mount's endpoints. A
    /// login gets a token and a lease revoked and renewed through the token
    /// endpoints, when an entity has the alias, and is refused otherwise. A
    /// failed TTL calculation, or a negative TTL once the lease is
    /// registered, fails.
    #[verifier::rlimit(30)]
    pub fn step(&mut self, event: RegistrationEvent, now: i64) -> (r: RegistrationAction)
        requires
            old(self).expects(event),
        ensures
            final(self).mount_path() == old(self).mount_path(),
            final(self).namespace_id() == old(self).namespace_id(),
            match (old(self).state(), event) {
                (RegistrationState::AwaitingResponse, RegistrationEvent::Responded { response }) => match response {
                    BackendResponse::Raw => final(self).state() == RegistrationState::Finished && r
                        is PassThrough,
                    BackendResponse::Lease { ttl, revoke_path, revoke_data, renew_path, renew_data } => {
                        &&& final(self).state() == (RegistrationState::CalculatingLeaseTtl {
                            now,
                            revoke_path,
                            revoke_data,
                            renew_path,
                            renew_data,
                        })
                        &&& r == (RegistrationAction::CalculateTtl { now, requested: ttl })
                    },
                    BackendResponse::Auth { alias, ttl } => {
                        &&& final(self).state() == (RegistrationState::LookingUpEntity {
                            requested: ttl,
                        })
                        &&& r matches RegistrationAction::LookupEntity { alias: a, mount_path }
                            && a == alias && mount_path@ == old(self).mount_path()
                    },
                },
                (
                    RegistrationState::CalculatingLeaseTtl {
                        now: issued,
                        revoke_path,
                        revoke_data,
                        renew_path,
                        renew_data,
                    },
                    RegistrationEvent::TtlCalculated { ttl },
                ) => match ttl {
                    None => final(self).state() == RegistrationState::Finished && r == (
                    RegistrationAction::Fail { error: ErrorType::InternalError }),
                    Some(t) => {
                        &&& r matches RegistrationAction::RegisterLease { lease } && {
                            &&& is_uuid_v4_text(lease.id@)
                            &&& lease.issued_mount_path@ == old(self).mount_path()
                            &&& lease.revoke_path == Some(revoke_path)
                            &&& lease.revoke_data == revoke_data
                            &&& lease.renew_path == Some(renew_path)
                            &&& lease.renew_data == renew_data
                            &&& lease.issued_at == issued
                            &&& lease.expires_at == issued + t
                            &&& lease.last_renewal_time == issued
                            &&& lease.failed_revocation_attempts == 0
                            &&& lease.namespace_id@ == old(self).namespace_id()
                            &&& final(self).state() matches RegistrationState::RegisteringLease {
                                lease_id,
                                ttl,
                                token,
                            } && lease_id@ == lease.id@ && ttl == t && token is None
                        }
                    },
                },
                (
                    RegistrationState::LookingUpEntity { requested },
                    RegistrationEvent::EntityLookedUp { entity_name },
                ) => match entity_name {
                    None => final(self).state() == RegistrationState::Finished && r == (
                    RegistrationAction::Fail { error: ErrorType::BadRequest }),
                    Some(name) => {
                        &&& final(self).state() == (RegistrationState::CalculatingTokenTtl {
                            now,
                            entity_name: name,
                        })
                        &&& r == (RegistrationAction::CalculateTtl { now, requested })
                    },
                },
                (
                    RegistrationState::CalculatingTokenTtl { now: issued, entity_name },
                    RegistrationEvent::TtlCalculated { ttl },
                ) => match ttl {
                    None => final(self).state() == RegistrationState::Finished && r == (
                    RegistrationAction::Fail { error: ErrorType::InternalError }),
                    Some(t) => {
                        &&& final(self).state() == (RegistrationState::IssuingToken {
                            now: issued,
                            ttl: t,
                        })
                        &&& r == (RegistrationAction::IssueToken { entity_name, ttl: t })
                    },
                },
                (
                    RegistrationState::IssuingToken { now: issued, ttl: t },
                    RegistrationEvent::TokenIssued { token, revoke_data },
                ) => {
                    &&& r matches RegistrationAction::RegisterLease { lease } && {
                        &&& is_uuid_v4_text(lease.id@)
                        &&& lease.issued_mount_path@ == old(self).mount_path()
                        &&& lease.revoke_path is None
                        &&& lease.revoke_data@ == revoke_data@
                        &&& lease.renew_path is None
                        &&& lease.renew_data@ == revoke_data@
                        &&& lease.issued_at == issued
                        &&& lease.expires_at == issued + t
                        &&& lease.last_renewal_time == issued
                        &&& lease.failed_revocation_attempts == 0
                        &&& lease.namespace_id@ == old(self).namespace_id()
                        &&& final(self).state() matches RegistrationState::RegisteringLease {
                            lease_id,
                            ttl,
                            token: tk,
                        } && lease_id@ == lease.id@ && ttl == t && tk == Some(token)
                    }
                },
                (
                    RegistrationState::RegisteringLease { lease_id, ttl, token },
                    RegistrationEvent::LeaseRegistered,
                ) => {
                    &&& final(self).state() == RegistrationState::Finished
                    &&& if ttl < 0 {
                        r == (RegistrationAction::Fail { error: ErrorType::InternalError })
                    } else {
                        match token {
                            None => r == (RegistrationAction::RespondLease {
                                lease_id,
                                ttl: ttl as u64,
                            }),
                            Some(tk) => r == (RegistrationAction::RespondAuth {
                                token: tk,
                                lease_id,
                                ttl: ttl as u64,
                            }),
                        }
                    }
                },
                _ => false,
            },
    {
        let mut state = RegistrationState::Finished;
        std::mem::swap(&mut state, &mut self.state);
        match (state, event) {
            (RegistrationState::AwaitingResponse, RegistrationEvent::Responded { response }) => {
                match response {
                    BackendResponse::Raw => RegistrationAction::PassThrough,
                    BackendResponse::Lease { ttl, revoke_path, revoke_data, renew_path, renew_data } => {
                        self.state =
                        RegistrationState::CalculatingLeaseTtl {
                            now,
                            revoke_path,
                            revoke_data,
                            renew_path,
                            renew_data,
                        };
                        RegistrationAction::CalculateTtl { now, requested: ttl }
                    },
                    BackendResponse::Auth { alias, ttl } => {
                        self.state = RegistrationState::LookingUpEntity { requested: ttl };
                        RegistrationAction::LookupEntity { alias, mount_path: self.mount_path.clone() }
                    },
                }
            },
            (
                RegistrationState::CalculatingLeaseTtl {
                    now: issued,
                    revoke_path,
                    revoke_data,
                    renew_path,
                    renew_data,
                },
                RegistrationEvent::TtlCalculated { ttl },
            ) => {
                match ttl {
                    None => RegistrationAction::Fail { error: ErrorType::InternalError },
                    Some(t) => {
                        let lease = LeaseEntry::new(
                            self.mount_path.clone(),
                            Some(revoke_path),
                            revoke_data,
                            Some(renew_path),
                            renew_data,
                            issued,
                            t,
                            self.namespace_id.clone(),
                        );
                        self.state =
                        RegistrationState::RegisteringLease {
                            lease_id: lease.id.clone(),
                            ttl: t,
                            token: None,
                        };
                        RegistrationAction::RegisterLease { lease }
                    },
                }
            },
            (
                RegistrationState::LookingUpEntity { requested },
                RegistrationEvent::EntityLookedUp { entity_name },
            ) => {
                match entity_name {
                    None => RegistrationAction::Fail { error: ErrorType::BadRequest },
                    Some(name) => {
                        self.state =
                        RegistrationState::CalculatingTokenTtl { now, entity_name: name };
                        RegistrationAction::CalculateTtl { now, requested }
                    },
                }
            },
            (
                RegistrationState::CalculatingTokenTtl { now: issued, entity_name },
                RegistrationEvent::TtlCalculated { ttl },
            ) => {
                match ttl {
                    None => RegistrationAction::Fail { error: ErrorType::InternalError },
                    Some(t) => {
                        self.state = RegistrationState::IssuingToken { now: issued, ttl: t };
                        RegistrationAction::IssueToken { entity_name, ttl: t }
                    },
                }
            },
            (
                RegistrationState::IssuingToken { now: issued, ttl: t },
                RegistrationEvent::TokenIssued { token, revoke_data },
            ) => {
                let renew_data = revoke_data.clone();
                let lease = LeaseEntry::new(
                    self.mount_path.clone(),
                    None,
                    revoke_data,
                    None,
                    renew_data,
                    issued,
                    t,
                    self.namespace_id.clone(),
                );
                self.state =
                RegistrationState::RegisteringLease {
                    lease_id: lease.id.clone(),
                    ttl: t,
                    token: Some(token),
                };
                RegistrationAction::RegisterLease { lease }
            },
            (
                RegistrationState::RegisteringLease { lease_id, ttl, token },
                RegistrationEvent::LeaseRegistered,
            ) => {
                if ttl < 0 {
                    RegistrationAction::Fail { error: ErrorType::InternalError }
                } else {
                    match token {
                        None => RegistrationAction::RespondLease { lease_id, ttl: ttl as u64 },
                        Some(tk) => RegistrationAction::RespondAuth {
                            token: tk,
                            lease_id,
                            ttl: ttl as u64,
                        },
                    }
                }
            },
            _ => {
                proof {
                    assert(false);
                }
                RegistrationAction::PassThrough
            },
        }
    }
}

} // verus!
