use vstd::prelude::*;

use crate::expiration::{idle_wait, ExpirationSettings, LeaseEntry};
use crate::pending::{law_pull_takes_the_due_leases, pulls_first, sorted_by_expiry};

verus! {

/// What happened since the revocation worker last acted.
#[derive(Debug, Clone, Copy, PartialEq, Eq, Structural)]
pub enum WorkerEvent {
    /// The worker was started.
    Started,
    /// Pulling expired leases from the store gave `count` leases.
    Pulled { count: usize },
    /// Pulling expired leases from the store failed.
    PullFailed,
    /// The lease that expires next expires at `next_expiry`, if there is one.
    Peeked { next_expiry: Option<i64> },
    /// A lease was registered, or the next lease expired.
    Woken,
    /// The pulled leases have all been through revocation.
    Revoked,
    /// The shutdown signal was received.
    ShutdownRequested,
}

/// What the revocation worker does next.
#[derive(Debug, Clone, Copy, PartialEq, Eq, Structural)]
pub enum WorkerAction {
    /// Pull at most `limit` leases that have expired at `now`.
    Pull { limit: u32, now: i64 },
    /// Sleep `millis` milliseconds, then pull again.
    Backoff { millis: u64 },
    /// Look up the lease that expires next.
    Peek,
    /// Wait until a lease is registered, until `wait` milliseconds have
    /// passed (never when `None`), or until shutdown.
    Wait { wait: Option<u64> },
    /// Revoke the pulled leases, at most `concurrency` at a time.
    Revoke { concurrency: usize },
    /// Leave the loop.
    Stop,
}

/// The worker's reaction to `event` at time `now`.
pub open spec fn worker_reaction(event: WorkerEvent, now: i64, settings: ExpirationSettings) -> WorkerAction {
    match event {
        WorkerEvent::Started | WorkerEvent::Woken | WorkerEvent::Revoked => WorkerAction::Pull {
            limit: settings.revocation_worker_concurrency as u32,
            now,
        },
        WorkerEvent::PullFailed => WorkerAction::Backoff { millis: 500 },
        WorkerEvent::Pulled { count } => if count == 0 {
            WorkerAction::Peek
        } else {
            WorkerAction::Revoke { concurrency: settings.revocation_worker_concurrency }
        },
        WorkerEvent::Peeked { next_expiry } => WorkerAction::Wait {
            wait: match next_expiry {
                Some(at) => if at >= now {
                    Some((at - now) as u64)
                } else {
                    None
                },
                None => None,
            },
        },
        WorkerEvent::ShutdownRequested => WorkerAction::Stop,
    }
}

/// One step of the revocation worker: pull what has expired, revoke it, and
/// otherwise sleep until the next lease expires, a lease is registered or the
/// worker is shut down. A lease whose expiry has already passed when peeked
/// gives no timer.
pub fn worker_step(event: WorkerEvent, now: i64, settings: &ExpirationSettings) -> (r: WorkerAction)
    ensures
        r == worker_reaction(event, now, *settings),
        event is Started || event is Woken || event is Revoked ==> r == (WorkerAction::Pull {
            limit: settings.revocation_worker_concurrency as u32,
            now,
        }),
        event is PullFailed ==> r == (WorkerAction::Backoff { millis: 500 }),
        event matches WorkerEvent::Pulled { count } ==> r == (if count == 0 {
            WorkerAction::Peek
        } else {
            WorkerAction::Revoke { concurrency: settings.revocation_worker_concurrency }
        }),
        event matches WorkerEvent::Peeked { next_expiry } ==> r == (WorkerAction::Wait {
            wait: match next_expiry {
                Some(at) => if at >= now {
                    Some((at - now) as u64)
                } else {
                    None
                },
                None => None,
            },
        }),
        event is ShutdownRequested ==> r == WorkerAction::Stop,
{
    match event {
        WorkerEvent::Started | WorkerEvent::Woken | WorkerEvent::Revoked => {
            #[verifier::truncate]
            let limit = settings.revocation_worker_concurrency as u32;
            WorkerAction::Pull { limit, now }
        },
        WorkerEvent::PullFailed => WorkerAction::Backoff { millis: 500 },
        WorkerEvent::Pulled { count } => {
            if count == 0 {
                WorkerAction::Peek
            } else {
                WorkerAction::Revoke { concurrency: settings.revocation_worker_concurrency }
            }
        },
        WorkerEvent::Peeked { next_expiry } => WorkerAction::Wait {
            wait: idle_wait(next_expiry, now),
        },
        WorkerEvent::ShutdownRequested => WorkerAction::Stop,
    }
}

/// The worker revokes a lease only once it has expired: when it pulls, it
/// pulls at the time it reacts (`now`), the pull (of at most `cap` leases,
/// the store's cap on the worker's `limit`) selects only leases whose expiry
/// is not after `now`, and the lease that expires first is selected as soon
/// as the clock reads its expiry.
pub proof fn law_worker_revokes_only_expired_leases(
    event: WorkerEvent,
    now: i64,
    settings: ExpirationSettings,
    limit: u32,
    at: i64,
    cap: usize,
    leases: Seq<LeaseEntry>,
    count: int,
)
    requires
        worker_reaction(event, now, settings) == (WorkerAction::Pull { limit, now: at }),
        cap == (if limit < 100 { limit } else { 100 }),
        sorted_by_expiry(leases),
        pulls_first(leases, cap, at, count),
    ensures
        at == now,
        forall|j: int| 0 <= j < count ==> (#[trigger] leases[j]).expires_at <= now,
        cap > 0 && leases.len() > 0 ==> (count > 0 <==> leases[0].expires_at <= now),
{
    if cap > 0 && leases.len() > 0 {
        law_pull_takes_the_due_leases(leases, cap, at, count, 0);
    }
}

/// The worker goes back to pulling, at the time it reacts, whenever it has
/// started, been woken, or finished revoking a batch: leases still due after
/// a batch are pulled at once, not left waiting for the next wake-up. It
/// only waits after a pull that found nothing.
pub proof fn law_worker_pulls_after_each_batch(now: i64, settings: ExpirationSettings, event: WorkerEvent)
    ensures
        event is Started || event is Woken || event is Revoked ==> worker_reaction(event, now, settings)
            == (WorkerAction::Pull { limit: settings.revocation_worker_concurrency as u32, now }),
        worker_reaction(event, now, settings) is Wait ==> event is Peeked,
        worker_reaction(event, now, settings) is Peek ==> event == (WorkerEvent::Pulled { count: 0 }),
{
}

} // verus!
