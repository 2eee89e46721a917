use vstd::prelude::*;

use crate::server::StorageState;

verus! {

/// What a request asks of a path.
#[derive(Debug, Clone, Copy, PartialEq, Eq, Structural)]
pub enum Operation {
    Create,
    Read,
    Update,
    Delete,
    Revoke,
    Renew,
}

/// The handlers of the system backend.
#[derive(Debug, Clone, Copy, PartialEq, Eq, Structural)]
pub enum SystemHandler {
    Unseal,
    Seal,
    Initialize,
    Status,
    MountsList,
    Mount,
    UpdateMount,
    MountDisable,
    CreatePolicy,
    ListPolicies,
    DeletePolicy,
    TokenRevocation,
    TokenRenewal,
    LeaseRevocation,
    LeaseRenew,
    LeaseLookup,
    LeaseRevocationByMount,
    ListLeases,
    EntityCreate,
    AttachEntityPolicy,
    RemoveEntityPolicy,
    AttachEntityAlias,
    RemoveEntityAlias,
}

/// A route of the system backend: the path (a trailing `*name` matches the
/// rest of the path), the operation, the handler, and, for a route with its
/// own rule, the storage states in which anyone may call it without a
/// token. A route without its own rule keeps the router's default.
#[derive(Debug)]
pub struct SystemRoute {
    pub path: String,
    pub operation: Operation,
    pub handler: SystemHandler,
    pub open_in: Option<Vec<StorageState>>,
}

/// A route as plain values.
pub open spec fn route_view(r: SystemRoute) -> (Seq<char>, Operation, SystemHandler, Option<Seq<StorageState>>) {
    (
        r.path@,
        r.operation,
        r.handler,
        match r.open_in {
            Some(v) => Some(v@),
            None => None,
        },
    )
}

/// The storage state in which only the unseal routes are open.
pub open spec fn sealed_only() -> Option<Seq<StorageState>> {
    Some(seq![StorageState::Sealed])
}

/// The routes of the system backend, in the order they are declared.
pub open spec fn system_route_table() -> Seq<(Seq<char>, Operation, SystemHandler, Option<Seq<StorageState>>)> {
    seq![
        ("/unseal"@, Operation::Create, SystemHandler::Unseal, sealed_only()),
        ("/unseal"@, Operation::Update, SystemHandler::Unseal, sealed_only()),
        ("/seal"@, Operation::Create, SystemHandler::Seal, Some(seq![StorageState::Unsealed])),
        ("/seal"@, Operation::Update, SystemHandler::Seal, Some(seq![StorageState::Unsealed])),
        ("/init"@, Operation::Create, SystemHandler::Initialize, Some(seq![StorageState::Uninitialized])),
        ("/init"@, Operation::Update, SystemHandler::Initialize, Some(seq![StorageState::Uninitialized])),
        (
            "/status"@,
            Operation::Read,
            SystemHandler::Status,
            Some(seq![StorageState::Uninitialized, StorageState::Sealed, StorageState::Unsealed]),
        ),
        ("/mounts"@, Operation::Read, SystemHandler::MountsList, None),
        ("/mounts/*path"@, Operation::Create, SystemHandler::Mount, None),
        ("/mounts/*path"@, Operation::Update, SystemHandler::UpdateMount, None),
        ("/mounts/*path"@, Operation::Delete, SystemHandler::MountDisable, None),
        ("/policies"@, Operation::Update, SystemHandler::CreatePolicy, None),
        ("/policies"@, Operation::Create, SystemHandler::CreatePolicy, None),
        ("/policies"@, Operation::Read, SystemHandler::ListPolicies, None),
        ("/policies/*name"@, Operation::Delete, SystemHandler::DeletePolicy, None),
        ("/token/revoke"@, Operation::Revoke, SystemHandler::TokenRevocation, None),
        ("/token/renew"@, Operation::Renew, SystemHandler::TokenRenewal, None),
        ("/leases/revoke/*lease_id"@, Operation::Update, SystemHandler::LeaseRevocation, None),
        ("/leases/renew/*lease_id"@, Operation::Update, SystemHandler::LeaseRenew, None),
        ("/leases/lookup/*lease_id"@, Operation::Read, SystemHandler::LeaseLookup, None),
        ("/leases/revoke-mount/*prefix"@, Operation::Update, SystemHandler::LeaseRevocationByMount, None),
        ("/leases/lookup-mount/*prefix"@, Operation::Read, SystemHandler::ListLeases, None),
        ("/entity"@, Operation::Create, SystemHandler::EntityCreate, None),
        ("/entity/policy"@, Operation::Update, SystemHandler::AttachEntityPolicy, None),
        ("/entity/policy/*name"@, Operation::Update, SystemHandler::RemoveEntityPolicy, None),
        ("/entity/alias"@, Operation::Update, SystemHandler::AttachEntityAlias, None),
        ("/entity/alias/*name"@, Operation::Update, SystemHandler::RemoveEntityAlias, None),
    ]
}

/// Just `state`.
fn only(state: StorageState) -> (r: Vec<StorageState>)
    ensures
        r@ == seq![state],
{
    let mut r: Vec<StorageState> = Vec::new();
    r.push(state);
    r
}

/// Every storage state.
fn every_state() -> (r: Vec<StorageState>)
    ensures
        r@ == seq![StorageState::Uninitialized, StorageState::Sealed, StorageState::Unsealed],
{
    let mut r: Vec<StorageState> = Vec::new();
    r.push(StorageState::Uninitialized);
    r.push(StorageState::Sealed);
    r.push(StorageState::Unsealed);
    r
}

/// The rule of a route by its handler: sealing is open to anyone only while
/// the storage is unsealed, unsealing only while it is sealed, initializing
/// only while it is uninitialized, and the status in every state; every
/// other handler keeps the router's default rule.
pub open spec fn open_as_its_handler_requires(handler: SystemHandler, open_in: Option<Seq<StorageState>>) -> bool {
    match handler {
        SystemHandler::Seal => open_in == Some(seq![StorageState::Unsealed]),
        SystemHandler::Unseal => open_in == Some(seq![StorageState::Sealed]),
        SystemHandler::Initialize => open_in == Some(seq![StorageState::Uninitialized]),
        SystemHandler::Status => open_in == Some(
            seq![StorageState::Uninitialized, StorageState::Sealed, StorageState::Unsealed],
        ),
        _ => open_in is None,
    }
}

/// Every route of the system backend is open exactly in the storage states
/// its handler calls for.
pub proof fn law_routes_open_by_handler(i: int)
    requires
        0 <= i < system_route_table().len(),
    ensures
        open_as_its_handler_requires(system_route_table()[i].2, system_route_table()[i].3),
{
    let t = system_route_table();
    assert(t.len() == 27);
    if i < 7 {
        if i == 0 {} else if i == 1 {} else if i == 2 {} else if i == 3 {} else if i == 4 {} else if i == 5 {} else {}
    } else if i < 14 {
        if i == 7 {} else if i == 8 {} else if i == 9 {} else if i == 10 {} else if i == 11 {} else if i == 12 {} else {}
    } else if i < 21 {
        if i == 14 {} else if i == 15 {} else if i == 16 {} else if i == 17 {} else if i == 18 {} else if i == 19 {} else {}
    } else {
        if i == 21 {} else if i == 22 {} else if i == 23 {} else if i == 24 {} else if i == 25 {} else {}
    }
}

/// One route.
fn route(path: &str, operation: Operation, handler: SystemHandler, open_in: Option<Vec<StorageState>>) -> (r: SystemRoute)
    ensures
        route_view(r) == (
            path@,
            operation,
            handler,
            match open_in {
                Some(v) => Some(v@),
                None => None::<Seq<StorageState>>,
            },
        ),
{
    SystemRoute { path: path.to_owned(), operation, handler, open_in }
}

/// The routes of the system backend: unsealing is open while the storage is
/// sealed, sealing while it is unsealed, initializing while it is
/// uninitialized, and the status in every state; the other routes keep the
/// router's default rule.
#[verifier::rlimit(60)]
pub fn system_routes() -> (r: Vec<SystemRoute>)
    ensures
        r@.map_values(|x: SystemRoute| route_view(x)) == system_route_table(),
        forall|i: int|
            0 <= i < r@.len() ==> open_as_its_handler_requires(
                (#[trigger] r@[i]).handler,
                route_view(r@[i]).3,
            ),
{
    let mut r: Vec<SystemRoute> = Vec::new();
    r.push(route("/unseal", Operation::Create, SystemHandler::Unseal, Some(only(StorageState::Sealed))));
    r.push(route("/unseal", Operation::Update, SystemHandler::Unseal, Some(only(StorageState::Sealed))));
    r.push(route("/seal", Operation::Create, SystemHandler::Seal, Some(only(StorageState::Unsealed))));
    r.push(route("/seal", Operation::Update, SystemHandler::Seal, Some(only(StorageState::Unsealed))));
    r.push(
        route("/init", Operation::Create, SystemHandler::Initialize, Some(only(StorageState::Uninitialized))),
    );
    r.push(
        route("/init", Operation::Update, SystemHandler::Initialize, Some(only(StorageState::Uninitialized))),
    );
    r.push(
        route(
            "/status",
            Operation::Read,
            SystemHandler::Status,
            Some(every_state()),
        ),
    );
    r.push(route("/mounts", Operation::Read, SystemHandler::MountsList, None));
    r.push(route("/mounts/*path", Operation::Create, SystemHandler::Mount, None));
    r.push(route("/mounts/*path", Operation::Update, SystemHandler::UpdateMount, None));
    r.push(route("/mounts/*path", Operation::Delete, SystemHandler::MountDisable, None));
    r.push(route("/policies", Operation::Update, SystemHandler::CreatePolicy, None));
    r.push(route("/policies", Operation::Create, SystemHandler::CreatePolicy, None));
    r.push(route("/policies", Operation::Read, SystemHandler::ListPolicies, None));
    r.push(route("/policies/*name", Operation::Delete, SystemHandler::DeletePolicy, None));
    r.push(route("/token/revoke", Operation::Revoke, SystemHandler::TokenRevocation, None));
    r.push(route("/token/renew", Operation::Renew, SystemHandler::TokenRenewal, None));
    r.push(route("/leases/revoke/*lease_id", Operation::Update, SystemHandler::LeaseRevocation, None));
    r.push(route("/leases/renew/*lease_id", Operation::Update, SystemHandler::LeaseRenew, None));
    r.push(route("/leases/lookup/*lease_id", Operation::Read, SystemHandler::LeaseLookup, None));
    r.push(
        route("/leases/revoke-mount/*prefix", Operation::Update, SystemHandler::LeaseRevocationByMount, None),
    );
    r.push(route("/leases/lookup-mount/*prefix", Operation::Read, SystemHandler::ListLeases, None));
    r.push(route("/entity", Operation::Create, SystemHandler::EntityCreate, None));
    r.push(route("/entity/policy", Operation::Update, SystemHandler::AttachEntityPolicy, None));
    r.push(route("/entity/policy/*name", Operation::Update, SystemHandler::RemoveEntityPolicy, None));
    r.push(route("/entity/alias", Operation::Update, SystemHandler::AttachEntityAlias, None));
    r.push(route("/entity/alias/*name", Operation::Update, SystemHandler::RemoveEntityAlias, None));
    assert(r@.map_values(|x: SystemRoute| route_view(x)) =~= system_route_table());
    proof {
        assert forall|i: int| 0 <= i < r@.len() implies open_as_its_handler_requires(
            (#[trigger] r@[i]).handler,
            route_view(r@[i]).3,
        ) by {
            assert(route_view(r@[i]) == system_route_table()[i]);
            law_routes_open_by_handler(i);
        }
    }
    r
}

} // verus!
