use vstd::prelude::*;

use crate::ids::{uuid_simple, uuid_simple_text};
use crate::sqlite::{drop_table_statement, prefix_pattern, Table};
use crate::text::{concat2, concat3, starts_with, str_starts_with};

verus! {

/// Where the system backend is mounted.
pub const SYSTEM_MOUNT_PATH: &'static str = "sys/";

/// The kinds of backend that can be mounted.
#[derive(Debug, Clone, Copy, PartialEq, Eq, Structural)]
pub enum BackendType {
    Kv,
    Postgres,
    System,
    Userpass,
}

/// Credential (authentication) backends and logical (secret) backends.
#[derive(Debug, Clone, Copy, PartialEq, Eq, Structural)]
pub enum BackendCategory {
    Credential,
    Logical,
}

/// The category of a backend type: `userpass` authenticates, the others
/// hold secrets.
pub open spec fn category_of(variant: BackendType) -> BackendCategory {
    if variant == BackendType::Userpass {
        BackendCategory::Credential
    } else {
        BackendCategory::Logical
    }
}

impl BackendType {
    /// The category of a mountable backend: `userpass` authenticates, the
    /// others hold secrets.
    pub fn category(self) -> (r: BackendCategory)
        ensures
            r == (if self == BackendType::Userpass {
                BackendCategory::Credential
            } else {
                BackendCategory::Logical
            }),
            r == category_of(self),
    {
        match self {
            BackendType::Userpass => BackendCategory::Credential,
            _ => BackendCategory::Logical,
        }
    }
}

/// Why a backend cannot be mounted or removed.
#[derive(Debug, Clone, PartialEq, Eq)]
pub enum MountError {
    /// The system backend cannot be mounted or removed.
    InvalidMountType,
    /// The path overlaps the mount at `existing_path`.
    MountPathConflict { path: String, existing_path: String },
    /// A credential backend must be mounted under `auth/`.
    AuthBackendNotUnderAuthPath,
    /// Only credential backends may be mounted under `auth/`.
    LogicalBackendUnderAuthPath,
}

/// The outcome of mounting `variant` at `path`, given the mounted path that is
/// the longest prefix of `path`, if any.
pub open spec fn mount_check(path: Seq<char>, variant: BackendType, existing: Option<Seq<char>>) -> Option<
    MountErrorView,
> {
    if variant == BackendType::System {
        Some(MountErrorView::InvalidMountType)
    } else if starts_with(path, "sys/"@) || starts_with("sys/"@, path) {
        Some(MountErrorView::MountPathConflict { path, existing_path: "sys/"@ })
    } else if existing is Some {
        Some(MountErrorView::MountPathConflict { path, existing_path: existing->0 })
    } else if (variant == BackendType::Userpass) && !starts_with(path, "auth/"@) {
        Some(MountErrorView::AuthBackendNotUnderAuthPath)
    } else if (variant != BackendType::Userpass) && starts_with(path, "auth/"@) {
        Some(MountErrorView::LogicalBackendUnderAuthPath)
    } else {
        None
    }
}

/// `variant` is not the system backend, `path` neither lies under `sys/`
/// nor leads to it, and no mount of the namespace is a prefix of `path`.
pub open spec fn mountable_without_conflict(path: Seq<char>, variant: BackendType, existing: Option<Seq<char>>) -> bool {
    &&& variant != BackendType::System
    &&& !starts_with(path, "sys/"@)
    &&& !starts_with("sys/"@, path)
    &&& existing is None
}

/// Absent any conflict, where a backend may be mounted depends on its
/// category alone: a credential backend only under `auth/`, every other
/// (logical) backend only outside it. A path under `auth/` never conflicts
/// with `sys/`.
pub proof fn law_backends_mount_by_category(path: Seq<char>, variant: BackendType, existing: Option<Seq<char>>)
    ensures
        starts_with(path, "auth/"@) ==> !starts_with(path, "sys/"@) && !starts_with("sys/"@, path),
        mountable_without_conflict(path, variant, existing) ==> {
            &&& category_of(variant) == BackendCategory::Logical && starts_with(path, "auth/"@)
                ==> mount_check(path, variant, existing) == Some(MountErrorView::LogicalBackendUnderAuthPath)
            &&& category_of(variant) == BackendCategory::Credential && !starts_with(path, "auth/"@)
                ==> mount_check(path, variant, existing) == Some(MountErrorView::AuthBackendNotUnderAuthPath)
            &&& (category_of(variant) == BackendCategory::Credential) == starts_with(path, "auth/"@)
                ==> mount_check(path, variant, existing) is None
        },
{
    reveal_strlit("auth/");
    reveal_strlit("sys/");
    if starts_with(path, "auth/"@) {
        assert("auth/"@[0] == 'a');
        assert(path.take(5)[0] == path[0]);
        assert(path[0] == 'a');
        if starts_with(path, "sys/"@) {
            assert("sys/"@[0] == 's');
            assert(path.take(4)[0] == path[0]);
        }
    }
}

/// `MountError` with its texts as character sequences.
pub enum MountErrorView {
    InvalidMountType,
    MountPathConflict { path: Seq<char>, existing_path: Seq<char> },
    AuthBackendNotUnderAuthPath,
    LogicalBackendUnderAuthPath,
}

impl MountError {
    pub open spec fn view(self) -> MountErrorView {
        match self {
            MountError::InvalidMountType => MountErrorView::InvalidMountType,
            MountError::MountPathConflict { path, existing_path } => MountErrorView::MountPathConflict {
                path: path@,
                existing_path: existing_path@,
            },
            MountError::AuthBackendNotUnderAuthPath => MountErrorView::AuthBackendNotUnderAuthPath,
            MountError::LogicalBackendUnderAuthPath => MountErrorView::LogicalBackendUnderAuthPath,
        }
    }
}

pub open spec fn opt_view(s: Option<String>) -> Option<Seq<char>> {
    match s {
        Some(v) => Some(v@),
        None => None,
    }
}

/// Checks that `variant` may be mounted at `path`. `existing` is the path of
/// the mount that is the longest prefix of `path` in the namespace, if any.
pub fn check_mount(path: &str, variant: BackendType, existing: Option<String>) -> (r: Result<(), MountError>)
    ensures
        r is Ok <==> mount_check(path@, variant, opt_view(existing)) is None,
        r matches Err(e) ==> mount_check(path@, variant, opt_view(existing)) == Some(e@),
        variant == BackendType::System ==> r == Err::<(), MountError>(MountError::InvalidMountType),
        variant != BackendType::System && (starts_with(path@, "sys/"@) || starts_with("sys/"@, path@))
            ==> (r matches Err(MountError::MountPathConflict { path: p, existing_path: e }) && p@ == path@
            && e@ == "sys/"@),
        variant != BackendType::System && !starts_with(path@, "sys/"@) && !starts_with("sys/"@, path@)
            && existing is Some ==> (r matches Err(MountError::MountPathConflict { path: p, existing_path: e })
            && p@ == path@ && e == existing->0),
        mountable_without_conflict(path@, variant, opt_view(existing)) ==> {
            &&& category_of(variant) == BackendCategory::Logical && starts_with(path@, "auth/"@) ==> r
                == Err::<(), MountError>(MountError::LogicalBackendUnderAuthPath)
            &&& category_of(variant) == BackendCategory::Credential && !starts_with(path@, "auth/"@)
                ==> r == Err::<(), MountError>(MountError::AuthBackendNotUnderAuthPath)
            &&& (category_of(variant) == BackendCategory::Credential) == starts_with(path@, "auth/"@)
                ==> r is Ok
        },
{
    proof {
        law_backends_mount_by_category(path@, variant, opt_view(existing));
    }
    if variant == BackendType::System {
        return Err(MountError::InvalidMountType);
    }
    if str_starts_with(path, SYSTEM_MOUNT_PATH) || str_starts_with(SYSTEM_MOUNT_PATH, path) {
        return Err(MountError::MountPathConflict {
            path: path.to_owned(),
            existing_path: SYSTEM_MOUNT_PATH.to_owned(),
        });
    }
    if let Some(existing_path) = existing {
        return Err(MountError::MountPathConflict { path: path.to_owned(), existing_path });
    }
    let is_auth_path = str_starts_with(path, "auth/");
    let is_auth_backend = variant.category() == BackendCategory::Credential;
    if is_auth_backend != is_auth_path {
        if is_auth_backend {
            return Err(MountError::AuthBackendNotUnderAuthPath);
        }
        return Err(MountError::LogicalBackendUnderAuthPath);
    }
    Ok(())
}

/// Checks that the backend `variant` may be removed.
pub fn check_removal(variant: BackendType) -> (r: Result<(), MountError>)
    ensures
        r is Err <==> variant == BackendType::System,
        r matches Err(e) ==> e == MountError::InvalidMountType,
{
    if variant == BackendType::System {
        Err(MountError::InvalidMountType)
    } else {
        Ok(())
    }
}

/// A mount as the mount table stores it: TTLs in milliseconds, which read
/// back negative only if the table was written by something else.
#[derive(Debug)]
pub struct MountEntryRaw {
    pub id: String,
    pub path: String,
    pub default_lease_ttl: i64,
    pub max_lease_ttl: i64,
    pub variant: String,
    pub namespace_id: String,
}

/// The lease TTLs of a mount, in milliseconds.
#[derive(Debug, Clone, Copy, PartialEq, Eq, Structural)]
pub struct MountConfig {
    pub default_lease_ttl: u64,
    pub max_lease_ttl: u64,
}

/// A stored TTL read back: a negative one means no limit.
pub open spec fn ttl_from_stored(stored: i64) -> u64 {
    if stored >= 0 {
        stored as u64
    } else {
        u64::MAX
    }
}

/// A TTL as stored: one beyond the column's range is stored as its maximum.
pub open spec fn ttl_to_stored(millis: u128) -> i64 {
    if millis <= i64::MAX {
        millis as i64
    } else {
        i64::MAX
    }
}

/// Reads a stored TTL (milliseconds) back.
pub fn read_stored_ttl(stored: i64) -> (r: u64)
    ensures
        r == ttl_from_stored(stored),
{
    if stored >= 0 {
        stored as u64
    } else {
        u64::MAX
    }
}

/// The value stored for a TTL of `millis` milliseconds.
pub fn stored_ttl(millis: u128) -> (r: i64)
    ensures
        r == ttl_to_stored(millis),
{
    if millis <= i64::MAX as u128 {
        millis as i64
    } else {
        i64::MAX
    }
}

impl MountEntryRaw {
    /// The TTLs of the stored mount.
    pub fn config(&self) -> (r: MountConfig)
        ensures
            r.default_lease_ttl == ttl_from_stored(self.default_lease_ttl),
            r.max_lease_ttl == ttl_from_stored(self.max_lease_ttl),
    {
        MountConfig {
            default_lease_ttl: read_stored_ttl(self.default_lease_ttl),
            max_lease_ttl: read_stored_ttl(self.max_lease_ttl),
        }
    }
}

impl MountConfig {
    /// The stored default and maximum lease TTLs.
    pub fn stored_ttls(&self) -> (r: (i64, i64))
        ensures
            r.0 == ttl_to_stored(self.default_lease_ttl as u128),
            r.1 == ttl_to_stored(self.max_lease_ttl as u128),
    {
        (stored_ttl(self.default_lease_ttl as u128), stored_ttl(self.max_lease_ttl as u128))
    }
}

/// A TTL that fits the column reads back as it was stored; a larger one
/// reads back as the column's maximum.
pub proof fn law_stored_ttl_round_trip(millis: u64)
    ensures
        millis <= i64::MAX ==> ttl_from_stored(ttl_to_stored(millis as u128)) == millis,
        millis > i64::MAX ==> ttl_from_stored(ttl_to_stored(millis as u128)) == i64::MAX as u64,
{
}

/// Checks a mount the core makes: the system backend can only be mounted
/// internally. The result says whether the mount entry is stored, which it
/// is for every backend but the system backend.
pub fn check_core_mount(variant: BackendType, internal: bool) -> (r: Result<bool, MountError>)
    ensures
        r is Err <==> variant == BackendType::System && !internal,
        r matches Err(e) ==> e == MountError::InvalidMountType,
        r matches Ok(stored) ==> stored == (variant != BackendType::System),
{
    let is_internal_backend = variant == BackendType::System;
    if is_internal_backend && !internal {
        return Err(MountError::InvalidMountType);
    }
    Ok(!is_internal_backend)
}

/// Why a mount cannot be removed.
#[derive(Debug, Clone, PartialEq, Eq)]
pub enum RemovalError {
    /// No mount is at `path`, or its backend is not loaded.
    MountNotFound { path: String },
    /// The system backend cannot be removed.
    InvalidMountType,
    /// The stored mount is not readable.
    BadData { message: String },
    /// Something that cannot happen with consistent data did.
    InternalError { message: String },
}

/// The prefix of the names of the tables that hold the storage of a mount,
/// from the simple forms of its namespace's id and of its own id and the
/// name of its backend type.
pub open spec fn storage_prefix_of(namespace_simple: Seq<char>, variant_name: Seq<char>, mount_simple: Seq<char>) -> Seq<char> {
    "covert_"@ + namespace_simple + "_"@ + variant_name + "_"@ + mount_simple + "_"@
}

/// Builds the storage prefix from the simple forms of the two ids.
fn prefix_from_simple(namespace_simple: &str, variant_name: &str, mount_simple: &str) -> (r: String)
    ensures
        r@ == storage_prefix_of(namespace_simple@, variant_name@, mount_simple@),
{
    let head = concat3("covert_", namespace_simple, "_");
    let middle = concat3(head.as_str(), variant_name, "_");
    let r = concat3(middle.as_str(), mount_simple, "_");
    assert(r@ =~= storage_prefix_of(namespace_simple@, variant_name@, mount_simple@));
    r
}

/// The prefix of the names of the tables of the mount `mount_id` of the
/// backend type named `variant_name` in the namespace `namespace_id`: it
/// starts with `covert_`, as a table name cannot start with a digit. `None`
/// when either id is not a UUID.
pub fn storage_prefix(namespace_id: &str, variant_name: &str, mount_id: &str) -> (r: Option<String>)
    ensures
        match (uuid_simple_text(namespace_id@), uuid_simple_text(mount_id@)) {
            (Some(n), Some(m)) => r matches Some(p) && p@ == storage_prefix_of(n, variant_name@, m),
            _ => r is None,
        },
{
    match (uuid_simple(namespace_id), uuid_simple(mount_id)) {
        (Some(n), Some(m)) => Some(prefix_from_simple(n.as_str(), variant_name, m.as_str())),
        _ => None,
    }
}

/// A mount found at the path being removed, as stored.
#[derive(Debug, Clone)]
pub struct FoundMount {
    /// Its id, as stored.
    pub id: String,
    /// Its backend type.
    pub variant: BackendType,
    /// The name of its backend type, as stored.
    pub variant_name: String,
}

/// Where the removal of a mount stands.
#[derive(Debug, Clone, Copy, PartialEq, Eq, Structural)]
pub enum RemovalStage {
    /// Looking up the mount.
    LookingUp,
    /// Revoking the leases issued under the mount's path.
    RevokingLeases,
    /// Taking the backend out of the router.
    Unrouting,
    /// Deleting the mount entry.
    DeletingEntry,
    /// Listing the tables of the mount's storage.
    ListingTables,
    /// Dropping tables.
    DroppingTables,
    /// Done, or failed.
    Finished,
}

/// What the outside world answered.
pub enum RemovalEvent {
    /// The mount at the path, if there is one.
    MountLookedUp { mount: Option<FoundMount> },
    /// The leases of the mount were revoked.
    LeasesRevoked,
    /// Whether the router held the mount's backend.
    Unrouted { removed: bool },
    /// The mount entry was deleted.
    EntryDeleted,
    /// The tables whose names start with the mount's storage prefix.
    TablesListed { tables: Vec<Table> },
    /// The table was dropped.
    TableDropped,
}

/// What to do next.
pub enum RemovalAction {
    /// Revoke the leases of the mounts under `prefix`.
    RevokeLeases { prefix: String },
    /// Take the mount's backend out of the router.
    Unroute,
    /// Delete the mount entry.
    DeleteEntry,
    /// List the tables whose names match the `LIKE` pattern `pattern`.
    ListTables { pattern: String },
    /// Run `statement`.
    DropTable { statement: String },
    /// The mount is gone.
    Done,
    /// The removal failed.
    Fail { error: RemovalError },
}

/// The removal of the mount at a path: its leases are revoked, its backend
/// unloaded, its entry deleted and the tables of its storage dropped.
pub struct MountRemoval {
    path: String,
    namespace_id: String,
    mount_simple: String,
    variant_name: String,
    stage: RemovalStage,
    tables: Vec<Table>,
}

/// The names of `tables`.
pub open spec fn table_names(tables: Seq<Table>) -> Seq<Seq<char>> {
    tables.map_values(|t: Table| t.name@)
}

impl MountRemoval {
    /// The path of the mount.
    pub closed spec fn path(&self) -> Seq<char> {
        self.path@
    }

    /// The id of the namespace of the mount.
    pub closed spec fn namespace_id(&self) -> Seq<char> {
        self.namespace_id@
    }

    /// The simple form of the found mount's id.
    pub closed spec fn mount_simple(&self) -> Seq<char> {
        self.mount_simple@
    }

    /// The name of the found mount's backend type.
    pub closed spec fn variant_name(&self) -> Seq<char> {
        self.variant_name@
    }

    /// Where the removal stands.
    pub closed spec fn stage(&self) -> RemovalStage {
        self.stage
    }

    /// The names of the tables still to drop after the current one, in order.
    pub closed spec fn remaining(&self) -> Seq<Seq<char>> {
        table_names(self.tables@).reverse()
    }

    closed spec fn inv(&self) -> bool {
        self.stage == RemovalStage::DroppingTables || self.tables@.len() == 0
    }

    /// Whether `event` answers the action last returned.
    pub open spec fn expects(&self, event: RemovalEvent) -> bool {
        match (self.stage(), event) {
            (RemovalStage::LookingUp, RemovalEvent::MountLookedUp { .. }) => true,
            (RemovalStage::RevokingLeases, RemovalEvent::LeasesRevoked) => true,
            (RemovalStage::Unrouting, RemovalEvent::Unrouted { .. }) => true,
            (RemovalStage::DeletingEntry, RemovalEvent::EntryDeleted) => true,
            (RemovalStage::ListingTables, RemovalEvent::TablesListed { .. }) => true,
            (RemovalStage::DroppingTables, RemovalEvent::TableDropped) => true,
            _ => false,
        }
    }

    /// Starts removing the mount at `path` in the namespace `namespace_id`:
    /// it is to be looked up first.
    pub fn new(path: String, namespace_id: String) -> (r: Self)
        ensures
            r.path() == path@,
            r.namespace_id() == namespace_id@,
            r.stage() == RemovalStage::LookingUp,
            r.wf(),
    {
        MountRemoval {
            path,
            namespace_id,
            mount_simple: String::new(),
            variant_name: String::new(),
            stage: RemovalStage::LookingUp,
            tables: Vec::new(),
        }
    }

    /// The removal's bookkeeping is consistent.
    pub closed spec fn wf(&self) -> bool {
        self.inv()
    }

    /// Takes in the answer to the last action and says what to do next. A
    /// missing mount, the system backend, or a backend the router does not
    /// hold end the removal with an error; the listed tables are dropped
    /// one by one, in the order listed.
    #[verifier::rlimit(30)]
    pub fn step(&mut self, event: RemovalEvent) -> (r: RemovalAction)
        requires
            old(self).wf(),
            old(self).expects(event),
        ensures
            final(self).wf(),
            final(self).path() == old(self).path(),
            final(self).namespace_id() == old(self).namespace_id(),
            match (old(self).stage(), event) {
                (RemovalStage::LookingUp, RemovalEvent::MountLookedUp { mount }) => match mount {
                    None => {
                        &&& final(self).stage() == RemovalStage::Finished
                        &&& r matches RemovalAction::Fail { error: RemovalError::MountNotFound { path } }
                            && path@ == old(self).path()
                    },
                    Some(m) => match uuid_simple_text(m.id@) {
                        None => {
                            &&& final(self).stage() == RemovalStage::Finished
                            &&& r matches RemovalAction::Fail { error: RemovalError::BadData { message } }
                                && message@ == "`"@ + m.id@ + "` is not a valid uuid mount id"@
                        },
                        Some(id) => if m.variant == BackendType::System {
                            &&& final(self).stage() == RemovalStage::Finished
                            &&& r matches RemovalAction::Fail { error: RemovalError::InvalidMountType }
                        } else {
                            &&& final(self).stage() == RemovalStage::RevokingLeases
                            &&& final(self).mount_simple() == id
                            &&& final(self).variant_name() == m.variant_name@
                            &&& r matches RemovalAction::RevokeLeases { prefix } && prefix@ == old(
                                self,
                            ).path()
                        },
                    },
                },
                (RemovalStage::RevokingLeases, RemovalEvent::LeasesRevoked) => {
                    &&& final(self).stage() == RemovalStage::Unrouting
                    &&& r is Unroute
                    &&& final(self).mount_simple() == old(self).mount_simple()
                    &&& final(self).variant_name() == old(self).variant_name()
                },
                (RemovalStage::Unrouting, RemovalEvent::Unrouted { removed }) => if removed {
                    &&& final(self).stage() == RemovalStage::DeletingEntry
                    &&& r is DeleteEntry
                    &&& final(self).mount_simple() == old(self).mount_simple()
                    &&& final(self).variant_name() == old(self).variant_name()
                } else {
                    &&& final(self).stage() == RemovalStage::Finished
                    &&& r matches RemovalAction::Fail { error: RemovalError::MountNotFound { path } }
                        && path@ == old(self).path()
                },
                (RemovalStage::DeletingEntry, RemovalEvent::EntryDeleted) => match uuid_simple_text(
                    old(self).namespace_id(),
                ) {
                    None => {
                        &&& final(self).stage() == RemovalStage::Finished
                        &&& r matches RemovalAction::Fail { error: RemovalError::InternalError { message } }
                            && message@ == "Namespace id was not a valid UUID"@
                    },
                    Some(ns) => {
                        &&& final(self).stage() == RemovalStage::ListingTables
                        &&& r matches RemovalAction::ListTables { pattern } && pattern@
                            == storage_prefix_of(ns, old(self).variant_name(), old(self).mount_simple())
                            + "%"@
                    },
                },
                (RemovalStage::ListingTables, RemovalEvent::TablesListed { tables }) => if tables@.len()
                    == 0 {
                    final(self).stage() == RemovalStage::Finished && r is Done
                } else {
                    &&& final(self).stage() == RemovalStage::DroppingTables
                    &&& final(self).remaining() == table_names(tables@).drop_first()
                    &&& r matches RemovalAction::DropTable { statement } && statement@
                        == "DROP TABLE IF EXISTS "@ + tables@[0].name@
                },
                (RemovalStage::DroppingTables, RemovalEvent::TableDropped) => if old(self).remaining().len()
                    == 0 {
                    final(self).stage() == RemovalStage::Finished && r is Done
                } else {
                    &&& final(self).stage() == RemovalStage::DroppingTables
                    &&& final(self).remaining() == old(self).remaining().drop_first()
                    &&& r matches RemovalAction::DropTable { statement } && statement@
                        == "DROP TABLE IF EXISTS "@ + old(self).remaining()[0]
                },
                _ => false,
            },
    {
        let stage = self.stage;
        self.stage = RemovalStage::Finished;
        match (stage, event) {
            (RemovalStage::LookingUp, RemovalEvent::MountLookedUp { mount }) => match mount {
                None => RemovalAction::Fail {
                    error: RemovalError::MountNotFound { path: self.path.clone() },
                },
                Some(m) => match uuid_simple(m.id.as_str()) {
                    None => RemovalAction::Fail {
                        error: RemovalError::BadData {
                            message: concat3("`", m.id.as_str(), "` is not a valid uuid mount id"),
                        },
                    },
                    Some(id) => {
                        if m.variant == BackendType::System {
                            RemovalAction::Fail { error: RemovalError::InvalidMountType }
                        } else {
                            self.mount_simple = id;
                            self.variant_name = m.variant_name;
                            self.stage = RemovalStage::RevokingLeases;
                            RemovalAction::RevokeLeases { prefix: self.path.clone() }
                        }
                    },
                },
            },
            (RemovalStage::RevokingLeases, RemovalEvent::LeasesRevoked) => {
                self.stage = RemovalStage::Unrouting;
                RemovalAction::Unroute
            },
            (RemovalStage::Unrouting, RemovalEvent::Unrouted { removed }) => {
                if removed {
                    self.stage = RemovalStage::DeletingEntry;
                    RemovalAction::DeleteEntry
                } else {
                    RemovalAction::Fail {
                        error: RemovalError::MountNotFound { path: self.path.clone() },
                    }
                }
            },
            (RemovalStage::DeletingEntry, RemovalEvent::EntryDeleted) => match uuid_simple(
                self.namespace_id.as_str(),
            ) {
                None => RemovalAction::Fail {
                    error: RemovalError::InternalError {
                        message: "Namespace id was not a valid UUID".to_owned(),
                    },
                },
                Some(ns) => {
                    let prefix = prefix_from_simple(
                        ns.as_str(),
                        self.variant_name.as_str(),
                        self.mount_simple.as_str(),
                    );
                    self.stage = RemovalStage::ListingTables;
                    RemovalAction::ListTables { pattern: prefix_pattern(prefix.as_str()) }
                },
            },
            (RemovalStage::ListingTables, RemovalEvent::TablesListed { tables }) => {
                // Keep the tables back to front, so that the next one is popped.
                let mut rest = tables;
                let ghost listed = table_names(rest@);
                let mut backwards: Vec<Table> = Vec::new();
                while rest.len() > 0
                    invariant
                        table_names(rest@) + table_names(backwards@).reverse() == listed,
                    decreases rest@.len(),
                {
                    let ghost before_rest = rest@;
                    let ghost before_back = backwards@;
                    let t = rest.pop().unwrap();
                    backwards.push(t);
                    proof {
                        assert(table_names(before_rest) =~= table_names(rest@).push(t.name@));
                        assert(table_names(backwards@) =~= table_names(before_back).push(t.name@));
                        assert(table_names(backwards@).reverse() =~= seq![t.name@] + table_names(
                            before_back,
                        ).reverse());
                        assert(table_names(rest@) + table_names(backwards@).reverse() =~= table_names(
                            before_rest,
                        ) + table_names(before_back).reverse());
                    }
                }
                assert(table_names(backwards@).reverse() =~= listed);
                self.next_drop(backwards)
            },
            (RemovalStage::DroppingTables, RemovalEvent::TableDropped) => {
                let mut remaining = Vec::new();
                std::mem::swap(&mut remaining, &mut self.tables);
                self.next_drop(remaining)
            },
            _ => {
                proof {
                    assert(false);
                }
                RemovalAction::Done
            },
        }
    }

    /// Drops the last of `backwards` (the tables in reverse order) next, or
    /// finishes when none is left.
    fn next_drop(&mut self, backwards: Vec<Table>) -> (r: RemovalAction)
        requires
            old(self).tables@.len() == 0,
        ensures
            final(self).path() == old(self).path(),
            final(self).namespace_id() == old(self).namespace_id(),
            final(self).wf(),
            backwards@.len() == 0 ==> final(self).stage() == RemovalStage::Finished && r is Done,
            backwards@.len() > 0 ==> {
                &&& final(self).stage() == RemovalStage::DroppingTables
                &&& final(self).remaining() == table_names(backwards@).reverse().drop_first()
                &&& r matches RemovalAction::DropTable { statement } && statement@
                    == "DROP TABLE IF EXISTS "@ + table_names(backwards@).reverse()[0]
            },
    {
        let mut tables = backwards;
        match tables.pop() {
            None => {
                self.stage = RemovalStage::Finished;
                RemovalAction::Done
            },
            Some(t) => {
                let statement = drop_table_statement(t.name.as_str());
                let ghost before = tables@.push(t);
                proof {
                    assert(table_names(before).reverse().drop_first() =~= table_names(tables@).reverse());
                    assert(table_names(before).reverse()[0] == t.name@);
                }
                self.tables = tables;
                self.stage = RemovalStage::DroppingTables;
                RemovalAction::DropTable { statement }
            },
        }
    }
}

/// The items of `mounts` whose backend is of `category`, in order.
pub open spec fn of_category<T>(mounts: Seq<(BackendType, T)>, category: BackendCategory) -> Seq<T>
    decreases mounts.len(),
{
    if mounts.len() == 0 {
        Seq::empty()
    } else {
        let earlier = of_category(mounts.drop_last(), category);
        let last = mounts.last();
        if (if last.0 == BackendType::Userpass {
            BackendCategory::Credential
        } else {
            BackendCategory::Logical
        }) == category {
            earlier.push(last.1)
        } else {
            earlier
        }
    }
}

/// Splitting by category keeps every mount exactly once: the two parts
/// together are as long as the list, and an item is in the part of a
/// category if and only if it is listed with a backend of that category.
pub proof fn law_split_keeps_each_mount_once<T>(m: Seq<(BackendType, T)>, c: BackendCategory, x: T)
    ensures
        of_category(m, BackendCategory::Credential).len() + of_category(m, BackendCategory::Logical).len()
            == m.len(),
        of_category(m, c).contains(x) <==> exists|i: int|
            0 <= i < m.len() && m[i].1 == x && category_of(m[i].0) == c,
    decreases m.len(),
{
    if m.len() > 0 {
        let d = m.drop_last();
        law_split_keeps_each_mount_once(d, c, x);
        let e = of_category(d, c);
        let last = m.last();
        if exists|i: int| 0 <= i < m.len() && m[i].1 == x && category_of(m[i].0) == c {
            let i = choose|i: int| 0 <= i < m.len() && m[i].1 == x && category_of(m[i].0) == c;
            if i < m.len() - 1 {
                assert(d[i] == m[i]);
                let j = choose|j: int| 0 <= j < e.len() && e[j] == x;
                if category_of(last.0) == c {
                    assert(of_category(m, c)[j] == x);
                }
            } else {
                assert(of_category(m, c)[e.len() as int] == x);
            }
        }
        if of_category(m, c).contains(x) {
            let j = choose|j: int| 0 <= j < of_category(m, c).len() && of_category(m, c)[j] == x;
            if category_of(last.0) == c && j == e.len() {
                assert(m[m.len() - 1].1 == x);
            } else {
                assert(e[j] == x);
                let i = choose|i: int| 0 <= i < d.len() && d[i].1 == x && category_of(d[i].0) == c;
                assert(m[i] == d[i]);
            }
        }
    }
}

/// Splits the listed mounts into authentication mounts and secret mounts,
/// each in the order listed.
pub fn split_by_category<T>(mounts: Vec<(BackendType, T)>) -> (r: (Vec<T>, Vec<T>))
    ensures
        r.0@ == of_category(mounts@, BackendCategory::Credential),
        r.1@ == of_category(mounts@, BackendCategory::Logical),
{
    let ghost all = mounts@;
    let mut rest = mounts;
    let mut auth: Vec<T> = Vec::new();
    let mut secret: Vec<T> = Vec::new();
    assert(all.take(0) =~= Seq::<(BackendType, T)>::empty());
    while rest.len() > 0
        invariant
            rest@.len() <= all.len(),
            rest@ == all.skip(all.len() - rest@.len()),
            auth@ == of_category(all.take(all.len() - rest@.len()), BackendCategory::Credential),
            secret@ == of_category(all.take(all.len() - rest@.len()), BackendCategory::Logical),
        decreases rest@.len(),
    {
        let ghost m = all.len() - rest@.len();
        let ghost before = rest@;
        let (variant, item) = rest.remove(0);
        proof {
            assert(before[0] == all[m]);
            assert(rest@ =~= all.skip(m + 1));
            assert(all.take(m + 1).drop_last() =~= all.take(m));
            assert(all.take(m + 1).last() == all[m]);
        }
        match variant.category() {
            BackendCategory::Credential => auth.push(item),
            BackendCategory::Logical => secret.push(item),
        }
    }
    assert(all.take(all.len() as int) =~= all);
    (auth, secret)
}

} // verus!
