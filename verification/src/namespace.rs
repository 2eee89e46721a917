use vstd::prelude::*;

use crate::error::ErrorType;
use crate::server::StorageState;
use crate::ids::{is_uuid_v4_text, new_uuid_text};
use crate::text::{
    concat2, concat3, decimal, decimal_text, join, joined_by, starts_with, str_starts_with_char,
    string_views,
};

verus! {

/// A namespace; only the root namespace has no parent.
#[derive(Debug, Clone)]
pub struct Namespace {
    pub id: String,
    pub name: String,
    pub parent_namespace_id: Option<String>,
}

/// Full path of a namespace from the chain of its ancestors, listed from the
/// namespace itself up to the root: the names from the root down, joined by
/// `/`.
pub fn full_path(parents: &Vec<Namespace>) -> (r: String)
    ensures
        r@ == joined_by(parents@.reverse().map_values(|n: Namespace| n.name@), "/"@),
{
    let mut names: Vec<String> = Vec::new();
    let mut i: usize = parents.len();
    while i > 0
        invariant
            i <= parents@.len(),
            names@.len() == parents@.len() - i,
            forall|j: int| 0 <= j < names@.len() ==> (#[trigger] names@[j])@ == parents@[parents@.len() - 1 - j].name@,
        decreases i,
    {
        i = i - 1;
        names.push(parents[i].name.clone());
    }
    let r = join(&names, "/");
    proof {
        assert(string_views(names@) =~= parents@.reverse().map_values(|n: Namespace| n.name@));
    }
    r
}

/// The path a request addresses across namespaces: the namespace names
/// joined by `/`, then `/`, then the path inside the namespace.
pub fn request_path(namespace: &Vec<String>, path: &str) -> (r: String)
    ensures
        r@ == joined_by(string_views(namespace@), "/"@) + "/"@ + path@,
{
    let prefix = join(namespace, "/");
    concat3(prefix.as_str(), "/", path)
}

/// A policy path of a namespace, anchored at the namespace's full path.
pub fn scoped_policy_path(namespace_path: &str, policy_path: &str) -> (r: String)
    ensures
        starts_with(policy_path@, seq!['/']) ==> r@ == namespace_path@ + policy_path@,
        !starts_with(policy_path@, seq!['/']) ==> r@ == namespace_path@ + "/"@ + policy_path@,
{
    if str_starts_with_char(policy_path, '/') {
        concat2(namespace_path, policy_path)
    } else {
        concat3(namespace_path, "/", policy_path)
    }
}

/// The table that holds the namespaces.
pub const NAMESPACE_TABLE: &'static str = "NAMESPACES";

/// The joins of `find_by_path_query`: level `k` is the child of level
/// `k - 1`, for the levels `1..=k`.
pub open spec fn level_joins(k: nat) -> Seq<char>
    decreases k,
{
    if k == 0 {
        Seq::empty()
    } else {
        level_joins((k - 1) as nat) + " INNER JOIN NAMESPACES AS NS"@ + decimal(k) + " ON NS"@
            + decimal(k) + ".parent_namespace_id = NS"@ + decimal((k - 1) as nat) + ".id"@
    }
}

/// The name filters of `find_by_path_query` for the levels `1..=k`: the name
/// of level `k` is bound to parameter `k + 1`.
pub open spec fn level_names(k: nat) -> Seq<char>
    decreases k,
{
    if k == 0 {
        Seq::empty()
    } else {
        level_names((k - 1) as nat) + " NS"@ + decimal(k) + ".name = $"@ + decimal(k + 1) + " AND"@
    }
}

/// The query that finds the namespace at the end of a path of `depth` names:
/// a chain of parent links from a namespace without parent, the names of
/// the levels below it bound to the parameters from `$2` on.
pub open spec fn find_by_path_sql(depth: nat) -> Seq<char> {
    "SELECT NS"@ + decimal((depth - 1) as nat) + ".* FROM NAMESPACES AS NS0"@ + level_joins(
        (depth - 1) as nat,
    ) + " WHERE"@ + level_names((depth - 1) as nat) + " NS0.parent_namespace_id IS NULL"@
}

/// The query that looks up a namespace by a path of `depth` names; the
/// names are bound in order, as `$1` to `$depth`.
#[verifier::rlimit(30)]
pub fn find_by_path_query(depth: usize) -> (r: String)
    requires
        depth >= 1,
    ensures
        r@ == find_by_path_sql(depth as nat),
{
    let last = decimal_text(depth - 1);
    let mut q = concat3("SELECT NS", last.as_str(), ".* FROM NAMESPACES AS NS0");
    let mut idx: usize = 1;
    while idx < depth
        invariant
            1 <= idx <= depth,
            q@ == "SELECT NS"@ + decimal((depth - 1) as nat) + ".* FROM NAMESPACES AS NS0"@
                + level_joins((idx - 1) as nat),
        decreases depth - idx,
    {
        let k = decimal_text(idx);
        let parent = decimal_text(idx - 1);
        let head = concat3(q.as_str(), " INNER JOIN NAMESPACES AS NS", k.as_str());
        let mid = concat3(head.as_str(), " ON NS", k.as_str());
        let tail = concat3(mid.as_str(), ".parent_namespace_id = NS", parent.as_str());
        q = concat2(tail.as_str(), ".id");
        proof {
            assert(q@ =~= "SELECT NS"@ + decimal((depth - 1) as nat) + ".* FROM NAMESPACES AS NS0"@
                + level_joins(idx as nat));
        }
        idx = idx + 1;
    }
    let mut w = concat2(q.as_str(), " WHERE");
    let ghost base = w@;
    proof {
        assert(w@ =~= base + level_names(0));
    }
    let mut idx: usize = 1;
    while idx < depth
        invariant
            1 <= idx <= depth,
            w@ == base + level_names((idx - 1) as nat),
        decreases depth - idx,
    {
        let k = decimal_text(idx);
        let next = decimal_text(idx + 1);
        let head = concat3(w.as_str(), " NS", k.as_str());
        let mid = concat3(head.as_str(), ".name = $", next.as_str());
        w = concat2(mid.as_str(), " AND");
        proof {
            assert(w@ =~= base + level_names(idx as nat));
        }
        idx = idx + 1;
    }
    let r = concat2(w.as_str(), " NS0.parent_namespace_id IS NULL");
    proof {
        assert(r@ =~= find_by_path_sql(depth as nat));
    }
    r
}

/// The ancestors of a namespace, gathered one lookup at a time: the
/// namespace itself first, then its parent, up to the root.
pub struct AncestorWalk {
    found: Vec<Namespace>,
    next: Option<String>,
}

impl AncestorWalk {
    /// The namespaces found so far.
    pub closed spec fn found(&self) -> Seq<Namespace> {
        self.found@
    }

    /// The id to look up next, if the walk goes on.
    pub closed spec fn next(&self) -> Option<Seq<char>> {
        match self.next {
            Some(id) => Some(id@),
            None => None,
        }
    }

    /// A walk that starts by looking up `id`.
    pub fn new(id: String) -> (r: Self)
        ensures
            r.found() == Seq::<Namespace>::empty(),
            r.next() == Some(id@),
    {
        AncestorWalk { found: Vec::new(), next: Some(id) }
    }

    /// The id to look up next, if the walk goes on.
    pub fn next_id(&self) -> (r: Option<&str>)
        ensures
            match r {
                Some(id) => self.next() == Some(id@),
                None => self.next() is None,
            },
    {
        match &self.next {
            Some(id) => Some(id.as_str()),
            None => None,
        }
    }

    /// Takes in the namespace the last lookup found: it is added and the
    /// walk goes on with its parent; when none was found the walk ends.
    pub fn record(&mut self, looked_up: Option<Namespace>)
        ensures
            match looked_up {
                Some(ns) => final(self).found() == old(self).found().push(ns) && final(self).next()
                    == match ns.parent_namespace_id {
                    Some(p) => Some(p@),
                    None => None::<Seq<char>>,
                },
                None => final(self).found() == old(self).found() && final(self).next() is None,
            },
    {
        match looked_up {
            Some(ns) => {
                self.next = ns.parent_namespace_id.clone();
                self.found.push(ns);
            },
            None => {
                self.next = None;
            },
        }
    }

    /// The namespaces found, from the namespace itself up to the root.
    pub fn into_found(self) -> (r: Vec<Namespace>)
        ensures
            r@ == self.found(),
    {
        self.found
    }
}

/// The root namespace, with a fresh random id.
pub fn new_root_namespace() -> (r: Namespace)
    ensures
        is_uuid_v4_text(r.id@),
        r.name@ == "root"@,
        r.parent_namespace_id is None,
{
    Namespace { id: new_uuid_text(), name: "root".to_owned(), parent_namespace_id: None }
}

/// A new namespace `name` below the namespace `parent_id`, with a fresh
/// random id.
pub fn new_child_namespace(name: String, parent_id: String) -> (r: Namespace)
    ensures
        is_uuid_v4_text(r.id@),
        r.name == name,
        r.parent_namespace_id == Some(parent_id),
{
    Namespace { id: new_uuid_text(), name, parent_namespace_id: Some(parent_id) }
}

/// Position of the first of `namespaces` named `name`.
pub fn find_named(namespaces: &Vec<Namespace>, name: &str) -> (r: Option<usize>)
    ensures
        match r {
            Some(i) => i < namespaces@.len() && namespaces@[i as int].name@ == name@ && forall|j: int|
                0 <= j < i ==> (#[trigger] namespaces@[j]).name@ != name@,
            None => forall|j: int|
                0 <= j < namespaces@.len() ==> (#[trigger] namespaces@[j]).name@ != name@,
        },
{
    let mut i: usize = 0;
    while i < namespaces.len()
        invariant
            i <= namespaces@.len(),
            forall|j: int| 0 <= j < i ==> (#[trigger] namespaces@[j]).name@ != name@,
        decreases namespaces@.len() - i,
    {
        if crate::text::str_equal(namespaces[i].name.as_str(), name) {
            return Some(i);
        }
        i = i + 1;
    }
    None
}

/// Only the root namespace (the one without a parent) may seal the storage.
pub fn check_seal_allowed(ns: &Namespace) -> (r: Result<(), ErrorType>)
    ensures
        r is Ok <==> ns.parent_namespace_id is None,
        r matches Err(e) ==> e == ErrorType::SealInNonRootNamespace,
{
    if ns.parent_namespace_id.is_some() {
        Err(ErrorType::SealInNonRootNamespace)
    } else {
        Ok(())
    }
}

/// A request refused before it reaches its handler: the HTTP status and
/// the error message.
#[derive(Debug, Clone, PartialEq, Eq)]
pub struct RequestRefusal {
    pub status_code: u16,
    pub message: String,
}

/// Whether a request reaching the server while the storage is in `state`
/// (if it is known) has its namespace looked up: only while the storage is
/// unsealed, as the namespaces live in the encrypted storage.
pub fn looks_up_namespace(state: Option<StorageState>) -> (r: bool)
    ensures
        r == (state == Some(StorageState::Unsealed)),
{
    match state {
        Some(StorageState::Unsealed) => true,
        _ => false,
    }
}

/// What a request whose namespace path was looked up carries on: the
/// namespace found at that path, or, when there is none, a refusal with
/// status 400 and the message `Invalid namespace`.
pub fn attach_namespace(found: Option<Namespace>) -> (r: Result<Namespace, RequestRefusal>)
    ensures
        match found {
            Some(ns) => r == Ok::<Namespace, RequestRefusal>(ns),
            None => r matches Err(e) && e.status_code == 400 && e.message@ == "Invalid namespace"@,
        },
{
    match found {
        Some(ns) => Ok(ns),
        None => Err(RequestRefusal { status_code: 400, message: "Invalid namespace".to_owned() }),
    }
}

} // verus!
