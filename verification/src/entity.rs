use vstd::prelude::*;

use crate::text::{
    concat3, join, joined_by, lemma_lex_total, lemma_lex_trans, lex_less, lex_lt, str_chars,
    string_views,
};

verus! {

/// One row of the join of entities with their policies and aliases; a
/// missing policy or alias reads as an empty name.
#[derive(Debug, Clone, PartialEq, Eq)]
pub struct EntityWithPolicyAndAliasRaw {
    pub name: String,
    pub policy_name: String,
    pub alias_name: String,
    pub alias_mount_path: String,
}

/// The name an entity is known by on an authentication mount.
#[derive(Debug, Clone, PartialEq, Eq)]
pub struct EntityAlias {
    pub name: String,
    pub mount_path: String,
}

/// An entity with the policies attached to it and its aliases.
#[derive(Debug, Clone, PartialEq, Eq)]
pub struct EntityWithPolicyAndAlias {
    pub name: String,
    pub policies: Vec<String>,
    pub aliases: Vec<EntityAlias>,
}

/// The non-empty policy names of the rows of entity `name`, in row order.
pub open spec fn policies_of(rows: Seq<EntityWithPolicyAndAliasRaw>, name: Seq<char>) -> Seq<
    Seq<char>,
>
    decreases rows.len(),
{
    if rows.len() == 0 {
        Seq::empty()
    } else {
        let earlier = policies_of(rows.drop_last(), name);
        let row = rows.last();
        if row.name@ == name && row.policy_name@.len() > 0 {
            earlier.push(row.policy_name@)
        } else {
            earlier
        }
    }
}

/// The aliases (name and mount path) with a non-empty name of the rows of
/// entity `name`, in row order.
pub open spec fn aliases_of(rows: Seq<EntityWithPolicyAndAliasRaw>, name: Seq<char>) -> Seq<
    (Seq<char>, Seq<char>),
>
    decreases rows.len(),
{
    if rows.len() == 0 {
        Seq::empty()
    } else {
        let earlier = aliases_of(rows.drop_last(), name);
        let row = rows.last();
        if row.name@ == name && row.alias_name@.len() > 0 {
            earlier.push((row.alias_name@, row.alias_mount_path@))
        } else {
            earlier
        }
    }
}

/// The name and mount path of each alias of `v`.
pub open spec fn alias_views(v: Seq<EntityAlias>) -> Seq<(Seq<char>, Seq<char>)> {
    v.map_values(|a: EntityAlias| (a.name@, a.mount_path@))
}

/// Some row belongs to entity `name`.
pub open spec fn has_row(rows: Seq<EntityWithPolicyAndAliasRaw>, name: Seq<char>) -> bool {
    exists|k: int| 0 <= k < rows.len() && (#[trigger] rows[k]).name@ == name
}

/// `out` holds one entry per entity of `rows`, ordered by name, each with the
/// policies and aliases of its rows.
pub open spec fn grouped_by_name(
    rows: Seq<EntityWithPolicyAndAliasRaw>,
    out: Seq<EntityWithPolicyAndAlias>,
) -> bool {
    &&& forall|a: int, b: int|
        0 <= a < b < out.len() ==> lex_lt((#[trigger] out[a]).name@, (#[trigger] out[b]).name@)
    &&& forall|i: int| 0 <= i < out.len() ==> has_row(rows, (#[trigger] out[i]).name@)
    &&& forall|k: int|
        0 <= k < rows.len() ==> exists|i: int|
            0 <= i < out.len() && (#[trigger] out[i]).name@ == (#[trigger] rows[k]).name@
    &&& forall|i: int|
        0 <= i < out.len() ==> string_views((#[trigger] out[i]).policies@) == policies_of(
            rows,
            out[i].name@,
        ) && alias_views(out[i].aliases@) == aliases_of(rows, out[i].name@)
}

/// Position of the first entry whose name is not before `name`.
fn lower_bound(groups: &Vec<EntityWithPolicyAndAlias>, name: &str) -> (r: usize)
    requires
        forall|a: int, b: int|
            0 <= a < b < groups@.len() ==> lex_lt(
                (#[trigger] groups@[a]).name@,
                (#[trigger] groups@[b]).name@,
            ),
    ensures
        r <= groups@.len(),
        forall|a: int| 0 <= a < r ==> lex_lt((#[trigger] groups@[a]).name@, name@),
        r < groups@.len() ==> !lex_lt(groups@[r as int].name@, name@),
{
    let target = str_chars(name);
    let mut i: usize = 0;
    while i < groups.len()
        invariant
            i <= groups@.len(),
            target@ == name@,
            forall|a: int| 0 <= a < i ==> lex_lt((#[trigger] groups@[a]).name@, name@),
        decreases groups@.len() - i,
    {
        let current = str_chars(groups[i].name.as_str());
        if !lex_less(&current, &target) {
            return i;
        }
        i = i + 1;
    }
    i
}

proof fn lemma_take_last<A>(s: Seq<A>, i: int)
    requires
        0 <= i < s.len(),
    ensures
        s.take(i + 1).drop_last() == s.take(i),
        s.take(i + 1).last() == s[i],
{
    assert(s.take(i + 1).drop_last() =~= s.take(i));
}

/// Groups the rows by entity: one entry per entity name, ordered by name,
/// with the non-empty policy names and the aliases with a non-empty name of
/// its rows, in row order.
#[verifier::rlimit(30)]
pub fn group_entities(rows: &Vec<EntityWithPolicyAndAliasRaw>) -> (r: Vec<EntityWithPolicyAndAlias>)
    ensures
        grouped_by_name(rows@, r@),
{
    let mut groups: Vec<EntityWithPolicyAndAlias> = Vec::new();
    let mut i: usize = 0;
    assert(rows@.take(0) =~= Seq::<EntityWithPolicyAndAliasRaw>::empty());
    while i < rows.len()
        invariant
            i <= rows@.len(),
            grouped_by_name(rows@.take(i as int), groups@),
        decreases rows@.len() - i,
    {
        let row = &rows[i];
        let ghost before = rows@.take(i as int);
        let ghost after = rows@.take(i + 1);
        let ghost old_groups = groups@;
        proof {
            lemma_take_last(rows@, i as int);
        }
        let j = lower_bound(&groups, row.name.as_str());
        if j < groups.len() && groups[j].name == row.name {
            let mut g = groups.remove(j);
            if !row.policy_name.as_str().is_empty() {
                g.policies.push(row.policy_name.clone());
            }
            if !row.alias_name.as_str().is_empty() {
                g.aliases.push(
                    EntityAlias {
                        name: row.alias_name.clone(),
                        mount_path: row.alias_mount_path.clone(),
                    },
                );
            }
            groups.insert(j, g);
            proof {
                assert(groups@ == old_groups.update(j as int, g));
                assert(string_views(g.policies@) =~= policies_of(after, g.name@));
                assert(alias_views(g.aliases@) =~= aliases_of(after, g.name@));
                lemma_regroup_keeps(before, after, old_groups, groups@, j as int);
            }
        } else {
            let mut policies: Vec<String> = Vec::new();
            if !row.policy_name.as_str().is_empty() {
                policies.push(row.policy_name.clone());
            }
            let mut aliases: Vec<EntityAlias> = Vec::new();
            if !row.alias_name.as_str().is_empty() {
                aliases.push(
                    EntityAlias {
                        name: row.alias_name.clone(),
                        mount_path: row.alias_mount_path.clone(),
                    },
                );
            }
            let g = EntityWithPolicyAndAlias { name: row.name.clone(), policies, aliases };
            proof {
                if j < old_groups.len() {
                    lemma_lex_total(g.name@, old_groups[j as int].name@);
                }
                assert forall|a: int| 0 <= a < old_groups.len() implies (#[trigger] old_groups[a]).name@
                    != g.name@ by {
                    if a < j {
                        crate::text::lemma_lex_irrefl(g.name@);
                    } else if a > j {
                        assert(lex_lt(old_groups[j as int].name@, old_groups[a].name@));
                        lemma_lex_trans(g.name@, old_groups[j as int].name@, old_groups[a].name@);
                        crate::text::lemma_lex_irrefl(g.name@);
                    }
                }
                lemma_absent_name(before, old_groups, g.name@);
                assert(policies_of(before, g.name@) =~= Seq::<Seq<char>>::empty());
                assert(aliases_of(before, g.name@) =~= Seq::<(Seq<char>, Seq<char>)>::empty());
                assert(string_views(g.policies@) =~= policies_of(after, g.name@));
                assert(alias_views(g.aliases@) =~= aliases_of(after, g.name@));
            }
            groups.insert(j, g);
            proof {
                lemma_new_group_keeps(before, after, old_groups, groups@, j as int);
            }
        }
        i = i + 1;
    }
    assert(rows@.take(rows@.len() as int) =~= rows@);
    groups
}

/// An entity with no rows has no policies and no aliases.
proof fn lemma_no_rows_nothing(rows: Seq<EntityWithPolicyAndAliasRaw>, name: Seq<char>)
    requires
        !has_row(rows, name),
    ensures
        policies_of(rows, name) == Seq::<Seq<char>>::empty(),
        aliases_of(rows, name) == Seq::<(Seq<char>, Seq<char>)>::empty(),
    decreases rows.len(),
{
    if rows.len() > 0 {
        let shorter = rows.drop_last();
        assert forall|k: int| 0 <= k < shorter.len() implies (#[trigger] shorter[k]).name@ != name by {
            assert(rows[k] == shorter[k]);
        }
        assert(rows[rows.len() - 1].name@ != name);
        lemma_no_rows_nothing(shorter, name);
    }
}

/// A name that no entry carries has no rows yet.
proof fn lemma_absent_name(
    before: Seq<EntityWithPolicyAndAliasRaw>,
    groups: Seq<EntityWithPolicyAndAlias>,
    name: Seq<char>,
)
    requires
        grouped_by_name(before, groups),
        forall|i: int| 0 <= i < groups.len() ==> (#[trigger] groups[i]).name@ != name,
    ensures
        !has_row(before, name),
        policies_of(before, name) == Seq::<Seq<char>>::empty(),
        aliases_of(before, name) == Seq::<(Seq<char>, Seq<char>)>::empty(),
{
    if has_row(before, name) {
        let k = choose|k: int| 0 <= k < before.len() && (#[trigger] before[k]).name@ == name;
        let i = choose|i: int| 0 <= i < groups.len() && (#[trigger] groups[i]).name@ == (
        #[trigger] before[k]).name@;
        assert(groups[i].name@ == name);
    }
    lemma_no_rows_nothing(before, name);
}

/// Adding the row that follows `before` to its entity's existing entry `j`
/// keeps the grouping.
#[verifier::rlimit(30)]
proof fn lemma_regroup_keeps(
    before: Seq<EntityWithPolicyAndAliasRaw>,
    after: Seq<EntityWithPolicyAndAliasRaw>,
    old_groups: Seq<EntityWithPolicyAndAlias>,
    groups: Seq<EntityWithPolicyAndAlias>,
    j: int,
)
    requires
        after.len() == before.len() + 1,
        after.drop_last() == before,
        grouped_by_name(before, old_groups),
        0 <= j < old_groups.len(),
        groups.len() == old_groups.len(),
        groups[j].name@ == old_groups[j].name@,
        groups[j].name@ == after.last().name@,
        string_views(groups[j].policies@) == policies_of(after, groups[j].name@),
        alias_views(groups[j].aliases@) == aliases_of(after, groups[j].name@),
        forall|i: int| 0 <= i < groups.len() && i != j ==> groups[i] == old_groups[i],
    ensures
        grouped_by_name(after, groups),
{
    assert forall|a: int, b: int| 0 <= a < b < groups.len() implies lex_lt(
        (#[trigger] groups[a]).name@,
        (#[trigger] groups[b]).name@,
    ) by {
        assert(lex_lt(old_groups[a].name@, old_groups[b].name@));
    }
    assert forall|i: int| 0 <= i < groups.len() implies has_row(after, (#[trigger] groups[i]).name@) by {
        if i == j {
            assert(after[after.len() - 1].name@ == groups[i].name@);
        } else {
            assert(has_row(before, old_groups[i].name@));
            let k = choose|k: int| 0 <= k < before.len() && (#[trigger] before[k]).name@ == old_groups[i].name@;
            assert(after[k] == before[k]);
        }
    }
    assert forall|k: int| 0 <= k < after.len() implies exists|i: int|
        0 <= i < groups.len() && (#[trigger] groups[i]).name@ == (#[trigger] after[k]).name@ by {
        if k == after.len() - 1 {
            assert(groups[j].name@ == after[k].name@);
        } else {
            assert(after[k] == before[k]);
            let i = choose|i: int| 0 <= i < old_groups.len() && (#[trigger] old_groups[i]).name@ == (
            #[trigger] before[k]).name@;
            if i == j {
                assert(groups[j].name@ == after[k].name@);
            } else {
                assert(groups[i].name@ == after[k].name@);
            }
        }
    }
    assert forall|i: int| 0 <= i < groups.len() implies string_views((#[trigger] groups[i]).policies@)
        == policies_of(after, groups[i].name@) && alias_views(groups[i].aliases@) == aliases_of(
        after,
        groups[i].name@,
    ) by {
        if i != j {
            assert(groups[i] == old_groups[i]);
            lemma_lex_distinct(old_groups, i, j);
            assert(policies_of(after, groups[i].name@) == policies_of(before, groups[i].name@));
            assert(aliases_of(after, groups[i].name@) == aliases_of(before, groups[i].name@));
        }
    }
}

/// Strictly ordered names are distinct.
proof fn lemma_lex_distinct(groups: Seq<EntityWithPolicyAndAlias>, a: int, b: int)
    requires
        forall|x: int, y: int|
            0 <= x < y < groups.len() ==> lex_lt(
                (#[trigger] groups[x]).name@,
                (#[trigger] groups[y]).name@,
            ),
        0 <= a < groups.len(),
        0 <= b < groups.len(),
        a != b,
    ensures
        groups[a].name@ != groups[b].name@,
{
    if a < b {
        assert(lex_lt(groups[a].name@, groups[b].name@));
        crate::text::lemma_lex_irrefl(groups[a].name@);
    } else {
        assert(lex_lt(groups[b].name@, groups[a].name@));
        crate::text::lemma_lex_irrefl(groups[b].name@);
    }
}

/// Inserting the entry of a new entity at its place in name order keeps the
/// grouping.
#[verifier::rlimit(30)]
proof fn lemma_new_group_keeps(
    before: Seq<EntityWithPolicyAndAliasRaw>,
    after: Seq<EntityWithPolicyAndAliasRaw>,
    old_groups: Seq<EntityWithPolicyAndAlias>,
    groups: Seq<EntityWithPolicyAndAlias>,
    j: int,
)
    requires
        after.len() == before.len() + 1,
        after.drop_last() == before,
        grouped_by_name(before, old_groups),
        0 <= j <= old_groups.len(),
        groups == old_groups.insert(j, groups[j]),
        groups[j].name@ == after.last().name@,
        forall|a: int| 0 <= a < j ==> lex_lt((#[trigger] old_groups[a]).name@, groups[j].name@),
        j < old_groups.len() ==> lex_lt(groups[j].name@, old_groups[j].name@),
        string_views(groups[j].policies@) == policies_of(after, groups[j].name@),
        alias_views(groups[j].aliases@) == aliases_of(after, groups[j].name@),
    ensures
        grouped_by_name(after, groups),
{
    let g = groups[j];
    assert forall|a: int| j <= a < old_groups.len() implies lex_lt(
        g.name@,
        (#[trigger] old_groups[a]).name@,
    ) by {
        if a > j {
            assert(lex_lt(old_groups[j].name@, old_groups[a].name@));
            lemma_lex_trans(g.name@, old_groups[j].name@, old_groups[a].name@);
        }
    }
    assert forall|a: int, b: int| 0 <= a < b < groups.len() implies lex_lt(
        (#[trigger] groups[a]).name@,
        (#[trigger] groups[b]).name@,
    ) by {
        if b < j {
            assert(lex_lt(old_groups[a].name@, old_groups[b].name@));
        } else if b == j {
        } else if a < j {
            assert(groups[b] == old_groups[b - 1]);
            lemma_lex_trans(old_groups[a].name@, g.name@, old_groups[b - 1].name@);
        } else if a == j {
            assert(groups[b] == old_groups[b - 1]);
        } else {
            assert(groups[a] == old_groups[a - 1]);
            assert(groups[b] == old_groups[b - 1]);
            assert(lex_lt(old_groups[a - 1].name@, old_groups[b - 1].name@));
        }
    }
    assert forall|i: int| 0 <= i < groups.len() implies has_row(after, (#[trigger] groups[i]).name@) by {
        if i == j {
            assert(after[after.len() - 1].name@ == groups[i].name@);
        } else {
            let oi = if i < j {
                i
            } else {
                i - 1
            };
            assert(groups[i] == old_groups[oi]);
            assert(has_row(before, old_groups[oi].name@));
            let k = choose|k: int| 0 <= k < before.len() && (#[trigger] before[k]).name@ == old_groups[oi].name@;
            assert(after[k] == before[k]);
        }
    }
    assert forall|k: int| 0 <= k < after.len() implies exists|i: int|
        0 <= i < groups.len() && (#[trigger] groups[i]).name@ == (#[trigger] after[k]).name@ by {
        if k == after.len() - 1 {
            assert(groups[j].name@ == after[k].name@);
        } else {
            assert(after[k] == before[k]);
            let i = choose|i: int| 0 <= i < old_groups.len() && (#[trigger] old_groups[i]).name@ == (
            #[trigger] before[k]).name@;
            if i < j {
                assert(groups[i] == old_groups[i]);
            } else {
                assert(groups[i + 1] == old_groups[i]);
            }
        }
    }
    assert forall|i: int| 0 <= i < groups.len() implies string_views((#[trigger] groups[i]).policies@)
        == policies_of(after, groups[i].name@) && alias_views(groups[i].aliases@) == aliases_of(
        after,
        groups[i].name@,
    ) by {
        if i != j {
            let oi = if i < j {
                i
            } else {
                i - 1
            };
            assert(groups[i] == old_groups[oi]);
            assert(groups[i].name@ != g.name@) by {
                if i < j {
                    crate::text::lemma_lex_irrefl(g.name@);
                } else {
                    crate::text::lemma_lex_irrefl(g.name@);
                }
            }
            assert(policies_of(after, groups[i].name@) == policies_of(before, groups[i].name@));
            assert(aliases_of(after, groups[i].name@) == aliases_of(before, groups[i].name@));
        }
    }
}

/// The names of `requested` that `found` lacks, in order.
pub open spec fn missing_names(requested: Seq<Seq<char>>, found: Seq<Seq<char>>) -> Seq<Seq<char>>
    decreases requested.len(),
{
    if requested.len() == 0 {
        Seq::empty()
    } else {
        let earlier = missing_names(requested.drop_last(), found);
        if found.contains(requested.last()) {
            earlier
        } else {
            earlier.push(requested.last())
        }
    }
}

/// Whether `names` holds `name`.
fn holds_name(names: &Vec<String>, name: &String) -> (r: bool)
    ensures
        r == string_views(names@).contains(name@),
{
    let mut i: usize = 0;
    while i < names.len()
        invariant
            i <= names@.len(),
            forall|k: int| 0 <= k < i ==> (#[trigger] names@[k])@ != name@,
        decreases names@.len() - i,
    {
        if names[i] == *name {
            assert(string_views(names@)[i as int] == name@);
            return true;
        }
        i = i + 1;
    }
    assert forall|k: int| 0 <= k < string_views(names@).len() implies string_views(names@)[k] != name@ by {
        assert(string_views(names@)[k] == names@[k]@);
    }
    false
}

/// Checks the policies found for the requested names: as many must have been
/// found as were requested. Otherwise the error message lists the requested
/// names that were not found, separated by `, `.
#[verifier::rlimit(30)]
pub fn check_policies_found(requested: &Vec<String>, found: &Vec<String>) -> (r: Result<(), String>)
    ensures
        r is Ok <==> found@.len() == requested@.len(),
        r matches Err(msg) ==> msg@ == "Could not find policies: `"@ + joined_by(
            missing_names(string_views(requested@), string_views(found@)),
            ", "@,
        ) + "`"@,
{
    if found.len() == requested.len() {
        return Ok(());
    }
    let mut missing: Vec<String> = Vec::new();
    let mut i: usize = 0;
    while i < requested.len()
        invariant
            i <= requested@.len(),
            string_views(missing@) == missing_names(
                string_views(requested@.take(i as int)),
                string_views(found@),
            ),
        decreases requested@.len() - i,
    {
        proof {
            assert(string_views(requested@.take(i + 1)).drop_last() =~= string_views(
                requested@.take(i as int),
            ));
            assert(string_views(requested@.take(i + 1)).last() == requested@[i as int]@);
        }
        if !holds_name(found, &requested[i]) {
            missing.push(requested[i].clone());
            proof {
                assert(string_views(missing@) =~= missing_names(
                    string_views(requested@.take(i as int)),
                    string_views(found@),
                ).push(requested@[i as int]@));
            }
        }
        i = i + 1;
    }
    assert(requested@.take(requested@.len() as int) =~= requested@);
    let listed = join(&missing, ", ");
    Err(concat3("Could not find policies: `", listed.as_str(), "`"))
}

/// The names whose attachment succeeded (`ok`), in order.
pub open spec fn attached_names(names: Seq<Seq<char>>, ok: Seq<bool>) -> Seq<Seq<char>>
    decreases names.len(),
{
    if names.len() == 0 {
        Seq::empty()
    } else {
        let earlier = attached_names(names.drop_last(), ok);
        if ok[names.len() - 1] {
            earlier.push(names.last())
        } else {
            earlier
        }
    }
}

/// The requested names whose attachment succeeded, in order; the others
/// are skipped.
pub fn attached_policies(requested: &Vec<String>, ok: &Vec<bool>) -> (r: Vec<String>)
    requires
        ok@.len() == requested@.len(),
    ensures
        string_views(r@) == attached_names(string_views(requested@), ok@),
{
    let mut out: Vec<String> = Vec::new();
    let mut i: usize = 0;
    while i < requested.len()
        invariant
            i <= requested@.len(),
            ok@.len() == requested@.len(),
            string_views(out@) == attached_names(string_views(requested@.take(i as int)), ok@),
        decreases requested@.len() - i,
    {
        proof {
            assert(string_views(requested@.take(i + 1)).drop_last() =~= string_views(
                requested@.take(i as int),
            ));
            assert(string_views(requested@.take(i + 1)).last() == requested@[i as int]@);
        }
        if ok[i] {
            out.push(requested[i].clone());
            proof {
                assert(string_views(out@) =~= attached_names(
                    string_views(requested@.take(i as int)),
                    ok@,
                ).push(requested@[i as int]@));
            }
        }
        i = i + 1;
    }
    assert(requested@.take(requested@.len() as int) =~= requested@);
    out
}

/// Grouped rows hold one entry per entity: no two entries share a name.
pub proof fn law_one_entry_per_entity(
    rows: Seq<EntityWithPolicyAndAliasRaw>,
    out: Seq<EntityWithPolicyAndAlias>,
    a: int,
    b: int,
)
    requires
        grouped_by_name(rows, out),
        0 <= a < out.len(),
        0 <= b < out.len(),
        a != b,
    ensures
        out[a].name@ != out[b].name@,
{
    lemma_lex_distinct(out, a, b);
}

/// The missing names are exactly the requested names that were not found.
pub proof fn law_missing_names_are_the_unfound_requests(
    requested: Seq<Seq<char>>,
    found: Seq<Seq<char>>,
    x: Seq<char>,
)
    ensures
        missing_names(requested, found).contains(x) <==> requested.contains(x) && !found.contains(x),
        missing_names(requested, found).len() <= requested.len(),
        (forall|i: int| 0 <= i < requested.len() ==> found.contains(#[trigger] requested[i]))
            ==> missing_names(requested, found).len() == 0,
    decreases requested.len(),
{
    if requested.len() > 0 {
        let d = requested.drop_last();
        law_missing_names_are_the_unfound_requests(d, found, x);
        let e = missing_names(d, found);
        let r = missing_names(requested, found);
        if requested.contains(x) && !found.contains(x) {
            let i = choose|i: int| 0 <= i < requested.len() && requested[i] == x;
            if i < requested.len() - 1 {
                assert(d[i] == x);
                let j = choose|j: int| 0 <= j < e.len() && e[j] == x;
                if !found.contains(requested.last()) {
                    assert(r[j] == x);
                }
            } else {
                assert(r[e.len() as int] == x);
            }
        }
        if r.contains(x) {
            let j = choose|j: int| 0 <= j < r.len() && r[j] == x;
            if !found.contains(requested.last()) && j == e.len() {
                assert(requested[requested.len() - 1] == x);
            } else {
                assert(e[j] == x);
                let i = choose|i: int| 0 <= i < d.len() && d[i] == x;
                assert(requested[i] == x);
            }
        }
        if forall|i: int| 0 <= i < requested.len() ==> found.contains(#[trigger] requested[i]) {
            assert forall|i: int| 0 <= i < d.len() implies found.contains(#[trigger] d[i]) by {
                assert(d[i] == requested[i]);
            }
            assert(found.contains(requested[requested.len() - 1]));
        }
    }
}

/// The attached names are exactly the names whose attachment succeeded.
pub proof fn law_attached_names_are_the_successes(names: Seq<Seq<char>>, ok: Seq<bool>, x: Seq<char>)
    requires
        ok.len() == names.len(),
    ensures
        attached_names(names, ok).contains(x) <==> exists|i: int| 0 <= i < names.len() && ok[i] && names[i] == x,
        attached_names(names, ok).len() <= names.len(),
    decreases names.len(),
{
    if names.len() > 0 {
        let d = names.drop_last();
        let dok = ok.drop_last();
        law_attached_names_are_the_successes(d, dok, x);
        assert(attached_names(d, ok) == attached_names(d, dok)) by {
            lemma_attached_names_prefix(d, ok, dok);
        }
        let e = attached_names(d, ok);
        let r = attached_names(names, ok);
        let last = names.len() - 1;
        if exists|i: int| 0 <= i < names.len() && ok[i] && names[i] == x {
            let i = choose|i: int| 0 <= i < names.len() && ok[i] && names[i] == x;
            if i < last {
                assert(d[i] == x && dok[i]);
                let j = choose|j: int| 0 <= j < e.len() && e[j] == x;
                if ok[last] {
                    assert(r[j] == x);
                }
            } else {
                assert(r[e.len() as int] == x);
            }
        }
        if r.contains(x) {
            let j = choose|j: int| 0 <= j < r.len() && r[j] == x;
            if ok[last] && j == e.len() {
                assert(names[last] == x);
            } else {
                assert(e[j] == x);
                let i = choose|i: int| 0 <= i < d.len() && dok[i] && d[i] == x;
                assert(names[i] == x && ok[i]);
            }
        }
    }
}

/// `attached_names` reads `ok` only at the positions of `names`.
proof fn lemma_attached_names_prefix(names: Seq<Seq<char>>, a: Seq<bool>, b: Seq<bool>)
    requires
        names.len() <= a.len(),
        names.len() <= b.len(),
        forall|i: int| 0 <= i < names.len() ==> a[i] == b[i],
    ensures
        attached_names(names, a) == attached_names(names, b),
    decreases names.len(),
{
    if names.len() > 0 {
        lemma_attached_names_prefix(names.drop_last(), a, b);
    }
}

} // verus!
