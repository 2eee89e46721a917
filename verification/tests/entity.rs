use covert::entity::{
    attached_policies, check_policies_found, group_entities, EntityAlias,
    EntityWithPolicyAndAlias, EntityWithPolicyAndAliasRaw,
};

fn row(name: &str, policy: &str, alias: &str, mount: &str) -> EntityWithPolicyAndAliasRaw {
    EntityWithPolicyAndAliasRaw {
        name: name.to_string(),
        policy_name: policy.to_string(),
        alias_name: alias.to_string(),
        alias_mount_path: mount.to_string(),
    }
}

#[test]
fn grouping_follows_the_list_scenario() {
    assert!(group_entities(&vec![]).is_empty());

    let rows = vec![row("John", "bar", "", ""), row("John", "foo", "", "")];
    assert_eq!(
        group_entities(&rows),
        vec![EntityWithPolicyAndAlias {
            name: "John".to_string(),
            policies: vec!["bar".to_string(), "foo".to_string()],
            aliases: vec![]
        }]
    );

    let rows = vec![
        row("John", "bar", "", ""),
        row("John", "foo", "", ""),
        row("James", "", "", ""),
    ];
    assert_eq!(
        group_entities(&rows),
        vec![
            EntityWithPolicyAndAlias {
                name: "James".to_string(),
                policies: vec![],
                aliases: vec![]
            },
            EntityWithPolicyAndAlias {
                name: "John".to_string(),
                policies: vec!["bar".to_string(), "foo".to_string()],
                aliases: vec![]
            },
        ]
    );

    let rows = vec![
        row("John", "bar", "", ""),
        row("James", "bar", "James-Alias", "auth/"),
        row("John", "foo", "", ""),
    ];
    assert_eq!(
        group_entities(&rows),
        vec![
            EntityWithPolicyAndAlias {
                name: "James".to_string(),
                policies: vec!["bar".to_string()],
                aliases: vec![EntityAlias {
                    name: "James-Alias".to_string(),
                    mount_path: "auth/".to_string()
                }]
            },
            EntityWithPolicyAndAlias {
                name: "John".to_string(),
                policies: vec!["bar".to_string(), "foo".to_string()],
                aliases: vec![]
            },
        ]
    );
}

#[test]
fn grouped_names_are_unique_and_sorted() {
    let rows = vec![
        row("b", "p1", "", ""),
        row("a", "", "x", "m/"),
        row("b", "", "y", "n/"),
        row("c", "", "", ""),
        row("a", "p2", "", ""),
    ];
    let out = group_entities(&rows);
    let names: Vec<&str> = out.iter().map(|e| e.name.as_str()).collect();
    assert_eq!(names, vec!["a", "b", "c"]);
    assert_eq!(out[0].policies, vec!["p2".to_string()]);
    assert_eq!(out[1].policies, vec!["p1".to_string()]);
    assert_eq!(out[1].aliases.len(), 1);
}

#[test]
fn missing_policies_are_listed() {
    let requested = vec!["foo".to_string(), "bar".to_string(), "baz".to_string()];
    let found = vec!["bar".to_string()];
    assert_eq!(
        check_policies_found(&requested, &found),
        Err("Could not find policies: `foo, baz`".to_string())
    );
    let found = vec!["bar".to_string(), "foo".to_string(), "baz".to_string()];
    assert_eq!(check_policies_found(&requested, &found), Ok(()));
}

#[test]
fn only_attached_policies_are_reported() {
    let requested = vec!["foo".to_string(), "bar".to_string(), "baz".to_string()];
    assert_eq!(
        attached_policies(&requested, &vec![true, false, true]),
        vec!["foo".to_string(), "baz".to_string()]
    );
}
