use policy_controller::rbac::{
    check_scopes, resolve, rows_to_perms, validate_role_ids_for_tenant, BuiltInRole,
    OperatorFacts, Permission, PermissionSet, Principal, RbacError, Require, TokenFacts,
};

#[test]
fn permission_parse_round_trip() {
    let p = Permission::parse("rule:write").unwrap();
    assert!(p.satisfies(&Permission::new("rule:write")));
    assert!(!p.satisfies(&Permission::new("rule:read")));
    assert!(!p.satisfies(&Permission::new("node:write")));
}

#[test]
fn permission_wildcards() {
    let star = Permission::parse("*:*").unwrap();
    assert!(star.satisfies(&Permission::new("anything:goes")));

    let resource_wild = Permission::parse("*:read").unwrap();
    assert!(resource_wild.satisfies(&Permission::new("node:read")));
    assert!(!resource_wild.satisfies(&Permission::new("node:write")));

    let verb_wild = Permission::parse("rule:*").unwrap();
    assert!(verb_wild.satisfies(&Permission::new("rule:delete")));
    assert!(!verb_wild.satisfies(&Permission::new("node:delete")));
}

#[test]
fn hyphenated_verbs_supported() {
    let p = Permission::parse("event:read-payload").unwrap();
    assert!(p.satisfies(&Permission::new("event:read-payload")));
    assert!(!p.satisfies(&Permission::new("event:read")));
}

#[test]
fn malformed_rejected() {
    assert!(Permission::parse("no_colon").is_err());
    assert!(Permission::parse(":missing").is_err());
    assert!(Permission::parse("missing:").is_err());
}

#[test]
fn malformed_permission_says_why() {
    assert_eq!(
        Permission::parse("no_colon").err().unwrap().to_text(),
        "permission `no_colon` missing ':' separator"
    );
    assert_eq!(
        Permission::parse(":missing").err().unwrap().to_text(),
        "permission `:missing` has empty resource or verb"
    );
    let p = Permission::parse("a:b:c").unwrap();
    assert_eq!((p.resource_str(), p.verb_str()), ("a", "b:c"));
}

fn grants(roles: &[BuiltInRole]) -> Vec<String> {
    let mut out = Vec::new();
    for r in roles {
        for p in r.permissions() {
            out.push(p.to_string());
        }
    }
    out
}

fn static_token(name: &str, roles: &[BuiltInRole]) -> TokenFacts {
    TokenFacts {
        token_id: 7,
        tenant_id: 1,
        name: Some(name.to_string()),
        grants: grants(roles),
        operator: None,
        scopes: Vec::new(),
        tenant_slug: Some("default".to_string()),
    }
}

fn session_token(operator: OperatorFacts) -> TokenFacts {
    TokenFacts {
        operator: Some((3, operator)),
        ..static_token("session:alice", &[BuiltInRole::Admin])
    }
}

#[test]
fn admin_role_has_wildcard() {
    let principal = resolve(static_token("t", &[BuiltInRole::Admin])).unwrap();
    assert!(principal.allows(&Permission::new("rule:delete")));
    assert!(principal.allows(&Permission::new("iam:write")));
}

#[test]
fn viewer_cannot_read_event_payload() {
    let principal = resolve(static_token("v", &[BuiltInRole::Viewer])).unwrap();
    assert!(principal.allows(&Permission::new("event:read")));
    assert!(!principal.allows(&Permission::new("event:read-payload")));
    assert!(!principal.allows(&Permission::new("rule:write")));
}

#[test]
fn auditor_can_read_payload() {
    let principal = resolve(static_token("a", &[BuiltInRole::Auditor])).unwrap();
    assert!(principal.allows(&Permission::new("event:read-payload")));
    assert!(!principal.allows(&Permission::new("rule:write")));
}

#[test]
fn session_token_intersects_with_operator_roles() {
    let enabled = |roles: &[BuiltInRole]| OperatorFacts::Enabled {
        username: "alice".to_string(),
        grants: grants(roles),
    };

    // Operator has no roles → intersection is empty.
    let principal = resolve(session_token(enabled(&[]))).unwrap();
    assert!(!principal.allows(&Permission::new("rule:write")));

    // Grant admin to operator → intersection now equals admin's perms.
    let principal = resolve(session_token(enabled(&[BuiltInRole::Admin]))).unwrap();
    assert!(principal.allows(&Permission::new("rule:write")));

    // Disable operator → intersection drops to empty.
    let principal = resolve(session_token(OperatorFacts::Disabled {
        username: "alice".to_string(),
    }))
    .unwrap();
    assert!(!principal.allows(&Permission::new("rule:write")));
    assert_eq!(principal.actor, "operator:alice");
    assert_eq!(principal.permissions().len(), 0);
}

#[test]
fn actor_names_operator_and_static_token() {
    // Static token resolves to `token:<name>`.
    let principal = resolve(static_token("grafana-prod", &[])).unwrap();
    assert_eq!(principal.actor, "token:grafana-prod");

    // Session token tied to an operator resolves to `operator:<username>`.
    let principal = resolve(session_token(OperatorFacts::Enabled {
        username: "alice".to_string(),
        grants: Vec::new(),
    }))
    .unwrap();
    assert_eq!(principal.actor, "operator:alice");
}

#[test]
fn actor_falls_back_to_ids() {
    let principal = resolve(session_token(OperatorFacts::Missing)).unwrap();
    assert_eq!(principal.actor, "operator:3");
    assert!(!principal.allows(&Permission::new("rule:read")));
    let nameless = TokenFacts { name: None, ..static_token("", &[]) };
    assert_eq!(resolve(nameless).unwrap().actor, "token:7");
}

#[test]
fn token_scopes_filter_nodes() {
    let facts = TokenFacts {
        scopes: vec![
            ("node_id".to_string(), "node-1".to_string()),
            ("node_label".to_string(), "edge".to_string()),
        ],
        ..static_token("s", &[BuiltInRole::Admin])
    };
    let principal = resolve(facts).unwrap();
    assert!(principal.allows_node("node-1", &[]));
    assert!(principal.allows_node("node-9", &["edge"]));
    assert!(!principal.allows_node("node-9", &["dc"]));
}

#[test]
fn unscoped_principal_sees_every_node() {
    let principal = Principal::test_admin();
    assert!(principal.allows_node("any", &[]));
    assert!(principal.allows(&Permission::new("x:y")));
    assert_eq!(principal.actor, "operator:test-admin");
}

#[test]
fn what_is_on_record_may_be_unusable() {
    let bad_grant = TokenFacts {
        grants: vec!["rule:read".to_string(), "oops".to_string()],
        ..static_token("t", &[])
    };
    assert_eq!(
        resolve(bad_grant).err().unwrap().to_text(),
        "permission `oops` missing ':' separator"
    );
    let bad_scope = TokenFacts {
        scopes: vec![("rack".to_string(), "1".to_string())],
        ..static_token("t", &[])
    };
    assert_eq!(
        resolve(bad_scope).err().unwrap().to_text(),
        "unknown scope_type `rack`"
    );
    let no_tenant = TokenFacts { tenant_slug: None, ..static_token("t", &[]) };
    assert!(matches!(resolve(no_tenant), Err(RbacError::NoTenant(1))));
}

#[test]
fn scopes_are_checked_before_they_are_bound() {
    let good = vec![("node_id".to_string(), "a".to_string())];
    assert!(check_scopes(&good).is_ok());
    let bad = vec![
        ("node_label".to_string(), "a".to_string()),
        ("zone".to_string(), "b".to_string()),
    ];
    assert_eq!(
        check_scopes(&bad).err().unwrap().to_text(),
        "invalid scope type `zone` (expected node_id or node_label)"
    );
}

#[test]
fn foreign_roles_are_refused() {
    assert!(validate_role_ids_for_tenant(1, &[4, 5], &[5, 6, 4]).is_ok());
    assert_eq!(
        validate_role_ids_for_tenant(1, &[4, 9, 8], &[4]).err().unwrap().to_text(),
        "role id 9 does not exist in tenant 1"
    );
}

#[test]
fn grants_count_once() {
    let rows = vec!["a:b".to_string(), "a:c".to_string(), "a:b".to_string()];
    assert_eq!(rows_to_perms(&rows).unwrap().len(), 2);
}

#[test]
fn guard_tells_what_it_requires() {
    let guard = Require::new("rule:write");
    assert_eq!(guard.check(None).err().unwrap(), "unauthenticated");
    let nobody = Principal::from_test_parts(PermissionSet::new());
    assert_eq!(
        guard.check(Some(&nobody)).err().unwrap(),
        "forbidden: requires rule:write"
    );
    assert!(guard.check(Some(&Principal::test_admin())).is_ok());
}

#[test]
fn built_in_roles_are_six() {
    let names: Vec<&str> = BuiltInRole::all().iter().map(|r| r.as_str()).collect();
    assert_eq!(
        names,
        vec!["admin", "operator", "viewer", "security-admin", "auditor", "service"]
    );
    for r in BuiltInRole::all() {
        let rows: Vec<String> = r.permissions().iter().map(|p| p.to_string()).collect();
        assert_eq!(rows_to_perms(&rows).unwrap().len(), rows.len());
    }
    assert!(BuiltInRole::Service.permissions().is_empty());
    assert_eq!(
        BuiltInRole::Admin.description(),
        "Full access to everything in the tenant."
    );
}

#[test]
fn literal_is_what_parsing_gives_on_values() {
    let p = Permission::new("rule:write");
    let q = Permission::parse("rule:write").unwrap();
    assert_eq!((p.resource_str(), p.verb_str()), (q.resource_str(), q.verb_str()));
    for s in ["", "rule", ":write", "rule:"] {
        assert!(Permission::parse(s).is_err());
    }
}

fn role_grants(role: BuiltInRole, required: &'static str) -> bool {
    role.permissions()
        .iter()
        .any(|p| Permission::parse(p).unwrap().satisfies(&Permission::new(required)))
}

#[test]
fn sensitive_permissions_are_for_few_roles() {
    for role in BuiltInRole::all() {
        assert_eq!(
            role_grants(role, "event:read-payload"),
            role == BuiltInRole::Admin || role == BuiltInRole::Auditor
        );
        assert_eq!(
            role_grants(role, "iam:write"),
            role == BuiltInRole::Admin || role == BuiltInRole::SecurityAdmin
        );
    }
    assert!(BuiltInRole::Viewer.permissions().iter().all(|p| p.ends_with(":read")));
}

#[test]
fn built_in_roles_and_their_grants_are_not_repeated() {
    let all = BuiltInRole::all();
    for (i, a) in all.iter().enumerate() {
        for b in &all[i + 1..] {
            assert_ne!(a, b);
            assert_ne!(a.as_str(), b.as_str());
        }
        let grants = a.permissions();
        for (j, g) in grants.iter().enumerate() {
            assert!(!grants[j + 1..].contains(g));
        }
    }
}
