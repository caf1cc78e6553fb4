//! What a token may do, told by what is on record for it.

use super::{
    OperatorFacts, Permission, PermissionReading, PermissionView, Principal, RbacError, Require,
    ScopeView, TokenFacts, TokenScope,
};
use crate::text;
use vstd::prelude::*;

verus! {

/// A grant without a wildcard satisfies what it names and nothing else.
pub proof fn plain_grant_satisfies_itself_only(g: PermissionView, required: PermissionView)
    requires
        g.resource != "*"@,
        g.verb != "*"@,
    ensures
        g.satisfies(required) <==> g == required,
{
}

/// A grant with a wildcard for the verb satisfies everything on its resource, and nothing
/// on another.
pub proof fn wildcard_verb_stays_on_its_resource(g: PermissionView, required: PermissionView)
    requires
        g.resource != "*"@,
        g.verb == "*"@,
    ensures
        g.satisfies(required) <==> g.resource == required.resource,
{
}

/// A grant with a wildcard for the resource satisfies its verb everywhere, and no other.
pub proof fn wildcard_resource_stays_with_its_verb(g: PermissionView, required: PermissionView)
    requires
        g.resource == "*"@,
        g.verb != "*"@,
    ensures
        g.satisfies(required) <==> g.verb == required.verb,
{
}

/// A text that names a permission is its resource, a colon and its verb; neither is empty,
/// and the resource holds no colon.
pub proof fn permission_is_its_two_halves(s: Seq<char>, p: PermissionView)
    requires
        super::read_permission(s) == PermissionReading::Permission(p),
    ensures
        s == p.resource + seq![':'] + p.verb,
        p.resource.len() > 0,
        p.verb.len() > 0,
        !p.resource.contains(':'),
{
    text::lemma_find(s, ':');
    let i = text::find(s, ':')->0;
    assert(s =~= s.take(i) + seq![':'] + s.skip(i + 1));
    if p.resource.contains(':') {
        let j = choose|j: int| 0 <= j < p.resource.len() && p.resource[j] == ':';
        assert(s[j] == ':');
    }
}

/// Whether one of the rows names the permission.
pub open spec fn named_in(rows: Seq<String>, p: PermissionView) -> bool {
    exists|i: int|
        0 <= i < rows.len() && (#[trigger] rows[i])@ == p.resource + seq![':'] + p.verb
}

/// A token has just the permissions that its rows name; that of a session just those that
/// the rows of its operator name, too, and none once the operator is disabled or gone.
pub proof fn token_has_what_its_rows_name(f: TokenFacts, p: PermissionView)
    requires
        super::effective(f) is Ok,
        p.resource.len() > 0,
        p.verb.len() > 0,
        !p.resource.contains(':'),
    ensures
        super::effective(f)->Ok_0.contains(p) <==> named_in(f.grants@, p) && (match f.operator {
            None => true,
            Some((_, OperatorFacts::Enabled { username: _, grants })) => named_in(grants@, p),
            Some((_, OperatorFacts::Disabled { username: _ })) => false,
            Some((_, OperatorFacts::Missing)) => false,
        }),
{
    lemma_named(f.grants@, p);
    if let Some((_, OperatorFacts::Enabled { username: _, grants })) = f.operator {
        lemma_named(grants@, p);
    }
}

/// The permissions of rows are those that they name.
proof fn lemma_named(rows: Seq<String>, p: PermissionView)
    requires
        p.resource.len() > 0,
        p.verb.len() > 0,
        !p.resource.contains(':'),
    ensures
        super::read_grants(text::texts(rows)) is Ok ==> (super::read_grants(
            text::texts(rows),
        )->Ok_0.contains(p) <==> named_in(rows, p)),
{
    let texts = text::texts(rows);
    if super::read_grants(texts) is Ok {
        super::lemma_granted(texts);
        super::permission_is_read_back(p);
        if super::read_grants(texts)->Ok_0.contains(p) {
            let i = choose|i: int|
                0 <= i < texts.len() && super::read_permission(#[trigger] texts[i])
                    == PermissionReading::Permission(p);
            permission_is_its_two_halves(texts[i], p);
            assert(rows[i]@ == texts[i]);
        }
        if named_in(rows, p) {
            let i = choose|i: int|
                0 <= i < rows.len() && (#[trigger] rows[i])@ == p.resource + seq![':'] + p.verb;
            assert(texts[i] == rows[i]@);
        }
    }
}

/// Whether a row takes in a node: it names the id of the node, or one of its labels.
pub open spec fn row_takes_in(
    row: (String, String),
    node_id: Seq<char>,
    labels: Seq<Seq<char>>,
) -> bool {
    ||| row.0@ == "node_id"@ && row.1@ == node_id
    ||| row.0@ == "node_label"@ && labels.contains(row.1@)
}

/// A token reaches every node where no scope is on record for it, else just the nodes that
/// one of its rows takes in. Every row is of one of the two types.
pub proof fn token_reaches_what_its_rows_take_in(
    rows: Seq<(String, String)>,
    scopes: Seq<TokenScope>,
    node_id: Seq<char>,
    labels: Seq<Seq<char>>,
)
    requires
        super::read_scopes(rows) == Ok::<Seq<ScopeView>, Seq<char>>(super::scope_views(scopes)),
    ensures
        super::in_scopes(super::scope_views(scopes), node_id, labels) <==> rows.len() == 0
            || exists|i: int|
            0 <= i < rows.len() && row_takes_in(#[trigger] rows[i], node_id, labels),
        forall|i: int|
            0 <= i < rows.len() ==> (#[trigger] rows[i]).0@ == "node_id"@ || rows[i].0@
                == "node_label"@,
{
    let views = super::scope_views(scopes);
    lemma_scopes(rows, views);
    if exists|i: int| 0 <= i < rows.len() && row_takes_in(#[trigger] rows[i], node_id, labels) {
        let i = choose|i: int|
            0 <= i < rows.len() && row_takes_in(#[trigger] rows[i], node_id, labels);
        assert(views[i].takes_in(node_id, labels));
    }
    if exists|i: int| 0 <= i < views.len() && (#[trigger] views[i]).takes_in(node_id, labels) {
        let i = choose|i: int|
            0 <= i < views.len() && (#[trigger] views[i]).takes_in(node_id, labels);
        assert(row_takes_in(rows[i], node_id, labels));
    }
}

/// The names of the two types differ.
proof fn lemma_types_differ()
    ensures
        "node_id"@ != "node_label"@,
{
    reveal_strlit("node_id");
    reveal_strlit("node_label");
    assert("node_id"@.len() != "node_label"@.len());
}

/// The scopes are those of the rows, one each.
proof fn lemma_scopes(rows: Seq<(String, String)>, views: Seq<ScopeView>)
    requires
        super::read_scopes(rows) == Ok::<Seq<ScopeView>, Seq<char>>(views),
    ensures
        views.len() == rows.len(),
        forall|i: int|
            0 <= i < rows.len() ==> {
                ||| (#[trigger] rows[i]).0@ == "node_id"@ && views[i] == ScopeView::NodeId(
                    rows[i].1@,
                )
                ||| rows[i].0@ == "node_label"@ && views[i] == ScopeView::NodeLabel(rows[i].1@)
            },
        "node_id"@ != "node_label"@,
    decreases rows.len(),
{
    lemma_types_differ();
    if rows.len() > 0 {
        let front = rows.drop_last();
        let earlier = super::read_scopes(front)->Ok_0;
        lemma_scopes(front, earlier);
        let n = rows.len() - 1;
        assert(rows[n] == rows.last());
        assert forall|i: int| 0 <= i < rows.len() implies {
            ||| (#[trigger] rows[i]).0@ == "node_id"@ && views[i] == ScopeView::NodeId(rows[i].1@)
            ||| rows[i].0@ == "node_label"@ && views[i] == ScopeView::NodeLabel(rows[i].1@)
        } by {
            if i < n {
                assert(front[i] == rows[i]);
                assert(views[i] == earlier[i]);
            }
        }
    }
}

/// A session acts under the name of its operator, any other token under its own, and each
/// under its number where no name is on record.
pub proof fn actor_is_named(f: TokenFacts)
    ensures
        f.operator is None && f.name is Some ==> super::actor_of(f) == "token:"@ + f.name->0@,
        f.operator is None && f.name is None ==> super::actor_of(f) == "token:"@
            + text::decimal_int(f.token_id as int),
        f.operator matches Some((_, OperatorFacts::Enabled { username, .. })) ==> super::actor_of(f)
            == "operator:"@ + username@,
        f.operator matches Some((_, OperatorFacts::Disabled { username })) ==> super::actor_of(f)
            == "operator:"@ + username@,
        f.operator matches Some((id, OperatorFacts::Missing)) ==> super::actor_of(f)
            == "operator:"@ + text::decimal_int(id as int),
{
}

/// A principal may do what one of its grants names, in full or by wildcard, and nothing
/// else.
pub proof fn principal_may_what_is_granted(p: Principal, required: Permission, r: bool)
    requires
        call_ensures(Principal::allows, (&p, &required), r),
    ensures
        r <==> exists|g: PermissionView| #[trigger]
            p.permissions@.contains(g) && (g.resource == required@.resource || g.resource == "*"@)
                && (g.verb == required@.verb || g.verb == "*"@),
{
}

/// A principal reaches a node where it has no scope, or one that names the node or one of
/// its labels.
pub proof fn principal_reaches_its_nodes(p: Principal, node_id: &str, labels: &[&str], r: bool)
    requires
        call_ensures(Principal::allows_node, (&p, node_id, labels), r),
    ensures
        r <==> p.scopes@.len() == 0 || exists|i: int|
            0 <= i < p.scopes@.len() && scope_takes_in(#[trigger] p.scopes@[i], node_id, labels),
{
    let views = super::scope_views(p.scopes@);
    let texts = super::lent_texts(labels@);
    assert forall|i: int| 0 <= i < p.scopes@.len() implies views[i].takes_in(node_id@, texts)
        == scope_takes_in(#[trigger] p.scopes@[i], node_id, labels) by {
        assert(views[i] == p.scopes@[i]@);
        if let TokenScope::NodeLabel(l) = p.scopes@[i] {
            if texts.contains(l@) {
                let j = choose|j: int| 0 <= j < texts.len() && texts[j] == l@;
                assert(labels@[j]@ == l@);
            }
            if exists|j: int| 0 <= j < labels@.len() && (#[trigger] labels@[j])@ == l@ {
                let j = choose|j: int| 0 <= j < labels@.len() && (#[trigger] labels@[j])@ == l@;
                assert(texts[j] == l@);
            }
        }
    }
    if super::in_scopes(views, node_id@, texts) && views.len() > 0 {
        let i = choose|i: int|
            0 <= i < views.len() && (#[trigger] views[i]).takes_in(node_id@, texts);
        assert(scope_takes_in(p.scopes@[i], node_id, labels));
    }
    if exists|i: int|
        0 <= i < p.scopes@.len() && scope_takes_in(#[trigger] p.scopes@[i], node_id, labels) {
        let i = choose|i: int|
            0 <= i < p.scopes@.len() && scope_takes_in(#[trigger] p.scopes@[i], node_id, labels);
        assert(views[i].takes_in(node_id@, texts));
    }
}

/// Whether a scope takes in a node with these labels.
pub open spec fn scope_takes_in(s: TokenScope, node_id: &str, labels: &[&str]) -> bool {
    match s {
        TokenScope::NodeId(id) => id@ == node_id@,
        TokenScope::NodeLabel(l) => exists|j: int|
            0 <= j < labels@.len() && (#[trigger] labels@[j])@ == l@,
    }
}

/// Nobody passes without being known, and whoever is known passes just with a grant of what
/// is required.
pub proof fn only_the_granted_pass(
    guard: Require,
    principal: Option<&Principal>,
    r: Result<(), String>,
)
    requires
        call_ensures(Require::check, (&guard, principal), r),
    ensures
        principal is None ==> r is Err,
        principal matches Some(p) ==> (r is Ok <==> super::grants(
            p.permissions@,
            guard.required(),
        )),
{
}

/// Roles are bound within a tenant just where each of them is one of the tenant.
pub proof fn roles_stay_within_the_tenant(
    tenant_id: i64,
    role_ids: &[i64],
    tenant_roles: &[i64],
    r: Result<(), RbacError>,
)
    requires
        call_ensures(
            super::validate_role_ids_for_tenant,
            (tenant_id, role_ids, tenant_roles),
            r,
        ),
    ensures
        r is Ok <==> forall|i: int|
            0 <= i < role_ids@.len() ==> tenant_roles@.contains(#[trigger] role_ids@[i]),
{
    assert(r is Ok <==> super::roles_belong(role_ids@, tenant_roles@));
}

} // verus!
