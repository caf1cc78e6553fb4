//! Role-based access control for the controller's REST + GraphQL surface.
//!
//! * A [`Permission`] is a `resource:verb` pair. Verbs may contain hyphens
//!   (e.g. `event:read-payload`). The wildcard token is `*`.
//! * Six built-in roles are seeded per tenant.
//! * A [`Principal`] is resolved once per request from what is on record for its
//!   token. Resolvers gate access with [`Require`].
//! * Effective permissions = (token's roles) ∩ (operator's roles, if any).
//!   The intersection means disabling an operator drops their active
//!   sessions to zero permissions without explicit revocation.

pub mod laws;

use crate::text;
use vstd::prelude::*;

verus! {

broadcast use vstd::string::group_string_axioms;

/// Why something on record, or asked for, is not valid.
#[derive(Debug)]
pub enum RbacError {
    NoSeparator(String),
    EmptyHalf(String),
    UnknownScopeType(String),
    InvalidScopeType(String),
    NoTenant(i64),
    ForeignRole { role_id: i64, tenant_id: i64 },
}

impl RbacError {
    /// The text of the error.
    pub open spec fn message(self) -> Seq<char> {
        match self {
            RbacError::NoSeparator(s) => "permission `"@ + s@ + "` missing ':' separator"@,
            RbacError::EmptyHalf(s) => "permission `"@ + s@ + "` has empty resource or verb"@,
            RbacError::UnknownScopeType(t) => "unknown scope_type `"@ + t@ + "`"@,
            RbacError::InvalidScopeType(t) => "invalid scope type `"@ + t@
                + "` (expected node_id or node_label)"@,
            RbacError::NoTenant(id) => "load tenant slug for id "@ + text::decimal_int(id as int),
            RbacError::ForeignRole { role_id, tenant_id } => "role id "@ + text::decimal_int(
                role_id as int,
            ) + " does not exist in tenant "@ + text::decimal_int(tenant_id as int),
        }
    }

    /// The text of the error.
    pub fn to_text(&self) -> (s: String)
        ensures
            s@ == self.message(),
    {
        match self {
            RbacError::NoSeparator(s) => text::concat3(
                "permission `",
                s.as_str(),
                "` missing ':' separator",
            ),
            RbacError::EmptyHalf(s) => text::concat3(
                "permission `",
                s.as_str(),
                "` has empty resource or verb",
            ),
            RbacError::UnknownScopeType(t) => text::concat3(
                "unknown scope_type `",
                t.as_str(),
                "`",
            ),
            RbacError::InvalidScopeType(t) => text::concat3(
                "invalid scope type `",
                t.as_str(),
                "` (expected node_id or node_label)",
            ),
            RbacError::NoTenant(id) => text::concat2(
                "load tenant slug for id ",
                text::i64_text(*id).as_str(),
            ),
            RbacError::ForeignRole { role_id, tenant_id } => text::concat4(
                "role id ",
                text::i64_text(*role_id).as_str(),
                " does not exist in tenant ",
                text::i64_text(*tenant_id).as_str(),
            ),
        }
    }
}

/// A `resource:verb` pair. Equality is case-sensitive on both
/// halves; callers normalise to lower-case at the boundary.
pub struct Permission {
    resource: String,
    verb: String,
}

/// What a permission holds.
pub struct PermissionView {
    pub resource: Seq<char>,
    pub verb: Seq<char>,
}

impl View for Permission {
    type V = PermissionView;

    closed spec fn view(&self) -> PermissionView {
        PermissionView { resource: self.resource@, verb: self.verb@ }
    }
}

/// What reading a permission comes to.
pub enum PermissionReading {
    Permission(PermissionView),
    NoSeparator,
    EmptyHalf,
}

/// The permission in a text: what stands before and behind its first colon, neither of
/// which is empty.
pub open spec fn read_permission(s: Seq<char>) -> PermissionReading {
    match text::find(s, ':') {
        None => PermissionReading::NoSeparator,
        Some(i) => {
            let resource = s.take(i);
            let verb = s.skip(i + 1);
            if resource.len() == 0 || verb.len() == 0 {
                PermissionReading::EmptyHalf
            } else {
                PermissionReading::Permission(PermissionView { resource, verb })
            }
        },
    }
}

impl PermissionView {
    /// Whether a grant satisfies what is required. `*` matches in either position.
    pub open spec fn satisfies(self, required: PermissionView) -> bool {
        &&& self.resource == "*"@ || self.resource == required.resource
        &&& self.verb == "*"@ || self.verb == required.verb
    }
}

/// Whether a text names a permission.
pub open spec fn is_permission(s: Seq<char>) -> bool {
    read_permission(s) is Permission
}

/// Whether that is the permission that the text names.
pub open spec fn made_of(s: Seq<char>, p: Permission) -> bool {
    read_permission(s) == PermissionReading::Permission(p@)
}

/// What parsing a text comes to.
pub open spec fn parses(s: Seq<char>, r: Result<Permission, RbacError>) -> bool {
    match read_permission(s) {
        PermissionReading::Permission(v) => r matches Ok(p) && p@ == v,
        PermissionReading::NoSeparator => r matches Err(RbacError::NoSeparator(t)) && t@ == s,
        PermissionReading::EmptyHalf => r matches Err(RbacError::EmptyHalf(t)) && t@ == s,
    }
}

impl Permission {
    /// Build a permission from a literal that is known to be one. Runtime input goes
    /// through [`Permission::parse`].
    pub fn new(s: &'static str) -> (p: Self)
        requires
            is_permission(s@),
        ensures
            made_of(s@, p),
    {
        match Self::parse(s) {
            Ok(p) => p,
            Err(_) => Permission { resource: String::new(), verb: String::new() },
        }
    }

    pub fn parse(s: &str) -> (r: Result<Self, RbacError>)
        ensures
            parses(s@, r),
    {
        let chars = text::chars_of(s);
        let i: usize = match text::find_char(&chars, ':') {
            Some(i) => i,
            None => {
                return Err(RbacError::NoSeparator(s.to_string()));
            },
        };
        proof {
            text::lemma_find(s@, ':');
        }
        if i == 0 || i + 1 == chars.len() {
            return Err(RbacError::EmptyHalf(s.to_string()));
        }
        let r = text::slice(&chars, 0, i);
        let v = text::slice(&chars, i + 1, chars.len());
        let p = Permission { resource: text::string_of(&r), verb: text::string_of(&v) };
        proof {
            assert(p@.resource =~= s@.take(i as int));
            assert(p@.verb =~= s@.skip(i + 1));
        }
        Ok(p)
    }

    pub fn resource_str(&self) -> (s: &str)
        ensures
            s@ == self@.resource,
    {
        self.resource.as_str()
    }

    pub fn verb_str(&self) -> (s: &str)
        ensures
            s@ == self@.verb,
    {
        self.verb.as_str()
    }

    /// True when `self` (a grant on record) satisfies `required` (the
    /// guard literal). `*` matches in either position.
    pub fn satisfies(&self, required: &Permission) -> (r: bool)
        ensures
            r == self@.satisfies(required@),
    {
        let r_ok = text::same(self.resource.as_str(), "*") || text::same(
            self.resource.as_str(),
            required.resource.as_str(),
        );
        let v_ok = text::same(self.verb.as_str(), "*") || text::same(
            self.verb.as_str(),
            required.verb.as_str(),
        );
        r_ok && v_ok
    }

    /// Whether two permissions are the same.
    pub fn equals(&self, other: &Permission) -> (r: bool)
        ensures
            r == (self@ == other@),
    {
        text::same(self.resource.as_str(), other.resource.as_str()) && text::same(
            self.verb.as_str(),
            other.verb.as_str(),
        )
    }
}

impl Clone for Permission {
    fn clone(&self) -> (r: Self)
        ensures
            r@ == self@,
    {
        Permission { resource: self.resource.clone(), verb: self.verb.clone() }
    }
}

/// What permissions hold.
pub open spec fn permission_views(v: Seq<Permission>) -> Seq<PermissionView> {
    v.map_values(|p: Permission| p@)
}

/// Permissions, each once.
pub struct PermissionSet {
    items: Vec<Permission>,
}

impl View for PermissionSet {
    type V = Set<PermissionView>;

    closed spec fn view(&self) -> Set<PermissionView> {
        permission_views(self.items@).to_set()
    }
}

impl PermissionSet {
    #[verifier::type_invariant]
    spec fn inv(self) -> bool {
        permission_views(self.items@).no_duplicates()
    }

    /// No permissions.
    pub fn new() -> (s: Self)
        ensures
            s@ == Set::<PermissionView>::empty(),
    {
        let s = PermissionSet { items: Vec::new() };
        assert(permission_views(s.items@) =~= Seq::<PermissionView>::empty());
        assert(s@ =~= Set::<PermissionView>::empty());
        s
    }

    /// Whether the permission is one of them.
    pub fn contains(&self, p: &Permission) -> (r: bool)
        ensures
            r == self@.contains(p@),
    {
        let mut i: usize = 0;
        while i < self.items.len()
            invariant
                i <= self.items@.len(),
                forall|j: int|
                    0 <= j < i ==> #[trigger] permission_views(self.items@)[j] != p@,
            decreases self.items@.len() - i,
        {
            assert(permission_views(self.items@)[i as int] == self.items@[i as int]@);
            if self.items[i].equals(p) {
                return true;
            }
            i = i + 1;
        }
        false
    }

    /// Adds a permission, unless it is there.
    pub fn insert(&mut self, p: Permission)
        ensures
            final(self)@ == old(self)@.insert(p@),
    {
        proof {
            use_type_invariant(&*self);
        }
        let ghost before = permission_views(self.items@);
        if self.contains(&p) {
            assert(self@ =~= old(self)@.insert(p@));
            return;
        }
        let mut items: Vec<Permission> = Vec::new();
        std::mem::swap(&mut items, &mut self.items);
        items.push(p);
        proof {
            let after = permission_views(items@);
            assert(after =~= before.push(p@));
            assert(after.no_duplicates()) by {
                assert forall|i: int, j: int| 0 <= i < j < after.len() implies after[i]
                    != after[j] by {
                    if j == before.len() {
                        assert(before.contains(before[i]));
                    }
                }
            }
            assert forall|x: PermissionView| after.to_set().contains(x)
                == before.to_set().insert(p@).contains(x) by {
                if after.contains(x) {
                    let i = choose|i: int| 0 <= i < after.len() && after[i] == x;
                    if i < before.len() {
                        assert(before[i] == x);
                    }
                }
                if before.contains(x) {
                    let i = choose|i: int| 0 <= i < before.len() && before[i] == x;
                    assert(after[i] == x);
                }
                if x == p@ {
                    assert(after[before.len() as int] == x);
                }
            }
            assert(after.to_set() =~= before.to_set().insert(p@));
        }
        self.items = items;
    }

    /// How many permissions there are.
    pub fn len(&self) -> (n: usize)
        ensures
            self@.finite(),
            n == self@.len(),
    {
        proof {
            use_type_invariant(self);
            permission_views(self.items@).unique_seq_to_set();
        }
        self.items.len()
    }

    /// Whether one of them satisfies what is required.
    pub fn any_satisfies(&self, required: &Permission) -> (r: bool)
        ensures
            r == grants(self@, required@),
    {
        let mut i: usize = 0;
        while i < self.items.len()
            invariant
                i <= self.items@.len(),
                forall|j: int|
                    0 <= j < i ==> !(#[trigger] permission_views(self.items@)[j]).satisfies(
                        required@,
                    ),
            decreases self.items@.len() - i,
        {
            assert(permission_views(self.items@)[i as int] == self.items@[i as int]@);
            if self.items[i].satisfies(required) {
                assert(self@.contains(self.items@[i as int]@));
                return true;
            }
            i = i + 1;
        }
        false
    }

    /// The permissions that are in both sets.
    pub fn intersection(&self, other: &PermissionSet) -> (s: PermissionSet)
        ensures
            s@ == self@.intersect(other@),
    {
        let mut s = PermissionSet::new();
        let ghost mine = permission_views(self.items@);
        let mut i: usize = 0;
        while i < self.items.len()
            invariant
                i <= self.items@.len(),
                mine == permission_views(self.items@),
                forall|x: PermissionView| #[trigger]
                    s@.contains(x) <==> (other@.contains(x) && exists|j: int|
                        0 <= j < i && #[trigger] mine[j] == x),
            decreases self.items@.len() - i,
        {
            let ghost before = s@;
            assert(mine[i as int] == self.items@[i as int]@);
            if other.contains(&self.items[i]) {
                s.insert(self.items[i].clone());
            }
            proof {
                assert forall|x: PermissionView| #[trigger]
                    s@.contains(x) <==> (other@.contains(x) && exists|j: int|
                        0 <= j < i + 1 && #[trigger] mine[j] == x) by {
                    if before.contains(x) {
                        let j = choose|j: int| 0 <= j < i && #[trigger] mine[j] == x;
                        assert(mine[j] == x);
                    }
                }
            }
            i = i + 1;
        }
        proof {
            assert forall|x: PermissionView| s@.contains(x) == self@.intersect(other@).contains(
                x,
            ) by {
                if self@.contains(x) {
                    let j = choose|j: int| 0 <= j < mine.len() && mine[j] == x;
                    assert(mine[j] == x);
                }
            }
            assert(s@ =~= self@.intersect(other@));
        }
        s
    }
}

/// Whether one of the grants satisfies what is required.
pub open spec fn grants(perms: Set<PermissionView>, required: PermissionView) -> bool {
    exists|p: PermissionView| #[trigger] perms.contains(p) && p.satisfies(required)
}

/// What nodes a token is limited to.
pub enum TokenScope {
    NodeId(String),
    NodeLabel(String),
}

/// What a scope holds.
pub enum ScopeView {
    NodeId(Seq<char>),
    NodeLabel(Seq<char>),
}

impl View for TokenScope {
    type V = ScopeView;

    open spec fn view(&self) -> ScopeView {
        match self {
            TokenScope::NodeId(id) => ScopeView::NodeId(id@),
            TokenScope::NodeLabel(l) => ScopeView::NodeLabel(l@),
        }
    }
}

/// What scopes hold.
pub open spec fn scope_views(v: Seq<TokenScope>) -> Seq<ScopeView> {
    v.map_values(|s: TokenScope| s@)
}

/// The views of texts that are only lent.
pub open spec fn lent_texts(v: Seq<&str>) -> Seq<Seq<char>> {
    v.map_values(|s: &str| s@)
}

impl ScopeView {
    /// Whether a node with these labels lies in the scope.
    pub open spec fn takes_in(self, node_id: Seq<char>, labels: Seq<Seq<char>>) -> bool {
        match self {
            ScopeView::NodeId(id) => id == node_id,
            ScopeView::NodeLabel(l) => labels.contains(l),
        }
    }
}

/// Whether a node lies in one of the scopes; without scopes every node does.
pub open spec fn in_scopes(
    scopes: Seq<ScopeView>,
    node_id: Seq<char>,
    labels: Seq<Seq<char>>,
) -> bool {
    scopes.len() == 0 || exists|i: int|
        0 <= i < scopes.len() && (#[trigger] scopes[i]).takes_in(node_id, labels)
}

/// Per-request identity + permissions. Built once for each request, so that guards can
/// ask it.
pub struct Principal {
    pub token_id: i64,
    pub operator_id: Option<i64>,
    pub tenant_id: i64,
    /// Stable text identifier for the tenant (e.g. `"default"`). Carried
    /// alongside the numeric id because some records hold the slug instead.
    pub tenant_slug: String,
    /// Human-readable identity of the caller, for audit attribution.
    /// `operator:<username>` for a session token tied to an operator account,
    /// `token:<name>` for a static API token, or the id in place of a name that
    /// is not on record.
    pub actor: String,
    pub permissions: PermissionSet,
    pub scopes: Vec<TokenScope>,
}

impl Principal {
    /// The grants of the principal.
    pub open spec fn granted(self) -> Set<PermissionView> {
        self.permissions@
    }

    /// A static token's principal with the given permissions, to exercise guards with.
    pub fn from_test_parts(permissions: PermissionSet) -> (p: Self)
        ensures
            p.token_id == 0,
            p.operator_id is None,
            p.tenant_id == 1,
            p.tenant_slug@ == "default"@,
            p.actor@ == "token:test"@,
            p.granted() == permissions@,
            p.scopes@.len() == 0,
    {
        Principal {
            token_id: 0,
            operator_id: None,
            tenant_id: 1,
            tenant_slug: "default".to_string(),
            actor: "token:test".to_string(),
            permissions,
            scopes: Vec::new(),
        }
    }

    /// A principal that may do everything, to exercise guarded resolvers with.
    pub fn test_admin() -> (p: Self)
        ensures
            p.token_id == 0,
            p.operator_id is None,
            p.tenant_id == 1,
            p.tenant_slug@ == "default"@,
            p.actor@ == "operator:test-admin"@,
            p.granted() == Set::<PermissionView>::empty().insert(
                PermissionView { resource: "*"@, verb: "*"@ },
            ),
            p.scopes@.len() == 0,
    {
        let mut permissions = PermissionSet::new();
        permissions.insert(Permission { resource: "*".to_string(), verb: "*".to_string() });
        Principal {
            token_id: 0,
            operator_id: None,
            tenant_id: 1,
            tenant_slug: "default".to_string(),
            actor: "operator:test-admin".to_string(),
            permissions,
            scopes: Vec::new(),
        }
    }

    pub fn allows(&self, required: &Permission) -> (r: bool)
        ensures
            r == grants(self.granted(), required@),
    {
        self.permissions.any_satisfies(required)
    }

    pub fn permissions(&self) -> (s: &PermissionSet)
        ensures
            s@ == self.granted(),
    {
        &self.permissions
    }

    /// Filter helper for resolvers that take a `node_id`: returns true when
    /// the principal has no scopes (unscoped) or when one of its scopes
    /// matches the supplied id or any of the supplied labels.
    pub fn allows_node(&self, node_id: &str, labels: &[&str]) -> (r: bool)
        ensures
            r == in_scopes(scope_views(self.scopes@), node_id@, lent_texts(labels@)),
    {
        if self.scopes.len() == 0 {
            return true;
        }
        let ghost scopes = scope_views(self.scopes@);
        let mut i: usize = 0;
        while i < self.scopes.len()
            invariant
                i <= self.scopes@.len(),
                scopes == scope_views(self.scopes@),
                forall|j: int|
                    0 <= j < i ==> !(#[trigger] scopes[j]).takes_in(node_id@, lent_texts(labels@)),
            decreases self.scopes@.len() - i,
        {
            assert(scopes[i as int] == self.scopes@[i as int]@);
            let hit: bool = match &self.scopes[i] {
                TokenScope::NodeId(id) => text::same(id.as_str(), node_id),
                TokenScope::NodeLabel(l) => has_label(labels, l.as_str()),
            };
            if hit {
                return true;
            }
            i = i + 1;
        }
        false
    }
}

/// Whether the label is one of the labels.
fn has_label(labels: &[&str], label: &str) -> (r: bool)
    ensures
        r == lent_texts(labels@).contains(label@),
{
    let mut i: usize = 0;
    while i < labels.len()
        invariant
            i <= labels@.len(),
            forall|j: int| 0 <= j < i ==> #[trigger] lent_texts(labels@)[j] != label@,
        decreases labels@.len() - i,
    {
        assert(lent_texts(labels@)[i as int] == labels@[i as int]@);
        if text::same(labels[i], label) {
            return true;
        }
        i = i + 1;
    }
    false
}

/// Display-friendly row of a role.
pub struct RoleRow {
    pub id: i64,
    pub name: String,
    pub description: Option<String>,
    pub built_in: bool,
}

/// The permissions that grants on record stand for; where one is not valid, the first
/// such.
pub open spec fn read_grants(rows: Seq<Seq<char>>) -> Result<Set<PermissionView>, Seq<char>>
    decreases rows.len(),
{
    if rows.len() == 0 {
        Ok(Set::empty())
    } else {
        match read_grants(rows.drop_last()) {
            Err(s) => Err(s),
            Ok(earlier) => match read_permission(rows.last()) {
                PermissionReading::Permission(p) => Ok(earlier.insert(p)),
                _ => Err(rows.last()),
            },
        }
    }
}

/// Whether the error is that of an invalid permission.
pub open spec fn rejects_grant(e: RbacError, s: Seq<char>) -> bool {
    match e {
        RbacError::NoSeparator(t) => t@ == s && read_permission(s) is NoSeparator,
        RbacError::EmptyHalf(t) => t@ == s && read_permission(s) is EmptyHalf,
        _ => false,
    }
}

/// An invalid grant among the first makes all of them invalid.
proof fn lemma_first_invalid(rows: Seq<Seq<char>>, n: int)
    requires
        0 <= n <= rows.len(),
        read_grants(rows.take(n)) is Err,
    ensures
        read_grants(rows) == read_grants(rows.take(n)),
    decreases rows.len(),
{
    if n == rows.len() {
        assert(rows.take(n) =~= rows);
    } else {
        assert(rows.drop_last().take(n) =~= rows.take(n));
        lemma_first_invalid(rows.drop_last(), n);
    }
}

/// The permissions that grants on record stand for.
pub fn rows_to_perms(rows: &Vec<String>) -> (r: Result<PermissionSet, RbacError>)
    ensures
        match read_grants(text::texts(rows@)) {
            Ok(perms) => r matches Ok(s) && s@ == perms,
            Err(s) => r matches Err(e) && rejects_grant(e, s),
        },
{
    let ghost all = text::texts(rows@);
    let mut out = PermissionSet::new();
    let mut i: usize = 0;
    assert(all.take(0) =~= Seq::<Seq<char>>::empty());
    while i < rows.len()
        invariant
            i <= rows@.len(),
            all == text::texts(rows@),
            read_grants(all.take(i as int)) == Ok::<Set<PermissionView>, Seq<char>>(out@),
        decreases rows@.len() - i,
    {
        proof {
            assert(all.take(i + 1).drop_last() =~= all.take(i as int));
            assert(all.take(i + 1).last() == rows@[i as int]@);
        }
        match Permission::parse(rows[i].as_str()) {
            Ok(p) => out.insert(p),
            Err(e) => {
                proof {
                    lemma_first_invalid(all, i + 1);
                }
                return Err(e);
            },
        }
        i = i + 1;
    }
    assert(all.take(i as int) =~= all);
    Ok(out)
}

/// The scope that a row stands for.
pub open spec fn read_scope(kind: Seq<char>, value: Seq<char>) -> Option<ScopeView> {
    if kind == "node_id"@ {
        Some(ScopeView::NodeId(value))
    } else if kind == "node_label"@ {
        Some(ScopeView::NodeLabel(value))
    } else {
        None
    }
}

/// The scopes that rows stand for; where one is of no known type, the first such type.
pub open spec fn read_scopes(rows: Seq<(String, String)>) -> Result<Seq<ScopeView>, Seq<char>>
    decreases rows.len(),
{
    if rows.len() == 0 {
        Ok(Seq::empty())
    } else {
        match read_scopes(rows.drop_last()) {
            Err(t) => Err(t),
            Ok(earlier) => match read_scope(rows.last().0@, rows.last().1@) {
                Some(s) => Ok(earlier.push(s)),
                None => Err(rows.last().0@),
            },
        }
    }
}

/// An unknown type among the first makes all rows invalid.
proof fn lemma_first_unknown(rows: Seq<(String, String)>, n: int)
    requires
        0 <= n <= rows.len(),
        read_scopes(rows.take(n)) is Err,
    ensures
        read_scopes(rows) == read_scopes(rows.take(n)),
    decreases rows.len(),
{
    if n == rows.len() {
        assert(rows.take(n) =~= rows);
    } else {
        assert(rows.drop_last().take(n) =~= rows.take(n));
        lemma_first_unknown(rows.drop_last(), n);
    }
}

/// The scopes that rows stand for.
pub fn rows_to_scopes(rows: &Vec<(String, String)>) -> (r: Result<Vec<TokenScope>, RbacError>)
    ensures
        match read_scopes(rows@) {
            Ok(scopes) => r matches Ok(v) && scope_views(v@) == scopes,
            Err(t) => r matches Err(RbacError::UnknownScopeType(x)) && x@ == t,
        },
{
    let mut out: Vec<TokenScope> = Vec::new();
    let mut i: usize = 0;
    assert(rows@.take(0) =~= Seq::<(String, String)>::empty());
    assert(scope_views(out@) =~= Seq::<ScopeView>::empty());
    while i < rows.len()
        invariant
            i <= rows@.len(),
            read_scopes(rows@.take(i as int)) == Ok::<Seq<ScopeView>, Seq<char>>(
                scope_views(out@),
            ),
        decreases rows@.len() - i,
    {
        let ghost before = scope_views(out@);
        proof {
            assert(rows@.take(i + 1).drop_last() =~= rows@.take(i as int));
            assert(rows@.take(i + 1).last() == rows@[i as int]);
        }
        let (kind, value) = &rows[i];
        if text::same(kind.as_str(), "node_id") {
            out.push(TokenScope::NodeId(value.clone()));
        } else if text::same(kind.as_str(), "node_label") {
            out.push(TokenScope::NodeLabel(value.clone()));
        } else {
            proof {
                lemma_first_unknown(rows@, i + 1);
            }
            return Err(RbacError::UnknownScopeType(kind.clone()));
        }
        assert(scope_views(out@) =~= before.push(out@[before.len() as int]@));
        i = i + 1;
    }
    assert(rows@.take(i as int) =~= rows@);
    Ok(out)
}

/// Looks whether scopes that are to be bound to a token are of known types; the first
/// that is not is refused.
pub fn check_scopes(scopes: &Vec<(String, String)>) -> (r: Result<(), RbacError>)
    ensures
        match read_scopes(scopes@) {
            Ok(_) => r is Ok,
            Err(t) => r matches Err(RbacError::InvalidScopeType(x)) && x@ == t,
        },
{
    match rows_to_scopes(scopes) {
        Ok(_) => Ok(()),
        Err(RbacError::UnknownScopeType(t)) => Err(RbacError::InvalidScopeType(t)),
        Err(e) => Err(e),
    }
}

/// Whether each of the roles is one of those of a tenant.
pub open spec fn roles_belong(role_ids: Seq<i64>, tenant_roles: Seq<i64>) -> bool {
    forall|i: int| 0 <= i < role_ids.len() ==> tenant_roles.contains(#[trigger] role_ids[i])
}

/// Looks whether all roles belong to a tenant, given the roles that do; the first that
/// does not is refused.
pub fn validate_role_ids_for_tenant(tenant_id: i64, role_ids: &[i64], tenant_roles: &[i64]) -> (r:
    Result<(), RbacError>)
    ensures
        r is Ok <==> roles_belong(role_ids@, tenant_roles@),
        match r {
            Ok(()) => forall|i: int|
                0 <= i < role_ids@.len() ==> tenant_roles@.contains(#[trigger] role_ids@[i]),
            Err(RbacError::ForeignRole { role_id, tenant_id: t }) => t == tenant_id && exists|
                i: int,
            |
                {
                    &&& 0 <= i < role_ids@.len()
                    &&& #[trigger] role_ids@[i] == role_id
                    &&& !tenant_roles@.contains(role_id)
                    &&& forall|j: int|
                        0 <= j < i ==> tenant_roles@.contains(#[trigger] role_ids@[j])
                },
            Err(_) => false,
        },
{
    let mut i: usize = 0;
    while i < role_ids.len()
        invariant
            i <= role_ids@.len(),
            forall|j: int| 0 <= j < i ==> tenant_roles@.contains(#[trigger] role_ids@[j]),
        decreases role_ids@.len() - i,
    {
        if !has_id(tenant_roles, role_ids[i]) {
            return Err(RbacError::ForeignRole { role_id: role_ids[i], tenant_id });
        }
        i = i + 1;
    }
    Ok(())
}

/// Whether the id is one of the ids.
fn has_id(ids: &[i64], id: i64) -> (r: bool)
    ensures
        r == ids@.contains(id),
{
    let mut i: usize = 0;
    while i < ids.len()
        invariant
            i <= ids@.len(),
            forall|j: int| 0 <= j < i ==> ids@[j] != id,
        decreases ids@.len() - i,
    {
        if ids[i] == id {
            return true;
        }
        i = i + 1;
    }
    false
}

/// What is on record for an operator.
pub enum OperatorFacts {
    /// There is no such operator.
    Missing,
    Disabled { username: String },
    /// The grants are those of the operator's roles.
    Enabled { username: String, grants: Vec<String> },
}

/// What is on record for a token.
pub struct TokenFacts {
    pub token_id: i64,
    pub tenant_id: i64,
    /// The name of the token, if it is on record.
    pub name: Option<String>,
    /// The grants of the token's roles.
    pub grants: Vec<String>,
    /// The operator behind a session token, and the id of that account.
    pub operator: Option<(i64, OperatorFacts)>,
    /// The scopes of the token: type and value.
    pub scopes: Vec<(String, String)>,
    /// The slug of the tenant, if the tenant is on record.
    pub tenant_slug: Option<String>,
}

/// The effective permissions, or the first grant that is not valid. Those of a session
/// token are limited to those of its operator, and gone when the operator is.
pub open spec fn effective(f: TokenFacts) -> Result<Set<PermissionView>, Seq<char>> {
    match read_grants(text::texts(f.grants@)) {
        Err(s) => Err(s),
        Ok(own) => match f.operator {
            None => Ok(own),
            Some((_, OperatorFacts::Enabled { grants: theirs, .. })) => match read_grants(
                text::texts(theirs@),
            ) {
                Err(s) => Err(s),
                Ok(op) => Ok(own.intersect(op)),
            },
            Some((_, _)) => Ok(Set::empty()),
        },
    }
}

/// Who a token acts for.
pub open spec fn actor_of(f: TokenFacts) -> Seq<char> {
    match f.operator {
        Some((_, OperatorFacts::Enabled { username, .. })) => "operator:"@ + username@,
        Some((_, OperatorFacts::Disabled { username })) => "operator:"@ + username@,
        Some((id, OperatorFacts::Missing)) => "operator:"@ + text::decimal_int(id as int),
        None => match f.name {
            Some(n) => "token:"@ + n@,
            None => "token:"@ + text::decimal_int(f.token_id as int),
        },
    }
}

/// Build the principal for an authenticated token from what is on record for it. The
/// caller has already validated the token (not revoked, not expired).
pub fn resolve(f: TokenFacts) -> (r: Result<Principal, RbacError>)
    ensures
        match effective(f) {
            Err(s) => r matches Err(e) && rejects_grant(e, s),
            Ok(perms) => match read_scopes(f.scopes@) {
                Err(t) => r matches Err(RbacError::UnknownScopeType(x)) && x@ == t,
                Ok(scopes) => match f.tenant_slug {
                    None => r matches Err(RbacError::NoTenant(id)) && id == f.tenant_id,
                    Some(slug) => {
                        &&& r matches Ok(p)
                        &&& p.token_id == f.token_id
                        &&& p.operator_id == (match f.operator {
                            Some((id, _)) => Some(id),
                            None => None,
                        })
                        &&& p.tenant_id == f.tenant_id
                        &&& p.tenant_slug == slug
                        &&& p.actor@ == actor_of(f)
                        &&& p.granted() == perms
                        &&& scope_views(p.scopes@) == scopes
                    },
                },
            },
        },
{
    let token_perms = match rows_to_perms(&f.grants) {
        Ok(s) => s,
        Err(e) => {
            return Err(e);
        },
    };
    let permissions: PermissionSet = match &f.operator {
        None => token_perms,
        Some((_, OperatorFacts::Enabled { grants: theirs, .. })) => {
            match rows_to_perms(theirs) {
                Ok(op_perms) => token_perms.intersection(&op_perms),
                Err(e) => {
                    return Err(e);
                },
            }
        },
        // A disabled operator, or one that is gone, drops the permissions to none.
        Some((_, _)) => PermissionSet::new(),
    };
    let scopes = match rows_to_scopes(&f.scopes) {
        Ok(v) => v,
        Err(e) => {
            return Err(e);
        },
    };
    let tenant_slug = match f.tenant_slug {
        Some(slug) => slug,
        None => {
            return Err(RbacError::NoTenant(f.tenant_id));
        },
    };
    // Human-readable identity for audit attribution. Prefer the operator
    // account behind a session token; fall back to the static token's
    // name, then its id.
    let actor: String = match &f.operator {
        Some((_, OperatorFacts::Enabled { username, .. })) => text::concat2(
            "operator:",
            username.as_str(),
        ),
        Some((_, OperatorFacts::Disabled { username })) => text::concat2(
            "operator:",
            username.as_str(),
        ),
        Some((id, OperatorFacts::Missing)) => text::concat2(
            "operator:",
            text::i64_text(*id).as_str(),
        ),
        None => match &f.name {
            Some(n) => text::concat2("token:", n.as_str()),
            None => text::concat2("token:", text::i64_text(f.token_id).as_str()),
        },
    };
    let operator_id: Option<i64> = match &f.operator {
        Some((id, _)) => Some(*id),
        None => None,
    };
    Ok(
        Principal {
            token_id: f.token_id,
            operator_id,
            tenant_id: f.tenant_id,
            tenant_slug,
            actor,
            permissions,
            scopes,
        },
    )
}

/// The roles that every tenant has.
#[derive(Clone, Copy, PartialEq, Eq, Structural, Debug)]
pub enum BuiltInRole {
    Admin,
    Operator,
    Viewer,
    SecurityAdmin,
    Auditor,
    Service,
}

impl BuiltInRole {
    /// The name of the role.
    pub open spec fn name(self) -> Seq<char> {
        match self {
            BuiltInRole::Admin => "admin"@,
            BuiltInRole::Operator => "operator"@,
            BuiltInRole::Viewer => "viewer"@,
            BuiltInRole::SecurityAdmin => "security-admin"@,
            BuiltInRole::Auditor => "auditor"@,
            BuiltInRole::Service => "service"@,
        }
    }

    /// What the role is for.
    pub open spec fn purpose(self) -> Seq<char> {
        match self {
            BuiltInRole::Admin => "Full access to everything in the tenant."@,
            BuiltInRole::Operator => "Day-to-day fleet operations: nodes, rules, alerts, enrollment."@,
            BuiltInRole::Viewer => "Read-only access to everything except event payloads."@,
            BuiltInRole::SecurityAdmin => "Operator plus IAM and token management."@,
            BuiltInRole::Auditor => "Read-only, including event payloads, for compliance investigations."@,
            BuiltInRole::Service => "Empty starter role for API tokens; grant additional roles explicitly."@,
        }
    }

    /// The grants of the role.
    pub open spec fn grant_texts(self) -> Seq<Seq<char>> {
        match self {
            BuiltInRole::Admin => seq![
                "*:*"@,
            ],
            BuiltInRole::Operator => seq![
                "node:read"@,
                "node:write"@,
                "node:delete"@,
                "rule:read"@,
                "rule:write"@,
                "rule:delete"@,
                "interface:read"@,
                "interface:write"@,
                "enrollment:read"@,
                "enrollment:write"@,
                "enrollment:delete"@,
                "alert:read"@,
                "alert:write"@,
                "alert:delete"@,
                "event:read"@,
                "event:delete"@,
                "audit:read"@,
                "token:read"@,
                "tenant:read"@,
            ],
            BuiltInRole::Viewer => seq![
                "node:read"@,
                "rule:read"@,
                "interface:read"@,
                "enrollment:read"@,
                "alert:read"@,
                "event:read"@,
                "audit:read"@,
                "token:read"@,
                "tenant:read"@,
            ],
            BuiltInRole::SecurityAdmin => seq![
                "node:read"@,
                "node:write"@,
                "node:delete"@,
                "rule:read"@,
                "rule:write"@,
                "rule:delete"@,
                "interface:read"@,
                "interface:write"@,
                "enrollment:read"@,
                "enrollment:write"@,
                "enrollment:delete"@,
                "alert:read"@,
                "alert:write"@,
                "alert:delete"@,
                "event:read"@,
                "event:delete"@,
                "audit:read"@,
                "token:read"@,
                "token:write"@,
                "token:delete"@,
                "iam:read"@,
                "iam:write"@,
                "iam:delete"@,
                "tenant:read"@,
            ],
            BuiltInRole::Auditor => seq![
                "node:read"@,
                "rule:read"@,
                "interface:read"@,
                "enrollment:read"@,
                "alert:read"@,
                "event:read"@,
                "event:read-payload"@,
                "audit:read"@,
                "token:read"@,
                "iam:read"@,
                "tenant:read"@,
            ],
            BuiltInRole::Service => Seq::empty(),
        }
    }

    pub fn as_str(self) -> (s: &'static str)
        ensures
            s@ == self.name(),
    {
        match self {
            BuiltInRole::Admin => "admin",
            BuiltInRole::Operator => "operator",
            BuiltInRole::Viewer => "viewer",
            BuiltInRole::SecurityAdmin => "security-admin",
            BuiltInRole::Auditor => "auditor",
            BuiltInRole::Service => "service",
        }
    }

    pub fn description(self) -> (s: &'static str)
        ensures
            s@ == self.purpose(),
    {
        match self {
            BuiltInRole::Admin => "Full access to everything in the tenant.",
            BuiltInRole::Operator => "Day-to-day fleet operations: nodes, rules, alerts, enrollment.",
            BuiltInRole::Viewer => "Read-only access to everything except event payloads.",
            BuiltInRole::SecurityAdmin => "Operator plus IAM and token management.",
            BuiltInRole::Auditor => "Read-only, including event payloads, for compliance investigations.",
            BuiltInRole::Service => "Empty starter role for API tokens; grant additional roles explicitly.",
        }
    }

    /// Permission grants for this role, with which a tenant's roles are seeded.
    pub fn permissions(self) -> (v: Vec<&'static str>)
        ensures
            lent_texts(v@) == self.grant_texts(),
    {
        let v: Vec<&'static str> = match self {
            BuiltInRole::Admin => vec![
                "*:*",
            ],
            BuiltInRole::Operator => vec![
                "node:read",
                "node:write",
                "node:delete",
                "rule:read",
                "rule:write",
                "rule:delete",
                "interface:read",
                "interface:write",
                "enrollment:read",
                "enrollment:write",
                "enrollment:delete",
                "alert:read",
                "alert:write",
                "alert:delete",
                "event:read",
                "event:delete",
                "audit:read",
                "token:read",
                "tenant:read",
            ],
            BuiltInRole::Viewer => vec![
                "node:read",
                "rule:read",
                "interface:read",
                "enrollment:read",
                "alert:read",
                "event:read",
                "audit:read",
                "token:read",
                "tenant:read",
            ],
            BuiltInRole::SecurityAdmin => vec![
                "node:read",
                "node:write",
                "node:delete",
                "rule:read",
                "rule:write",
                "rule:delete",
                "interface:read",
                "interface:write",
                "enrollment:read",
                "enrollment:write",
                "enrollment:delete",
                "alert:read",
                "alert:write",
                "alert:delete",
                "event:read",
                "event:delete",
                "audit:read",
                "token:read",
                "token:write",
                "token:delete",
                "iam:read",
                "iam:write",
                "iam:delete",
                "tenant:read",
            ],
            BuiltInRole::Auditor => vec![
                "node:read",
                "rule:read",
                "interface:read",
                "enrollment:read",
                "alert:read",
                "event:read",
                "event:read-payload",
                "audit:read",
                "token:read",
                "iam:read",
                "tenant:read",
            ],
            BuiltInRole::Service => Vec::new(),
        };
        assert(lent_texts(v@) =~= self.grant_texts());
        v
    }

    /// All built-in roles, in the order in which a tenant is seeded with them.
    pub fn all() -> (v: Vec<BuiltInRole>)
        ensures
            v@ == seq![
                BuiltInRole::Admin,
                BuiltInRole::Operator,
                BuiltInRole::Viewer,
                BuiltInRole::SecurityAdmin,
                BuiltInRole::Auditor,
                BuiltInRole::Service,
            ],
            forall|r: BuiltInRole| v@.contains(r),
            v@.no_duplicates(),
    {
        let v: Vec<BuiltInRole> = vec![
            BuiltInRole::Admin,
            BuiltInRole::Operator,
            BuiltInRole::Viewer,
            BuiltInRole::SecurityAdmin,
            BuiltInRole::Auditor,
            BuiltInRole::Service,
        ];
        proof {
            assert forall|r: BuiltInRole| v@.contains(r) by {
                let i: int = match r {
                    BuiltInRole::Admin => 0,
                    BuiltInRole::Operator => 1,
                    BuiltInRole::Viewer => 2,
                    BuiltInRole::SecurityAdmin => 3,
                    BuiltInRole::Auditor => 4,
                    BuiltInRole::Service => 5,
                };
                assert(v@[i] == r);
            }
        }
        v
    }
}

/// Guard that requires a specific permission on the request's [`Principal`].
pub struct Require(Permission);

impl Require {
    /// The permission that is required.
    pub closed spec fn required(self) -> PermissionView {
        self.0@
    }

    pub fn new(literal: &'static str) -> (r: Self)
        requires
            read_permission(literal@) is Permission,
        ensures
            read_permission(literal@) == PermissionReading::Permission(r.required()),
    {
        Require(Permission::new(literal))
    }

    /// Lets the principal of a request pass where it has the permission.
    pub fn check(&self, principal: Option<&Principal>) -> (r: Result<(), String>)
        ensures
            match principal {
                None => r matches Err(e) && e@ == "unauthenticated"@,
                Some(p) => if grants(p.granted(), self.required()) {
                    r is Ok
                } else {
                    r matches Err(e) && e@ == "forbidden: requires "@ + self.required().resource
                        + ":"@ + self.required().verb
                },
            },
    {
        match principal {
            None => Err("unauthenticated".to_string()),
            Some(p) => if p.allows(&self.0) {
                Ok(())
            } else {
                Err(
                    text::concat4(
                        "forbidden: requires ",
                        self.0.resource_str(),
                        ":",
                        self.0.verb_str(),
                    ),
                )
            },
        }
    }
}

/// A literal may be used as a permission just when parsing it succeeds, and it is then what
/// parsing gives.
pub proof fn literal_is_what_parsing_gives(
    s: Seq<char>,
    p: Permission,
    r: Result<Permission, RbacError>,
)
    requires
        parses(s, r),
    ensures
        is_permission(s) <==> r is Ok,
        made_of(s, p) ==> r is Ok && r->Ok_0@ == p@,
{
}

/// The text of a permission is read as the permission.
pub proof fn permission_is_read_back(p: PermissionView)
    requires
        p.resource.len() > 0,
        p.verb.len() > 0,
        !p.resource.contains(':'),
    ensures
        read_permission(p.resource + seq![':'] + p.verb) == PermissionReading::Permission(p),
{
    let s = p.resource + seq![':'] + p.verb;
    let n = p.resource.len() as int;
    assert(s[n] == ':');
    assert forall|j: int| 0 <= j < n implies s[j] != ':' by {
        assert(s[j] == p.resource[j]);
    }
    text::lemma_find_some(s, ':', n);
    assert(s.take(n) =~= p.resource);
    assert(s.skip(n + 1) =~= p.verb);
}

/// A grant satisfies itself.
pub proof fn satisfies_reflexive(p: PermissionView)
    ensures
        p.satisfies(p),
{
}

/// The wildcard on both sides satisfies everything.
pub proof fn wildcard_satisfies_all(required: PermissionView)
    ensures
        (PermissionView { resource: "*"@, verb: "*"@ }).satisfies(required),
{
}

/// Grants of which each is a permission can all be read.
proof fn lemma_all_readable(rows: Seq<Seq<char>>)
    requires
        forall|i: int|
            0 <= i < rows.len() ==> read_permission(#[trigger] rows[i]) is Permission,
    ensures
        read_grants(rows) is Ok,
    decreases rows.len(),
{
    if rows.len() > 0 {
        assert forall|i: int| 0 <= i < rows.drop_last().len() implies read_permission(
            #[trigger] rows.drop_last()[i],
        ) is Permission by {
            assert(rows.drop_last()[i] == rows[i]);
        }
        lemma_all_readable(rows.drop_last());
        assert(rows.last() == rows[rows.len() - 1]);
    }
}

/// Whether a text is the permission to do something to a resource.
spec fn says(s: Seq<char>, resource: Seq<char>, verb: Seq<char>) -> bool {
    read_permission(s) == PermissionReading::Permission(PermissionView { resource, verb })
}

/// A resource and a verb with a colon between them are a permission.
proof fn lemma_says(s: Seq<char>, resource: Seq<char>, verb: Seq<char>)
    requires
        s =~= resource + seq![':'] + verb,
        resource.len() > 0,
        verb.len() > 0,
        forall|i: int| 0 <= i < resource.len() ==> #[trigger] resource[i] != ':',
    ensures
        says(s, resource, verb),
{
    permission_is_read_back(PermissionView { resource, verb });
}

/// The permissions that built-in roles grant.
#[verifier::rlimit(60)]
proof fn lemma_built_in_literals()
    ensures
        says("*:*"@, "*"@, "*"@),
        says("alert:delete"@, "alert"@, "delete"@),
        says("alert:read"@, "alert"@, "read"@),
        says("alert:write"@, "alert"@, "write"@),
        says("audit:read"@, "audit"@, "read"@),
        says("enrollment:delete"@, "enrollment"@, "delete"@),
        says("enrollment:read"@, "enrollment"@, "read"@),
        says("enrollment:write"@, "enrollment"@, "write"@),
        says("event:delete"@, "event"@, "delete"@),
        says("event:read"@, "event"@, "read"@),
        says("event:read-payload"@, "event"@, "read-payload"@),
        says("iam:delete"@, "iam"@, "delete"@),
        says("iam:read"@, "iam"@, "read"@),
        says("iam:write"@, "iam"@, "write"@),
        says("interface:read"@, "interface"@, "read"@),
        says("interface:write"@, "interface"@, "write"@),
        says("node:delete"@, "node"@, "delete"@),
        says("node:read"@, "node"@, "read"@),
        says("node:write"@, "node"@, "write"@),
        says("rule:delete"@, "rule"@, "delete"@),
        says("rule:read"@, "rule"@, "read"@),
        says("rule:write"@, "rule"@, "write"@),
        says("tenant:read"@, "tenant"@, "read"@),
        says("token:delete"@, "token"@, "delete"@),
        says("token:read"@, "token"@, "read"@),
        says("token:write"@, "token"@, "write"@),
{
    reveal_strlit("*");
    reveal_strlit("alert");
    reveal_strlit("audit");
    reveal_strlit("delete");
    reveal_strlit("enrollment");
    reveal_strlit("event");
    reveal_strlit("iam");
    reveal_strlit("interface");
    reveal_strlit("node");
    reveal_strlit("read");
    reveal_strlit("read-payload");
    reveal_strlit("rule");
    reveal_strlit("tenant");
    reveal_strlit("token");
    reveal_strlit("write");
    reveal_strlit("*:*");
    lemma_says("*:*"@, "*"@, "*"@);
    reveal_strlit("alert:delete");
    lemma_says("alert:delete"@, "alert"@, "delete"@);
    reveal_strlit("alert:read");
    lemma_says("alert:read"@, "alert"@, "read"@);
    reveal_strlit("alert:write");
    lemma_says("alert:write"@, "alert"@, "write"@);
    reveal_strlit("audit:read");
    lemma_says("audit:read"@, "audit"@, "read"@);
    reveal_strlit("enrollment:delete");
    lemma_says("enrollment:delete"@, "enrollment"@, "delete"@);
    reveal_strlit("enrollment:read");
    lemma_says("enrollment:read"@, "enrollment"@, "read"@);
    reveal_strlit("enrollment:write");
    lemma_says("enrollment:write"@, "enrollment"@, "write"@);
    reveal_strlit("event:delete");
    lemma_says("event:delete"@, "event"@, "delete"@);
    reveal_strlit("event:read");
    lemma_says("event:read"@, "event"@, "read"@);
    reveal_strlit("event:read-payload");
    lemma_says("event:read-payload"@, "event"@, "read-payload"@);
    reveal_strlit("iam:delete");
    lemma_says("iam:delete"@, "iam"@, "delete"@);
    reveal_strlit("iam:read");
    lemma_says("iam:read"@, "iam"@, "read"@);
    reveal_strlit("iam:write");
    lemma_says("iam:write"@, "iam"@, "write"@);
    reveal_strlit("interface:read");
    lemma_says("interface:read"@, "interface"@, "read"@);
    reveal_strlit("interface:write");
    lemma_says("interface:write"@, "interface"@, "write"@);
    reveal_strlit("node:delete");
    lemma_says("node:delete"@, "node"@, "delete"@);
    reveal_strlit("node:read");
    lemma_says("node:read"@, "node"@, "read"@);
    reveal_strlit("node:write");
    lemma_says("node:write"@, "node"@, "write"@);
    reveal_strlit("rule:delete");
    lemma_says("rule:delete"@, "rule"@, "delete"@);
    reveal_strlit("rule:read");
    lemma_says("rule:read"@, "rule"@, "read"@);
    reveal_strlit("rule:write");
    lemma_says("rule:write"@, "rule"@, "write"@);
    reveal_strlit("tenant:read");
    lemma_says("tenant:read"@, "tenant"@, "read"@);
    reveal_strlit("token:delete");
    lemma_says("token:delete"@, "token"@, "delete"@);
    reveal_strlit("token:read");
    lemma_says("token:read"@, "token"@, "read"@);
    reveal_strlit("token:write");
    lemma_says("token:write"@, "token"@, "write"@);
}

/// The grants of the built-in roles can be read: a tenant's own roles never stand in the
/// way of resolving a principal.
pub proof fn built_in_grants_are_valid(role: BuiltInRole)
    ensures
        read_grants(role.grant_texts()) is Ok,
{
    lemma_built_in_literals();
    lemma_all_readable(role.grant_texts());
}

/// What grants stand for is what each of them says.
proof fn lemma_granted(rows: Seq<Seq<char>>)
    requires
        read_grants(rows) is Ok,
    ensures
        forall|p: PermissionView| #[trigger]
            read_grants(rows)->Ok_0.contains(p) <==> exists|i: int|
                0 <= i < rows.len() && read_permission(#[trigger] rows[i])
                    == PermissionReading::Permission(p),
    decreases rows.len(),
{
    if rows.len() > 0 {
        let front = rows.drop_last();
        lemma_granted(front);
        assert forall|p: PermissionView| #[trigger]
            read_grants(rows)->Ok_0.contains(p) <==> exists|i: int|
                0 <= i < rows.len() && read_permission(#[trigger] rows[i])
                    == PermissionReading::Permission(p) by {
            if read_grants(front)->Ok_0.contains(p) {
                let i = choose|i: int|
                    0 <= i < front.len() && read_permission(#[trigger] front[i])
                        == PermissionReading::Permission(p);
                assert(rows[i] == front[i]);
            }
            assert(rows[rows.len() - 1] == rows.last());
            if exists|i: int|
                0 <= i < rows.len() && read_permission(#[trigger] rows[i])
                    == PermissionReading::Permission(p) {
                let i = choose|i: int|
                    0 <= i < rows.len() && read_permission(#[trigger] rows[i])
                        == PermissionReading::Permission(p);
                if i < rows.len() - 1 {
                    assert(front[i] == rows[i]);
                }
            }
        }
    }
}

/// What a built-in role grants.
pub open spec fn role_grants(role: BuiltInRole, required: PermissionView) -> bool {
    grants(read_grants(role.grant_texts())->Ok_0, required)
}

/// Only an admin and an auditor may read the payloads of events.
pub proof fn payloads_are_for_admin_and_auditor(role: BuiltInRole)
    ensures
        role_grants(role, PermissionView { resource: "event"@, verb: "read-payload"@ })
            <==> role is Admin || role is Auditor,
{
    let need = PermissionView { resource: "event"@, verb: "read-payload"@ };
    let rows = role.grant_texts();
    lemma_built_in_literals();
    built_in_grants_are_valid(role);
    lemma_granted(rows);
    reveal_strlit("read-payload");
    reveal_strlit("read");
    reveal_strlit("write");
    reveal_strlit("delete");
    reveal_strlit("*");
    if role is Admin {
        let all = PermissionView { resource: "*"@, verb: "*"@ };
        assert(says(rows[0], "*"@, "*"@));
        assert(read_grants(rows)->Ok_0.contains(all) && all.satisfies(need));
    } else if role is Auditor {
        assert(rows[6] == "event:read-payload"@);
        assert(says(rows[6], "event"@, "read-payload"@));
        assert(read_grants(rows)->Ok_0.contains(need) && need.satisfies(need));
    } else if role_grants(role, need) {
        let p = choose|p: PermissionView| #[trigger]
            read_grants(rows)->Ok_0.contains(p) && p.satisfies(need);
        let i = choose|i: int|
            0 <= i < rows.len() && read_permission(#[trigger] rows[i])
                == PermissionReading::Permission(p);
        assert(says(rows[i], p.resource, p.verb));
        assert(p.verb.len() < 7);
        assert(p.verb.len() > 1);
    }
}

/// Only an admin and a security admin may change who may do what.
pub proof fn iam_is_for_admins(role: BuiltInRole)
    ensures
        role_grants(role, PermissionView { resource: "iam"@, verb: "write"@ })
            <==> role is Admin || role is SecurityAdmin,
{
    let need = PermissionView { resource: "iam"@, verb: "write"@ };
    let rows = role.grant_texts();
    lemma_built_in_literals();
    built_in_grants_are_valid(role);
    lemma_granted(rows);
    reveal_strlit("read-payload");
    reveal_strlit("read");
    reveal_strlit("write");
    reveal_strlit("*");
    reveal_strlit("iam");
    reveal_strlit("alert");
    reveal_strlit("audit");
    reveal_strlit("enrollment");
    reveal_strlit("event");
    reveal_strlit("interface");
    reveal_strlit("node");
    reveal_strlit("rule");
    reveal_strlit("tenant");
    reveal_strlit("token");
    if role is Admin {
        let all = PermissionView { resource: "*"@, verb: "*"@ };
        assert(says(rows[0], "*"@, "*"@));
        assert(read_grants(rows)->Ok_0.contains(all) && all.satisfies(need));
    } else if role is SecurityAdmin {
        assert(rows[21] == "iam:write"@);
        assert(says(rows[21], "iam"@, "write"@));
        assert(read_grants(rows)->Ok_0.contains(need) && need.satisfies(need));
    } else if role_grants(role, need) {
        let p = choose|p: PermissionView| #[trigger]
            read_grants(rows)->Ok_0.contains(p) && p.satisfies(need);
        let i = choose|i: int|
            0 <= i < rows.len() && read_permission(#[trigger] rows[i])
                == PermissionReading::Permission(p);
        assert(says(rows[i], p.resource, p.verb));
        assert(p.resource.len() > 3 || (p.resource == "iam"@ && p.verb == "read"@));
    }
}

/// A viewer only reads, and an auditor only reads, payloads too.
pub proof fn viewer_and_auditor_only_read(role: BuiltInRole, p: PermissionView)
    requires
        role is Viewer || role is Auditor,
        read_grants(role.grant_texts())->Ok_0.contains(p),
    ensures
        p.verb == "read"@ || (role is Auditor && p.verb == "read-payload"@),
        p.resource != "*"@,
{
    let rows = role.grant_texts();
    lemma_built_in_literals();
    built_in_grants_are_valid(role);
    lemma_granted(rows);
    reveal_strlit("*");
    reveal_strlit("alert");
    reveal_strlit("audit");
    reveal_strlit("enrollment");
    reveal_strlit("event");
    reveal_strlit("interface");
    reveal_strlit("node");
    reveal_strlit("rule");
    reveal_strlit("tenant");
    reveal_strlit("token");
    reveal_strlit("iam");
    let i = choose|i: int|
        0 <= i < rows.len() && read_permission(#[trigger] rows[i])
            == PermissionReading::Permission(p);
    assert(says(rows[i], p.resource, p.verb));
    assert(p.resource.len() > 1);
}

/// The built-in roles have different names.
pub proof fn role_names_differ(a: BuiltInRole, b: BuiltInRole)
    ensures
        a.name() == b.name() <==> a == b,
{
    reveal_strlit("admin");
    reveal_strlit("operator");
    reveal_strlit("viewer");
    reveal_strlit("security-admin");
    reveal_strlit("auditor");
    reveal_strlit("service");
    if a.name() == b.name() {
        assert(a.name()[0] == b.name()[0]);
        assert(a.name()[1] == b.name()[1]);
        assert(a.name()[2] == b.name()[2]);
    }
}

/// A number by which the grants of the built-in roles can be told apart.
spec fn mark(s: Seq<char>) -> int {
    (s[0] as int) * 1000000 + (s[1] as int) * 1000 + s.len()
}

/// No built-in role grants a permission twice.
#[verifier::rlimit(60)]
pub proof fn grants_are_not_repeated(role: BuiltInRole)
    ensures
        role.grant_texts().no_duplicates(),
{
    let rows = role.grant_texts();
    reveal_strlit("*:*");
    reveal_strlit("alert:delete");
    reveal_strlit("alert:read");
    reveal_strlit("alert:write");
    reveal_strlit("audit:read");
    reveal_strlit("enrollment:delete");
    reveal_strlit("enrollment:read");
    reveal_strlit("enrollment:write");
    reveal_strlit("event:delete");
    reveal_strlit("event:read");
    reveal_strlit("event:read-payload");
    reveal_strlit("iam:delete");
    reveal_strlit("iam:read");
    reveal_strlit("iam:write");
    reveal_strlit("interface:read");
    reveal_strlit("interface:write");
    reveal_strlit("node:delete");
    reveal_strlit("node:read");
    reveal_strlit("node:write");
    reveal_strlit("rule:delete");
    reveal_strlit("rule:read");
    reveal_strlit("rule:write");
    reveal_strlit("tenant:read");
    reveal_strlit("token:delete");
    reveal_strlit("token:read");
    reveal_strlit("token:write");
    assert forall|i: int, j: int| 0 <= i < j < rows.len() implies mark(#[trigger] rows[i]) != mark(
        #[trigger] rows[j],
    ) by {}
}

/// What a session token may do its own roles grant it, and those of its operator too.
pub proof fn session_is_limited_by_operator(
    f: TokenFacts,
    operator_id: i64,
    username: String,
    theirs: Vec<String>,
    required: PermissionView,
)
    requires
        f.operator == Some((operator_id, OperatorFacts::Enabled { username, grants: theirs })),
        effective(f) is Ok,
        grants(effective(f)->Ok_0, required),
    ensures
        grants(read_grants(text::texts(f.grants@))->Ok_0, required),
        grants(read_grants(text::texts(theirs@))->Ok_0, required),
{
    let p = choose|p: PermissionView| #[trigger]
        effective(f)->Ok_0.contains(p) && p.satisfies(required);
    assert(read_grants(text::texts(f.grants@))->Ok_0.contains(p));
    assert(read_grants(text::texts(theirs@))->Ok_0.contains(p));
}

/// A session of a disabled operator may do nothing.
pub proof fn disabled_operator_may_nothing(
    f: TokenFacts,
    operator_id: i64,
    username: String,
    required: PermissionView,
)
    requires
        f.operator == Some((operator_id, OperatorFacts::Disabled { username })),
        effective(f) is Ok,
    ensures
        !grants(effective(f)->Ok_0, required),
{
}

} // verus!
