//! What a controller keeps: nodes, rules, interfaces, tokens, rulesets, alerts
//! and the audit log.

pub mod effect_laws;
pub mod interfaces;
pub mod laws;
pub mod memory;
pub mod model;
pub mod records;
pub mod replacement;

pub use memory::InMemoryControllerStore;
pub use records::{
    AuditEntry, EnrollmentTokenRecord, NewAuditEntry, NewSuricataAlert, NodeInterface, NodeRecord,
    NodeStatus, Rule, SuricataAlertRecord, SuricataRuleFileReport, SuricataRuleset,
};

use crate::crypto;
use crate::json::{self, Json, JsonNumber};
use crate::order::Ranked;
use crate::proto::{AddressReport, InterfaceReport};
use crate::text;
use crate::timestamp::Timestamp;
use model::{AgentInfoView, AlertFilterView, DiffCounts, RedeemView, StoreModel};
use records::{
    AlertView, AuditView, InterfaceView, NewAlertView, NewAuditView, NodeView, RuleFileView, RuleView,
    RulesetView, TokenView,
};
use vstd::prelude::*;

verus! {

broadcast use vstd::string::group_string_axioms;

/// Convert an address list to a JSON string for storage.
pub fn address_reports_to_json(addresses: &[AddressReport]) -> (s: String)
    ensures
        s@ == json::printed_json(model::addresses_json(addresses@)),
{
    let mut items: Vec<Json> = Vec::new();
    let mut i: usize = 0;
    while i < addresses.len()
        invariant
            i <= addresses@.len(),
            items@.len() == i,
            json::items_wf(items@),
            forall|k: int| 0 <= k < i ==> (#[trigger] items@[k])@ == model::address_json(addresses@[k]),
        decreases addresses@.len() - i,
    {
        let a = &addresses[i];
        let mut members: Vec<(String, Json)> = Vec::new();
        proof {
            json::lemma_no_members();
            assert(members@ =~= Seq::<(String, Json)>::empty());
        }
        json::put(&mut members, "address", Json::Str(a.address.clone()));
        json::put(
            &mut members,
            "prefix_len",
            Json::Number(JsonNumber::Unsigned(a.prefix_len as u64)),
        );
        json::put(&mut members, "family", Json::Str(a.family.clone()));
        proof {
            json::lemma_object_view(members);
        }
        items.push(Json::Object(members));
        i = i + 1;
    }
    proof {
        json::lemma_array_view(items);
        assert(json::items_view(items@) =~= addresses@.map_values(
            |a: AddressReport| model::address_json(a),
        ));
    }
    json::print(Json::Array(items))
}

/// The tenant of everything that was given no other.
pub fn default_tenant() -> (s: String)
    ensures
        s@ == "default"@,
{
    "default".to_string()
}

/// Outcome of attempting to redeem a token.
pub enum TokenRedeemOutcome {
    /// Redemption succeeded. `fleet_label` is the label for the node, if the token
    /// carries one; `tenant_id` is the slug the token was minted under.
    Redeemed { fleet_label: Option<String>, tenant_id: String },
    /// Token does not exist.
    Unknown,
    /// Token hash did not match.
    BadSecret,
    /// Token has expired.
    Expired,
    /// Token has been revoked.
    Revoked,
    /// Token has been used up.
    Exhausted,
}

impl View for TokenRedeemOutcome {
    type V = RedeemView;

    open spec fn view(&self) -> RedeemView {
        match self {
            TokenRedeemOutcome::Redeemed { fleet_label, tenant_id } => RedeemView::Redeemed {
                fleet_label: text::opt_text(*fleet_label),
                tenant_id: tenant_id@,
            },
            TokenRedeemOutcome::Unknown => RedeemView::Unknown,
            TokenRedeemOutcome::BadSecret => RedeemView::BadSecret,
            TokenRedeemOutcome::Expired => RedeemView::Expired,
            TokenRedeemOutcome::Revoked => RedeemView::Revoked,
            TokenRedeemOutcome::Exhausted => RedeemView::Exhausted,
        }
    }
}

/// What redeeming a token comes to: the secret is looked at before the state of
/// the token, and a token that is revoked, expired or used up is refused in that
/// order.
pub fn decide_redemption(t: &EnrollmentTokenRecord, token_hash: &[u8], now: &Timestamp) -> (r:
    TokenRedeemOutcome)
    ensures
        r@ == model::redeem_outcome(t@, token_hash@, *now),
{
    if crypto::equal_in_constant_time(t.token_hash.as_slice(), token_hash) == 0 {
        return TokenRedeemOutcome::BadSecret;
    }
    if t.revoked_at.is_some() {
        return TokenRedeemOutcome::Revoked;
    }
    if t.expires_at.not_after(now) {
        return TokenRedeemOutcome::Expired;
    }
    if t.uses_remaining <= 0 {
        return TokenRedeemOutcome::Exhausted;
    }
    TokenRedeemOutcome::Redeemed {
        fleet_label: records::copy_opt(&t.fleet_label),
        tenant_id: t.tenant_id.clone(),
    }
}

/// Outcome counts from [`ControllerStore::replace_rules_for_node`].
///
/// Rule identity is the `id`. A rule with the same `id` whose content
/// matches an existing row of the node is counted as `unchanged`; a same-`id`
/// rule whose content differs is counted as `updated`. Rules present only in
/// the new set are `added`, also where they take over an `id` that another
/// node used; rules present only in the existing set are `deleted`.
#[derive(Clone, Copy, Debug, PartialEq, Eq, Structural)]
pub struct DiffSummary {
    pub added: usize,
    pub updated: usize,
    pub deleted: usize,
    pub unchanged: usize,
}

impl View for DiffSummary {
    type V = DiffCounts;

    open spec fn view(&self) -> DiffCounts {
        DiffCounts {
            added: self.added as nat,
            updated: self.updated as nat,
            deleted: self.deleted as nat,
            unchanged: self.unchanged as nat,
        }
    }
}

impl DiffSummary {
    /// No counts yet.
    pub fn new() -> (s: Self)
        ensures
            s == (DiffSummary { added: 0, updated: 0, deleted: 0, unchanged: 0 }),
    {
        DiffSummary { added: 0, updated: 0, deleted: 0, unchanged: 0 }
    }

    /// True when nothing changed (no inserts, updates, or deletes).
    pub fn is_noop(&self) -> (r: bool)
        ensures
            r == (self.added == 0 && self.updated == 0 && self.deleted == 0),
    {
        self.added == 0 && self.updated == 0 && self.deleted == 0
    }
}

/// Compare two stored [`Rule`]s for content equality, ignoring identity
/// fields (`id`, `node_id`, `tenant_id`) and audit metadata
/// (`created_at`, `created_by`).
///
/// Action arrays are compared as parsed JSON so that key ordering inside
/// each action object does not cause spurious mismatches; the order of the
/// outer array is significant (it mirrors how the policy engine stores it).
pub fn rule_content_equal(a: &Rule, b: &Rule) -> (r: bool)
    ensures
        r == model::content_equal(a@, b@),
{
    if !text::same(a.interface_name.as_str(), b.interface_name.as_str()) || !text::same(
        a.direction.as_str(),
        b.direction.as_str(),
    ) || !text::same_opt(&a.src_cidr, &b.src_cidr) || !text::same_opt(&a.dst_cidr, &b.dst_cidr)
        || a.src_port != b.src_port || a.dst_port != b.dst_port || !text::same(
        a.protocol.as_str(),
        b.protocol.as_str(),
    ) || !text::same_opt(&a.sni_pattern, &b.sni_pattern) || !text::same_opt(
        &a.quic_version,
        &b.quic_version,
    ) || !text::same_opt(&a.src_mac, &b.src_mac) || !text::same_opt(&a.dst_mac, &b.dst_mac)
        || a.expires_after_secs != b.expires_after_secs || !text::same_opt(
        &a.schedule_json,
        &b.schedule_json,
    ) {
        return false;
    }
    let av = parse_or_null(a.actions_json.as_str());
    let bv = parse_or_null(b.actions_json.as_str());
    json::equal(&av, &bv)
}

/// The JSON value that a text holds, null when it is not JSON.
fn parse_or_null(t: &str) -> (j: Json)
    ensures
        j@ == model::json_or_null(t@),
        j.wf(),
{
    match json::parse_text(t) {
        Ok(j) => j,
        Err(_) => Json::Null,
    }
}

/// Which alerts a reader asks for.
pub struct SuricataAlertFilter {
    pub tenant_id: Option<String>,
    pub node_id: Option<String>,
    /// At least this urgent: the severity number is this or lower.
    pub min_severity: Option<i32>,
    pub signature_id: Option<i64>,
    pub signature_contains: Option<String>,
    pub include_acked: bool,
}

impl View for SuricataAlertFilter {
    type V = AlertFilterView;

    open spec fn view(&self) -> AlertFilterView {
        AlertFilterView {
            tenant_id: text::opt_text(self.tenant_id),
            node_id: text::opt_text(self.node_id),
            min_severity: self.min_severity,
            signature_id: self.signature_id,
            signature_contains: text::opt_text(self.signature_contains),
            include_acked: self.include_acked,
        }
    }
}

/// What an agent reports of itself when it connects.
pub struct AgentInfo {
    pub tpm_backed: bool,
    pub agent_version: Option<String>,
    pub hostname: Option<String>,
    pub os_pretty_name: Option<String>,
    pub kernel_version: Option<String>,
    pub dmi_sys_vendor: Option<String>,
    pub dmi_product_name: Option<String>,
    pub dmi_uuid: Option<String>,
}

impl View for AgentInfo {
    type V = AgentInfoView;

    open spec fn view(&self) -> AgentInfoView {
        AgentInfoView {
            tpm_backed: self.tpm_backed,
            agent_version: text::opt_text(self.agent_version),
            hostname: text::opt_text(self.hostname),
            os_pretty_name: text::opt_text(self.os_pretty_name),
            kernel_version: text::opt_text(self.kernel_version),
            dmi_sys_vendor: text::opt_text(self.dmi_sys_vendor),
            dmi_product_name: text::opt_text(self.dmi_product_name),
            dmi_uuid: text::opt_text(self.dmi_uuid),
        }
    }
}

/// Why a store refused an operation.
#[derive(Debug)]
pub enum StoreError {
    NodeNotFound(String),
    InterfaceNotFound { node_id: String, interface_name: String },
    InvalidDirection(String),
    /// A rule of another node in a replacement.
    ForeignRule { rule_id: String, rule_node_id: String, node_id: String },
    DuplicateToken(String),
    RulesetNameTaken(String),
    RulesetNotFound(String),
    /// The storage behind the store failed.
    Backend(String),
}

impl StoreError {
    /// The text of the error.
    pub open spec fn message(self) -> Seq<char> {
        match self {
            StoreError::NodeNotFound(id) => "Node not found: "@ + id@,
            StoreError::InterfaceNotFound { node_id, interface_name } => "Interface not found: "@
                + node_id@ + ":"@ + interface_name@,
            StoreError::InvalidDirection(d) => "Invalid direction: "@ + d@,
            StoreError::ForeignRule { rule_id, rule_node_id, node_id } =>
                "replace_rules_for_node: rule "@ + rule_id@ + " has node_id "@ + rule_node_id@
                    + " != "@ + node_id@,
            StoreError::DuplicateToken(id) => "Duplicate enrollment token id: "@ + id@,
            StoreError::RulesetNameTaken(name) => "Ruleset name '"@ + name@ + "' already in use"@,
            StoreError::RulesetNotFound(id) => "Ruleset '"@ + id@ + "' not found"@,
            StoreError::Backend(m) => m@,
        }
    }

    /// The text of the error.
    pub fn to_text(&self) -> (s: String)
        ensures
            s@ == self.message(),
    {
        match self {
            StoreError::NodeNotFound(id) => text::concat2("Node not found: ", id.as_str()),
            StoreError::InterfaceNotFound { node_id, interface_name } => text::concat4(
                "Interface not found: ",
                node_id.as_str(),
                ":",
                interface_name.as_str(),
            ),
            StoreError::InvalidDirection(d) => text::concat2("Invalid direction: ", d.as_str()),
            StoreError::ForeignRule { rule_id, rule_node_id, node_id } => {
                let mut s = text::concat4(
                    "replace_rules_for_node: rule ",
                    rule_id.as_str(),
                    " has node_id ",
                    rule_node_id.as_str(),
                );
                s.push_str(" != ");
                s.push_str(node_id.as_str());
                s
            },
            StoreError::DuplicateToken(id) => text::concat2(
                "Duplicate enrollment token id: ",
                id.as_str(),
            ),
            StoreError::RulesetNameTaken(name) => text::concat3(
                "Ruleset name '",
                name.as_str(),
                "' already in use",
            ),
            StoreError::RulesetNotFound(id) => text::concat3("Ruleset '", id.as_str(), "' not found"),
            StoreError::Backend(m) => m.clone(),
        }
    }
}

/// A store that is dependable stays so and reports no failure of its backend.
pub open spec fn dependably<T>(before: bool, after: bool, r: Result<T, StoreError>) -> bool {
    &&& before == after
    &&& before ==> !(r matches Err(StoreError::Backend(_)))
}

/// An operation on one node: it is done when the node is there, else refused
/// without effect. A failure of the backend leaves everything open.
pub open spec fn on_node(
    before: StoreModel,
    after: StoreModel,
    r: Result<(), StoreError>,
    id: Seq<char>,
    changed: StoreModel,
) -> bool {
    match r {
        Ok(_) => before.nodes.contains_key(id) && after == changed,
        Err(StoreError::NodeNotFound(i)) => !before.nodes.contains_key(id) && i@ == id && after
            == before,
        Err(StoreError::Backend(_)) => true,
        Err(_) => false,
    }
}

/// Whether that is the first of the rules that belongs to another node.
pub open spec fn first_foreign(
    rules: Seq<Rule>,
    node_id: Seq<char>,
    rule_id: Seq<char>,
    rule_node_id: Seq<char>,
) -> bool {
    exists|i: int|
        {
            &&& 0 <= i < rules.len()
            &&& (#[trigger] rules[i]).node_id@ == rule_node_id
            &&& rules[i].id@ == rule_id
            &&& rule_node_id != node_id
            &&& forall|j: int| 0 <= j < i ==> (#[trigger] rules[j]).node_id@ == node_id
        }
}

/// An operation that cannot be refused: it is done unless the backend fails.
pub open spec fn done<T>(
    after: StoreModel,
    r: Result<T, StoreError>,
    changed: StoreModel,
) -> bool {
    match r {
        Ok(_) => after == changed,
        Err(StoreError::Backend(_)) => true,
        Err(_) => false,
    }
}

/// A question that cannot be refused: it is answered unless the backend fails.
pub open spec fn answered<T>(r: Result<T, StoreError>, right: spec_fn(T) -> bool) -> bool {
    match r {
        Ok(v) => right(v),
        Err(StoreError::Backend(_)) => true,
        Err(_) => false,
    }
}

/// The views of nodes.
pub open spec fn node_views(v: Seq<NodeRecord>) -> Seq<NodeView> {
    v.map_values(|n: NodeRecord| n@)
}

/// The views of rules.
pub open spec fn rule_views(v: Seq<Rule>) -> Seq<RuleView> {
    v.map_values(|r: Rule| r@)
}

/// The views of interfaces.
pub open spec fn interface_views(v: Seq<NodeInterface>) -> Seq<InterfaceView> {
    v.map_values(|i: NodeInterface| i@)
}

/// The views of tokens.
pub open spec fn token_views(v: Seq<EnrollmentTokenRecord>) -> Seq<TokenView> {
    v.map_values(|t: EnrollmentTokenRecord| t@)
}

/// The views of audit entries.
pub open spec fn audit_views(v: Seq<AuditEntry>) -> Seq<AuditView> {
    v.map_values(|e: AuditEntry| e@)
}

/// The views of rulesets.
pub open spec fn ruleset_views(v: Seq<SuricataRuleset>) -> Seq<RulesetView> {
    v.map_values(|r: SuricataRuleset| r@)
}

/// The views of rule files.
pub open spec fn rule_file_views(v: Seq<SuricataRuleFileReport>) -> Seq<RuleFileView> {
    v.map_values(|f: SuricataRuleFileReport| f@)
}

/// The views of alerts.
pub open spec fn alert_views(v: Seq<SuricataAlertRecord>) -> Seq<AlertView> {
    v.map_values(|a: SuricataAlertRecord| a@)
}

/// The views of byte strings.
pub open spec fn byte_views(v: Seq<Vec<u8>>) -> Seq<Seq<u8>> {
    v.map_values(|b: Vec<u8>| b@)
}

/// Interfaces stand in the order of node and name.
impl Ranked for NodeInterface {
    open spec fn ranked(a: NodeInterface, b: NodeInterface) -> bool {
        if a.node_id@ == b.node_id@ {
            text::at_most(a.name@, b.name@)
        } else {
            text::at_most(a.node_id@, b.node_id@)
        }
    }

    proof fn ranked_total(a: NodeInterface, b: NodeInterface) {
        text::at_most_total(a.name@, b.name@);
        text::at_most_total(a.node_id@, b.node_id@);
    }

    proof fn ranked_transitive(a: NodeInterface, b: NodeInterface, c: NodeInterface) {
        if a.node_id@ == b.node_id@ && b.node_id@ == c.node_id@ {
            text::at_most_transitive(a.name@, b.name@, c.name@);
        } else if a.node_id@ != b.node_id@ && b.node_id@ != c.node_id@ {
            text::at_most_transitive(a.node_id@, b.node_id@, c.node_id@);
            if a.node_id@ == c.node_id@ {
                text::at_most_antisymmetric(a.node_id@, b.node_id@);
            }
        }
    }

    fn may_precede(&self, other: &NodeInterface) -> (r: bool) {
        if text::same(self.node_id.as_str(), other.node_id.as_str()) {
            text::is_at_most(self.name.as_str(), other.name.as_str())
        } else {
            text::is_at_most(self.node_id.as_str(), other.node_id.as_str())
        }
    }
}

/// Tokens stand with the newest first.
impl Ranked for EnrollmentTokenRecord {
    open spec fn ranked(a: EnrollmentTokenRecord, b: EnrollmentTokenRecord) -> bool {
        b.created_at.secs < a.created_at.secs || (b.created_at.secs == a.created_at.secs
            && b.created_at.nanos <= a.created_at.nanos)
    }

    proof fn ranked_total(a: EnrollmentTokenRecord, b: EnrollmentTokenRecord) {
    }

    proof fn ranked_transitive(
        a: EnrollmentTokenRecord,
        b: EnrollmentTokenRecord,
        c: EnrollmentTokenRecord,
    ) {
    }

    fn may_precede(&self, other: &EnrollmentTokenRecord) -> (r: bool) {
        other.created_at.secs < self.created_at.secs || (other.created_at.secs
            == self.created_at.secs && other.created_at.nanos <= self.created_at.nanos)
    }
}

/// Rulesets stand in the order of their names.
impl Ranked for SuricataRuleset {
    open spec fn ranked(a: SuricataRuleset, b: SuricataRuleset) -> bool {
        text::at_most(a.name@, b.name@)
    }

    proof fn ranked_total(a: SuricataRuleset, b: SuricataRuleset) {
        text::at_most_total(a.name@, b.name@);
    }

    proof fn ranked_transitive(a: SuricataRuleset, b: SuricataRuleset, c: SuricataRuleset) {
        text::at_most_transitive(a.name@, b.name@, c.name@);
    }

    fn may_precede(&self, other: &SuricataRuleset) -> (r: bool) {
        text::is_at_most(self.name.as_str(), other.name.as_str())
    }
}

/// Rule files stand in the order of their names.
impl Ranked for SuricataRuleFileReport {
    open spec fn ranked(a: SuricataRuleFileReport, b: SuricataRuleFileReport) -> bool {
        text::at_most(a.filename@, b.filename@)
    }

    proof fn ranked_total(a: SuricataRuleFileReport, b: SuricataRuleFileReport) {
        text::at_most_total(a.filename@, b.filename@);
    }

    proof fn ranked_transitive(
        a: SuricataRuleFileReport,
        b: SuricataRuleFileReport,
        c: SuricataRuleFileReport,
    ) {
        text::at_most_transitive(a.filename@, b.filename@, c.filename@);
    }

    fn may_precede(&self, other: &SuricataRuleFileReport) -> (r: bool) {
        text::is_at_most(self.filename.as_str(), other.filename.as_str())
    }
}

/// Alerts stand with the latest first.
impl Ranked for SuricataAlertRecord {
    open spec fn ranked(a: SuricataAlertRecord, b: SuricataAlertRecord) -> bool {
        b.received_ns <= a.received_ns
    }

    proof fn ranked_total(a: SuricataAlertRecord, b: SuricataAlertRecord) {
    }

    proof fn ranked_transitive(
        a: SuricataAlertRecord,
        b: SuricataAlertRecord,
        c: SuricataAlertRecord,
    ) {
    }

    fn may_precede(&self, other: &SuricataAlertRecord) -> (r: bool) {
        other.received_ns <= self.received_ns
    }
}

/// Persistent store for controller state.
///
/// What a store holds is its `model`; each operation says what it does to it.
/// `None` for a tenant is cross-tenant and reserved for the controller's own
/// jobs; operator-facing callers pass the slug of their tenant, so that the
/// result cannot hold rows of others. Operations that note a time take it from
/// the caller.
pub trait ControllerStore: Sized {
    /// What the store holds.
    open spec fn model(&self) -> StoreModel {
        arbitrary()
    }

    /// Whether the store never fails on its own. Unless it says so, it may.
    open spec fn dependable(&self) -> bool {
        false
    }

    fn upsert_node(&mut self, node: &NodeRecord) -> (r: Result<(), StoreError>)
        ensures
            dependably(old(self).dependable(), final(self).dependable(), r),
            done(final(self).model(), r, old(self).model().with_node(node@)),
    ;

    fn get_node(&self, id: &str) -> (r: Result<Option<NodeRecord>, StoreError>)
        ensures
            dependably(self.dependable(), self.dependable(), r),
            answered(
                r,
                |v: Option<NodeRecord>|
                    match v {
                        Some(n) => self.model().nodes.contains_key(id@) && self.model().nodes[id@]
                            == n@,
                        None => !self.model().nodes.contains_key(id@),
                    },
            ),
    ;

    fn get_node_by_enrollment_id(&self, enrollment_id: &str) -> (r: Result<
        Option<NodeRecord>,
        StoreError,
    >)
        ensures
            dependably(self.dependable(), self.dependable(), r),
            answered(
                r,
                |v: Option<NodeRecord>|
                    {
                        let m = self.model();
                        let id = m.enrollments[enrollment_id@];
                        match v {
                            Some(n) => m.enrollments.contains_key(enrollment_id@)
                                && m.nodes.contains_key(id) && m.nodes[id] == n@,
                            None => !m.enrollments.contains_key(enrollment_id@)
                                || !m.nodes.contains_key(id),
                        }
                    },
            ),
    ;

    fn list_nodes(&self, tenant_id: Option<&str>, status: Option<NodeStatus>) -> (r: Result<
        Vec<NodeRecord>,
        StoreError,
    >)
        ensures
            dependably(self.dependable(), self.dependable(), r),
            answered(
                r,
                |v: Vec<NodeRecord>|
                    model::lists(
                        node_views(v@),
                        self.model().nodes,
                        |n: NodeView|
                            model::in_scope(text::opt_str(tenant_id), n.tenant_id) && (
                            status is None || status == Some(n.status)),
                    ),
            ),
    ;

    fn update_node_status(&mut self, id: &str, status: NodeStatus) -> (r: Result<(), StoreError>)
        ensures
            dependably(old(self).dependable(), final(self).dependable(), r),
            on_node(
                old(self).model(),
                final(self).model(),
                r,
                id@,
                old(self).model().node_changed(
                    id@,
                    NodeView { status, ..old(self).model().nodes[id@] },
                ),
            ),
    ;

    /// Re-bind a node to a tenant. Used by the enrollment path to move a
    /// freshly-submitted node (born in `"default"`) into the tenant carried
    /// on the bootstrap token, once that token has been successfully
    /// redeemed.
    fn update_node_tenant(&mut self, id: &str, tenant_id: &str) -> (r: Result<(), StoreError>)
        ensures
            dependably(old(self).dependable(), final(self).dependable(), r),
            on_node(
                old(self).model(),
                final(self).model(),
                r,
                id@,
                old(self).model().node_changed(
                    id@,
                    NodeView { tenant_id: tenant_id@, ..old(self).model().nodes[id@] },
                ),
            ),
    ;

    /// Permanently delete a node record (use only after decommission).
    fn delete_node(&mut self, id: &str) -> (r: Result<(), StoreError>)
        ensures
            dependably(old(self).dependable(), final(self).dependable(), r),
            on_node(
                old(self).model(),
                final(self).model(),
                r,
                id@,
                old(self).model().without_node(id@),
            ),
    ;

    fn update_node_last_seen(&mut self, id: &str, ts: Timestamp) -> (r: Result<(), StoreError>)
        ensures
            dependably(old(self).dependable(), final(self).dependable(), r),
            on_node(
                old(self).model(),
                final(self).model(),
                r,
                id@,
                old(self).model().node_changed(
                    id@,
                    NodeView { last_seen: Some(ts), ..old(self).model().nodes[id@] },
                ),
            ),
    ;

    /// Update live fields reported in AgentHello on each management connect. A
    /// field that the agent could not read keeps its value.
    fn update_node_agent_info(&mut self, id: &str, info: &AgentInfo) -> (r: Result<(), StoreError>)
        ensures
            dependably(old(self).dependable(), final(self).dependable(), r),
            on_node(
                old(self).model(),
                final(self).model(),
                r,
                id@,
                old(self).model().node_changed(
                    id@,
                    model::with_agent_info(old(self).model().nodes[id@], info@),
                ),
            ),
    ;

    /// Persist the JSON-encoded capabilities from the most recent AgentHello.
    fn update_node_capabilities(&mut self, id: &str, capabilities_json: &str) -> (r: Result<
        (),
        StoreError,
    >)
        ensures
            dependably(old(self).dependable(), final(self).dependable(), r),
            on_node(
                old(self).model(),
                final(self).model(),
                r,
                id@,
                old(self).model().node_changed(
                    id@,
                    NodeView { capabilities: capabilities_json@, ..old(self).model().nodes[id@] },
                ),
            ),
    ;

    /// Union of `sources` advertised across all Active nodes in the tenant, each
    /// once.
    fn list_active_node_sources(&self, tenant_id: &str) -> (r: Result<Vec<String>, StoreError>)
        ensures
            dependably(self.dependable(), self.dependable(), r),
            answered(
                r,
                |v: Vec<String>|
                    text::texts(v@).no_duplicates() && forall|s: Seq<char>|
                        #[trigger] text::texts(v@).contains(s) <==> exists|id: Seq<char>|
                            {
                                &&& #[trigger] self.model().nodes.contains_key(id)
                                &&& self.model().nodes[id].tenant_id == tenant_id@
                                &&& self.model().nodes[id].status == NodeStatus::Active
                                &&& model::names_source(self.model().nodes[id].capabilities, s)
                            },
            ),
    ;

    fn update_node_cert(
        &mut self,
        id: &str,
        serial: Vec<u8>,
        expiry: Timestamp,
        cert_pem: String,
    ) -> (r: Result<(), StoreError>)
        ensures
            dependably(old(self).dependable(), final(self).dependable(), r),
            on_node(
                old(self).model(),
                final(self).model(),
                r,
                id@,
                StoreModel {
                    certs: old(self).model().certs.insert(id@, cert_pem@),
                    ..old(self).model().node_changed(
                        id@,
                        NodeView {
                            cert_serial: Some(serial@),
                            cert_expiry: Some(expiry),
                            ..old(self).model().nodes[id@]
                        },
                    )
                },
            ),
    ;

    /// Update only the serial and expiry of the current cert; the credentials blob
    /// is left untouched. Used by renewal, where the private key stays on the agent
    /// and the renewed cert is delivered in the reply.
    fn update_current_cert_meta(&mut self, id: &str, serial: Vec<u8>, expiry: Timestamp) -> (r:
        Result<(), StoreError>)
        ensures
            dependably(old(self).dependable(), final(self).dependable(), r),
            on_node(
                old(self).model(),
                final(self).model(),
                r,
                id@,
                old(self).model().node_changed(
                    id@,
                    NodeView {
                        cert_serial: Some(serial@),
                        cert_expiry: Some(expiry),
                        ..old(self).model().nodes[id@]
                    },
                ),
            ),
    ;

    /// Set the desired stop behavior for a node ("clear-state" or "preserve-state").
    fn update_node_stop_behavior(&mut self, id: &str, behavior: Option<&str>) -> (r: Result<
        (),
        StoreError,
    >)
        ensures
            dependably(old(self).dependable(), final(self).dependable(), r),
            on_node(
                old(self).model(),
                final(self).model(),
                r,
                id@,
                old(self).model().node_changed(
                    id@,
                    NodeView {
                        stop_behavior: text::opt_str(behavior),
                        ..old(self).model().nodes[id@]
                    },
                ),
            ),
    ;

    /// Set the desired metrics scrape/forward interval (seconds) for a node.
    /// `None` clears the override so the agent falls back to its local default.
    fn update_node_metrics_interval(&mut self, id: &str, secs: Option<u32>) -> (r: Result<
        (),
        StoreError,
    >)
        ensures
            dependably(old(self).dependable(), final(self).dependable(), r),
            on_node(
                old(self).model(),
                final(self).model(),
                r,
                id@,
                old(self).model().node_changed(
                    id@,
                    NodeView { metrics_interval_secs: secs, ..old(self).model().nodes[id@] },
                ),
            ),
    ;

    /// Set how a node inspects traffic; without effect when there is no such node.
    fn set_node_inspect_mode(&mut self, node_id: &str, mode: &str) -> (r: Result<(), StoreError>)
        ensures
            dependably(old(self).dependable(), final(self).dependable(), r),
            done(
                final(self).model(),
                r,
                if old(self).model().nodes.contains_key(node_id@) {
                    old(self).model().node_changed(
                        node_id@,
                        NodeView { inspect_mode: mode@, ..old(self).model().nodes[node_id@] },
                    )
                } else {
                    old(self).model()
                },
            ),
    ;

    fn revoke_cert(&mut self, serial: &[u8]) -> (r: Result<(), StoreError>)
        ensures
            dependably(old(self).dependable(), final(self).dependable(), r),
            done(
                final(self).model(),
                r,
                StoreModel {
                    revoked: old(self).model().revoked.insert(serial@),
                    ..old(self).model()
                },
            ),
    ;

    fn is_cert_revoked(&self, serial: &[u8]) -> (r: Result<bool, StoreError>)
        ensures
            dependably(self.dependable(), self.dependable(), r),
            answered(r, |b: bool| b == self.model().revoked.contains(serial@)),
    ;

    /// Snapshot the full set of revoked serials. Used at startup to seed the
    /// in-memory revocation mirror consulted by the TLS-handshake verifier.
    fn list_revoked_serials(&self) -> (r: Result<Vec<Vec<u8>>, StoreError>)
        ensures
            dependably(self.dependable(), self.dependable(), r),
            answered(r, |v: Vec<Vec<u8>>| byte_views(v@).to_set() == self.model().revoked),
    ;

    /// Put a rule on record. A rule may come twice under one id; it is then overwritten,
    /// but who first wrote it, and when, stays.
    fn create_rule(&mut self, rule: &Rule) -> (r: Result<(), StoreError>)
        ensures
            dependably(old(self).dependable(), final(self).dependable(), r),
            done(
                final(self).model(),
                r,
                StoreModel {
                    rules: model::rule_created(old(self).model().rules, rule@),
                    ..old(self).model()
                },
            ),
    ;

    fn delete_rule(&mut self, rule_id: &str) -> (r: Result<(), StoreError>)
        ensures
            dependably(old(self).dependable(), final(self).dependable(), r),
            done(
                final(self).model(),
                r,
                StoreModel {
                    rules: old(self).model().rules.remove(rule_id@),
                    ..old(self).model()
                },
            ),
    ;

    fn get_rule(&self, rule_id: &str) -> (r: Result<Option<Rule>, StoreError>)
        ensures
            dependably(self.dependable(), self.dependable(), r),
            answered(
                r,
                |v: Option<Rule>|
                    match v {
                        Some(rule) => self.model().rules.contains_key(rule_id@)
                            && self.model().rules[rule_id@] == rule@,
                        None => !self.model().rules.contains_key(rule_id@),
                    },
            ),
    ;

    fn list_rules_for_node(&self, node_id: &str) -> (r: Result<Vec<Rule>, StoreError>)
        ensures
            dependably(self.dependable(), self.dependable(), r),
            answered(
                r,
                |v: Vec<Rule>|
                    model::lists(
                        rule_views(v@),
                        self.model().rules,
                        |rule: RuleView| rule.node_id == node_id@,
                    ),
            ),
    ;

    fn list_rules_for_interface(
        &self,
        node_id: &str,
        interface_name: &str,
        direction: &str,
    ) -> (r: Result<Vec<Rule>, StoreError>)
        ensures
            dependably(self.dependable(), self.dependable(), r),
            answered(
                r,
                |v: Vec<Rule>|
                    model::lists(
                        rule_views(v@),
                        self.model().rules,
                        |rule: RuleView|
                            rule.node_id == node_id@ && rule.interface_name == interface_name@
                                && rule.direction == direction@,
                    ),
            ),
    ;

    fn delete_rules_for_node(&mut self, node_id: &str) -> (r: Result<(), StoreError>)
        ensures
            dependably(old(self).dependable(), final(self).dependable(), r),
            done(
                final(self).model(),
                r,
                StoreModel {
                    rules: model::kept(
                        old(self).model().rules,
                        |k: Seq<char>, rule: RuleView| rule.node_id != node_id@,
                    ),
                    ..old(self).model()
                },
            ),
    ;

    /// Replace the set of rules for a node with `new_rules`, all of which must
    /// belong to the node. Existing rules of the node that are not named are
    /// deleted; rules whose content differs are overwritten; rules whose content
    /// matches (per [`rule_content_equal`]) are left untouched. A named rule takes
    /// over its id where another node used it. A rule of another node in
    /// `new_rules` refuses the whole replacement. It is atomic: where the backend fails, the
    /// rules are what they were.
    fn replace_rules_for_node(&mut self, node_id: &str, new_rules: &[Rule]) -> (r: Result<
        DiffSummary,
        StoreError,
    >)
        ensures
            dependably(old(self).dependable(), final(self).dependable(), r),
            match r {
                Ok(summary) => {
                    let p = model::replacement(
                        old(self).model().rules,
                        node_id@,
                        rule_views(new_rules@),
                    );
                    &&& forall|i: int|
                        0 <= i < new_rules@.len() ==> (#[trigger] new_rules@[i]).node_id@
                            == node_id@
                    &&& final(self).model() == StoreModel { rules: p.rules, ..old(self).model() }
                    &&& summary@ == p.counts
                },
                Err(StoreError::ForeignRule { rule_id, rule_node_id, node_id: expected }) => {
                    &&& expected@ == node_id@
                    &&& first_foreign(new_rules@, node_id@, rule_id@, rule_node_id@)
                    &&& final(self).model() == old(self).model()
                },
                Err(StoreError::Backend(_)) => final(self).model() == old(self).model(),
                Err(_) => false,
            },
    ;

    /// All interfaces of the tenant's nodes, in the order of node and name.
    fn list_all_node_interfaces(&self, tenant_id: Option<&str>) -> (r: Result<
        Vec<NodeInterface>,
        StoreError,
    >)
        ensures
            dependably(self.dependable(), self.dependable(), r),
            answered(
                r,
                |v: Vec<NodeInterface>|
                    crate::order::is_ordered(v@) && model::lists(
                        interface_views(v@),
                        self.model().interfaces,
                        |i: InterfaceView|
                            tenant_id is None || (self.model().nodes.contains_key(i.node_id)
                                && self.model().nodes[i.node_id].tenant_id == tenant_id->0@),
                    ),
            ),
    ;

    /// Take in the interfaces that a node reports. What the controller has set on
    /// an interface that is already known stays.
    fn upsert_node_interfaces(
        &mut self,
        node_id: &str,
        interfaces: &[InterfaceReport],
        now: Timestamp,
    ) -> (r: Result<(), StoreError>)
        ensures
            dependably(old(self).dependable(), final(self).dependable(), r),
            done(
                final(self).model(),
                r,
                StoreModel {
                    interfaces: model::reported_interfaces(
                        old(self).model().interfaces,
                        node_id@,
                        interfaces@,
                        now,
                    ),
                    ..old(self).model()
                },
            ),
    ;

    /// The interfaces of a node, in the order of their names.
    fn list_node_interfaces(&self, node_id: &str) -> (r: Result<Vec<NodeInterface>, StoreError>)
        ensures
            dependably(self.dependable(), self.dependable(), r),
            answered(
                r,
                |v: Vec<NodeInterface>|
                    crate::order::is_ordered(v@) && model::lists(
                        interface_views(v@),
                        self.model().interfaces,
                        |i: InterfaceView| i.node_id == node_id@,
                    ),
            ),
    ;

    fn set_interface_tag(&mut self, node_id: &str, interface_name: &str, tag: &str) -> (r: Result<
        (),
        StoreError,
    >)
        ensures
            dependably(old(self).dependable(), final(self).dependable(), r),
            on_interface(
                old(self).model(),
                final(self).model(),
                r,
                (node_id@, interface_name@),
                InterfaceView {
                    tag: Some(tag@),
                    ..old(self).model().interfaces[(node_id@, interface_name@)]
                },
            ),
    ;

    /// Remove the tag of an interface; without effect when there is no such
    /// interface.
    fn remove_interface_tag(&mut self, node_id: &str, interface_name: &str) -> (r: Result<
        (),
        StoreError,
    >)
        ensures
            dependably(old(self).dependable(), final(self).dependable(), r),
            done(
                final(self).model(),
                r,
                if old(self).model().interfaces.contains_key((node_id@, interface_name@)) {
                    StoreModel {
                        interfaces: old(self).model().interfaces.insert(
                            (node_id@, interface_name@),
                            InterfaceView {
                                tag: None,
                                ..old(self).model().interfaces[(node_id@, interface_name@)]
                            },
                        ),
                        ..old(self).model()
                    }
                } else {
                    old(self).model()
                },
            ),
    ;

    /// Update BPF attachment state for a node's interfaces from agent-reported data.
    /// `attachments` is a list of (interface_name, direction) pairs where direction
    /// is "ingress" or "egress"; what is not listed is detached.
    fn update_interface_attachments(&mut self, node_id: &str, attachments: &[(String, String)]) -> (r:
        Result<(), StoreError>)
        ensures
            dependably(old(self).dependable(), final(self).dependable(), r),
            done(
                final(self).model(),
                r,
                StoreModel {
                    interfaces: model::node_interfaces_changed(
                        old(self).model().interfaces,
                        node_id@,
                        |i: InterfaceView|
                            InterfaceView {
                                xdp_attached: model::attached(attachments@, i.name, "ingress"@),
                                tc_attached: model::attached(attachments@, i.name, "egress"@),
                                ..i
                            },
                    ),
                    ..old(self).model()
                },
            ),
    ;

    /// Replace the set of interfaces with XDP FIB forwarding enabled on a node.
    /// Any interface not listed will have fib_forwarding cleared.
    fn update_interface_fib_forwarding(&mut self, node_id: &str, enabled_interfaces: &[String]) -> (r:
        Result<(), StoreError>)
        ensures
            dependably(old(self).dependable(), final(self).dependable(), r),
            done(
                final(self).model(),
                r,
                StoreModel {
                    interfaces: model::node_interfaces_changed(
                        old(self).model().interfaces,
                        node_id@,
                        |i: InterfaceView|
                            InterfaceView {
                                fib_forwarding: model::names_contain(enabled_interfaces@, i.name),
                                ..i
                            },
                    ),
                    ..old(self).model()
                },
            ),
    ;

    /// Replace the reverse-path filtering modes of a node. Any interface not listed
    /// has it off; where one is listed twice, the last entry counts.
    fn update_interface_urpf(&mut self, node_id: &str, interface_modes: &[(String, u32)]) -> (r:
        Result<(), StoreError>)
        ensures
            dependably(old(self).dependable(), final(self).dependable(), r),
            done(
                final(self).model(),
                r,
                StoreModel {
                    interfaces: model::node_interfaces_changed(
                        old(self).model().interfaces,
                        node_id@,
                        |i: InterfaceView|
                            InterfaceView { urpf_mode: model::mode_of(interface_modes@, i.name), ..i },
                    ),
                    ..old(self).model()
                },
            ),
    ;

    /// Replace the set of interfaces whose traffic is inspected on a node.
    fn update_interface_inspect(&mut self, node_id: &str, enabled_interfaces: &[String]) -> (r:
        Result<(), StoreError>)
        ensures
            dependably(old(self).dependable(), final(self).dependable(), r),
            done(
                final(self).model(),
                r,
                StoreModel {
                    interfaces: model::node_interfaces_changed(
                        old(self).model().interfaces,
                        node_id@,
                        |i: InterfaceView|
                            InterfaceView {
                                inspect_enabled: model::names_contain(enabled_interfaces@, i.name),
                                ..i
                            },
                    ),
                    ..old(self).model()
                },
            ),
    ;

    /// Set whether the traffic of one interface is inspected.
    fn update_interface_inspect_enabled(
        &mut self,
        node_id: &str,
        interface_name: &str,
        enabled: bool,
    ) -> (r: Result<(), StoreError>)
        ensures
            dependably(old(self).dependable(), final(self).dependable(), r),
            done(
                final(self).model(),
                r,
                StoreModel {
                    interfaces: model::node_interfaces_changed(
                        old(self).model().interfaces,
                        node_id@,
                        |i: InterfaceView|
                            if i.name == interface_name@ {
                                InterfaceView { inspect_enabled: enabled, ..i }
                            } else {
                                i
                            },
                    ),
                    ..old(self).model()
                },
            ),
    ;

    /// Set the default action for a specific interface+direction on a node.
    /// `direction` must be "ingress" or "egress" in any case; a missing interface
    /// is noticed before a wrong direction.
    fn update_interface_default_action(
        &mut self,
        node_id: &str,
        interface_name: &str,
        direction: &str,
        action: &str,
    ) -> (r: Result<(), StoreError>)
        ensures
            dependably(old(self).dependable(), final(self).dependable(), r),
            default_action_set(
                old(self).model(),
                final(self).model(),
                r,
                (node_id@, interface_name@),
                direction@,
                action@,
            ),
    ;

    /// Store the *initial enrollment* credentials blob (key and cert PEM one after
    /// the other), which a still-polling agent fetches. Renewal does not refresh it.
    fn store_node_cert_pem(&mut self, node_id: &str, cert_pem: &str) -> (r: Result<(), StoreError>)
        ensures
            dependably(old(self).dependable(), final(self).dependable(), r),
            done(
                final(self).model(),
                r,
                StoreModel {
                    certs: old(self).model().certs.insert(node_id@, cert_pem@),
                    ..old(self).model()
                },
            ),
    ;

    fn get_node_cert_pem(&self, node_id: &str) -> (r: Result<Option<String>, StoreError>)
        ensures
            dependably(self.dependable(), self.dependable(), r),
            answered(
                r,
                |v: Option<String>|
                    match v {
                        Some(pem) => self.model().certs.contains_key(node_id@)
                            && self.model().certs[node_id@] == pem@,
                        None => !self.model().certs.contains_key(node_id@),
                    },
            ),
    ;

    /// Append to the audit log. The store picks the id.
    fn append_audit(&mut self, entry: NewAuditEntry, now: Timestamp) -> (r: Result<(), StoreError>)
        ensures
            dependably(old(self).dependable(), final(self).dependable(), r),
            done(
                final(self).model(),
                r,
                old(self).model().audited(final(self).model().audit.last().id, entry@, now),
            ),
    ;

    /// The audit entries of the tenant, newest first.
    fn list_audit(&self, tenant_id: Option<&str>, limit: u32, offset: u32) -> (r: Result<
        Vec<AuditEntry>,
        StoreError,
    >)
        ensures
            dependably(self.dependable(), self.dependable(), r),
            answered(
                r,
                |v: Vec<AuditEntry>|
                    audit_views(v@) == model::page(
                        self.model().audit_newest_first(
                            |e: AuditView|
                                model::in_scope(text::opt_str(tenant_id), e.tenant_id),
                        ),
                        offset as nat,
                        limit as nat,
                    ),
            ),
    ;

    /// Audit rows within the inclusive unix-epoch-second window `[from, to]`
    /// (either bound may be `None` to leave that side open), newest-first.
    /// `cap` bounds the number of rows returned so a wide export can't exhaust
    /// memory.
    fn list_audit_between(
        &self,
        tenant_id: Option<&str>,
        from: Option<i64>,
        to: Option<i64>,
        cap: u32,
    ) -> (r: Result<Vec<AuditEntry>, StoreError>)
        ensures
            dependably(self.dependable(), self.dependable(), r),
            answered(
                r,
                |v: Vec<AuditEntry>|
                    audit_views(v@) == model::page(
                        self.model().audit_newest_first(
                            |e: AuditView|
                                model::in_scope(text::opt_str(tenant_id), e.tenant_id) && (from
                                    is None || from->0 <= e.ts.secs) && (to is None || e.ts.secs
                                    <= to->0),
                        ),
                        0,
                        cap as nat,
                    ),
            ),
    ;

    /// Keep a new token; its id must not be taken.
    fn insert_enrollment_token(&mut self, token: &EnrollmentTokenRecord) -> (r: Result<
        (),
        StoreError,
    >)
        ensures
            dependably(old(self).dependable(), final(self).dependable(), r),
            match r {
                Ok(_) => !old(self).model().tokens.contains_key(token.token_id@)
                    && final(self).model() == StoreModel {
                    tokens: old(self).model().tokens.insert(token.token_id@, token@),
                    ..old(self).model()
                },
                Err(StoreError::DuplicateToken(id)) => old(self).model().tokens.contains_key(
                    token.token_id@,
                ) && id@ == token.token_id@ && final(self).model() == old(self).model(),
                Err(StoreError::Backend(_)) => true,
                Err(_) => false,
            },
    ;

    /// The tokens of the tenant, newest first.
    fn list_enrollment_tokens(&self, tenant_id: Option<&str>) -> (r: Result<
        Vec<EnrollmentTokenRecord>,
        StoreError,
    >)
        ensures
            dependably(self.dependable(), self.dependable(), r),
            answered(
                r,
                |v: Vec<EnrollmentTokenRecord>|
                    crate::order::is_ordered(v@) && model::lists(
                        token_views(v@),
                        self.model().tokens,
                        |t: TokenView| model::in_scope(text::opt_str(tenant_id), t.tenant_id),
                    ),
            ),
    ;

    /// Revoke a token. `true` when it was there and not revoked before.
    fn revoke_enrollment_token(&mut self, token_id: &str, now: Timestamp) -> (r: Result<
        bool,
        StoreError,
    >)
        ensures
            dependably(old(self).dependable(), final(self).dependable(), r),
            match r {
                Ok(changed) => {
                    let tokens = old(self).model().tokens;
                    &&& changed == (tokens.contains_key(token_id@)
                        && tokens[token_id@].revoked_at is None)
                    &&& final(self).model() == if changed {
                        StoreModel {
                            tokens: tokens.insert(
                                token_id@,
                                TokenView { revoked_at: Some(now), ..tokens[token_id@] },
                            ),
                            ..old(self).model()
                        }
                    } else {
                        old(self).model()
                    }
                },
                Err(StoreError::Backend(_)) => true,
                Err(_) => false,
            },
    ;

    /// Atomically attempt to redeem `token_id` against `token_hash`.
    /// On success, decrements `uses_remaining` and returns the fleet label
    /// (if set on the token). Status outcomes do not modify the row.
    fn redeem_enrollment_token(&mut self, token_id: &str, token_hash: &[u8], now: Timestamp) -> (r:
        Result<TokenRedeemOutcome, StoreError>)
        ensures
            dependably(old(self).dependable(), final(self).dependable(), r),
            match r {
                Ok(outcome) => redeemed(
                    old(self).model(),
                    final(self).model(),
                    token_id@,
                    token_hash@,
                    now,
                    outcome@,
                ),
                Err(StoreError::Backend(_)) => true,
                Err(_) => false,
            },
    ;

    /// Keep a new ruleset; its name must be free within its tenant.
    fn create_suricata_ruleset(&mut self, ruleset: &SuricataRuleset) -> (r: Result<
        (),
        StoreError,
    >)
        ensures
            dependably(old(self).dependable(), final(self).dependable(), r),
            match r {
                Ok(_) => !ruleset_name_taken(old(self).model(), ruleset@) && final(self).model()
                    == StoreModel {
                    rulesets: old(self).model().rulesets.insert(ruleset.id@, ruleset@),
                    ..old(self).model()
                },
                Err(StoreError::RulesetNameTaken(name)) => ruleset_name_taken(
                    old(self).model(),
                    ruleset@,
                ) && name@ == ruleset.name@ && final(self).model() == old(self).model(),
                Err(StoreError::Backend(_)) => true,
                Err(_) => false,
            },
    ;

    fn update_suricata_ruleset(
        &mut self,
        id: &str,
        content: &str,
        sha256: &str,
        rule_count: u32,
        updated_at: Timestamp,
    ) -> (r: Result<(), StoreError>)
        ensures
            dependably(old(self).dependable(), final(self).dependable(), r),
            match r {
                Ok(_) => old(self).model().rulesets.contains_key(id@) && final(self).model()
                    == StoreModel {
                    rulesets: old(self).model().rulesets.insert(
                        id@,
                        RulesetView {
                            content: content@,
                            sha256: sha256@,
                            rule_count,
                            updated_at,
                            ..old(self).model().rulesets[id@]
                        },
                    ),
                    ..old(self).model()
                },
                Err(StoreError::RulesetNotFound(i)) => !old(self).model().rulesets.contains_key(
                    id@,
                ) && i@ == id@ && final(self).model() == old(self).model(),
                Err(StoreError::Backend(_)) => true,
                Err(_) => false,
            },
    ;

    /// Delete a ruleset and every assignment of it.
    fn delete_suricata_ruleset(&mut self, id: &str) -> (r: Result<(), StoreError>)
        ensures
            dependably(old(self).dependable(), final(self).dependable(), r),
            done(
                final(self).model(),
                r,
                StoreModel {
                    rulesets: old(self).model().rulesets.remove(id@),
                    assignments: old(self).model().assignments.filter(
                        |p: (Seq<char>, Seq<char>)| p.1 != id@,
                    ),
                    ..old(self).model()
                },
            ),
    ;

    fn get_suricata_ruleset(&self, id: &str) -> (r: Result<Option<SuricataRuleset>, StoreError>)
        ensures
            dependably(self.dependable(), self.dependable(), r),
            answered(
                r,
                |v: Option<SuricataRuleset>|
                    match v {
                        Some(rs) => self.model().rulesets.contains_key(id@)
                            && self.model().rulesets[id@] == rs@,
                        None => !self.model().rulesets.contains_key(id@),
                    },
            ),
    ;

    /// The rulesets of the tenant, in the order of their names.
    fn list_suricata_rulesets(&self, tenant_id: Option<&str>) -> (r: Result<
        Vec<SuricataRuleset>,
        StoreError,
    >)
        ensures
            dependably(self.dependable(), self.dependable(), r),
            answered(
                r,
                |v: Vec<SuricataRuleset>|
                    crate::order::is_ordered(v@) && model::lists(
                        ruleset_views(v@),
                        self.model().rulesets,
                        |rs: RulesetView| model::in_scope(text::opt_str(tenant_id), rs.tenant_id),
                    ),
            ),
    ;

    fn assign_suricata_ruleset(&mut self, node_id: &str, ruleset_id: &str) -> (r: Result<
        (),
        StoreError,
    >)
        ensures
            dependably(old(self).dependable(), final(self).dependable(), r),
            done(
                final(self).model(),
                r,
                StoreModel {
                    assignments: old(self).model().assignments.insert((node_id@, ruleset_id@)),
                    ..old(self).model()
                },
            ),
    ;

    fn unassign_suricata_ruleset(&mut self, node_id: &str, ruleset_id: &str) -> (r: Result<
        (),
        StoreError,
    >)
        ensures
            dependably(old(self).dependable(), final(self).dependable(), r),
            done(
                final(self).model(),
                r,
                StoreModel {
                    assignments: old(self).model().assignments.remove((node_id@, ruleset_id@)),
                    ..old(self).model()
                },
            ),
    ;

    /// The rulesets that are assigned to a node and exist, in the order of their
    /// names.
    fn list_suricata_rulesets_for_node(&self, node_id: &str) -> (r: Result<
        Vec<SuricataRuleset>,
        StoreError,
    >)
        ensures
            dependably(self.dependable(), self.dependable(), r),
            answered(
                r,
                |v: Vec<SuricataRuleset>|
                    crate::order::is_ordered(v@) && model::lists(
                        ruleset_views(v@),
                        model::kept(
                            self.model().rulesets,
                            |id: Seq<char>, rs: RulesetView|
                                self.model().assignments.contains((node_id@, id)),
                        ),
                        |rs: RulesetView| true,
                    ),
            ),
    ;

    /// The nodes to which a ruleset is assigned, in order, each once.
    fn list_nodes_for_suricata_ruleset(&self, ruleset_id: &str) -> (r: Result<
        Vec<String>,
        StoreError,
    >)
        ensures
            dependably(self.dependable(), self.dependable(), r),
            answered(
                r,
                |v: Vec<String>|
                    crate::order::is_ordered(v@) && text::texts(v@).no_duplicates() && forall|
                        n: Seq<char>,
                    | #[trigger]
                        text::texts(v@).contains(n) <==> self.model().assignments.contains(
                            (n, ruleset_id@),
                        ),
            ),
    ;

    /// Keep the rule files that a node reports, in place of its last report.
    fn replace_node_suricata_rule_files(
        &mut self,
        node_id: &str,
        files: &[SuricataRuleFileReport],
    ) -> (r: Result<(), StoreError>)
        ensures
            dependably(old(self).dependable(), final(self).dependable(), r),
            done(
                final(self).model(),
                r,
                StoreModel {
                    rule_files: old(self).model().rule_files.insert(
                        node_id@,
                        rule_file_views(files@),
                    ),
                    ..old(self).model()
                },
            ),
    ;

    /// The rule files that a node reported last, in the order of their names.
    fn list_node_suricata_rule_files(&self, node_id: &str) -> (r: Result<
        Vec<SuricataRuleFileReport>,
        StoreError,
    >)
        ensures
            dependably(self.dependable(), self.dependable(), r),
            answered(
                r,
                |v: Vec<SuricataRuleFileReport>|
                    crate::order::is_ordered(v@) && rule_file_views(v@).to_multiset() == (
                    if self.model().rule_files.contains_key(node_id@) {
                        self.model().rule_files[node_id@]
                    } else {
                        Seq::empty()
                    }).to_multiset(),
            ),
    ;

    /// Keep the alerts that have come, behind those that came before. The store
    /// picks their ids.
    fn insert_suricata_alerts(&mut self, alerts: &[NewSuricataAlert]) -> (r: Result<
        (),
        StoreError,
    >)
        ensures
            dependably(old(self).dependable(), final(self).dependable(), r),
            match r {
                Ok(_) => {
                    let before = old(self).model().alerts;
                    let after = final(self).model().alerts;
                    &&& final(self).model() == StoreModel { alerts: after, ..old(self).model() }
                    &&& after.len() == before.len() + alerts@.len()
                    &&& after.take(before.len() as int) == before
                    &&& forall|i: int|
                        0 <= i < alerts@.len() ==> #[trigger] after[before.len() + i]
                            == model::stored_alert(after[before.len() + i].id, alerts@[i]@)
                },
                Err(StoreError::Backend(_)) => true,
                Err(_) => false,
            },
    ;

    /// The alerts that the filter lets pass, latest first, at most `limit` of them;
    /// of alerts received at one time the one that came first stands first.
    fn list_suricata_alerts(&self, filter: &SuricataAlertFilter, limit: i64) -> (r: Result<
        Vec<SuricataAlertRecord>,
        StoreError,
    >)
        ensures
            dependably(self.dependable(), self.dependable(), r),
            answered(
                r,
                |v: Vec<SuricataAlertRecord>|
                    alert_views(v@) == model::page(
                        latest_first(
                            self.model().alerts.filter(|a: AlertView| filter@.passes(a)),
                        ),
                        0,
                        if limit < 0 {
                            0
                        } else {
                            limit as nat
                        },
                    ),
            ),
    ;

    /// Mark the tenant's alerts, perhaps those of one node alone, as acknowledged;
    /// the result counts those that were not before.
    fn ack_suricata_alerts(&mut self, tenant_id: &str, node_id: Option<&str>, acked_ns: i64) -> (r:
        Result<u64, StoreError>)
        ensures
            dependably(old(self).dependable(), final(self).dependable(), r),
            match r {
                Ok(n) => {
                    let before = old(self).model().alerts;
                    let meant = |a: AlertView|
                        a.acked_at is None && model::alert_meant(
                            a,
                            tenant_id@,
                            text::opt_str(node_id),
                        );
                    &&& n == before.filter(meant).len()
                    &&& final(self).model() == StoreModel {
                        alerts: before.map_values(
                            |a: AlertView|
                                if meant(a) {
                                    AlertView { acked_at: Some(acked_ns), ..a }
                                } else {
                                    a
                                },
                        ),
                        ..old(self).model()
                    }
                },
                Err(StoreError::Backend(_)) => true,
                Err(_) => false,
            },
    ;

    /// Delete the tenant's alerts, perhaps those of one node alone; the result
    /// counts them.
    fn clear_suricata_alerts(&mut self, tenant_id: &str, node_id: Option<&str>) -> (r: Result<
        u64,
        StoreError,
    >)
        ensures
            dependably(old(self).dependable(), final(self).dependable(), r),
            match r {
                Ok(n) => {
                    let before = old(self).model().alerts;
                    let left = before.filter(
                        |a: AlertView|
                            !model::alert_meant(a, tenant_id@, text::opt_str(node_id)),
                    );
                    &&& n == before.len() - left.len()
                    &&& final(self).model() == StoreModel { alerts: left, ..old(self).model() }
                },
                Err(StoreError::Backend(_)) => true,
                Err(_) => false,
            },
    ;
}

/// An operation on one interface: it is done when the interface is there, else
/// refused without effect.
pub open spec fn on_interface(
    before: StoreModel,
    after: StoreModel,
    r: Result<(), StoreError>,
    key: (Seq<char>, Seq<char>),
    changed: InterfaceView,
) -> bool {
    match r {
        Ok(_) => before.interfaces.contains_key(key) && after == StoreModel {
            interfaces: before.interfaces.insert(key, changed),
            ..before
        },
        Err(StoreError::InterfaceNotFound { node_id, interface_name }) =>
            !before.interfaces.contains_key(key) && (node_id@, interface_name@) == key && after
                == before,
        Err(StoreError::Backend(_)) => true,
        Err(_) => false,
    }
}

/// The interface with a default action for a direction, if that is a direction.
pub open spec fn with_default_action(
    i: InterfaceView,
    direction: Seq<char>,
    action: Seq<char>,
) -> Option<InterfaceView> {
    if text::lowercase(direction) == "ingress"@ {
        Some(InterfaceView { ingress_default_action: Some(action), ..i })
    } else if text::lowercase(direction) == "egress"@ {
        Some(InterfaceView { egress_default_action: Some(action), ..i })
    } else {
        None
    }
}

/// Setting a default action: refused without effect where there is no such
/// interface, and else where there is no such direction.
pub open spec fn default_action_set(
    before: StoreModel,
    after: StoreModel,
    r: Result<(), StoreError>,
    key: (Seq<char>, Seq<char>),
    direction: Seq<char>,
    action: Seq<char>,
) -> bool {
    let known = before.interfaces.contains_key(key);
    let changed = with_default_action(before.interfaces[key], direction, action);
    match r {
        Ok(_) => known && changed is Some && after == StoreModel {
            interfaces: before.interfaces.insert(key, changed->0),
            ..before
        },
        Err(StoreError::InterfaceNotFound { node_id, interface_name }) => !known && (
        node_id@,
        interface_name@,
        ) == key && after == before,
        Err(StoreError::InvalidDirection(d)) => known && changed is None && d@ == direction && after
            == before,
        Err(StoreError::Backend(_)) => true,
        Err(_) => false,
    }
}

/// Redeeming a token: the outcome is that of the token, and only a redemption
/// changes it, by one use.
pub open spec fn redeemed(
    before: StoreModel,
    after: StoreModel,
    token_id: Seq<char>,
    hash: Seq<u8>,
    now: Timestamp,
    outcome: RedeemView,
) -> bool {
    if before.tokens.contains_key(token_id) {
        let t = before.tokens[token_id];
        &&& outcome == model::redeem_outcome(t, hash, now)
        &&& after == if outcome is Redeemed {
            StoreModel {
                tokens: before.tokens.insert(
                    token_id,
                    TokenView { uses_remaining: (t.uses_remaining - 1) as i64, ..t },
                ),
                ..before
            }
        } else {
            before
        }
    } else {
        outcome == RedeemView::Unknown && after == before
    }
}

/// Whether a ruleset of the same tenant has the name.
pub open spec fn ruleset_name_taken(m: StoreModel, rs: RulesetView) -> bool {
    exists|id: Seq<char>|
        {
            &&& #[trigger] m.rulesets.contains_key(id)
            &&& m.rulesets[id].tenant_id == rs.tenant_id
            &&& m.rulesets[id].name == rs.name
        }
}

/// The alerts with the latest first; those received at one time keep their order.
pub open spec fn latest_first(s: Seq<AlertView>) -> Seq<AlertView> {
    crate::order::arranged(s, |a: AlertView, b: AlertView| b.received_ns <= a.received_ns)
}

/// Whether the audit log has grown by the entries, under ids that the store
/// picked, and nothing else has changed.
pub open spec fn audit_grew(
    before: StoreModel,
    after: StoreModel,
    entries: Seq<NewAuditView>,
    now: Timestamp,
) -> bool {
    &&& after == StoreModel { audit: after.audit, ..before }
    &&& after.audit.len() == before.audit.len() + entries.len()
    &&& forall|i: int| 0 <= i < before.audit.len() ==> #[trigger] after.audit[i] == before.audit[i]
    &&& forall|i: int|
        0 <= i < entries.len() ==> #[trigger] after.audit[before.audit.len() + i]
            == before.audit_entry(after.audit[before.audit.len() + i].id, entries[i], now)
}

/// Nothing written, nothing grown.
pub proof fn lemma_audit_same(m: StoreModel, now: Timestamp)
    ensures
        audit_grew(m, m, Seq::empty(), now),
{
}

/// One more entry.
pub proof fn lemma_audit_grows(
    before: StoreModel,
    between: StoreModel,
    after: StoreModel,
    entries: Seq<NewAuditView>,
    e: NewAuditView,
    now: Timestamp,
)
    requires
        audit_grew(before, between, entries, now),
        after == between.audited(after.audit.last().id, e, now),
    ensures
        audit_grew(before, after, entries.push(e), now),
{
    let id = after.audit.last().id;
    assert(between.audit_entry(id, e, now) == before.audit_entry(id, e, now));
    assert forall|i: int| 0 <= i < entries.push(e).len() implies #[trigger] after.audit[
        before.audit.len() + i] == before.audit_entry(
        after.audit[before.audit.len() + i].id,
        entries.push(e)[i],
        now,
    ) by {
        if i < entries.len() {
            assert(between.audit[before.audit.len() + i] == after.audit[before.audit.len() + i]);
        }
    }
    assert forall|i: int| 0 <= i < before.audit.len() implies #[trigger] after.audit[i]
        == before.audit[i] by {
        assert(between.audit[i] == after.audit[i]);
    }
}

/// Writes an audit entry; a failure of the backend is passed over.
pub fn note<S: ControllerStore>(store: &mut S, entry: NewAuditEntry, now: Timestamp)
    ensures
        final(store).dependable() == old(store).dependable(),
        old(store).dependable() ==> audit_grew(
            old(store).model(),
            final(store).model(),
            seq![entry@],
            now,
        ),
{
    let ghost before = store.model();
    match store.append_audit(entry, now) {
        Ok(()) => {
            proof {
                lemma_audit_same(before, now);
                lemma_audit_grows(before, before, store.model(), Seq::empty(), entry@, now);
                assert(Seq::<NewAuditView>::empty().push(entry@) =~= seq![entry@]);
            }
        },
        Err(_) => {},
    }
}

} // verus!
