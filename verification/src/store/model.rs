//! The mathematical model of the store, and what each operation does to it.

use super::records::{
    AlertView, AuditView, InterfaceView, NewAlertView, NewAuditView, NodeStatus, NodeView,
    RuleFileView, RuleView, RulesetView, TokenView,
};
use crate::json::{self, JsonView, NumberView, Parsed};
use crate::proto::{AddressReport, InterfaceReport};
use crate::text;
use crate::timestamp::Timestamp;
use vstd::prelude::*;

verus! {

/// Everything that a store holds.
#[verifier::ext_equal]
pub struct StoreModel {
    pub nodes: Map<Seq<char>, NodeView>,
    /// The node behind each enrollment request.
    pub enrollments: Map<Seq<char>, Seq<char>>,
    pub rules: Map<Seq<char>, RuleView>,
    /// The serials of revoked certificates.
    pub revoked: Set<Seq<u8>>,
    /// The credentials blob of each node.
    pub certs: Map<Seq<char>, Seq<char>>,
    /// The interfaces by node and name.
    pub interfaces: Map<(Seq<char>, Seq<char>), InterfaceView>,
    /// The audit log, oldest entry first.
    pub audit: Seq<AuditView>,
    pub tokens: Map<Seq<char>, TokenView>,
    pub rulesets: Map<Seq<char>, RulesetView>,
    /// Which node has which ruleset.
    pub assignments: Set<(Seq<char>, Seq<char>)>,
    /// The rule files that each node reported last.
    pub rule_files: Map<Seq<char>, Seq<RuleFileView>>,
    /// The alerts in the order in which they came.
    pub alerts: Seq<AlertView>,
}

/// The entries of a map that fulfil a condition.
pub open spec fn kept<K, V>(m: Map<K, V>, keep: spec_fn(K, V) -> bool) -> Map<K, V> {
    Map::new(|k: K| m.contains_key(k) && keep(k, m[k]), |k: K| m[k])
}

/// `out` lists, each once and in any order, the values of the map that fulfil a
/// condition; `ks` are their keys.
pub open spec fn lists_keys<K, V>(
    out: Seq<V>,
    m: Map<K, V>,
    keep: spec_fn(V) -> bool,
    ks: Seq<K>,
) -> bool {
    &&& ks.len() == out.len()
    &&& ks.no_duplicates()
    &&& forall|i: int|
        0 <= i < ks.len() ==> m.contains_key(#[trigger] ks[i]) && m[ks[i]] == out[i] && keep(out[i])
    &&& forall|k: K| m.contains_key(k) && #[trigger] keep(m[k]) ==> ks.contains(k)
}

/// `out` lists, each once and in any order, the values of the map that fulfil a
/// condition.
pub open spec fn lists<K, V>(out: Seq<V>, m: Map<K, V>, keep: spec_fn(V) -> bool) -> bool {
    exists|ks: Seq<K>| lists_keys(out, m, keep, ks)
}

/// Whether a tenant lies in the scope; no scope takes in every tenant.
pub open spec fn in_scope(scope: Option<Seq<char>>, tenant: Seq<char>) -> bool {
    match scope {
        Some(t) => t == tenant,
        None => true,
    }
}

/// The JSON value that a text holds, null when it is not JSON.
pub open spec fn json_or_null(t: Seq<char>) -> JsonView {
    match json::json_of_text(t) {
        Parsed::Value(j) => j,
        Parsed::Refused(_) => JsonView::Null,
    }
}

/// Whether two rules have the same content: everything but their identity
/// (`id`, `node_id`, `tenant_id`) and their audit metadata (`created_at`,
/// `created_by`). Actions are compared as JSON values.
pub open spec fn content_equal(a: RuleView, b: RuleView) -> bool {
    &&& a.interface_name == b.interface_name
    &&& a.direction == b.direction
    &&& a.src_cidr == b.src_cidr
    &&& a.dst_cidr == b.dst_cidr
    &&& a.src_port == b.src_port
    &&& a.dst_port == b.dst_port
    &&& a.protocol == b.protocol
    &&& a.sni_pattern == b.sni_pattern
    &&& a.quic_version == b.quic_version
    &&& a.src_mac == b.src_mac
    &&& a.dst_mac == b.dst_mac
    &&& a.expires_after_secs == b.expires_after_secs
    &&& a.schedule_json == b.schedule_json
    &&& json::equal_json(json_or_null(a.actions_json), json_or_null(b.actions_json))
}

/// Counts of a replacement of rules.
pub struct DiffCounts {
    pub added: nat,
    pub updated: nat,
    pub deleted: nat,
    pub unchanged: nat,
}

/// A rule set on its way to a new one, and the counts so far.
pub struct Replacement {
    pub rules: Map<Seq<char>, RuleView>,
    pub counts: DiffCounts,
}

/// Whether one of the rules has that id.
pub open spec fn has_rule_id(rules: Seq<RuleView>, id: Seq<char>) -> bool {
    exists|i: int| 0 <= i < rules.len() && (#[trigger] rules[i]).id == id
}

/// The rules of a node that a new set does not name.
pub open spec fn stale_rules(
    rules: Map<Seq<char>, RuleView>,
    node_id: Seq<char>,
    new_rules: Seq<RuleView>,
) -> Map<Seq<char>, RuleView> {
    kept(
        rules,
        |id: Seq<char>, r: RuleView| r.node_id == node_id && !has_rule_id(new_rules, id),
    )
}

/// The rules after one was created: a rule that is on record under its id is overwritten,
/// but keeps when and by whom it was created.
pub open spec fn rule_created(rules: Map<Seq<char>, RuleView>, r: RuleView) -> Map<
    Seq<char>,
    RuleView,
> {
    if rules.contains_key(r.id) {
        rules.insert(
            r.id,
            RuleView {
                created_at: rules[r.id].created_at,
                created_by: rules[r.id].created_by,
                ..r
            },
        )
    } else {
        rules.insert(r.id, r)
    }
}

/// Whether a node has a rule with an id.
pub open spec fn has_own(
    rules: Map<Seq<char>, RuleView>,
    node_id: Seq<char>,
    id: Seq<char>,
) -> bool {
    rules.contains_key(id) && rules[id].node_id == node_id
}

/// One rule of the new set: a rule of its node with its id and content is left alone, one
/// with its id alone is overwritten, and where the node has none it is added, in place of
/// what another node has under the id.
pub open spec fn replace_one(p: Replacement, r: RuleView) -> Replacement {
    if has_own(p.rules, r.node_id, r.id) {
        if content_equal(p.rules[r.id], r) {
            Replacement {
                counts: DiffCounts { unchanged: p.counts.unchanged + 1, ..p.counts },
                ..p
            }
        } else {
            Replacement {
                rules: p.rules.insert(r.id, r),
                counts: DiffCounts { updated: p.counts.updated + 1, ..p.counts },
            }
        }
    } else {
        Replacement {
            rules: p.rules.insert(r.id, r),
            counts: DiffCounts { added: p.counts.added + 1, ..p.counts },
        }
    }
}

/// The rules of the new set one after the other.
pub open spec fn replace_all(p: Replacement, new_rules: Seq<RuleView>) -> Replacement
    decreases new_rules.len(),
{
    if new_rules.len() == 0 {
        p
    } else {
        replace_one(replace_all(p, new_rules.drop_last()), new_rules.last())
    }
}

/// The replacement of the rules of a node by a new set.
pub open spec fn replacement(
    rules: Map<Seq<char>, RuleView>,
    node_id: Seq<char>,
    new_rules: Seq<RuleView>,
) -> Replacement {
    let stale = stale_rules(rules, node_id, new_rules);
    replace_all(
        Replacement {
            rules: rules.remove_keys(stale.dom()),
            counts: DiffCounts {
                added: 0,
                updated: 0,
                deleted: stale.dom().len(),
                unchanged: 0,
            },
        },
        new_rules,
    )
}

/// The JSON object of an address.
pub open spec fn address_json(a: AddressReport) -> JsonView {
    JsonView::Object(
        Map::empty().insert("address"@, JsonView::Str(a.address@)).insert(
            "prefix_len"@,
            JsonView::Number(NumberView::Unsigned(a.prefix_len as nat)),
        ).insert("family"@, JsonView::Str(a.family@)),
    )
}

/// The JSON array of the addresses of an interface.
pub open spec fn addresses_json(addresses: Seq<AddressReport>) -> JsonView {
    JsonView::Array(addresses.map_values(|a: AddressReport| address_json(a)))
}

/// The record of an interface after a report: what the report says, and what the
/// controller had set before.
pub open spec fn reported_interface(
    before: Option<InterfaceView>,
    node_id: Seq<char>,
    report: InterfaceReport,
    now: Timestamp,
) -> InterfaceView {
    let fresh = InterfaceView {
        node_id,
        name: report.name@,
        ifindex: report.ifindex,
        mac_address: if report.mac_address@.len() == 0 {
            None
        } else {
            Some(report.mac_address@)
        },
        link_state: report.link_state@,
        addresses_json: json::printed_json(addresses_json(report.addresses@)),
        tag: None,
        last_reported: now,
        xdp_attached: false,
        tc_attached: false,
        fib_forwarding: false,
        urpf_mode: 0,
        inspect_enabled: false,
        ingress_default_action: None,
        egress_default_action: None,
    };
    match before {
        Some(b) => InterfaceView {
            tag: b.tag,
            xdp_attached: b.xdp_attached,
            tc_attached: b.tc_attached,
            fib_forwarding: b.fib_forwarding,
            urpf_mode: b.urpf_mode,
            inspect_enabled: b.inspect_enabled,
            ingress_default_action: b.ingress_default_action,
            egress_default_action: b.egress_default_action,
            ..fresh
        },
        None => fresh,
    }
}

/// The interfaces after some reports of a node.
pub open spec fn reported_interfaces(
    m: Map<(Seq<char>, Seq<char>), InterfaceView>,
    node_id: Seq<char>,
    reports: Seq<InterfaceReport>,
    now: Timestamp,
) -> Map<(Seq<char>, Seq<char>), InterfaceView>
    decreases reports.len(),
{
    if reports.len() == 0 {
        m
    } else {
        let earlier = reported_interfaces(m, node_id, reports.drop_last(), now);
        let report = reports.last();
        let key = (node_id, report.name@);
        let before = if earlier.contains_key(key) {
            Some(earlier[key])
        } else {
            None
        };
        earlier.insert(key, reported_interface(before, node_id, report, now))
    }
}

/// The interfaces with a change applied to each interface of one node.
pub open spec fn node_interfaces_changed(
    m: Map<(Seq<char>, Seq<char>), InterfaceView>,
    node_id: Seq<char>,
    change: spec_fn(InterfaceView) -> InterfaceView,
) -> Map<(Seq<char>, Seq<char>), InterfaceView> {
    Map::new(
        |k: (Seq<char>, Seq<char>)| m.contains_key(k),
        |k: (Seq<char>, Seq<char>)|
            if k.0 == node_id {
                change(m[k])
            } else {
                m[k]
            },
    )
}

/// Whether the name is one of the names.
pub open spec fn names_contain(names: Seq<String>, name: Seq<char>) -> bool {
    exists|i: int| 0 <= i < names.len() && (#[trigger] names[i])@ == name
}

/// Whether the pairs attach a program to the interface in that direction.
pub open spec fn attached(
    pairs: Seq<(String, String)>,
    name: Seq<char>,
    direction: Seq<char>,
) -> bool {
    exists|i: int|
        0 <= i < pairs.len() && (#[trigger] pairs[i]).0@ == name && text::lowercase(pairs[i].1@)
            == direction
}

/// The mode of an interface in a list of modes: that of its last entry, else 0.
pub open spec fn mode_of(modes: Seq<(String, u32)>, name: Seq<char>) -> u32
    decreases modes.len(),
{
    if modes.len() == 0 {
        0
    } else if modes.last().0@ == name {
        modes.last().1
    } else {
        mode_of(modes.drop_last(), name)
    }
}

/// What an agent may report of itself when it connects.
pub struct AgentInfoView {
    pub tpm_backed: bool,
    pub agent_version: Option<Seq<char>>,
    pub hostname: Option<Seq<char>>,
    pub os_pretty_name: Option<Seq<char>>,
    pub kernel_version: Option<Seq<char>>,
    pub dmi_sys_vendor: Option<Seq<char>>,
    pub dmi_product_name: Option<Seq<char>>,
    pub dmi_uuid: Option<Seq<char>>,
}

/// The new value where there is one, else the old one.
pub open spec fn coalesce(new: Option<Seq<char>>, old_value: Option<Seq<char>>) -> Option<
    Seq<char>,
> {
    match new {
        Some(_) => new,
        None => old_value,
    }
}

/// A node after its agent reported of itself. A field that the agent leaves out
/// keeps its value.
pub open spec fn with_agent_info(n: NodeView, i: AgentInfoView) -> NodeView {
    NodeView {
        tpm_backed: i.tpm_backed,
        agent_version: coalesce(i.agent_version, n.agent_version),
        hostname: coalesce(i.hostname, n.hostname),
        os_pretty_name: coalesce(i.os_pretty_name, n.os_pretty_name),
        kernel_version: coalesce(i.kernel_version, n.kernel_version),
        dmi_sys_vendor: coalesce(i.dmi_sys_vendor, n.dmi_sys_vendor),
        dmi_product_name: coalesce(i.dmi_product_name, n.dmi_product_name),
        dmi_uuid: coalesce(i.dmi_uuid, n.dmi_uuid),
        ..n
    }
}

/// Whether the capabilities of a node name the source.
pub open spec fn names_source(capabilities: Seq<char>, source: Seq<char>) -> bool {
    match json::json_of_text(capabilities) {
        Parsed::Value(JsonView::Object(m)) => m.contains_key("sources"@) && match m["sources"@] {
            JsonView::Array(items) => items.contains(JsonView::Str(source)),
            _ => false,
        },
        _ => false,
    }
}

/// What redeeming a token comes to.
pub enum RedeemView {
    Redeemed { fleet_label: Option<Seq<char>>, tenant_id: Seq<char> },
    Unknown,
    BadSecret,
    Expired,
    Revoked,
    Exhausted,
}

/// What redeeming the token comes to. The secret is looked at before the state
/// of the token.
pub open spec fn redeem_outcome(t: TokenView, hash: Seq<u8>, now: Timestamp) -> RedeemView {
    if t.token_hash != hash {
        RedeemView::BadSecret
    } else if t.revoked_at is Some {
        RedeemView::Revoked
    } else if t.expires_at.instant() <= now.instant() {
        RedeemView::Expired
    } else if t.uses_remaining <= 0 {
        RedeemView::Exhausted
    } else {
        RedeemView::Redeemed { fleet_label: t.fleet_label, tenant_id: t.tenant_id }
    }
}

/// Which alerts a reader asks for.
pub struct AlertFilterView {
    pub tenant_id: Option<Seq<char>>,
    pub node_id: Option<Seq<char>>,
    pub min_severity: Option<i32>,
    pub signature_id: Option<i64>,
    pub signature_contains: Option<Seq<char>>,
    pub include_acked: bool,
}

impl AlertFilterView {
    /// Whether the filter lets the alert pass.
    pub open spec fn passes(self, a: AlertView) -> bool {
        &&& self.include_acked || a.acked_at is None
        &&& in_scope(self.tenant_id, a.tenant_id)
        &&& in_scope(self.node_id, a.node_id)
        &&& self.min_severity matches Some(s) ==> (a.severity matches Some(v) && v <= s)
        &&& self.signature_id matches Some(sid) ==> a.signature_id == Some(sid)
        &&& self.signature_contains matches Some(part) ==> (a.signature matches Some(sig)
            && text::occurs(sig, part))
    }
}

/// The record of an alert that has just come.
pub open spec fn stored_alert(id: i64, a: NewAlertView) -> AlertView {
    AlertView {
        id,
        tenant_id: a.tenant_id,
        node_id: a.node_id,
        timestamp: a.timestamp,
        received_ns: a.received_ns,
        src_ip: a.src_ip,
        src_port: a.src_port,
        dst_ip: a.dst_ip,
        dst_port: a.dst_port,
        proto: a.proto,
        action: a.action,
        signature_id: a.signature_id,
        signature: a.signature,
        category: a.category,
        severity: a.severity,
        raw_json: a.raw_json,
        acked_at: None,
    }
}

/// Whether an operator of the tenant, perhaps looking at one node, means the alert.
pub open spec fn alert_meant(a: AlertView, tenant: Seq<char>, node: Option<Seq<char>>) -> bool {
    a.tenant_id == tenant && in_scope(node, a.node_id)
}

impl StoreModel {
    /// Nothing at all.
    pub open spec fn empty() -> StoreModel {
        StoreModel {
            nodes: Map::empty(),
            enrollments: Map::empty(),
            rules: Map::empty(),
            revoked: Set::empty(),
            certs: Map::empty(),
            interfaces: Map::empty(),
            audit: Seq::empty(),
            tokens: Map::empty(),
            rulesets: Map::empty(),
            assignments: Set::empty(),
            rule_files: Map::empty(),
            alerts: Seq::empty(),
        }
    }

    /// Whether every rule is kept under its id.
    pub open spec fn rules_keyed(self) -> bool {
        forall|k: Seq<char>| #[trigger] self.rules.contains_key(k) ==> self.rules[k].id == k
    }

    /// Whether every interface is kept under its node and name.
    pub open spec fn interfaces_keyed(self) -> bool {
        forall|k: (Seq<char>, Seq<char>)| #[trigger]
            self.interfaces.contains_key(k) ==> self.interfaces[k].node_id == k.0
                && self.interfaces[k].name == k.1
    }

    /// With the node in place of one with its id, found under its enrollment.
    pub open spec fn with_node(self, n: NodeView) -> StoreModel {
        StoreModel {
            nodes: self.nodes.insert(n.id, n),
            enrollments: match n.enrollment_id {
                Some(e) => self.enrollments.insert(e, n.id),
                None => self.enrollments,
            },
            ..self
        }
    }

    /// With another record for a node.
    pub open spec fn node_changed(self, id: Seq<char>, n: NodeView) -> StoreModel {
        StoreModel { nodes: self.nodes.insert(id, n), ..self }
    }

    /// Without the node, its rules, interfaces, credentials and enrollments.
    pub open spec fn without_node(self, id: Seq<char>) -> StoreModel {
        StoreModel {
            nodes: self.nodes.remove(id),
            rules: kept(self.rules, |k: Seq<char>, r: RuleView| r.node_id != id),
            interfaces: kept(
                self.interfaces,
                |k: (Seq<char>, Seq<char>), i: InterfaceView| k.0 != id,
            ),
            certs: self.certs.remove(id),
            enrollments: kept(self.enrollments, |k: Seq<char>, v: Seq<char>| v != id),
            ..self
        }
    }

    /// The tenant of an audit entry: the explicit one, else that of the node,
    /// else `"default"`.
    pub open spec fn audit_tenant(self, e: NewAuditView) -> Seq<char> {
        match (e.tenant_id, e.node_id) {
            (Some(t), _) => t,
            (None, Some(n)) => if self.nodes.contains_key(n) {
                self.nodes[n].tenant_id
            } else {
                "default"@
            },
            (None, None) => "default"@,
        }
    }

    /// The audit entry that a new entry becomes.
    pub open spec fn audit_entry(self, id: i64, e: NewAuditView, now: Timestamp) -> AuditView {
        AuditView {
            id,
            ts: now,
            operator: e.operator,
            action: e.action,
            node_id: e.node_id,
            detail: e.detail,
            tenant_id: self.audit_tenant(e),
        }
    }

    /// With an entry at the end of the audit log.
    pub open spec fn audited(self, id: i64, e: NewAuditView, now: Timestamp) -> StoreModel {
        StoreModel { audit: self.audit.push(self.audit_entry(id, e, now)), ..self }
    }

    /// The audit entries that a condition lets pass, newest first.
    pub open spec fn audit_newest_first(self, keep: spec_fn(AuditView) -> bool) -> Seq<AuditView> {
        self.audit.reverse().filter(keep)
    }
}

/// At most `limit` values, after the first `offset`.
pub open spec fn page<T>(s: Seq<T>, offset: nat, limit: nat) -> Seq<T> {
    let rest = if offset <= s.len() {
        s.skip(offset as int)
    } else {
        Seq::empty()
    };
    if limit <= rest.len() {
        rest.take(limit as int)
    } else {
        rest
    }
}

} // verus!
