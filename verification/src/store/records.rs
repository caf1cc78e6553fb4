//! The records that a controller keeps.

use crate::text;
use crate::timestamp::Timestamp;
use vstd::prelude::*;

verus! {

broadcast use vstd::string::group_string_axioms;

/// The view of optional bytes.
pub open spec fn opt_bytes(o: Option<Vec<u8>>) -> Option<Seq<u8>> {
    match o {
        Some(v) => Some(v@),
        None => None,
    }
}

/// A copy of some bytes.
pub fn copy_bytes(v: &[u8]) -> (r: Vec<u8>)
    ensures
        r@ == v@,
{
    let mut r: Vec<u8> = Vec::new();
    let mut i: usize = 0;
    while i < v.len()
        invariant
            i <= v@.len(),
            r@ == v@.take(i as int),
        decreases v@.len() - i,
    {
        r.push(v[i]);
        i = i + 1;
        assert(v@.take(i as int) =~= v@.take(i - 1).push(v@[i - 1]));
    }
    assert(v@.take(i as int) =~= v@);
    r
}

/// A copy of optional bytes.
pub fn copy_opt_bytes(o: &Option<Vec<u8>>) -> (r: Option<Vec<u8>>)
    ensures
        opt_bytes(r) == opt_bytes(*o),
{
    match o {
        Some(v) => Some(copy_bytes(v)),
        None => None,
    }
}

/// A copy of an optional string.
pub fn copy_opt(o: &Option<String>) -> (r: Option<String>)
    ensures
        r == *o,
{
    match o {
        Some(s) => Some(s.clone()),
        None => None,
    }
}

/// Whether two byte strings are the same.
pub fn same_bytes(a: &[u8], b: &[u8]) -> (r: bool)
    ensures
        r == (a@ == b@),
{
    if a.len() != b.len() {
        return false;
    }
    let mut i: usize = 0;
    while i < a.len()
        invariant
            i <= a@.len() == b@.len(),
            forall|j: int| 0 <= j < i ==> a@[j] == b@[j],
        decreases a@.len() - i,
    {
        if a[i] != b[i] {
            return false;
        }
        i = i + 1;
    }
    assert(a@ =~= b@);
    true
}

/// Where a node stands in its life.
#[derive(Clone, Copy, Debug, PartialEq, Eq, Structural)]
pub enum NodeStatus {
    /// Enrollment request submitted, awaiting admin approval.
    Pending,
    /// Approved, enrolled, and actively managed.
    Active,
    /// Decommissioned — cert revoked, rejected on next connect.
    Decommissioned,
}

impl NodeStatus {
    /// The word for the status.
    pub open spec fn word(self) -> Seq<char> {
        match self {
            NodeStatus::Pending => "pending"@,
            NodeStatus::Active => "active"@,
            NodeStatus::Decommissioned => "decommissioned"@,
        }
    }

    /// The word for the status.
    pub fn to_text(&self) -> (s: String)
        ensures
            s@ == self.word(),
    {
        match self {
            NodeStatus::Pending => "pending".to_string(),
            NodeStatus::Active => "active".to_string(),
            NodeStatus::Decommissioned => "decommissioned".to_string(),
        }
    }

    /// The status that a word stands for.
    pub fn from_text(s: &str) -> (r: Option<NodeStatus>)
        ensures
            match r {
                Some(status) => status.word() == s@,
                None => forall|status: NodeStatus| #[trigger] status.word() != s@,
            },
    {
        if text::same(s, "pending") {
            Some(NodeStatus::Pending)
        } else if text::same(s, "active") {
            Some(NodeStatus::Active)
        } else if text::same(s, "decommissioned") {
            Some(NodeStatus::Decommissioned)
        } else {
            None
        }
    }
}

/// Persistent record for a managed node.
pub struct NodeRecord {
    /// hex(SHA-256(SPKI DER)) — never changes for a given key.
    pub id: String,
    /// Human-readable label set by the operator.
    pub label: Option<String>,
    /// DER-encoded SPKI public key bytes.
    pub public_key_der: Vec<u8>,
    /// DMI system UUID, for display only.
    pub dmi_uuid: Option<String>,
    pub status: NodeStatus,
    /// DER-encoded serial number of the issued mTLS client cert.
    pub cert_serial: Option<Vec<u8>>,
    pub cert_expiry: Option<Timestamp>,
    pub last_seen: Option<Timestamp>,
    pub enrolled_at: Option<Timestamp>,
    pub decommissioned_at: Option<Timestamp>,
    /// When the client cert was last renewed; `None` until the first renewal.
    pub last_renewed_at: Option<Timestamp>,
    /// UUID of the enrollment request.
    pub enrollment_id: Option<String>,
    /// Whether the node reported a TPM-backed key.
    pub tpm_backed: bool,
    /// Agent version string reported during enrollment.
    pub agent_version: Option<String>,
    /// OS hostname reported by the agent, for display only.
    pub hostname: Option<String>,
    /// OS pretty name, e.g. "Debian GNU/Linux 13 (trixie)".
    pub os_pretty_name: Option<String>,
    /// Kernel version, e.g. "6.12.74+deb13+1-amd64".
    pub kernel_version: Option<String>,
    /// DMI sys_vendor, e.g. "Dell Inc.".
    pub dmi_sys_vendor: Option<String>,
    /// DMI product_name, e.g. "PowerEdge R340".
    pub dmi_product_name: Option<String>,
    /// Tenant for multi-tenancy support.
    pub tenant_id: String,
    /// Operator-configured stop behavior ("clear-state" or "preserve-state").
    /// `None` means that the node uses its local default.
    pub stop_behavior: Option<String>,
    /// Operator-configured metrics interval in seconds.
    /// `None` means that the agent uses its local default.
    pub metrics_interval_secs: Option<u32>,
    /// JSON-encoded capabilities from the most recent AgentHello.
    pub capabilities: String,
    /// How the node inspects traffic; "disabled" until an operator sets it.
    pub inspect_mode: String,
}

/// What a node record holds.
pub struct NodeView {
    pub id: Seq<char>,
    pub label: Option<Seq<char>>,
    pub public_key_der: Seq<u8>,
    pub dmi_uuid: Option<Seq<char>>,
    pub status: NodeStatus,
    pub cert_serial: Option<Seq<u8>>,
    pub cert_expiry: Option<Timestamp>,
    pub last_seen: Option<Timestamp>,
    pub enrolled_at: Option<Timestamp>,
    pub decommissioned_at: Option<Timestamp>,
    pub last_renewed_at: Option<Timestamp>,
    pub enrollment_id: Option<Seq<char>>,
    pub tpm_backed: bool,
    pub agent_version: Option<Seq<char>>,
    pub hostname: Option<Seq<char>>,
    pub os_pretty_name: Option<Seq<char>>,
    pub kernel_version: Option<Seq<char>>,
    pub dmi_sys_vendor: Option<Seq<char>>,
    pub dmi_product_name: Option<Seq<char>>,
    pub tenant_id: Seq<char>,
    pub stop_behavior: Option<Seq<char>>,
    pub metrics_interval_secs: Option<u32>,
    pub capabilities: Seq<char>,
    pub inspect_mode: Seq<char>,
}

impl View for NodeRecord {
    type V = NodeView;

    open spec fn view(&self) -> NodeView {
        NodeView {
            id: self.id@,
            label: text::opt_text(self.label),
            public_key_der: self.public_key_der@,
            dmi_uuid: text::opt_text(self.dmi_uuid),
            status: self.status,
            cert_serial: opt_bytes(self.cert_serial),
            cert_expiry: self.cert_expiry,
            last_seen: self.last_seen,
            enrolled_at: self.enrolled_at,
            decommissioned_at: self.decommissioned_at,
            last_renewed_at: self.last_renewed_at,
            enrollment_id: text::opt_text(self.enrollment_id),
            tpm_backed: self.tpm_backed,
            agent_version: text::opt_text(self.agent_version),
            hostname: text::opt_text(self.hostname),
            os_pretty_name: text::opt_text(self.os_pretty_name),
            kernel_version: text::opt_text(self.kernel_version),
            dmi_sys_vendor: text::opt_text(self.dmi_sys_vendor),
            dmi_product_name: text::opt_text(self.dmi_product_name),
            tenant_id: self.tenant_id@,
            stop_behavior: text::opt_text(self.stop_behavior),
            metrics_interval_secs: self.metrics_interval_secs,
            capabilities: self.capabilities@,
            inspect_mode: self.inspect_mode@,
        }
    }
}

impl Clone for NodeRecord {
    fn clone(&self) -> (r: Self)
        ensures
            r@ == self@,
    {
        NodeRecord {
            id: self.id.clone(),
            label: copy_opt(&self.label),
            public_key_der: copy_bytes(&self.public_key_der),
            dmi_uuid: copy_opt(&self.dmi_uuid),
            status: self.status,
            cert_serial: copy_opt_bytes(&self.cert_serial),
            cert_expiry: self.cert_expiry,
            last_seen: self.last_seen,
            enrolled_at: self.enrolled_at,
            decommissioned_at: self.decommissioned_at,
            last_renewed_at: self.last_renewed_at,
            enrollment_id: copy_opt(&self.enrollment_id),
            tpm_backed: self.tpm_backed,
            agent_version: copy_opt(&self.agent_version),
            hostname: copy_opt(&self.hostname),
            os_pretty_name: copy_opt(&self.os_pretty_name),
            kernel_version: copy_opt(&self.kernel_version),
            dmi_sys_vendor: copy_opt(&self.dmi_sys_vendor),
            dmi_product_name: copy_opt(&self.dmi_product_name),
            tenant_id: self.tenant_id.clone(),
            stop_behavior: copy_opt(&self.stop_behavior),
            metrics_interval_secs: self.metrics_interval_secs,
            capabilities: self.capabilities.clone(),
            inspect_mode: self.inspect_mode.clone(),
        }
    }
}

/// A policy rule scoped to a specific (tenant, node, interface, direction).
pub struct Rule {
    /// Timestamp-based numeric ID (stored as string for ergonomics).
    pub id: String,
    /// Tenant identifier for multi-tenancy.
    pub tenant_id: String,
    /// Node this rule belongs to.
    pub node_id: String,
    /// Network interface this rule applies to.
    pub interface_name: String,
    /// "ingress" or "egress".
    pub direction: String,
    /// Source CIDR (e.g. "10.0.0.0/8"), None = any.
    pub src_cidr: Option<String>,
    /// Destination CIDR, None = any.
    pub dst_cidr: Option<String>,
    /// Source port (0 = any).
    pub src_port: Option<u32>,
    /// Destination port (0 = any).
    pub dst_port: Option<u32>,
    /// Protocol: "tcp", "udp", "icmp", "icmpv6", "any".
    pub protocol: String,
    /// TLS SNI pattern (exact or "*.suffix").
    pub sni_pattern: Option<String>,
    /// QUIC version filter ("v1", "v2", "any").
    pub quic_version: Option<String>,
    /// Source MAC address.
    pub src_mac: Option<String>,
    /// Destination MAC address.
    pub dst_mac: Option<String>,
    /// Actions as JSON array: [{"action":"drop","priority":0}].
    pub actions_json: String,
    pub created_at: Timestamp,
    /// Operator who created this rule.
    pub created_by: Option<String>,
    /// Remove the rule after this many seconds. Mutually exclusive with schedule_json.
    pub expires_after_secs: Option<u32>,
    /// JSON-serialized schedule object with `timezone` and `windows` fields.
    /// Mutually exclusive with expires_after_secs.
    pub schedule_json: Option<String>,
}

/// What a rule holds.
pub struct RuleView {
    pub id: Seq<char>,
    pub tenant_id: Seq<char>,
    pub node_id: Seq<char>,
    pub interface_name: Seq<char>,
    pub direction: Seq<char>,
    pub src_cidr: Option<Seq<char>>,
    pub dst_cidr: Option<Seq<char>>,
    pub src_port: Option<u32>,
    pub dst_port: Option<u32>,
    pub protocol: Seq<char>,
    pub sni_pattern: Option<Seq<char>>,
    pub quic_version: Option<Seq<char>>,
    pub src_mac: Option<Seq<char>>,
    pub dst_mac: Option<Seq<char>>,
    pub actions_json: Seq<char>,
    pub created_at: Timestamp,
    pub created_by: Option<Seq<char>>,
    pub expires_after_secs: Option<u32>,
    pub schedule_json: Option<Seq<char>>,
}

impl View for Rule {
    type V = RuleView;

    open spec fn view(&self) -> RuleView {
        RuleView {
            id: self.id@,
            tenant_id: self.tenant_id@,
            node_id: self.node_id@,
            interface_name: self.interface_name@,
            direction: self.direction@,
            src_cidr: text::opt_text(self.src_cidr),
            dst_cidr: text::opt_text(self.dst_cidr),
            src_port: self.src_port,
            dst_port: self.dst_port,
            protocol: self.protocol@,
            sni_pattern: text::opt_text(self.sni_pattern),
            quic_version: text::opt_text(self.quic_version),
            src_mac: text::opt_text(self.src_mac),
            dst_mac: text::opt_text(self.dst_mac),
            actions_json: self.actions_json@,
            created_at: self.created_at,
            created_by: text::opt_text(self.created_by),
            expires_after_secs: self.expires_after_secs,
            schedule_json: text::opt_text(self.schedule_json),
        }
    }
}

impl Clone for Rule {
    fn clone(&self) -> (r: Self)
        ensures
            r@ == self@,
    {
        Rule {
            id: self.id.clone(),
            tenant_id: self.tenant_id.clone(),
            node_id: self.node_id.clone(),
            interface_name: self.interface_name.clone(),
            direction: self.direction.clone(),
            src_cidr: copy_opt(&self.src_cidr),
            dst_cidr: copy_opt(&self.dst_cidr),
            src_port: self.src_port,
            dst_port: self.dst_port,
            protocol: self.protocol.clone(),
            sni_pattern: copy_opt(&self.sni_pattern),
            quic_version: copy_opt(&self.quic_version),
            src_mac: copy_opt(&self.src_mac),
            dst_mac: copy_opt(&self.dst_mac),
            actions_json: self.actions_json.clone(),
            created_at: self.created_at,
            created_by: copy_opt(&self.created_by),
            expires_after_secs: self.expires_after_secs,
            schedule_json: copy_opt(&self.schedule_json),
        }
    }
}

/// A network interface discovered on a node, with optional operator-assigned tag.
pub struct NodeInterface {
    pub node_id: String,
    pub name: String,
    /// Linux interface index. 0 if unknown (older agent or report omitted it).
    pub ifindex: u32,
    pub mac_address: Option<String>,
    pub link_state: String,
    /// JSON array of {address, prefix_len, family}.
    pub addresses_json: String,
    /// Operator-assigned tag (e.g. "WAN", "LAN").
    pub tag: Option<String>,
    pub last_reported: Timestamp,
    /// XDP ingress program attached to this interface.
    pub xdp_attached: bool,
    /// TC egress program attached to this interface.
    pub tc_attached: bool,
    /// Whether XDP FIB forwarding is enabled on this interface (ingress only).
    pub fib_forwarding: bool,
    /// Reverse-path filtering mode; 0 is off.
    pub urpf_mode: u32,
    /// Whether traffic of this interface is inspected.
    pub inspect_enabled: bool,
    /// Default action for unmatched ingress packets ("pass" or "drop").
    pub ingress_default_action: Option<String>,
    /// Default action for unmatched egress packets ("pass" or "drop").
    pub egress_default_action: Option<String>,
}

/// What an interface record holds.
pub struct InterfaceView {
    pub node_id: Seq<char>,
    pub name: Seq<char>,
    pub ifindex: u32,
    pub mac_address: Option<Seq<char>>,
    pub link_state: Seq<char>,
    pub addresses_json: Seq<char>,
    pub tag: Option<Seq<char>>,
    pub last_reported: Timestamp,
    pub xdp_attached: bool,
    pub tc_attached: bool,
    pub fib_forwarding: bool,
    pub urpf_mode: u32,
    pub inspect_enabled: bool,
    pub ingress_default_action: Option<Seq<char>>,
    pub egress_default_action: Option<Seq<char>>,
}

impl View for NodeInterface {
    type V = InterfaceView;

    open spec fn view(&self) -> InterfaceView {
        InterfaceView {
            node_id: self.node_id@,
            name: self.name@,
            ifindex: self.ifindex,
            mac_address: text::opt_text(self.mac_address),
            link_state: self.link_state@,
            addresses_json: self.addresses_json@,
            tag: text::opt_text(self.tag),
            last_reported: self.last_reported,
            xdp_attached: self.xdp_attached,
            tc_attached: self.tc_attached,
            fib_forwarding: self.fib_forwarding,
            urpf_mode: self.urpf_mode,
            inspect_enabled: self.inspect_enabled,
            ingress_default_action: text::opt_text(self.ingress_default_action),
            egress_default_action: text::opt_text(self.egress_default_action),
        }
    }
}

impl Clone for NodeInterface {
    fn clone(&self) -> (r: Self)
        ensures
            r@ == self@,
    {
        NodeInterface {
            node_id: self.node_id.clone(),
            name: self.name.clone(),
            ifindex: self.ifindex,
            mac_address: copy_opt(&self.mac_address),
            link_state: self.link_state.clone(),
            addresses_json: self.addresses_json.clone(),
            tag: copy_opt(&self.tag),
            last_reported: self.last_reported,
            xdp_attached: self.xdp_attached,
            tc_attached: self.tc_attached,
            fib_forwarding: self.fib_forwarding,
            urpf_mode: self.urpf_mode,
            inspect_enabled: self.inspect_enabled,
            ingress_default_action: copy_opt(&self.ingress_default_action),
            egress_default_action: copy_opt(&self.egress_default_action),
        }
    }
}

/// A ZTP enrollment token. Operators mint these; the bundle that goes with one
/// is distributed to agents at provisioning time.
pub struct EnrollmentTokenRecord {
    /// UUID identifying this token. Also embedded in the bundle.
    pub token_id: String,
    /// SHA-256 of the random token secret.
    pub token_hash: Vec<u8>,
    pub created_at: Timestamp,
    pub created_by: Option<String>,
    pub expires_at: Timestamp,
    pub uses_remaining: i64,
    pub cidr_scope: Option<String>,
    pub fleet_label: Option<String>,
    pub revoked_at: Option<Timestamp>,
    /// Tenant the token was minted under (slug, e.g. `"default"`).
    pub tenant_id: String,
}

/// What an enrollment token holds.
pub struct TokenView {
    pub token_id: Seq<char>,
    pub token_hash: Seq<u8>,
    pub created_at: Timestamp,
    pub created_by: Option<Seq<char>>,
    pub expires_at: Timestamp,
    pub uses_remaining: i64,
    pub cidr_scope: Option<Seq<char>>,
    pub fleet_label: Option<Seq<char>>,
    pub revoked_at: Option<Timestamp>,
    pub tenant_id: Seq<char>,
}

impl View for EnrollmentTokenRecord {
    type V = TokenView;

    open spec fn view(&self) -> TokenView {
        TokenView {
            token_id: self.token_id@,
            token_hash: self.token_hash@,
            created_at: self.created_at,
            created_by: text::opt_text(self.created_by),
            expires_at: self.expires_at,
            uses_remaining: self.uses_remaining,
            cidr_scope: text::opt_text(self.cidr_scope),
            fleet_label: text::opt_text(self.fleet_label),
            revoked_at: self.revoked_at,
            tenant_id: self.tenant_id@,
        }
    }
}

impl Clone for EnrollmentTokenRecord {
    fn clone(&self) -> (r: Self)
        ensures
            r@ == self@,
    {
        EnrollmentTokenRecord {
            token_id: self.token_id.clone(),
            token_hash: copy_bytes(&self.token_hash),
            created_at: self.created_at,
            created_by: copy_opt(&self.created_by),
            expires_at: self.expires_at,
            uses_remaining: self.uses_remaining,
            cidr_scope: copy_opt(&self.cidr_scope),
            fleet_label: copy_opt(&self.fleet_label),
            revoked_at: self.revoked_at,
            tenant_id: self.tenant_id.clone(),
        }
    }
}

/// An audit log entry recording operator actions.
pub struct AuditEntry {
    pub id: i64,
    pub ts: Timestamp,
    pub operator: Option<String>,
    pub action: String,
    pub node_id: Option<String>,
    pub detail: Option<String>,
    /// Tenant slug as resolved by `append_audit` (explicit > node lookup > `"default"`).
    pub tenant_id: String,
}

/// What an audit log entry holds.
pub struct AuditView {
    pub id: i64,
    pub ts: Timestamp,
    pub operator: Option<Seq<char>>,
    pub action: Seq<char>,
    pub node_id: Option<Seq<char>>,
    pub detail: Option<Seq<char>>,
    pub tenant_id: Seq<char>,
}

impl View for AuditEntry {
    type V = AuditView;

    open spec fn view(&self) -> AuditView {
        AuditView {
            id: self.id,
            ts: self.ts,
            operator: text::opt_text(self.operator),
            action: self.action@,
            node_id: text::opt_text(self.node_id),
            detail: text::opt_text(self.detail),
            tenant_id: self.tenant_id@,
        }
    }
}

impl Clone for AuditEntry {
    fn clone(&self) -> (r: Self)
        ensures
            r@ == self@,
    {
        AuditEntry {
            id: self.id,
            ts: self.ts,
            operator: copy_opt(&self.operator),
            action: self.action.clone(),
            node_id: copy_opt(&self.node_id),
            detail: copy_opt(&self.detail),
            tenant_id: self.tenant_id.clone(),
        }
    }
}

/// Parameters for inserting a new audit entry (id is auto-assigned).
pub struct NewAuditEntry {
    pub operator: Option<String>,
    pub action: String,
    pub node_id: Option<String>,
    pub detail: Option<String>,
    /// Tenant slug to attach to the row. `Some(slug)` is used verbatim; `None` with a
    /// `node_id` takes the tenant of that node; else the tenant is `"default"`.
    pub tenant_id: Option<String>,
}

/// What a new audit entry holds.
pub struct NewAuditView {
    pub operator: Option<Seq<char>>,
    pub action: Seq<char>,
    pub node_id: Option<Seq<char>>,
    pub detail: Option<Seq<char>>,
    pub tenant_id: Option<Seq<char>>,
}

impl View for NewAuditEntry {
    type V = NewAuditView;

    open spec fn view(&self) -> NewAuditView {
        NewAuditView {
            operator: text::opt_text(self.operator),
            action: self.action@,
            node_id: text::opt_text(self.node_id),
            detail: text::opt_text(self.detail),
            tenant_id: text::opt_text(self.tenant_id),
        }
    }
}

impl Clone for NewAuditEntry {
    fn clone(&self) -> (r: Self)
        ensures
            r@ == self@,
    {
        NewAuditEntry {
            operator: copy_opt(&self.operator),
            action: self.action.clone(),
            node_id: copy_opt(&self.node_id),
            detail: copy_opt(&self.detail),
            tenant_id: copy_opt(&self.tenant_id),
        }
    }
}

/// A fleet-managed Suricata ruleset.
pub struct SuricataRuleset {
    pub id: String,
    pub tenant_id: String,
    pub name: String,
    pub content: String,
    /// Hex SHA-256 over the content bytes.
    pub sha256: String,
    pub rule_count: u32,
    pub created_at: Timestamp,
    pub updated_at: Timestamp,
}

/// What a ruleset holds.
pub struct RulesetView {
    pub id: Seq<char>,
    pub tenant_id: Seq<char>,
    pub name: Seq<char>,
    pub content: Seq<char>,
    pub sha256: Seq<char>,
    pub rule_count: u32,
    pub created_at: Timestamp,
    pub updated_at: Timestamp,
}

impl View for SuricataRuleset {
    type V = RulesetView;

    open spec fn view(&self) -> RulesetView {
        RulesetView {
            id: self.id@,
            tenant_id: self.tenant_id@,
            name: self.name@,
            content: self.content@,
            sha256: self.sha256@,
            rule_count: self.rule_count,
            created_at: self.created_at,
            updated_at: self.updated_at,
        }
    }
}

impl RulesetView {
    /// The name of the file in which the ruleset materialises on a node.
    pub open spec fn file(self) -> Seq<char> {
        "fleet-"@ + self.name + ".rules"@
    }
}

impl SuricataRuleset {
    /// The name of the file in which the ruleset materialises on a node.
    pub fn filename(&self) -> (s: String)
        ensures
            s@ == self@.file(),
    {
        text::concat3("fleet-", self.name.as_str(), ".rules")
    }
}

impl Clone for SuricataRuleset {
    fn clone(&self) -> (r: Self)
        ensures
            r@ == self@,
    {
        SuricataRuleset {
            id: self.id.clone(),
            tenant_id: self.tenant_id.clone(),
            name: self.name.clone(),
            content: self.content.clone(),
            sha256: self.sha256.clone(),
            rule_count: self.rule_count,
            created_at: self.created_at,
            updated_at: self.updated_at,
        }
    }
}

/// A Suricata rule file that an agent reports.
pub struct SuricataRuleFileReport {
    pub node_id: String,
    pub filename: String,
    pub sha256: String,
    pub rule_count: u32,
}

/// What a reported rule file holds.
pub struct RuleFileView {
    pub node_id: Seq<char>,
    pub filename: Seq<char>,
    pub sha256: Seq<char>,
    pub rule_count: u32,
}

impl View for SuricataRuleFileReport {
    type V = RuleFileView;

    open spec fn view(&self) -> RuleFileView {
        RuleFileView {
            node_id: self.node_id@,
            filename: self.filename@,
            sha256: self.sha256@,
            rule_count: self.rule_count,
        }
    }
}

impl Clone for SuricataRuleFileReport {
    fn clone(&self) -> (r: Self)
        ensures
            r@ == self@,
    {
        SuricataRuleFileReport {
            node_id: self.node_id.clone(),
            filename: self.filename.clone(),
            sha256: self.sha256.clone(),
            rule_count: self.rule_count,
        }
    }
}

/// A Suricata alert as it arrives.
pub struct NewSuricataAlert {
    pub tenant_id: String,
    pub node_id: String,
    pub timestamp: String,
    pub received_ns: i64,
    pub src_ip: Option<String>,
    pub src_port: Option<i32>,
    pub dst_ip: Option<String>,
    pub dst_port: Option<i32>,
    pub proto: Option<String>,
    pub action: Option<String>,
    pub signature_id: Option<i64>,
    pub signature: Option<String>,
    pub category: Option<String>,
    /// Lower numbers are more urgent.
    pub severity: Option<i32>,
    pub raw_json: String,
}

/// What an arriving alert holds.
pub struct NewAlertView {
    pub tenant_id: Seq<char>,
    pub node_id: Seq<char>,
    pub timestamp: Seq<char>,
    pub received_ns: i64,
    pub src_ip: Option<Seq<char>>,
    pub src_port: Option<i32>,
    pub dst_ip: Option<Seq<char>>,
    pub dst_port: Option<i32>,
    pub proto: Option<Seq<char>>,
    pub action: Option<Seq<char>>,
    pub signature_id: Option<i64>,
    pub signature: Option<Seq<char>>,
    pub category: Option<Seq<char>>,
    pub severity: Option<i32>,
    pub raw_json: Seq<char>,
}

impl View for NewSuricataAlert {
    type V = NewAlertView;

    open spec fn view(&self) -> NewAlertView {
        NewAlertView {
            tenant_id: self.tenant_id@,
            node_id: self.node_id@,
            timestamp: self.timestamp@,
            received_ns: self.received_ns,
            src_ip: text::opt_text(self.src_ip),
            src_port: self.src_port,
            dst_ip: text::opt_text(self.dst_ip),
            dst_port: self.dst_port,
            proto: text::opt_text(self.proto),
            action: text::opt_text(self.action),
            signature_id: self.signature_id,
            signature: text::opt_text(self.signature),
            category: text::opt_text(self.category),
            severity: self.severity,
            raw_json: self.raw_json@,
        }
    }
}

impl Clone for NewSuricataAlert {
    fn clone(&self) -> (r: Self)
        ensures
            r@ == self@,
    {
        NewSuricataAlert {
            tenant_id: self.tenant_id.clone(),
            node_id: self.node_id.clone(),
            timestamp: self.timestamp.clone(),
            received_ns: self.received_ns,
            src_ip: copy_opt(&self.src_ip),
            src_port: self.src_port,
            dst_ip: copy_opt(&self.dst_ip),
            dst_port: self.dst_port,
            proto: copy_opt(&self.proto),
            action: copy_opt(&self.action),
            signature_id: self.signature_id,
            signature: copy_opt(&self.signature),
            category: copy_opt(&self.category),
            severity: self.severity,
            raw_json: self.raw_json.clone(),
        }
    }
}

/// A stored Suricata alert.
pub struct SuricataAlertRecord {
    pub id: i64,
    pub tenant_id: String,
    pub node_id: String,
    pub timestamp: String,
    pub received_ns: i64,
    pub src_ip: Option<String>,
    pub src_port: Option<i32>,
    pub dst_ip: Option<String>,
    pub dst_port: Option<i32>,
    pub proto: Option<String>,
    pub action: Option<String>,
    pub signature_id: Option<i64>,
    pub signature: Option<String>,
    pub category: Option<String>,
    /// Lower numbers are more urgent.
    pub severity: Option<i32>,
    pub raw_json: String,
    /// When an operator acknowledged it, in nanoseconds.
    pub acked_at: Option<i64>,
}

/// What a stored alert holds.
pub struct AlertView {
    pub id: i64,
    pub tenant_id: Seq<char>,
    pub node_id: Seq<char>,
    pub timestamp: Seq<char>,
    pub received_ns: i64,
    pub src_ip: Option<Seq<char>>,
    pub src_port: Option<i32>,
    pub dst_ip: Option<Seq<char>>,
    pub dst_port: Option<i32>,
    pub proto: Option<Seq<char>>,
    pub action: Option<Seq<char>>,
    pub signature_id: Option<i64>,
    pub signature: Option<Seq<char>>,
    pub category: Option<Seq<char>>,
    pub severity: Option<i32>,
    pub raw_json: Seq<char>,
    pub acked_at: Option<i64>,
}

impl View for SuricataAlertRecord {
    type V = AlertView;

    open spec fn view(&self) -> AlertView {
        AlertView {
            id: self.id,
            tenant_id: self.tenant_id@,
            node_id: self.node_id@,
            timestamp: self.timestamp@,
            received_ns: self.received_ns,
            src_ip: text::opt_text(self.src_ip),
            src_port: self.src_port,
            dst_ip: text::opt_text(self.dst_ip),
            dst_port: self.dst_port,
            proto: text::opt_text(self.proto),
            action: text::opt_text(self.action),
            signature_id: self.signature_id,
            signature: text::opt_text(self.signature),
            category: text::opt_text(self.category),
            severity: self.severity,
            raw_json: self.raw_json@,
            acked_at: self.acked_at,
        }
    }
}

impl Clone for SuricataAlertRecord {
    fn clone(&self) -> (r: Self)
        ensures
            r@ == self@,
    {
        SuricataAlertRecord {
            id: self.id,
            tenant_id: self.tenant_id.clone(),
            node_id: self.node_id.clone(),
            timestamp: self.timestamp.clone(),
            received_ns: self.received_ns,
            src_ip: copy_opt(&self.src_ip),
            src_port: self.src_port,
            dst_ip: copy_opt(&self.dst_ip),
            dst_port: self.dst_port,
            proto: copy_opt(&self.proto),
            action: copy_opt(&self.action),
            signature_id: self.signature_id,
            signature: copy_opt(&self.signature),
            category: copy_opt(&self.category),
            severity: self.severity,
            raw_json: self.raw_json.clone(),
            acked_at: self.acked_at,
        }
    }
}

} // verus!
