//! What the messages of an agent do to what is on record, and what an agent is sent of it.

use super::confirm;
use super::enrollment;
use super::greeting;
use super::hub::HubView;
use super::lifecycle;
use super::messages;
use super::outbox::{OutboxView, SendError};
use super::renewal::{self, PeerLeaf};
use super::restore;
use super::status::{RpcCode, RpcStatus};
use crate::json::{self, JsonView, NumberView, Parsed};
use crate::node_registry::{self, RegistryError};
use crate::pending::registry::{GenerationView, OutcomeView};
use crate::proto::{
    AgentCapabilities, AgentHello, AgentPayload, BpfDirection, ConfigConfirm, ConfirmedAs,
    DeltaView, EnrollRequest, EnrollmentResponse, EnrollmentStatusResponse, PayloadView,
    StateSnapshot, PROTOCOL_VERSION,
};
use crate::reconciliation::{self, delta_laws, drift};
use crate::store::model::{self, StoreModel};
use crate::store::records::{InterfaceView, NodeView, RuleView};
use crate::store::{self, NodeStatus, Rule, StoreError};
use crate::text;
use crate::timestamp::Timestamp;
use crate::ttl_reaper;
use vstd::prelude::*;

verus! {

/// An agent may stay just where it speaks the version of the controller, its node is on
/// record and active, and the certificate on record for it is not revoked.
pub proof fn agent_may_stay_just_where(m: StoreModel, hello: AgentHello)
    ensures
        greeting::refusal(m, hello) is None <==> {
            let n = m.nodes[hello.node_id@];
            &&& hello.protocol_version == PROTOCOL_VERSION
            &&& m.nodes.contains_key(hello.node_id@)
            &&& n.status == NodeStatus::Active
            &&& !(n.cert_serial is Some && n.cert_serial->0.len() > 0 && m.revoked.contains(
                n.cert_serial->0,
            ))
        },
{
}

/// Whether a field is what was told, or what it was where nothing was told.
pub open spec fn takes_or_keeps(
    field: Option<Seq<char>>,
    told: Seq<char>,
    was: Option<Seq<char>>,
) -> bool {
    field == (if told.len() > 0 {
        Some(told)
    } else {
        was
    })
}

/// What an agent tells of itself is on record after its hello, each fact in its place, and
/// the node was seen just then. What makes the node what it is stays, and so does every
/// other node.
pub proof fn hello_is_recorded(m: StoreModel, hello: AgentHello, now: Timestamp)
    ensures
        ({
            let id = hello.node_id@;
            let after = greeting::introduced(m, hello, now);
            let was = m.nodes[id];
            let is = after.nodes[id];
            &&& after.nodes.contains_key(id)
            &&& is.last_seen == Some(now)
            &&& is.tpm_backed == hello.tpm_backed
            &&& takes_or_keeps(is.agent_version, hello.agent_version@, was.agent_version)
            &&& takes_or_keeps(is.hostname, hello.hostname@, was.hostname)
            &&& takes_or_keeps(is.os_pretty_name, hello.os_pretty_name@, was.os_pretty_name)
            &&& takes_or_keeps(is.kernel_version, hello.kernel_version@, was.kernel_version)
            &&& takes_or_keeps(is.dmi_sys_vendor, hello.dmi_sys_vendor@, was.dmi_sys_vendor)
            &&& takes_or_keeps(is.dmi_product_name, hello.dmi_product_name@, was.dmi_product_name)
            &&& takes_or_keeps(is.dmi_uuid, hello.dmi_uuid@, was.dmi_uuid)
            &&& hello.capabilities is None ==> is.capabilities == was.capabilities
            &&& is == (NodeView {
                last_seen: is.last_seen,
                tpm_backed: is.tpm_backed,
                agent_version: is.agent_version,
                hostname: is.hostname,
                os_pretty_name: is.os_pretty_name,
                kernel_version: is.kernel_version,
                dmi_sys_vendor: is.dmi_sys_vendor,
                dmi_product_name: is.dmi_product_name,
                dmi_uuid: is.dmi_uuid,
                capabilities: is.capabilities,
                ..was
            })
            &&& forall|k: Seq<char>|
                k != id ==> after.nodes.contains_key(k) == m.nodes.contains_key(k) && (
                #[trigger] after.nodes[k] == m.nodes[k])
            &&& after == (StoreModel {
                nodes: after.nodes,
                interfaces: after.interfaces,
                ..m
            })
        }),
{
}

/// A node whose agent tells what it is able to do can be found by each of its sources, and
/// by nothing else.
pub proof fn node_offers_its_sources(c: AgentCapabilities, source: Seq<char>)
    requires
        json::json_of_text(json::printed_json(greeting::capabilities_json(c))) == Parsed::Value(
            greeting::capabilities_json(c),
        ),
    ensures
        model::names_source(json::printed_json(greeting::capabilities_json(c)), source)
            <==> text::texts(c.sources@).contains(source),
{
    let texts = text::texts(c.sources@);
    let items = texts.map_values(|t: Seq<char>| JsonView::Str(t));
    if items.contains(JsonView::Str(source)) {
        let i = choose|i: int| 0 <= i < items.len() && items[i] == JsonView::Str(source);
        assert(texts[i] == source);
    }
    if texts.contains(source) {
        let i = choose|i: int| 0 <= i < texts.len() && texts[i] == source;
        assert(items[i] == JsonView::Str(source));
    }
}

/// A snapshot is recorded as it is: a program counts as attached on the side on which the
/// snapshot has it, and forwarding and the filtering mode are those that it names. Nothing
/// else of an interface changes, and nothing of another node.
pub proof fn snapshot_is_recorded(
    m: StoreModel,
    node_id: Seq<char>,
    snap: StateSnapshot,
    k: (Seq<char>, Seq<char>),
)
    requires
        m.interfaces.contains_key(k),
        m.interfaces[k].name == k.1,
    ensures
        ({
            let after = messages::snapshot_noted(m, node_id, snap);
            let i = m.interfaces[k];
            let j = after.interfaces[k];
            &&& after == (StoreModel { interfaces: after.interfaces, ..m })
            &&& after.interfaces.contains_key(k)
            &&& k.0 != node_id ==> j == i
            &&& k.0 == node_id ==> {
                &&& j == (InterfaceView {
                    xdp_attached: j.xdp_attached,
                    tc_attached: j.tc_attached,
                    fib_forwarding: j.fib_forwarding,
                    urpf_mode: j.urpf_mode,
                    ..i
                })
                &&& j.xdp_attached <==> exists|a: int|
                    0 <= a < snap.attachments@.len() && (
                    #[trigger] snap.attachments@[a]).interface_name@ == k.1
                        && snap.attachments@[a].direction is Ingress
                &&& j.tc_attached <==> exists|a: int|
                    0 <= a < snap.attachments@.len() && (
                    #[trigger] snap.attachments@[a]).interface_name@ == k.1
                        && snap.attachments@[a].direction is Egress
                &&& j.fib_forwarding <==> text::texts(snap.fib_forwarding_interfaces@).contains(
                    k.1,
                )
                &&& j.urpf_mode == (if snap.urpf_interfaces@.contains_key(k.1) {
                    snap.urpf_interfaces@[k.1]
                } else {
                    0
                })
            }
        }),
{
    let names = snap.fib_forwarding_interfaces@;
    let texts = text::texts(names);
    if texts.contains(k.1) {
        let i = choose|i: int| 0 <= i < texts.len() && texts[i] == k.1;
        assert(names[i]@ == k.1);
    }
    if model::names_contain(names, k.1) {
        let i = choose|i: int| 0 <= i < names.len() && (#[trigger] names[i])@ == k.1;
        assert(texts[i] == k.1);
    }
    if messages::sits(snap.attachments@, k.1, BpfDirection::Ingress) {
        let a = choose|a: int|
            {
                &&& 0 <= a < snap.attachments@.len()
                &&& (#[trigger] snap.attachments@[a]).interface_name@ == k.1
                &&& snap.attachments@[a].direction == BpfDirection::Ingress
            };
        assert(snap.attachments@[a].direction is Ingress);
    }
    if messages::sits(snap.attachments@, k.1, BpfDirection::Egress) {
        let a = choose|a: int|
            {
                &&& 0 <= a < snap.attachments@.len()
                &&& (#[trigger] snap.attachments@[a]).interface_name@ == k.1
                &&& snap.attachments@[a].direction == BpfDirection::Egress
            };
        assert(snap.attachments@[a].direction is Egress);
    }
}

/// A message that tells of an agent's state, its metrics, its events or its interfaces
/// changes nothing that belongs to another node, no certificate and no token; and what it
/// tells is kept or passed on as it was sent.
pub proof fn message_is_taken_as_sent(
    before: StoreModel,
    after: StoreModel,
    h: HubView,
    h_after: HubView,
    out: OutboxView,
    out_after: OutboxView,
    node_id: Seq<char>,
    hostname: Option<Seq<char>>,
    payload: AgentPayload,
    now: Timestamp,
    now_ms: u64,
    r: Result<(), SendError>,
)
    requires
        messages::handles(
            before,
            after,
            h,
            h_after,
            out,
            out_after,
            node_id,
            hostname,
            Some(payload),
            now,
            now_ms,
            r,
        ),
        payload is Heartbeat || payload is State || payload is Metrics || payload is Events
            || payload is InterfaceUpdate || payload is RestoreRequest || payload is ConfigResult,
    ensures
        forall|k: Seq<char>|
            k != node_id && #[trigger] before.nodes.contains_key(k) ==> after.nodes.contains_key(k)
                && after.nodes[k] == before.nodes[k],
        forall|k: (Seq<char>, Seq<char>)|
            k.0 != node_id && #[trigger] before.interfaces.contains_key(k)
                ==> after.interfaces.contains_key(k) && after.interfaces[k] == before.interfaces[k],
        after.rules == before.rules,
        after.revoked == before.revoked,
        after.certs == before.certs,
        after.tokens == before.tokens,
        h_after.sessions == h.sessions,
        h_after.pending == h.pending,
        payload is Heartbeat && before.nodes.contains_key(node_id) ==> after.nodes[node_id] == (
        NodeView { last_seen: Some(now), ..before.nodes[node_id] }),
        payload matches AgentPayload::Metrics(u) ==> {
            &&& h_after.metrics.contains_key(node_id)
            &&& h_after.metrics[node_id].prometheus_text == u.prometheus_text@
            &&& h_after.metrics[node_id].timestamp_ns == u.timestamp_ns
            &&& h_after.metrics[node_id].received_at == now
            &&& h_after.metrics[node_id].hostname == hostname
            &&& forall|k: Seq<char>|
                k != node_id && #[trigger] h.metrics.contains_key(k) ==> h_after.metrics[k]
                    == h.metrics[k]
        },
        payload matches AgentPayload::Events(b) ==> {
            &&& h_after.events.len() == h.events.len() + 1
            &&& h_after.events.last().node_id == node_id
            &&& h_after.events.last().timestamp_ns == b.timestamp_ns
            &&& h_after.events.last().events_json.len() == b.events_json@.len()
            &&& forall|i: int|
                0 <= i < b.events_json@.len() ==> h_after.events.last().events_json[i] == (
                #[trigger] b.events_json@[i])@
        },
        payload matches AgentPayload::ConfigResult(c) ==> {
            &&& after.audit.len() == before.audit.len() + 1
            &&& after.audit.last().node_id == Some(node_id)
            &&& after.audit.last().ts == now
            &&& after.audit.last().action == (if c.success {
                "config_applied"@
            } else {
                "config_apply_failed"@
            })
            &&& after.audit.last().detail == (if c.success {
                None
            } else {
                Some("error="@ + c.error_message@)
            })
            &&& after.audit.last().tenant_id == (if before.nodes.contains_key(node_id) {
                before.nodes[node_id].tenant_id
            } else {
                "default"@
            })
        },
{
    match payload {
        AgentPayload::InterfaceUpdate(u) => {
            lemma_other_interfaces(before.interfaces, node_id, u.interfaces@, now);
        },
        AgentPayload::ConfigResult(c) => {
            let first: int = 0;
            assert(after.audit[before.audit.len() + first] == after.audit.last());
        },
        _ => {},
    }
}

/// A report of a node leaves the interfaces of others as they were.
proof fn lemma_other_interfaces(
    m: Map<(Seq<char>, Seq<char>), InterfaceView>,
    node_id: Seq<char>,
    reports: Seq<crate::proto::InterfaceReport>,
    now: Timestamp,
)
    ensures
        forall|k: (Seq<char>, Seq<char>)|
            k.0 != node_id && #[trigger] m.contains_key(k) ==> model::reported_interfaces(
                m,
                node_id,
                reports,
                now,
            ).contains_key(k) && model::reported_interfaces(m, node_id, reports, now)[k] == m[k],
    decreases reports.len(),
{
    if reports.len() > 0 {
        lemma_other_interfaces(m, node_id, reports.drop_last(), now);
    }
}

/// What an agent has applied is committed, and the waiter told so; where the commit fails
/// the waiter and the agent are told why. What it has rejected or rolled back is told with
/// the words of the agent.
pub proof fn confirmation_is_passed_on(
    g: GenerationView,
    c: ConfigConfirm,
    before: StoreModel,
    after: StoreModel,
    dependable: bool,
    h: HubView,
    h_after: HubView,
    out: OutboxView,
    out_after: OutboxView,
    r: Result<(), SendError>,
)
    requires
        confirm::handles_pending(g, c, before, after, dependable, h, h_after, out, out_after, r),
    ensures
        h_after.resolutions.len() == h.resolutions.len() + 1,
        h_after.resolutions.last().generation_id == g.generation_id,
        h_after.sessions == h.sessions,
        h_after.metrics == h.metrics,
        match c.outcome {
            ConfirmedAs::Applied => exists|committed: Result<(), StoreError>|
                {
                    &&& #[trigger] g.op.commits(before, after, committed)
                    &&& dependable ==> committed is Ok || !(committed->Err_0 is Backend)
                    &&& committed is Ok <==> h_after.resolutions.last().outcome is Applied
                    &&& committed matches Err(e) ==> h_after.resolutions.last().outcome
                        == OutcomeView::CommitFailed(e.message())
                },
            ConfirmedAs::Rejected => h_after.resolutions.last().outcome == OutcomeView::Rejected(
                c.error_message@,
            ),
            ConfirmedAs::Reverted => h_after.resolutions.last().outcome == OutcomeView::Reverted(
                c.error_message@,
            ),
            ConfirmedAs::Unspecified => h_after.resolutions.last().outcome is Rejected,
        },
{
    if c.outcome is Applied {
        let committed = choose|committed: Result<(), StoreError>|
            {
                let reason = match committed {
                    Ok(_) => None,
                    Err(e) => Some(e.message()),
                };
                &&& #[trigger] g.op.commits(before, after, committed)
                &&& store::dependably(dependable, dependable, committed)
                &&& h_after == confirm::told(
                    HubView { pending: h.pending.taken(c.generation_id@), ..h },
                    g,
                    match reason {
                        None => OutcomeView::Applied,
                        Some(m) => OutcomeView::CommitFailed(m),
                    },
                )
                &&& out_after == out.with(confirm::ack(c.generation_id@, reason))
                &&& match r {
                    Ok(()) => out.blocked() is None,
                    Err(e) => out.blocked() == Some(e),
                }
            };
        assert(g.op.commits(before, after, committed));
    }
}

/// The time to live of a rule: without one it lives on; with one it has run out from the
/// moment on that lies that many seconds behind its creation.
pub proof fn rule_lives_for_its_time(rule: Rule, now: Timestamp)
    ensures
        rule.expires_after_secs is None ==> !ttl_reaper::ttl_expired(rule@, now),
        rule.expires_after_secs matches Some(ttl) ==> (ttl_reaper::ttl_expired(rule@, now)
            <==> rule.created_at.secs * 1000000000 + rule.created_at.nanos + ttl * 1000000000
            <= now.secs * 1000000000 + now.nanos),
{
}

/// Whether a rule is to be on an agent: one of its node whose time to live has not run out.
pub open spec fn is_live(r: RuleView, node_id: Seq<char>, now: Timestamp) -> bool {
    &&& r.node_id == node_id
    &&& r.expires_after_secs matches Some(ttl) ==> now.secs * 1000000000 + now.nanos
        < r.created_at.secs * 1000000000 + r.created_at.nanos + ttl * 1000000000
}

/// Whether a push makes an agent start anew with the rules on record that fulfil a
/// condition and no others, each as it is, with the default actions of each interface of
/// the node by side, and with a stop behavior.
pub open spec fn restores(
    d: DeltaView,
    m: StoreModel,
    node_id: Seq<char>,
    wanted: spec_fn(RuleView) -> bool,
    stop_behavior: Option<Seq<char>>,
) -> bool {
    &&& d.is_full_restore
    &&& d.rule_ids_to_delete.len() == 0
    &&& d.generation_id.len() == 0 && d.confirm_deadline_ms == 0
    &&& d.stop_behavior == (match stop_behavior {
        Some(s) => s,
        None => Seq::empty(),
    })
    &&& forall|k: Seq<char>| #[trigger]
        m.rules.contains_key(k) && wanted(m.rules[k]) ==> delta_laws::is_added(
            d.rules_to_add,
            m.rules[k],
        )
    &&& forall|i: int|
        0 <= i < d.rules_to_add.len() ==> adds_one_of(#[trigger] d.rules_to_add[i], m, wanted)
    &&& forall|k: (Seq<char>, Seq<char>)| #[trigger]
        m.interfaces.contains_key(k) && k.0 == node_id ==> drift::holds_default(
            d.per_interface_default_actions,
            k.1 + ":ingress"@,
            m.interfaces[k].ingress_default_action,
        ) && drift::holds_default(
            d.per_interface_default_actions,
            k.1 + ":egress"@,
            m.interfaces[k].egress_default_action,
        )
}

/// Whether a message adds one of the rules on record that fulfil a condition.
pub open spec fn adds_one_of(
    a: crate::proto::RuleAddView,
    m: StoreModel,
    wanted: spec_fn(RuleView) -> bool,
) -> bool {
    exists|k: Seq<char>| #[trigger]
        m.rules.contains_key(k) && wanted(m.rules[k]) && delta_laws::adds_rule(a, m.rules[k])
}

/// A full restore of listed rules, with the defaults on record, restores what is wanted.
proof fn lemma_restores(
    m: StoreModel,
    node_id: Seq<char>,
    all: Seq<RuleView>,
    sent: Seq<RuleView>,
    defaults: Map<Seq<char>, Seq<char>>,
    stop_behavior: Option<Seq<char>>,
    wanted: spec_fn(RuleView) -> bool,
)
    requires
        m.interfaces_keyed(),
        restore::lists_rules(all, m, node_id),
        restore::has_defaults(m, node_id, defaults),
        forall|r: RuleView| #[trigger] sent.contains(r) <==> all.contains(r) && wanted(r),
        forall|r: RuleView| #[trigger] wanted(r) ==> r.node_id == node_id,
    ensures
        restores(
            restore::full_restore(reconciliation::rule_adds(sent), defaults, stop_behavior),
            m,
            node_id,
            wanted,
            stop_behavior,
        ),
{
    let d = restore::full_restore(reconciliation::rule_adds(sent), defaults, stop_behavior);
    let adds = d.rules_to_add;
    let of_node = |r: RuleView| r.node_id == node_id;
    let ks = choose|ks: Seq<Seq<char>>| model::lists_keys(all, m.rules, of_node, ks);
    assert(model::lists_keys(all, m.rules, of_node, ks));
    assert forall|k: Seq<char>| #[trigger]
        m.rules.contains_key(k) && wanted(m.rules[k]) implies delta_laws::is_added(
        adds,
        m.rules[k],
    ) by {
        assert(of_node(m.rules[k]));
        assert(ks.contains(k));
        let i = choose|i: int| 0 <= i < ks.len() && ks[i] == k;
        assert(m.rules.contains_key(ks[i]));
        assert(all[i] == m.rules[k]);
        assert(all.contains(m.rules[k]));
        assert(sent.contains(m.rules[k]));
        let j = choose|j: int| 0 <= j < sent.len() && sent[j] == m.rules[k];
        assert(adds[j] == reconciliation::rule_add(sent[j]));
    }
    assert forall|i: int| 0 <= i < adds.len() implies adds_one_of(#[trigger] adds[i], m, wanted) by {
        assert(sent.contains(sent[i]));
        let j = choose|j: int| 0 <= j < all.len() && all[j] == sent[i];
        assert(m.rules.contains_key(ks[j]));
        assert(adds[i] == reconciliation::rule_add(sent[i]));
        assert(delta_laws::adds_rule(adds[i], m.rules[ks[j]]));
    }
    let mine = |i: InterfaceView| i.node_id == node_id;
    let faces = choose|faces: Seq<InterfaceView>|
        {
            &&& model::lists(faces, m.interfaces, |i: InterfaceView| i.node_id == node_id)
            &&& defaults == #[trigger] drift::db_defaults(faces)
        };
    let fs = choose|fs: Seq<(Seq<char>, Seq<char>)>|
        model::lists_keys(faces, m.interfaces, mine, fs);
    assert(model::lists_keys(faces, m.interfaces, mine, fs));
    assert forall|a: int, b: int| 0 <= a < b < faces.len() implies (#[trigger] faces[a]).name != (
    #[trigger] faces[b]).name by {
        assert(m.interfaces.contains_key(fs[a]) && m.interfaces.contains_key(fs[b]));
        assert(fs[a] != fs[b]);
    }
    drift::each_side_has_its_default(faces);
    assert forall|k: (Seq<char>, Seq<char>)| #[trigger]
        m.interfaces.contains_key(k) && k.0 == node_id implies drift::holds_default(
        defaults,
        k.1 + ":ingress"@,
        m.interfaces[k].ingress_default_action,
    ) && drift::holds_default(defaults, k.1 + ":egress"@, m.interfaces[k].egress_default_action) by {
        assert(mine(m.interfaces[k]));
        assert(fs.contains(k));
        let i = choose|i: int| 0 <= i < fs.len() && fs[i] == k;
        assert(m.interfaces.contains_key(fs[i]));
        assert(faces[i] == m.interfaces[k]);
        assert(faces[i].name == k.1);
    }
}

/// An agent that asks for everything is sent everything on record for its node: one push
/// that restores all its rules, its default actions and its stop behavior.
pub proof fn everything_on_record_is_sent(
    m: StoreModel,
    node_id: Seq<char>,
    out: OutboxView,
    out_after: OutboxView,
    r: Result<(), SendError>,
)
    requires
        messages::sends_everything(m, node_id, out, out_after, r),
        m.interfaces_keyed(),
        !out.closed,
        out.queue.len() < out.capacity,
    ensures
        r is Ok,
        out_after.queue.len() == out.queue.len() + 1,
        out_after.queue.drop_last() == out.queue,
        out_after.queue.last() matches Some(PayloadView::Config(d)) && restores(
            d,
            m,
            node_id,
            |x: RuleView| x.node_id == node_id,
            if m.nodes.contains_key(node_id) {
                m.nodes[node_id].stop_behavior
            } else {
                None
            },
        ),
{
    let (all, defaults) = choose|all: Seq<RuleView>, defaults: Map<Seq<char>, Seq<char>>|
        {
            &&& #[trigger] restore::lists_rules(all, m, node_id)
            &&& #[trigger] restore::has_defaults(m, node_id, defaults)
            &&& restore::sends(
                out,
                PayloadView::Config(
                    restore::full_restore(
                        reconciliation::rule_adds(all),
                        defaults,
                        messages::stop_behavior_of(m, node_id),
                    ),
                ),
                out_after,
                r,
            )
        };
    let wanted = |x: RuleView| x.node_id == node_id;
    lemma_listed_are_wanted(all, m, node_id);
    lemma_restores(
        m,
        node_id,
        all,
        all,
        defaults,
        messages::stop_behavior_of(m, node_id),
        wanted,
    );
    assert(out_after.queue.drop_last() =~= out.queue);
}

/// The rules that are listed for a node belong to it.
proof fn lemma_listed_are_wanted(all: Seq<RuleView>, m: StoreModel, node_id: Seq<char>)
    requires
        restore::lists_rules(all, m, node_id),
    ensures
        forall|r: RuleView| #[trigger] all.contains(r) ==> r.node_id == node_id,
{
    let of_node = |r: RuleView| r.node_id == node_id;
    let ks = choose|ks: Seq<Seq<char>>| model::lists_keys(all, m.rules, of_node, ks);
    assert(model::lists_keys(all, m.rules, of_node, ks));
    assert forall|r: RuleView| #[trigger] all.contains(r) implies r.node_id == node_id by {
        let i = choose|i: int| 0 <= i < all.len() && all[i] == r;
        assert(m.rules.contains_key(ks[i]));
        assert(of_node(all[i]));
    }
}

/// What is live of listed rules is what is to be on the agent.
proof fn lemma_live(all: Seq<RuleView>, m: StoreModel, node_id: Seq<char>, now: Timestamp)
    requires
        restore::lists_rules(all, m, node_id),
    ensures
        forall|r: RuleView| #[trigger]
            restore::live(all, now).contains(r) <==> all.contains(r) && is_live(r, node_id, now),
{
    let keep = |r: RuleView| !ttl_reaper::ttl_expired(r, now);
    let live = all.filter(keep);
    lemma_listed_are_wanted(all, m, node_id);
    assert forall|r: RuleView| #[trigger]
        live.contains(r) <==> all.contains(r) && is_live(r, node_id, now) by {
        if live.contains(r) {
            let i = choose|i: int| 0 <= i < live.len() && live[i] == r;
            all.lemma_filter_pred(keep, i);
            all.lemma_filter_contains_rev(keep, r);
        }
        if all.contains(r) && is_live(r, node_id, now) {
            let i = choose|i: int| 0 <= i < all.len() && all[i] == r;
            assert(keep(all[i]));
            all.lemma_filter_contains(keep, i);
        }
    }
}

/// An agent that is welcomed is sent one push that restores the rules on record for its
/// node whose time has not run out, where there are any, with its default actions and its
/// stop behavior, and then the metrics interval on record, where there is one.
pub proof fn welcome_restores_what_is_on_record(
    m: StoreModel,
    n: NodeView,
    node_id: Seq<char>,
    now: Timestamp,
    out: OutboxView,
    out_after: OutboxView,
)
    requires
        greeting::sends_welcome(m, n, node_id, now, out, out_after, Ok(())),
        m.interfaces_keyed(),
        exists|k: Seq<char>| #[trigger]
            m.rules.contains_key(k) && is_live(m.rules[k], node_id, now),
    ensures
        out_after.queue.len() > out.queue.len(),
        out_after.queue[out.queue.len() as int] matches Some(PayloadView::Config(d)) && restores(
            d,
            m,
            node_id,
            |x: RuleView| is_live(x, node_id, now),
            n.stop_behavior,
        ),
        n.metrics_interval_secs matches Some(secs) ==> out_after.queue.len() == out.queue.len() + 2
            && out_after.queue.last() == Some(PayloadView::SetMetricsInterval(secs)),
        n.metrics_interval_secs is None ==> out_after.queue.len() == out.queue.len() + 1,
{
    let (mid, first): (OutboxView, Result<(), SendError>) = choose|
        mid: OutboxView,
        first: Result<(), SendError>,
    |
        {
            &&& #[trigger] greeting::sends_rules(m, node_id, n.stop_behavior, now, out, mid, first)
            &&& match first {
                Ok(()) => greeting::sends_interval(n.metrics_interval_secs, mid, out_after, Ok(())),
                Err(e) => Ok::<(), SendError>(()) == Err::<(), SendError>(e) && out_after == mid,
            }
        };
    let (all, defaults) = choose|all: Seq<RuleView>, defaults: Map<Seq<char>, Seq<char>>|
        {
            let rules = restore::live(all, now);
            &&& restore::lists_rules(all, m, node_id)
            &&& restore::has_defaults(m, node_id, defaults)
            &&& if rules.len() == 0 {
                first is Ok && mid == out
            } else {
                restore::sends(
                    out,
                    PayloadView::Config(
                        #[trigger] restore::full_restore(
                            reconciliation::rule_adds(#[trigger] restore::live(all, now)),
                            defaults,
                            n.stop_behavior,
                        ),
                    ),
                    mid,
                    first,
                )
            }
        };
    let live = restore::live(all, now);
    let wanted = |x: RuleView| is_live(x, node_id, now);
    lemma_live(all, m, node_id, now);
    assert forall|r: RuleView| #[trigger] live.contains(r) <==> all.contains(r) && wanted(r) by {}
    lemma_restores(m, node_id, all, live, defaults, n.stop_behavior, wanted);
    let k = choose|k: Seq<char>| #[trigger]
        m.rules.contains_key(k) && is_live(m.rules[k], node_id, now);
    let d = restore::full_restore(reconciliation::rule_adds(live), defaults, n.stop_behavior);
    assert(wanted(m.rules[k]));
    assert(delta_laws::is_added(d.rules_to_add, m.rules[k]));
    assert(live.len() > 0);
}

/// An agent whose node has no rule whose time has not run out is sent no push on its
/// welcome, only the metrics interval on record, where there is one.
pub proof fn welcome_without_rules_restores_nothing(
    m: StoreModel,
    n: NodeView,
    node_id: Seq<char>,
    now: Timestamp,
    out: OutboxView,
    out_after: OutboxView,
)
    requires
        greeting::sends_welcome(m, n, node_id, now, out, out_after, Ok(())),
        forall|k: Seq<char>| #[trigger]
            m.rules.contains_key(k) ==> !is_live(m.rules[k], node_id, now),
    ensures
        n.metrics_interval_secs matches Some(secs) ==> out_after.queue == out.queue.push(
            Some(PayloadView::SetMetricsInterval(secs)),
        ),
        n.metrics_interval_secs is None ==> out_after == out,
{
    let (mid, first): (OutboxView, Result<(), SendError>) = choose|
        mid: OutboxView,
        first: Result<(), SendError>,
    |
        {
            &&& #[trigger] greeting::sends_rules(m, node_id, n.stop_behavior, now, out, mid, first)
            &&& match first {
                Ok(()) => greeting::sends_interval(n.metrics_interval_secs, mid, out_after, Ok(())),
                Err(e) => Ok::<(), SendError>(()) == Err::<(), SendError>(e) && out_after == mid,
            }
        };
    let (all, defaults) = choose|all: Seq<RuleView>, defaults: Map<Seq<char>, Seq<char>>|
        {
            let rules = restore::live(all, now);
            &&& #[trigger] restore::lists_rules(all, m, node_id)
            &&& #[trigger] restore::has_defaults(m, node_id, defaults)
            &&& if rules.len() == 0 {
                first is Ok && mid == out
            } else {
                restore::sends(
                    out,
                    PayloadView::Config(
                        restore::full_restore(
                            reconciliation::rule_adds(restore::live(all, now)),
                            defaults,
                            n.stop_behavior,
                        ),
                    ),
                    mid,
                    first,
                )
            }
        };
    let live = restore::live(all, now);
    lemma_live(all, m, node_id, now);
    if live.len() > 0 {
        assert(live.contains(live[0]));
        let of_node = |r: RuleView| r.node_id == node_id;
        let ks = choose|ks: Seq<Seq<char>>| model::lists_keys(all, m.rules, of_node, ks);
        assert(model::lists_keys(all, m.rules, of_node, ks));
        let i = choose|i: int| 0 <= i < all.len() && all[i] == live[0];
        assert(m.rules.contains_key(ks[i]));
    }
}

/// An agent whose state lacks rules, or has rules too many, is sent the delta between the
/// rules on record whose time has not run out and its state, and nothing where there is
/// none.
pub proof fn state_is_answered_with_the_delta(
    m: StoreModel,
    node_id: Seq<char>,
    snap: StateSnapshot,
    now: Timestamp,
    out: OutboxView,
    out_after: OutboxView,
    k: Seq<char>,
)
    requires
        messages::sends_delta(m, node_id, snap, now, out, out_after, Ok(())),
        forall|x: Seq<char>| #[trigger]
            m.rules.contains_key(x) ==> delta_laws::plain_id(m.rules[x].id),
        m.rules.contains_key(k),
        is_live(m.rules[k], node_id, now),
        !delta_laws::reports_id(snap.rules@, m.rules[k].id),
    ensures
        out_after.queue.len() == out.queue.len() + 1,
        out_after.queue.last() matches Some(PayloadView::Config(d)) && !d.is_full_restore
            && delta_laws::is_added(d.rules_to_add, m.rules[k]),
{
    let (all, surplus) = choose|all: Seq<RuleView>, surplus: Seq<Seq<char>>|
        {
            let desired = restore::live(all, now);
            let delta = DeltaView {
                rules_to_add: reconciliation::delta_adds(desired, snap.rules@),
                rule_ids_to_delete: surplus,
                ..reconciliation::no_delta()
            };
            &&& #[trigger] restore::lists_rules(all, m, node_id)
            &&& #[trigger] reconciliation::are_surplus(
                surplus,
                restore::live(all, now),
                snap.rules@,
            )
            &&& if delta.rules_to_add.len() == 0 && surplus.len() == 0 {
                out_after == out
            } else {
                restore::sends(out, PayloadView::Config(delta), out_after, Ok(()))
            }
        };
    let desired = restore::live(all, now);
    let delta = DeltaView {
        rules_to_add: reconciliation::delta_adds(desired, snap.rules@),
        rule_ids_to_delete: surplus,
        ..reconciliation::no_delta()
    };
    lemma_live(all, m, node_id, now);
    let of_node = |r: RuleView| r.node_id == node_id;
    let ks = choose|ks: Seq<Seq<char>>| model::lists_keys(all, m.rules, of_node, ks);
    assert(model::lists_keys(all, m.rules, of_node, ks));
    assert(of_node(m.rules[k]));
    assert(ks.contains(k));
    let i = choose|i: int| 0 <= i < ks.len() && ks[i] == k;
    assert(m.rules.contains_key(ks[i]));
    assert(all[i] == m.rules[k]);
    assert(desired.contains(m.rules[k]));
    let j = choose|j: int| 0 <= j < desired.len() && desired[j] == m.rules[k];
    assert forall|a: int| 0 <= a < desired.len() implies delta_laws::plain_id(
        (#[trigger] desired[a]).id,
    ) by {
        assert(desired.contains(desired[a]));
        let b = choose|b: int| 0 <= b < all.len() && all[b] == desired[a];
        assert(m.rules.contains_key(ks[b]));
    }
    delta_laws::delta_is_exact(delta, desired, snap.rules@);
    assert(delta_laws::is_added(delta.rules_to_add, desired[j]));
}

/// Whether an object has a text under a name.
pub open spec fn says(j: JsonView, name: Seq<char>, t: Seq<char>) -> bool {
    j is Object && j->Object_0.contains_key(name) && j->Object_0[name] == JsonView::Str(t)
}

/// Whether an object has a number under a name.
pub open spec fn numbers(j: JsonView, name: Seq<char>, n: nat) -> bool {
    j is Object && j->Object_0.contains_key(name) && j->Object_0[name] == JsonView::Number(
        NumberView::Unsigned(n),
    )
}

/// What an agent tells of the life of a rule is taken member by member. The node is the
/// one whose stream it came by, whatever the event says.
pub proof fn lifecycle_event_is_taken_as_sent(j: JsonView, node_id: Seq<char>, now_ms: u64)
    ensures
        ({
            let e = lifecycle::event_of(j, node_id, now_ms);
            &&& e.node_id == node_id
            &&& forall|t: Seq<char>| #[trigger] says(j, "event_type"@, t) ==> e.event_type == t
            &&& forall|t: Seq<char>| #[trigger] says(j, "rule_id"@, t) ==> e.rule_id == t
            &&& forall|n: nat| #[trigger] numbers(j, "rule_id"@, n) ==> e.rule_id == text::decimal(
                n,
            )
            &&& forall|t: Seq<char>| #[trigger] says(j, "interface"@, t) ==> e.interface_name == t
            &&& forall|t: Seq<char>| #[trigger] says(j, "direction"@, t) ==> e.direction == t
            &&& forall|t: Seq<char>| #[trigger] says(j, "reason"@, t) ==> e.reason == Some(t)
            &&& forall|n: nat| #[trigger]
                numbers(j, "timestamp_ms"@, n) && n <= u64::MAX ==> e.timestamp_ms == n
            &&& (forall|n: nat| !#[trigger] numbers(j, "timestamp_ms"@, n)) ==> e.timestamp_ms
                == now_ms
            &&& (forall|t: Seq<char>| !#[trigger] says(j, "reason"@, t)) ==> e.reason is None
        }),
{
    let e = lifecycle::event_of(j, node_id, now_ms);
    if let Some(n) = lifecycle::as_number(lifecycle::member(j, "timestamp_ms"@)) {
        assert(numbers(j, "timestamp_ms"@, n));
    }
    if let Some(t) = lifecycle::as_text(lifecycle::member(j, "reason"@)) {
        assert(says(j, "reason"@, t));
    }
}

/// Whether some events tell that the rule of an id has run out.
pub open spec fn tells_expired(
    events: Seq<crate::rule_lifecycle_bus::LifecycleView>,
    id: Seq<char>,
) -> bool {
    exists|i: int|
        0 <= i < events.len() && (#[trigger] events[i]).rule_id == id && events[i].event_type
            == "expired"@
}

/// The rules that have run out, as the events tell, are no longer on record, and all others
/// are as they were.
pub proof fn just_the_expired_rules_go(
    rules: Map<Seq<char>, RuleView>,
    events: Seq<crate::rule_lifecycle_bus::LifecycleView>,
    k: Seq<char>,
)
    requires
        k.len() > 0,
    ensures
        ({
            let after = lifecycle::without_expired(rules, events);
            &&& after.contains_key(k) <==> rules.contains_key(k) && !tells_expired(events, k)
            &&& after.contains_key(k) ==> after[k] == rules[k]
        }),
    decreases events.len(),
{
    if events.len() > 0 {
        let front = events.drop_last();
        just_the_expired_rules_go(rules, front, k);
        assert(events[events.len() - 1] == events.last());
        if tells_expired(front, k) {
            let i = choose|i: int|
                0 <= i < front.len() && (#[trigger] front[i]).rule_id == k && front[i].event_type
                    == "expired"@;
            assert(events[i] == front[i]);
        }
        if tells_expired(events, k) && !(events.last().rule_id == k && events.last().event_type
            == "expired"@) {
            let i = choose|i: int|
                0 <= i < events.len() && (#[trigger] events[i]).rule_id == k && events[i].event_type
                    == "expired"@;
            assert(front[i] == events[i]);
        }
    }
}

/// An agent is let renew under the name of the certificate with which it authenticated
/// itself, for a request that names it, and under no other. Without a certificate it is not
/// known.
pub proof fn agent_renews_for_itself(
    peer: PeerLeaf,
    csr: Seq<u8>,
    r: Result<(String, String), RpcStatus>,
)
    requires
        renewal::screened(peer, csr, r),
    ensures
        r matches Ok((id, pem)) ==> {
            &&& peer is Leaf
            &&& renewal::cn_of(peer->Leaf_0@) == Ok::<Seq<char>, Seq<char>>(id@)
            &&& vstd::utf8::valid_utf8(csr) && pem@ == vstd::utf8::decode_utf8(csr)
            &&& renewal::csr_cn_of(pem@) == Ok::<Seq<char>, Seq<char>>(id@)
        },
        peer is Leaf && vstd::utf8::valid_utf8(csr) && renewal::cn_of(peer->Leaf_0@) is Ok
            && renewal::csr_cn_of(vstd::utf8::decode_utf8(csr)) == renewal::cn_of(peer->Leaf_0@)
            ==> r is Ok,
        !(peer is Leaf) ==> (r matches Err(s) && s.code == RpcCode::Unauthenticated),
        peer is Leaf && renewal::cn_of(peer->Leaf_0@) is Err ==> (r matches Err(s) && s.code
            == RpcCode::Unauthenticated),
        peer is Leaf && vstd::utf8::valid_utf8(csr) && renewal::cn_of(peer->Leaf_0@) is Ok
            && renewal::csr_cn_of(vstd::utf8::decode_utf8(csr)) is Ok && renewal::csr_cn_of(
            vstd::utf8::decode_utf8(csr),
        ) != renewal::cn_of(peer->Leaf_0@) ==> (r matches Err(s) && s.code
            == RpcCode::PermissionDenied),
{
}

/// What an agent sends to be enrolled reaches the registry as it is; what it leaves empty
/// it does not have.
pub proof fn enrollment_is_asked_for_as_sent(
    req: EnrollRequest,
    asked: node_registry::EnrollmentRequest,
)
    requires
        enrollment::asks(req, asked),
    ensures
        asked.public_key_der@ == req.public_key_der@,
        asked.csr_pem@ == req.csr_pem@,
        asked.signature@ == req.signature@,
        asked.tpm_backed == req.tpm_backed,
        takes_or_keeps(text::opt_text(asked.dmi_uuid), req.dmi_uuid@, None),
        takes_or_keeps(text::opt_text(asked.agent_version), req.agent_version@, None),
        takes_or_keeps(text::opt_text(asked.hostname), req.hostname@, None),
{
}

/// A change that was rolled back after it had been resolved is noted, and the agent asked
/// for its state; any other word on a generation that is not in flight is passed over.
pub proof fn late_rollback_asks_for_the_state(
    node_id: Seq<char>,
    c: ConfigConfirm,
    before: StoreModel,
    after: StoreModel,
    out: OutboxView,
    out_after: OutboxView,
    now: Timestamp,
)
    requires
        confirm::handles_late(node_id, c, before, after, out, out_after, now),
        !out.closed,
        out.queue.len() < out.capacity,
    ensures
        c.outcome is Reverted ==> {
            &&& out_after.queue == out.queue.push(Some(PayloadView::StateQuery))
            &&& after == (StoreModel { audit: after.audit, ..before })
            &&& after.audit.len() == before.audit.len() + 1
            &&& after.audit.last().node_id == Some(node_id)
            &&& after.audit.last().action == "config_reverted_after_resolve"@
        },
        !(c.outcome is Reverted) ==> out_after == out && after == before,
{
    if c.outcome is Reverted {
        let first: int = 0;
        assert(after.audit[before.audit.len() + first] == after.audit.last());
    }
}

/// A node that is not active, or whose certificate is revoked, is told that it may not
/// renew, so that its agent does not try again and again; a store that fails is a fault of
/// the controller, as far as its words do not speak of either.
pub proof fn renewal_tells_who_may_not(e: RegistryError)
    ensures
        e is NotActive || e is SerialRevoked ==> renewal::renewal_code(e.message())
            == RpcCode::PermissionDenied,
        !text::occurs(e.message(), "not active"@) && !text::occurs(e.message(), "revoked"@)
            ==> renewal::renewal_code(e.message()) == RpcCode::Internal,
{
    match e {
        RegistryError::NotActive { node_id, status } => {
            reveal_strlit("Node ");
            reveal_strlit(" is not active (status: ");
            reveal_strlit("not active");
            let m = e.message();
            let i: int = 9 + node_id@.len() as int;
            assert(m.subrange(i, i + 10) =~= "not active"@);
            assert(text::occurs_at(m, "not active"@, i));
        },
        RegistryError::SerialRevoked(id) => {
            reveal_strlit("Node ");
            reveal_strlit(" current cert serial is revoked — renewal refused");
            reveal_strlit("revoked");
            let m = e.message();
            let i: int = 29 + id@.len() as int;
            assert(m.subrange(i, i + 7) =~= "revoked"@);
            assert(text::occurs_at(m, "revoked"@, i));
        },
        _ => {},
    }
}

/// An agent that enrolls is told that it is approved just where it is handed its key and
/// certificate; otherwise it waits, and is handed nothing. Either way it learns the
/// certificate of the authority.
pub proof fn enrolling_agent_is_answered(
    enrolled: Result<(String, Option<String>), RegistryError>,
    anchor: Seq<char>,
    a: EnrollmentResponse,
)
    requires
        enrollment::answers(enrolled, anchor, Ok::<EnrollmentResponse, RpcStatus>(a)),
    ensures
        enrolled is Ok,
        a.enrollment_id@ == enrolled->Ok_0.0@,
        a.ca_cert_pem@ == vstd::utf8::encode_utf8(anchor),
        a.status is Approved <==> enrolled->Ok_0.1 is Some,
        a.status is Pending <==> enrolled->Ok_0.1 is None,
        a.status is Approved ==> a.client_cert_pem@ == vstd::utf8::encode_utf8(
            enrolled->Ok_0.1->0@,
        ),
        a.status is Pending ==> a.client_cert_pem@.len() == 0,
{
}

/// An agent that asks where its enrollment stands is told so by the status of its node.
pub proof fn asking_agent_is_told_its_status(
    status: NodeStatus,
    word: String,
    pem: Option<String>,
    a: EnrollmentStatusResponse,
)
    requires
        enrollment::tells(
            Ok::<(String, Option<String>), RegistryError>((word, pem)),
            Ok::<EnrollmentStatusResponse, RpcStatus>(a),
        ),
        word@ == status.word(),
    ensures
        status is Pending <==> a.status is Pending,
        status is Active <==> a.status is Approved,
        status is Decommissioned <==> a.status is Rejected,
        pem is Some ==> a.client_cert_pem@ == vstd::utf8::encode_utf8(pem->0@),
        pem is None ==> a.client_cert_pem@.len() == 0,
{
    reveal_strlit("pending");
    reveal_strlit("active");
    reveal_strlit("decommissioned");
    assert("pending"@.len() == 7 && "active"@.len() == 6 && "decommissioned"@.len() == 14);
}

/// An event that names its interface under the longer name only is taken with it.
pub proof fn lifecycle_interface_has_two_names(
    m: Map<Seq<char>, JsonView>,
    node_id: Seq<char>,
    now_ms: u64,
    name: Seq<char>,
)
    requires
        !m.contains_key("interface"@),
        says(JsonView::Object(m), "interface_name"@, name),
    ensures
        lifecycle::event_of(JsonView::Object(m), node_id, now_ms).interface_name == name,
{
}

/// Every item of a batch that is JSON tells of one event, in the order of the batch; an item
/// that is no text or no JSON tells of none and takes none of the others with it.
pub proof fn batch_tells_item_by_item(
    a: Seq<Seq<u8>>,
    raw: Seq<u8>,
    b: Seq<Seq<u8>>,
    node_id: Seq<char>,
    now_ms: u64,
)
    ensures
        ({
            let before = lifecycle::events_in(a, node_id, now_ms);
            let behind = lifecycle::events_in(b, node_id, now_ms);
            let whole = lifecycle::events_in(a.push(raw) + b, node_id, now_ms);
            let readable = vstd::utf8::valid_utf8(raw) && json::json_of_text(
                vstd::utf8::decode_utf8(raw),
            ) is Value;
            &&& readable ==> whole == before.push(
                lifecycle::event_of(
                    json::json_of_text(vstd::utf8::decode_utf8(raw))->Value_0,
                    node_id,
                    now_ms,
                ),
            ) + behind
            &&& !readable ==> whole == before + behind
        }),
    decreases b.len(),
{
    let s = a.push(raw) + b;
    if b.len() == 0 {
        assert(s =~= a.push(raw));
        assert(s.drop_last() =~= a);
        assert(s.last() == raw);
        assert(lifecycle::events_in(b, node_id, now_ms)
            =~= Seq::<crate::rule_lifecycle_bus::LifecycleView>::empty());
        assert(lifecycle::events_in(a, node_id, now_ms) + lifecycle::events_in(b, node_id, now_ms)
            =~= lifecycle::events_in(a, node_id, now_ms));
    } else {
        batch_tells_item_by_item(a, raw, b.drop_last(), node_id, now_ms);
        assert(s.drop_last() =~= a.push(raw) + b.drop_last());
        assert(s.last() == b.last());
    }
}

/// An agent that renews is handed the certificate that was signed for it, and one that may
/// not is told the error of the registry.
pub proof fn renewing_agent_is_answered(
    renewed: Result<node_registry::RenewedCert, RegistryError>,
    r: Result<node_registry::RenewedCert, RpcStatus>,
)
    requires
        renewal::answered(renewed, r),
    ensures
        r is Ok <==> renewed is Ok,
        r matches Ok(c) ==> c == renewed->Ok_0,
        r matches Err(s) ==> s.message@ == renewed->Err_0.message(),
        renewed matches Err(e) && (e is NotActive || e is SerialRevoked) ==> r->Err_0.code
            == RpcCode::PermissionDenied,
{
    if let Err(e) = renewed {
        renewal_tells_who_may_not(e);
    }
}

} // verus!
