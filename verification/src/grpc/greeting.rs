//! The first message of an agent, and what it is answered.

use super::hub::{Hub, HubView};
use super::outbox::{enqueue, Outbox, OutboxView, SendError};
use super::restore;
use crate::crypto;
use crate::json::{self, Json, JsonView};
use crate::proto::{
    AgentCapabilities, AgentHello, AgentPayload, ControllerMessage, ControllerPayload, Disconnect,
    DisconnectView, PayloadView, SetMetricsInterval, PROTOCOL_VERSION,
};
use crate::reconciliation;
use crate::session::SessionView;
use crate::store::model::{self, AgentInfoView, StoreModel};
use crate::store::records::{self, NewAuditView, NodeView, RuleView};
use crate::store::{self, AgentInfo, ControllerStore, NewAuditEntry, NodeRecord, NodeStatus, StoreError};
use crate::text;
use crate::timestamp::Timestamp;
use vstd::prelude::*;

verus! {

broadcast use vstd::string::group_string_axioms;

/// The word for what a message of an agent says.
pub open spec fn said(payload: Option<AgentPayload>) -> Seq<char> {
    match payload {
        None => "None"@,
        Some(AgentPayload::Hello(_)) => "Some(Hello)"@,
        Some(AgentPayload::Heartbeat(_)) => "Some(Heartbeat)"@,
        Some(AgentPayload::State(_)) => "Some(State)"@,
        Some(AgentPayload::ConfigResult(_)) => "Some(ConfigResult)"@,
        Some(AgentPayload::Metrics(_)) => "Some(Metrics)"@,
        Some(AgentPayload::Events(_)) => "Some(Events)"@,
        Some(AgentPayload::RuleLifecycleEvents(_)) => "Some(RuleLifecycleEvents)"@,
        Some(AgentPayload::InterfaceUpdate(_)) => "Some(InterfaceUpdate)"@,
        Some(AgentPayload::LocalChange(_)) => "Some(LocalChange)"@,
        Some(AgentPayload::RestoreRequest(_)) => "Some(RestoreRequest)"@,
        Some(AgentPayload::ConfigConfirm(_)) => "Some(ConfigConfirm)"@,
    }
}

/// The word for what a message of an agent says.
fn what_was_said(payload: &Option<AgentPayload>) -> (s: String)
    ensures
        s@ == said(*payload),
{
    match payload {
        None => "None".to_string(),
        Some(AgentPayload::Hello(_)) => "Some(Hello)".to_string(),
        Some(AgentPayload::Heartbeat(_)) => "Some(Heartbeat)".to_string(),
        Some(AgentPayload::State(_)) => "Some(State)".to_string(),
        Some(AgentPayload::ConfigResult(_)) => "Some(ConfigResult)".to_string(),
        Some(AgentPayload::Metrics(_)) => "Some(Metrics)".to_string(),
        Some(AgentPayload::Events(_)) => "Some(Events)".to_string(),
        Some(AgentPayload::RuleLifecycleEvents(_)) => "Some(RuleLifecycleEvents)".to_string(),
        Some(AgentPayload::InterfaceUpdate(_)) => "Some(InterfaceUpdate)".to_string(),
        Some(AgentPayload::LocalChange(_)) => "Some(LocalChange)".to_string(),
        Some(AgentPayload::RestoreRequest(_)) => "Some(RestoreRequest)".to_string(),
        Some(AgentPayload::ConfigConfirm(_)) => "Some(ConfigConfirm)".to_string(),
    }
}

/// Why a stream ended before its time.
#[derive(Debug)]
pub enum StreamError {
    /// The agent left before it said anything.
    NoHello,
    /// The stream failed before the agent said anything.
    Inbound(String),
    /// The agent said something else first: what it said.
    NotHello(Option<AgentPayload>),
    /// The agent was told why it cannot stay.
    Refused(String),
    Store(StoreError),
    Send(SendError),
}

impl StreamError {
    /// The text of the error. Of a first message that is no hello it gives the kind.
    pub open spec fn message(self) -> Seq<char> {
        match self {
            StreamError::NoHello => "Agent disconnected before sending hello"@,
            StreamError::Inbound(e) => e@,
            StreamError::NotHello(got) => "Expected AgentHello, got "@ + said(got),
            StreamError::Refused(e) => e@,
            StreamError::Store(e) => e.message(),
            StreamError::Send(e) => e.message(),
        }
    }

    /// The text of the error.
    pub fn to_text(&self) -> (s: String)
        ensures
            s@ == self.message(),
    {
        match self {
            StreamError::NoHello => "Agent disconnected before sending hello".to_string(),
            StreamError::Inbound(e) => e.clone(),
            StreamError::NotHello(got) => {
                let word = what_was_said(got);
                text::concat2("Expected AgentHello, got ", word.as_str())
            },
            StreamError::Refused(e) => e.clone(),
            StreamError::Store(e) => e.to_text(),
            StreamError::Send(e) => e.to_text(),
        }
    }
}

/// A text that an agent leaves empty when it has none.
pub open spec fn given(t: Seq<char>) -> Option<Seq<char>> {
    if t.len() == 0 {
        None
    } else {
        Some(t)
    }
}

/// A text that an agent leaves empty when it has none.
pub fn non_empty(t: &String) -> (r: Option<String>)
    ensures
        text::opt_text(r) == given(t@),
{
    if t.as_str().is_empty() {
        None
    } else {
        Some(t.clone())
    }
}

/// What is told to an agent with another version of the protocol.
pub open spec fn version_mismatch(version: u32) -> Seq<char> {
    "Protocol version mismatch: agent="@ + text::decimal(version as nat) + ", controller="@
        + text::decimal(PROTOCOL_VERSION as nat)
}

/// What is told to an agent whose node has no record. Most often the records were
/// lost while the agent still has its identity.
pub open spec fn unknown_node(node_id: Seq<char>) -> Seq<char> {
    "Unknown node: "@ + node_id
        + " — controller has no record of this identity; re-enroll required (delete identity.key and controller-client.*)"@
}

/// What is told to an agent whose node is not active.
pub open spec fn inactive_node(node_id: Seq<char>, status: NodeStatus) -> Seq<char> {
    "Node "@ + node_id + " is not active (status="@ + status.word() + ")"@
}

/// What is told to an agent whose certificate has been revoked.
pub open spec fn revoked_node(node_id: Seq<char>) -> Seq<char> {
    "Node "@ + node_id + " cert is revoked"@
}

/// Whether the certificate of a node is revoked.
pub open spec fn cert_revoked(m: StoreModel, n: NodeView) -> bool {
    n.cert_serial matches Some(s) && s.len() > 0 && m.revoked.contains(s)
}

/// Why an agent cannot stay, if it cannot.
pub open spec fn refusal(m: StoreModel, hello: AgentHello) -> Option<Seq<char>> {
    let id = hello.node_id@;
    if hello.protocol_version != PROTOCOL_VERSION {
        Some(version_mismatch(hello.protocol_version))
    } else if !m.nodes.contains_key(id) {
        Some(unknown_node(id))
    } else if m.nodes[id].status != NodeStatus::Active {
        Some(inactive_node(id, m.nodes[id].status))
    } else if cert_revoked(m, m.nodes[id]) {
        Some(revoked_node(id))
    } else {
        None
    }
}

/// The audit entry for an agent whose certificate has been revoked.
pub open spec fn revoked_entry(node_id: Seq<char>, serial: Seq<u8>) -> NewAuditView {
    NewAuditView {
        operator: None,
        action: "revoked_cert_reject"@,
        node_id: Some(node_id),
        detail: Some("serial="@ + crypto::hex_text(serial)),
        tenant_id: None,
    }
}

/// Whether an agent that cannot stay leaves the store as it was, but for a note on a
/// revoked certificate.
pub open spec fn notes_refusal(
    before: StoreModel,
    after: StoreModel,
    hello: AgentHello,
    now: Timestamp,
) -> bool {
    let id = hello.node_id@;
    if hello.protocol_version == PROTOCOL_VERSION && before.nodes.contains_key(id)
        && before.nodes[id].status == NodeStatus::Active {
        store::audit_grew(
            before,
            after,
            seq![revoked_entry(id, before.nodes[id].cert_serial->0)],
            now,
        )
    } else {
        after == before
    }
}

/// The farewell to an agent.
pub open spec fn farewell(reason: Seq<char>) -> PayloadView {
    PayloadView::Disconnect(DisconnectView { reason })
}

/// What an agent tells of itself.
pub open spec fn info_of(hello: AgentHello) -> AgentInfoView {
    AgentInfoView {
        tpm_backed: hello.tpm_backed,
        agent_version: given(hello.agent_version@),
        hostname: given(hello.hostname@),
        os_pretty_name: given(hello.os_pretty_name@),
        kernel_version: given(hello.kernel_version@),
        dmi_sys_vendor: given(hello.dmi_sys_vendor@),
        dmi_product_name: given(hello.dmi_product_name@),
        dmi_uuid: given(hello.dmi_uuid@),
    }
}

/// The JSON array of texts.
pub open spec fn texts_json(v: Seq<Seq<char>>) -> JsonView {
    JsonView::Array(v.map_values(|t: Seq<char>| JsonView::Str(t)))
}

/// The JSON object of what an agent is able to do.
pub open spec fn capabilities_json(c: AgentCapabilities) -> JsonView {
    JsonView::Object(
        Map::empty().insert("features"@, texts_json(text::texts(c.features@))).insert(
            "engine_version"@,
            JsonView::Str(c.engine_version@),
        ).insert("sources"@, texts_json(text::texts(c.sources@))),
    )
}

/// A node after it was seen.
pub open spec fn seen(n: NodeView, now: Timestamp) -> NodeView {
    NodeView { last_seen: Some(now), ..n }
}

/// The record of a node after its agent has said hello. What the agent does not tell
/// of itself stays as it was.
pub open spec fn introduced_node(n: NodeView, hello: AgentHello, now: Timestamp) -> NodeView {
    let told = model::with_agent_info(seen(n, now), info_of(hello));
    match hello.capabilities {
        Some(c) => NodeView { capabilities: json::printed_json(capabilities_json(c)), ..told },
        None => told,
    }
}

/// The store after an agent has said hello.
pub open spec fn introduced(m: StoreModel, hello: AgentHello, now: Timestamp) -> StoreModel {
    let id = hello.node_id@;
    let known = m.node_changed(id, introduced_node(m.nodes[id], hello, now));
    if hello.interfaces@.len() == 0 {
        known
    } else {
        StoreModel {
            interfaces: model::reported_interfaces(m.interfaces, id, hello.interfaces@, now),
            ..known
        }
    }
}

/// Whether an agent is sent the live rules on record, where there are any.
pub open spec fn sends_rules(
    m: StoreModel,
    node_id: Seq<char>,
    stop_behavior: Option<Seq<char>>,
    now: Timestamp,
    out: OutboxView,
    out_after: OutboxView,
    r: Result<(), SendError>,
) -> bool {
    exists|all: Seq<RuleView>, defaults: Map<Seq<char>, Seq<char>>|
        {
            let rules = restore::live(all, now);
            &&& restore::lists_rules(all, m, node_id)
            &&& restore::has_defaults(m, node_id, defaults)
            &&& if rules.len() == 0 {
                r is Ok && out_after == out
            } else {
                restore::sends(
                    out,
                    PayloadView::Config(
                        #[trigger] restore::full_restore(
                            reconciliation::rule_adds(#[trigger] restore::live(all, now)),
                            defaults,
                            stop_behavior,
                        ),
                    ),
                    out_after,
                    r,
                )
            }
        }
}

/// Whether an agent is sent the metrics interval on record, where there is one.
pub open spec fn sends_interval(
    interval: Option<u32>,
    out: OutboxView,
    out_after: OutboxView,
    r: Result<(), SendError>,
) -> bool {
    match interval {
        Some(secs) => restore::sends(out, PayloadView::SetMetricsInterval(secs), out_after, r),
        None => r is Ok && out_after == out,
    }
}

/// Whether an agent is sent first the rules and then the metrics interval on record;
/// nothing more once a message could not be sent.
pub open spec fn sends_welcome(
    m: StoreModel,
    n: NodeView,
    node_id: Seq<char>,
    now: Timestamp,
    out: OutboxView,
    out_after: OutboxView,
    r: Result<(), SendError>,
) -> bool {
    exists|mid: OutboxView, first: Result<(), SendError>|
        {
            &&& #[trigger] sends_rules(m, node_id, n.stop_behavior, now, out, mid, first)
            &&& match first {
                Ok(()) => sends_interval(n.metrics_interval_secs, mid, out_after, r),
                Err(e) => r == Err::<(), SendError>(e) && out_after == mid,
            }
        }
}

/// Whether an agent is sent at most the live rules on record, as by a store that may
/// fail.
pub open spec fn may_send_rules(
    m: StoreModel,
    node_id: Seq<char>,
    stop_behavior: Option<Seq<char>>,
    now: Timestamp,
    out: OutboxView,
    out_after: OutboxView,
    r: Result<(), SendError>,
) -> bool {
    ||| r is Ok && out_after == out
    ||| exists|all: Seq<RuleView>, defaults: Map<Seq<char>, Seq<char>>|
        {
            &&& restore::lists_rules(all, m, node_id)
            &&& restore::may_have_defaults(m, node_id, defaults)
            &&& restore::live(all, now).len() > 0
            &&& restore::sends(
                out,
                PayloadView::Config(
                    #[trigger] restore::full_restore(
                        reconciliation::rule_adds(#[trigger] restore::live(all, now)),
                        defaults,
                        stop_behavior,
                    ),
                ),
                out_after,
                r,
            )
        }
}

/// Whether an agent is sent first at most the rules and then the metrics interval on
/// record; nothing more once a message could not be sent.
pub open spec fn may_welcome(
    m: StoreModel,
    n: NodeView,
    node_id: Seq<char>,
    now: Timestamp,
    out: OutboxView,
    out_after: OutboxView,
    r: Result<(), SendError>,
) -> bool {
    exists|mid: OutboxView, first: Result<(), SendError>|
        {
            &&& #[trigger] may_send_rules(m, node_id, n.stop_behavior, now, out, mid, first)
            &&& match first {
                Ok(()) => sends_interval(n.metrics_interval_secs, mid, out_after, r),
                Err(e) => r == Err::<(), SendError>(e) && out_after == mid,
            }
        }
}

/// Whether an agent may get a session: it speaks the same version of the protocol, and
/// its node is on record and active.
pub open spec fn admissible(m: StoreModel, hello: AgentHello) -> bool {
    &&& hello.protocol_version == PROTOCOL_VERSION
    &&& m.nodes.contains_key(hello.node_id@)
    &&& m.nodes[hello.node_id@].status == NodeStatus::Active
}

/// What greeting an agent comes to, be it that the store fails. Where the node cannot be
/// looked up, nothing is changed and nothing sent; an agent is refused only for a reason
/// to refuse it, and gets a session only where it may.
pub open spec fn admits(
    before: StoreModel,
    after: StoreModel,
    h: HubView,
    h_after: HubView,
    out: OutboxView,
    out_after: OutboxView,
    hello: AgentHello,
    channel: u64,
    now: Timestamp,
    r: Result<(), StreamError>,
) -> bool {
    let id = hello.node_id@;
    let n = before.nodes[id];
    let online = HubView {
        sessions: h.sessions.insert(id, SessionView { channel, tenant_slug: n.tenant_id }),
        ..h
    };
    match r {
        Ok(()) => {
            &&& admissible(before, hello)
            &&& h_after == online
            &&& may_welcome(after, n, id, now, out, out_after, Ok(()))
        },
        Err(StreamError::Send(e)) => {
            &&& admissible(before, hello)
            &&& h_after == online
            &&& may_welcome(after, n, id, now, out, out_after, Err(e))
        },
        Err(StreamError::Refused(t)) => {
            &&& refusal(before, hello) == Some(t@)
            &&& !admissible(before, hello) ==> after == before
            &&& h_after == h
            &&& out_after == out.with(farewell(t@))
        },
        Err(StreamError::Store(_)) => {
            &&& hello.protocol_version == PROTOCOL_VERSION
            &&& after == before
            &&& h_after == h
            &&& out_after == out
        },
        Err(_) => false,
    }
}

/// What greeting an agent comes to.
pub open spec fn greets(
    before: StoreModel,
    after: StoreModel,
    h: HubView,
    h_after: HubView,
    out: OutboxView,
    out_after: OutboxView,
    hello: AgentHello,
    channel: u64,
    now: Timestamp,
    r: Result<(), StreamError>,
) -> bool {
    let id = hello.node_id@;
    match refusal(before, hello) {
        Some(reason) => {
            &&& r matches Err(StreamError::Refused(t)) && t@ == reason
            &&& notes_refusal(before, after, hello, now)
            &&& h_after == h
            &&& out_after == out.with(farewell(reason))
        },
        None => {
            let n = before.nodes[id];
            &&& after == introduced(before, hello, now)
            &&& h_after == (HubView {
                sessions: h.sessions.insert(id, SessionView { channel, tenant_slug: n.tenant_id }),
                ..h
            })
            &&& match r {
                Ok(()) => sends_welcome(after, n, id, now, out, out_after, Ok(())),
                Err(StreamError::Send(e)) => sends_welcome(
                    after,
                    n,
                    id,
                    now,
                    out,
                    out_after,
                    Err(e),
                ),
                Err(_) => false,
            }
        },
    }
}

/// Tells an agent why it cannot stay. Best-effort: the stream ends right after.
fn refuse(out: &mut Outbox, reason: String) -> (r: Result<(), StreamError>)
    ensures
        final(out)@ == old(out)@.with(farewell(reason@)),
        r matches Err(StreamError::Refused(t)) && t@ == reason@,
{
    let _sent = enqueue(
        out,
        ControllerMessage::of(ControllerPayload::Disconnect(Disconnect { reason: reason.clone() })),
    );
    Err(StreamError::Refused(reason))
}

/// The JSON array of texts.
fn texts_array(v: &Vec<String>) -> (j: Json)
    ensures
        j@ == texts_json(text::texts(v@)),
        j.wf(),
{
    let mut items: Vec<Json> = Vec::new();
    let mut i: usize = 0;
    while i < v.len()
        invariant
            i <= v@.len(),
            items@.len() == i,
            json::items_wf(items@),
            forall|k: int| 0 <= k < i ==> (#[trigger] items@[k])@ == JsonView::Str(v@[k]@),
        decreases v@.len() - i,
    {
        items.push(Json::Str(v[i].clone()));
        i = i + 1;
    }
    proof {
        json::lemma_array_view(items);
        assert(json::items_view(items@) =~= text::texts(v@).map_values(
            |t: Seq<char>| JsonView::Str(t),
        ));
    }
    Json::Array(items)
}

/// The JSON text of what an agent is able to do.
pub fn capabilities_text(c: &AgentCapabilities) -> (s: String)
    ensures
        s@ == json::printed_json(capabilities_json(*c)),
{
    let mut members: Vec<(String, Json)> = Vec::new();
    proof {
        json::lemma_no_members();
        assert(members@ =~= Seq::<(String, Json)>::empty());
    }
    json::put(&mut members, "features", texts_array(&c.features));
    json::put(&mut members, "engine_version", Json::Str(c.engine_version.clone()));
    json::put(&mut members, "sources", texts_array(&c.sources));
    proof {
        json::lemma_object_view(members);
    }
    json::print(Json::Object(members))
}

/// What an agent tells of itself.
fn read_info(hello: &AgentHello) -> (i: AgentInfo)
    ensures
        i@ == info_of(*hello),
{
    AgentInfo {
        tpm_backed: hello.tpm_backed,
        agent_version: non_empty(&hello.agent_version),
        hostname: non_empty(&hello.hostname),
        os_pretty_name: non_empty(&hello.os_pretty_name),
        kernel_version: non_empty(&hello.kernel_version),
        dmi_sys_vendor: non_empty(&hello.dmi_sys_vendor),
        dmi_product_name: non_empty(&hello.dmi_product_name),
        dmi_uuid: non_empty(&hello.dmi_uuid),
    }
}

/// Puts on record what an agent tells of itself. A store that fails keeps what it has.
fn introduce<S: ControllerStore>(store: &mut S, hello: &AgentHello, now: Timestamp)
    requires
        old(store).dependable() ==> old(store).model().nodes.contains_key(hello.node_id@),
    ensures
        final(store).dependable() == old(store).dependable(),
        old(store).dependable() ==> final(store).model() == introduced(
            old(store).model(),
            *hello,
            now,
        ),
{
    let ghost m = store.model();
    let node_id = hello.node_id.as_str();
    let _seen = store.update_node_last_seen(node_id, now);
    let info = read_info(hello);
    let _told = store.update_node_agent_info(node_id, &info);
    // Capabilities: an opaque JSON text so adding fields doesn't require a schema
    // change. An agent that does not report them leaves what is on record.
    if let Some(c) = &hello.capabilities {
        let blob = capabilities_text(c);
        let _kept = store.update_node_capabilities(node_id, blob.as_str());
    }
    assert(store.dependable() ==> store.model() == m.node_changed(
        hello.node_id@,
        introduced_node(m.nodes[hello.node_id@], *hello, now),
    )) by {
        if store.dependable() {
            assert(store.model().nodes =~= m.nodes.insert(
                hello.node_id@,
                introduced_node(m.nodes[hello.node_id@], *hello, now),
            ));
        }
    }
    if hello.interfaces.len() > 0 {
        let _reported = store.upsert_node_interfaces(node_id, hello.interfaces.as_slice(), now);
    }
}

/// Sends an agent the live rules on record. Rules whose time to live has run out are
/// left out; they are removed from the store soon after.
fn send_rules<S: ControllerStore>(
    store: &S,
    node_id: &str,
    stop_behavior: &Option<String>,
    out: &mut Outbox,
    now: Timestamp,
) -> (r: Result<(), SendError>)
    ensures
        store.dependable() ==> sends_rules(
            store.model(),
            node_id@,
            text::opt_text(*stop_behavior),
            now,
            old(out)@,
            final(out)@,
            r,
        ),
        may_send_rules(
            store.model(),
            node_id@,
            text::opt_text(*stop_behavior),
            now,
            old(out)@,
            final(out)@,
            r,
        ),
{
    let ghost before = out@;
    let listed = store.list_rules_for_node(node_id);
    let defaults = restore::build_per_interface_defaults_map(node_id, store);
    let ghost d = crate::strmap::texts(defaults@);
    let ghost push_view = restore::full_restore(
        reconciliation::rule_adds(restore::live(store::rule_views(listed->Ok_0@), now)),
        d,
        text::opt_text(*stop_behavior),
    );
    match restore::rules_to_send(listed, defaults, records::copy_opt(stop_behavior), &now) {
        Some(push) => {
            assert(push@ == push_view);
            let r = enqueue(out, ControllerMessage::of(ControllerPayload::Config(push)));
            assert(restore::sends(before, PayloadView::Config(push_view), out@, r));
            r
        },
        None => {
            assert(out@ == before);
            Ok(())
        },
    }
}

/// What becomes of an agent once its node was looked up.
pub enum Screened {
    /// The node is on record and active.
    Fit(NodeRecord),
    /// The agent cannot stay, and why.
    Unfit(String),
    /// The node could not be looked up.
    Failed(StoreError),
}

/// Looks at what the store answered when it was asked for the node of an agent.
pub fn screen_node(node_id: &str, found: Result<Option<NodeRecord>, StoreError>) -> (r: Screened)
    ensures
        match found {
            Ok(Some(n)) => if n.status == NodeStatus::Active {
                r == Screened::Fit(n)
            } else {
                r matches Screened::Unfit(t) && t@ == inactive_node(node_id@, n.status)
            },
            Ok(None) => r matches Screened::Unfit(t) && t@ == unknown_node(node_id@),
            Err(e) => r == Screened::Failed(e),
        },
{
    match found {
        Ok(Some(n)) => if n.status != NodeStatus::Active {
            let mut reason = text::concat4(
                "Node ",
                node_id,
                " is not active (status=",
                n.status.to_text().as_str(),
            );
            reason.push_str(")");
            Screened::Unfit(reason)
        } else {
            Screened::Fit(n)
        },
        Ok(None) => Screened::Unfit(
            text::concat3(
                "Unknown node: ",
                node_id,
                " — controller has no record of this identity; re-enroll required (delete identity.key and controller-client.*)",
            ),
        ),
        Err(e) => Screened::Failed(e),
    }
}

/// Looks at what the store answered when it was asked whether the certificate of a node is
/// revoked. Where it could not tell, the certificate passes.
pub fn screen_cert(node_id: &str, revoked: Result<bool, StoreError>) -> (r: Option<String>)
    ensures
        match revoked {
            Ok(true) => r matches Some(t) && t@ == revoked_node(node_id@),
            _ => r is None,
        },
{
    match revoked {
        Ok(true) => Some(text::concat3("Node ", node_id, " cert is revoked")),
        _ => None,
    }
}

/// Looks at the first message of an agent: the agent must speak the same version of
/// the protocol, its node must be on record and active, and its certificate not be
/// revoked. Then what it tells of itself is put on record, its session registered, and
/// the rules and the metrics interval on record are sent to it.
pub fn greet<S: ControllerStore>(
    store: &mut S,
    hub: &mut Hub,
    out: &mut Outbox,
    hello: &AgentHello,
    channel: u64,
    now: Timestamp,
) -> (r: Result<(), StreamError>)
    ensures
        final(store).dependable() == old(store).dependable(),
        r matches Err(StreamError::Store(_)) ==> !old(store).dependable(),
        admits(
            old(store).model(),
            final(store).model(),
            old(hub)@,
            final(hub)@,
            old(out)@,
            final(out)@,
            *hello,
            channel,
            now,
            r,
        ),
        old(store).dependable() ==> greets(
            old(store).model(),
            final(store).model(),
            old(hub)@,
            final(hub)@,
            old(out)@,
            final(out)@,
            *hello,
            channel,
            now,
            r,
        ),
{
    let ghost m = store.model();
    if hello.protocol_version != PROTOCOL_VERSION {
        let reason = text::concat4(
            "Protocol version mismatch: agent=",
            text::u64_text(hello.protocol_version as u64).as_str(),
            ", controller=",
            text::u64_text(PROTOCOL_VERSION as u64).as_str(),
        );
        return refuse(out, reason);
    }
    let node_id = hello.node_id.as_str();
    let node: NodeRecord = match screen_node(node_id, store.get_node(node_id)) {
        Screened::Fit(n) => n,
        Screened::Unfit(reason) => {
            return refuse(out, reason);
        },
        Screened::Failed(e) => {
            return Err(StreamError::Store(e));
        },
    };
    // Defense-in-depth on top of the status check above: if this node's issued
    // cert serial has been explicitly revoked, reject the connection even when
    // the record was somehow flipped back to Active.
    if let Some(serial) = &node.cert_serial {
        let refused: Option<String> = if serial.len() > 0 {
            screen_cert(node_id, store.is_cert_revoked(serial.as_slice()))
        } else {
            None
        };
        if let Some(reason) = refused {
            let entry = NewAuditEntry {
                operator: None,
                action: "revoked_cert_reject".to_string(),
                node_id: Some(node_id.to_string()),
                detail: Some(
                    text::concat2("serial=", crypto::encode_hex(serial.as_slice()).as_str()),
                ),
                tenant_id: None,
            };
            assert(entry@ == revoked_entry(node_id@, serial@));
            store::note(store, entry, now);
            return refuse(out, reason);
        }
    }
    introduce(store, hello, now);
    // What the agent told is on record before the node counts as online, so that
    // whoever finds it online finds its interfaces too.
    let ghost h = hub@;
    hub.sessions.register(node_id.to_string(), node.tenant_id.clone(), channel);
    assert(hub@ =~= HubView {
        sessions: h.sessions.insert(
            node_id@,
            SessionView { channel, tenant_slug: node.tenant_id@ },
        ),
        ..h
    });
    let ghost there = store.model();
    let ghost start = out@;
    let first = send_rules(store, node_id, &node.stop_behavior, out, now);
    let ghost mid = out@;
    match first {
        Ok(()) => {},
        Err(e) => {
            assert(store.dependable() ==> sends_welcome(
                there,
                node@,
                node_id@,
                now,
                start,
                out@,
                Err(e),
            ));
            assert(may_welcome(there, node@, node_id@, now, start, out@, Err(e)));
            return Err(StreamError::Send(e));
        },
    }
    // Re-apply the metrics interval on connect, so it survives agent restarts without
    // the agent persisting it locally.
    let second: Result<(), SendError> = match node.metrics_interval_secs {
        Some(secs) => enqueue(
            out,
            ControllerMessage::of(
                ControllerPayload::SetMetricsInterval(SetMetricsInterval { interval_secs: secs }),
            ),
        ),
        None => Ok(()),
    };
    assert(store.dependable() ==> sends_welcome(
        there,
        node@,
        node_id@,
        now,
        start,
        out@,
        second,
    )) by {
        if store.dependable() {
            assert(sends_rules(there, node_id@, node@.stop_behavior, now, start, mid, first));
            assert(sends_interval(node@.metrics_interval_secs, mid, out@, second));
        }
    }
    assert(may_welcome(there, node@, node_id@, now, start, out@, second)) by {
        assert(may_send_rules(there, node_id@, node@.stop_behavior, now, start, mid, first));
        assert(sends_interval(node@.metrics_interval_secs, mid, out@, second));
    }
    match second {
        Ok(()) => Ok(()),
        Err(e) => Err(StreamError::Send(e)),
    }
}

} // verus!
