//! What an agent says after its first message, and what is done about it.

use super::confirm;
use super::greeting;
use super::hub::{Hub, HubView};
use super::lifecycle;
use super::outbox::{enqueue, Outbox, OutboxView, SendError};
use super::restore;
use crate::event_bus::{EventBatchView, TaggedEventBatch};
use crate::metrics_store::MetricsView;
use crate::proto::{
    AgentPayload, BpfDirection, ConfigResult, ConfirmedAs, ControllerMessage, ControllerPayload,
    DeltaConfigPush, DeltaView, LocalChangeReport, PayloadView, ProgramAttachment, StateSnapshot,
};
use crate::reconciliation::local_change::{
    self, apply_local_change, ApplyLocalChangeError, LocalChangeOutcome,
};
use crate::reconciliation::{self, compute_delta};
use crate::store::model::{self, StoreModel};
use crate::store::records::{self, InterfaceView, NewAuditView, NodeView, RuleView};
use crate::store::{self, ControllerStore, NewAuditEntry, NodeRecord, Rule, StoreError};
use crate::strmap::{self, StrMap};
use crate::text;
use crate::timestamp::Timestamp;
use vstd::prelude::*;

verus! {

broadcast use vstd::string::group_string_axioms;

/// Whether a program sits on that side of the interface.
pub open spec fn sits(
    attachments: Seq<ProgramAttachment>,
    name: Seq<char>,
    direction: BpfDirection,
) -> bool {
    exists|i: int|
        {
            &&& 0 <= i < attachments.len()
            &&& (#[trigger] attachments[i]).interface_name@ == name
            &&& attachments[i].direction == direction
        }
}

/// The reverse-path filtering mode that an agent reports for an interface, 0 where it
/// reports none.
pub open spec fn reported_mode(modes: Map<Seq<char>, u32>, name: Seq<char>) -> u32 {
    if modes.contains_key(name) {
        modes[name]
    } else {
        0
    }
}

/// An interface as the state of an agent shows it.
pub open spec fn shown(i: InterfaceView, snap: StateSnapshot) -> InterfaceView {
    InterfaceView {
        xdp_attached: sits(snap.attachments@, i.name, BpfDirection::Ingress),
        tc_attached: sits(snap.attachments@, i.name, BpfDirection::Egress),
        fib_forwarding: model::names_contain(snap.fib_forwarding_interfaces@, i.name),
        urpf_mode: reported_mode(snap.urpf_interfaces@, i.name),
        ..i
    }
}

/// The store with the interfaces of a node as its agent shows them.
pub open spec fn snapshot_noted(
    m: StoreModel,
    node_id: Seq<char>,
    snap: StateSnapshot,
) -> StoreModel {
    StoreModel {
        interfaces: model::node_interfaces_changed(
            m.interfaces,
            node_id,
            |i: InterfaceView| shown(i, snap),
        ),
        ..m
    }
}

/// The word for a side of an interface.
fn side_word(d: BpfDirection) -> (s: &'static str)
    ensures
        s@ == (match d {
            BpfDirection::Ingress => "ingress"@,
            BpfDirection::Egress => "egress"@,
            BpfDirection::Unspecified => "unknown"@,
        }),
{
    match d {
        BpfDirection::Ingress => "ingress",
        BpfDirection::Egress => "egress",
        BpfDirection::Unspecified => "unknown",
    }
}

/// The interfaces and sides on which programs sit.
fn attachment_pairs(attachments: &Vec<ProgramAttachment>) -> (v: Vec<(String, String)>)
    ensures
        forall|name: Seq<char>|
            {
                &&& #[trigger] model::attached(v@, name, "ingress"@) == sits(
                    attachments@,
                    name,
                    BpfDirection::Ingress,
                )
                &&& model::attached(v@, name, "egress"@) == sits(
                    attachments@,
                    name,
                    BpfDirection::Egress,
                )
            },
{
    text::plain_directions();
    let mut v: Vec<(String, String)> = Vec::new();
    let mut i: usize = 0;
    while i < attachments.len()
        invariant
            i <= attachments@.len(),
            v@.len() == i,
            forall|j: int|
                0 <= j < i ==> (#[trigger] v@[j]).0@ == attachments@[j].interface_name@ && v@[j].1@
                    == (match attachments@[j].direction {
                    BpfDirection::Ingress => "ingress"@,
                    BpfDirection::Egress => "egress"@,
                    BpfDirection::Unspecified => "unknown"@,
                }),
        decreases attachments@.len() - i,
    {
        let a = &attachments[i];
        v.push((a.interface_name.clone(), side_word(a.direction).to_string()));
        i = i + 1;
    }
    proof {
        assert forall|name: Seq<char>|
            {
                &&& #[trigger] model::attached(v@, name, "ingress"@) == sits(
                    attachments@,
                    name,
                    BpfDirection::Ingress,
                )
                &&& model::attached(v@, name, "egress"@) == sits(
                    attachments@,
                    name,
                    BpfDirection::Egress,
                )
            } by {
            lemma_sits(v@, attachments@, name, BpfDirection::Ingress, "ingress"@);
            lemma_sits(v@, attachments@, name, BpfDirection::Egress, "egress"@);
        }
    }
    v
}

/// Pairs that name interfaces and sides say the same as the attachments.
proof fn lemma_sits(
    pairs: Seq<(String, String)>,
    attachments: Seq<ProgramAttachment>,
    name: Seq<char>,
    direction: BpfDirection,
    word: Seq<char>,
)
    requires
        pairs.len() == attachments.len(),
        forall|j: int|
            0 <= j < pairs.len() ==> (#[trigger] pairs[j]).0@ == attachments[j].interface_name@
                && (text::lowercase(pairs[j].1@) == word <==> attachments[j].direction
                == direction),
    ensures
        model::attached(pairs, name, word) == sits(attachments, name, direction),
{
    if model::attached(pairs, name, word) {
        let i = choose|i: int|
            0 <= i < pairs.len() && (#[trigger] pairs[i]).0@ == name && text::lowercase(pairs[i].1@)
                == word;
        assert(attachments[i].interface_name@ == name);
    }
    if sits(attachments, name, direction) {
        let i = choose|i: int|
            {
                &&& 0 <= i < attachments.len()
                &&& (#[trigger] attachments[i]).interface_name@ == name
                &&& attachments[i].direction == direction
            };
        assert(pairs[i].0@ == name);
    }
}

/// The modes of a map, one after the other.
fn mode_pairs(modes: &StrMap<u32>) -> (v: Vec<(String, u32)>)
    ensures
        forall|name: Seq<char>| #[trigger]
            model::mode_of(v@, name) == reported_mode(modes@, name),
{
    let ghost es = modes.entries();
    let n: usize = modes.len();
    let mut v: Vec<(String, u32)> = Vec::new();
    let mut i: usize = 0;
    while i < n
        invariant
            i <= n == es.len(),
            es == modes.entries(),
            v@.len() == i,
            forall|j: int| 0 <= j < i ==> (#[trigger] v@[j]).0@ == es[j].0@ && v@[j].1 == es[j].1,
        decreases n - i,
    {
        let (k, mode) = modes.at(i);
        v.push((k.clone(), *mode));
        i = i + 1;
    }
    proof {
        assert forall|name: Seq<char>| #[trigger]
            model::mode_of(v@, name) == reported_mode(modes@, name) by {
            lemma_modes(v@, es, name, es.len() as int);
            assert(v@.take(es.len() as int) =~= v@);
            if modes@.contains_key(name) {
                let j = strmap::key_index(es, name);
                assert(0 <= j < es.len() && es[j].0@ == name);
                strmap::lemma_entry(es, j);
            }
        }
    }
    v
}

/// The mode in a list is that of its only entry with the name.
proof fn lemma_modes(v: Seq<(String, u32)>, es: Seq<(String, u32)>, name: Seq<char>, n: int)
    requires
        v.len() == es.len(),
        0 <= n <= es.len(),
        strmap::keys_unique(es),
        forall|j: int| 0 <= j < v.len() ==> (#[trigger] v[j]).0@ == es[j].0@ && v[j].1 == es[j].1,
    ensures
        forall|j: int|
            0 <= j < n && (#[trigger] es[j]).0@ == name ==> model::mode_of(v.take(n), name)
                == es[j].1,
        (forall|j: int| 0 <= j < n ==> (#[trigger] es[j]).0@ != name) ==> model::mode_of(
            v.take(n),
            name,
        ) == 0,
    decreases n,
{
    if n > 0 {
        lemma_modes(v, es, name, n - 1);
        assert(v.take(n).drop_last() =~= v.take(n - 1));
        assert(v.take(n).last() == v[n - 1]);
        assert(v[n - 1].0@ == es[n - 1].0@);
        assert forall|j: int| 0 <= j < n && (#[trigger] es[j]).0@ == name implies model::mode_of(
            v.take(n),
            name,
        ) == es[j].1 by {
            if j < n - 1 {
                assert(es[j].0@ != es[n - 1].0@);
            }
        }
    }
}

/// Puts on record how the interfaces of a node are, as its agent shows them. A store
/// that fails keeps what it has.
fn note_snapshot<S: ControllerStore>(store: &mut S, node_id: &str, snap: &StateSnapshot)
    ensures
        final(store).dependable() == old(store).dependable(),
        old(store).dependable() ==> final(store).model() == snapshot_noted(
            old(store).model(),
            node_id@,
            *snap,
        ),
{
    let ghost m = store.model();
    let pairs = attachment_pairs(&snap.attachments);
    let _attached = store.update_interface_attachments(node_id, pairs.as_slice());
    let _fib = store.update_interface_fib_forwarding(
        node_id,
        snap.fib_forwarding_interfaces.as_slice(),
    );
    let modes = mode_pairs(&snap.urpf_interfaces);
    let _urpf = store.update_interface_urpf(node_id, modes.as_slice());
    proof {
        if store.dependable() {
            let target = snapshot_noted(m, node_id@, *snap);
            assert forall|k: (Seq<char>, Seq<char>)| #[trigger]
                m.interfaces.contains_key(k) implies store.model().interfaces[k]
                == target.interfaces[k] by {
                let name = m.interfaces[k].name;
                assert(model::attached(pairs@, name, "ingress"@) == sits(
                    snap.attachments@,
                    name,
                    BpfDirection::Ingress,
                ));
                assert(model::mode_of(modes@, name) == reported_mode(snap.urpf_interfaces@, name));
            }
            assert(store.model().interfaces =~= target.interfaces);
        }
    }
}

/// Whether an agent is sent what its state lacks against the live rules on record, and
/// nothing where it lacks nothing.
pub open spec fn sends_delta(
    m: StoreModel,
    node_id: Seq<char>,
    snap: StateSnapshot,
    now: Timestamp,
    out: OutboxView,
    out_after: OutboxView,
    r: Result<(), SendError>,
) -> bool {
    exists|all: Seq<RuleView>, surplus: Seq<Seq<char>>|
        {
            let desired = restore::live(all, now);
            let delta = DeltaView {
                rules_to_add: reconciliation::delta_adds(desired, snap.rules@),
                rule_ids_to_delete: surplus,
                ..reconciliation::no_delta()
            };
            &&& #[trigger] restore::lists_rules(all, m, node_id)
            &&& #[trigger] reconciliation::are_surplus(
                surplus,
                restore::live(all, now),
                snap.rules@,
            )
            &&& if delta.rules_to_add.len() == 0 && surplus.len() == 0 {
                r is Ok && out_after == out
            } else {
                restore::sends(out, PayloadView::Config(delta), out_after, r)
            }
        }
}

/// Whether a push makes up for what the state of an agent lacks against the desired rules,
/// and there is one just where it lacks something.
pub open spec fn makes_up(
    desired: Seq<RuleView>,
    snap: StateSnapshot,
    surplus: Seq<Seq<char>>,
    r: Option<DeltaConfigPush>,
) -> bool {
    let adds = reconciliation::delta_adds(desired, snap.rules@);
    &&& reconciliation::are_surplus(surplus, desired, snap.rules@)
    &&& match r {
        Some(push) => (adds.len() > 0 || surplus.len() > 0) && push@ == (DeltaView {
            rules_to_add: adds,
            rule_ids_to_delete: surplus,
            ..reconciliation::no_delta()
        }),
        None => adds.len() == 0 && surplus.len() == 0,
    }
}

/// What the state of an agent lacks against the live ones among the listed rules, where
/// it lacks anything. Where the rules could not be listed there is nothing to send.
pub fn delta_to_send(
    listed: Result<Vec<Rule>, StoreError>,
    snap: &StateSnapshot,
    now: &Timestamp,
) -> (r: Option<DeltaConfigPush>)
    ensures
        match listed {
            Ok(all) => exists|surplus: Seq<Seq<char>>| #[trigger]
                makes_up(restore::live(store::rule_views(all@), *now), *snap, surplus, r),
            Err(_) => r is None,
        },
{
    match listed {
        Ok(all) => {
            let desired = restore::live_rules(all, now);
            let delta = compute_delta(desired.as_slice(), snap);
            let ghost surplus = delta@.rule_ids_to_delete;
            proof {
                assert(reconciliation::are_surplus(
                    surplus,
                    restore::live(store::rule_views(all@), *now),
                    snap.rules@,
                ));
                assert(delta@.rules_to_add.len() == delta.rules_to_add@.len());
                assert(surplus.len() == delta.rule_ids_to_delete@.len());
            }
            let r: Option<DeltaConfigPush> = if delta.rules_to_add.len() > 0
                || delta.rule_ids_to_delete.len() > 0 {
                Some(delta)
            } else {
                None
            };
            assert(makes_up(
                restore::live(store::rule_views(all@), *now),
                *snap,
                surplus,
                r,
            ));
            r
        },
        Err(_) => None,
    }
}

/// Sends an agent what its state lacks against the live rules on record. Rules whose
/// time to live has run out are left out so they are not pushed back.
fn send_delta<S: ControllerStore>(
    store: &S,
    node_id: &str,
    snap: &StateSnapshot,
    out: &mut Outbox,
    now: Timestamp,
) -> (r: Result<(), SendError>)
    ensures
        sends_delta(store.model(), node_id@, *snap, now, old(out)@, final(out)@, r) || (
        !store.dependable() && r is Ok && final(out)@ == old(out)@),
{
    let listed = store.list_rules_for_node(node_id);
    let to_send = delta_to_send(listed, snap, &now);
    proof {
        if listed is Ok {
            let views = store::rule_views(listed->Ok_0@);
            assert(restore::lists_rules(views, store.model(), node_id@));
            let surplus = choose|surplus: Seq<Seq<char>>| #[trigger]
                makes_up(restore::live(views, now), *snap, surplus, to_send);
            assert(reconciliation::are_surplus(
                surplus,
                restore::live(views, now),
                snap.rules@,
            ));
        }
    }
    match to_send {
        Some(delta) => enqueue(out, ControllerMessage::of(ControllerPayload::Config(delta))),
        None => Ok(()),
    }
}

/// The audit entry on how applying a configuration went.
pub open spec fn result_entry(node_id: Seq<char>, c: ConfigResult) -> NewAuditView {
    NewAuditView {
        operator: None,
        action: if c.success {
            "config_applied"@
        } else {
            "config_apply_failed"@
        },
        node_id: Some(node_id),
        detail: if c.success {
            None
        } else {
            Some("error="@ + c.error_message@)
        },
        tenant_id: None,
    }
}

/// The word for a truth value.
pub open spec fn bool_word(b: bool) -> Seq<char> {
    if b {
        "true"@
    } else {
        "false"@
    }
}

/// The counts of a change that was taken over.
pub open spec fn change_counts(o: LocalChangeOutcome) -> Seq<char> {
    " added="@ + text::decimal(o.rules.added as nat) + " updated="@ + text::decimal(
        o.rules.updated as nat,
    ) + " deleted="@ + text::decimal(o.rules.deleted as nat) + " unchanged="@ + text::decimal(
        o.rules.unchanged as nat,
    ) + " default_actions="@ + text::decimal(o.default_actions_updated as nat) + " stop_behavior="@
        + bool_word(o.stop_behavior_updated) + " skipped="@ + text::decimal(
        o.skipped_rules as nat,
    )
}

/// The detail noted on a change that was made on the node itself.
pub open spec fn change_detail(
    source: Seq<char>,
    applied: Option<Result<LocalChangeOutcome, ApplyLocalChangeError>>,
) -> Seq<char> {
    "source="@ + source + match applied {
        Some(Ok(o)) => change_counts(o),
        Some(Err(e)) => " apply_error="@ + e.message(),
        None => " no_snapshot"@,
    }
}

/// The audit entry on a change that was made on the node itself.
pub open spec fn change_entry(node_id: Seq<char>, detail: Seq<char>) -> NewAuditView {
    NewAuditView {
        operator: None,
        action: "local_change_detected"@,
        node_id: Some(node_id),
        detail: Some(detail),
        tenant_id: None,
    }
}

/// What taking over the state of a node does.
pub open spec fn takes_over(
    before: StoreModel,
    after: StoreModel,
    node_id: Seq<char>,
    snap: StateSnapshot,
    now: Timestamp,
    r: Result<LocalChangeOutcome, ApplyLocalChangeError>,
) -> bool {
    match r {
        Ok(o) => before.nodes.contains_key(node_id) && (before.rules_keyed() ==> after
            == local_change::taken_over(before, node_id, snap, now)
            && local_change::tells_taken_over(o, before, node_id, snap, now)),
        Err(ApplyLocalChangeError::NodeNotFound(id)) => id@ == node_id
            && !before.nodes.contains_key(node_id) && after == before,
        Err(ApplyLocalChangeError::Store(_)) => false,
    }
}

/// What handling a change that was made on the node itself does: the reported state is
/// taken over, and the change noted.
pub open spec fn handles_change(
    before: StoreModel,
    after: StoreModel,
    node_id: Seq<char>,
    report: LocalChangeReport,
    now: Timestamp,
) -> bool {
    match report.current_state {
        Some(snap) => exists|
            mid: StoreModel,
            applied: Result<LocalChangeOutcome, ApplyLocalChangeError>,
        |
            {
                &&& #[trigger] takes_over(before, mid, node_id, snap, now, applied)
                &&& store::audit_grew(
                    mid,
                    after,
                    seq![
                        change_entry(node_id, change_detail(report.source@, Some(applied))),
                    ],
                    now,
                )
            },
        None => store::audit_grew(
            before,
            after,
            seq![change_entry(node_id, change_detail(report.source@, None))],
            now,
        ),
    }
}

/// The word for a truth value.
fn bool_text(b: bool) -> (s: &'static str)
    ensures
        s@ == bool_word(b),
{
    if b {
        "true"
    } else {
        "false"
    }
}

/// The counts of a change that was taken over.
fn counts_text(o: &LocalChangeOutcome) -> (s: String)
    ensures
        s@ == change_counts(*o),
{
    let mut s = text::concat4(
        " added=",
        text::usize_text(o.rules.added).as_str(),
        " updated=",
        text::usize_text(o.rules.updated).as_str(),
    );
    s.push_str(" deleted=");
    s.push_str(text::usize_text(o.rules.deleted).as_str());
    s.push_str(" unchanged=");
    s.push_str(text::usize_text(o.rules.unchanged).as_str());
    s.push_str(" default_actions=");
    s.push_str(text::usize_text(o.default_actions_updated).as_str());
    s.push_str(" stop_behavior=");
    s.push_str(bool_text(o.stop_behavior_updated));
    s.push_str(" skipped=");
    s.push_str(text::usize_text(o.skipped_rules).as_str());
    s
}

/// Takes over the state that a node has after a change that was made there.
fn handle_local_change<S: ControllerStore>(
    store: &mut S,
    node_id: &str,
    report: &LocalChangeReport,
    now: Timestamp,
)
    ensures
        final(store).dependable() == old(store).dependable(),
        old(store).dependable() ==> handles_change(
            old(store).model(),
            final(store).model(),
            node_id@,
            *report,
            now,
        ),
{
    let ghost before = store.model();
    match &report.current_state {
        Some(snap) => {
            let applied = apply_local_change(node_id, snap, store, now);
            let ghost mid = store.model();
            let tail: String = match &applied {
                Ok(o) => counts_text(o),
                Err(e) => text::concat2(" apply_error=", e.to_text().as_str()),
            };
            let detail = text::concat3("source=", report.source.as_str(), tail.as_str());
            assert(detail@ == change_detail(report.source@, Some(applied)));
            let entry = NewAuditEntry {
                operator: None,
                action: "local_change_detected".to_string(),
                node_id: Some(node_id.to_string()),
                detail: Some(detail),
                tenant_id: None,
            };
            assert(entry@ == change_entry(
                node_id@,
                change_detail(report.source@, Some(applied)),
            ));
            store::note(store, entry, now);
            assert(store.dependable() ==> takes_over(
                before,
                mid,
                node_id@,
                *snap,
                now,
                applied,
            ));
        },
        None => {
            let detail = text::concat3("source=", report.source.as_str(), " no_snapshot");
            let entry = NewAuditEntry {
                operator: None,
                action: "local_change_detected".to_string(),
                node_id: Some(node_id.to_string()),
                detail: Some(detail),
                tenant_id: None,
            };
            assert(entry@ == change_entry(node_id@, change_detail(report.source@, None)));
            store::note(store, entry, now);
        },
    }
}

/// Whether an agent is sent everything on record.
pub open spec fn sends_everything(
    m: StoreModel,
    node_id: Seq<char>,
    out: OutboxView,
    out_after: OutboxView,
    r: Result<(), SendError>,
) -> bool {
    exists|all: Seq<RuleView>, defaults: Map<Seq<char>, Seq<char>>|
        {
            &&& #[trigger] restore::lists_rules(all, m, node_id)
            &&& #[trigger] restore::has_defaults(m, node_id, defaults)
            &&& restore::sends(
                out,
                PayloadView::Config(
                    restore::full_restore(
                        reconciliation::rule_adds(all),
                        defaults,
                        stop_behavior_of(m, node_id),
                    ),
                ),
                out_after,
                r,
            )
        }
}

/// The stop behavior on record for a node.
pub open spec fn stop_behavior_of(m: StoreModel, node_id: Seq<char>) -> Option<Seq<char>> {
    if m.nodes.contains_key(node_id) {
        m.nodes[node_id].stop_behavior
    } else {
        None
    }
}

/// Whether an agent is sent nothing but what is on record, as by a store that may fail:
/// either nothing, or every rule; the default actions and the stop behavior are those on
/// record, or none.
pub open spec fn may_send_everything(
    m: StoreModel,
    node_id: Seq<char>,
    out: OutboxView,
    out_after: OutboxView,
    r: Result<(), SendError>,
) -> bool {
    ||| r is Ok && out_after == out
    ||| exists|
        all: Seq<RuleView>,
        defaults: Map<Seq<char>, Seq<char>>,
        stop_behavior: Option<Seq<char>>,
    |
        {
            &&& restore::lists_rules(all, m, node_id)
            &&& restore::may_have_defaults(m, node_id, defaults)
            &&& stop_behavior is None || stop_behavior == stop_behavior_of(m, node_id)
            &&& restore::sends(
                out,
                PayloadView::Config(
                    #[trigger] restore::full_restore(
                        #[trigger] reconciliation::rule_adds(all),
                        defaults,
                        stop_behavior,
                    ),
                ),
                out_after,
                r,
            )
        }
}

/// The stop behavior of a node that was looked up.
pub open spec fn stop_behavior_in(found: Result<Option<NodeRecord>, StoreError>) -> Option<
    Seq<char>,
> {
    match found {
        Ok(Some(n)) => n@.stop_behavior,
        _ => None,
    }
}

/// The push of all listed rules. Where they could not be listed there is none; where the
/// node could not be looked up, or is not on record, no stop behavior is sent along.
pub fn everything_to_send(
    listed: Result<Vec<Rule>, StoreError>,
    defaults: StrMap<String>,
    found: Result<Option<NodeRecord>, StoreError>,
) -> (r: Option<DeltaConfigPush>)
    ensures
        match listed {
            Ok(rules) => r matches Some(push) && push@ == restore::full_restore(
                reconciliation::rule_adds(store::rule_views(rules@)),
                strmap::texts(defaults@),
                stop_behavior_in(found),
            ),
            Err(_) => r is None,
        },
{
    match listed {
        Ok(rules) => {
            let adds = reconciliation::rules_to_rule_adds(rules.as_slice());
            let stop_behavior: Option<String> = match found {
                Ok(Some(n)) => n.stop_behavior,
                _ => None,
            };
            Some(restore::build_full_restore_push(adds, defaults, stop_behavior))
        },
        Err(_) => None,
    }
}

/// Sends an agent everything on record.
fn send_everything<S: ControllerStore>(store: &S, node_id: &str, out: &mut Outbox) -> (r: Result<
    (),
    SendError,
>)
    ensures
        store.dependable() ==> sends_everything(
            store.model(),
            node_id@,
            old(out)@,
            final(out)@,
            r,
        ),
        may_send_everything(store.model(), node_id@, old(out)@, final(out)@, r),
{
    let listed = store.list_rules_for_node(node_id);
    let defaults = restore::build_per_interface_defaults_map(node_id, store);
    let found = store.get_node(node_id);
    let ghost d = strmap::texts(defaults@);
    let ghost stop_behavior = stop_behavior_in(found);
    match everything_to_send(listed, defaults, found) {
        Some(push) => {
            proof {
                let all = store::rule_views(listed->Ok_0@);
                assert(restore::lists_rules(all, store.model(), node_id@));
                assert(store.dependable() ==> restore::has_defaults(store.model(), node_id@, d));
                assert(push@ == restore::full_restore(
                    reconciliation::rule_adds(all),
                    d,
                    stop_behavior,
                ));
            }
            enqueue(out, ControllerMessage::of(ControllerPayload::Config(push)))
        },
        None => Ok(()),
    }
}

/// The store with a node seen, where it is on record.
pub open spec fn node_seen(m: StoreModel, node_id: Seq<char>, now: Timestamp) -> StoreModel {
    if m.nodes.contains_key(node_id) {
        m.node_changed(node_id, greeting::seen(m.nodes[node_id], now))
    } else {
        m
    }
}

/// What handling a message does, where the store never fails.
pub open spec fn handles(
    before: StoreModel,
    after: StoreModel,
    h: HubView,
    h_after: HubView,
    out: OutboxView,
    out_after: OutboxView,
    node_id: Seq<char>,
    hostname: Option<Seq<char>>,
    payload: Option<AgentPayload>,
    now: Timestamp,
    now_ms: u64,
    r: Result<(), SendError>,
) -> bool {
    match payload {
        Some(AgentPayload::Heartbeat(_)) => {
            &&& after == node_seen(before, node_id, now)
            &&& quiet(h, h_after, out, out_after, r)
        },
        Some(AgentPayload::State(snap)) => {
            &&& after == snapshot_noted(before, node_id, snap)
            &&& h_after == h
            &&& sends_delta(after, node_id, snap, now, out, out_after, r)
        },
        Some(AgentPayload::ConfigResult(c)) => {
            &&& store::audit_grew(before, after, seq![result_entry(node_id, c)], now)
            &&& quiet(h, h_after, out, out_after, r)
        },
        Some(AgentPayload::Metrics(u)) => {
            &&& after == before
            &&& r is Ok
            &&& out_after == out
            &&& h_after == (HubView {
                metrics: h.metrics.insert(
                    node_id,
                    MetricsView {
                        received_at: now,
                        timestamp_ns: u.timestamp_ns,
                        prometheus_text: u.prometheus_text@,
                        hostname,
                    },
                ),
                ..h
            })
        },
        Some(AgentPayload::Events(b)) => {
            &&& after == before
            &&& r is Ok
            &&& out_after == out
            &&& h_after == (HubView {
                events: h.events.push(
                    EventBatchView {
                        node_id,
                        timestamp_ns: b.timestamp_ns,
                        events_json: store::byte_views(b.events_json@),
                    },
                ),
                ..h
            })
        },
        Some(AgentPayload::RuleLifecycleEvents(b)) => {
            let events = lifecycle::events_in(
                store::byte_views(b.events_json@),
                node_id,
                now_ms,
            );
            &&& after == (StoreModel {
                rules: lifecycle::without_expired(before.rules, events),
                ..before
            })
            &&& r is Ok
            &&& out_after == out
            &&& h_after == (HubView { lifecycle: h.lifecycle + events, ..h })
        },
        Some(AgentPayload::InterfaceUpdate(u)) => {
            &&& after == (StoreModel {
                interfaces: model::reported_interfaces(
                    before.interfaces,
                    node_id,
                    u.interfaces@,
                    now,
                ),
                ..before
            })
            &&& quiet(h, h_after, out, out_after, r)
        },
        Some(AgentPayload::LocalChange(report)) => {
            &&& handles_change(before, after, node_id, report, now)
            &&& quiet(h, h_after, out, out_after, r)
        },
        Some(AgentPayload::RestoreRequest(_)) => {
            &&& after == before
            &&& h_after == h
            &&& sends_everything(before, node_id, out, out_after, r)
        },
        Some(AgentPayload::ConfigConfirm(c)) => match h.pending.take(c.generation_id@) {
            Some(g) => confirm::handles_pending(
                g,
                c,
                before,
                after,
                true,
                h,
                h_after,
                out,
                out_after,
                r,
            ),
            None => {
                &&& r is Ok
                &&& h_after == (HubView { pending: h.pending.taken(c.generation_id@), ..h })
                &&& confirm::handles_late(node_id, c, before, after, out, out_after, now)
            },
        },
        // A second greeting is passed over, and so is a message that says nothing.
        Some(AgentPayload::Hello(_)) => after == before && quiet(h, h_after, out, out_after, r),
        None => after == before && quiet(h, h_after, out, out_after, r),
    }
}

/// What handling a message does, be it that the store fails: what is shared by all
/// streams changes as it does otherwise, what needs no store is done in full, and nothing
/// is sent but what is on record.
pub open spec fn handles_anyway(
    before: StoreModel,
    after: StoreModel,
    h: HubView,
    h_after: HubView,
    out: OutboxView,
    out_after: OutboxView,
    node_id: Seq<char>,
    hostname: Option<Seq<char>>,
    payload: Option<AgentPayload>,
    now: Timestamp,
    now_ms: u64,
    r: Result<(), SendError>,
) -> bool {
    match payload {
        Some(AgentPayload::State(snap)) => {
            &&& h_after == h
            &&& sends_delta(after, node_id, snap, now, out, out_after, r) || (r is Ok && out_after
                == out)
        },
        Some(AgentPayload::RuleLifecycleEvents(b)) => {
            let events = lifecycle::events_in(
                store::byte_views(b.events_json@),
                node_id,
                now_ms,
            );
            &&& r is Ok
            &&& out_after == out
            &&& h_after == (HubView { lifecycle: h.lifecycle + events, ..h })
        },
        Some(AgentPayload::RestoreRequest(_)) => {
            &&& after == before
            &&& h_after == h
            &&& may_send_everything(before, node_id, out, out_after, r)
        },
        Some(AgentPayload::ConfigConfirm(c)) => match h.pending.take(c.generation_id@) {
            Some(g) => confirm::handles_pending(
                g,
                c,
                before,
                after,
                false,
                h,
                h_after,
                out,
                out_after,
                r,
            ),
            None => {
                &&& r is Ok
                &&& h_after == (HubView { pending: h.pending.taken(c.generation_id@), ..h })
                &&& out_after == confirm::asked_again(c, out)
                &&& c.outcome != ConfirmedAs::Reverted ==> after == before
            },
        },
        Some(AgentPayload::Heartbeat(_)) => quiet(h, h_after, out, out_after, r),
        Some(AgentPayload::ConfigResult(_)) => quiet(h, h_after, out, out_after, r),
        Some(AgentPayload::InterfaceUpdate(_)) => quiet(h, h_after, out, out_after, r),
        Some(AgentPayload::LocalChange(_)) => quiet(h, h_after, out, out_after, r),
        // Anything else does not touch the store.
        _ => handles(
            before,
            after,
            h,
            h_after,
            out,
            out_after,
            node_id,
            hostname,
            payload,
            now,
            now_ms,
            r,
        ),
    }
}

/// Nothing is sent, and nothing shared is changed.
pub open spec fn quiet(
    h: HubView,
    h_after: HubView,
    out: OutboxView,
    out_after: OutboxView,
    r: Result<(), SendError>,
) -> bool {
    r is Ok && h_after == h && out_after == out
}

/// Handles one message of a connected agent. An error means that an answer could not
/// be sent, and ends the stream.
pub fn handle_message<S: ControllerStore>(
    store: &mut S,
    hub: &mut Hub,
    out: &mut Outbox,
    node_id: &str,
    hostname: &Option<String>,
    payload: Option<AgentPayload>,
    now: Timestamp,
    now_ms: u64,
) -> (r: Result<(), SendError>)
    ensures
        final(store).dependable() == old(store).dependable(),
        handles_anyway(
            old(store).model(),
            final(store).model(),
            old(hub)@,
            final(hub)@,
            old(out)@,
            final(out)@,
            node_id@,
            text::opt_text(*hostname),
            payload,
            now,
            now_ms,
            r,
        ),
        old(store).dependable() ==> handles(
            old(store).model(),
            final(store).model(),
            old(hub)@,
            final(hub)@,
            old(out)@,
            final(out)@,
            node_id@,
            text::opt_text(*hostname),
            payload,
            now,
            now_ms,
            r,
        ),
{
    match payload {
        Some(AgentPayload::Heartbeat(_)) => {
            let _seen = store.update_node_last_seen(node_id, now);
            Ok(())
        },
        Some(AgentPayload::State(snap)) => {
            // What is attached is put on record so that it can be shown.
            note_snapshot(store, node_id, &snap);
            send_delta(store, node_id, &snap, out, now)
        },
        Some(AgentPayload::ConfigResult(c)) => {
            let ghost entry_view = result_entry(node_id@, c);
            let entry = NewAuditEntry {
                operator: None,
                action: if c.success {
                    "config_applied".to_string()
                } else {
                    "config_apply_failed".to_string()
                },
                node_id: Some(node_id.to_string()),
                detail: if c.success {
                    None
                } else {
                    Some(text::concat2("error=", c.error_message.as_str()))
                },
                tenant_id: None,
            };
            assert(entry@ == entry_view);
            store::note(store, entry, now);
            Ok(())
        },
        Some(AgentPayload::Metrics(u)) => {
            let ghost h = hub@;
            let ghost view = MetricsView {
                received_at: now,
                timestamp_ns: u.timestamp_ns,
                prometheus_text: u.prometheus_text@,
                hostname: text::opt_text(*hostname),
            };
            hub.metrics.update(
                node_id,
                u.timestamp_ns,
                u.prometheus_text,
                records::copy_opt(hostname),
                now,
            );
            assert(hub@ =~= HubView { metrics: h.metrics.insert(node_id@, view), ..h });
            Ok(())
        },
        Some(AgentPayload::Events(b)) => {
            hub.publish_events(
                TaggedEventBatch {
                    node_id: node_id.to_string(),
                    timestamp_ns: b.timestamp_ns,
                    events_json: b.events_json,
                },
            );
            Ok(())
        },
        Some(AgentPayload::RuleLifecycleEvents(b)) => {
            lifecycle::handle_rule_lifecycle_batch(node_id, &b.events_json, store, hub, now_ms);
            Ok(())
        },
        Some(AgentPayload::InterfaceUpdate(u)) => {
            let _reported = store.upsert_node_interfaces(node_id, u.interfaces.as_slice(), now);
            Ok(())
        },
        Some(AgentPayload::LocalChange(report)) => {
            handle_local_change(store, node_id, &report, now);
            Ok(())
        },
        Some(AgentPayload::RestoreRequest(_)) => send_everything(store, node_id, out),
        Some(AgentPayload::ConfigConfirm(c)) => confirm::handle_config_confirm(
            node_id,
            c,
            store,
            hub,
            out,
            now,
        ),
        Some(AgentPayload::Hello(_)) => Ok(()),
        None => Ok(()),
    }
}

} // verus!
