//! The operations that await the confirmation of an agent.

use crate::proto::{
    AttachProgram, AttachView, BpfDirection, BpfMode, ControllerMessage, ControllerPayload,
    DeltaConfigPush, DeltaView, DetachProgram, DetachView, PayloadView, RulesetPushView,
    SetFibForwarding, SetFibView, SetInspectInterface, SetInspectInterfaceView, SetInspectMode,
    SetInspectModeView, SetUrpf, SetUrpfView, SuricataRulesetPush,
};
use crate::reconciliation;
use crate::store::model::{self, StoreModel};
use crate::store::records::{InterfaceView, NodeView, RuleView};
use crate::store::{self, ControllerStore, NodeInterface, Rule, StoreError};
use crate::strmap::{self, StrMap};
use crate::text;
use vstd::prelude::*;

verus! {

broadcast use vstd::string::group_string_axioms;

/// Operations the controller will commit to the store once the agent confirms.
pub enum PendingOp {
    CreateRule(Box<Rule>),
    DeleteRule { node_id: String, rule_id: String },
    Attach {
        node_id: String,
        interface_name: String,
        /// "ingress" | "egress"
        direction: String,
    },
    Detach { node_id: String, interface_name: String, direction: String },
    SetFibForwarding { node_id: String, interface_name: String, enabled: bool },
    SetUrpf {
        node_id: String,
        interface_name: String,
        /// 0 = off, 1 = loose, 2 = strict.
        mode: u32,
    },
    SetInspectMode {
        node_id: String,
        /// 0 = disabled, 1 = IPS, 2 = IDS.
        mode: u32,
    },
    SetInspectInterface { node_id: String, interface_name: String, enabled: bool },
    /// Operator-initiated fleet Suricata ruleset sync. The push is pre-built; the
    /// generation is stamped in `to_controller_message`. Commit is a no-op: desired
    /// state already lives in the assignment tables and reported state arrives with
    /// the next snapshot.
    PushSuricataRulesets { node_id: String, push: SuricataRulesetPush },
    SetDefaultAction {
        node_id: String,
        interface_name: String,
        direction: String,
        action: String,
    },
    SetStopBehavior {
        node_id: String,
        /// "clear-state", "preserve-state", or empty string meaning "unset".
        behavior: String,
    },
    /// Bulk delete of all rules scoped to a single (node, interface, direction).
    /// The agent receives a single DeltaConfigPush listing every rule_id, deletes
    /// them locally, and on confirm the controller drops them from the store.
    FlushRules {
        node_id: String,
        interface_name: String,
        direction: String,
        rule_ids: Vec<String>,
    },
}

impl PendingOp {
    /// The tag of the op.
    pub open spec fn tag(self) -> Seq<char> {
        match self {
            PendingOp::CreateRule(_) => "create_rule"@,
            PendingOp::DeleteRule { .. } => "delete_rule"@,
            PendingOp::Attach { .. } => "attach"@,
            PendingOp::Detach { .. } => "detach"@,
            PendingOp::SetFibForwarding { .. } => "set_fib_forwarding"@,
            PendingOp::SetUrpf { .. } => "set_urpf"@,
            PendingOp::SetInspectMode { .. } => "set_inspect_mode"@,
            PendingOp::SetInspectInterface { .. } => "set_inspect_interface"@,
            PendingOp::PushSuricataRulesets { .. } => "push_suricata_rulesets"@,
            PendingOp::SetDefaultAction { .. } => "set_default_action"@,
            PendingOp::SetStopBehavior { .. } => "set_stop_behavior"@,
            PendingOp::FlushRules { .. } => "flush_rules"@,
        }
    }

    /// Stable string tag describing the op shape, for display.
    pub fn kind(&self) -> (s: &'static str)
        ensures
            s@ == self.tag(),
    {
        match self {
            PendingOp::CreateRule(_) => "create_rule",
            PendingOp::DeleteRule { .. } => "delete_rule",
            PendingOp::Attach { .. } => "attach",
            PendingOp::Detach { .. } => "detach",
            PendingOp::SetFibForwarding { .. } => "set_fib_forwarding",
            PendingOp::SetUrpf { .. } => "set_urpf",
            PendingOp::SetInspectMode { .. } => "set_inspect_mode",
            PendingOp::SetInspectInterface { .. } => "set_inspect_interface",
            PendingOp::PushSuricataRulesets { .. } => "push_suricata_rulesets",
            PendingOp::SetDefaultAction { .. } => "set_default_action",
            PendingOp::SetStopBehavior { .. } => "set_stop_behavior",
            PendingOp::FlushRules { .. } => "flush_rules",
        }
    }

    /// The node that the op is for.
    pub open spec fn node(self) -> Seq<char> {
        match self {
            PendingOp::CreateRule(r) => r.node_id@,
            PendingOp::DeleteRule { node_id, .. } => node_id@,
            PendingOp::Attach { node_id, .. } => node_id@,
            PendingOp::Detach { node_id, .. } => node_id@,
            PendingOp::SetFibForwarding { node_id, .. } => node_id@,
            PendingOp::SetUrpf { node_id, .. } => node_id@,
            PendingOp::SetInspectMode { node_id, .. } => node_id@,
            PendingOp::SetInspectInterface { node_id, .. } => node_id@,
            PendingOp::PushSuricataRulesets { node_id, .. } => node_id@,
            PendingOp::SetDefaultAction { node_id, .. } => node_id@,
            PendingOp::SetStopBehavior { node_id, .. } => node_id@,
            PendingOp::FlushRules { node_id, .. } => node_id@,
        }
    }

    /// The node that the op is for.
    pub fn node_id(&self) -> (s: &str)
        ensures
            s@ == self.node(),
    {
        match self {
            PendingOp::CreateRule(r) => r.node_id.as_str(),
            PendingOp::DeleteRule { node_id, .. } => node_id.as_str(),
            PendingOp::Attach { node_id, .. } => node_id.as_str(),
            PendingOp::Detach { node_id, .. } => node_id.as_str(),
            PendingOp::SetFibForwarding { node_id, .. } => node_id.as_str(),
            PendingOp::SetUrpf { node_id, .. } => node_id.as_str(),
            PendingOp::SetInspectMode { node_id, .. } => node_id.as_str(),
            PendingOp::SetInspectInterface { node_id, .. } => node_id.as_str(),
            PendingOp::PushSuricataRulesets { node_id, .. } => node_id.as_str(),
            PendingOp::SetDefaultAction { node_id, .. } => node_id.as_str(),
            PendingOp::SetStopBehavior { node_id, .. } => node_id.as_str(),
            PendingOp::FlushRules { node_id, .. } => node_id.as_str(),
        }
    }

    /// The interface and direction that the op targets.
    pub open spec fn target(self) -> (Option<Seq<char>>, Option<Seq<char>>) {
        match self {
            PendingOp::Attach { interface_name, direction, .. } => (
                Some(interface_name@),
                Some(direction@),
            ),
            PendingOp::Detach { interface_name, direction, .. } => (
                Some(interface_name@),
                Some(direction@),
            ),
            PendingOp::SetDefaultAction { interface_name, direction, .. } => (
                Some(interface_name@),
                Some(direction@),
            ),
            PendingOp::FlushRules { interface_name, direction, .. } => (
                Some(interface_name@),
                Some(direction@),
            ),
            PendingOp::SetFibForwarding { interface_name, .. } => (Some(interface_name@), None),
            PendingOp::SetUrpf { interface_name, .. } => (Some(interface_name@), None),
            PendingOp::SetInspectInterface { interface_name, .. } => (Some(interface_name@), None),
            PendingOp::CreateRule(r) => (Some(r.interface_name@), Some(r.direction@)),
            _ => (None, None),
        }
    }

    /// The (interface, direction) this op targets, for per-control UI display.
    /// `direction` is `None` for ops that aren't direction-scoped (fib/urpf),
    /// and both are `None` for node-scoped ops (delete-by-id, stop-behavior).
    pub fn interface_target(&self) -> (r: (Option<String>, Option<String>))
        ensures
            (text::opt_text(r.0), text::opt_text(r.1)) == self.target(),
    {
        match self {
            PendingOp::Attach { interface_name, direction, .. } => (
                Some(interface_name.clone()),
                Some(direction.clone()),
            ),
            PendingOp::Detach { interface_name, direction, .. } => (
                Some(interface_name.clone()),
                Some(direction.clone()),
            ),
            PendingOp::SetDefaultAction { interface_name, direction, .. } => (
                Some(interface_name.clone()),
                Some(direction.clone()),
            ),
            PendingOp::FlushRules { interface_name, direction, .. } => (
                Some(interface_name.clone()),
                Some(direction.clone()),
            ),
            PendingOp::SetFibForwarding { interface_name, .. } => (
                Some(interface_name.clone()),
                None,
            ),
            PendingOp::SetUrpf { interface_name, .. } => (Some(interface_name.clone()), None),
            PendingOp::SetInspectInterface { interface_name, .. } => (
                Some(interface_name.clone()),
                None,
            ),
            PendingOp::CreateRule(r) => (Some(r.interface_name.clone()), Some(r.direction.clone())),
            _ => (None, None),
        }
    }

    /// The message that drives the op on the agent.
    pub open spec fn message(self, generation_id: Seq<char>, confirm_deadline_ms: u32) -> PayloadView {
        let delta = DeltaView {
            generation_id,
            confirm_deadline_ms,
            ..reconciliation::no_delta()
        };
        match self {
            PendingOp::CreateRule(r) => PayloadView::Config(
                DeltaView { rules_to_add: seq![reconciliation::rule_add(r@)], ..delta },
            ),
            PendingOp::DeleteRule { rule_id, .. } => PayloadView::Config(
                DeltaView { rule_ids_to_delete: seq![rule_id@], ..delta },
            ),
            PendingOp::Attach { interface_name, direction, .. } => PayloadView::Attach(
                AttachView {
                    interface_name: interface_name@,
                    direction: wire_direction(direction@),
                    mode: BpfMode::Auto,
                    generation_id,
                    confirm_deadline_ms,
                },
            ),
            PendingOp::Detach { interface_name, direction, .. } => PayloadView::Detach(
                DetachView {
                    interface_name: interface_name@,
                    direction: wire_direction(direction@),
                    generation_id,
                    confirm_deadline_ms,
                },
            ),
            PendingOp::SetFibForwarding { interface_name, enabled, .. } => PayloadView::SetFib(
                SetFibView {
                    interface_name: interface_name@,
                    enabled,
                    generation_id,
                    confirm_deadline_ms,
                },
            ),
            PendingOp::SetUrpf { interface_name, mode, .. } => PayloadView::SetUrpf(
                SetUrpfView {
                    interface_name: interface_name@,
                    mode,
                    generation_id,
                    confirm_deadline_ms,
                },
            ),
            PendingOp::SetInspectMode { mode, .. } => PayloadView::SetInspectMode(
                SetInspectModeView { mode, generation_id, confirm_deadline_ms },
            ),
            PendingOp::SetInspectInterface { interface_name, enabled, .. } =>
                PayloadView::SetInspectInterface(
                SetInspectInterfaceView {
                    interface_name: interface_name@,
                    enabled,
                    generation_id,
                    confirm_deadline_ms,
                },
            ),
            PendingOp::PushSuricataRulesets { push, .. } => PayloadView::SuricataRulesetPush(
                RulesetPushView { generation_id, confirm_deadline_ms, ..push@ },
            ),
            PendingOp::SetDefaultAction { interface_name, direction, action, .. } =>
                PayloadView::Config(
                DeltaView {
                    per_interface_default_actions: Map::empty().insert(
                        interface_name@ + ":"@ + text::lowercase(direction@),
                        action@,
                    ),
                    ..delta
                },
            ),
            PendingOp::SetStopBehavior { behavior, .. } => PayloadView::Config(
                DeltaView { stop_behavior: behavior@, ..delta },
            ),
            PendingOp::FlushRules { rule_ids, .. } => PayloadView::Config(
                DeltaView { rule_ids_to_delete: text::texts(rule_ids@), ..delta },
            ),
        }
    }

    /// Build the outbound `ControllerMessage` that will drive this op on the
    /// agent. The generation_id and deadline are stamped in so the agent can
    /// correlate its `ConfigConfirm` reply.
    pub fn to_controller_message(&self, generation_id: &str, confirm_deadline_ms: u32) -> (m:
        ControllerMessage)
        ensures
            m@ == Some(self.message(generation_id@, confirm_deadline_ms)),
    {
        let generation = generation_id.to_string();
        let payload = match self {
            PendingOp::CreateRule(rule) => {
                let mut rules_to_add = Vec::new();
                rules_to_add.push(reconciliation::rule_to_rule_add(rule));
                let mut d = bare_delta(generation, confirm_deadline_ms);
                d.rules_to_add = rules_to_add;
                assert(d@.rules_to_add =~= seq![reconciliation::rule_add(rule@)]);
                ControllerPayload::Config(d)
            },
            PendingOp::DeleteRule { rule_id, .. } => {
                let mut ids: Vec<String> = Vec::new();
                ids.push(rule_id.clone());
                let mut d = bare_delta(generation, confirm_deadline_ms);
                d.rule_ids_to_delete = ids;
                assert(d@.rule_ids_to_delete =~= seq![rule_id@]);
                ControllerPayload::Config(d)
            },
            PendingOp::Attach { interface_name, direction, .. } => ControllerPayload::Attach(
                AttachProgram {
                    interface_name: interface_name.clone(),
                    direction: direction_to_proto(direction.as_str()),
                    mode: BpfMode::Auto,
                    generation_id: generation,
                    confirm_deadline_ms,
                },
            ),
            PendingOp::Detach { interface_name, direction, .. } => ControllerPayload::Detach(
                DetachProgram {
                    interface_name: interface_name.clone(),
                    direction: direction_to_proto(direction.as_str()),
                    generation_id: generation,
                    confirm_deadline_ms,
                },
            ),
            PendingOp::SetFibForwarding { interface_name, enabled, .. } => ControllerPayload::SetFib(
                SetFibForwarding {
                    interface_name: interface_name.clone(),
                    enabled: *enabled,
                    generation_id: generation,
                    confirm_deadline_ms,
                },
            ),
            PendingOp::SetUrpf { interface_name, mode, .. } => ControllerPayload::SetUrpf(
                SetUrpf {
                    interface_name: interface_name.clone(),
                    mode: *mode,
                    generation_id: generation,
                    confirm_deadline_ms,
                },
            ),
            PendingOp::SetInspectMode { mode, .. } => ControllerPayload::SetInspectMode(
                SetInspectMode { mode: *mode, generation_id: generation, confirm_deadline_ms },
            ),
            PendingOp::SetInspectInterface { interface_name, enabled, .. } =>
                ControllerPayload::SetInspectInterface(
                SetInspectInterface {
                    interface_name: interface_name.clone(),
                    enabled: *enabled,
                    generation_id: generation,
                    confirm_deadline_ms,
                },
            ),
            PendingOp::PushSuricataRulesets { push, .. } => {
                let mut p = push.clone();
                p.generation_id = generation;
                p.confirm_deadline_ms = confirm_deadline_ms;
                ControllerPayload::SuricataRulesetPush(p)
            },
            PendingOp::SetDefaultAction { interface_name, direction, action, .. } => {
                let lower = direction.as_str().to_lowercase();
                let key = text::concat3(interface_name.as_str(), ":", lower.as_str());
                let copy = action.clone();
                let mut map: StrMap<String> = StrMap::new();
                map.insert(key, copy);
                let mut d = bare_delta(generation, confirm_deadline_ms);
                d.per_interface_default_actions = map;
                assert(d@.per_interface_default_actions =~= Map::empty().insert(key@, action@));
                ControllerPayload::Config(d)
            },
            PendingOp::SetStopBehavior { behavior, .. } => {
                let mut d = bare_delta(generation, confirm_deadline_ms);
                d.stop_behavior = behavior.clone();
                ControllerPayload::Config(d)
            },
            PendingOp::FlushRules { rule_ids, .. } => {
                let mut d = bare_delta(generation, confirm_deadline_ms);
                d.rule_ids_to_delete = text::copy_texts(rule_ids);
                ControllerPayload::Config(d)
            },
        };
        ControllerMessage::of(payload)
    }

    /// What committing the op does to the store, and how it can fail. An op on the
    /// interfaces of a node supposes that they are kept under their names.
    pub open spec fn commits(
        self,
        before: StoreModel,
        after: StoreModel,
        r: Result<(), StoreError>,
    ) -> bool {
        match self {
            PendingOp::CreateRule(rule) => store::done(
                after,
                r,
                StoreModel { rules: store::model::rule_created(before.rules, rule@), ..before },
            ),
            PendingOp::DeleteRule { rule_id, .. } => store::done(
                after,
                r,
                StoreModel { rules: before.rules.remove(rule_id@), ..before },
            ),
            PendingOp::Attach { node_id, interface_name, direction } => sides_are_plain() && (
            before.interfaces_keyed() ==> store::done(
                after,
                r,
                with_interfaces(
                    before,
                    node_id@,
                    |i: InterfaceView| program_attached(i, interface_name@, direction@),
                ),
            )),
            PendingOp::Detach { node_id, interface_name, direction } => before.interfaces_keyed()
                ==> store::done(
                after,
                r,
                with_interfaces(
                    before,
                    node_id@,
                    |i: InterfaceView| program_detached(i, interface_name@, direction@),
                ),
            ),
            PendingOp::SetFibForwarding { node_id, interface_name, enabled } =>
                before.interfaces_keyed() ==> store::done(
                after,
                r,
                with_interfaces(
                    before,
                    node_id@,
                    |i: InterfaceView|
                        if i.name == interface_name@ {
                            InterfaceView { fib_forwarding: enabled, ..i }
                        } else {
                            i
                        },
                ),
            ),
            PendingOp::SetUrpf { node_id, interface_name, mode } => before.interfaces_keyed()
                ==> store::done(
                after,
                r,
                with_interfaces(
                    before,
                    node_id@,
                    |i: InterfaceView|
                        if i.name == interface_name@ {
                            InterfaceView { urpf_mode: mode, ..i }
                        } else {
                            i
                        },
                ),
            ),
            PendingOp::SetInspectMode { node_id, mode } => store::done(
                after,
                r,
                if before.nodes.contains_key(node_id@) {
                    before.node_changed(
                        node_id@,
                        NodeView { inspect_mode: inspect_word(mode), ..before.nodes[node_id@] },
                    )
                } else {
                    before
                },
            ),
            PendingOp::SetInspectInterface { node_id, interface_name, enabled } => store::done(
                after,
                r,
                with_interfaces(
                    before,
                    node_id@,
                    |i: InterfaceView|
                        if i.name == interface_name@ {
                            InterfaceView { inspect_enabled: enabled, ..i }
                        } else {
                            i
                        },
                ),
            ),
            PendingOp::PushSuricataRulesets { .. } => r is Ok && after == before,
            PendingOp::SetDefaultAction { node_id, interface_name, direction, action } =>
                sides_are_plain() && store::default_action_set(
                before,
                after,
                r,
                (node_id@, interface_name@),
                direction@,
                action@,
            ),
            PendingOp::SetStopBehavior { node_id, behavior } => store::on_node(
                before,
                after,
                r,
                node_id@,
                before.node_changed(
                    node_id@,
                    NodeView {
                        stop_behavior: if behavior@.len() == 0 {
                            None
                        } else {
                            Some(behavior@)
                        },
                        ..before.nodes[node_id@]
                    },
                ),
            ),
            PendingOp::FlushRules { rule_ids, .. } => store::done(
                after,
                r,
                StoreModel {
                    rules: before.rules.remove_keys(text::texts(rule_ids@).to_set()),
                    ..before
                },
            ),
        }
    }

    /// Commit the pending change to the store. Called after the agent confirms.
    pub fn commit<S: ControllerStore>(&self, store: &mut S) -> (r: Result<(), StoreError>)
        ensures
            store::dependably(old(store).dependable(), final(store).dependable(), r),
            self.commits(old(store).model(), final(store).model(), r),
    {
        match self {
            PendingOp::CreateRule(rule) => store.create_rule(rule),
            PendingOp::DeleteRule { rule_id, .. } => store.delete_rule(rule_id.as_str()),
            PendingOp::Attach { node_id, interface_name, direction } => {
                text::plain_directions();
                let current = match store.list_node_interfaces(node_id.as_str()) {
                    Ok(v) => v,
                    Err(e) => {
                        return Err(e);
                    },
                };
                let mut attachments = attachments_of(&current);
                let ghost held = attachments@;
                if !has_pair(&attachments, interface_name.as_str(), direction.as_str()) {
                    attachments.push((interface_name.clone(), direction.clone()));
                }
                let ghost before = store.model();
                proof {
                    if attachments@.len() > held.len() {
                        assert(attachments@ =~= held.push(attachments@[held.len() as int]));
                        lemma_pair_added(held, attachments@[held.len() as int]);
                    }
                    if before.interfaces_keyed() {
                        lemma_attach(
                            before,
                            node_id@,
                            current@,
                            interface_name@,
                            direction@,
                            held,
                            attachments@,
                        );
                    }
                }
                let r = store.update_interface_attachments(
                    node_id.as_str(),
                    attachments.as_slice(),
                );
                assert(r is Ok && before.interfaces_keyed() ==> store.model() =~= with_interfaces(
                    before,
                    node_id@,
                    |i: InterfaceView| program_attached(i, interface_name@, direction@),
                ));
                r
            },
            PendingOp::Detach { node_id, interface_name, direction } => {
                let current = match store.list_node_interfaces(node_id.as_str()) {
                    Ok(v) => v,
                    Err(e) => {
                        return Err(e);
                    },
                };
                let held = attachments_of(&current);
                text::plain_directions();
                let attachments = without_pair(
                    &held,
                    interface_name.as_str(),
                    direction.as_str(),
                );
                let ghost before = store.model();
                proof {
                    if before.interfaces_keyed() {
                        lemma_detach(
                            before,
                            node_id@,
                            current@,
                            interface_name@,
                            direction@,
                            held@,
                            attachments@,
                        );
                    }
                }
                let r = store.update_interface_attachments(
                    node_id.as_str(),
                    attachments.as_slice(),
                );
                assert(r is Ok && before.interfaces_keyed() ==> store.model() =~= with_interfaces(
                    before,
                    node_id@,
                    |i: InterfaceView| program_detached(i, interface_name@, direction@),
                ));
                r
            },
            PendingOp::SetFibForwarding { node_id, interface_name, enabled } => {
                let current = match store.list_node_interfaces(node_id.as_str()) {
                    Ok(v) => v,
                    Err(e) => {
                        return Err(e);
                    },
                };
                let names = forwarding_names(&current, interface_name.as_str(), *enabled);
                let ghost before = store.model();
                proof {
                    if before.interfaces_keyed() {
                        lemma_fib(before, node_id@, current@, interface_name@, *enabled, names@);
                    }
                }
                let r = store.update_interface_fib_forwarding(node_id.as_str(), names.as_slice());
                assert(r is Ok && before.interfaces_keyed() ==> store.model() =~= with_interfaces(
                    before,
                    node_id@,
                    |i: InterfaceView|
                        if i.name == interface_name@ {
                            InterfaceView { fib_forwarding: *enabled, ..i }
                        } else {
                            i
                        },
                ));
                r
            },
            PendingOp::SetUrpf { node_id, interface_name, mode } => {
                let current = match store.list_node_interfaces(node_id.as_str()) {
                    Ok(v) => v,
                    Err(e) => {
                        return Err(e);
                    },
                };
                let modes = urpf_modes(&current, interface_name.as_str(), *mode);
                let ghost before = store.model();
                proof {
                    if before.interfaces_keyed() {
                        lemma_urpf(before, node_id@, current@, interface_name@, *mode, modes@);
                    }
                }
                let r = store.update_interface_urpf(node_id.as_str(), modes.as_slice());
                assert(r is Ok && before.interfaces_keyed() ==> store.model() =~= with_interfaces(
                    before,
                    node_id@,
                    |i: InterfaceView|
                        if i.name == interface_name@ {
                            InterfaceView { urpf_mode: *mode, ..i }
                        } else {
                            i
                        },
                ));
                r
            },
            PendingOp::SetInspectMode { node_id, mode } => {
                let word: &str = if *mode == 1 {
                    "ips"
                } else if *mode == 2 {
                    "ids"
                } else {
                    "disabled"
                };
                store.set_node_inspect_mode(node_id.as_str(), word)
            },
            PendingOp::SetInspectInterface { node_id, interface_name, enabled } => {
                let ghost before = store.model();
                let r = store.update_interface_inspect_enabled(
                    node_id.as_str(),
                    interface_name.as_str(),
                    *enabled,
                );
                assert(r is Ok ==> store.model() =~= with_interfaces(
                    before,
                    node_id@,
                    |i: InterfaceView|
                        if i.name == interface_name@ {
                            InterfaceView { inspect_enabled: *enabled, ..i }
                        } else {
                            i
                        },
                ));
                r
            },
            PendingOp::PushSuricataRulesets { .. } => Ok(()),
            PendingOp::SetDefaultAction { node_id, interface_name, direction, action } => {
                text::plain_directions();
                store.update_interface_default_action(
                    node_id.as_str(),
                    interface_name.as_str(),
                    direction.as_str(),
                    action.as_str(),
                )
            },
            PendingOp::SetStopBehavior { node_id, behavior } => {
                if behavior.as_str().is_empty() {
                    store.update_node_stop_behavior(node_id.as_str(), None)
                } else {
                    store.update_node_stop_behavior(node_id.as_str(), Some(behavior.as_str()))
                }
            },
            PendingOp::FlushRules { rule_ids, .. } => flush(store, rule_ids),
        }
    }
}

/// Whether the words for the sides of an interface are in lower case, as the direction of an
/// op counts.
pub open spec fn sides_are_plain() -> bool {
    text::lowercase("ingress"@) == "ingress"@ && text::lowercase("egress"@) == "egress"@
}

/// The side that a direction names on the wire.
pub open spec fn wire_direction(dir: Seq<char>) -> BpfDirection {
    if dir == "ingress"@ {
        BpfDirection::Ingress
    } else if dir == "egress"@ {
        BpfDirection::Egress
    } else {
        BpfDirection::Unspecified
    }
}

/// The side that a direction names on the wire.
fn direction_to_proto(dir: &str) -> (d: BpfDirection)
    ensures
        d == wire_direction(dir@),
{
    if text::same(dir, "ingress") {
        BpfDirection::Ingress
    } else if text::same(dir, "egress") {
        BpfDirection::Egress
    } else {
        BpfDirection::Unspecified
    }
}

/// The word for an inspection mode.
pub open spec fn inspect_word(mode: u32) -> Seq<char> {
    if mode == 1 {
        "ips"@
    } else if mode == 2 {
        "ids"@
    } else {
        "disabled"@
    }
}

/// A change without content that awaits confirmation.
fn bare_delta(generation_id: String, confirm_deadline_ms: u32) -> (d: DeltaConfigPush)
    ensures
        d@ == (DeltaView {
            generation_id: generation_id@,
            confirm_deadline_ms,
            ..reconciliation::no_delta()
        }),
{
    let d = DeltaConfigPush {
        rules_to_add: Vec::new(),
        rule_ids_to_delete: Vec::new(),
        is_full_restore: false,
        per_interface_default_actions: reconciliation::empty_defaults(),
        generation_id,
        confirm_deadline_ms,
        stop_behavior: String::new(),
    };
    proof {
        assert(d@.rules_to_add =~= Seq::empty());
        assert(d@.rule_ids_to_delete =~= Seq::empty());
    }
    d
}

/// The store with a change applied to each interface of a node.
pub open spec fn with_interfaces(
    m: StoreModel,
    node_id: Seq<char>,
    change: spec_fn(InterfaceView) -> InterfaceView,
) -> StoreModel {
    StoreModel {
        interfaces: model::node_interfaces_changed(m.interfaces, node_id, change),
        ..m
    }
}

/// An interface after a program was attached to the named one. The direction
/// counts in any case.
pub open spec fn program_attached(i: InterfaceView, name: Seq<char>, direction: Seq<char>) -> InterfaceView {
    InterfaceView {
        xdp_attached: i.xdp_attached || (i.name == name && text::lowercase(direction)
            == "ingress"@),
        tc_attached: i.tc_attached || (i.name == name && text::lowercase(direction) == "egress"@),
        ..i
    }
}

/// An interface after a program was detached from the named one.
pub open spec fn program_detached(i: InterfaceView, name: Seq<char>, direction: Seq<char>) -> InterfaceView {
    InterfaceView {
        xdp_attached: i.xdp_attached && !(i.name == name && direction == "ingress"@),
        tc_attached: i.tc_attached && !(i.name == name && direction == "egress"@),
        ..i
    }
}

/// Whether the pair is one of the pairs.
spec fn pairs_have(pairs: Seq<(String, String)>, a: Seq<char>, b: Seq<char>) -> bool {
    exists|i: int| 0 <= i < pairs.len() && (#[trigger] pairs[i]).0@ == a && pairs[i].1@ == b
}

/// Whether the pair is one of the pairs.
fn has_pair(pairs: &Vec<(String, String)>, a: &str, b: &str) -> (r: bool)
    ensures
        r == pairs_have(pairs@, a@, b@),
{
    let mut i: usize = 0;
    while i < pairs.len()
        invariant
            i <= pairs@.len(),
            forall|j: int|
                0 <= j < i ==> !((#[trigger] pairs@[j]).0@ == a@ && pairs@[j].1@ == b@),
        decreases pairs@.len() - i,
    {
        if text::same(pairs[i].0.as_str(), a) && text::same(pairs[i].1.as_str(), b) {
            return true;
        }
        i = i + 1;
    }
    false
}

/// The pairs but for one.
fn without_pair(pairs: &Vec<(String, String)>, a: &str, b: &str) -> (v: Vec<(String, String)>)
    ensures
        forall|x: Seq<char>, y: Seq<char>| #[trigger]
            pairs_have(v@, x, y) == (pairs_have(pairs@, x, y) && !(x == a@ && y == b@)),
{
    let mut v: Vec<(String, String)> = Vec::new();
    let mut i: usize = 0;
    while i < pairs.len()
        invariant
            i <= pairs@.len(),
            forall|x: Seq<char>, y: Seq<char>| #[trigger]
                pairs_have(v@, x, y) == (pairs_have(pairs@.take(i as int), x, y) && !(x == a@ && y
                    == b@)),
        decreases pairs@.len() - i,
    {
        let ghost before = v@;
        let kept = !(text::same(pairs[i].0.as_str(), a) && text::same(pairs[i].1.as_str(), b));
        if kept {
            v.push((pairs[i].0.clone(), pairs[i].1.clone()));
        }
        proof {
            lemma_pair_added(pairs@.take(i as int), pairs@[i as int]);
            assert(pairs@.take(i + 1) =~= pairs@.take(i as int).push(pairs@[i as int]));
            if kept {
                lemma_pair_added(before, v@[before.len() as int]);
                assert(v@ =~= before.push(v@[before.len() as int]));
            }
            assert forall|x: Seq<char>, y: Seq<char>| #[trigger] pairs_have(v@, x, y) == (
            pairs_have(pairs@.take(i + 1), x, y) && !(x == a@ && y == b@)) by {
                assert(pairs_have(before, x, y) == (pairs_have(pairs@.take(i as int), x, y) && !(x
                    == a@ && y == b@)));
            }
        }
        i = i + 1;
    }
    assert(pairs@.take(i as int) =~= pairs@);
    v
}

/// One more pair.
proof fn lemma_pair_added(pairs: Seq<(String, String)>, p: (String, String))
    ensures
        forall|x: Seq<char>, y: Seq<char>| #[trigger]
            pairs_have(pairs.push(p), x, y) == (pairs_have(pairs, x, y) || (x == p.0@ && y
                == p.1@)),
{
    assert forall|x: Seq<char>, y: Seq<char>| #[trigger] pairs_have(pairs.push(p), x, y) == (
    pairs_have(pairs, x, y) || (x == p.0@ && y == p.1@)) by {
        let all = pairs.push(p);
        if pairs_have(all, x, y) {
            let i = choose|i: int|
                0 <= i < all.len() && (#[trigger] all[i]).0@ == x && all[i].1@ == y;
            if i < pairs.len() {
                assert(pairs[i].0@ == x);
            }
        }
        if pairs_have(pairs, x, y) {
            let i = choose|i: int|
                0 <= i < pairs.len() && (#[trigger] pairs[i]).0@ == x && pairs[i].1@ == y;
            assert(all[i].0@ == x);
        }
        if x == p.0@ && y == p.1@ {
            assert(all[pairs.len() as int].0@ == x);
        }
    }
}

/// Whether an interface of that name has a program on that side.
spec fn sits(current: Seq<NodeInterface>, name: Seq<char>, side: Seq<char>) -> bool {
    exists|i: int|
        0 <= i < current.len() && (#[trigger] current[i]).name@ == name && ((side == "ingress"@
            && current[i].xdp_attached) || (side == "egress"@ && current[i].tc_attached))
}

/// The programs that sit on interfaces, as pairs of name and side.
fn attachments_of(current: &Vec<NodeInterface>) -> (v: Vec<(String, String)>)
    ensures
        forall|x: Seq<char>, y: Seq<char>| #[trigger] pairs_have(v@, x, y) == sits(current@, x, y),
{
    let mut v: Vec<(String, String)> = Vec::new();
    let mut i: usize = 0;
    while i < current.len()
        invariant
            i <= current@.len(),
            forall|x: Seq<char>, y: Seq<char>| #[trigger]
                pairs_have(v@, x, y) == sits(current@.take(i as int), x, y),
        decreases current@.len() - i,
    {
        let ghost before = v@;
        let ni = &current[i];
        if ni.xdp_attached {
            v.push((ni.name.clone(), "ingress".to_string()));
            proof {
                assert(v@ =~= before.push(v@[before.len() as int]));
                lemma_pair_added(before, v@[before.len() as int]);
            }
        }
        let ghost between = v@;
        if ni.tc_attached {
            v.push((ni.name.clone(), "egress".to_string()));
            proof {
                assert(v@ =~= between.push(v@[between.len() as int]));
                lemma_pair_added(between, v@[between.len() as int]);
            }
        }
        proof {
            let now = current@.take(i + 1);
            let was = current@.take(i as int);
            assert forall|x: Seq<char>, y: Seq<char>| #[trigger] pairs_have(v@, x, y) == sits(
                now,
                x,
                y,
            ) by {
                let here = ni.name@ == x && ((y == "ingress"@ && ni.xdp_attached) || (y
                    == "egress"@ && ni.tc_attached));
                assert(pairs_have(before, x, y) == sits(was, x, y));
                assert(pairs_have(v@, x, y) == (pairs_have(before, x, y) || here));
                if sits(was, x, y) {
                    let k = choose|k: int|
                        0 <= k < was.len() && (#[trigger] was[k]).name@ == x && ((y == "ingress"@
                            && was[k].xdp_attached) || (y == "egress"@ && was[k].tc_attached));
                    assert(now[k].name@ == x);
                }
                if here {
                    assert(now[i as int].name@ == x);
                }
                if sits(now, x, y) {
                    let k = choose|k: int|
                        0 <= k < now.len() && (#[trigger] now[k]).name@ == x && ((y == "ingress"@
                            && now[k].xdp_attached) || (y == "egress"@ && now[k].tc_attached));
                    if k < i {
                        assert(was[k].name@ == x);
                    }
                }
            }
        }
        i = i + 1;
    }
    assert(current@.take(i as int) =~= current@);
    v
}

/// The interface of a name, where interfaces are kept under their names, is the
/// only one that is listed under it.
proof fn lemma_only_interface(
    m: StoreModel,
    node_id: Seq<char>,
    current: Seq<InterfaceView>,
    key: (Seq<char>, Seq<char>),
) -> (i: int)
    requires
        m.interfaces_keyed(),
        model::lists(current, m.interfaces, |i: InterfaceView| i.node_id == node_id),
        m.interfaces.contains_key(key),
        key.0 == node_id,
    ensures
        0 <= i < current.len(),
        current[i] == m.interfaces[key],
        current[i].name == key.1,
        forall|j: int|
            0 <= j < current.len() && (#[trigger] current[j]).name == key.1 ==> current[j]
                == m.interfaces[key],
{
    let keep = |i: InterfaceView| i.node_id == node_id;
    let ks = choose|ks: Seq<(Seq<char>, Seq<char>)>|
        model::lists_keys(current, m.interfaces, keep, ks);
    assert(model::lists_keys(current, m.interfaces, keep, ks));
    assert(keep(m.interfaces[key]));
    assert(ks.contains(key));
    let i = choose|i: int| 0 <= i < ks.len() && ks[i] == key;
    assert(m.interfaces.contains_key(ks[i]));
    assert forall|j: int|
        0 <= j < current.len() && (#[trigger] current[j]).name == key.1 implies current[j]
        == m.interfaces[key] by {
        assert(m.interfaces.contains_key(ks[j]));
        assert(keep(current[j]));
        assert(ks[j] == key);
    }
    i
}

/// What is listed of the programs on an interface is what is recorded of it.
proof fn lemma_sits(
    m: StoreModel,
    node_id: Seq<char>,
    current: Seq<NodeInterface>,
    key: (Seq<char>, Seq<char>),
)
    requires
        m.interfaces_keyed(),
        model::lists(
            store::interface_views(current),
            m.interfaces,
            |i: InterfaceView| i.node_id == node_id,
        ),
        m.interfaces.contains_key(key),
        key.0 == node_id,
        "ingress"@ != "egress"@,
    ensures
        sits(current, key.1, "ingress"@) == m.interfaces[key].xdp_attached,
        sits(current, key.1, "egress"@) == m.interfaces[key].tc_attached,
{
    let views = store::interface_views(current);
    let i = lemma_only_interface(m, node_id, views, key);
    assert(views[i] == current[i]@);
    assert(current[i].name@ == key.1);
    if sits(current, key.1, "ingress"@) {
        let k = choose|k: int|
            0 <= k < current.len() && (#[trigger] current[k]).name@ == key.1 && ((
            "ingress"@ == "ingress"@ && current[k].xdp_attached) || ("ingress"@ == "egress"@
                && current[k].tc_attached));
        assert(views[k].name == key.1);
    }
    if sits(current, key.1, "egress"@) {
        let k = choose|k: int|
            0 <= k < current.len() && (#[trigger] current[k]).name@ == key.1 && ((
            "egress"@ == "ingress"@ && current[k].xdp_attached) || ("egress"@ == "egress"@
                && current[k].tc_attached));
        assert(views[k].name == key.1);
    }
}

/// Pairs with sides in plain words attach what they name.
proof fn lemma_attached(pairs: Seq<(String, String)>, name: Seq<char>, side: Seq<char>)
    ensures
        model::attached(pairs, name, side) <==> exists|d: Seq<char>| #[trigger]
            pairs_have(pairs, name, d) && text::lowercase(d) == side,
{
    if model::attached(pairs, name, side) {
        let i = choose|i: int|
            0 <= i < pairs.len() && (#[trigger] pairs[i]).0@ == name && text::lowercase(
                pairs[i].1@,
            ) == side;
        assert(pairs_have(pairs, name, pairs[i].1@));
    }
    if exists|d: Seq<char>| #[trigger] pairs_have(pairs, name, d) && text::lowercase(d) == side {
        let d = choose|d: Seq<char>| #[trigger]
            pairs_have(pairs, name, d) && text::lowercase(d) == side;
        let i = choose|i: int|
            0 <= i < pairs.len() && (#[trigger] pairs[i]).0@ == name && pairs[i].1@ == d;
        assert(text::lowercase(pairs[i].1@) == side);
    }
}

/// Attaching by way of the whole list of attachments attaches one program.
proof fn lemma_attach(
    m: StoreModel,
    node_id: Seq<char>,
    current: Seq<NodeInterface>,
    name: Seq<char>,
    direction: Seq<char>,
    held: Seq<(String, String)>,
    pairs: Seq<(String, String)>,
)
    requires
        m.interfaces_keyed(),
        model::lists(
            store::interface_views(current),
            m.interfaces,
            |i: InterfaceView| i.node_id == node_id,
        ),
        text::lowercase("ingress"@) == "ingress"@,
        text::lowercase("egress"@) == "egress"@,
        "ingress"@ != "egress"@,
        forall|x: Seq<char>, y: Seq<char>| #[trigger] pairs_have(held, x, y) == sits(current, x, y),
        forall|x: Seq<char>, y: Seq<char>| #[trigger]
            pairs_have(pairs, x, y) == (pairs_have(held, x, y) || (x == name && y == direction)),
    ensures
        forall|k: (Seq<char>, Seq<char>)| #[trigger]
            m.interfaces.contains_key(k) && k.0 == node_id ==> ({
                let i = m.interfaces[k];
                &&& model::attached(pairs, i.name, "ingress"@) == program_attached(
                    i,
                    name,
                    direction,
                ).xdp_attached
                &&& model::attached(pairs, i.name, "egress"@) == program_attached(
                    i,
                    name,
                    direction,
                ).tc_attached
            }),
{
    assert forall|k: (Seq<char>, Seq<char>)| #[trigger]
        m.interfaces.contains_key(k) && k.0 == node_id implies ({
        let i = m.interfaces[k];
        &&& model::attached(pairs, i.name, "ingress"@) == program_attached(
            i,
            name,
            direction,
        ).xdp_attached
        &&& model::attached(pairs, i.name, "egress"@) == program_attached(
            i,
            name,
            direction,
        ).tc_attached
    }) by {
        let i = m.interfaces[k];
        lemma_sits(m, node_id, current, k);
        lemma_attached(pairs, i.name, "ingress"@);
        lemma_attached(pairs, i.name, "egress"@);
        assert(pairs_have(held, i.name, "ingress"@) == i.xdp_attached);
        assert(pairs_have(held, i.name, "egress"@) == i.tc_attached);
        assert(pairs_have(pairs, i.name, "ingress"@) == (i.xdp_attached || (i.name == name
            && "ingress"@ == direction)));
        assert(pairs_have(pairs, i.name, "egress"@) == (i.tc_attached || (i.name == name
            && "egress"@ == direction)));
        assert(i.name == name ==> pairs_have(pairs, i.name, direction));
        assert forall|d: Seq<char>| #[trigger] pairs_have(pairs, i.name, d) implies (d
            == "ingress"@ && i.xdp_attached) || (d == "egress"@ && i.tc_attached) || (i.name == name
            && d == direction) by {
            if pairs_have(held, i.name, d) {
                assert(sits(current, i.name, d));
            }
        }
    }
}

/// Detaching by way of the whole list of attachments detaches one program.
proof fn lemma_detach(
    m: StoreModel,
    node_id: Seq<char>,
    current: Seq<NodeInterface>,
    name: Seq<char>,
    direction: Seq<char>,
    held: Seq<(String, String)>,
    pairs: Seq<(String, String)>,
)
    requires
        m.interfaces_keyed(),
        model::lists(
            store::interface_views(current),
            m.interfaces,
            |i: InterfaceView| i.node_id == node_id,
        ),
        text::lowercase("ingress"@) == "ingress"@,
        text::lowercase("egress"@) == "egress"@,
        "ingress"@ != "egress"@,
        forall|x: Seq<char>, y: Seq<char>| #[trigger] pairs_have(held, x, y) == sits(current, x, y),
        forall|x: Seq<char>, y: Seq<char>| #[trigger]
            pairs_have(pairs, x, y) == (pairs_have(held, x, y) && !(x == name && y == direction)),
    ensures
        forall|k: (Seq<char>, Seq<char>)| #[trigger]
            m.interfaces.contains_key(k) && k.0 == node_id ==> ({
                let i = m.interfaces[k];
                &&& model::attached(pairs, i.name, "ingress"@) == program_detached(
                    i,
                    name,
                    direction,
                ).xdp_attached
                &&& model::attached(pairs, i.name, "egress"@) == program_detached(
                    i,
                    name,
                    direction,
                ).tc_attached
            }),
{
    assert forall|k: (Seq<char>, Seq<char>)| #[trigger]
        m.interfaces.contains_key(k) && k.0 == node_id implies ({
        let i = m.interfaces[k];
        &&& model::attached(pairs, i.name, "ingress"@) == program_detached(
            i,
            name,
            direction,
        ).xdp_attached
        &&& model::attached(pairs, i.name, "egress"@) == program_detached(
            i,
            name,
            direction,
        ).tc_attached
    }) by {
        let i = m.interfaces[k];
        lemma_sits(m, node_id, current, k);
        lemma_attached(pairs, i.name, "ingress"@);
        lemma_attached(pairs, i.name, "egress"@);
        assert(pairs_have(held, i.name, "ingress"@) == i.xdp_attached);
        assert(pairs_have(held, i.name, "egress"@) == i.tc_attached);
        assert(pairs_have(pairs, i.name, "ingress"@) == (i.xdp_attached && !(i.name == name
            && "ingress"@ == direction)));
        assert(pairs_have(pairs, i.name, "egress"@) == (i.tc_attached && !(i.name == name
            && "egress"@ == direction)));
        assert forall|d: Seq<char>| #[trigger] pairs_have(pairs, i.name, d) implies d == "ingress"@
            || d == "egress"@ by {
            assert(pairs_have(held, i.name, d));
            assert(sits(current, i.name, d));
        }
    }
}

/// Whether an interface of that name forwards.
spec fn forwards(current: Seq<NodeInterface>, name: Seq<char>) -> bool {
    exists|i: int|
        0 <= i < current.len() && (#[trigger] current[i]).name@ == name && current[i].fib_forwarding
}

/// The names of the interfaces that forward once the named one is set.
fn forwarding_names(current: &Vec<NodeInterface>, name: &str, enabled: bool) -> (v: Vec<String>)
    ensures
        forall|n: Seq<char>| #[trigger]
            model::names_contain(v@, n) == (if n == name@ {
                enabled
            } else {
                forwards(current@, n)
            }),
{
    let mut v: Vec<String> = Vec::new();
    let mut i: usize = 0;
    while i < current.len()
        invariant
            i <= current@.len(),
            forall|n: Seq<char>| #[trigger]
                model::names_contain(v@, n) == (n != name@ && forwards(current@.take(i as int), n)),
        decreases current@.len() - i,
    {
        let ghost before = v@;
        let ni = &current[i];
        let kept = ni.fib_forwarding && !text::same(ni.name.as_str(), name);
        if kept {
            v.push(ni.name.clone());
        }
        proof {
            let now = current@.take(i + 1);
            let was = current@.take(i as int);
            if kept {
                lemma_name_added(before, ni.name);
                assert(v@ =~= before.push(v@[before.len() as int]));
                lemma_name_added(before, v@[before.len() as int]);
            }
            assert forall|n: Seq<char>| #[trigger] model::names_contain(v@, n) == (n != name@
                && forwards(now, n)) by {
                assert(model::names_contain(before, n) == (n != name@ && forwards(was, n)));
                if forwards(was, n) {
                    let k = choose|k: int|
                        0 <= k < was.len() && (#[trigger] was[k]).name@ == n
                            && was[k].fib_forwarding;
                    assert(now[k].name@ == n);
                }
                if forwards(now, n) {
                    let k = choose|k: int|
                        0 <= k < now.len() && (#[trigger] now[k]).name@ == n
                            && now[k].fib_forwarding;
                    if k < i {
                        assert(was[k].name@ == n);
                    }
                }
                if ni.name@ == n && ni.fib_forwarding {
                    assert(now[i as int].name@ == n);
                }
            }
        }
        i = i + 1;
    }
    assert(current@.take(i as int) =~= current@);
    if enabled {
        let ghost before = v@;
        v.push(name.to_string());
        proof {
            assert(v@ =~= before.push(v@[before.len() as int]));
            lemma_name_added(before, v@[before.len() as int]);
        }
    }
    v
}

/// One more name.
proof fn lemma_name_added(names: Seq<String>, s: String)
    ensures
        forall|n: Seq<char>| #[trigger]
            model::names_contain(names.push(s), n) == (model::names_contain(names, n) || n == s@),
{
    assert forall|n: Seq<char>| #[trigger] model::names_contain(names.push(s), n) == (
    model::names_contain(names, n) || n == s@) by {
        let all = names.push(s);
        if model::names_contain(all, n) {
            let i = choose|i: int| 0 <= i < all.len() && (#[trigger] all[i])@ == n;
            if i < names.len() {
                assert(names[i]@ == n);
            }
        }
        if model::names_contain(names, n) {
            let i = choose|i: int| 0 <= i < names.len() && (#[trigger] names[i])@ == n;
            assert(all[i]@ == n);
        }
        if n == s@ {
            assert(all[names.len() as int]@ == n);
        }
    }
}

/// Forwarding set by way of the whole list of names is set on one interface.
proof fn lemma_fib(
    m: StoreModel,
    node_id: Seq<char>,
    current: Seq<NodeInterface>,
    name: Seq<char>,
    enabled: bool,
    names: Seq<String>,
)
    requires
        m.interfaces_keyed(),
        model::lists(
            store::interface_views(current),
            m.interfaces,
            |i: InterfaceView| i.node_id == node_id,
        ),
        forall|n: Seq<char>| #[trigger]
            model::names_contain(names, n) == (if n == name {
                enabled
            } else {
                forwards(current, n)
            }),
    ensures
        forall|k: (Seq<char>, Seq<char>)| #[trigger]
            m.interfaces.contains_key(k) && k.0 == node_id ==> model::names_contain(
                names,
                m.interfaces[k].name,
            ) == (if m.interfaces[k].name == name {
                enabled
            } else {
                m.interfaces[k].fib_forwarding
            }),
{
    let views = store::interface_views(current);
    assert forall|k: (Seq<char>, Seq<char>)| #[trigger]
        m.interfaces.contains_key(k) && k.0 == node_id implies model::names_contain(
        names,
        m.interfaces[k].name,
    ) == (if m.interfaces[k].name == name {
        enabled
    } else {
        m.interfaces[k].fib_forwarding
    }) by {
        let i = lemma_only_interface(m, node_id, views, k);
        assert(views[i] == current[i]@);
        assert(current[i].name@ == k.1);
        if forwards(current, k.1) {
            let j = choose|j: int|
                0 <= j < current.len() && (#[trigger] current[j]).name@ == k.1
                    && current[j].fib_forwarding;
            assert(views[j].name == k.1);
        }
    }
}

/// The mode that is listed for a name, 0 if there is none.
spec fn mode_listed(current: Seq<NodeInterface>, name: Seq<char>) -> u32
    decreases current.len(),
{
    if current.len() == 0 {
        0
    } else if current.last().name@ == name && current.last().urpf_mode != 0 {
        current.last().urpf_mode
    } else {
        mode_listed(current.drop_last(), name)
    }
}

/// The modes of the interfaces once that of the named one is set; mode 0 is left
/// out.
fn urpf_modes(current: &Vec<NodeInterface>, name: &str, mode: u32) -> (v: Vec<(String, u32)>)
    ensures
        forall|n: Seq<char>| #[trigger]
            model::mode_of(v@, n) == (if n == name@ {
                mode
            } else {
                mode_listed(current@, n)
            }),
{
    let mut v: Vec<(String, u32)> = Vec::new();
    let mut i: usize = 0;
    assert(current@.take(0) =~= Seq::<NodeInterface>::empty());
    while i < current.len()
        invariant
            i <= current@.len(),
            forall|n: Seq<char>| #[trigger]
                model::mode_of(v@, n) == (if n == name@ {
                    0
                } else {
                    mode_listed(current@.take(i as int), n)
                }),
        decreases current@.len() - i,
    {
        let ghost before = v@;
        let ni = &current[i];
        let kept = ni.urpf_mode != 0 && !text::same(ni.name.as_str(), name);
        if kept {
            v.push((ni.name.clone(), ni.urpf_mode));
        }
        proof {
            assert(current@.take(i + 1).drop_last() =~= current@.take(i as int));
            assert(current@.take(i + 1).last() == current@[i as int]);
            if kept {
                assert(v@.drop_last() =~= before);
            }
            assert forall|n: Seq<char>| #[trigger] model::mode_of(v@, n) == (if n == name@ {
                0
            } else {
                mode_listed(current@.take(i + 1), n)
            }) by {
                assert(model::mode_of(before, n) == (if n == name@ {
                    0
                } else {
                    mode_listed(current@.take(i as int), n)
                }));
            }
        }
        i = i + 1;
    }
    assert(current@.take(i as int) =~= current@);
    if mode != 0 {
        let ghost before = v@;
        v.push((name.to_string(), mode));
        proof {
            assert(v@.drop_last() =~= before);
            assert forall|n: Seq<char>| #[trigger] model::mode_of(v@, n) == (if n == name@ {
                mode
            } else {
                mode_listed(current@, n)
            }) by {
                assert(model::mode_of(before, n) == (if n == name@ {
                    0
                } else {
                    mode_listed(current@, n)
                }));
            }
        }
    }
    v
}

/// Interfaces that share a name and a mode are listed with that mode.
proof fn lemma_mode_listed(current: Seq<NodeInterface>, name: Seq<char>, mode: u32, i: int)
    requires
        0 <= i < current.len(),
        current[i].name@ == name,
        forall|j: int|
            0 <= j < current.len() && (#[trigger] current[j]).name@ == name ==> current[j].urpf_mode
                == mode,
    ensures
        mode_listed(current, name) == mode,
    decreases current.len(),
{
    let front = current.drop_last();
    assert(current.last() == current[current.len() - 1]);
    if current.last().name@ == name {
        if mode == 0 {
            lemma_mode_nowhere(current, name);
        }
    } else {
        assert(front[i] == current[i]);
        assert forall|j: int|
            0 <= j < front.len() && (#[trigger] front[j]).name@ == name implies front[j].urpf_mode
            == mode by {
            assert(current[j].name@ == name);
        }
        lemma_mode_listed(front, name, mode, i);
    }
}

/// Where every interface of the name is off, none is listed.
proof fn lemma_mode_nowhere(current: Seq<NodeInterface>, name: Seq<char>)
    requires
        forall|j: int|
            0 <= j < current.len() && (#[trigger] current[j]).name@ == name ==> current[j].urpf_mode
                == 0,
    ensures
        mode_listed(current, name) == 0,
    decreases current.len(),
{
    if current.len() > 0 {
        let front = current.drop_last();
        assert(current.last() == current[current.len() - 1]);
        assert forall|j: int|
            0 <= j < front.len() && (#[trigger] front[j]).name@ == name implies front[j].urpf_mode
            == 0 by {
            assert(current[j].name@ == name);
        }
        lemma_mode_nowhere(front, name);
    }
}

/// A mode set by way of the whole list of modes is set on one interface.
proof fn lemma_urpf(
    m: StoreModel,
    node_id: Seq<char>,
    current: Seq<NodeInterface>,
    name: Seq<char>,
    mode: u32,
    modes: Seq<(String, u32)>,
)
    requires
        m.interfaces_keyed(),
        model::lists(
            store::interface_views(current),
            m.interfaces,
            |i: InterfaceView| i.node_id == node_id,
        ),
        forall|n: Seq<char>| #[trigger]
            model::mode_of(modes, n) == (if n == name {
                mode
            } else {
                mode_listed(current, n)
            }),
    ensures
        forall|k: (Seq<char>, Seq<char>)| #[trigger]
            m.interfaces.contains_key(k) && k.0 == node_id ==> model::mode_of(
                modes,
                m.interfaces[k].name,
            ) == (if m.interfaces[k].name == name {
                mode
            } else {
                m.interfaces[k].urpf_mode
            }),
{
    let views = store::interface_views(current);
    assert forall|k: (Seq<char>, Seq<char>)| #[trigger]
        m.interfaces.contains_key(k) && k.0 == node_id implies model::mode_of(
        modes,
        m.interfaces[k].name,
    ) == (if m.interfaces[k].name == name {
        mode
    } else {
        m.interfaces[k].urpf_mode
    }) by {
        let i = lemma_only_interface(m, node_id, views, k);
        assert(views[i] == current[i]@);
        assert forall|j: int|
            0 <= j < current.len() && (#[trigger] current[j]).name@ == k.1 implies current[j].urpf_mode
            == m.interfaces[k].urpf_mode by {
            assert(views[j].name == k.1);
        }
        lemma_mode_listed(current, k.1, m.interfaces[k].urpf_mode, i);
    }
}

/// Deletes rules one after the other.
fn flush<S: ControllerStore>(store: &mut S, rule_ids: &Vec<String>) -> (r: Result<(), StoreError>)
    ensures
        store::dependably(old(store).dependable(), final(store).dependable(), r),
        store::done(
            final(store).model(),
            r,
            StoreModel {
                rules: old(store).model().rules.remove_keys(text::texts(rule_ids@).to_set()),
                ..old(store).model()
            },
        ),
{
    let ghost before = store.model();
    let ghost ids = text::texts(rule_ids@);
    let mut i: usize = 0;
    assert(before.rules.remove_keys(ids.take(0).to_set()) =~= before.rules);
    assert(before == StoreModel { rules: before.rules, ..before });
    while i < rule_ids.len()
        invariant
            i <= rule_ids@.len(),
            ids == text::texts(rule_ids@),
            store.dependable() == old(store).dependable(),
            store.model() == (StoreModel {
                rules: before.rules.remove_keys(ids.take(i as int).to_set()),
                ..before
            }),
        decreases rule_ids@.len() - i,
    {
        match store.delete_rule(rule_ids[i].as_str()) {
            Ok(()) => {},
            Err(e) => {
                return Err(e);
            },
        }
        proof {
            let now = ids.take(i + 1);
            let was = ids.take(i as int);
            assert(now =~= was.push(ids[i as int]));
            assert(now.to_set() =~= was.to_set().insert(ids[i as int])) by {
                assert forall|x: Seq<char>| now.contains(x) == (was.contains(x) || x
                    == ids[i as int]) by {
                    if was.contains(x) {
                        let k = choose|k: int| 0 <= k < was.len() && was[k] == x;
                        assert(now[k] == x);
                    }
                    if x == ids[i as int] {
                        assert(now[i as int] == x);
                    }
                }
            }
            assert(before.rules.remove_keys(was.to_set()).remove(ids[i as int])
                =~= before.rules.remove_keys(now.to_set()));
        }
        i = i + 1;
    }
    assert(ids.take(i as int) =~= ids);
    Ok(())
}

} // verus!
