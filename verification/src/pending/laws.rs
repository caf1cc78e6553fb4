//! That an op does on the agent what it records.

use super::op::PendingOp;
use super::registry::{
    self, BeginError, ConfirmOutcome, GenerationView, PendingGenerationView, RegistryView,
};
use crate::grpc::messages;
use crate::json;
use crate::proto::{
    BpfDirection, BpfMode, ControllerMessage, ControllerPayload, DeltaConfigPush, StateSnapshot,
};
use crate::reconciliation::add_rule;
use crate::store::model::{self, StoreModel};
use crate::store::records::{InterfaceView, NodeView, RuleView};
use crate::strmap;
use crate::text;
use crate::timestamp::Timestamp;
use vstd::prelude::*;

verus! {

/// Whether a push awaits the confirmation of a generation within a time, and leaves what it
/// does not name as it is.
pub open spec fn awaits(d: DeltaConfigPush, generation_id: Seq<char>, deadline_ms: u32) -> bool {
    &&& d.generation_id@ == generation_id
    &&& d.confirm_deadline_ms == deadline_ms
    &&& !d.is_full_restore
}

/// Attaching and detaching: the message names the interface of the op and the side that
/// committing the op records, and the record of no other interface changes.
pub proof fn program_sits_where_it_is_recorded(
    op: PendingOp,
    generation_id: Seq<char>,
    deadline_ms: u32,
    msg: ControllerMessage,
    before: StoreModel,
    after: StoreModel,
)
    requires
        msg@ == Some(op.message(generation_id, deadline_ms)),
        op.commits(before, after, Ok(())),
        before.interfaces_keyed(),
    ensures
        match op {
            PendingOp::Attach { node_id, interface_name, direction } => {
                let key = (node_id@, interface_name@);
                let i = before.interfaces[key];
                let j = after.interfaces[key];
                &&& msg.payload matches Some(ControllerPayload::Attach(p))
                &&& p.interface_name@ == interface_name@
                &&& p.mode == BpfMode::Auto
                &&& p.generation_id@ == generation_id
                &&& p.confirm_deadline_ms == deadline_ms
                &&& direction@ == "ingress"@ <==> p.direction is Ingress
                &&& direction@ == "egress"@ <==> p.direction is Egress
                &&& before.interfaces.contains_key(key) && p.direction is Ingress
                    ==> after.interfaces.contains_key(key) && j == (InterfaceView {
                    xdp_attached: true,
                    ..i
                })
                &&& before.interfaces.contains_key(key) && p.direction is Egress
                    ==> after.interfaces.contains_key(key) && j == (InterfaceView {
                    tc_attached: true,
                    ..i
                })
                &&& unchanged_but_for(before, after, key)
            },
            PendingOp::Detach { node_id, interface_name, direction } => {
                let key = (node_id@, interface_name@);
                let i = before.interfaces[key];
                let j = after.interfaces[key];
                &&& msg.payload matches Some(ControllerPayload::Detach(p))
                &&& p.interface_name@ == interface_name@
                &&& p.generation_id@ == generation_id
                &&& p.confirm_deadline_ms == deadline_ms
                &&& direction@ == "ingress"@ <==> p.direction is Ingress
                &&& direction@ == "egress"@ <==> p.direction is Egress
                &&& before.interfaces.contains_key(key) && p.direction is Ingress
                    ==> after.interfaces.contains_key(key) && j == (InterfaceView {
                    xdp_attached: false,
                    ..i
                })
                &&& before.interfaces.contains_key(key) && p.direction is Egress
                    ==> after.interfaces.contains_key(key) && j == (InterfaceView {
                    tc_attached: false,
                    ..i
                })
                &&& unchanged_but_for(before, after, key)
            },
            _ => true,
        },
{
    reveal_strlit("ingress");
    reveal_strlit("egress");
    assert("ingress"@.len() != "egress"@.len());
}

/// Whether a store differs from what it was in one interface alone.
pub open spec fn unchanged_but_for(
    before: StoreModel,
    after: StoreModel,
    key: (Seq<char>, Seq<char>),
) -> bool {
    &&& after == (StoreModel { interfaces: after.interfaces, ..before })
    &&& forall|k: (Seq<char>, Seq<char>)| #[trigger]
        after.interfaces.contains_key(k) == before.interfaces.contains_key(k)
    &&& forall|k: (Seq<char>, Seq<char>)|
        before.interfaces.contains_key(k) && k != key ==> #[trigger] after.interfaces[k]
            == before.interfaces[k]
}

/// What is recorded when an attachment is committed is what is recorded when the agent then
/// shows the program of the message beside those it had.
pub proof fn attached_program_is_shown_alike(
    op: PendingOp,
    msg: ControllerMessage,
    generation_id: Seq<char>,
    deadline_ms: u32,
    before: StoreModel,
    after: StoreModel,
    snap: StateSnapshot,
    key: (Seq<char>, Seq<char>),
)
    requires
        op is Attach,
        op->Attach_direction@ == "ingress"@ || op->Attach_direction@ == "egress"@,
        msg@ == Some(op.message(generation_id, deadline_ms)),
        op.commits(before, after, Ok(())),
        before.interfaces_keyed(),
        before.interfaces.contains_key(key),
        key.0 == op.node(),
        msg.payload matches Some(ControllerPayload::Attach(p)) && {
            &&& forall|side: BpfDirection|
                side is Ingress || side is Egress ==> (#[trigger] messages::sits(
                    snap.attachments@,
                    key.1,
                    side,
                ) <==> (if side is Ingress {
                    before.interfaces[key].xdp_attached
                } else {
                    before.interfaces[key].tc_attached
                }) || (key.1 == p.interface_name@ && side == p.direction))
        },
    ensures
        ({
            let shown = messages::shown(before.interfaces[key], snap);
            &&& shown.xdp_attached == after.interfaces[key].xdp_attached
            &&& shown.tc_attached == after.interfaces[key].tc_attached
        }),
{
    program_sits_where_it_is_recorded(op, generation_id, deadline_ms, msg, before, after);
    let i = before.interfaces[key];
    assert(i.name == key.1);
    assert(messages::sits(snap.attachments@, i.name, BpfDirection::Ingress)
        || !messages::sits(snap.attachments@, i.name, BpfDirection::Ingress));
    assert(messages::sits(snap.attachments@, i.name, BpfDirection::Egress)
        || !messages::sits(snap.attachments@, i.name, BpfDirection::Egress));
}

/// Settings of an interface: the message carries the setting that committing the op
/// records, for the interface of the op and no other.
pub proof fn setting_is_recorded_as_sent(
    op: PendingOp,
    generation_id: Seq<char>,
    deadline_ms: u32,
    msg: ControllerMessage,
    before: StoreModel,
    after: StoreModel,
)
    requires
        msg@ == Some(op.message(generation_id, deadline_ms)),
        op.commits(before, after, Ok(())),
        before.interfaces_keyed(),
    ensures
        match op {
            PendingOp::SetFibForwarding { node_id, interface_name, enabled } => {
                let key = (node_id@, interface_name@);
                &&& msg.payload matches Some(ControllerPayload::SetFib(p))
                &&& p.interface_name@ == interface_name@
                &&& p.enabled == enabled
                &&& p.generation_id@ == generation_id
                &&& p.confirm_deadline_ms == deadline_ms
                &&& before.interfaces.contains_key(key) ==> after.interfaces[key] == (
                InterfaceView { fib_forwarding: enabled, ..before.interfaces[key] })
                &&& unchanged_but_for(before, after, key)
            },
            PendingOp::SetUrpf { node_id, interface_name, mode } => {
                let key = (node_id@, interface_name@);
                &&& msg.payload matches Some(ControllerPayload::SetUrpf(p))
                &&& p.interface_name@ == interface_name@
                &&& p.mode == mode
                &&& p.generation_id@ == generation_id
                &&& p.confirm_deadline_ms == deadline_ms
                &&& before.interfaces.contains_key(key) ==> after.interfaces[key] == (
                InterfaceView { urpf_mode: mode, ..before.interfaces[key] })
                &&& unchanged_but_for(before, after, key)
            },
            PendingOp::SetInspectInterface { node_id, interface_name, enabled } => {
                let key = (node_id@, interface_name@);
                &&& msg.payload matches Some(ControllerPayload::SetInspectInterface(p))
                &&& p.interface_name@ == interface_name@
                &&& p.enabled == enabled
                &&& p.generation_id@ == generation_id
                &&& p.confirm_deadline_ms == deadline_ms
                &&& before.interfaces.contains_key(key) ==> after.interfaces[key] == (
                InterfaceView { inspect_enabled: enabled, ..before.interfaces[key] })
                &&& unchanged_but_for(before, after, key)
            },
            PendingOp::SetDefaultAction { node_id, interface_name, direction, action } => {
                let key = (node_id@, interface_name@);
                let i = before.interfaces[key];
                &&& before.interfaces.contains_key(key)
                &&& msg.payload matches Some(ControllerPayload::Config(d))
                &&& awaits(d, generation_id, deadline_ms)
                &&& d.rules_to_add@.len() == 0 && d.rule_ids_to_delete@.len() == 0
                &&& d.stop_behavior@.len() == 0
                &&& after.interfaces[key] == (InterfaceView {
                    ingress_default_action: Some(action@),
                    ..i
                }) && strmap::texts(d.per_interface_default_actions@) == Map::<
                    Seq<char>,
                    Seq<char>,
                >::empty().insert(interface_name@ + ":ingress"@, action@) || after.interfaces[key]
                    == (InterfaceView { egress_default_action: Some(action@), ..i })
                    && strmap::texts(d.per_interface_default_actions@) == Map::<
                    Seq<char>,
                    Seq<char>,
                >::empty().insert(interface_name@ + ":egress"@, action@)
                &&& direction@ == "ingress"@ ==> after.interfaces[key].ingress_default_action
                    == Some(action@) && strmap::texts(
                    d.per_interface_default_actions@,
                ).contains_key(interface_name@ + ":ingress"@)
                &&& direction@ == "egress"@ ==> after.interfaces[key].egress_default_action == Some(
                    action@,
                ) && strmap::texts(d.per_interface_default_actions@).contains_key(
                    interface_name@ + ":egress"@,
                )
                &&& unchanged_but_for(before, after, key)
            },
            _ => true,
        },
{
    reveal_strlit("ingress");
    reveal_strlit("egress");
    reveal_strlit(":ingress");
    reveal_strlit(":egress");
    reveal_strlit(":");
    assert("ingress"@.len() != "egress"@.len());
    if let PendingOp::SetDefaultAction { node_id, interface_name, direction, action } = op {
        let name = interface_name@;
        assert(":"@ + "ingress"@ =~= ":ingress"@);
        assert(":"@ + "egress"@ =~= ":egress"@);
        assert(name + ":"@ + "ingress"@ =~= name + ":ingress"@);
        assert(name + ":"@ + "egress"@ =~= name + ":egress"@);
        let d = msg.payload->0->Config_0;
        assert(d@.rules_to_add.len() == d.rules_to_add@.len());
        assert(d@.rule_ids_to_delete.len() == d.rule_ids_to_delete@.len());
    }
}

/// Settings of a node: the message carries the mode or the stop behavior that committing
/// the op records, and nothing else changes.
pub proof fn node_setting_is_recorded_as_sent(
    op: PendingOp,
    generation_id: Seq<char>,
    deadline_ms: u32,
    msg: ControllerMessage,
    before: StoreModel,
    after: StoreModel,
)
    requires
        msg@ == Some(op.message(generation_id, deadline_ms)),
        op.commits(before, after, Ok(())),
    ensures
        match op {
            PendingOp::SetInspectMode { node_id, mode } => {
                &&& msg.payload matches Some(ControllerPayload::SetInspectMode(p))
                &&& p.mode == mode
                &&& p.generation_id@ == generation_id
                &&& p.confirm_deadline_ms == deadline_ms
                &&& before.nodes.contains_key(node_id@) ==> after == (StoreModel {
                    nodes: before.nodes.insert(
                        node_id@,
                        NodeView {
                            inspect_mode: after.nodes[node_id@].inspect_mode,
                            ..before.nodes[node_id@]
                        },
                    ),
                    ..before
                })
                &&& before.nodes.contains_key(node_id@) ==> (after.nodes[node_id@].inspect_mode
                    == "ips"@ <==> p.mode == 1) && (after.nodes[node_id@].inspect_mode == "ids"@
                    <==> p.mode == 2) && (after.nodes[node_id@].inspect_mode == "disabled"@ <==> !(
                p.mode == 1 || p.mode == 2))
            },
            PendingOp::SetStopBehavior { node_id, behavior } => {
                &&& msg.payload matches Some(ControllerPayload::Config(d))
                &&& awaits(d, generation_id, deadline_ms)
                &&& d.rules_to_add@.len() == 0 && d.rule_ids_to_delete@.len() == 0
                &&& strmap::texts(d.per_interface_default_actions@).dom() =~= Set::<
                    Seq<char>,
                >::empty()
                &&& d.stop_behavior@ == behavior@
                &&& before.nodes.contains_key(node_id@)
                &&& after == (StoreModel {
                    nodes: before.nodes.insert(
                        node_id@,
                        NodeView {
                            stop_behavior: if d.stop_behavior@.len() == 0 {
                                None
                            } else {
                                Some(d.stop_behavior@)
                            },
                            ..before.nodes[node_id@]
                        },
                    ),
                    ..before
                })
            },
            PendingOp::PushSuricataRulesets { node_id, push } => {
                &&& msg.payload matches Some(ControllerPayload::SuricataRulesetPush(p))
                &&& p@.files == push@.files
                &&& p@.desired_filenames == push@.desired_filenames
                &&& p.generation_id@ == generation_id
                &&& p.confirm_deadline_ms == deadline_ms
                &&& after == before
            },
            _ => true,
        },
{
    reveal_strlit("ips");
    reveal_strlit("ids");
    reveal_strlit("disabled");
    assert("ips"@[1] == 'p' && "ids"@[1] == 'd');
    assert("disabled"@.len() == 8 && "ips"@.len() == 3 && "ids"@.len() == 3);
    if let PendingOp::SetStopBehavior { node_id, behavior } = op {
        let d = msg.payload->0->Config_0;
        assert(d@.rules_to_add.len() == d.rules_to_add@.len());
        assert(d@.rule_ids_to_delete.len() == d.rule_ids_to_delete@.len());
    }
}

/// Rules: the message adds the rule that committing the op records, or deletes just the
/// rules whose records committing the op removes; other rules stay.
pub proof fn rules_are_recorded_as_sent(
    op: PendingOp,
    generation_id: Seq<char>,
    deadline_ms: u32,
    msg: ControllerMessage,
    before: StoreModel,
    after: StoreModel,
)
    requires
        msg@ == Some(op.message(generation_id, deadline_ms)),
        op.commits(before, after, Ok(())),
    ensures
        match op {
            PendingOp::CreateRule(rule) => {
                &&& msg.payload matches Some(ControllerPayload::Config(d))
                &&& awaits(d, generation_id, deadline_ms)
                &&& d.rule_ids_to_delete@.len() == 0
                &&& d.rules_to_add@.len() == 1
                &&& d.rules_to_add@[0].rule_id@ == rule.id@
                &&& d.rules_to_add@[0].interface_name@ == rule.interface_name@
                &&& d.rules_to_add@[0].direction@ == text::uppercase(rule.direction@)
                &&& d.rules_to_add@[0].params_json@ == vstd::utf8::encode_utf8(
                    json::printed_json(add_rule::add_rule_json(rule@)),
                )
                &&& after.rules.contains_key(rule.id@)
                &&& after.rules[rule.id@] == (RuleView {
                    created_at: after.rules[rule.id@].created_at,
                    created_by: after.rules[rule.id@].created_by,
                    ..rule@
                })
                &&& !before.rules.contains_key(rule.id@) ==> after.rules[rule.id@] == rule@
                &&& after == (StoreModel {
                    rules: before.rules.insert(rule.id@, after.rules[rule.id@]),
                    ..before
                })
            },
            PendingOp::DeleteRule { node_id, rule_id } => {
                &&& msg.payload matches Some(ControllerPayload::Config(d))
                &&& awaits(d, generation_id, deadline_ms)
                &&& d.rules_to_add@.len() == 0
                &&& d.rule_ids_to_delete@.len() == 1 && d.rule_ids_to_delete@[0]@ == rule_id@
                &&& after == (StoreModel { rules: after.rules, ..before })
                &&& forall|k: Seq<char>| #[trigger]
                    after.rules.contains_key(k) <==> before.rules.contains_key(k) && k != rule_id@
                &&& forall|k: Seq<char>|
                    after.rules.contains_key(k) ==> #[trigger] after.rules[k] == before.rules[k]
            },
            PendingOp::FlushRules { rule_ids, .. } => {
                &&& msg.payload matches Some(ControllerPayload::Config(d))
                &&& awaits(d, generation_id, deadline_ms)
                &&& d.rules_to_add@.len() == 0
                &&& text::texts(d.rule_ids_to_delete@) == text::texts(rule_ids@)
                &&& after == (StoreModel { rules: after.rules, ..before })
                &&& forall|k: Seq<char>| #[trigger]
                    after.rules.contains_key(k) <==> before.rules.contains_key(k) && !text::texts(
                        d.rule_ids_to_delete@,
                    ).contains(k)
                &&& forall|k: Seq<char>|
                    after.rules.contains_key(k) ==> #[trigger] after.rules[k] == before.rules[k]
            },
            _ => true,
        },
{
    let d = msg.payload->0->Config_0;
    match op {
        PendingOp::CreateRule(rule) => {
            assert(d@.rules_to_add.len() == d.rules_to_add@.len());
            assert(d@.rule_ids_to_delete.len() == d.rule_ids_to_delete@.len());
            assert(d@.rules_to_add[0] == d.rules_to_add@[0]@);
            assert(after.rules =~= before.rules.insert(rule.id@, after.rules[rule.id@]));
        },
        PendingOp::DeleteRule { node_id, rule_id } => {
            assert(d@.rules_to_add.len() == d.rules_to_add@.len());
            assert(d@.rule_ids_to_delete.len() == d.rule_ids_to_delete@.len());
            assert(d@.rule_ids_to_delete[0] == d.rule_ids_to_delete@[0]@);
        },
        PendingOp::FlushRules { .. } => {
            assert(d@.rules_to_add.len() == d.rules_to_add@.len());
        },
        _ => {},
    }
}

/// A generation goes with the first look at the clock that finds its deadline reached, and
/// no sooner; until then it stays as it was, under its node and under its id.
pub proof fn reaping_takes_just_the_expired(v: RegistryView, now: u64)
    requires
        v.consistent(),
    ensures
        forall|n: Seq<char>| #[trigger]
            v.reaped(now).by_node.contains_key(n) <==> v.by_node.contains_key(n) && now
                < v.by_node[n].deadline,
        forall|n: Seq<char>| #[trigger]
            v.reaped(now).by_node.contains_key(n) ==> v.reaped(now).by_node[n] == v.by_node[n],
        forall|g: Seq<char>| #[trigger]
            v.reaped(now).by_gen.contains_key(g) <==> v.by_gen.contains_key(g) && now
                < v.by_node[v.by_gen[g]].deadline,
        forall|g: Seq<char>| #[trigger]
            v.reaped(now).by_gen.contains_key(g) ==> v.reaped(now).by_gen[g] == v.by_gen[g],
{
    assert forall|g: Seq<char>| #[trigger]
        v.reaped(now).by_gen.contains_key(g) <==> v.by_gen.contains_key(g) && now
            < v.by_node[v.by_gen[g]].deadline by {
        if v.by_gen.contains_key(g) {
            let n = v.by_gen[g];
            assert(v.by_node.contains_key(n));
            if v.by_node[n].deadline <= now {
                assert(v.expired_id(g, now));
            }
            if v.expired_id(g, now) {
                let other = choose|o: Seq<char>| #[trigger]
                    v.by_node.contains_key(o) && v.by_node[o].deadline <= now
                        && v.by_node[o].generation_id == g;
                assert(other == n);
            }
        }
    }
}

/// An op that is begun is in flight for its node, under the tenant of the node, from then
/// on for the time that was allowed: it is still there just before its deadline, and no
/// longer at it. Whatever else is in flight stays so.
pub proof fn begun_op_waits_for_its_deadline(
    op: PendingOp,
    tenant: Option<Seq<char>>,
    deadline_ms: u32,
    issued_at: Timestamp,
    now_ms: u64,
    before: RegistryView,
    after: RegistryView,
    begun: super::Begun,
    at: u64,
)
    requires
        super::op_begun(
            op,
            tenant,
            deadline_ms,
            issued_at,
            now_ms,
            before,
            after,
            Ok::<super::Begun, BeginError>(begun),
        ),
        tenant is Some,
        now_ms + deadline_ms <= u64::MAX,
    ensures
        begun matches super::Begun::Sent { node_id, generation_id, message } && {
            let g = after.by_node[op.node()];
            &&& node_id@ == op.node()
            &&& g.op == op
            &&& g.tenant_slug == tenant->0
            &&& g.issued_at == issued_at
            &&& g.generation_id == generation_id@
            &&& after.by_gen[generation_id@] == op.node()
            &&& at < now_ms + deadline_ms <==> after.reaped(at).by_node.contains_key(op.node())
        },
        !before.by_node.contains_key(op.node()),
        forall|n: Seq<char>|
            n != op.node() ==> (#[trigger] after.by_node.contains_key(n)
                <==> before.by_node.contains_key(n)) && after.by_node[n] == before.by_node[n],
{
}

/// Every generation that is reaped is told to its waiter as abandoned, and noted as such in
/// the audit log under its node; nothing else is.
pub proof fn reaped_is_told_as_abandoned(
    v: RegistryView,
    gens: Seq<GenerationView>,
    now: u64,
    n: Seq<char>,
)
    requires
        v.consistent(),
        registry::lists_expired(v, gens, now),
    ensures
        v.by_node.contains_key(n) && v.by_node[n].deadline <= now ==> exists|i: int|
            {
                &&& 0 <= i < gens.len()
                &&& (#[trigger] super::abandoned_resolutions(gens)[i]).generation_id
                    == v.by_node[n].generation_id
                &&& super::abandoned_resolutions(gens)[i].outcome is Abandoned
                &&& super::abandoned_entries(gens)[i].node_id == Some(n)
                &&& super::abandoned_entries(gens)[i].action == "config_abandoned"@
            },
        super::abandoned_resolutions(gens).len() == gens.len(),
        super::abandoned_entries(gens).len() == gens.len(),
        forall|i: int|
            0 <= i < gens.len() ==> (#[trigger] gens[i]).deadline <= now && v.by_node.contains_key(
                gens[i].op.node(),
            ) && v.by_node[gens[i].op.node()] == gens[i],
{
    reveal_strlit("config_");
    reveal_strlit("abandoned");
    reveal_strlit("config_abandoned");
    assert("config_"@ + "abandoned"@ =~= "config_abandoned"@);
    let expired = |g: GenerationView| g.deadline <= now;
    let ks = choose|ks: Seq<Seq<char>>| model::lists_keys(gens, v.by_node, expired, ks);
    assert(model::lists_keys(gens, v.by_node, expired, ks));
    assert forall|i: int| 0 <= i < gens.len() implies (#[trigger] gens[i]).deadline <= now
        && v.by_node.contains_key(gens[i].op.node()) && v.by_node[gens[i].op.node()]
        == gens[i] by {
        assert(v.by_node.contains_key(ks[i]));
        assert(expired(gens[i]));
    }
    if v.by_node.contains_key(n) && v.by_node[n].deadline <= now {
        assert(expired(v.by_node[n]));
        assert(ks.contains(n));
        let i = choose|i: int| 0 <= i < ks.len() && ks[i] == n;
        assert(v.by_node.contains_key(ks[i]));
        assert(gens[i] == v.by_node[n]);
        assert(super::abandoned_resolutions(gens)[i].generation_id == v.by_node[n].generation_id);
    }
}

/// Whoever looks at a generation in flight sees its id, since when it is in flight, the
/// node and the tenant; of an op on one interface the interface, and of one on one side of
/// it the side, too.
pub proof fn reader_sees_the_op(g: GenerationView, v: PendingGenerationView)
    requires
        v@ == registry::summary(g),
    ensures
        v.generation_id@ == g.generation_id,
        v.issued_at == g.issued_at,
        v.tenant_slug@ == g.tenant_slug,
        v.node_id@ == g.op.node(),
        match g.op {
            PendingOp::Attach { node_id, interface_name, direction, .. } => v.node_id@ == node_id@
                && v.op_kind@ == "attach"@ && sees(v, Some(interface_name), Some(direction)),
            PendingOp::Detach { node_id, interface_name, direction, .. } => v.node_id@ == node_id@
                && v.op_kind@ == "detach"@ && sees(v, Some(interface_name), Some(direction)),
            PendingOp::SetDefaultAction { node_id, interface_name, direction, .. } => v.node_id@
                == node_id@ && v.op_kind@ == "set_default_action"@ && sees(
                v,
                Some(interface_name),
                Some(direction),
            ),
            PendingOp::FlushRules { node_id, interface_name, direction, .. } => v.node_id@
                == node_id@ && v.op_kind@ == "flush_rules"@ && sees(
                v,
                Some(interface_name),
                Some(direction),
            ),
            PendingOp::CreateRule(r) => v.node_id@ == r.node_id@ && v.op_kind@ == "create_rule"@
                && sees(v, Some(r.interface_name), Some(r.direction)),
            PendingOp::SetFibForwarding { node_id, interface_name, .. } => v.node_id@ == node_id@
                && v.op_kind@ == "set_fib_forwarding"@ && sees(v, Some(interface_name), None),
            PendingOp::SetUrpf { node_id, interface_name, .. } => v.node_id@ == node_id@
                && v.op_kind@ == "set_urpf"@ && sees(v, Some(interface_name), None),
            PendingOp::SetInspectInterface { node_id, interface_name, .. } => v.node_id@
                == node_id@ && v.op_kind@ == "set_inspect_interface"@ && sees(
                v,
                Some(interface_name),
                None,
            ),
            PendingOp::DeleteRule { node_id, .. } => v.node_id@ == node_id@ && v.op_kind@
                == "delete_rule"@ && sees(v, None, None),
            PendingOp::SetInspectMode { node_id, .. } => v.node_id@ == node_id@ && v.op_kind@
                == "set_inspect_mode"@ && sees(v, None, None),
            PendingOp::PushSuricataRulesets { node_id, .. } => v.node_id@ == node_id@ && v.op_kind@
                == "push_suricata_rulesets"@ && sees(v, None, None),
            PendingOp::SetStopBehavior { node_id, .. } => v.node_id@ == node_id@ && v.op_kind@
                == "set_stop_behavior"@ && sees(v, None, None),
        },
{
}

/// Whether a reader sees this interface and this side.
pub open spec fn sees(
    v: PendingGenerationView,
    interface_name: Option<String>,
    direction: Option<String>,
) -> bool {
    &&& v.interface_name is Some <==> interface_name is Some
    &&& interface_name is Some ==> v.interface_name->0@ == interface_name->0@
    &&& v.direction is Some <==> direction is Some
    &&& direction is Some ==> v.direction->0@ == direction->0@
}

/// The word under which the end of an op is noted says how it ended.
pub proof fn end_is_noted_by_its_word(o: ConfirmOutcome)
    ensures
        o is Applied ==> registry::outcome_word(o@) == "applied"@,
        o is CommitFailed ==> registry::outcome_word(o@) == "commit_failed"@,
        o is Rejected ==> registry::outcome_word(o@) == "rejected"@,
        o is Reverted ==> registry::outcome_word(o@) == "reverted"@,
        o is Abandoned ==> registry::outcome_word(o@) == "abandoned"@,
        super::on_record(o@) <==> o is Applied || o is CommitFailed,
{
}

/// Nobody sees of a node of another tenant whether anything is in flight; within a tenant
/// it is seen as it is.
pub proof fn tenants_see_their_own(
    registry: registry::PendingRegistry,
    node_id: &str,
    tenant: &str,
    r: Option<PendingGenerationView>,
)
    requires
        call_ensures(registry::PendingRegistry::get_for_node, (&registry, node_id, tenant), r),
    ensures
        r is Some <==> registry@.by_node.contains_key(node_id@)
            && registry@.by_node[node_id@].tenant_slug == tenant@,
        r matches Some(v) ==> v.tenant_slug@ == tenant@ && v.generation_id@
            == registry@.by_node[node_id@].generation_id,
{
}

/// An op is noted under the tenant of its node; one on a node without a record is refused
/// and never in flight. Only where the store fails is it noted under the default tenant.
pub proof fn op_is_noted_under_the_tenant_of_its_node(
    op: PendingOp,
    m: StoreModel,
    tenant: Option<Seq<char>>,
    deadline_ms: u32,
    issued_at: Timestamp,
    now_ms: u64,
    before: RegistryView,
    after: RegistryView,
    r: Result<super::Begun, BeginError>,
)
    requires
        super::tenant_fits(m, op.node(), tenant, true),
        super::op_begun(op, tenant, deadline_ms, issued_at, now_ms, before, after, r),
    ensures
        !m.nodes.contains_key(op.node()) ==> after == before && (r matches Ok(
            super::Begun::Refused(o),
        ) && o is Rejected),
        m.nodes.contains_key(op.node()) && before.by_node.contains_key(op.node()) ==> after
            == before && r is Err,
        m.nodes.contains_key(op.node()) && !before.by_node.contains_key(op.node()) ==> (r matches Ok(
            super::Begun::Sent { .. },
        )) && after.by_node.contains_key(op.node()) && after.by_node[op.node()].tenant_slug
            == m.nodes[op.node()].tenant_id,
{
}

} // verus!
