//! What becomes of a change that was made on the node itself.

use super::local_change;
use crate::proto::PersistedRule;
use crate::store::model::StoreModel;
use crate::store::records::{InterfaceView, RuleView};
use crate::text;
use crate::timestamp::Timestamp;
use vstd::prelude::*;

verus! {

/// A rule that a node reports is taken over under its number, for the node and its tenant.
/// One that the node has on record already keeps when it was created; a new one was created
/// now, by the agent.
pub proof fn reported_rule_is_taken_over(
    m: StoreModel,
    node_id: Seq<char>,
    tenant_id: Seq<char>,
    p: PersistedRule,
    now: Timestamp,
    r: RuleView,
)
    requires
        local_change::local_rule(m, node_id, tenant_id, p, now) == Some(r),
    ensures
        ({
            let known = m.rules.contains_key(r.id) && m.rules[r.id].node_id == node_id;
            &&& r.id == text::decimal(p.id as nat)
            &&& r.node_id == node_id
            &&& r.tenant_id == tenant_id
            &&& r.created_at == (if known {
                m.rules[r.id].created_at
            } else {
                now
            })
            &&& !known ==> r.created_by == Some("agent:local-change"@)
        }),
{
}

/// A default action that a node reports for one side of an interface is on record for this
/// side of this interface, and nothing else changes.
pub proof fn reported_default_is_taken_over(
    m: StoreModel,
    node_id: Seq<char>,
    iface: Seq<char>,
    side: Seq<char>,
    action: Seq<char>,
)
    requires
        !iface.contains(':'),
        m.interfaces.contains_key((node_id, iface)),
    ensures
        ({
            let after = local_change::default_set(m, node_id, iface + seq![':'] + side, action);
            let was = m.interfaces[(node_id, iface)];
            let is = after.interfaces[(node_id, iface)];
            &&& text::lowercase(side) == "ingress"@ ==> is == (InterfaceView {
                ingress_default_action: Some(action),
                ..was
            })
            &&& text::lowercase(side) == "egress"@ ==> is == (InterfaceView {
                egress_default_action: Some(action),
                ..was
            })
            &&& text::lowercase(side) != "ingress"@ && text::lowercase(side) != "egress"@
                ==> after == m
            &&& forall|k: (Seq<char>, Seq<char>)|
                k != (node_id, iface) ==> #[trigger] after.interfaces.contains_key(k)
                    == m.interfaces.contains_key(k) && after.interfaces[k] == m.interfaces[k]
            &&& after == (StoreModel { interfaces: after.interfaces, ..m })
        }),
{
    lemma_key(iface, side);
    reveal_strlit("ingress");
    reveal_strlit("egress");
    assert("ingress"@.len() != "egress"@.len());
}

/// A default action for an interface that the node does not have is passed over.
pub proof fn unknown_interface_is_passed_over(
    m: StoreModel,
    node_id: Seq<char>,
    iface: Seq<char>,
    side: Seq<char>,
    action: Seq<char>,
)
    requires
        !iface.contains(':'),
        !m.interfaces.contains_key((node_id, iface)),
    ensures
        local_change::default_set(m, node_id, iface + seq![':'] + side, action) == m,
{
    lemma_key(iface, side);
}

/// A key that was put together comes apart at its first colon.
proof fn lemma_key(iface: Seq<char>, side: Seq<char>)
    requires
        !iface.contains(':'),
    ensures
        local_change::split_key(iface + seq![':'] + side) == Some((iface, side)),
{
    let key = iface + seq![':'] + side;
    let n = iface.len() as int;
    assert(key[n] == ':');
    assert forall|j: int| 0 <= j < n implies key[j] != ':' by {
        assert(key[j] == iface[j]);
    }
    text::lemma_find_some(key, ':', n);
    assert(key.take(n) =~= iface);
    assert(key.skip(n + 1) =~= side);
}

} // verus!
