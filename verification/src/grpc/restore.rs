//! What is sent to an agent so that it has the rules on record.

use super::outbox::{OutboxView, SendError};
use crate::proto::{DeltaConfigPush, DeltaView, PayloadView, RuleAdd, RuleAddView};
use crate::reconciliation::{self, drift};
use crate::store::model::{self, StoreModel};
use crate::store::records::{InterfaceView, RuleView};
use crate::store::{self, ControllerStore, Rule, StoreError};
use crate::strmap::{self, StrMap};
use crate::text;
use crate::timestamp::Timestamp;
use crate::ttl_reaper;
use vstd::prelude::*;

verus! {

broadcast use vstd::string::group_string_axioms;

/// The push that replaces everything on a node.
pub open spec fn full_restore(
    rules: Seq<RuleAddView>,
    defaults: Map<Seq<char>, Seq<char>>,
    stop_behavior: Option<Seq<char>>,
) -> DeltaView {
    DeltaView {
        rules_to_add: rules,
        rule_ids_to_delete: Seq::empty(),
        is_full_restore: true,
        per_interface_default_actions: defaults,
        generation_id: Seq::empty(),
        confirm_deadline_ms: 0,
        stop_behavior: match stop_behavior {
            Some(s) => s,
            None => Seq::empty(),
        },
    }
}

/// Build a full-restore `DeltaConfigPush` from a list of rules.
///
/// Each rule is already a complete `RuleAdd`.  The returned push has
/// `is_full_restore = true`, meaning the agent should flush all existing rules
/// before applying.
///
/// `per_interface_default_actions`: map from "interface:direction" to "pass"/"drop".
pub fn build_full_restore_push(
    rules: Vec<RuleAdd>,
    per_interface_default_actions: StrMap<String>,
    stop_behavior: Option<String>,
) -> (d: DeltaConfigPush)
    ensures
        d@ == full_restore(
            crate::proto::rule_add_views(rules@),
            strmap::texts(per_interface_default_actions@),
            text::opt_text(stop_behavior),
        ),
{
    let d = DeltaConfigPush {
        rules_to_add: rules,
        rule_ids_to_delete: Vec::new(),
        is_full_restore: true,
        per_interface_default_actions,
        // Reconciliation-on-reconnect pushes bypass the pending-generation gate:
        // they reflect already-committed state, not new user intent.
        generation_id: String::new(),
        confirm_deadline_ms: 0,
        stop_behavior: match stop_behavior {
            Some(s) => s,
            None => String::new(),
        },
    };
    assert(d@.rule_ids_to_delete =~= Seq::<Seq<char>>::empty());
    d
}

/// Whether these are the default actions on record for a node.
pub open spec fn has_defaults(
    m: StoreModel,
    node_id: Seq<char>,
    defaults: Map<Seq<char>, Seq<char>>,
) -> bool {
    exists|interfaces: Seq<InterfaceView>|
        {
            &&& model::lists(interfaces, m.interfaces, |i: InterfaceView| i.node_id == node_id)
            &&& defaults == #[trigger] drift::db_defaults(interfaces)
        }
}

/// Whether these are the default actions on record for a node, or none, as where the
/// store fails.
pub open spec fn may_have_defaults(
    m: StoreModel,
    node_id: Seq<char>,
    defaults: Map<Seq<char>, Seq<char>>,
) -> bool {
    has_defaults(m, node_id, defaults) || defaults == Map::<Seq<char>, Seq<char>>::empty()
}

/// Build the per-interface default actions map from stored interface records.
/// Returns a map from "interface:direction" to "pass"/"drop"; nothing where the store
/// fails.
pub fn build_per_interface_defaults_map<S: ControllerStore>(node_id: &str, store: &S) -> (d: StrMap<
    String,
>)
    ensures
        store.dependable() ==> has_defaults(store.model(), node_id@, strmap::texts(d@)),
        may_have_defaults(store.model(), node_id@, strmap::texts(d@)),
{
    match store.list_node_interfaces(node_id) {
        Ok(v) => {
            let d = drift::defaults_map(v.as_slice());
            assert(strmap::texts(d@) == drift::db_defaults(store::interface_views(v@)));
            d
        },
        Err(_) => {
            let d: StrMap<String> = StrMap::new();
            assert(strmap::texts(d@) =~= Map::<Seq<char>, Seq<char>>::empty());
            d
        },
    }
}

/// The rules whose time to live has not run out.
pub open spec fn live(rules: Seq<RuleView>, now: Timestamp) -> Seq<RuleView> {
    rules.filter(|r: RuleView| !ttl_reaper::ttl_expired(r, now))
}

/// The rules whose time to live has not run out.
pub fn live_rules(all: Vec<Rule>, now: &Timestamp) -> (v: Vec<Rule>)
    ensures
        store::rule_views(v@) == live(store::rule_views(all@), *now),
{
    let ghost views = store::rule_views(all@);
    let ghost keep = |r: RuleView| !ttl_reaper::ttl_expired(r, *now);
    let mut rest = all;
    let mut v: Vec<Rule> = Vec::new();
    let ghost mut n: int = 0;
    assert(views.take(0) =~= Seq::<RuleView>::empty());
    assert(store::rule_views(v@) =~= views.take(0).filter(keep));
    while rest.len() > 0
        invariant
            0 <= n <= all@.len(),
            rest@ == all@.skip(n),
            views == store::rule_views(all@),
            keep == (|r: RuleView| !ttl_reaper::ttl_expired(r, *now)),
            store::rule_views(v@) == views.take(n).filter(keep),
        decreases rest@.len(),
    {
        let ghost before = store::rule_views(v@);
        let rule = rest.remove(0);
        assert(rule == all@[n]);
        assert(rest@ =~= all@.skip(n + 1));
        proof {
            assert(views.take(n + 1) =~= views.take(n).push(views[n]));
            views.take(n).lemma_filter_push(views[n], keep);
        }
        if !ttl_reaper::is_ttl_expired(&rule, now) {
            v.push(rule);
            assert(store::rule_views(v@) =~= before.push(rule@));
        }
        proof {
            n = n + 1;
        }
    }
    assert(views.take(n) =~= views);
    v
}

/// The push of the live ones among the listed rules, where there are any. Where the rules
/// could not be listed there is none.
pub fn rules_to_send(
    listed: Result<Vec<Rule>, StoreError>,
    defaults: StrMap<String>,
    stop_behavior: Option<String>,
    now: &Timestamp,
) -> (r: Option<DeltaConfigPush>)
    ensures
        match listed {
            Ok(all) => {
                let rules = live(store::rule_views(all@), *now);
                match r {
                    Some(push) => rules.len() > 0 && push@ == full_restore(
                        reconciliation::rule_adds(rules),
                        strmap::texts(defaults@),
                        text::opt_text(stop_behavior),
                    ),
                    None => rules.len() == 0,
                }
            },
            Err(_) => r is None,
        },
{
    match listed {
        Ok(all) => {
            let rules = live_rules(all, now);
            assert(store::rule_views(rules@).len() == rules@.len());
            if rules.len() > 0 {
                let adds = reconciliation::rules_to_rule_adds(rules.as_slice());
                Some(build_full_restore_push(adds, defaults, stop_behavior))
            } else {
                None
            }
        },
        Err(_) => None,
    }
}

/// Whether these are the rules on record for a node, in some order.
pub open spec fn lists_rules(all: Seq<RuleView>, m: StoreModel, node_id: Seq<char>) -> bool {
    model::lists(all, m.rules, |r: RuleView| r.node_id == node_id)
}

/// Whether a message was sent, or could not be.
pub open spec fn sends(
    out: OutboxView,
    p: PayloadView,
    out_after: OutboxView,
    r: Result<(), SendError>,
) -> bool {
    &&& out_after == out.with(p)
    &&& match r {
        Ok(()) => out.blocked() is None,
        Err(e) => out.blocked() == Some(e),
    }
}

} // verus!
