//! Taking over a change that was made on a node itself.

use super::add_rule::{self, RuleReading};
use crate::json;
use crate::proto::{PersistedRule, StateSnapshot};
use crate::store::model::{self, DiffCounts, StoreModel};
use crate::store::records::{self, NodeView, RuleView};
use crate::store::{self, ControllerStore, DiffSummary, Rule, StoreError};
use crate::text;
use crate::timestamp::Timestamp;
use vstd::prelude::*;

verus! {

broadcast use vstd::string::group_string_axioms;

/// Outcome of [`apply_local_change`]: the rule-replace [`DiffSummary`] plus
/// counts of side-channel updates we applied (default actions overwritten on
/// the DB side, stop-behavior overwritten, snapshot rules we had to skip
/// because the JSON was unparseable).
#[derive(Clone, Copy, Debug, PartialEq, Eq, Structural)]
pub struct LocalChangeOutcome {
    pub rules: DiffSummary,
    pub default_actions_updated: usize,
    pub stop_behavior_updated: bool,
    pub skipped_rules: usize,
}

/// Errors produced by [`apply_local_change`].
#[derive(Debug)]
pub enum ApplyLocalChangeError {
    NodeNotFound(String),
    Store(StoreError),
}

impl ApplyLocalChangeError {
    /// The text of the error.
    pub open spec fn message(self) -> Seq<char> {
        match self {
            ApplyLocalChangeError::NodeNotFound(id) => "node "@ + id@ + " not found in store"@,
            ApplyLocalChangeError::Store(e) => e.message(),
        }
    }

    /// The text of the error.
    pub fn to_text(&self) -> (s: String)
        ensures
            s@ == self.message(),
    {
        match self {
            ApplyLocalChangeError::NodeNotFound(id) => text::concat3(
                "node ",
                id.as_str(),
                " not found in store",
            ),
            ApplyLocalChangeError::Store(e) => e.to_text(),
        }
    }
}

/// Who is noted as the creator of a rule that came from an agent.
pub open spec fn agent_creator() -> Seq<char> {
    "agent:local-change"@
}

/// Whether the node has a rule of that id on record.
pub open spec fn on_record(m: StoreModel, node_id: Seq<char>, id: Seq<char>) -> bool {
    m.rules.contains_key(id) && m.rules[id].node_id == node_id
}

/// The rule that a reported rule becomes, if its payload can be read: its number is
/// its id, and a rule that is on record keeps its time of creation.
pub open spec fn local_rule(
    m: StoreModel,
    node_id: Seq<char>,
    tenant_id: Seq<char>,
    p: PersistedRule,
    now: Timestamp,
) -> Option<RuleView> {
    let id = text::decimal(p.id as nat);
    let known = on_record(m, node_id, id);
    let created_at = if known {
        m.rules[id].created_at
    } else {
        now
    };
    match add_rule::read_rule(
        json::parsed_json(p.params_json@),
        node_id,
        tenant_id,
        created_at,
    ) {
        RuleReading::Rule(r) => Some(
            RuleView {
                id,
                created_by: if known {
                    r.created_by
                } else {
                    Some(agent_creator())
                },
                ..r
            },
        ),
        _ => None,
    }
}

/// The rules that the reported rules become; those that cannot be read are left
/// out.
pub open spec fn local_rules(
    m: StoreModel,
    node_id: Seq<char>,
    tenant_id: Seq<char>,
    reported: Seq<PersistedRule>,
    now: Timestamp,
) -> Seq<RuleView>
    decreases reported.len(),
{
    if reported.len() == 0 {
        Seq::empty()
    } else {
        let earlier = local_rules(m, node_id, tenant_id, reported.drop_last(), now);
        match local_rule(m, node_id, tenant_id, reported.last(), now) {
            Some(r) => earlier.push(r),
            None => earlier,
        }
    }
}

/// The interface and direction that a key names.
pub open spec fn split_key(key: Seq<char>) -> Option<(Seq<char>, Seq<char>)> {
    match text::find(key, ':') {
        Some(i) => Some((key.take(i), key.skip(i + 1))),
        None => None,
    }
}

/// Whether a reported default action can be set: its key names an interface of the
/// node and a direction.
pub open spec fn settable(m: StoreModel, node_id: Seq<char>, key: Seq<char>) -> bool {
    match split_key(key) {
        Some((iface, direction)) => m.interfaces.contains_key((node_id, iface)) && (
        text::lowercase(direction) == "ingress"@ || text::lowercase(direction) == "egress"@),
        None => false,
    }
}

/// The store with a reported default action set, where it can be.
pub open spec fn default_set(
    m: StoreModel,
    node_id: Seq<char>,
    key: Seq<char>,
    action: Seq<char>,
) -> StoreModel {
    if settable(m, node_id, key) {
        let (iface, direction) = split_key(key)->0;
        let k = (node_id, iface);
        StoreModel {
            interfaces: m.interfaces.insert(
                k,
                store::with_default_action(m.interfaces[k], direction, action)->0,
            ),
            ..m
        }
    } else {
        m
    }
}

/// The store with reported default actions set one after the other.
pub open spec fn defaults_set(
    m: StoreModel,
    node_id: Seq<char>,
    entries: Seq<(String, String)>,
) -> StoreModel
    decreases entries.len(),
{
    if entries.len() == 0 {
        m
    } else {
        default_set(
            defaults_set(m, node_id, entries.drop_last()),
            node_id,
            entries.last().0@,
            entries.last().1@,
        )
    }
}

/// How many of the reported default actions could be set.
pub open spec fn defaults_settable(
    m: StoreModel,
    node_id: Seq<char>,
    entries: Seq<(String, String)>,
) -> nat {
    entries.filter(|e: (String, String)| settable(m, node_id, e.0@)).len()
}

/// Whether a reported stop behavior replaces the one on record.
pub open spec fn stop_behavior_differs(n: NodeView, reported: Seq<char>) -> bool {
    reported.len() > 0 && n.stop_behavior != Some(reported)
}

/// The store after the state of a node was taken over.
pub open spec fn taken_over(
    m: StoreModel,
    node_id: Seq<char>,
    snapshot: StateSnapshot,
    now: Timestamp,
) -> StoreModel {
    let rules = local_rules(m, node_id, m.nodes[node_id].tenant_id, snapshot.rules@, now);
    let a = StoreModel { rules: model::replacement(m.rules, node_id, rules).rules, ..m };
    let b = defaults_set(a, node_id, snapshot.per_interface_default_actions.entries());
    if stop_behavior_differs(m.nodes[node_id], snapshot.stop_behavior@) {
        b.node_changed(
            node_id,
            NodeView { stop_behavior: Some(snapshot.stop_behavior@), ..m.nodes[node_id] },
        )
    } else {
        b
    }
}

/// Whether the outcome tells what became of the reported rules.
pub open spec fn tells_rules(
    o: LocalChangeOutcome,
    m: StoreModel,
    node_id: Seq<char>,
    snapshot: StateSnapshot,
    now: Timestamp,
) -> bool {
    let rules = local_rules(m, node_id, m.nodes[node_id].tenant_id, snapshot.rules@, now);
    &&& o.rules@ == model::replacement(m.rules, node_id, rules).counts
    &&& o.skipped_rules == snapshot.rules@.len() - rules.len()
}

/// Whether the outcome tells what taking over the state of a node did.
pub open spec fn tells_taken_over(
    o: LocalChangeOutcome,
    m: StoreModel,
    node_id: Seq<char>,
    snapshot: StateSnapshot,
    now: Timestamp,
) -> bool {
    &&& tells_rules(o, m, node_id, snapshot, now)
    &&& o.default_actions_updated == defaults_settable(
        m,
        node_id,
        snapshot.per_interface_default_actions.entries(),
    )
    &&& o.stop_behavior_updated == stop_behavior_differs(
        m.nodes[node_id],
        snapshot.stop_behavior@,
    )
}

/// When the rule of that id was created, if it is among the listed ones.
fn creation_of(existing: &Vec<Rule>, id: &str) -> (r: Option<Timestamp>)
    ensures
        match r {
            Some(t) => exists|i: int|
                0 <= i < existing@.len() && (#[trigger] existing@[i]).id@ == id@ && t
                    == existing@[i].created_at,
            None => forall|i: int| 0 <= i < existing@.len() ==> (#[trigger] existing@[i]).id@ != id@,
        },
{
    let mut i: usize = existing.len();
    while i > 0
        invariant
            i <= existing@.len(),
            forall|j: int| i <= j < existing@.len() ==> (#[trigger] existing@[j]).id@ != id@,
        decreases i,
    {
        i = i - 1;
        if text::same(existing[i].id.as_str(), id) {
            return Some(existing[i].created_at);
        }
    }
    None
}

/// A listed rule is the one on record, where rules are kept under their ids.
proof fn lemma_listed_rule(m: StoreModel, node_id: Seq<char>, existing: Seq<RuleView>)
    requires
        m.rules_keyed(),
        model::lists(existing, m.rules, |r: RuleView| r.node_id == node_id),
    ensures
        forall|i: int|
            0 <= i < existing.len() ==> on_record(m, node_id, (#[trigger] existing[i]).id)
                && m.rules[existing[i].id] == existing[i],
        forall|id: Seq<char>| #[trigger]
            on_record(m, node_id, id) ==> exists|i: int|
                0 <= i < existing.len() && (#[trigger] existing[i]).id == id,
{
    let keep = |r: RuleView| r.node_id == node_id;
    let ks = choose|ks: Seq<Seq<char>>| model::lists_keys(existing, m.rules, keep, ks);
    assert(model::lists_keys(existing, m.rules, keep, ks));
    assert forall|i: int| 0 <= i < existing.len() implies on_record(
        m,
        node_id,
        (#[trigger] existing[i]).id,
    ) && m.rules[existing[i].id] == existing[i] by {
        assert(m.rules.contains_key(ks[i]));
        assert(m.rules[ks[i]].id == ks[i]);
        assert(keep(existing[i]));
    }
    assert forall|id: Seq<char>| #[trigger] on_record(m, node_id, id) implies exists|i: int|
        0 <= i < existing.len() && (#[trigger] existing[i]).id == id by {
        assert(keep(m.rules[id]));
        assert(ks.contains(id));
        let i = choose|i: int| 0 <= i < ks.len() && ks[i] == id;
        assert(m.rules.contains_key(ks[i]));
        assert(existing[i].id == id);
    }
}

/// The rules that the reported rules become, given the rules on record.
fn read_local_rules(
    node_id: &str,
    tenant_id: &str,
    reported: &Vec<PersistedRule>,
    existing: &Vec<Rule>,
    now: Timestamp,
    Ghost(m): Ghost<StoreModel>,
) -> (v: Vec<Rule>)
    requires
        m.rules_keyed() ==> model::lists(
            store::rule_views(existing@),
            m.rules,
            |r: RuleView| r.node_id == node_id@,
        ),
    ensures
        m.rules_keyed() ==> store::rule_views(v@) == local_rules(
            m,
            node_id@,
            tenant_id@,
            reported@,
            now,
        ),
        v.len() <= reported.len(),
        forall|i: int| 0 <= i < v@.len() ==> (#[trigger] v@[i]).node_id@ == node_id@,
{
    let mut v: Vec<Rule> = Vec::new();
    let mut i: usize = 0;
    assert(reported@.take(0) =~= Seq::<PersistedRule>::empty());
    assert(store::rule_views(v@) =~= Seq::<RuleView>::empty());
    proof {
        if m.rules_keyed() {
            lemma_listed_rule(m, node_id@, store::rule_views(existing@));
        }
    }
    let ghost old_rules = store::rule_views(existing@);
    while i < reported.len()
        invariant
            i <= reported.len(),
            v.len() <= i,
            old_rules == store::rule_views(existing@),
            forall|k: int| 0 <= k < v@.len() ==> (#[trigger] v@[k]).node_id@ == node_id@,
            m.rules_keyed() ==> forall|k: int|
                0 <= k < old_rules.len() ==> on_record(m, node_id@, (#[trigger] old_rules[k]).id)
                    && m.rules[old_rules[k].id] == old_rules[k],
            m.rules_keyed() ==> forall|id: Seq<char>| #[trigger]
                on_record(m, node_id@, id) ==> exists|k: int|
                    0 <= k < old_rules.len() && (#[trigger] old_rules[k]).id == id,
            m.rules_keyed() ==> store::rule_views(v@) == local_rules(
                m,
                node_id@,
                tenant_id@,
                reported@.take(i as int),
                now,
            ),
        decreases reported@.len() - i,
    {
        proof {
            assert(reported@.take(i + 1).drop_last() =~= reported@.take(i as int));
            assert(reported@.take(i + 1).last() == reported@[i as int]);
        }
        let ghost before = v@;
        let persisted = &reported[i];
        let id_str = text::u64_text(persisted.id);
        let found = creation_of(existing, id_str.as_str());
        proof {
            if m.rules_keyed() {
                match found {
                    Some(t) => {
                        let k = choose|k: int|
                            0 <= k < existing@.len() && (#[trigger] existing@[k]).id@ == id_str@
                                && t == existing@[k].created_at;
                        assert(old_rules[k] == existing@[k]@);
                        assert(on_record(m, node_id@, old_rules[k].id));
                    },
                    None => {
                        if on_record(m, node_id@, id_str@) {
                            let k = choose|k: int|
                                0 <= k < old_rules.len() && (#[trigger] old_rules[k]).id == id_str@;
                            assert(existing@[k].id@ == id_str@);
                        }
                    },
                }
            }
        }
        let created_at: Timestamp = match found {
            Some(t) => t,
            None => now,
        };
        match super::rule_from_add_rule_json(
            node_id,
            tenant_id,
            persisted.params_json.as_slice(),
            created_at,
        ) {
            Ok(read) => {
                let mut r = read;
                r.id = id_str;
                if found.is_none() {
                    r.created_by = Some("agent:local-change".to_string());
                }
                v.push(r);
                proof {
                    assert(store::rule_views(v@) =~= store::rule_views(before).push(r@));
                    assert forall|k: int| 0 <= k < v@.len() implies (#[trigger] v@[k]).node_id@
                        == node_id@ by {
                        if k < before.len() {
                            assert(v@[k] == before[k]);
                        }
                    }
                }
            },
            Err(_) => {},
        }
        i = i + 1;
    }
    assert(reported@.take(i as int) =~= reported@);
    v
}

/// Setting a default action keeps which default actions can be set.
pub(crate) proof fn lemma_settable_stays(m: StoreModel, node_id: Seq<char>, entries: Seq<(String, String)>)
    ensures
        defaults_set(m, node_id, entries).interfaces.dom() == m.interfaces.dom(),
        defaults_set(m, node_id, entries).nodes == m.nodes,
        forall|k: Seq<char>| #[trigger]
            settable(defaults_set(m, node_id, entries), node_id, k) == settable(m, node_id, k),
    decreases entries.len(),
{
    if entries.len() > 0 {
        let front = entries.drop_last();
        lemma_settable_stays(m, node_id, front);
        let a = defaults_set(m, node_id, front);
        let key = entries.last().0@;
        assert(default_set(a, node_id, key, entries.last().1@).interfaces.dom()
            =~= a.interfaces.dom());
        let b = defaults_set(m, node_id, entries);
        assert forall|k: Seq<char>| #[trigger] settable(b, node_id, k) == settable(
            m,
            node_id,
            k,
        ) by {
            assert(settable(a, node_id, k) == settable(m, node_id, k));
            match split_key(k) {
                Some((iface, _)) => {
                    assert(b.interfaces.dom().contains((node_id, iface)) == m.interfaces.dom().contains(
                        (node_id, iface),
                    ));
                },
                None => {},
            }
        }
    }
}

/// Sets a reported default action, where it can be. Tells whether it was.
fn set_default<S: ControllerStore>(store: &mut S, node_id: &str, key: &str, action: &str) -> (r:
    bool)
    ensures
        final(store).dependable() == old(store).dependable(),
        old(store).dependable() ==> final(store).model() == default_set(
            old(store).model(),
            node_id@,
            key@,
            action@,
        ) && r == settable(old(store).model(), node_id@, key@),
{
    let chars = text::chars_of(key);
    let at: usize = match text::find_char(&chars, ':') {
        Some(at) => at,
        None => {
            return false;
        },
    };
    let iface = text::string_of(&text::slice(&chars, 0, at));
    let direction = text::string_of(&text::slice(&chars, at + 1, chars.len()));
    assert(iface@ =~= key@.take(at as int));
    assert(direction@ =~= key@.skip(at + 1));
    match store.update_interface_default_action(
        node_id,
        iface.as_str(),
        direction.as_str(),
        action,
    ) {
        Ok(()) => true,
        Err(_) => false,
    }
}

/// Treat the agent's [`StateSnapshot`] as authoritative for the given node
/// and write it back into the controller DB.
///
/// Used by the management stream when an agent reports a `LocalChange` —
/// e.g. an operator changed the node's config out-of-band.
/// The controller's prior view is discarded and replaced; the function does
/// not attempt to merge or to assert one side over the other.
///
/// Behavior:
/// * Rules: each [`PersistedRule`] is parsed; `created_at` is preserved for rules
///   whose `id` already existed, otherwise the supplied `now` timestamp is used.
///   Snapshot rules whose `params_json` fails to parse are counted in
///   [`LocalChangeOutcome::skipped_rules`] but do not abort the rest of the
///   apply — a single bad row must not strand the whole sync.
///   The full rule set is then committed via
///   [`ControllerStore::replace_rules_for_node`].
/// * Per-interface default actions: every entry in
///   `snapshot.per_interface_default_actions` is written through
///   [`ControllerStore::update_interface_default_action`]. Keys not following
///   the `"iface:direction"` shape are skipped.
/// * Stop behavior: if `snapshot.stop_behavior` is non-empty and differs
///   from the node's recorded value, the node row is updated.
///
/// `created_by` is `"agent:local-change"` for any newly inserted rule so the audit
/// trail of `rules.created_by` distinguishes operator-initiated rules from
/// agent-sync inserts.
pub fn apply_local_change<S: ControllerStore>(
    node_id: &str,
    snapshot: &StateSnapshot,
    store: &mut S,
    now: Timestamp,
) -> (r: Result<LocalChangeOutcome, ApplyLocalChangeError>)
    ensures
        final(store).dependable() == old(store).dependable(),
        match r {
            Ok(o) => {
                &&& old(store).model().nodes.contains_key(node_id@)
                &&& old(store).model().rules_keyed() ==> tells_rules(
                    o,
                    old(store).model(),
                    node_id@,
                    *snapshot,
                    now,
                )
                &&& o.default_actions_updated
                    <= snapshot.per_interface_default_actions.entries().len()
                &&& o.stop_behavior_updated == stop_behavior_differs(
                    old(store).model().nodes[node_id@],
                    snapshot.stop_behavior@,
                )
                &&& old(store).dependable() && old(store).model().rules_keyed()
                    ==> final(store).model() == taken_over(
                    old(store).model(),
                    node_id@,
                    *snapshot,
                    now,
                ) && tells_taken_over(o, old(store).model(), node_id@, *snapshot, now)
            },
            Err(ApplyLocalChangeError::NodeNotFound(id)) => {
                &&& id@ == node_id@
                &&& !old(store).model().nodes.contains_key(node_id@)
                &&& final(store).model() == old(store).model()
            },
            Err(ApplyLocalChangeError::Store(_)) => !old(store).dependable(),
        },
{
    let ghost m = store.model();
    let node = match store.get_node(node_id) {
        Ok(Some(n)) => n,
        Ok(None) => {
            return Err(ApplyLocalChangeError::NodeNotFound(node_id.to_string()));
        },
        Err(e) => {
            return Err(ApplyLocalChangeError::Store(e));
        },
    };
    let existing = match store.list_rules_for_node(node_id) {
        Ok(v) => v,
        Err(e) => {
            return Err(ApplyLocalChangeError::Store(e));
        },
    };
    let new_rules = read_local_rules(
        node_id,
        node.tenant_id.as_str(),
        &snapshot.rules,
        &existing,
        now,
        Ghost(m),
    );
    let skipped: usize = snapshot.rules.len() - new_rules.len();
    let summary = match store.replace_rules_for_node(node_id, new_rules.as_slice()) {
        Ok(s) => s,
        Err(e) => {
            return Err(ApplyLocalChangeError::Store(e));
        },
    };
    let ghost replaced = store.model();
    let ghost es = snapshot.per_interface_default_actions.entries();
    let ghost count = |e: (String, String)| settable(replaced, node_id@, e.0@);
    let mut default_actions_updated: usize = 0;
    let n: usize = snapshot.per_interface_default_actions.len();
    let mut i: usize = 0;
    assert(es.take(0) =~= Seq::<(String, String)>::empty());
    while i < n
        invariant
            i <= n == es.len(),
            es == snapshot.per_interface_default_actions.entries(),
            count == (|e: (String, String)| settable(replaced, node_id@, e.0@)),
            default_actions_updated <= i,
            store.dependable() == old(store).dependable(),
            store.dependable() ==> store.model() == defaults_set(
                replaced,
                node_id@,
                es.take(i as int),
            ),
            store.dependable() ==> default_actions_updated == es.take(i as int).filter(count).len(),
        decreases n - i,
    {
        proof {
            lemma_settable_stays(replaced, node_id@, es.take(i as int));
            assert(es.take(i + 1).drop_last() =~= es.take(i as int));
            assert(es.take(i + 1).last() == es[i as int]);
            assert(es.take(i + 1) =~= es.take(i as int).push(es[i as int]));
            es.take(i as int).lemma_filter_push(es[i as int], count);
        }
        let (key, action) = snapshot.per_interface_default_actions.at(i);
        if set_default(store, node_id, key.as_str(), action.as_str()) {
            default_actions_updated = default_actions_updated + 1;
        }
        i = i + 1;
    }
    proof {
        assert(es.take(i as int) =~= es);
        lemma_settable_stays(replaced, node_id@, es);
        assert(count =~= |e: (String, String)| settable(m, node_id@, e.0@));
    }
    let recorded: bool = match &node.stop_behavior {
        Some(s) => text::same(s.as_str(), snapshot.stop_behavior.as_str()),
        None => false,
    };
    let mut stop_behavior_updated: bool = false;
    if !snapshot.stop_behavior.as_str().is_empty() && !recorded {
        match store.update_node_stop_behavior(node_id, Some(snapshot.stop_behavior.as_str())) {
            Ok(()) => {},
            Err(e) => {
                return Err(ApplyLocalChangeError::Store(e));
            },
        }
        stop_behavior_updated = true;
    }
    Ok(
        LocalChangeOutcome {
            rules: summary,
            default_actions_updated,
            stop_behavior_updated,
            skipped_rules: skipped,
        },
    )
}

} // verus!
