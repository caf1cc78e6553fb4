//! What holds of every store whatever it holds.

use super::model::{self, DiffCounts, RedeemView, Replacement, StoreModel};
use super::records::{
    AlertView, AuditView, InterfaceView, NewAuditView, NodeStatus, NodeView, RuleView, RulesetView,
    TokenView,
};
use crate::json;
use crate::order;
use crate::proto::InterfaceReport;
use crate::text;
use crate::timestamp::Timestamp;
use vstd::prelude::*;

verus! {

/// Every record is kept under its own id.
pub open spec fn keyed(m: StoreModel) -> bool {
    &&& forall|k: Seq<char>| #[trigger] m.nodes.contains_key(k) ==> m.nodes[k].id == k
    &&& m.rules_keyed()
    &&& m.interfaces_keyed()
    &&& forall|k: Seq<char>| #[trigger] m.tokens.contains_key(k) ==> m.tokens[k].token_id == k
    &&& forall|k: Seq<char>| #[trigger] m.rulesets.contains_key(k) ==> m.rulesets[k].id == k
}

/// An empty store keeps every record under its id.
pub proof fn empty_is_keyed()
    ensures
        keyed(StoreModel::empty()),
{
}

/// Storing, changing and deleting a node keep every record under its id.
pub proof fn nodes_stay_keyed(m: StoreModel, n: NodeView)
    requires
        keyed(m),
    ensures
        keyed(m.with_node(n)),
        keyed(m.node_changed(n.id, n)),
        keyed(m.without_node(n.id)),
{
}

/// A rule, a token and a ruleset are kept under their ids.
pub proof fn records_stay_keyed(m: StoreModel, r: RuleView, t: TokenView, rs: RulesetView)
    requires
        keyed(m),
    ensures
        keyed(StoreModel { rules: model::rule_created(m.rules, r), ..m }),
        keyed(StoreModel { rules: m.rules.remove(r.id), ..m }),
        keyed(StoreModel { tokens: m.tokens.insert(t.token_id, t), ..m }),
        keyed(StoreModel { rulesets: m.rulesets.insert(rs.id, rs), ..m }),
        keyed(StoreModel { rulesets: m.rulesets.remove(rs.id), ..m }),
{
}

/// Replacing the rules of a node keeps every rule under its id.
pub proof fn replacement_stays_keyed(
    rules: Map<Seq<char>, RuleView>,
    node_id: Seq<char>,
    new_rules: Seq<RuleView>,
)
    requires
        forall|k: Seq<char>| #[trigger] rules.contains_key(k) ==> rules[k].id == k,
    ensures
        forall|k: Seq<char>| #[trigger]
            model::replacement(rules, node_id, new_rules).rules.contains_key(k)
                ==> model::replacement(rules, node_id, new_rules).rules[k].id == k,
{
    let stale = model::stale_rules(rules, node_id, new_rules);
    let start = Replacement {
        rules: rules.remove_keys(stale.dom()),
        counts: DiffCounts { added: 0, updated: 0, deleted: stale.dom().len(), unchanged: 0 },
    };
    lemma_replace_all_keyed(start, new_rules);
}

/// The rules of a new set keep every rule under its id.
proof fn lemma_replace_all_keyed(p: Replacement, new_rules: Seq<RuleView>)
    requires
        forall|k: Seq<char>| #[trigger] p.rules.contains_key(k) ==> p.rules[k].id == k,
    ensures
        forall|k: Seq<char>| #[trigger]
            model::replace_all(p, new_rules).rules.contains_key(k) ==> model::replace_all(
                p,
                new_rules,
            ).rules[k].id == k,
    decreases new_rules.len(),
{
    if new_rules.len() > 0 {
        lemma_replace_all_keyed(p, new_rules.drop_last());
    }
}

/// A report of interfaces keeps every interface under its node and name.
pub proof fn reports_stay_keyed(
    m: Map<(Seq<char>, Seq<char>), InterfaceView>,
    node_id: Seq<char>,
    reports: Seq<InterfaceReport>,
    now: Timestamp,
)
    requires
        forall|k: (Seq<char>, Seq<char>)| #[trigger]
            m.contains_key(k) ==> m[k].node_id == k.0 && m[k].name == k.1,
    ensures
        forall|k: (Seq<char>, Seq<char>)| #[trigger]
            model::reported_interfaces(m, node_id, reports, now).contains_key(k)
                ==> model::reported_interfaces(m, node_id, reports, now)[k].node_id == k.0
                && model::reported_interfaces(m, node_id, reports, now)[k].name == k.1,
    decreases reports.len(),
{
    if reports.len() > 0 {
        reports_stay_keyed(m, node_id, reports.drop_last(), now);
    }
}

/// A node that was stored is found under its id and under its enrollment.
pub proof fn stored_node_is_found(m: StoreModel, n: NodeView)
    ensures
        m.with_node(n).nodes.contains_key(n.id),
        m.with_node(n).nodes[n.id] == n,
        n.enrollment_id matches Some(e) ==> m.with_node(n).enrollments.contains_key(e) && m.with_node(
            n,
        ).enrollments[e] == n.id,
{
}

/// Deleting a node leaves nothing of it, and nothing else changes.
pub proof fn deleted_node_is_gone(m: StoreModel, id: Seq<char>)
    ensures
        !m.without_node(id).nodes.contains_key(id),
        !m.without_node(id).certs.contains_key(id),
        forall|k: Seq<char>| #[trigger]
            m.without_node(id).rules.contains_key(k) ==> m.without_node(id).rules[k].node_id != id,
        forall|k: (Seq<char>, Seq<char>)| #[trigger]
            m.without_node(id).interfaces.contains_key(k) ==> k.0 != id,
        forall|e: Seq<char>| #[trigger]
            m.without_node(id).enrollments.contains_key(e) ==> m.without_node(id).enrollments[e]
                != id,
        forall|k: Seq<char>|
            k != id && #[trigger] m.nodes.contains_key(k) ==> m.without_node(id).nodes.contains_key(k)
                && m.without_node(id).nodes[k] == m.nodes[k],
        forall|k: Seq<char>| #[trigger]
            m.rules.contains_key(k) && m.rules[k].node_id != id ==> m.without_node(
                id,
            ).rules.contains_key(k) && m.without_node(id).rules[k] == m.rules[k],
        m.without_node(id).audit == m.audit,
        m.without_node(id).revoked == m.revoked,
{
}

/// A revoked serial stays revoked, whatever else is revoked.
pub proof fn revoked_stays_revoked(m: StoreModel, serial: Seq<u8>, other: Seq<u8>)
    ensures
        m.revoked.insert(serial).contains(serial),
        m.revoked.contains(serial) ==> m.revoked.insert(other).contains(serial),
{
}

/// What a listing gives fulfils its condition, so that a listing for a tenant holds
/// nothing of another.
pub proof fn listing_stays_in_scope<K, V>(
    out: Seq<V>,
    m: Map<K, V>,
    keep: spec_fn(V) -> bool,
)
    requires
        model::lists(out, m, keep),
    ensures
        forall|i: int| 0 <= i < out.len() ==> keep(#[trigger] out[i]),
        forall|k: K|
            m.contains_key(k) && #[trigger] keep(m[k]) ==> out.contains(m[k]),
{
    let ks = choose|ks: Seq<K>| model::lists_keys(out, m, keep, ks);
    assert(model::lists_keys(out, m, keep, ks));
    assert forall|i: int| 0 <= i < out.len() implies keep(#[trigger] out[i]) by {
        assert(m.contains_key(ks[i]));
    }
    assert forall|k: K| m.contains_key(k) && #[trigger] keep(m[k]) implies out.contains(m[k]) by {
        assert(ks.contains(k));
        let i = choose|i: int| 0 <= i < ks.len() && ks[i] == k;
        assert(m.contains_key(ks[i]));
        assert(out[i] == m[k]);
    }
}

/// A rule has the content that it has.
pub proof fn content_equal_reflexive(r: RuleView)
    ensures
        model::content_equal(r, r),
{
    json::equal_json_reflexive(model::json_or_null(r.actions_json));
}

/// Whether two rules have one content does not depend on which is named first.
pub proof fn content_equal_symmetric(a: RuleView, b: RuleView)
    ensures
        model::content_equal(a, b) == model::content_equal(b, a),
{
    let x = model::json_or_null(a.actions_json);
    let y = model::json_or_null(b.actions_json);
    if json::equal_json(x, y) {
        json::equal_json_symmetric(x, y);
    }
    if json::equal_json(y, x) {
        json::equal_json_symmetric(y, x);
    }
}

/// Rules that have the content of one rule have one content.
pub proof fn content_equal_transitive(a: RuleView, b: RuleView, c: RuleView)
    requires
        model::content_equal(a, b),
        model::content_equal(b, c),
    ensures
        model::content_equal(a, c),
{
    json::equal_json_transitive(
        model::json_or_null(a.actions_json),
        model::json_or_null(b.actions_json),
        model::json_or_null(c.actions_json),
    );
}

/// The content of a rule is not touched by what it is called, where it belongs, or when
/// and by whom it was made.
pub proof fn content_ignores_identity(a: RuleView, b: RuleView, other: RuleView)
    ensures
        model::content_equal(
            RuleView {
                id: other.id,
                node_id: other.node_id,
                tenant_id: other.tenant_id,
                created_at: other.created_at,
                created_by: other.created_by,
                ..a
            },
            b,
        ) == model::content_equal(a, b),
{
}

/// The content of a rule is not touched by how its actions are written down: two texts
/// that are read as equal values, whatever their spacing and the order of their keys, are
/// one content.
pub proof fn content_ignores_notation(a: RuleView, actions_json: Seq<char>)
    requires
        json::equal_json(model::json_or_null(a.actions_json), model::json_or_null(actions_json)),
    ensures
        model::content_equal(a, RuleView { actions_json, ..a }),
{
}

/// Every other change is one of the content: of two rules with the content of one rule
/// neither differs from the other in a match field, in its expiry or schedule, or in the
/// value of its actions.
pub proof fn content_shows_changes(a: RuleView, b: RuleView, changed: RuleView)
    requires
        model::content_equal(a, b),
        ({
            ||| changed.interface_name != b.interface_name
            ||| changed.direction != b.direction
            ||| changed.src_cidr != b.src_cidr
            ||| changed.dst_cidr != b.dst_cidr
            ||| changed.src_port != b.src_port
            ||| changed.dst_port != b.dst_port
            ||| changed.protocol != b.protocol
            ||| changed.sni_pattern != b.sni_pattern
            ||| changed.quic_version != b.quic_version
            ||| changed.src_mac != b.src_mac
            ||| changed.dst_mac != b.dst_mac
            ||| changed.expires_after_secs != b.expires_after_secs
            ||| changed.schedule_json != b.schedule_json
            ||| !json::equal_json(
                model::json_or_null(b.actions_json),
                model::json_or_null(changed.actions_json),
            )
        }),
    ensures
        !model::content_equal(a, changed),
{
    if model::content_equal(a, changed) {
        content_equal_symmetric(a, b);
        content_equal_transitive(b, a, changed);
    }
}

/// The last of the rules that have the id.
pub open spec fn last_named(rules: Seq<RuleView>, id: Seq<char>) -> RuleView
    decreases rules.len(),
{
    if rules.len() == 0 || rules.last().id == id {
        rules.last()
    } else {
        last_named(rules.drop_last(), id)
    }
}

/// What the rules of a new set do to a rule set.
proof fn lemma_replace_all(p: Replacement, new_rules: Seq<RuleView>)
    ensures
        ({
            let q = model::replace_all(p, new_rules);
            &&& forall|k: Seq<char>| #[trigger]
                q.rules.contains_key(k) <==> p.rules.contains_key(k) || model::has_rule_id(
                    new_rules,
                    k,
                )
            &&& forall|k: Seq<char>|
                !model::has_rule_id(new_rules, k) ==> #[trigger] q.rules[k] == p.rules[k]
            &&& forall|k: Seq<char>| #[trigger]
                model::has_rule_id(new_rules, k) ==> model::content_equal(
                    q.rules[k],
                    last_named(new_rules, k),
                ) && q.rules[k].node_id == last_named(new_rules, k).node_id
            &&& q.counts.deleted == p.counts.deleted
            &&& q.counts.added + q.counts.updated + q.counts.unchanged == p.counts.added
                + p.counts.updated + p.counts.unchanged + new_rules.len()
        }),
    decreases new_rules.len(),
{
    if new_rules.len() > 0 {
        let front = new_rules.drop_last();
        let r = new_rules.last();
        lemma_replace_all(p, front);
        content_equal_reflexive(r);
        let a = model::replace_all(p, front);
        let q = model::replace_all(p, new_rules);
        assert(new_rules[new_rules.len() - 1] == r);
        assert forall|k: Seq<char>| #[trigger] model::has_rule_id(new_rules, k) == (
        model::has_rule_id(front, k) || k == r.id) by {
            if model::has_rule_id(new_rules, k) {
                let i = choose|i: int| 0 <= i < new_rules.len() && (#[trigger] new_rules[i]).id == k;
                if i < front.len() {
                    assert(front[i].id == k);
                }
            }
            if model::has_rule_id(front, k) {
                let i = choose|i: int| 0 <= i < front.len() && (#[trigger] front[i]).id == k;
                assert(new_rules[i].id == k);
            }
        }
        assert forall|k: Seq<char>| #[trigger]
            model::has_rule_id(new_rules, k) implies model::content_equal(
            q.rules[k],
            last_named(new_rules, k),
        ) && q.rules[k].node_id == last_named(new_rules, k).node_id by {
            if k != r.id {
                assert(model::has_rule_id(front, k));
            }
        }
    }
}

/// After a replacement a node has exactly the rules of the new set, as to their
/// content; of two rules with one id the later counts. A rule of the set belongs to its
/// node even if another node used its id. Rules of other nodes whose ids the set does not
/// name stay as they were, and the counts add up.
pub proof fn replacement_is_exact(
    rules: Map<Seq<char>, RuleView>,
    node_id: Seq<char>,
    new_rules: Seq<RuleView>,
)
    ensures
        ({
            let p = model::replacement(rules, node_id, new_rules);
            &&& forall|k: Seq<char>| #[trigger]
                p.rules.contains_key(k) <==> model::has_rule_id(new_rules, k) || (
                rules.contains_key(k) && rules[k].node_id != node_id)
            &&& forall|k: Seq<char>| #[trigger]
                model::has_rule_id(new_rules, k) ==> model::content_equal(
                    p.rules[k],
                    last_named(new_rules, k),
                ) && p.rules[k].node_id == last_named(new_rules, k).node_id
            &&& forall|k: Seq<char>|
                p.rules.contains_key(k) && !model::has_rule_id(new_rules, k)
                    ==> #[trigger] p.rules[k] == rules[k]
            &&& p.counts.added + p.counts.updated + p.counts.unchanged == new_rules.len()
            &&& p.counts.deleted == model::stale_rules(rules, node_id, new_rules).dom().len()
        }),
{
    let stale = model::stale_rules(rules, node_id, new_rules);
    let start = Replacement {
        rules: rules.remove_keys(stale.dom()),
        counts: DiffCounts { added: 0, updated: 0, deleted: stale.dom().len(), unchanged: 0 },
    };
    lemma_replace_all(start, new_rules);
}

/// The ids of the new set under which the node has a rule.
spec fn known_ids(
    rules: Map<Seq<char>, RuleView>,
    node_id: Seq<char>,
    new_rules: Seq<RuleView>,
) -> Set<Seq<char>> {
    rules.dom().filter(
        |k: Seq<char>| model::has_own(rules, node_id, k) && model::has_rule_id(new_rules, k),
    )
}

/// Where the ids of the new set differ, a rule counts as updated or unchanged just when
/// the node had one under its id.
proof fn lemma_known_are_counted(p: Replacement, node_id: Seq<char>, new_rules: Seq<RuleView>)
    requires
        p.rules.dom().finite(),
        forall|i: int| 0 <= i < new_rules.len() ==> (#[trigger] new_rules[i]).node_id == node_id,
        forall|i: int, j: int|
            0 <= i < j < new_rules.len() ==> (#[trigger] new_rules[i]).id != (
            #[trigger] new_rules[j]).id,
    ensures
        ({
            let q = model::replace_all(p, new_rules);
            q.counts.updated + q.counts.unchanged == p.counts.updated + p.counts.unchanged
                + known_ids(p.rules, node_id, new_rules).len()
        }),
    decreases new_rules.len(),
{
    if new_rules.len() == 0 {
        assert(known_ids(p.rules, node_id, new_rules) =~= Set::empty());
    } else {
        let front = new_rules.drop_last();
        let r = new_rules.last();
        assert(new_rules[new_rules.len() - 1] == r);
        assert forall|i: int, j: int| 0 <= i < j < front.len() implies (#[trigger] front[i]).id != (
        #[trigger] front[j]).id by {
            assert(new_rules[i].id != new_rules[j].id);
        }
        assert forall|i: int| 0 <= i < front.len() implies (#[trigger] front[i]).node_id
            == node_id by {
            assert(front[i] == new_rules[i]);
        }
        lemma_known_are_counted(p, node_id, front);
        lemma_replace_all(p, front);
        assert(!model::has_rule_id(front, r.id)) by {
            if model::has_rule_id(front, r.id) {
                let i = choose|i: int| 0 <= i < front.len() && (#[trigger] front[i]).id == r.id;
                assert(new_rules[i].id != new_rules[new_rules.len() - 1].id);
            }
        }
        assert forall|k: Seq<char>| #[trigger] model::has_rule_id(new_rules, k) == (
        model::has_rule_id(front, k) || k == r.id) by {
            if model::has_rule_id(new_rules, k) {
                let i = choose|i: int| 0 <= i < new_rules.len() && (#[trigger] new_rules[i]).id == k;
                if i < front.len() {
                    assert(front[i].id == k);
                }
            }
            if model::has_rule_id(front, k) {
                let i = choose|i: int| 0 <= i < front.len() && (#[trigger] front[i]).id == k;
                assert(new_rules[i].id == k);
            }
        }
        let before = known_ids(p.rules, node_id, front);
        assert(model::replace_all(p, front).rules[r.id] == p.rules[r.id]);
        if model::has_own(p.rules, node_id, r.id) {
            assert(known_ids(p.rules, node_id, new_rules) =~= before.insert(r.id));
        } else {
            assert(known_ids(p.rules, node_id, new_rules) =~= before);
        }
    }
}

/// A rule under an id of the new set belongs to the node.
pub proof fn lemma_named_belong(p: Replacement, new_rules: Seq<RuleView>, node_id: Seq<char>)
    requires
        forall|i: int| 0 <= i < new_rules.len() ==> (#[trigger] new_rules[i]).node_id == node_id,
    ensures
        forall|k: Seq<char>| #[trigger]
            model::has_rule_id(new_rules, k) ==> model::replace_all(p, new_rules).rules[k].node_id
                == node_id,
    decreases new_rules.len(),
{
    if new_rules.len() > 0 {
        let front = new_rules.drop_last();
        let r = new_rules.last();
        assert(new_rules[new_rules.len() - 1] == r);
        assert forall|i: int| 0 <= i < front.len() implies (#[trigger] front[i]).node_id
            == node_id by {
            assert(front[i] == new_rules[i]);
        }
        lemma_named_belong(p, front, node_id);
        assert forall|k: Seq<char>| #[trigger]
            model::has_rule_id(new_rules, k) implies model::replace_all(
            p,
            new_rules,
        ).rules[k].node_id == node_id by {
            if k != r.id {
                let i = choose|i: int| 0 <= i < new_rules.len() && (#[trigger] new_rules[i]).id == k;
                assert(front[i].id == k);
                assert(model::has_rule_id(front, k));
            }
        }
    }
}

/// The rules of a node.
pub open spec fn rules_of(rules: Map<Seq<char>, RuleView>, node_id: Seq<char>) -> Map<
    Seq<char>,
    RuleView,
> {
    model::kept(rules, |k: Seq<char>, r: RuleView| r.node_id == node_id)
}

/// Where the ids of the new set differ, the rules that were deleted, updated or left alone
/// are together those that the node had, and the node has the rules of the new set
/// afterwards.
pub proof fn replacement_accounts_for_the_old(
    rules: Map<Seq<char>, RuleView>,
    node_id: Seq<char>,
    new_rules: Seq<RuleView>,
)
    requires
        rules.dom().finite(),
        forall|i: int| 0 <= i < new_rules.len() ==> (#[trigger] new_rules[i]).node_id == node_id,
        forall|i: int, j: int|
            0 <= i < j < new_rules.len() ==> (#[trigger] new_rules[i]).id != (
            #[trigger] new_rules[j]).id,
    ensures
        ({
            let p = model::replacement(rules, node_id, new_rules);
            &&& p.counts.deleted + p.counts.updated + p.counts.unchanged == rules_of(
                rules,
                node_id,
            ).dom().len()
            &&& p.counts.added + p.counts.updated + p.counts.unchanged == new_rules.len()
            &&& forall|k: Seq<char>| #[trigger]
                rules_of(p.rules, node_id).contains_key(k) <==> model::has_rule_id(new_rules, k)
        }),
{
    let stale = model::stale_rules(rules, node_id, new_rules);
    let start = Replacement {
        rules: rules.remove_keys(stale.dom()),
        counts: DiffCounts { added: 0, updated: 0, deleted: stale.dom().len(), unchanged: 0 },
    };
    let old_ids = rules_of(rules, node_id).dom();
    let known = known_ids(start.rules, node_id, new_rules);
    assert(start.rules.dom() =~= rules.dom().difference(stale.dom()));
    vstd::set_lib::lemma_len_subset(old_ids, rules.dom());
    vstd::set_lib::lemma_len_subset(stale.dom(), rules.dom());
    lemma_known_are_counted(start, node_id, new_rules);
    assert(old_ids =~= stale.dom().union(known));
    vstd::set_lib::lemma_set_disjoint_lens(stale.dom(), known);
    replacement_is_exact(rules, node_id, new_rules);
    lemma_named_belong(start, new_rules, node_id);
    let p = model::replacement(rules, node_id, new_rules);
    assert forall|k: Seq<char>| #[trigger]
        rules_of(p.rules, node_id).contains_key(k) <==> model::has_rule_id(new_rules, k) by {
        if p.rules.contains_key(k) && !model::has_rule_id(new_rules, k) {
            assert(p.rules[k] == rules[k]);
        }
    }
}

/// A new set whose rules their nodes all have already changes nothing.
proof fn lemma_replace_all_again(p: Replacement, new_rules: Seq<RuleView>)
    requires
        forall|i: int|
            0 <= i < new_rules.len() ==> model::has_own(
                p.rules,
                (#[trigger] new_rules[i]).node_id,
                new_rules[i].id,
            ) && model::content_equal(p.rules[new_rules[i].id], new_rules[i]),
    ensures
        model::replace_all(p, new_rules).rules == p.rules,
        model::replace_all(p, new_rules).counts == (DiffCounts {
            unchanged: p.counts.unchanged + new_rules.len(),
            ..p.counts
        }),
    decreases new_rules.len(),
{
    if new_rules.len() > 0 {
        let front = new_rules.drop_last();
        assert forall|i: int| 0 <= i < front.len() implies model::has_own(
            p.rules,
            (#[trigger] front[i]).node_id,
            front[i].id,
        ) && model::content_equal(p.rules[front[i].id], front[i]) by {
            assert(front[i] == new_rules[i]);
        }
        lemma_replace_all_again(p, front);
        assert(new_rules[new_rules.len() - 1] == new_rules.last());
    }
}

/// Replacing the rules of a node a second time by the same set changes nothing.
pub proof fn replacing_again_is_noop(
    rules: Map<Seq<char>, RuleView>,
    node_id: Seq<char>,
    new_rules: Seq<RuleView>,
)
    requires
        forall|i: int| 0 <= i < new_rules.len() ==> (#[trigger] new_rules[i]).node_id == node_id,
        forall|i: int, j: int|
            0 <= i < j < new_rules.len() ==> (#[trigger] new_rules[i]).id != (
            #[trigger] new_rules[j]).id,
        rules.dom().finite(),
    ensures
        ({
            let once = model::replacement(rules, node_id, new_rules).rules;
            let twice = model::replacement(once, node_id, new_rules);
            &&& twice.rules == once
            &&& twice.counts == (DiffCounts {
                added: 0,
                updated: 0,
                deleted: 0,
                unchanged: new_rules.len(),
            })
        }),
{
    let once = model::replacement(rules, node_id, new_rules).rules;
    replacement_is_exact(rules, node_id, new_rules);
    let stale = model::stale_rules(once, node_id, new_rules);
    assert(stale.dom() =~= Set::empty()) by {
        assert forall|k: Seq<char>| !stale.dom().contains(k) by {
            if once.contains_key(k) && !model::has_rule_id(new_rules, k) {
                assert(once[k] == rules[k]);
            }
        }
    }
    assert(once.remove_keys(stale.dom()) =~= once);
    assert forall|i: int| 0 <= i < new_rules.len() implies model::has_own(
        once,
        (#[trigger] new_rules[i]).node_id,
        new_rules[i].id,
    ) && model::content_equal(once[new_rules[i].id], new_rules[i]) by {
        assert(model::has_rule_id(new_rules, new_rules[i].id));
        lemma_last_named(new_rules, i);
    }
    lemma_replace_all_again(
        Replacement {
            rules: once,
            counts: DiffCounts { added: 0, updated: 0, deleted: 0, unchanged: 0 },
        },
        new_rules,
    );
}

/// Where ids differ, the last rule with an id is the only one.
proof fn lemma_last_named(rules: Seq<RuleView>, i: int)
    requires
        0 <= i < rules.len(),
        forall|a: int, b: int|
            0 <= a < b < rules.len() ==> (#[trigger] rules[a]).id != (#[trigger] rules[b]).id,
    ensures
        last_named(rules, rules[i].id) == rules[i],
    decreases rules.len(),
{
    assert(rules.last() == rules[rules.len() - 1]);
    if i < rules.len() - 1 {
        let front = rules.drop_last();
        assert forall|a: int, b: int| 0 <= a < b < front.len() implies (#[trigger] front[a]).id != (
        #[trigger] front[b]).id by {
            assert(rules[a].id != rules[b].id);
        }
        assert(rules[i].id != rules[rules.len() - 1].id);
        lemma_last_named(front, i);
        assert(front[i] == rules[i]);
    }
}

/// A redemption that succeeds takes one use, and one that fails changes nothing;
/// so a token is never redeemed more often than it was minted for.
pub proof fn redemption_counts_down(
    before: StoreModel,
    after: StoreModel,
    token_id: Seq<char>,
    hash: Seq<u8>,
    now: Timestamp,
    outcome: RedeemView,
)
    requires
        super::redeemed(before, after, token_id, hash, now, outcome),
    ensures
        outcome is Redeemed <==> after != before,
        outcome is Redeemed ==> before.tokens.contains_key(token_id) && ({
            let t = before.tokens[token_id];
            &&& t.token_hash == hash
            &&& t.revoked_at is None
            &&& now.instant() < t.expires_at.instant()
            &&& t.uses_remaining > 0
            &&& after.tokens[token_id] == (TokenView {
                uses_remaining: (t.uses_remaining - 1) as i64,
                ..t
            })
        }),
        !(outcome is Redeemed) ==> after == before,
{
    if before.tokens.contains_key(token_id) {
        let t = before.tokens[token_id];
        if outcome is Redeemed {
            assert(after.tokens[token_id].uses_remaining != t.uses_remaining);
        }
    }
}

/// A report of an interface keeps what an operator or the controller set on it.
pub proof fn report_keeps_settings(
    before: InterfaceView,
    node_id: Seq<char>,
    report: InterfaceReport,
    now: Timestamp,
)
    ensures
        ({
            let i = model::reported_interface(Some(before), node_id, report, now);
            &&& i.tag == before.tag
            &&& i.xdp_attached == before.xdp_attached
            &&& i.tc_attached == before.tc_attached
            &&& i.fib_forwarding == before.fib_forwarding
            &&& i.urpf_mode == before.urpf_mode
            &&& i.inspect_enabled == before.inspect_enabled
            &&& i.ingress_default_action == before.ingress_default_action
            &&& i.egress_default_action == before.egress_default_action
            &&& i.last_reported == now
        }),
{
}

/// An audit entry that was just written is the first of its tenant's list, under
/// the tenant that it names, else that of its node, else the default one.
pub proof fn written_audit_comes_first(
    m: StoreModel,
    id: i64,
    e: NewAuditView,
    now: Timestamp,
)
    ensures
        ({
            let after = m.audited(id, e, now);
            let mine = |a: AuditView| a.tenant_id == m.audit_tenant(e);
            &&& after.audit_newest_first(mine).len() == m.audit_newest_first(mine).len() + 1
            &&& after.audit_newest_first(mine)[0] == m.audit_entry(id, e, now)
        }),
{
    let after = m.audited(id, e, now);
    let entry = m.audit_entry(id, e, now);
    let mine = |a: AuditView| a.tenant_id == m.audit_tenant(e);
    assert(after.audit.reverse() =~= seq![entry] + m.audit.reverse());
    Seq::filter_distributes_over_add(seq![entry], m.audit.reverse(), mine);
    assert(seq![entry].filter(mine) == seq![entry]) by {
        reveal(Seq::filter);
        assert(seq![entry].drop_last() =~= Seq::<AuditView>::empty());
        assert(seq![entry].drop_last().filter(mine) =~= Seq::<AuditView>::empty());
        assert(seq![entry].filter(mine) =~= seq![entry]);
    }
}

/// Alerts are listed with the latest first, and none is lost or invented.
pub proof fn alerts_stand_latest_first(s: Seq<AlertView>)
    ensures
        super::latest_first(s).to_multiset() == s.to_multiset(),
        forall|i: int, j: int|
            0 <= i < j < s.len() ==> (#[trigger] super::latest_first(s)[j]).received_ns <= (
            #[trigger] super::latest_first(s)[i]).received_ns,
{
    let le = |a: AlertView, b: AlertView| b.received_ns <= a.received_ns;
    order::arranged_sorts(s, le);
    let t = super::latest_first(s);
    assert forall|i: int, j: int| 0 <= i < j < s.len() implies (#[trigger] t[j]).received_ns <= (
    #[trigger] t[i]).received_ns by {
        assert(le(t[i], t[j]));
    }
}

} // verus!
