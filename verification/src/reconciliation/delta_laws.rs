//! What a delta and a drift say of the rules on both sides, by their ids.

use super::drift::{self, RuleDrift};
use super::add_rule;
use crate::json;
use crate::proto::{DeltaView, PersistedRule, RuleAddView};
use crate::store::records::RuleView;
use crate::text;
use vstd::prelude::*;

verus! {

/// Whether an id is a number of 64 bits in plain notation.
pub open spec fn plain_id(id: Seq<char>) -> bool {
    exists|n: nat| n <= u64::MAX && id == #[trigger] text::decimal(n)
}

/// Whether an agent reports a rule under an id.
pub open spec fn reports_id(reported: Seq<PersistedRule>, id: Seq<char>) -> bool {
    exists|j: int|
        0 <= j < reported.len() && text::decimal((#[trigger] reported[j]).id as nat) == id
}

/// Whether one of the rules has an id.
pub open spec fn has_id(rules: Seq<RuleView>, id: Seq<char>) -> bool {
    exists|i: int| 0 <= i < rules.len() && (#[trigger] rules[i]).id == id
}

/// A plain id stands for one number, and the number for the id.
proof fn lemma_plain(r: RuleView, n: nat)
    requires
        plain_id(r.id),
    ensures
        super::rule_number(r) is Some,
        super::rule_number(r) == Some(n) <==> r.id == text::decimal(n) && n <= u64::MAX,
{
    let k = choose|k: nat| k <= u64::MAX && r.id == #[trigger] text::decimal(k);
    text::decimal_round_trip(k);
    text::decimal_round_trip(n);
}

/// Two numbers with one notation are one.
proof fn lemma_decimal_apart(a: nat, b: nat)
    requires
        text::decimal(a) == text::decimal(b),
    ensures
        a == b,
{
    text::decimal_round_trip(a);
    text::decimal_round_trip(b);
}

/// A rule is lacking just where its id is not reported.
proof fn lemma_lacks_id(reported: Seq<PersistedRule>, r: RuleView)
    requires
        plain_id(r.id),
    ensures
        super::lacks(reported, r) == !reports_id(reported, r.id),
{
    let n = choose|n: nat| n <= u64::MAX && r.id == #[trigger] text::decimal(n);
    lemma_plain(r, n);
    if super::reports(reported, n) {
        let j = choose|j: int| 0 <= j < reported.len() && (#[trigger] reported[j]).id == n;
        assert(text::decimal(reported[j].id as nat) == r.id);
    }
    if reports_id(reported, r.id) {
        let j = choose|j: int|
            0 <= j < reported.len() && text::decimal((#[trigger] reported[j]).id as nat) == r.id;
        lemma_decimal_apart(reported[j].id as nat, n);
    }
}

/// A number is wanted just where its notation is the id of a rule.
proof fn lemma_desires_id(rules: Seq<RuleView>, n: nat)
    requires
        n <= u64::MAX,
        forall|i: int| 0 <= i < rules.len() ==> plain_id((#[trigger] rules[i]).id),
    ensures
        super::desires(rules, n) == has_id(rules, text::decimal(n)),
{
    if super::desires(rules, n) {
        let i = choose|i: int| 0 <= i < rules.len() && super::rule_number(#[trigger] rules[i]) == Some(n);
        lemma_plain(rules[i], n);
    }
    if has_id(rules, text::decimal(n)) {
        let i = choose|i: int| 0 <= i < rules.len() && (#[trigger] rules[i]).id == text::decimal(n);
        lemma_plain(rules[i], n);
    }
}

/// Whether a message adds a rule: under the id and on the interface of the rule, with the
/// `AddRuleInput` form of the rule.
pub open spec fn adds_rule(a: RuleAddView, r: RuleView) -> bool {
    &&& a.rule_id == r.id
    &&& a.interface_name == r.interface_name
    &&& a.direction == text::uppercase(r.direction)
    &&& a.params_json == vstd::utf8::encode_utf8(json::printed_json(add_rule::add_rule_json(r)))
}

/// Whether one of the messages adds a rule.
pub open spec fn is_added(adds: Seq<RuleAddView>, r: RuleView) -> bool {
    exists|k: int| 0 <= k < adds.len() && adds_rule(#[trigger] adds[k], r)
}

/// Whether a message adds one of the rules that an agent does not report.
pub open spec fn adds_lacking(
    a: RuleAddView,
    desired: Seq<RuleView>,
    reported: Seq<PersistedRule>,
) -> bool {
    exists|i: int|
        0 <= i < desired.len() && adds_rule(a, #[trigger] desired[i]) && !reports_id(
            reported,
            desired[i].id,
        )
}

/// A delta adds just the wanted rules that the agent does not report, each as the rule is,
/// and deletes just the reported rules that are not wanted. It changes nothing else, and
/// does not make the agent start anew.
pub proof fn delta_is_exact(
    d: DeltaView,
    desired: Seq<RuleView>,
    reported: Seq<PersistedRule>,
)
    requires
        forall|i: int| 0 <= i < desired.len() ==> plain_id((#[trigger] desired[i]).id),
        d == (DeltaView {
            rules_to_add: super::delta_adds(desired, reported),
            rule_ids_to_delete: d.rule_ids_to_delete,
            ..super::no_delta()
        }),
        super::are_surplus(d.rule_ids_to_delete, desired, reported),
    ensures
        forall|i: int|
            0 <= i < desired.len() ==> (is_added(d.rules_to_add, #[trigger] desired[i])
                <== !reports_id(reported, desired[i].id)),
        forall|k: int|
            0 <= k < d.rules_to_add.len() ==> adds_lacking(
                #[trigger] d.rules_to_add[k],
                desired,
                reported,
            ),
        forall|j: int|
            0 <= j < reported.len() ==> (d.rule_ids_to_delete.contains(
                text::decimal((#[trigger] reported[j]).id as nat),
            ) <==> !has_id(desired, text::decimal(reported[j].id as nat))),
        forall|t: Seq<char>| #[trigger]
            d.rule_ids_to_delete.contains(t) ==> reports_id(reported, t),
        !d.is_full_restore,
        d.per_interface_default_actions.dom() =~= Set::<Seq<char>>::empty(),
        d.generation_id.len() == 0,
        d.confirm_deadline_ms == 0,
        d.stop_behavior.len() == 0,
{
    let keep = |r: RuleView| super::lacks(reported, r);
    let kept = desired.filter(keep);
    let adds = d.rules_to_add;
    assert(adds == super::rule_adds(kept));
    assert forall|i: int| 0 <= i < desired.len() && !reports_id(reported, desired[i].id) implies
        is_added(adds, #[trigger] desired[i]) by {
        lemma_lacks_id(reported, desired[i]);
        assert(keep(desired[i]));
        desired.lemma_filter_contains(keep, i);
        let k = choose|k: int| 0 <= k < kept.len() && kept[k] == desired[i];
        assert(adds[k] == super::rule_add(desired[i]));
    }
    assert forall|k: int| 0 <= k < adds.len() implies adds_lacking(
        #[trigger] adds[k],
        desired,
        reported,
    ) by {
        desired.lemma_filter_pred(keep, k);
        assert(kept.contains(kept[k]));
        desired.lemma_filter_contains_rev(keep, kept[k]);
        let i = choose|i: int| 0 <= i < desired.len() && desired[i] == kept[k];
        lemma_lacks_id(reported, desired[i]);
        assert(adds_rule(adds[k], desired[i]));
    }
    assert forall|j: int| 0 <= j < reported.len() implies (d.rule_ids_to_delete.contains(
        text::decimal((#[trigger] reported[j]).id as nat),
    ) <==> !has_id(desired, text::decimal(reported[j].id as nat))) by {
        let t = text::decimal(reported[j].id as nat);
        lemma_desires_id(desired, reported[j].id as nat);
        if d.rule_ids_to_delete.contains(t) {
            let i = choose|i: int|
                {
                    &&& 0 <= i < reported.len()
                    &&& !super::desires(desired, (#[trigger] reported[i]).id as nat)
                    &&& t == text::decimal(reported[i].id as nat)
                };
            lemma_decimal_apart(reported[i].id as nat, reported[j].id as nat);
        }
    }
}

/// A drift names just the rules that one side alone has, and those whose payload on the
/// agent has another content than what is sent for the rule.
pub proof fn drift_is_exact(
    d: RuleDrift,
    db: Seq<RuleView>,
    agent: Seq<PersistedRule>,
)
    requires
        forall|i: int| 0 <= i < db.len() ==> plain_id((#[trigger] db[i]).id),
        forall|i: int, j: int|
            0 <= i < j < db.len() ==> (#[trigger] db[i]).id != (#[trigger] db[j]).id,
        forall|i: int, j: int|
            0 <= i < j < agent.len() ==> (#[trigger] agent[i]).id != (#[trigger] agent[j]).id,
        drift::are_ids_where(d.only_in_db@, db, |n: nat| drift::only_in_db(db, agent, n)),
        drift::are_numbers_where(d.only_in_agent@, |n: nat| drift::only_in_agent(db, agent, n)),
        drift::are_ids_where(d.params_mismatch@, db, |n: nat| drift::mismatched(db, agent, n)),
    ensures
        forall|i: int|
            0 <= i < db.len() ==> (text::texts(d.only_in_db@).contains((#[trigger] db[i]).id)
                <==> !reports_id(agent, db[i].id)),
        forall|j: int|
            0 <= j < agent.len() ==> (text::texts(d.only_in_agent@).contains(
                text::decimal((#[trigger] agent[j]).id as nat),
            ) <==> !has_id(db, text::decimal(agent[j].id as nat))),
        forall|i: int, j: int|
            0 <= i < db.len() && 0 <= j < agent.len() && (#[trigger] db[i]).id == text::decimal(
                (#[trigger] agent[j]).id as nat,
            ) ==> (text::texts(d.params_mismatch@).contains(db[i].id) <==> !(
            add_rule::canonical_bytes(agent[j].params_json@) is Some && add_rule::canonical_bytes(
                agent[j].params_json@,
            ) == add_rule::canonical_bytes(
                vstd::utf8::encode_utf8(json::printed_json(add_rule::add_rule_json(db[i]))),
            ))),
{
    let lone = |n: nat| drift::only_in_db(db, agent, n);
    let extra = |n: nat| drift::only_in_agent(db, agent, n);
    let wrong = |n: nat| drift::mismatched(db, agent, n);
    assert forall|i: int| 0 <= i < db.len() implies (text::texts(d.only_in_db@).contains(
        (#[trigger] db[i]).id,
    ) <==> !reports_id(agent, db[i].id)) by {
        let n = choose|n: nat| n <= u64::MAX && db[i].id == #[trigger] text::decimal(n);
        lemma_db_rule(db, i, n);
        lemma_lacks_id(agent, db[i]);
        lemma_plain(db[i], n);
        lemma_agent_at(agent, n);
        assert(lone(n) == !super::reports(agent, n));
        if text::texts(d.only_in_db@).contains(db[i].id) {
            let k = choose|k: nat| #[trigger] lone(k) && drift::db_rule(db, k)->0.id == db[i].id;
            lemma_rule_found(db, k);
            lemma_decimal_apart(k, n);
        }
    }
    assert forall|j: int| 0 <= j < agent.len() implies (text::texts(d.only_in_agent@).contains(
        text::decimal((#[trigger] agent[j]).id as nat),
    ) <==> !has_id(db, text::decimal(agent[j].id as nat))) by {
        let n = agent[j].id as nat;
        lemma_desires_id(db, n);
        lemma_agent_at(agent, n);
        assert(super::reports(agent, n));
        lemma_db_none(db, n);
        assert(extra(n) == !has_id(db, text::decimal(n)));
        if text::texts(d.only_in_agent@).contains(text::decimal(n)) {
            let k = choose|k: nat| #[trigger] extra(k) && text::decimal(k) == text::decimal(n);
            lemma_decimal_apart(k, n);
        }
    }
    assert forall|i: int, j: int|
        0 <= i < db.len() && 0 <= j < agent.len() && (#[trigger] db[i]).id == text::decimal(
            (#[trigger] agent[j]).id as nat,
        ) implies (text::texts(d.params_mismatch@).contains(db[i].id) <==> !(
    add_rule::canonical_bytes(agent[j].params_json@) is Some && add_rule::canonical_bytes(
        agent[j].params_json@,
    ) == add_rule::canonical_bytes(
        vstd::utf8::encode_utf8(json::printed_json(add_rule::add_rule_json(db[i]))),
    ))) by {
        let n = agent[j].id as nat;
        lemma_db_rule(db, i, n);
        lemma_agent_params(agent, j);
        assert(drift::agent_params(agent, n) == Some(agent[j].params_json@));
        assert(wrong(n) == !drift::params_agree(db[i], agent[j].params_json@));
        if text::texts(d.params_mismatch@).contains(db[i].id) {
            let k = choose|k: nat| #[trigger] wrong(k) && drift::db_rule(db, k)->0.id == db[i].id;
            lemma_rule_found(db, k);
            lemma_decimal_apart(k, n);
        }
    }
}

/// The rule of a number, where ids differ.
proof fn lemma_db_rule(db: Seq<RuleView>, i: int, n: nat)
    requires
        0 <= i < db.len(),
        n <= u64::MAX,
        db[i].id == text::decimal(n),
        forall|a: int| 0 <= a < db.len() ==> plain_id((#[trigger] db[a]).id),
        forall|a: int, b: int|
            0 <= a < b < db.len() ==> (#[trigger] db[a]).id != (#[trigger] db[b]).id,
    ensures
        drift::db_rule(db, n) == Some(db[i]),
    decreases db.len(),
{
    let last = db.last();
    assert(db[db.len() - 1] == last);
    lemma_plain(last, n);
    if i < db.len() - 1 {
        let front = db.drop_last();
        assert(db[i].id != db[db.len() - 1].id);
        assert forall|a: int| 0 <= a < front.len() implies plain_id((#[trigger] front[a]).id) by {
            assert(front[a] == db[a]);
        }
        assert forall|a: int, b: int| 0 <= a < b < front.len() implies (#[trigger] front[a]).id != (
        #[trigger] front[b]).id by {
            assert(db[a].id != db[b].id);
        }
        lemma_db_rule(front, i, n);
    }
}

/// The rule that is found for a number has it for its id.
proof fn lemma_rule_found(db: Seq<RuleView>, n: nat)
    requires
        drift::db_rule(db, n) is Some,
        forall|a: int| 0 <= a < db.len() ==> plain_id((#[trigger] db[a]).id),
    ensures
        drift::db_rule(db, n)->0.id == text::decimal(n),
        n <= u64::MAX,
    decreases db.len(),
{
    let last = db.last();
    assert(db[db.len() - 1] == last);
    lemma_plain(last, n);
    if super::rule_number(last) != Some(n) {
        let front = db.drop_last();
        assert forall|a: int| 0 <= a < front.len() implies plain_id((#[trigger] front[a]).id) by {
            assert(front[a] == db[a]);
        }
        lemma_rule_found(front, n);
    }
}

/// No rule is found for a number just where none has it.
proof fn lemma_db_none(db: Seq<RuleView>, n: nat)
    ensures
        drift::db_rule(db, n) is None <==> !super::desires(db, n),
    decreases db.len(),
{
    if db.len() > 0 {
        let front = db.drop_last();
        lemma_db_none(front, n);
        assert(db[db.len() - 1] == db.last());
        if super::desires(front, n) {
            let k = choose|k: int|
                0 <= k < front.len() && super::rule_number(#[trigger] front[k]) == Some(n);
            assert(db[k] == front[k]);
        }
        if super::desires(db, n) && super::rule_number(db.last()) != Some(n) {
            let k = choose|k: int| 0 <= k < db.len() && super::rule_number(#[trigger] db[k]) == Some(n);
            assert(front[k] == db[k]);
        }
    }
}

/// A payload is found for a number just where one is reported.
proof fn lemma_agent_at(agent: Seq<PersistedRule>, n: nat)
    ensures
        drift::agent_params(agent, n) is Some <==> super::reports(agent, n),
    decreases agent.len(),
{
    if agent.len() > 0 {
        let front = agent.drop_last();
        lemma_agent_at(front, n);
        assert(agent[agent.len() - 1] == agent.last());
        if super::reports(front, n) {
            let k = choose|k: int| 0 <= k < front.len() && (#[trigger] front[k]).id == n;
            assert(agent[k] == front[k]);
        }
        if super::reports(agent, n) && agent.last().id != n {
            let k = choose|k: int| 0 <= k < agent.len() && (#[trigger] agent[k]).id == n;
            assert(front[k] == agent[k]);
        }
    }
}

/// The payload of a number, where numbers differ.
proof fn lemma_agent_params(agent: Seq<PersistedRule>, j: int)
    requires
        0 <= j < agent.len(),
        forall|a: int, b: int|
            0 <= a < b < agent.len() ==> (#[trigger] agent[a]).id != (#[trigger] agent[b]).id,
    ensures
        drift::agent_params(agent, agent[j].id as nat) == Some(agent[j].params_json@),
    decreases agent.len(),
{
    assert(agent[agent.len() - 1] == agent.last());
    if j < agent.len() - 1 {
        let front = agent.drop_last();
        assert(agent[j].id != agent[agent.len() - 1].id);
        assert forall|a: int, b: int| 0 <= a < b < front.len() implies (#[trigger] front[a]).id != (
        #[trigger] front[b]).id by {
            assert(agent[a].id != agent[b].id);
        }
        lemma_agent_params(front, j);
        assert(front[j] == agent[j]);
    }
}

} // verus!
