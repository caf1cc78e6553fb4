//! Where the controller's records and the agent's state disagree.

use super::{add_rule, number_of, reported_from, desired_from};
use crate::order::{self, Ranked};
use crate::proto::{PersistedRule, StateSnapshot};
use crate::store::records::{self, InterfaceView, RuleView};
use crate::store::{self, NodeInterface, Rule};
use crate::strmap::{self, StrMap};
use crate::text;
use vstd::prelude::*;

verus! {

broadcast use vstd::string::group_string_axioms;

/// Result of comparing the controller DB's desired rule set with the rules
/// the agent actually has loaded (per its [`StateSnapshot`]).
///
/// All vectors hold rule IDs (as strings) sorted ascending for determinism.
#[derive(Debug)]
pub struct RuleDrift {
    /// Rule IDs present in the controller DB but missing from the agent.
    pub only_in_db: Vec<String>,
    /// Rule IDs present in the agent's snapshot but with no DB row.
    pub only_in_agent: Vec<String>,
    /// Rule IDs present on both sides whose canonicalized `AddRuleInput`
    /// payloads do not match.
    pub params_mismatch: Vec<String>,
}

impl RuleDrift {
    /// True when the DB and agent agree on every rule and its content.
    pub fn is_clean(&self) -> (r: bool)
        ensures
            r == (self.only_in_db@.len() == 0 && self.only_in_agent@.len() == 0
                && self.params_mismatch@.len() == 0),
    {
        self.only_in_db.is_empty() && self.only_in_agent.is_empty()
            && self.params_mismatch.is_empty()
    }
}

/// The last of the rules that have the number.
pub open spec fn db_rule(rules: Seq<RuleView>, n: nat) -> Option<RuleView>
    decreases rules.len(),
{
    if rules.len() == 0 {
        None
    } else if super::rule_number(rules.last()) == Some(n) {
        Some(rules.last())
    } else {
        db_rule(rules.drop_last(), n)
    }
}

/// The payload of the last of the reported rules that have the number.
pub open spec fn agent_params(rules: Seq<PersistedRule>, n: nat) -> Option<Seq<u8>>
    decreases rules.len(),
{
    if rules.len() == 0 {
        None
    } else if rules.last().id == n {
        Some(rules.last().params_json@)
    } else {
        agent_params(rules.drop_last(), n)
    }
}

/// Whether a payload has the content of a rule: both have a canonical form, and it
/// is the same.
pub open spec fn params_agree(r: RuleView, params: Seq<u8>) -> bool {
    let want = add_rule::canonical_bytes(super::rule_params(r));
    want is Some && add_rule::canonical_bytes(params) == want
}

/// Whether the rule of that number is in the records alone.
pub open spec fn only_in_db(db: Seq<RuleView>, agent: Seq<PersistedRule>, n: nat) -> bool {
    db_rule(db, n) is Some && agent_params(agent, n) is None
}

/// Whether the rule of that number is in the snapshot alone.
pub open spec fn only_in_agent(db: Seq<RuleView>, agent: Seq<PersistedRule>, n: nat) -> bool {
    db_rule(db, n) is None && agent_params(agent, n) is Some
}

/// Whether the rule of that number is on both sides with different content.
pub open spec fn mismatched(db: Seq<RuleView>, agent: Seq<PersistedRule>, n: nat) -> bool {
    db_rule(db, n) matches Some(r) && agent_params(agent, n) matches Some(p) && !params_agree(r, p)
}

/// The ids, each once and in order, of the recorded rules whose number fulfils a
/// condition.
pub open spec fn are_ids_where(
    ids: Seq<String>,
    db: Seq<RuleView>,
    holds: spec_fn(nat) -> bool,
) -> bool {
    &&& order::is_ordered(ids)
    &&& text::texts(ids).no_duplicates()
    &&& forall|t: Seq<char>| #[trigger]
        text::texts(ids).contains(t) <==> exists|n: nat| #[trigger]
            holds(n) && db_rule(db, n)->0.id == t
}

/// The numbers, each once and in the order of their notation, that fulfil a
/// condition.
pub open spec fn are_numbers_where(ids: Seq<String>, holds: spec_fn(nat) -> bool) -> bool {
    &&& order::is_ordered(ids)
    &&& text::texts(ids).no_duplicates()
    &&& forall|t: Seq<char>| #[trigger]
        text::texts(ids).contains(t) <==> exists|n: nat| #[trigger]
            holds(n) && text::decimal(n) == t
}

/// A rule behind which no other has its number is the one that counts.
proof fn lemma_last_rule(rules: Seq<RuleView>, i: int, n: nat)
    requires
        0 <= i < rules.len(),
        super::rule_number(rules[i]) == Some(n),
        !super::desires(rules.skip(i + 1), n),
    ensures
        db_rule(rules, n) == Some(rules[i]),
    decreases rules.len(),
{
    if i < rules.len() - 1 {
        let tail = rules.skip(i + 1);
        assert(tail[tail.len() - 1] == rules.last());
        assert(super::rule_number(rules.last()) != Some(n));
        let front = rules.drop_last();
        assert(!super::desires(front.skip(i + 1), n)) by {
            if super::desires(front.skip(i + 1), n) {
                let k = choose|k: int|
                    0 <= k < front.skip(i + 1).len() && super::rule_number(
                        #[trigger] front.skip(i + 1)[k],
                    ) == Some(n);
                assert(tail[k] == front.skip(i + 1)[k]);
            }
        }
        lemma_last_rule(front, i, n);
    }
}

/// The rule that counts is one behind which no other has its number.
proof fn lemma_rule_at(rules: Seq<RuleView>, n: nat) -> (i: int)
    ensures
        db_rule(rules, n) is None ==> !super::desires(rules, n),
        db_rule(rules, n) is Some ==> 0 <= i < rules.len() && rules[i] == db_rule(rules, n)->0
            && super::rule_number(rules[i]) == Some(n) && !super::desires(rules.skip(i + 1), n),
    decreases rules.len(),
{
    if rules.len() == 0 {
        0
    } else if super::rule_number(rules.last()) == Some(n) {
        rules.len() - 1
    } else {
        let front = rules.drop_last();
        let i = lemma_rule_at(front, n);
        if db_rule(rules, n) is None {
            assert(!super::desires(rules, n)) by {
                if super::desires(rules, n) {
                    let k = choose|k: int|
                        0 <= k < rules.len() && super::rule_number(#[trigger] rules[k]) == Some(n);
                    assert(front[k] == rules[k]);
                }
            }
        } else {
            let tail = rules.skip(i + 1);
            assert(!super::desires(tail, n)) by {
                if super::desires(tail, n) {
                    let k = choose|k: int|
                        0 <= k < tail.len() && super::rule_number(#[trigger] tail[k]) == Some(n);
                    if k < tail.len() - 1 {
                        assert(front.skip(i + 1)[k] == tail[k]);
                    } else {
                        assert(tail[k] == rules.last());
                    }
                }
            }
        }
        i
    }
}

/// The same of reported rules.
proof fn lemma_last_report(rules: Seq<PersistedRule>, i: int, n: nat)
    requires
        0 <= i < rules.len(),
        rules[i].id == n,
        !super::reports(rules.skip(i + 1), n),
    ensures
        agent_params(rules, n) == Some(rules[i].params_json@),
    decreases rules.len(),
{
    if i < rules.len() - 1 {
        let tail = rules.skip(i + 1);
        assert(tail[tail.len() - 1] == rules.last());
        assert(rules.last().id != n);
        let front = rules.drop_last();
        assert(!super::reports(front.skip(i + 1), n)) by {
            if super::reports(front.skip(i + 1), n) {
                let k = choose|k: int|
                    0 <= k < front.skip(i + 1).len() && (#[trigger] front.skip(i + 1)[k]).id == n;
                assert(tail[k] == front.skip(i + 1)[k]);
            }
        }
        lemma_last_report(front, i, n);
    }
}

/// The same of reported rules.
proof fn lemma_report_at(rules: Seq<PersistedRule>, n: nat) -> (i: int)
    ensures
        agent_params(rules, n) is None ==> !super::reports(rules, n),
        agent_params(rules, n) is Some ==> 0 <= i < rules.len() && rules[i].id == n
            && rules[i].params_json@ == agent_params(rules, n)->0 && !super::reports(
            rules.skip(i + 1),
            n,
        ),
    decreases rules.len(),
{
    if rules.len() == 0 {
        0
    } else if rules.last().id == n {
        rules.len() - 1
    } else {
        let front = rules.drop_last();
        let i = lemma_report_at(front, n);
        if agent_params(rules, n) is None {
            assert(!super::reports(rules, n)) by {
                if super::reports(rules, n) {
                    let k = choose|k: int| 0 <= k < rules.len() && (#[trigger] rules[k]).id == n;
                    assert(front[k] == rules[k]);
                }
            }
        } else {
            let tail = rules.skip(i + 1);
            assert(!super::reports(tail, n)) by {
                if super::reports(tail, n) {
                    let k = choose|k: int| 0 <= k < tail.len() && (#[trigger] tail[k]).id == n;
                    if k < tail.len() - 1 {
                        assert(front.skip(i + 1)[k] == tail[k]);
                    } else {
                        assert(tail[k] == rules.last());
                    }
                }
            }
        }
        i
    }
}

/// The place of the payload that counts.
fn find_report(rules: &Vec<PersistedRule>, n: u64) -> (r: Option<usize>)
    ensures
        match r {
            Some(i) => i < rules@.len() && agent_params(rules@, n as nat) == Some(
                rules@[i as int].params_json@,
            ),
            None => agent_params(rules@, n as nat) is None,
        },
{
    let mut i: usize = 0;
    while i < rules.len()
        invariant
            i <= rules@.len(),
            forall|j: int|
                0 <= j < i ==> (#[trigger] rules@[j]).id != n || super::reports(
                    rules@.skip(j + 1),
                    n as nat,
                ),
        decreases rules@.len() - i,
    {
        if rules[i].id == n && !reported_from(rules, i + 1, n) {
            proof {
                lemma_last_report(rules@, i as int, n as nat);
            }
            return Some(i);
        }
        i = i + 1;
    }
    proof {
        let k = lemma_report_at(rules@, n as nat);
        if agent_params(rules@, n as nat) is Some {
            assert(rules@[k].id == n);
        }
    }
    None
}

/// Whether a payload has the content of a rule.
fn agree(rule: &Rule, params: &Vec<u8>) -> (r: bool)
    ensures
        r == params_agree(rule@, params@),
{
    let built = super::build_add_rule_json(rule);
    match (
        super::canonicalize_add_rule_json(built.as_str().as_bytes()),
        super::canonicalize_add_rule_json(params.as_slice()),
    ) {
        (Ok(a), Ok(b)) => records::same_bytes(a.as_slice(), b.as_slice()),
        _ => false,
    }
}

/// Compare the controller DB's desired rule set for a node against the
/// agent's [`StateSnapshot`]. Of rules with the same number the last one counts.
pub fn compute_drift(db_rules: &[Rule], snapshot: &StateSnapshot) -> (d: RuleDrift)
    ensures
        are_ids_where(
            d.only_in_db@,
            store::rule_views(db_rules@),
            |n: nat| only_in_db(store::rule_views(db_rules@), snapshot.rules@, n),
        ),
        are_numbers_where(
            d.only_in_agent@,
            |n: nat| only_in_agent(store::rule_views(db_rules@), snapshot.rules@, n),
        ),
        are_ids_where(
            d.params_mismatch@,
            store::rule_views(db_rules@),
            |n: nat| mismatched(store::rule_views(db_rules@), snapshot.rules@, n),
        ),
{
    let ghost db = store::rule_views(db_rules@);
    let ghost agent = snapshot.rules@;
    let ghost lone = |n: nat| only_in_db(db, agent, n);
    let ghost wrong = |n: nat| mismatched(db, agent, n);
    let mut only_in_db: Vec<String> = Vec::new();
    let mut params_mismatch: Vec<String> = Vec::new();
    let mut i: usize = 0;
    assert(text::texts(only_in_db@) =~= Seq::<Seq<char>>::empty());
    assert(text::texts(params_mismatch@) =~= Seq::<Seq<char>>::empty());
    while i < db_rules.len()
        invariant
            i <= db_rules@.len(),
            db == store::rule_views(db_rules@),
            agent == snapshot.rules@,
            lone == (|n: nat| self::only_in_db(db, agent, n)),
            wrong == (|n: nat| mismatched(db, agent, n)),
            text::texts(only_in_db@).no_duplicates(),
            text::texts(params_mismatch@).no_duplicates(),
            forall|t: Seq<char>| #[trigger]
                text::texts(only_in_db@).contains(t) <==> exists|k: int|
                    0 <= k < i && counts_with(db, #[trigger] db[k], k, t, lone),
            forall|t: Seq<char>| #[trigger]
                text::texts(params_mismatch@).contains(t) <==> exists|k: int|
                    0 <= k < i && counts_with(db, #[trigger] db[k], k, t, wrong),
        decreases db_rules@.len() - i,
    {
        let ghost lone_before = text::texts(only_in_db@);
        let ghost wrong_before = text::texts(params_mismatch@);
        assert(db[i as int] == db_rules@[i as int]@);
        match number_of(&db_rules[i]) {
            Some(n) => {
                if !desired_from(db_rules, i + 1, n) {
                    proof {
                        lemma_last_rule(db, i as int, n as nat);
                    }
                    match find_report(&snapshot.rules, n) {
                        None => {
                            assert(lone(n as nat));
                            assert(!wrong(n as nat));
                            text::add_once(&mut only_in_db, db_rules[i].id.as_str());
                        },
                        Some(j) => {
                            assert(!lone(n as nat));
                            if !agree(&db_rules[i], &snapshot.rules[j].params_json) {
                                assert(wrong(n as nat));
                                text::add_once(&mut params_mismatch, db_rules[i].id.as_str());
                            } else {
                                assert(!wrong(n as nat));
                            }
                        },
                    }
                }
            },
            None => {},
        }
        proof {
            lemma_counts_on(db, i as int, lone, lone_before, text::texts(only_in_db@));
            lemma_counts_on(db, i as int, wrong, wrong_before, text::texts(params_mismatch@));
        }
        i = i + 1;
    }
    proof {
        lemma_counted(db, lone, text::texts(only_in_db@));
        lemma_counted(db, wrong, text::texts(params_mismatch@));
    }
    let only_in_agent = unrecorded(db_rules, &snapshot.rules);
    proof {
        order::in_order_sorts(only_in_db@);
        order::lemma_strings_sorted(only_in_db@);
        order::in_order_sorts(only_in_agent@);
        order::lemma_strings_sorted(only_in_agent@);
        order::in_order_sorts(params_mismatch@);
        order::lemma_strings_sorted(params_mismatch@);
        let extra = |n: nat| self::only_in_agent(db, agent, n);
        let ids = text::texts(order::in_order(only_in_agent@));
        assert forall|t: Seq<char>| #[trigger]
            ids.contains(t) <==> exists|n: nat| #[trigger] extra(n) && text::decimal(n) == t by {
            if exists|n: nat| #[trigger]
                self::only_in_agent(db, agent, n) && text::decimal(n) == t {
                let n = choose|n: nat| #[trigger]
                    self::only_in_agent(db, agent, n) && text::decimal(n) == t;
                assert(extra(n));
            }
            if exists|n: nat| #[trigger] extra(n) && text::decimal(n) == t {
                let n = choose|n: nat| #[trigger] extra(n) && text::decimal(n) == t;
                assert(self::only_in_agent(db, agent, n));
            }
        }
    }
    RuleDrift {
        only_in_db: order::sort(only_in_db),
        only_in_agent: order::sort(only_in_agent),
        params_mismatch: order::sort(params_mismatch),
    }
}

/// Whether the rule at a place is the last of its number, its number fulfils a
/// condition, and `t` is its id.
spec fn counts_with(
    db: Seq<RuleView>,
    r: RuleView,
    k: int,
    t: Seq<char>,
    holds: spec_fn(nat) -> bool,
) -> bool {
    &&& super::rule_number(r) is Some
    &&& !super::desires(db.skip(k + 1), super::rule_number(r)->0)
    &&& holds(super::rule_number(r)->0)
    &&& r.id == t
}

/// One more rule has been looked at.
proof fn lemma_counts_on(
    db: Seq<RuleView>,
    i: int,
    holds: spec_fn(nat) -> bool,
    before: Seq<Seq<char>>,
    after: Seq<Seq<char>>,
)
    requires
        0 <= i < db.len(),
        forall|t: Seq<char>| #[trigger]
            before.contains(t) <==> exists|k: int|
                0 <= k < i && counts_with(db, #[trigger] db[k], k, t, holds),
        forall|t: Seq<char>| #[trigger]
            after.contains(t) == (before.contains(t) || counts_with(db, db[i], i, t, holds)),
    ensures
        forall|t: Seq<char>| #[trigger]
            after.contains(t) <==> exists|k: int|
                0 <= k < i + 1 && counts_with(db, #[trigger] db[k], k, t, holds),
{
    assert forall|t: Seq<char>| #[trigger]
        after.contains(t) <==> exists|k: int|
            0 <= k < i + 1 && counts_with(db, #[trigger] db[k], k, t, holds) by {
        if before.contains(t) {
            let k = choose|k: int| 0 <= k < i && counts_with(db, #[trigger] db[k], k, t, holds);
            assert(counts_with(db, db[k], k, t, holds));
        }
    }
}

/// All rules have been looked at.
proof fn lemma_counted(db: Seq<RuleView>, holds: spec_fn(nat) -> bool, ids: Seq<Seq<char>>)
    requires
        forall|n: nat| #[trigger] holds(n) ==> db_rule(db, n) is Some,
        forall|t: Seq<char>| #[trigger]
            ids.contains(t) <==> exists|k: int|
                0 <= k < db.len() && counts_with(db, #[trigger] db[k], k, t, holds),
    ensures
        forall|t: Seq<char>| #[trigger]
            ids.contains(t) <==> exists|n: nat| #[trigger] holds(n) && db_rule(db, n)->0.id == t,
{
    assert forall|t: Seq<char>| #[trigger]
        ids.contains(t) <==> exists|n: nat| #[trigger] holds(n) && db_rule(db, n)->0.id == t by {
        if ids.contains(t) {
            let k = choose|k: int|
                0 <= k < db.len() && counts_with(db, #[trigger] db[k], k, t, holds);
            let n = super::rule_number(db[k])->0;
            lemma_last_rule(db, k, n);
            assert(holds(n));
        }
        if exists|n: nat| #[trigger] holds(n) && db_rule(db, n)->0.id == t {
            let n = choose|n: nat| #[trigger] holds(n) && db_rule(db, n)->0.id == t;
            let k = lemma_rule_at(db, n);
            assert(counts_with(db, db[k], k, t, holds));
        }
    }
}

/// The numbers of the reported rules that are not recorded, each once.
fn unrecorded(db_rules: &[Rule], reported: &Vec<PersistedRule>) -> (v: Vec<String>)
    ensures
        text::texts(v@).no_duplicates(),
        forall|t: Seq<char>| #[trigger]
            text::texts(v@).contains(t) <==> exists|n: nat|
                #[trigger] only_in_agent(store::rule_views(db_rules@), reported@, n)
                    && text::decimal(n) == t,
{
    let ghost db = store::rule_views(db_rules@);
    let v = super::surplus_ids(db_rules, reported);
    proof {
        assert forall|t: Seq<char>| #[trigger]
            text::texts(v@).contains(t) <==> exists|n: nat|
                #[trigger] only_in_agent(db, reported@, n) && text::decimal(n) == t by {
            if text::texts(v@).contains(t) {
                let i = choose|i: int|
                    {
                        &&& 0 <= i < reported@.len()
                        &&& !super::desires(db, (#[trigger] reported@[i]).id as nat)
                        &&& t == text::decimal(reported@[i].id as nat)
                    };
                let n = reported@[i].id as nat;
                let a = lemma_rule_at(db, n);
                let b = lemma_report_at(reported@, n);
                assert(super::reports(reported@, n));
                assert(only_in_agent(db, reported@, n));
            }
            if exists|n: nat| #[trigger]
                only_in_agent(db, reported@, n) && text::decimal(n) == t {
                let n = choose|n: nat| #[trigger]
                    only_in_agent(db, reported@, n) && text::decimal(n) == t;
                let a = lemma_rule_at(db, n);
                let b = lemma_report_at(reported@, n);
                assert(!super::desires(db, reported@[b].id as nat));
            }
        }
    }
    v
}

/// An agent that holds exactly what was sent for a rule does not disagree on it,
/// where the payload reads back as it was written.
pub proof fn sent_rule_agrees(r: RuleView)
    requires
        crate::json::json_of_text(crate::json::printed_json(add_rule::add_rule_json(r)))
            == crate::json::Parsed::Value(add_rule::add_rule_json(r)),
    ensures
        params_agree(r, super::rule_params(r)),
{
}

/// Drift between the controller DB's per-interface default actions and what
/// the agent currently has loaded. Keys are the snapshot's
/// `"interface:direction"` form (e.g. `"eth0:ingress"`).
#[derive(Debug)]
pub struct DefaultActionDrift {
    /// `(key, db_value)` for entries present in the DB but missing from
    /// the snapshot's `per_interface_default_actions`.
    pub only_in_db: Vec<(String, String)>,
    /// `(key, agent_value)` for entries present in the snapshot but with
    /// no DB-side default action recorded.
    pub only_in_agent: Vec<(String, String)>,
    /// `(key, db_value, agent_value)` for entries present on both sides
    /// whose values differ.
    pub mismatch: Vec<(String, String, String)>,
}

impl DefaultActionDrift {
    /// True when both sides agree on every default action.
    pub fn is_clean(&self) -> (r: bool)
        ensures
            r == (self.only_in_db@.len() == 0 && self.only_in_agent@.len() == 0
                && self.mismatch@.len() == 0),
    {
        self.only_in_db.is_empty() && self.only_in_agent.is_empty() && self.mismatch.is_empty()
    }
}

/// The defaults with one more, if there is one.
pub open spec fn with_default(
    m: Map<Seq<char>, Seq<char>>,
    key: Seq<char>,
    action: Option<Seq<char>>,
) -> Map<Seq<char>, Seq<char>> {
    match action {
        Some(a) => m.insert(key, a),
        None => m,
    }
}

/// The recorded default actions by interface and direction.
pub open spec fn db_defaults(interfaces: Seq<InterfaceView>) -> Map<Seq<char>, Seq<char>>
    decreases interfaces.len(),
{
    if interfaces.len() == 0 {
        Map::empty()
    } else {
        let i = interfaces.last();
        with_default(
            with_default(
                db_defaults(interfaces.drop_last()),
                i.name + ":ingress"@,
                i.ingress_default_action,
            ),
            i.name + ":egress"@,
            i.egress_default_action,
        )
    }
}

/// Sets a default, if there is one.
fn put_default(m: &mut StrMap<String>, key: String, action: &Option<String>)
    ensures
        strmap::texts(final(m)@) == with_default(
            strmap::texts(old(m)@),
            key@,
            text::opt_text(*action),
        ),
{
    match action {
        Some(a) => {
            let copy = a.clone();
            m.insert(key, copy);
            assert(strmap::texts(m@) =~= strmap::texts(old(m)@).insert(key@, copy@));
        },
        None => {},
    }
}

/// The recorded default actions by interface and direction.
pub fn defaults_map(interfaces: &[NodeInterface]) -> (m: StrMap<String>)
    ensures
        strmap::texts(m@) == db_defaults(store::interface_views(interfaces@)),
{
    let ghost views = store::interface_views(interfaces@);
    let mut m: StrMap<String> = StrMap::new();
    let mut i: usize = 0;
    assert(views.take(0) =~= Seq::<InterfaceView>::empty());
    assert(strmap::texts(m@) =~= Map::<Seq<char>, Seq<char>>::empty());
    while i < interfaces.len()
        invariant
            i <= interfaces@.len(),
            views == store::interface_views(interfaces@),
            strmap::texts(m@) == db_defaults(views.take(i as int)),
        decreases interfaces@.len() - i,
    {
        proof {
            assert(views.take(i + 1).drop_last() =~= views.take(i as int));
            assert(views.take(i + 1).last() == views[i as int]);
        }
        let iface = &interfaces[i];
        put_default(
            &mut m,
            text::concat2(iface.name.as_str(), ":ingress"),
            &iface.ingress_default_action,
        );
        put_default(
            &mut m,
            text::concat2(iface.name.as_str(), ":egress"),
            &iface.egress_default_action,
        );
        i = i + 1;
    }
    assert(views.take(i as int) =~= views);
    m
}

/// Pairs stand in the order of their first and then their second text.
impl Ranked for (String, String) {
    open spec fn ranked(a: (String, String), b: (String, String)) -> bool {
        if a.0@ == b.0@ {
            text::at_most(a.1@, b.1@)
        } else {
            text::at_most(a.0@, b.0@)
        }
    }

    proof fn ranked_total(a: (String, String), b: (String, String)) {
        text::at_most_total(a.0@, b.0@);
        text::at_most_total(a.1@, b.1@);
    }

    proof fn ranked_transitive(a: (String, String), b: (String, String), c: (String, String)) {
        if a.0@ == b.0@ && b.0@ == c.0@ {
            text::at_most_transitive(a.1@, b.1@, c.1@);
        } else if a.0@ != b.0@ && b.0@ != c.0@ {
            text::at_most_transitive(a.0@, b.0@, c.0@);
            if a.0@ == c.0@ {
                text::at_most_antisymmetric(a.0@, b.0@);
            }
        }
    }

    fn may_precede(&self, other: &(String, String)) -> (r: bool) {
        if text::same(self.0.as_str(), other.0.as_str()) {
            text::is_at_most(self.1.as_str(), other.1.as_str())
        } else {
            text::is_at_most(self.0.as_str(), other.0.as_str())
        }
    }
}

/// Triples stand in the order of their first, second and third text.
impl Ranked for (String, String, String) {
    open spec fn ranked(a: (String, String, String), b: (String, String, String)) -> bool {
        if a.0@ == b.0@ {
            <(String, String) as Ranked>::ranked((a.1, a.2), (b.1, b.2))
        } else {
            text::at_most(a.0@, b.0@)
        }
    }

    proof fn ranked_total(a: (String, String, String), b: (String, String, String)) {
        text::at_most_total(a.0@, b.0@);
        <(String, String) as Ranked>::ranked_total((a.1, a.2), (b.1, b.2));
    }

    proof fn ranked_transitive(
        a: (String, String, String),
        b: (String, String, String),
        c: (String, String, String),
    ) {
        if a.0@ == b.0@ && b.0@ == c.0@ {
            <(String, String) as Ranked>::ranked_transitive((a.1, a.2), (b.1, b.2), (c.1, c.2));
        } else if a.0@ != b.0@ && b.0@ != c.0@ {
            text::at_most_transitive(a.0@, b.0@, c.0@);
            if a.0@ == c.0@ {
                text::at_most_antisymmetric(a.0@, b.0@);
            }
        }
    }

    fn may_precede(&self, other: &(String, String, String)) -> (r: bool) {
        if text::same(self.0.as_str(), other.0.as_str()) {
            if text::same(self.1.as_str(), other.1.as_str()) {
                text::is_at_most(self.2.as_str(), other.2.as_str())
            } else {
                text::is_at_most(self.1.as_str(), other.1.as_str())
            }
        } else {
            text::is_at_most(self.0.as_str(), other.0.as_str())
        }
    }
}

/// Whether the pairs are, each once and in order, the entries of `m` whose keys
/// `other` lacks.
pub open spec fn are_missing_from(
    pairs: Seq<(String, String)>,
    m: Map<Seq<char>, Seq<char>>,
    other: Map<Seq<char>, Seq<char>>,
) -> bool {
    &&& order::is_ordered(pairs)
    &&& forall|i: int, j: int|
        0 <= i < j < pairs.len() ==> (#[trigger] pairs[i]).0@ != (#[trigger] pairs[j]).0@
    &&& forall|i: int|
        0 <= i < pairs.len() ==> m.contains_key((#[trigger] pairs[i]).0@) && m[pairs[i].0@]
            == pairs[i].1@ && !other.contains_key(pairs[i].0@)
    &&& forall|k: Seq<char>| #[trigger]
        m.contains_key(k) && !other.contains_key(k) ==> exists|i: int|
            0 <= i < pairs.len() && (#[trigger] pairs[i]).0@ == k
}

/// Whether the triples are, each once and in order, the keys on which the maps
/// differ.
pub open spec fn are_differences(
    triples: Seq<(String, String, String)>,
    m: Map<Seq<char>, Seq<char>>,
    other: Map<Seq<char>, Seq<char>>,
) -> bool {
    &&& order::is_ordered(triples)
    &&& forall|i: int, j: int|
        0 <= i < j < triples.len() ==> (#[trigger] triples[i]).0@ != (#[trigger] triples[j]).0@
    &&& forall|i: int|
        0 <= i < triples.len() ==> m.contains_key((#[trigger] triples[i]).0@) && other.contains_key(
            triples[i].0@,
        ) && m[triples[i].0@] == triples[i].1@ && other[triples[i].0@] == triples[i].2@
            && triples[i].1@ != triples[i].2@
    &&& forall|k: Seq<char>| #[trigger]
        m.contains_key(k) && other.contains_key(k) && m[k] != other[k] ==> exists|i: int|
            0 <= i < triples.len() && (#[trigger] triples[i]).0@ == k
}

/// The entries whose keys the other map lacks.
fn missing_from(m: &StrMap<String>, other: &StrMap<String>) -> (v: Vec<(String, String)>)
    ensures
        are_missing_from(v@, strmap::texts(m@), strmap::texts(other@)),
{
    let ghost es = m.entries();
    let ghost mm = strmap::texts(m@);
    let ghost mo = strmap::texts(other@);
    let n: usize = m.len();
    let mut v: Vec<(String, String)> = Vec::new();
    let mut i: usize = 0;
    while i < n
        invariant
            i <= n == es.len(),
            es == m.entries(),
            strmap::keys_unique(es),
            m@ == strmap::entries_map(es),
            mm == strmap::texts(m@),
            mo == strmap::texts(other@),
            forall|a: int|
                0 <= a < v@.len() ==> exists|e: int|
                    0 <= e < i && (#[trigger] es[e]).0@ == (#[trigger] v@[a]).0@,
            forall|a: int, b: int|
                0 <= a < b < v@.len() ==> (#[trigger] v@[a]).0@ != (#[trigger] v@[b]).0@,
            forall|a: int|
                0 <= a < v@.len() ==> mm.contains_key((#[trigger] v@[a]).0@) && mm[v@[a].0@]
                    == v@[a].1@ && !mo.contains_key(v@[a].0@),
            forall|e: int|
                0 <= e < i && !mo.contains_key((#[trigger] es[e]).0@) ==> exists|a: int|
                    0 <= a < v@.len() && (#[trigger] v@[a]).0@ == es[e].0@,
        decreases n - i,
    {
        let ghost before = v@;
        let (k, a) = m.at(i);
        let lacking = !other.contains_key(k.as_str());
        if lacking {
            v.push((k.clone(), a.clone()));
        }
        proof {
            let new = before.len() as int;
            assert forall|x: int| 0 <= x < v@.len() implies exists|e: int|
                0 <= e < i + 1 && (#[trigger] es[e]).0@ == (#[trigger] v@[x]).0@ by {
                if x < new {
                    assert(v@[x] == before[x]);
                    let e = choose|e: int| 0 <= e < i && (#[trigger] es[e]).0@ == before[x].0@;
                    assert(es[e].0@ == v@[x].0@);
                } else {
                    assert(es[i as int].0@ == v@[x].0@);
                }
            }
            assert forall|x: int, y: int| 0 <= x < y < v@.len() implies (#[trigger] v@[x]).0@ != (
            #[trigger] v@[y]).0@ by {
                assert(v@[x] == before[x]);
                if y < new {
                    assert(v@[y] == before[y]);
                } else {
                    let e = choose|e: int| 0 <= e < i && (#[trigger] es[e]).0@ == before[x].0@;
                    assert(es[e].0@ != es[i as int].0@);
                }
            }
            assert forall|x: int| 0 <= x < v@.len() implies mm.contains_key((#[trigger] v@[x]).0@)
                && mm[v@[x].0@] == v@[x].1@ && !mo.contains_key(v@[x].0@) by {
                if x < new {
                    assert(v@[x] == before[x]);
                }
            }
            assert forall|e: int|
                0 <= e < i + 1 && !mo.contains_key((#[trigger] es[e]).0@) implies exists|x: int|
                0 <= x < v@.len() && (#[trigger] v@[x]).0@ == es[e].0@ by {
                if e < i {
                    let x = choose|x: int|
                        0 <= x < before.len() && (#[trigger] before[x]).0@ == es[e].0@;
                    assert(v@[x].0@ == es[e].0@);
                } else {
                    assert(v@[new].0@ == es[e].0@);
                }
            }
        }
        i = i + 1;
    }
    proof {
        order::in_order_sorts(v@);
        order::lemma_from_somewhere(v@);
        order::lemma_from_everywhere(v@);
        let s = order::in_order(v@);
        assert forall|x: int, y: int| 0 <= x < y < s.len() implies (#[trigger] s[x]).0@ != (
        #[trigger] s[y]).0@ by {
            let a = order::place_of(v@, x);
            let b = order::place_of(v@, y);
            assert(s[x] == v@[a] && s[y] == v@[b]);
            if a < b {
                assert(v@[a].0@ != v@[b].0@);
            } else {
                assert(v@[b].0@ != v@[a].0@);
            }
        }
        assert forall|x: int| 0 <= x < s.len() implies mm.contains_key((#[trigger] s[x]).0@)
            && mm[s[x].0@] == s[x].1@ && !mo.contains_key(s[x].0@) by {
            let a = order::place_of(v@, x);
            assert(s[x] == v@[a]);
        }
        assert forall|k: Seq<char>| #[trigger]
            mm.contains_key(k) && !mo.contains_key(k) implies exists|x: int|
            0 <= x < s.len() && (#[trigger] s[x]).0@ == k by {
            let e = strmap::key_index(es, k);
            assert(0 <= e < es.len() && es[e].0@ == k);
            let a = choose|a: int| 0 <= a < v@.len() && (#[trigger] v@[a]).0@ == es[e].0@;
            let x = order::found_at(v@, a);
            assert(s[x].0@ == k);
        }
    }
    order::sort(v)
}

/// The keys on which the maps differ.
fn differences(m: &StrMap<String>, other: &StrMap<String>) -> (v: Vec<(String, String, String)>)
    ensures
        are_differences(v@, strmap::texts(m@), strmap::texts(other@)),
{
    let ghost es = m.entries();
    let ghost mm = strmap::texts(m@);
    let ghost mo = strmap::texts(other@);
    let n: usize = m.len();
    let mut v: Vec<(String, String, String)> = Vec::new();
    let mut i: usize = 0;
    while i < n
        invariant
            i <= n == es.len(),
            es == m.entries(),
            strmap::keys_unique(es),
            m@ == strmap::entries_map(es),
            mm == strmap::texts(m@),
            mo == strmap::texts(other@),
            forall|a: int|
                0 <= a < v@.len() ==> exists|e: int|
                    0 <= e < i && (#[trigger] es[e]).0@ == (#[trigger] v@[a]).0@,
            forall|a: int, b: int|
                0 <= a < b < v@.len() ==> (#[trigger] v@[a]).0@ != (#[trigger] v@[b]).0@,
            forall|a: int|
                0 <= a < v@.len() ==> mm.contains_key((#[trigger] v@[a]).0@) && mo.contains_key(
                    v@[a].0@,
                ) && mm[v@[a].0@] == v@[a].1@ && mo[v@[a].0@] == v@[a].2@ && v@[a].1@ != v@[a].2@,
            forall|e: int|
                0 <= e < i && mo.contains_key((#[trigger] es[e]).0@) && mm[es[e].0@]
                    != mo[es[e].0@] ==> exists|a: int|
                    0 <= a < v@.len() && (#[trigger] v@[a]).0@ == es[e].0@,
        decreases n - i,
    {
        let ghost before = v@;
        let (k, a) = m.at(i);
        assert(mm[k@] == a@);
        match other.get(k.as_str()) {
            Some(b) => {
                assert(mo[k@] == b@);
                if !text::same(a.as_str(), b.as_str()) {
                    v.push((k.clone(), a.clone(), b.clone()));
                }
            },
            None => {},
        }
        proof {
            let new = before.len() as int;
            assert forall|x: int| 0 <= x < v@.len() implies exists|e: int|
                0 <= e < i + 1 && (#[trigger] es[e]).0@ == (#[trigger] v@[x]).0@ by {
                if x < new {
                    assert(v@[x] == before[x]);
                    let e = choose|e: int| 0 <= e < i && (#[trigger] es[e]).0@ == before[x].0@;
                    assert(es[e].0@ == v@[x].0@);
                } else {
                    assert(es[i as int].0@ == v@[x].0@);
                }
            }
            assert forall|x: int, y: int| 0 <= x < y < v@.len() implies (#[trigger] v@[x]).0@ != (
            #[trigger] v@[y]).0@ by {
                assert(v@[x] == before[x]);
                if y < new {
                    assert(v@[y] == before[y]);
                } else {
                    let e = choose|e: int| 0 <= e < i && (#[trigger] es[e]).0@ == before[x].0@;
                    assert(es[e].0@ != es[i as int].0@);
                }
            }
            assert forall|x: int| 0 <= x < v@.len() implies mm.contains_key((#[trigger] v@[x]).0@)
                && mo.contains_key(v@[x].0@) && mm[v@[x].0@] == v@[x].1@ && mo[v@[x].0@]
                == v@[x].2@ && v@[x].1@ != v@[x].2@ by {
                if x < new {
                    assert(v@[x] == before[x]);
                }
            }
            assert forall|e: int|
                0 <= e < i + 1 && mo.contains_key((#[trigger] es[e]).0@) && mm[es[e].0@]
                    != mo[es[e].0@] implies exists|x: int|
                0 <= x < v@.len() && (#[trigger] v@[x]).0@ == es[e].0@ by {
                if e < i {
                    let x = choose|x: int|
                        0 <= x < before.len() && (#[trigger] before[x]).0@ == es[e].0@;
                    assert(v@[x].0@ == es[e].0@);
                } else {
                    assert(v@[new].0@ == es[e].0@);
                }
            }
        }
        i = i + 1;
    }
    proof {
        order::in_order_sorts(v@);
        order::lemma_from_somewhere(v@);
        order::lemma_from_everywhere(v@);
        let s = order::in_order(v@);
        assert forall|x: int, y: int| 0 <= x < y < s.len() implies (#[trigger] s[x]).0@ != (
        #[trigger] s[y]).0@ by {
            let a = order::place_of(v@, x);
            let b = order::place_of(v@, y);
            assert(s[x] == v@[a] && s[y] == v@[b]);
            if a < b {
                assert(v@[a].0@ != v@[b].0@);
            } else {
                assert(v@[b].0@ != v@[a].0@);
            }
        }
        assert forall|x: int| 0 <= x < s.len() implies mm.contains_key((#[trigger] s[x]).0@)
            && mo.contains_key(s[x].0@) && mm[s[x].0@] == s[x].1@ && mo[s[x].0@] == s[x].2@
            && s[x].1@ != s[x].2@ by {
            let a = order::place_of(v@, x);
            assert(s[x] == v@[a]);
        }
        assert forall|k: Seq<char>| #[trigger]
            mm.contains_key(k) && mo.contains_key(k) && mm[k] != mo[k] implies exists|x: int|
            0 <= x < s.len() && (#[trigger] s[x]).0@ == k by {
            let e = strmap::key_index(es, k);
            assert(0 <= e < es.len() && es[e].0@ == k);
            let a = choose|a: int| 0 <= a < v@.len() && (#[trigger] v@[a]).0@ == es[e].0@;
            let x = order::found_at(v@, a);
            assert(s[x].0@ == k);
        }
    }
    order::sort(v)
}

/// Compare per-interface default actions recorded in the DB
/// (NodeInterface.{ingress,egress}_default_action) with the snapshot's
/// `per_interface_default_actions` map.
pub fn compute_default_action_drift(db_interfaces: &[NodeInterface], snapshot: &StateSnapshot) -> (d:
    DefaultActionDrift)
    ensures
        are_missing_from(
            d.only_in_db@,
            db_defaults(store::interface_views(db_interfaces@)),
            strmap::texts(snapshot.per_interface_default_actions@),
        ),
        are_missing_from(
            d.only_in_agent@,
            strmap::texts(snapshot.per_interface_default_actions@),
            db_defaults(store::interface_views(db_interfaces@)),
        ),
        are_differences(
            d.mismatch@,
            db_defaults(store::interface_views(db_interfaces@)),
            strmap::texts(snapshot.per_interface_default_actions@),
        ),
{
    let db_map = defaults_map(db_interfaces);
    DefaultActionDrift {
        only_in_db: missing_from(&db_map, &snapshot.per_interface_default_actions),
        only_in_agent: missing_from(&snapshot.per_interface_default_actions, &db_map),
        mismatch: differences(&db_map, &snapshot.per_interface_default_actions),
    }
}

/// The drift of default actions is clean exactly when both sides hold the same.
pub proof fn clean_defaults_are_equal(
    d: DefaultActionDrift,
    db: Map<Seq<char>, Seq<char>>,
    agent: Map<Seq<char>, Seq<char>>,
)
    requires
        are_missing_from(d.only_in_db@, db, agent),
        are_missing_from(d.only_in_agent@, agent, db),
        are_differences(d.mismatch@, db, agent),
    ensures
        (d.only_in_db@.len() == 0 && d.only_in_agent@.len() == 0 && d.mismatch@.len() == 0) <==> (db
            == agent),
{
    if d.only_in_db@.len() == 0 && d.only_in_agent@.len() == 0 && d.mismatch@.len() == 0 {
        assert(db =~= agent) by {
            assert forall|k: Seq<char>| db.contains_key(k) == agent.contains_key(k) by {}
            assert forall|k: Seq<char>| #[trigger] db.contains_key(k) implies db[k] == agent[k] by {
                assert(agent.contains_key(k));
            }
        }
    }
    if db == agent {
        if d.only_in_db@.len() > 0 {
            assert(!agent.contains_key(d.only_in_db@[0].0@));
        }
        if d.only_in_agent@.len() > 0 {
            assert(!db.contains_key(d.only_in_agent@[0].0@));
        }
        if d.mismatch@.len() > 0 {
            assert(d.mismatch@[0].1@ != d.mismatch@[0].2@);
        }
    }
}

/// Drift between the controller's desired stop behavior for a node and what
/// the agent reports. `None` on the DB side means the operator has not
/// configured one (the node uses its compiled-in default), which is
/// treated as compatible with any agent value.
#[derive(Debug)]
pub struct StopBehaviorDrift {
    pub db: Option<String>,
    pub agent: String,
}

impl StopBehaviorDrift {
    /// True when both sides agree, or when the DB has no preference set.
    pub fn is_clean(&self) -> (r: bool)
        ensures
            r == (self.db is None || text::opt_text(self.db) == Some(self.agent@)),
    {
        match &self.db {
            None => true,
            Some(db) => text::same(db.as_str(), self.agent.as_str()),
        }
    }
}

/// Compare the DB's recorded stop behavior with the agent's reported one.
/// An empty `snapshot.stop_behavior` string ("not yet reported") is preserved
/// verbatim so callers can distinguish "agent silent" from a real disagreement.
pub fn compute_stop_behavior_drift(db_stop_behavior: Option<&str>, snapshot: &StateSnapshot) -> (d:
    StopBehaviorDrift)
    ensures
        text::opt_text(d.db) == text::opt_str(db_stop_behavior),
        d.agent@ == snapshot.stop_behavior@,
{
    StopBehaviorDrift {
        db: text::owned_opt(db_stop_behavior),
        agent: snapshot.stop_behavior.clone(),
    }
}

/// Texts with one end are one where they are one with it, and no text with the end of one
/// side is one with the end of the other.
proof fn lemma_sides_differ(a: Seq<char>, b: Seq<char>)
    ensures
        a + ":ingress"@ != b + ":egress"@,
        a + ":ingress"@ == b + ":ingress"@ ==> a == b,
        a + ":egress"@ == b + ":egress"@ ==> a == b,
{
    reveal_strlit(":ingress");
    reveal_strlit(":egress");
    let x = a + ":ingress"@;
    let y = b + ":egress"@;
    if x == y {
        assert(x[x.len() - 7] == 'i');
        assert(y[y.len() - 7] == ':');
    }
    if a + ":ingress"@ == b + ":ingress"@ {
        assert((a + ":ingress"@).len() == a.len() + ":ingress"@.len());
        assert((b + ":ingress"@).len() == b.len() + ":ingress"@.len());
        assert((a + ":ingress"@).take(a.len() as int) =~= a);
        assert((b + ":ingress"@).take(b.len() as int) =~= b);
    }
    if a + ":egress"@ == b + ":egress"@ {
        assert((a + ":egress"@).len() == a.len() + ":egress"@.len());
        assert((b + ":egress"@).len() == b.len() + ":egress"@.len());
        assert((a + ":egress"@).take(a.len() as int) =~= a);
        assert((b + ":egress"@).take(b.len() as int) =~= b);
    }
}

/// Whether defaults hold an action under a key, and just where there is one.
pub open spec fn holds_default(
    m: Map<Seq<char>, Seq<char>>,
    key: Seq<char>,
    action: Option<Seq<char>>,
) -> bool {
    match action {
        Some(a) => m.contains_key(key) && m[key] == a,
        None => !m.contains_key(key),
    }
}

/// Whether a key is that of a side of one of the interfaces which has a default action.
pub open spec fn is_side_with_default(interfaces: Seq<InterfaceView>, key: Seq<char>) -> bool {
    exists|i: int|
        {
            &&& 0 <= i < interfaces.len()
            &&& ((#[trigger] interfaces[i]).ingress_default_action is Some && key
                == interfaces[i].name + ":ingress"@) || (interfaces[i].egress_default_action is Some
                && key == interfaces[i].name + ":egress"@)
        }
}

/// The recorded defaults hold, for each interface and each of its sides by itself, the
/// action of that side where it has one, and nothing else.
pub proof fn each_side_has_its_default(interfaces: Seq<InterfaceView>)
    requires
        forall|i: int, j: int|
            0 <= i < j < interfaces.len() ==> (#[trigger] interfaces[i]).name != (
            #[trigger] interfaces[j]).name,
    ensures
        forall|i: int|
            0 <= i < interfaces.len() ==> holds_default(
                db_defaults(interfaces),
                (#[trigger] interfaces[i]).name + ":ingress"@,
                interfaces[i].ingress_default_action,
            ) && holds_default(
                db_defaults(interfaces),
                interfaces[i].name + ":egress"@,
                interfaces[i].egress_default_action,
            ),
        forall|k: Seq<char>| #[trigger]
            db_defaults(interfaces).contains_key(k) ==> is_side_with_default(interfaces, k),
    decreases interfaces.len(),
{
    if interfaces.len() > 0 {
        let front = interfaces.drop_last();
        let last = interfaces.last();
        let m = db_defaults(front);
        assert(interfaces[interfaces.len() - 1] == last);
        assert forall|i: int, j: int| 0 <= i < j < front.len() implies (#[trigger] front[i]).name
            != (#[trigger] front[j]).name by {
            assert(interfaces[i].name != interfaces[j].name);
        }
        each_side_has_its_default(front);
        lemma_sides_differ(last.name, last.name);
        assert forall|k: Seq<char>| #[trigger] m.contains_key(k) implies is_side_with_default(
            interfaces,
            k,
        ) && k != last.name + ":ingress"@ && k != last.name + ":egress"@ by {
            assert(is_side_with_default(front, k));
            let i = choose|i: int|
                {
                    &&& 0 <= i < front.len()
                    &&& ((#[trigger] front[i]).ingress_default_action is Some && k
                        == front[i].name + ":ingress"@) || (front[i].egress_default_action is Some
                        && k == front[i].name + ":egress"@)
                };
            assert(interfaces[i] == front[i]);
            assert(interfaces[i].name != interfaces[interfaces.len() - 1].name);
            lemma_sides_differ(front[i].name, last.name);
            lemma_sides_differ(last.name, front[i].name);
        }
        assert forall|i: int| 0 <= i < interfaces.len() implies holds_default(
            db_defaults(interfaces),
            (#[trigger] interfaces[i]).name + ":ingress"@,
            interfaces[i].ingress_default_action,
        ) && holds_default(
            db_defaults(interfaces),
            interfaces[i].name + ":egress"@,
            interfaces[i].egress_default_action,
        ) by {
            if i < front.len() {
                assert(front[i] == interfaces[i]);
                assert(interfaces[i].name != interfaces[interfaces.len() - 1].name);
                lemma_sides_differ(front[i].name, last.name);
                lemma_sides_differ(last.name, front[i].name);
            }
        }
    }
}

/// A default action that is on record for a side of an interface, and that the agent does
/// not report, drifts; one that it reports otherwise drifts too, and both values are shown.
/// One that is reported alike does not.
pub proof fn default_of_a_side_drifts(
    interfaces: Seq<InterfaceView>,
    agent: Map<Seq<char>, Seq<char>>,
    d: DefaultActionDrift,
    i: int,
    egress: bool,
)
    requires
        0 <= i < interfaces.len(),
        forall|a: int, b: int|
            0 <= a < b < interfaces.len() ==> (#[trigger] interfaces[a]).name != (
            #[trigger] interfaces[b]).name,
        are_missing_from(d.only_in_db@, db_defaults(interfaces), agent),
        are_missing_from(d.only_in_agent@, agent, db_defaults(interfaces)),
        are_differences(d.mismatch@, db_defaults(interfaces), agent),
    ensures
        ({
            let key = if egress {
                interfaces[i].name + ":egress"@
            } else {
                interfaces[i].name + ":ingress"@
            };
            let action = if egress {
                interfaces[i].egress_default_action
            } else {
                interfaces[i].ingress_default_action
            };
            let lone = exists|k: int|
                0 <= k < d.only_in_db@.len() && (#[trigger] d.only_in_db@[k]).0@ == key
                    && action == Some(d.only_in_db@[k].1@);
            let extra = exists|k: int|
                0 <= k < d.only_in_agent@.len() && (#[trigger] d.only_in_agent@[k]).0@ == key
                    && agent[key] == d.only_in_agent@[k].1@;
            let wrong = exists|k: int|
                0 <= k < d.mismatch@.len() && (#[trigger] d.mismatch@[k]).0@ == key && action
                    == Some(d.mismatch@[k].1@) && agent[key] == d.mismatch@[k].2@;
            &&& lone <==> action is Some && !agent.contains_key(key)
            &&& extra <==> action is None && agent.contains_key(key)
            &&& wrong <==> action is Some && agent.contains_key(key) && agent[key] != action->0
        }),
{
    each_side_has_its_default(interfaces);
    let db = db_defaults(interfaces);
    let key = if egress {
        interfaces[i].name + ":egress"@
    } else {
        interfaces[i].name + ":ingress"@
    };
    assert(interfaces[i].name == interfaces[i].name);
    assert(db.contains_key(key) || !db.contains_key(key));
    assert(agent.contains_key(key) || !agent.contains_key(key));
}

} // verus!
