//! How the rules of a node are replaced where they lie in a table: what to delete, what
//! to write, and what to count.

use super::memory::{self, names_rule};
use super::model::{self, DiffCounts, Replacement};
use super::records::RuleView;
use super::{rule_content_equal, DiffSummary, Rule, StoreError};
use crate::strmap::{self, StrMap};
use crate::text;
use vstd::prelude::*;

verus! {

broadcast use vstd::string::group_string_axioms;

/// What replaces the rules of a node: first the deletions, then the writes in their order.
pub struct ReplacementPlan {
    /// The ids of the rules to delete.
    pub deletes: Vec<String>,
    /// The rules to write, each in place of what is there under its id.
    pub writes: Vec<Rule>,
    pub summary: DiffSummary,
}

/// The rules under their ids; of two with one id the later counts.
pub open spec fn by_id(rules: Seq<RuleView>) -> Map<Seq<char>, RuleView>
    decreases rules.len(),
{
    if rules.len() == 0 {
        Map::empty()
    } else {
        by_id(rules.drop_last()).insert(rules.last().id, rules.last())
    }
}

/// The table after rules were written one after the other.
pub open spec fn written(rules: Map<Seq<char>, RuleView>, writes: Seq<RuleView>) -> Map<
    Seq<char>,
    RuleView,
>
    decreases writes.len(),
{
    if writes.len() == 0 {
        rules
    } else {
        written(rules, writes.drop_last()).insert(writes.last().id, writes.last())
    }
}

/// The table after a plan was carried out.
pub open spec fn carried_out(
    rules: Map<Seq<char>, RuleView>,
    deletes: Set<Seq<char>>,
    writes: Seq<RuleView>,
) -> Map<Seq<char>, RuleView> {
    written(rules.remove_keys(deletes), writes)
}

/// The table without the rules that the new set does not name, and their number.
pub open spec fn cleared(
    rules: Map<Seq<char>, RuleView>,
    node_id: Seq<char>,
    new_rules: Seq<RuleView>,
) -> Replacement {
    let stale = model::stale_rules(rules, node_id, new_rules);
    Replacement {
        rules: rules.remove_keys(stale.dom()),
        counts: DiffCounts { added: 0, updated: 0, deleted: stale.dom().len(), unchanged: 0 },
    }
}

/// The rules of the new set that have to be written: those that their node does not have
/// with their content.
pub open spec fn to_write(p: Replacement, new_rules: Seq<RuleView>) -> Seq<RuleView>
    decreases new_rules.len(),
{
    if new_rules.len() == 0 {
        Seq::empty()
    } else {
        let front = new_rules.drop_last();
        let r = new_rules.last();
        let so_far = model::replace_all(p, front).rules;
        if model::has_own(so_far, r.node_id, r.id) && model::content_equal(so_far[r.id], r) {
            to_write(p, front)
        } else {
            to_write(p, front).push(r)
        }
    }
}

/// Whether a plan replaces the rules of a node.
pub open spec fn plans(
    plan: ReplacementPlan,
    rules: Map<Seq<char>, RuleView>,
    node_id: Seq<char>,
    new_rules: Seq<RuleView>,
) -> bool {
    let p = model::replacement(rules, node_id, new_rules);
    &&& text::texts(plan.deletes@).no_duplicates()
    &&& text::texts(plan.deletes@).to_set() == model::stale_rules(rules, node_id, new_rules).dom()
    &&& super::rule_views(plan.writes@) == to_write(cleared(rules, node_id, new_rules), new_rules)
    &&& carried_out(
        rules,
        text::texts(plan.deletes@).to_set(),
        super::rule_views(plan.writes@),
    ) == p.rules
    &&& plan.summary@ == p.counts
}

/// Writing what has to be written leads where the replacement leads.
proof fn lemma_written(p: Replacement, new_rules: Seq<RuleView>)
    ensures
        model::replace_all(p, new_rules).rules == written(p.rules, to_write(p, new_rules)),
    decreases new_rules.len(),
{
    if new_rules.len() > 0 {
        let front = new_rules.drop_last();
        lemma_written(p, front);
        let ws = to_write(p, front);
        let r = new_rules.last();
        assert(ws.push(r).drop_last() =~= ws);
        assert(ws.push(r).last() == r);
    }
}

/// The rules under their ids, one after the other.
fn table_of(rules: &[Rule]) -> (t: StrMap<Rule>)
    ensures
        memory::held(t@) == by_id(super::rule_views(rules@)),
{
    let ghost views = super::rule_views(rules@);
    let mut t: StrMap<Rule> = StrMap::new();
    let mut i: usize = 0;
    assert(memory::held(t@) =~= by_id(views.take(0)));
    while i < rules.len()
        invariant
            i <= rules@.len(),
            views == super::rule_views(rules@),
            memory::held(t@) == by_id(views.take(i as int)),
        decreases rules@.len() - i,
    {
        let ghost before = t@;
        let copy = rules[i].clone();
        t.insert(rules[i].id.clone(), copy);
        proof {
            memory::lemma_held_insert(before, rules@[i as int].id@, copy);
            assert(views.take(i + 1).drop_last() =~= views.take(i as int));
            assert(views.take(i + 1).last() == views[i as int]);
        }
        i = i + 1;
    }
    assert(views.take(i as int) =~= views);
    t
}

/// The ids of the rules of a node that the new set does not name.
fn stale_ids(table: &StrMap<Rule>, node_id: &str, new_rules: &[Rule]) -> (v: Vec<String>)
    ensures
        text::texts(v@).no_duplicates(),
        text::texts(v@).to_set() == model::stale_rules(
            memory::held(table@),
            node_id@,
            super::rule_views(new_rules@),
        ).dom(),
{
    let ghost stale = model::stale_rules(
        memory::held(table@),
        node_id@,
        super::rule_views(new_rules@),
    );
    let ghost es = table.entries();
    let n: usize = table.len();
    let mut v: Vec<String> = Vec::new();
    let mut i: usize = 0;
    while i < n
        invariant
            i <= n == es.len(),
            es == table.entries(),
            strmap::keys_unique(es),
            table@ == strmap::entries_map(es),
            stale == model::stale_rules(
                memory::held(table@),
                node_id@,
                super::rule_views(new_rules@),
            ),
            text::texts(v@).no_duplicates(),
            forall|k: Seq<char>| #[trigger]
                text::texts(v@).contains(k) <==> stale.contains_key(k) && exists|e: int|
                    0 <= e < i && (#[trigger] es[e]).0@ == k,
        decreases n - i,
    {
        let ghost before = text::texts(v@);
        let (k, rule) = table.at(i);
        assert(stale.contains_key(k@) == (rule.node_id@ == node_id@ && !model::has_rule_id(
            super::rule_views(new_rules@),
            k@,
        )));
        if text::same(rule.node_id.as_str(), node_id) && !names_rule(new_rules, k.as_str()) {
            proof {
                if before.contains(k@) {
                    let e = choose|e: int| 0 <= e < i && (#[trigger] es[e]).0@ == k@;
                    assert(es[e].0@ != es[i as int].0@);
                }
            }
            v.push(k.clone());
            assert(text::texts(v@) =~= before.push(k@));
        }
        proof {
            let after = text::texts(v@);
            assert forall|x: Seq<char>| #[trigger]
                after.contains(x) <==> stale.contains_key(x) && exists|e: int|
                    0 <= e < i + 1 && (#[trigger] es[e]).0@ == x by {
                assert(es[i as int].0@ == k@);
                if after.contains(x) {
                    let a = choose|a: int| 0 <= a < after.len() && after[a] == x;
                    if a < before.len() {
                        assert(before[a] == x);
                        assert(before.contains(x));
                    }
                }
                if before.contains(x) {
                    let a = choose|a: int| 0 <= a < before.len() && before[a] == x;
                    assert(after[a] == x);
                }
                if stale.contains_key(x) && x == k@ {
                    assert(after[before.len() as int] == x);
                }
            }
        }
        i = i + 1;
    }
    proof {
        assert forall|k: Seq<char>| text::texts(v@).to_set().contains(k)
            == stale.dom().contains(k) by {
            if stale.contains_key(k) {
                let e = strmap::key_index(es, k);
                assert(0 <= e < es.len() && es[e].0@ == k);
            }
            assert(text::texts(v@).contains(k) == stale.contains_key(k));
        }
        assert(text::texts(v@).to_set() =~= stale.dom());
    }
    v
}

/// The table without some of its rules.
fn without(table: StrMap<Rule>, ids: &Vec<String>) -> (t: StrMap<Rule>)
    ensures
        memory::held(t@) == memory::held(table@).remove_keys(text::texts(ids@).to_set()),
{
    let ghost start = memory::held(table@);
    let ghost all = text::texts(ids@);
    let mut t: StrMap<Rule> = table;
    let mut i: usize = 0;
    assert(start.remove_keys(all.take(0).to_set()) =~= start);
    while i < ids.len()
        invariant
            i <= ids@.len(),
            all == text::texts(ids@),
            memory::held(t@) == start.remove_keys(all.take(i as int).to_set()),
        decreases ids@.len() - i,
    {
        let ghost before = t@;
        let _gone = t.remove(ids[i].as_str());
        proof {
            memory::lemma_held_remove(before, all[i as int]);
            assert(all.take(i + 1) =~= all.take(i as int).push(all[i as int]));
            let a = all.take(i as int);
            assert(a.push(all[i as int]).to_set() =~= a.to_set().insert(all[i as int])) by {
                broadcast use vstd::seq_lib::group_seq_properties;

            }
            assert(memory::held(t@) =~= start.remove_keys(all.take(i + 1).to_set()));
        }
        i = i + 1;
    }
    assert(all.take(i as int) =~= all);
    t
}

/// Plans how the rules of a node are replaced by a new set. `existing` are the rules of
/// the node. A rule of another node in the new set refuses the whole replacement.
pub fn plan_replacement(node_id: &str, existing: &[Rule], new_rules: &[Rule]) -> (r: Result<
    ReplacementPlan,
    StoreError,
>)
    ensures
        match r {
            Ok(plan) => {
                &&& forall|i: int|
                    0 <= i < new_rules@.len() ==> (#[trigger] new_rules@[i]).node_id@ == node_id@
                &&& plans(
                    plan,
                    by_id(super::rule_views(existing@)),
                    node_id@,
                    super::rule_views(new_rules@),
                )
            },
            Err(StoreError::ForeignRule { rule_id, rule_node_id, node_id: expected }) => {
                &&& expected@ == node_id@
                &&& super::first_foreign(new_rules@, node_id@, rule_id@, rule_node_id@)
            },
            Err(_) => false,
        },
{
    let mut i: usize = 0;
    while i < new_rules.len()
        invariant
            i <= new_rules@.len(),
            forall|j: int| 0 <= j < i ==> (#[trigger] new_rules@[j]).node_id@ == node_id@,
        decreases new_rules@.len() - i,
    {
        if !text::same(new_rules[i].node_id.as_str(), node_id) {
            return Err(
                StoreError::ForeignRule {
                    rule_id: new_rules[i].id.clone(),
                    rule_node_id: new_rules[i].node_id.clone(),
                    node_id: node_id.to_string(),
                },
            );
        }
        i = i + 1;
    }
    let ghost views = super::rule_views(new_rules@);
    let ghost table = by_id(super::rule_views(existing@));
    let ghost start = cleared(table, node_id@, views);
    let full = table_of(existing);
    let deletes = stale_ids(&full, node_id, new_rules);
    let mut rules = without(full, &deletes);
    let mut writes: Vec<Rule> = Vec::new();
    let mut summary = DiffSummary::new();
    summary.deleted = deletes.len();
    proof {
        text::texts(deletes@).unique_seq_to_set();
        assert(text::texts(deletes@).len() == deletes@.len());
        assert(views.take(0) =~= Seq::<RuleView>::empty());
        assert(super::rule_views(writes@) =~= to_write(start, views.take(0)));
    }
    let mut i: usize = 0;
    while i < new_rules.len()
        invariant
            i <= new_rules.len(),
            views == super::rule_views(new_rules@),
            model::replace_all(start, views.take(i as int)) == (Replacement {
                rules: memory::held(rules@),
                counts: summary@,
            }),
            super::rule_views(writes@) == to_write(start, views.take(i as int)),
            summary.added <= i,
            summary.updated <= i,
            summary.unchanged <= i,
        decreases new_rules@.len() - i,
    {
        let ghost done = writes@;
        let ghost prior = rules@;
        proof {
            assert(views[i as int] == new_rules@[i as int]@);
            assert(views.take(i + 1).drop_last() =~= views.take(i as int));
            assert(views.take(i + 1).last() == views[i as int]);
        }
        let rule = &new_rules[i];
        let found: Option<bool> = match rules.get(rule.id.as_str()) {
            Some(known) => {
                if text::same(known.node_id.as_str(), rule.node_id.as_str()) {
                    Some(rule_content_equal(known, rule))
                } else {
                    None
                }
            },
            None => None,
        };
        match found {
            Some(true) => {
                summary.unchanged = summary.unchanged + 1;
            },
            _ => {
                if found.is_some() {
                    summary.updated = summary.updated + 1;
                } else {
                    summary.added = summary.added + 1;
                }
                let copy = rule.clone();
                rules.insert(rule.id.clone(), copy);
                proof {
                    memory::lemma_held_insert(prior, rule.id@, copy);
                }
                let write = rule.clone();
                writes.push(write);
                assert(super::rule_views(writes@) =~= super::rule_views(done).push(write@));
            },
        }
        i = i + 1;
    }
    proof {
        assert(views.take(i as int) =~= views);
        lemma_written(start, views);
    }
    Ok(ReplacementPlan { deletes, writes, summary })
}

/// Whether a node has the same rules in two tables.
spec fn agree(p: Replacement, q: Replacement, node_id: Seq<char>) -> bool {
    &&& p.counts == q.counts
    &&& forall|k: Seq<char>| #[trigger]
        model::has_own(p.rules, node_id, k) == model::has_own(q.rules, node_id, k) && (
        model::has_own(p.rules, node_id, k) ==> p.rules[k] == q.rules[k])
}

/// What rules of a node do to two tables in which it has the same rules.
proof fn lemma_agree(
    p: Replacement,
    q: Replacement,
    node_id: Seq<char>,
    new_rules: Seq<RuleView>,
)
    requires
        agree(p, q, node_id),
        forall|i: int| 0 <= i < new_rules.len() ==> (#[trigger] new_rules[i]).node_id == node_id,
    ensures
        agree(model::replace_all(p, new_rules), model::replace_all(q, new_rules), node_id),
        to_write(p, new_rules) == to_write(q, new_rules),
    decreases new_rules.len(),
{
    if new_rules.len() > 0 {
        let front = new_rules.drop_last();
        let r = new_rules.last();
        assert forall|i: int| 0 <= i < front.len() implies (#[trigger] front[i]).node_id
            == node_id by {
            assert(front[i] == new_rules[i]);
        }
        lemma_agree(p, q, node_id, front);
        assert(new_rules[new_rules.len() - 1] == r);
        let a = model::replace_all(p, front);
        let b = model::replace_all(q, front);
        assert(model::has_own(a.rules, node_id, r.id) == model::has_own(b.rules, node_id, r.id));
        let c = model::replace_all(p, new_rules);
        let d = model::replace_all(q, new_rules);
        assert forall|k: Seq<char>| #[trigger]
            model::has_own(c.rules, node_id, k) == model::has_own(d.rules, node_id, k) && (
            model::has_own(c.rules, node_id, k) ==> c.rules[k] == d.rules[k]) by {
            assert(model::has_own(a.rules, node_id, k) == model::has_own(b.rules, node_id, k));
        }
    }
}

/// Rules with different ids stand under their ids.
proof fn lemma_by_id(rules: Seq<RuleView>)
    ensures
        forall|k: Seq<char>| #[trigger]
            by_id(rules).contains_key(k) <==> model::has_rule_id(rules, k),
        forall|k: Seq<char>| #[trigger] by_id(rules).contains_key(k) ==> rules.contains(
            by_id(rules)[k],
        ) && by_id(rules)[k].id == k,
    decreases rules.len(),
{
    if rules.len() > 0 {
        let front = rules.drop_last();
        lemma_by_id(front);
        let last = rules.last();
        assert(rules[rules.len() - 1] == last);
        assert forall|k: Seq<char>| #[trigger]
            by_id(rules).contains_key(k) <==> model::has_rule_id(rules, k) by {
            if model::has_rule_id(front, k) {
                let i = choose|i: int| 0 <= i < front.len() && (#[trigger] front[i]).id == k;
                assert(rules[i].id == k);
            }
            if model::has_rule_id(rules, k) && k != last.id {
                let i = choose|i: int| 0 <= i < rules.len() && (#[trigger] rules[i]).id == k;
                assert(front[i].id == k);
            }
        }
        assert forall|k: Seq<char>| #[trigger] by_id(rules).contains_key(k) implies rules.contains(
            by_id(rules)[k],
        ) && by_id(rules)[k].id == k by {
            if k != last.id {
                assert(by_id(front).contains_key(k));
                let i = choose|i: int| 0 <= i < front.len() && front[i] == by_id(front)[k];
                assert(rules[i] == by_id(rules)[k]);
            }
        }
    }
}

/// A plan that was made from the rules of the node serves the whole table: carried out
/// there, it leads where the replacement leads, and its counts are those of the
/// replacement.
pub proof fn plan_serves_the_table(
    rules: Map<Seq<char>, RuleView>,
    existing: Seq<RuleView>,
    node_id: Seq<char>,
    new_rules: Seq<RuleView>,
    plan: ReplacementPlan,
)
    requires
        forall|k: Seq<char>| #[trigger] rules.contains_key(k) ==> rules[k].id == k,
        forall|i: int| 0 <= i < new_rules.len() ==> (#[trigger] new_rules[i]).node_id == node_id,
        model::lists(existing, rules, |r: RuleView| r.node_id == node_id),
        plans(plan, by_id(existing), node_id, new_rules),
    ensures
        carried_out(
            rules,
            text::texts(plan.deletes@).to_set(),
            super::rule_views(plan.writes@),
        ) == model::replacement(rules, node_id, new_rules).rules,
        plan.summary@ == model::replacement(rules, node_id, new_rules).counts,
{
    let keep = |r: RuleView| r.node_id == node_id;
    let m = by_id(existing);
    let ks = choose|ks: Seq<Seq<char>>| model::lists_keys(existing, rules, keep, ks);
    assert(model::lists_keys(existing, rules, keep, ks));
    lemma_by_id(existing);
    assert forall|k: Seq<char>| #[trigger] m.contains_key(k) == (rules.contains_key(k) && keep(
        rules[k],
    )) && (m.contains_key(k) ==> m[k] == rules[k]) by {
        if m.contains_key(k) {
            let i = choose|i: int| 0 <= i < existing.len() && existing[i] == m[k];
            assert(rules.contains_key(ks[i]));
        }
        if rules.contains_key(k) && keep(rules[k]) {
            assert(ks.contains(k));
            let i = choose|i: int| 0 <= i < ks.len() && ks[i] == k;
            assert(rules.contains_key(ks[i]));
            assert(existing[i].id == k);
        }
    }
    let stale = model::stale_rules(rules, node_id, new_rules);
    let seen = model::stale_rules(m, node_id, new_rules);
    assert forall|k: Seq<char>| stale.dom().contains(k) == seen.dom().contains(k) by {
        assert(m.contains_key(k) == (rules.contains_key(k) && keep(rules[k])));
    }
    assert(stale.dom() =~= seen.dom());
    let p = cleared(m, node_id, new_rules);
    let q = cleared(rules, node_id, new_rules);
    assert(agree(p, q, node_id)) by {
        assert forall|k: Seq<char>| #[trigger]
            model::has_own(p.rules, node_id, k) == model::has_own(q.rules, node_id, k) && (
            model::has_own(p.rules, node_id, k) ==> p.rules[k] == q.rules[k]) by {
            assert(m.contains_key(k) == (rules.contains_key(k) && keep(rules[k])));
        }
    }
    lemma_agree(p, q, node_id, new_rules);
    lemma_written(q, new_rules);
}

} // verus!
