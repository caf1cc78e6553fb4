//! A store that holds everything in memory.

use super::interfaces::{InterfaceKey, InterfaceTable};
use super::model::{self, DiffCounts, Replacement, StoreModel};
use super::records::{
    self, AlertView, AuditEntry, AuditView, EnrollmentTokenRecord, InterfaceView, NewAuditEntry,
    NewSuricataAlert, NodeInterface, NodeRecord, NodeStatus, NodeView, Rule, RuleFileView, RuleView,
    RulesetView, SuricataAlertRecord, SuricataRuleFileReport, SuricataRuleset, TokenView,
};
use super::{
    AgentInfo, ControllerStore, DiffSummary, StoreError, SuricataAlertFilter, TokenRedeemOutcome,
};
use crate::json::{self, Json, JsonView};
use crate::order;
use crate::proto::InterfaceReport;
use crate::strmap::StrMap;
use crate::text;
use crate::timestamp::Timestamp;
use vstd::prelude::*;

verus! {

broadcast use vstd::string::group_string_axioms;

/// In-memory implementation of [`ControllerStore`].
///
/// All data is lost when the store is dropped.
pub struct InMemoryControllerStore {
    nodes: StrMap<NodeRecord>,
    /// Maps enrollment_id → node_id
    enrollment_index: StrMap<String>,
    rules: StrMap<Rule>,
    revoked_serials: Vec<Vec<u8>>,
    /// Maps node_id → cert PEM
    node_certs: StrMap<String>,
    interfaces: InterfaceTable,
    audit_log: Vec<AuditEntry>,
    enrollment_tokens: StrMap<EnrollmentTokenRecord>,
    suricata_rulesets: StrMap<SuricataRuleset>,
    /// (node_id, ruleset_id) assignment pairs.
    suricata_assignments: Vec<(String, String)>,
    /// Maps node_id → agent-reported rule files.
    suricata_rule_files: StrMap<Vec<SuricataRuleFileReport>>,
    suricata_alerts: Vec<SuricataAlertRecord>,
    next_alert_id: i64,
}

/// A map of records as a map of what they hold.
pub open spec fn held<V: View>(m: Map<Seq<char>, V>) -> Map<Seq<char>, V::V> {
    m.map_values(|v: V| v@)
}

/// Setting a record sets what the map holds.
pub(crate) proof fn lemma_held_insert<V: View>(m: Map<Seq<char>, V>, k: Seq<char>, v: V)
    ensures
        held(m.insert(k, v)) == held(m).insert(k, v@),
{
    assert(held(m.insert(k, v)) =~= held(m).insert(k, v@));
}

/// Removing a record removes what the map holds.
pub(crate) proof fn lemma_held_remove<V: View>(m: Map<Seq<char>, V>, k: Seq<char>)
    ensures
        held(m.remove(k)) == held(m).remove(k),
{
    assert(held(m.remove(k)) =~= held(m).remove(k));
}

/// The pairs as a set.
pub open spec fn pair_set(v: Seq<(String, String)>) -> Set<(Seq<char>, Seq<char>)> {
    v.map_values(|p: (String, String)| (p.0@, p.1@)).to_set()
}

impl InMemoryControllerStore {
    /// What the store holds.
    pub closed spec fn holds(&self) -> StoreModel {
        StoreModel {
            nodes: held(self.nodes@),
            enrollments: held(self.enrollment_index@),
            rules: held(self.rules@),
            revoked: super::byte_views(self.revoked_serials@).to_set(),
            certs: held(self.node_certs@),
            interfaces: self.interfaces@,
            audit: super::audit_views(self.audit_log@),
            tokens: held(self.enrollment_tokens@),
            rulesets: held(self.suricata_rulesets@),
            assignments: pair_set(self.suricata_assignments@),
            rule_files: self.suricata_rule_files@.map_values(
                |v: Vec<SuricataRuleFileReport>| super::rule_file_views(v@),
            ),
            alerts: super::alert_views(self.suricata_alerts@),
        }
    }

    /// The id that the next alert gets.
    pub closed spec fn next_alert(&self) -> i64 {
        self.next_alert_id
    }

    /// An empty store.
    pub fn new() -> (s: Self)
        ensures
            s.model() == StoreModel::empty(),
            s.next_alert() == 0,
            s.dependable(),
    {
        let s = InMemoryControllerStore {
            nodes: StrMap::new(),
            enrollment_index: StrMap::new(),
            rules: StrMap::new(),
            revoked_serials: Vec::new(),
            node_certs: StrMap::new(),
            interfaces: InterfaceTable::new(),
            audit_log: Vec::new(),
            enrollment_tokens: StrMap::new(),
            suricata_rulesets: StrMap::new(),
            suricata_assignments: Vec::new(),
            suricata_rule_files: StrMap::new(),
            suricata_alerts: Vec::new(),
            next_alert_id: 0,
        };
        assert(s.holds() =~= StoreModel::empty());
        s
    }
}

/// Copies of the records that fulfil a condition.
fn select<V: Clone + View, F: Fn(&V) -> bool>(
    m: &StrMap<V>,
    wanted: F,
    Ghost(keep): Ghost<spec_fn(V::V) -> bool>,
) -> (out: Vec<V>)
    requires
        forall|v: &V| #[trigger] call_requires(wanted, (v,)),
        forall|v: &V, b: bool| #[trigger] call_ensures(wanted, (v,), b) ==> b == keep(v@),
        forall|a: V, c: V| #[trigger] cloned(a, c) ==> c@ == a@,
    ensures
        model::lists(out@.map_values(|v: V| v@), held(m@), keep),
{
    let mut out: Vec<V> = Vec::new();
    let ghost mut ks: Seq<Seq<char>> = Seq::empty();
    let mut i: usize = 0;
    let n: usize = m.len();
    while i < n
        invariant
            i <= n == m.entries().len(),
            crate::strmap::keys_unique(m.entries()),
            m@ == crate::strmap::entries_map(m.entries()),
            forall|v: &V| #[trigger] call_requires(wanted, (v,)),
            forall|v: &V, b: bool| #[trigger] call_ensures(wanted, (v,), b) ==> b == keep(v@),
            forall|a: V, c: V| #[trigger] cloned(a, c) ==> c@ == a@,
            ks.len() == out@.len(),
            forall|j: int|
                0 <= j < ks.len() ==> m@.contains_key(#[trigger] ks[j]) && m@[ks[j]]@ == out@[j]@
                    && keep(out@[j]@),
            forall|j: int|
                0 <= j < ks.len() ==> exists|e: int|
                    0 <= e < i && (#[trigger] m.entries()[e]).0@ == #[trigger] ks[j],
            ks.no_duplicates(),
            forall|j: int|
                0 <= j < i && keep((#[trigger] m.entries()[j]).1@) ==> ks.contains(
                    m.entries()[j].0@,
                ),
        decreases n - i,
    {
        let ghost listed = ks;
        let ghost before = out@;
        let (k, v) = m.at(i);
        if wanted(v) {
            let c = v.clone();
            assert(cloned(*v, c));
            out.push(c);
            proof {
                ks = ks.push(k@);
                assert(ks[listed.len() as int] == k@);
                assert forall|j: int| 0 <= j < ks.len() implies m@.contains_key(#[trigger] ks[j])
                    && m@[ks[j]]@ == out@[j]@ && keep(out@[j]@) by {
                    if j < listed.len() {
                        assert(ks[j] == listed[j]);
                        assert(out@[j] == before[j]);
                    }
                }
                assert forall|j: int| 0 <= j < ks.len() implies exists|e: int|
                    0 <= e < i + 1 && (#[trigger] m.entries()[e]).0@ == #[trigger] ks[j] by {
                    if j < listed.len() {
                        assert(ks[j] == listed[j]);
                        let e = choose|e: int|
                            0 <= e < i && (#[trigger] m.entries()[e]).0@ == listed[j];
                        assert(m.entries()[e].0@ == ks[j]);
                    } else {
                        assert(m.entries()[i as int].0@ == ks[j]);
                    }
                }
                assert(ks.no_duplicates()) by {
                    assert forall|a: int, b: int| 0 <= a < b < ks.len() implies ks[a] != ks[b] by {
                        assert(ks[a] == listed[a]);
                        if b == listed.len() {
                            let e = choose|e: int|
                                0 <= e < i && (#[trigger] m.entries()[e]).0@ == listed[a];
                            assert(m.entries()[e].0@ != m.entries()[i as int].0@);
                        } else {
                            assert(ks[b] == listed[b]);
                        }
                    }
                }
            }
        }
        proof {
            assert forall|j: int|
                0 <= j < i + 1 && keep((#[trigger] m.entries()[j]).1@) implies ks.contains(
                m.entries()[j].0@,
            ) by {
                if j < i {
                    let a = choose|a: int| 0 <= a < listed.len() && listed[a] == m.entries()[j].0@;
                    assert(ks[a] == listed[a]);
                } else {
                    assert(ks[listed.len() as int] == m.entries()[j].0@);
                }
            }
        }
        i = i + 1;
    }
    proof {
        let views = out@.map_values(|v: V| v@);
        assert forall|k: Seq<char>|
            held(m@).contains_key(k) && #[trigger] keep(held(m@)[k]) implies ks.contains(k) by {
            let e = crate::strmap::key_index(m.entries(), k);
            assert(0 <= e < m.entries().len() && m.entries()[e].0@ == k);
            crate::strmap::lemma_entry(m.entries(), e);
        }
        assert(model::lists_keys(views, held(m@), keep, ks));
    }
    out
}

/// The map with the records that fulfil a condition.
fn retain<V: Clone + View, F: Fn(&String, &V) -> bool>(
    m: &StrMap<V>,
    wanted: F,
    Ghost(keep): Ghost<spec_fn(Seq<char>, V::V) -> bool>,
) -> (out: StrMap<V>)
    requires
        forall|k: &String, v: &V| #[trigger] call_requires(wanted, (k, v)),
        forall|k: &String, v: &V, b: bool| #[trigger]
            call_ensures(wanted, (k, v), b) ==> b == keep(k@, v@),
        forall|a: V, c: V| #[trigger] cloned(a, c) ==> c@ == a@,
    ensures
        held(out@) == model::kept(held(m@), keep),
{
    let mut out: StrMap<V> = StrMap::new();
    let mut i: usize = 0;
    let n: usize = m.len();
    while i < n
        invariant
            i <= n == m.entries().len(),
            crate::strmap::keys_unique(m.entries()),
            m@ == crate::strmap::entries_map(m.entries()),
            forall|k: &String, v: &V| #[trigger] call_requires(wanted, (k, v)),
            forall|k: &String, v: &V, b: bool| #[trigger]
                call_ensures(wanted, (k, v), b) ==> b == keep(k@, v@),
            forall|a: V, c: V| #[trigger] cloned(a, c) ==> c@ == a@,
            forall|k: Seq<char>| #[trigger]
                out@.contains_key(k) ==> m@.contains_key(k) && out@[k]@ == m@[k]@ && keep(
                    k,
                    m@[k]@,
                ),
            forall|j: int|
                0 <= j < i && keep((#[trigger] m.entries()[j]).0@, m.entries()[j].1@)
                    ==> out@.contains_key(m.entries()[j].0@),
        decreases n - i,
    {
        let (k, v) = m.at(i);
        if wanted(k, v) {
            let c = v.clone();
            assert(cloned(*v, c));
            out.insert(k.clone(), c);
        }
        i = i + 1;
    }
    proof {
        assert forall|k: Seq<char>|
            held(m@).contains_key(k) && keep(k, held(m@)[k]) implies out@.contains_key(k) by {
            let e = crate::strmap::key_index(m.entries(), k);
            assert(0 <= e < m.entries().len() && m.entries()[e].0@ == k);
            crate::strmap::lemma_entry(m.entries(), e);
        }
        assert(held(out@) =~= model::kept(held(m@), keep));
    }
    out
}

/// Whether one of the rules has that id.
pub(crate) fn names_rule(new_rules: &[Rule], id: &str) -> (r: bool)
    ensures
        r == model::has_rule_id(super::rule_views(new_rules@), id@),
{
    let mut i: usize = 0;
    while i < new_rules.len()
        invariant
            i <= new_rules@.len(),
            forall|j: int| 0 <= j < i ==> (#[trigger] new_rules@[j]).id@ != id@,
        decreases new_rules@.len() - i,
    {
        if text::same(new_rules[i].id.as_str(), id) {
            assert(super::rule_views(new_rules@)[i as int].id == id@);
            return true;
        }
        i = i + 1;
    }
    proof {
        assert forall|j: int| 0 <= j < new_rules@.len() implies (
        #[trigger] super::rule_views(new_rules@)[j]).id != id@ by {
            assert(new_rules@[j].id@ != id@);
        }
    }
    false
}

/// Whether the name is one of the names.
fn is_named(names: &[String], name: &str) -> (r: bool)
    ensures
        r == model::names_contain(names@, name@),
{
    let mut i: usize = 0;
    while i < names.len()
        invariant
            i <= names@.len(),
            forall|j: int| 0 <= j < i ==> (#[trigger] names@[j])@ != name@,
        decreases names@.len() - i,
    {
        if text::same(names[i].as_str(), name) {
            return true;
        }
        i = i + 1;
    }
    false
}

/// Whether the pairs attach a program to the interface in that direction.
fn is_attached(pairs: &[(String, String)], name: &str, direction: &str) -> (r: bool)
    ensures
        r == model::attached(pairs@, name@, direction@),
{
    let mut i: usize = 0;
    while i < pairs.len()
        invariant
            i <= pairs@.len(),
            forall|j: int|
                0 <= j < i ==> !((#[trigger] pairs@[j]).0@ == name@ && text::lowercase(
                    pairs@[j].1@,
                ) == direction@),
        decreases pairs@.len() - i,
    {
        if text::same(pairs[i].0.as_str(), name) {
            let lower = pairs[i].1.as_str().to_lowercase();
            if text::same(lower.as_str(), direction) {
                assert(pairs@[i as int].0@ == name@);
                return true;
            }
        }
        i = i + 1;
    }
    false
}

/// The mode of an interface in a list of modes.
fn listed_mode(modes: &[(String, u32)], name: &str) -> (r: u32)
    ensures
        r == model::mode_of(modes@, name@),
{
    let mut i: usize = modes.len();
    assert(modes@.take(i as int) =~= modes@);
    while i > 0
        invariant
            i <= modes@.len(),
            model::mode_of(modes@, name@) == model::mode_of(modes@.take(i as int), name@),
        decreases i,
    {
        proof {
            assert(modes@.take(i as int).last() == modes@[i - 1]);
            assert(modes@.take(i as int).drop_last() =~= modes@.take(i - 1));
        }
        if text::same(modes[i - 1].0.as_str(), name) {
            return modes[i - 1].1;
        }
        i = i - 1;
    }
    0
}

/// A change to every interface of a node.
enum InterfaceChange<'a> {
    Attachments(&'a [(String, String)]),
    FibForwarding(&'a [String]),
    Urpf(&'a [(String, u32)]),
    Inspect(&'a [String]),
    InspectOne(&'a str, bool),
}

impl<'a> InterfaceChange<'a> {
    /// An interface after the change.
    spec fn applied(self, i: InterfaceView) -> InterfaceView {
        match self {
            InterfaceChange::Attachments(pairs) => InterfaceView {
                xdp_attached: model::attached(pairs@, i.name, "ingress"@),
                tc_attached: model::attached(pairs@, i.name, "egress"@),
                ..i
            },
            InterfaceChange::FibForwarding(names) => InterfaceView {
                fib_forwarding: model::names_contain(names@, i.name),
                ..i
            },
            InterfaceChange::Urpf(modes) => InterfaceView {
                urpf_mode: model::mode_of(modes@, i.name),
                ..i
            },
            InterfaceChange::Inspect(names) => InterfaceView {
                inspect_enabled: model::names_contain(names@, i.name),
                ..i
            },
            InterfaceChange::InspectOne(name, enabled) => if i.name == name@ {
                InterfaceView { inspect_enabled: enabled, ..i }
            } else {
                i
            },
        }
    }

    /// Applies the change to one interface.
    fn apply(&self, row: &NodeInterface) -> (r: NodeInterface)
        ensures
            r@ == self.applied(row@),
    {
        let mut r: NodeInterface = row.clone();
        match self {
            InterfaceChange::Attachments(pairs) => {
                r.xdp_attached = is_attached(pairs, row.name.as_str(), "ingress");
                r.tc_attached = is_attached(pairs, row.name.as_str(), "egress");
            },
            InterfaceChange::FibForwarding(names) => {
                r.fib_forwarding = is_named(names, row.name.as_str());
            },
            InterfaceChange::Urpf(modes) => {
                r.urpf_mode = listed_mode(modes, row.name.as_str());
            },
            InterfaceChange::Inspect(names) => {
                r.inspect_enabled = is_named(names, row.name.as_str());
            },
            InterfaceChange::InspectOne(name, enabled) => {
                if text::same(row.name.as_str(), name) {
                    r.inspect_enabled = *enabled;
                }
            },
        }
        r
    }
}

/// Applies a change to every interface of a node.
fn change_interfaces(table: &mut InterfaceTable, node_id: &str, change: &InterfaceChange)
    ensures
        final(table)@ == model::node_interfaces_changed(
            old(table)@,
            node_id@,
            |i: InterfaceView| change.applied(i),
        ),
{
    let ghost before = table@;
    table.keyed();
    let rows = table.list_node(node_id);
    let ghost views = super::interface_views(rows@);
    let ghost keep = |i: InterfaceView| i.node_id == node_id@;
    let ghost ks = choose|ks: Seq<InterfaceKey>| model::lists_keys(views, before, keep, ks);
    proof {
        assert(model::lists_keys(views, before, keep, ks));
        assert forall|j: int| 0 <= j < ks.len() implies #[trigger] ks[j] == (
        views[j].node_id, views[j].name) && ks[j].0 == node_id@ by {
            assert(before.contains_key(ks[j]));
        }
    }
    let mut i: usize = 0;
    while i < rows.len()
        invariant
            i <= rows@.len(),
            views == super::interface_views(rows@),
            keep == (|i: InterfaceView| i.node_id == node_id@),
            model::lists_keys(views, before, keep, ks),
            forall|j: int|
                0 <= j < ks.len() ==> #[trigger] ks[j] == (views[j].node_id, views[j].name)
                    && ks[j].0 == node_id@,
            table@.dom() == before.dom(),
            forall|j: int|
                0 <= j < i ==> #[trigger] table@[ks[j]] == change.applied(before[ks[j]]),
            forall|j: int| i <= j < ks.len() ==> #[trigger] table@[ks[j]] == before[ks[j]],
            forall|k: InterfaceKey|
                before.contains_key(k) && !ks.contains(k) ==> #[trigger] table@[k] == before[k],
        decreases rows@.len() - i,
    {
        let ghost prior = table@;
        let row = change.apply(&rows[i]);
        proof {
            assert(views[i as int] == rows@[i as int]@);
            assert((row.node_id@, row.name@) == ks[i as int]);
        }
        table.put(row);
        proof {
            assert(table@.dom() =~= before.dom());
            assert forall|j: int| 0 <= j < ks.len() && j != i implies #[trigger] table@[ks[j]]
                == prior[ks[j]] by {
                assert(ks[j] != ks[i as int]);
            }
            assert forall|k: InterfaceKey|
                before.contains_key(k) && !ks.contains(k) implies #[trigger] table@[k]
                == before[k] by {
                assert(k != ks[i as int]);
            }
        }
        i = i + 1;
    }
    proof {
        let after = model::node_interfaces_changed(
            before,
            node_id@,
            |i: InterfaceView| change.applied(i),
        );
        assert forall|k: InterfaceKey| before.contains_key(k) implies #[trigger] table@[k]
            == after[k] by {
            if k.0 == node_id@ {
                assert((before[k].node_id, before[k].name) == k);
                assert(keep(before[k]));
                assert(ks.contains(k));
                let j = choose|j: int| 0 <= j < ks.len() && ks[j] == k;
                assert(table@[ks[j]] == change.applied(before[ks[j]]));
            } else {
                if ks.contains(k) {
                    let j = choose|j: int| 0 <= j < ks.len() && ks[j] == k;
                    assert(ks[j].0 == node_id@);
                }
            }
        }
        assert(table@ =~= after);
    }
}

/// Whether a filter lets an alert pass.
fn alert_passes(filter: &SuricataAlertFilter, a: &SuricataAlertRecord) -> (r: bool)
    ensures
        r == filter@.passes(a@),
{
    if !filter.include_acked && a.acked_at.is_some() {
        return false;
    }
    if let Some(t) = &filter.tenant_id {
        if !text::same(t.as_str(), a.tenant_id.as_str()) {
            return false;
        }
    }
    if let Some(n) = &filter.node_id {
        if !text::same(n.as_str(), a.node_id.as_str()) {
            return false;
        }
    }
    if let Some(s) = filter.min_severity {
        match a.severity {
            Some(v) => {
                if v > s {
                    return false;
                }
            },
            None => {
                return false;
            },
        }
    }
    if let Some(sid) = filter.signature_id {
        match a.signature_id {
            Some(id) => {
                if id != sid {
                    return false;
                }
            },
            None => {
                return false;
            },
        }
    }
    if let Some(part) = &filter.signature_contains {
        match &a.signature {
            Some(sig) => {
                let hay = text::chars_of(sig.as_str());
                let needle = text::chars_of(part.as_str());
                match text::find_text(&hay, &needle) {
                    Some(i) => {
                        assert(text::occurs_at(hay@, needle@, i as int));
                    },
                    None => {
                        return false;
                    },
                }
            },
            None => {
                return false;
            },
        }
    }
    true
}

/// Whether a scope takes in a tenant or node.
fn scope_takes(scope: Option<&str>, actual: &str) -> (r: bool)
    ensures
        r == model::in_scope(text::opt_str(scope), actual@),
{
    match scope {
        Some(t) => text::same(t, actual),
        None => true,
    }
}

/// Copies of the audit entries that fulfil a condition, newest first.
fn select_audit<F: Fn(&AuditEntry) -> bool>(
    log: &Vec<AuditEntry>,
    wanted: F,
    Ghost(keep): Ghost<spec_fn(AuditView) -> bool>,
) -> (out: Vec<AuditEntry>)
    requires
        forall|e: &AuditEntry| #[trigger] call_requires(wanted, (e,)),
        forall|e: &AuditEntry, b: bool| #[trigger]
            call_ensures(wanted, (e,), b) ==> b == keep(e@),
    ensures
        super::audit_views(out@) == super::audit_views(log@).reverse().filter(keep),
{
    let ghost rev = super::audit_views(log@).reverse();
    let mut out: Vec<AuditEntry> = Vec::new();
    let mut i: usize = log.len();
    assert(rev.take(0) =~= Seq::<AuditView>::empty());
    assert(super::audit_views(out@) =~= rev.take(0).filter(keep));
    while i > 0
        invariant
            i <= log@.len(),
            rev == super::audit_views(log@).reverse(),
            forall|e: &AuditEntry| #[trigger] call_requires(wanted, (e,)),
            forall|e: &AuditEntry, b: bool| #[trigger]
                call_ensures(wanted, (e,), b) ==> b == keep(e@),
            super::audit_views(out@) == rev.take(log@.len() - i).filter(keep),
        decreases i,
    {
        let ghost before = out@;
        proof {
            let n = log@.len() - i;
            assert(rev[n] == log@[i - 1]@);
            assert(rev.take(n + 1) =~= rev.take(n).push(rev[n]));
            rev.take(n).lemma_filter_push(rev[n], keep);
        }
        i = i - 1;
        if wanted(&log[i]) {
            out.push(log[i].clone());
            assert(super::audit_views(out@) =~= super::audit_views(before).push(log@[i as int]@));
        }
    }
    assert(rev.take(log@.len() as int) =~= rev);
    out
}

/// At most `limit` entries, after the first `offset`.
fn page_of(v: Vec<AuditEntry>, offset: usize, limit: usize) -> (out: Vec<AuditEntry>)
    ensures
        super::audit_views(out@) == model::page(
            super::audit_views(v@),
            offset as nat,
            limit as nat,
        ),
{
    let mut all: Vec<AuditEntry> = v;
    let ghost views = super::audit_views(all@);
    let mut rest: Vec<AuditEntry> = if offset < all.len() {
        all.split_off(offset)
    } else {
        Vec::new()
    };
    assert(super::audit_views(rest@) =~= (if offset <= views.len() {
        views.skip(offset as int)
    } else {
        Seq::empty()
    }));
    let ghost tail = super::audit_views(rest@);
    rest.truncate(limit);
    assert(super::audit_views(rest@) =~= (if limit <= tail.len() {
        tail.take(limit as int)
    } else {
        tail
    }));
    rest
}

/// Adds the sources that the capabilities of a node name. Capabilities that cannot be
/// read name none.
pub fn add_sources(out: &mut Vec<String>, capabilities: &str)
    requires
        text::texts(old(out)@).no_duplicates(),
    ensures
        text::texts(final(out)@).no_duplicates(),
        forall|s: Seq<char>| #[trigger]
            text::texts(final(out)@).contains(s) <==> text::texts(
                old(out)@,
            ).contains(s) || model::names_source(capabilities@, s),
{
    let j = match json::parse_text(capabilities) {
        Ok(j) => j,
        Err(_) => {
            return ;
        },
    };
    let members = match &j {
        Json::Object(m) => m,
        _ => {
            return ;
        },
    };
    proof {
        json::lemma_object_view(*members);
    }
    let found = json::get(members, "sources");
    let items = match found {
        Some(Json::Array(items)) => items,
        _ => {
            return ;
        },
    };
    proof {
        json::lemma_array_view(*items);
    }
    let ghost start = text::texts(out@).to_set();
    let mut i: usize = 0;
    while i < items.len()
        invariant
            i <= items@.len(),
            text::texts(out@).no_duplicates(),
            forall|s: Seq<char>| #[trigger]
                text::texts(out@).to_set().contains(s) <==> start.contains(s) || exists|
                    e: int,
                |
                    0 <= e < i && (#[trigger] items@[e])@ == JsonView::Str(s),
        decreases items@.len() - i,
    {
        let ghost prior = text::texts(out@).to_set();
        if let Json::Str(s) = &items[i] {
            text::add_once(out, s.as_str());
        }
        proof {
            assert forall|s: Seq<char>| #[trigger]
                text::texts(out@).to_set().contains(s) <==> start.contains(s) || exists|
                    e: int,
                |
                    0 <= e < i + 1 && (#[trigger] items@[e])@ == JsonView::Str(s) by {
                if prior.contains(s) && !start.contains(s) {
                    let e = choose|e: int|
                        0 <= e < i && (#[trigger] items@[e])@ == JsonView::Str(s);
                    assert(items@[e]@ == JsonView::Str(s));
                }
                if items@[i as int]@ == JsonView::Str(s) {
                    assert(items@[i as int] is Str);
                }
            }
        }
        i = i + 1;
    }
    proof {
        assert forall|s: Seq<char>| #[trigger]
            text::texts(out@).contains(s) <==> text::texts(
                old(out)@,
            ).contains(s) || model::names_source(capabilities@, s) by {
            assert(text::texts(out@).to_set().contains(s) == text::texts(
                out@,
            ).contains(s));
            let views = json::items_view(items@);
            if views.contains(JsonView::Str(s)) {
                let e = choose|e: int| 0 <= e < views.len() && views[e] == JsonView::Str(s);
                assert(items@[e]@ == JsonView::Str(s));
            }
            if exists|e: int| 0 <= e < items@.len() && (#[trigger] items@[e])@ == JsonView::Str(
                s,
            ) {
                let e = choose|e: int|
                    0 <= e < items@.len() && (#[trigger] items@[e])@ == JsonView::Str(s);
                assert(views[e] == JsonView::Str(s));
            }
        }
    }
}

impl ControllerStore for InMemoryControllerStore {
    closed spec fn model(&self) -> StoreModel {
        self.holds()
    }

    open spec fn dependable(&self) -> bool {
        true
    }

    fn upsert_node(&mut self, node: &NodeRecord) -> (r: Result<(), StoreError>) {
        if let Some(eid) = &node.enrollment_id {
            self.enrollment_index.insert(eid.clone(), node.id.clone());
        }
        let copy = node.clone();
        self.nodes.insert(node.id.clone(), copy);
        proof {
            assert(self.holds() =~= old(self).holds().with_node(node@));
        }
        Ok(())
    }

    fn get_node(&self, id: &str) -> (r: Result<Option<NodeRecord>, StoreError>) {
        match self.nodes.get(id) {
            Some(n) => Ok(Some(n.clone())),
            None => Ok(None),
        }
    }

    fn get_node_by_enrollment_id(&self, enrollment_id: &str) -> (r: Result<
        Option<NodeRecord>,
        StoreError,
    >) {
        match self.enrollment_index.get(enrollment_id) {
            Some(id) => self.get_node(id.as_str()),
            None => Ok(None),
        }
    }

    fn list_nodes(&self, tenant_id: Option<&str>, status: Option<NodeStatus>) -> (r: Result<
        Vec<NodeRecord>,
        StoreError,
    >) {
        let ghost keep = |n: NodeView|
            model::in_scope(text::opt_str(tenant_id), n.tenant_id) && (status is None || status
                == Some(n.status));
        let wanted = |n: &NodeRecord| -> (b: bool)
                ensures
                    b == (model::in_scope(text::opt_str(tenant_id), n.tenant_id@) && (status is None
                        || status == Some(n.status)))
        {
                    scope_takes(tenant_id, n.tenant_id.as_str()) && match status {
                        Some(s) => n.status == s,
                        None => true,
                    }
                };
        let v = select(
            &self.nodes,
            wanted,
            Ghost(keep),
        );
        Ok(v)
    }

    fn update_node_status(&mut self, id: &str, status: NodeStatus) -> (r: Result<(), StoreError>) {
        let mut n: NodeRecord = match self.nodes.get(id) {
            Some(n) => n.clone(),
            None => {
                return Err(StoreError::NodeNotFound(id.to_string()));
            },
        };
        n.status = status;
        self.nodes.insert(id.to_string(), n);
        proof {
            lemma_held_insert(old(self).nodes@, id@, n);
            assert(self.holds() =~= old(self).holds().node_changed(id@, NodeView { status, ..old(self).holds().nodes[id@] }));
        }
        Ok(())
    }

    fn update_node_tenant(&mut self, id: &str, tenant_id: &str) -> (r: Result<(), StoreError>) {
        let mut n: NodeRecord = match self.nodes.get(id) {
            Some(n) => n.clone(),
            None => {
                return Err(StoreError::NodeNotFound(id.to_string()));
            },
        };
        n.tenant_id = tenant_id.to_string();
        self.nodes.insert(id.to_string(), n);
        proof {
            lemma_held_insert(old(self).nodes@, id@, n);
            assert(self.holds() =~= old(self).holds().node_changed(id@, NodeView { tenant_id: tenant_id@, ..old(self).holds().nodes[id@] }));
        }
        Ok(())
    }

    fn delete_node(&mut self, id: &str) -> (r: Result<(), StoreError>) {
        if self.nodes.remove(id).is_none() {
            assert(self.nodes@ =~= old(self).nodes@);
            assert(self.holds() =~= old(self).holds());
            return Err(StoreError::NodeNotFound(id.to_string()));
        }
        let wanted = |k: &String, rule: &Rule| -> (b: bool)
                ensures
                    b == (rule.node_id@ != id@)
        { !text::same(rule.node_id.as_str(), id) };
        self.rules = retain(
            &self.rules,
            wanted,
            Ghost(|k: Seq<char>, rule: RuleView| rule.node_id != id@),
        );
        self.interfaces.remove_node(id);
        let _cert = self.node_certs.remove(id);
        let wanted = |k: &String, v: &String| -> (b: bool)
                ensures
                    b == (v@ != id@)
        { !text::same(v.as_str(), id) };
        self.enrollment_index = retain(
            &self.enrollment_index,
            wanted,
            Ghost(|k: Seq<char>, v: Seq<char>| v != id@),
        );
        proof {
            lemma_held_remove(old(self).nodes@, id@);
            lemma_held_remove(old(self).node_certs@, id@);
            assert(self.holds() =~= old(self).holds().without_node(id@));
        }
        Ok(())
    }

    fn update_node_last_seen(&mut self, id: &str, ts: Timestamp) -> (r: Result<(), StoreError>) {
        let mut n: NodeRecord = match self.nodes.get(id) {
            Some(n) => n.clone(),
            None => {
                return Err(StoreError::NodeNotFound(id.to_string()));
            },
        };
        n.last_seen = Some(ts);
        self.nodes.insert(id.to_string(), n);
        proof {
            lemma_held_insert(old(self).nodes@, id@, n);
            assert(self.holds() =~= old(self).holds().node_changed(id@, NodeView { last_seen: Some(ts), ..old(self).holds().nodes[id@] }));
        }
        Ok(())
    }

    fn update_node_agent_info(&mut self, id: &str, info: &AgentInfo) -> (r: Result<(), StoreError>) {
        let mut n: NodeRecord = match self.nodes.get(id) {
            Some(n) => n.clone(),
            None => {
                return Err(StoreError::NodeNotFound(id.to_string()));
            },
        };
        n.tpm_backed = info.tpm_backed;
        if info.agent_version.is_some() {
            n.agent_version = records::copy_opt(&info.agent_version);
        }
        if info.hostname.is_some() {
            n.hostname = records::copy_opt(&info.hostname);
        }
        if info.os_pretty_name.is_some() {
            n.os_pretty_name = records::copy_opt(&info.os_pretty_name);
        }
        if info.kernel_version.is_some() {
            n.kernel_version = records::copy_opt(&info.kernel_version);
        }
        if info.dmi_sys_vendor.is_some() {
            n.dmi_sys_vendor = records::copy_opt(&info.dmi_sys_vendor);
        }
        if info.dmi_product_name.is_some() {
            n.dmi_product_name = records::copy_opt(&info.dmi_product_name);
        }
        if info.dmi_uuid.is_some() {
            n.dmi_uuid = records::copy_opt(&info.dmi_uuid);
        }
        self.nodes.insert(id.to_string(), n);
        proof {
            lemma_held_insert(old(self).nodes@, id@, n);
            assert(self.holds() =~= old(self).holds().node_changed(id@, model::with_agent_info(old(self).holds().nodes[id@], info@)));
        }
        Ok(())
    }

    fn update_node_capabilities(&mut self, id: &str, capabilities_json: &str) -> (r: Result<(), StoreError>) {
        let mut n: NodeRecord = match self.nodes.get(id) {
            Some(n) => n.clone(),
            None => {
                return Err(StoreError::NodeNotFound(id.to_string()));
            },
        };
        n.capabilities = capabilities_json.to_string();
        self.nodes.insert(id.to_string(), n);
        proof {
            lemma_held_insert(old(self).nodes@, id@, n);
            assert(self.holds() =~= old(self).holds().node_changed(id@, NodeView { capabilities: capabilities_json@, ..old(self).holds().nodes[id@] }));
        }
        Ok(())
    }

    fn list_active_node_sources(&self, tenant_id: &str) -> (r: Result<Vec<String>, StoreError>) {
        let mut out: Vec<String> = Vec::new();
        let n: usize = self.nodes.len();
        let mut i: usize = 0;
        assert(text::texts(out@) =~= Seq::<Seq<char>>::empty());
        while i < n
            invariant
                i <= n == self.nodes.entries().len(),
                crate::strmap::keys_unique(self.nodes.entries()),
                self.nodes@ == crate::strmap::entries_map(self.nodes.entries()),
                text::texts(out@).no_duplicates(),
                forall|s: Seq<char>| #[trigger]
                    text::texts(out@).contains(s) <==> exists|e: int|
                        {
                            &&& 0 <= e < i
                            &&& (#[trigger] self.nodes.entries()[e]).1.tenant_id@ == tenant_id@
                            &&& self.nodes.entries()[e].1.status == NodeStatus::Active
                            &&& model::names_source(self.nodes.entries()[e].1.capabilities@, s)
                        },
            decreases n - i,
        {
            let ghost es = self.nodes.entries();
            let ghost prior = text::texts(out@);
            let (_k, node) = self.nodes.at(i);
            let meant = text::same(node.tenant_id.as_str(), tenant_id) && node.status
                == NodeStatus::Active;
            if meant {
                add_sources(&mut out, node.capabilities.as_str());
            }
            proof {
                assert forall|s: Seq<char>| #[trigger]
                    text::texts(out@).contains(s) <==> exists|e: int|
                        {
                            &&& 0 <= e < i + 1
                            &&& (#[trigger] es[e]).1.tenant_id@ == tenant_id@
                            &&& es[e].1.status == NodeStatus::Active
                            &&& model::names_source(es[e].1.capabilities@, s)
                        } by {
                    assert(text::texts(out@).contains(s) <==> prior.contains(s) || (meant
                        && model::names_source(es[i as int].1.capabilities@, s)));
                    if prior.contains(s) {
                        let e = choose|e: int|
                            {
                                &&& 0 <= e < i
                                &&& (#[trigger] es[e]).1.tenant_id@ == tenant_id@
                                &&& es[e].1.status == NodeStatus::Active
                                &&& model::names_source(es[e].1.capabilities@, s)
                            };
                        assert(es[e].1.tenant_id@ == tenant_id@);
                    }
                }
            }
            i = i + 1;
        }
        proof {
            let es = self.nodes.entries();
            let m = self.holds().nodes;
            assert forall|s: Seq<char>| #[trigger]
                text::texts(out@).contains(s) <==> exists|id: Seq<char>|
                    {
                        &&& #[trigger] m.contains_key(id)
                        &&& m[id].tenant_id == tenant_id@
                        &&& m[id].status == NodeStatus::Active
                        &&& model::names_source(m[id].capabilities, s)
                    } by {
                if text::texts(out@).contains(s) {
                    let e = choose|e: int|
                        {
                            &&& 0 <= e < n
                            &&& (#[trigger] es[e]).1.tenant_id@ == tenant_id@
                            &&& es[e].1.status == NodeStatus::Active
                            &&& model::names_source(es[e].1.capabilities@, s)
                        };
                    crate::strmap::lemma_entry(es, e);
                    assert(m.contains_key(es[e].0@));
                }
                if exists|id: Seq<char>|
                    {
                        &&& #[trigger] m.contains_key(id)
                        &&& m[id].tenant_id == tenant_id@
                        &&& m[id].status == NodeStatus::Active
                        &&& model::names_source(m[id].capabilities, s)
                    } {
                    let id = choose|id: Seq<char>|
                        {
                            &&& #[trigger] m.contains_key(id)
                            &&& m[id].tenant_id == tenant_id@
                            &&& m[id].status == NodeStatus::Active
                            &&& model::names_source(m[id].capabilities, s)
                        };
                    let e = crate::strmap::key_index(es, id);
                    assert(0 <= e < es.len() && es[e].0@ == id);
                    assert(es[e].1.tenant_id@ == tenant_id@);
                }
            }
        }
        Ok(out)
    }

    fn update_node_cert(
        &mut self,
        id: &str,
        serial: Vec<u8>,
        expiry: Timestamp,
        cert_pem: String,
    ) -> (r: Result<(), StoreError>) {
        let mut n: NodeRecord = match self.nodes.get(id) {
            Some(n) => n.clone(),
            None => {
                return Err(StoreError::NodeNotFound(id.to_string()));
            },
        };
        n.cert_serial = Some(serial);
        n.cert_expiry = Some(expiry);
        self.nodes.insert(id.to_string(), n);
        self.node_certs.insert(id.to_string(), cert_pem);
        proof {
            lemma_held_insert(old(self).nodes@, id@, n);
            lemma_held_insert(old(self).node_certs@, id@, cert_pem);
            assert(self.holds() =~= StoreModel {
                certs: old(self).holds().certs.insert(id@, cert_pem@),
                ..old(self).holds().node_changed(
                    id@,
                    NodeView {
                        cert_serial: Some(serial@),
                        cert_expiry: Some(expiry),
                        ..old(self).holds().nodes[id@]
                    },
                )
            });
        }
        Ok(())
    }

    fn update_current_cert_meta(&mut self, id: &str, serial: Vec<u8>, expiry: Timestamp) -> (r: Result<(), StoreError>) {
        let mut n: NodeRecord = match self.nodes.get(id) {
            Some(n) => n.clone(),
            None => {
                return Err(StoreError::NodeNotFound(id.to_string()));
            },
        };
        n.cert_serial = Some(serial);
        n.cert_expiry = Some(expiry);
        self.nodes.insert(id.to_string(), n);
        proof {
            lemma_held_insert(old(self).nodes@, id@, n);
            assert(self.holds() =~= old(self).holds().node_changed(id@, NodeView { cert_serial: Some(serial@), cert_expiry: Some(expiry), ..old(self).holds().nodes[id@] }));
        }
        Ok(())
    }

    fn update_node_stop_behavior(&mut self, id: &str, behavior: Option<&str>) -> (r: Result<(), StoreError>) {
        let mut n: NodeRecord = match self.nodes.get(id) {
            Some(n) => n.clone(),
            None => {
                return Err(StoreError::NodeNotFound(id.to_string()));
            },
        };
        n.stop_behavior = text::owned_opt(behavior);
        self.nodes.insert(id.to_string(), n);
        proof {
            lemma_held_insert(old(self).nodes@, id@, n);
            assert(self.holds() =~= old(self).holds().node_changed(id@, NodeView { stop_behavior: text::opt_str(behavior), ..old(self).holds().nodes[id@] }));
        }
        Ok(())
    }

    fn update_node_metrics_interval(&mut self, id: &str, secs: Option<u32>) -> (r: Result<(), StoreError>) {
        let mut n: NodeRecord = match self.nodes.get(id) {
            Some(n) => n.clone(),
            None => {
                return Err(StoreError::NodeNotFound(id.to_string()));
            },
        };
        n.metrics_interval_secs = secs;
        self.nodes.insert(id.to_string(), n);
        proof {
            lemma_held_insert(old(self).nodes@, id@, n);
            assert(self.holds() =~= old(self).holds().node_changed(id@, NodeView { metrics_interval_secs: secs, ..old(self).holds().nodes[id@] }));
        }
        Ok(())
    }

    fn set_node_inspect_mode(&mut self, node_id: &str, mode: &str) -> (r: Result<(), StoreError>) {
        let found: Option<NodeRecord> = match self.nodes.get(node_id) {
            Some(n) => Some(n.clone()),
            None => None,
        };
        if let Some(node) = found {
            let mut n = node;
            n.inspect_mode = mode.to_string();
            self.nodes.insert(node_id.to_string(), n);
            proof {
                lemma_held_insert(old(self).nodes@, node_id@, n);
                assert(self.holds() =~= old(self).holds().node_changed(
                    node_id@,
                    NodeView { inspect_mode: mode@, ..old(self).holds().nodes[node_id@] },
                ));
            }
        }
        Ok(())
    }

    fn revoke_cert(&mut self, serial: &[u8]) -> (r: Result<(), StoreError>) {
        self.revoked_serials.push(records::copy_bytes(serial));
        proof {
            let before = super::byte_views(old(self).revoked_serials@);
            let after = super::byte_views(self.revoked_serials@);
            assert(after =~= before.push(serial@));
            assert(after.to_set() =~= before.to_set().insert(serial@)) by {
                assert forall|x: Seq<u8>| after.contains(x) == (before.contains(x) || x
                    == serial@) by {
                    if before.contains(x) {
                        let i = choose|i: int| 0 <= i < before.len() && before[i] == x;
                        assert(after[i] == x);
                    }
                    if x == serial@ {
                        assert(after[before.len() as int] == x);
                    }
                }
            }
            assert(self.holds() =~= StoreModel {
                revoked: old(self).holds().revoked.insert(serial@),
                ..old(self).holds()
            });
        }
        Ok(())
    }

    fn is_cert_revoked(&self, serial: &[u8]) -> (r: Result<bool, StoreError>) {
        let ghost views = super::byte_views(self.revoked_serials@);
        let mut i: usize = 0;
        while i < self.revoked_serials.len()
            invariant
                i <= self.revoked_serials@.len(),
                views == super::byte_views(self.revoked_serials@),
                forall|j: int| 0 <= j < i ==> #[trigger] views[j] != serial@,
            decreases self.revoked_serials@.len() - i,
        {
            assert(views[i as int] == self.revoked_serials@[i as int]@);
            if records::same_bytes(self.revoked_serials[i].as_slice(), serial) {
                return Ok(true);
            }
            i = i + 1;
        }
        Ok(false)
    }

    fn list_revoked_serials(&self) -> (r: Result<Vec<Vec<u8>>, StoreError>) {
        let mut v: Vec<Vec<u8>> = Vec::new();
        let mut i: usize = 0;
        while i < self.revoked_serials.len()
            invariant
                i <= self.revoked_serials@.len(),
                v@.len() == i,
                forall|j: int| 0 <= j < i ==> (#[trigger] v@[j])@ == self.revoked_serials@[j]@,
            decreases self.revoked_serials@.len() - i,
        {
            v.push(records::copy_bytes(self.revoked_serials[i].as_slice()));
            i = i + 1;
        }
        assert(super::byte_views(v@) =~= super::byte_views(self.revoked_serials@));
        Ok(v)
    }

    fn create_rule(&mut self, rule: &Rule) -> (r: Result<(), StoreError>) {
        let mut copy = rule.clone();
        if let Some(known) = self.rules.get(rule.id.as_str()) {
            copy.created_at = known.created_at;
            copy.created_by = records::copy_opt(&known.created_by);
        }
        self.rules.insert(rule.id.clone(), copy);
        proof {
            lemma_held_insert(old(self).rules@, rule.id@, copy);
            assert(self.holds() =~= StoreModel {
                rules: model::rule_created(old(self).holds().rules, rule@),
                ..old(self).holds()
            });
        }
        Ok(())
    }

    fn delete_rule(&mut self, rule_id: &str) -> (r: Result<(), StoreError>) {
        let _removed = self.rules.remove(rule_id);
        proof {
            lemma_held_remove(old(self).rules@, rule_id@);
            assert(self.holds() =~= StoreModel {
                rules: old(self).holds().rules.remove(rule_id@),
                ..old(self).holds()
            });
        }
        Ok(())
    }

    fn get_rule(&self, rule_id: &str) -> (r: Result<Option<Rule>, StoreError>) {
        match self.rules.get(rule_id) {
            Some(rule) => Ok(Some(rule.clone())),
            None => Ok(None),
        }
    }

    fn list_rules_for_node(&self, node_id: &str) -> (r: Result<Vec<Rule>, StoreError>) {
        let wanted = |rule: &Rule| -> (b: bool)
                ensures
                    b == (rule.node_id@ == node_id@)
        { text::same(rule.node_id.as_str(), node_id) };
        let v = select(
            &self.rules,
            wanted,
            Ghost(|rule: RuleView| rule.node_id == node_id@),
        );
        Ok(v)
    }

    fn list_rules_for_interface(
        &self,
        node_id: &str,
        interface_name: &str,
        direction: &str,
    ) -> (r: Result<Vec<Rule>, StoreError>) {
        let wanted = |rule: &Rule| -> (b: bool)
                ensures
                    b == (rule.node_id@ == node_id@ && rule.interface_name@ == interface_name@
                        && rule.direction@ == direction@)
        {
                    text::same(rule.node_id.as_str(), node_id) && text::same(
                        rule.interface_name.as_str(),
                        interface_name,
                    ) && text::same(rule.direction.as_str(), direction)
                };
        let v = select(
            &self.rules,
            wanted,
            Ghost(
                |rule: RuleView|
                    rule.node_id == node_id@ && rule.interface_name == interface_name@
                        && rule.direction == direction@,
            ),
        );
        Ok(v)
    }

    fn delete_rules_for_node(&mut self, node_id: &str) -> (r: Result<(), StoreError>) {
        let wanted = |k: &String, rule: &Rule| -> (b: bool)
                ensures
                    b == (rule.node_id@ != node_id@)
        { !text::same(rule.node_id.as_str(), node_id) };
        self.rules = retain(
            &self.rules,
            wanted,
            Ghost(|k: Seq<char>, rule: RuleView| rule.node_id != node_id@),
        );
        proof {
            assert(self.holds() =~= StoreModel {
                rules: model::kept(
                    old(self).holds().rules,
                    |k: Seq<char>, rule: RuleView| rule.node_id != node_id@,
                ),
                ..old(self).holds()
            });
        }
        Ok(())
    }

    fn replace_rules_for_node(&mut self, node_id: &str, new_rules: &[Rule]) -> (r: Result<
        DiffSummary,
        StoreError,
    >) {
        let mut i: usize = 0;
        while i < new_rules.len()
            invariant
                i <= new_rules@.len(),
                self.holds() == old(self).holds(),
                forall|j: int| 0 <= j < i ==> (#[trigger] new_rules@[j]).node_id@ == node_id@,
            decreases new_rules@.len() - i,
        {
            if !text::same(new_rules[i].node_id.as_str(), node_id) {
                return Err(
                    StoreError::ForeignRule {
                        rule_id: new_rules[i].id.clone(),
                        rule_node_id: new_rules[i].node_id.clone(),
                        node_id: node_id.to_string(),
                    },
                );
            }
            i = i + 1;
        }
        let ghost views = super::rule_views(new_rules@);
        let ghost before = held(self.rules@);
        let ghost stale = model::stale_rules(before, node_id@, views);
        let count_before: usize = self.rules.len();
        let wanted = |k: &String, rule: &Rule| -> (b: bool)
                ensures
                    b == !(rule.node_id@ == node_id@ && !model::has_rule_id(
                        super::rule_views(new_rules@),
                        k@,
                    ))
        {
                    !(text::same(rule.node_id.as_str(), node_id) && !names_rule(
                        new_rules,
                        k.as_str(),
                    ))
                };
        let mut rules: StrMap<Rule> = retain(
            &self.rules,
            wanted,
            Ghost(
                |k: Seq<char>, rule: RuleView|
                    !(rule.node_id == node_id@ && !model::has_rule_id(views, k)),
            ),
        );
        let count_after: usize = rules.len();
        let mut summary = DiffSummary::new();
        proof {
            assert(held(rules@) =~= before.remove_keys(stale.dom()));
            assert(self.rules@.dom() =~= before.dom());
            assert(rules@.dom() =~= held(rules@).dom());
            assert(held(rules@).dom() =~= before.dom().difference(stale.dom()));
            assert(stale.dom().subset_of(before.dom()));
            vstd::set_lib::lemma_len_subset(stale.dom(), before.dom());
            vstd::set_lib::lemma_set_disjoint_lens(rules@.dom(), stale.dom());
            assert(rules@.dom().union(stale.dom()) =~= before.dom());
        }
        summary.deleted = count_before - count_after;
        let ghost start = Replacement {
            rules: before.remove_keys(stale.dom()),
            counts: DiffCounts { added: 0, updated: 0, deleted: stale.dom().len(), unchanged: 0 },
        };
        let mut i: usize = 0;
        assert(views.take(0) =~= Seq::<RuleView>::empty());
        while i < new_rules.len()
            invariant
                i <= new_rules.len(),
                views == super::rule_views(new_rules@),
                model::replace_all(start, views.take(i as int)) == (Replacement {
                    rules: held(rules@),
                    counts: summary@,
                }),
                summary.added <= i,
                summary.updated <= i,
                summary.unchanged <= i,
            decreases new_rules@.len() - i,
        {
            proof {
                assert(views[i as int] == new_rules@[i as int]@);
                assert(views.take(i + 1).drop_last() =~= views.take(i as int));
                assert(views.take(i + 1).last() == views[i as int]);
            }
            let rule = &new_rules[i];
            let ghost prior = rules@;
            let found: Option<bool> = match rules.get(rule.id.as_str()) {
                Some(existing) => {
                    if text::same(existing.node_id.as_str(), rule.node_id.as_str()) {
                        Some(super::rule_content_equal(existing, rule))
                    } else {
                        None
                    }
                },
                None => None,
            };
            match found {
                Some(true) => {
                    summary.unchanged = summary.unchanged + 1;
                },
                Some(false) => {
                    let copy = rule.clone();
                    rules.insert(rule.id.clone(), copy);
                    proof {
                        lemma_held_insert(prior, rule.id@, copy);
                    }
                    summary.updated = summary.updated + 1;
                },
                None => {
                    let copy = rule.clone();
                    rules.insert(rule.id.clone(), copy);
                    proof {
                        lemma_held_insert(prior, rule.id@, copy);
                    }
                    summary.added = summary.added + 1;
                },
            }
            i = i + 1;
        }
        assert(views.take(i as int) =~= views);
        self.rules = rules;
        proof {
            let p = model::replacement(before, node_id@, views);
            assert(self.holds() =~= StoreModel { rules: p.rules, ..old(self).holds() });
        }
        Ok(summary)
    }

    fn list_all_node_interfaces(&self, tenant_id: Option<&str>) -> (r: Result<
        Vec<NodeInterface>,
        StoreError,
    >) {
        let rows = self.interfaces.list();
        let ghost nodes = self.holds().nodes;
        let ghost table = self.interfaces@;
        let ghost keep = |i: InterfaceView|
            tenant_id is None || (nodes.contains_key(i.node_id) && nodes[i.node_id].tenant_id
                == tenant_id->0@);
        let ghost views = super::interface_views(rows@);
        let ghost all = |i: InterfaceView| true;
        let ghost ks = choose|ks: Seq<InterfaceKey>| model::lists_keys(views, table, all, ks);
        assert(model::lists_keys(views, table, all, ks));
        let mut v: Vec<NodeInterface> = Vec::new();
        let ghost mut vs: Seq<InterfaceKey> = Seq::empty();
        let mut i: usize = 0;
        while i < rows.len()
            invariant
                i <= rows@.len(),
                views == super::interface_views(rows@),
                nodes == held(self.nodes@),
                all == (|i: InterfaceView| true),
                keep == (|i: InterfaceView|
                    tenant_id is None || (nodes.contains_key(i.node_id)
                        && nodes[i.node_id].tenant_id == tenant_id->0@)),
                model::lists_keys(views, table, all, ks),
                vs.len() == v@.len(),
                vs.no_duplicates(),
                forall|j: int|
                    0 <= j < vs.len() ==> table.contains_key(#[trigger] vs[j]) && table[vs[j]]
                        == v@[j]@ && keep(v@[j]@),
                forall|j: int|
                    0 <= j < vs.len() ==> exists|e: int| 0 <= e < i && ks[e] == #[trigger] vs[j],
                forall|e: int| 0 <= e < i && keep(views[e]) ==> vs.contains(#[trigger] ks[e]),
            decreases rows@.len() - i,
        {
            let ghost listed = vs;
            let ghost before = v@;
            assert(views[i as int] == rows@[i as int]@);
            assert(table.contains_key(ks[i as int]));
            let meant: bool = match tenant_id {
                None => true,
                Some(t) => match self.nodes.get(rows[i].node_id.as_str()) {
                    Some(n) => text::same(n.tenant_id.as_str(), t),
                    None => false,
                },
            };
            if meant {
                v.push(rows[i].clone());
                proof {
                    vs = vs.push(ks[i as int]);
                    assert(v@[listed.len() as int]@ == views[i as int]);
                    assert(keep(views[i as int]));
                    assert forall|j: int| 0 <= j < vs.len() implies table.contains_key(
                        #[trigger] vs[j],
                    ) && table[vs[j]] == v@[j]@ && keep(v@[j]@) by {
                        if j < listed.len() {
                            assert(vs[j] == listed[j]);
                            assert(v@[j] == before[j]);
                        }
                    }
                    assert forall|j: int| 0 <= j < vs.len() implies exists|e: int|
                        0 <= e < i + 1 && ks[e] == #[trigger] vs[j] by {
                        if j < listed.len() {
                            assert(vs[j] == listed[j]);
                            let e = choose|e: int| 0 <= e < i && ks[e] == listed[j];
                            assert(ks[e] == vs[j]);
                        } else {
                            assert(ks[i as int] == vs[j]);
                        }
                    }
                    assert(vs.no_duplicates()) by {
                        assert forall|a: int, b: int| 0 <= a < b < vs.len() implies vs[a]
                            != vs[b] by {
                            assert(vs[a] == listed[a]);
                            if b == listed.len() {
                                let e = choose|e: int| 0 <= e < i && ks[e] == listed[a];
                                assert(ks[e] != ks[i as int]);
                            } else {
                                assert(vs[b] == listed[b]);
                            }
                        }
                    }
                }
            }
            proof {
                assert forall|e: int| 0 <= e < i + 1 && keep(views[e]) implies vs.contains(
                    #[trigger] ks[e],
                ) by {
                    if e < i {
                        let a = choose|a: int| 0 <= a < listed.len() && listed[a] == ks[e];
                        assert(vs[a] == ks[e]);
                    } else {
                        assert(vs[listed.len() as int] == ks[e]);
                    }
                }
            }
            i = i + 1;
        }
        proof {
            let out = super::interface_views(v@);
            assert forall|k: InterfaceKey|
                table.contains_key(k) && #[trigger] keep(table[k]) implies vs.contains(k) by {
                assert(all(table[k]));
                assert(ks.contains(k));
                let e = choose|e: int| 0 <= e < ks.len() && ks[e] == k;
                assert(views[e] == table[ks[e]]);
            }
            assert(model::lists_keys(out, table, keep, vs));
        }
        let sorted = sort_interfaces(v, Ghost(table), Ghost(keep));
        Ok(sorted)
    }

    fn upsert_node_interfaces(
        &mut self,
        node_id: &str,
        interfaces: &[InterfaceReport],
        now: Timestamp,
    ) -> (r: Result<(), StoreError>) {
        let ghost before = self.interfaces@;
        let mut i: usize = 0;
        assert(interfaces@.take(0) =~= Seq::<InterfaceReport>::empty());
        while i < interfaces.len()
            invariant
                i <= interfaces@.len(),
                self.interfaces@ == model::reported_interfaces(
                    before,
                    node_id@,
                    interfaces@.take(i as int),
                    now,
                ),
                self.holds() =~= (StoreModel {
                    interfaces: self.interfaces@,
                    ..old(self).holds()
                }),
            decreases interfaces@.len() - i,
        {
            proof {
                assert(interfaces@.take(i + 1).drop_last() =~= interfaces@.take(i as int));
                assert(interfaces@.take(i + 1).last() == interfaces@[i as int]);
            }
            let iface = &interfaces[i];
            let addresses_json = super::address_reports_to_json(iface.addresses.as_slice());
            let mac_address: Option<String> = if iface.mac_address.as_str().is_empty() {
                None
            } else {
                Some(iface.mac_address.clone())
            };
            let fresh = NodeInterface {
                node_id: node_id.to_string(),
                name: iface.name.clone(),
                ifindex: iface.ifindex,
                mac_address,
                link_state: iface.link_state.clone(),
                addresses_json,
                tag: None,
                last_reported: now,
                xdp_attached: false,
                tc_attached: false,
                fib_forwarding: false,
                urpf_mode: 0,
                inspect_enabled: false,
                ingress_default_action: None,
                egress_default_action: None,
            };
            let row = match self.interfaces.get(node_id, iface.name.as_str()) {
                Some(known) => NodeInterface {
                    tag: records::copy_opt(&known.tag),
                    xdp_attached: known.xdp_attached,
                    tc_attached: known.tc_attached,
                    fib_forwarding: known.fib_forwarding,
                    urpf_mode: known.urpf_mode,
                    inspect_enabled: known.inspect_enabled,
                    ingress_default_action: records::copy_opt(&known.ingress_default_action),
                    egress_default_action: records::copy_opt(&known.egress_default_action),
                    ..fresh
                },
                None => fresh,
            };
            self.interfaces.put(row);
            i = i + 1;
        }
        assert(interfaces@.take(i as int) =~= interfaces@);
        Ok(())
    }

    fn list_node_interfaces(&self, node_id: &str) -> (r: Result<Vec<NodeInterface>, StoreError>) {
        let v = self.interfaces.list_node(node_id);
        let sorted = sort_interfaces(
            v,
            Ghost(self.interfaces@),
            Ghost(|i: InterfaceView| i.node_id == node_id@),
        );
        Ok(sorted)
    }

    fn set_interface_tag(&mut self, node_id: &str, interface_name: &str, tag: &str) -> (r: Result<
        (),
        StoreError,
    >) {
        let mut row: NodeInterface = match self.interfaces.get(node_id, interface_name) {
            Some(i) => i.clone(),
            None => {
                return Err(
                    StoreError::InterfaceNotFound {
                        node_id: node_id.to_string(),
                        interface_name: interface_name.to_string(),
                    },
                );
            },
        };
        row.tag = Some(tag.to_string());
        self.interfaces.put(row);
        proof {
            let key = (node_id@, interface_name@);
            assert(self.holds() =~= StoreModel {
                interfaces: old(self).holds().interfaces.insert(
                    key,
                    InterfaceView { tag: Some(tag@), ..old(self).holds().interfaces[key] },
                ),
                ..old(self).holds()
            });
        }
        Ok(())
    }

    fn remove_interface_tag(&mut self, node_id: &str, interface_name: &str) -> (r: Result<
        (),
        StoreError,
    >) {
        let found: Option<NodeInterface> = match self.interfaces.get(node_id, interface_name) {
            Some(i) => Some(i.clone()),
            None => None,
        };
        if let Some(known) = found {
            let mut row = known;
            row.tag = None;
            self.interfaces.put(row);
            proof {
                let key = (node_id@, interface_name@);
                assert(self.holds() =~= StoreModel {
                    interfaces: old(self).holds().interfaces.insert(
                        key,
                        InterfaceView { tag: None, ..old(self).holds().interfaces[key] },
                    ),
                    ..old(self).holds()
                });
            }
        }
        Ok(())
    }

    fn update_interface_attachments(&mut self, node_id: &str, attachments: &[(String, String)]) -> (r: Result<(), StoreError>) {
        change_interfaces(&mut self.interfaces, node_id, &InterfaceChange::Attachments(attachments));
        proof {
            assert(self.holds() =~= StoreModel {
                interfaces: model::node_interfaces_changed(
                    old(self).holds().interfaces,
                    node_id@,
                    |i: InterfaceView|
                        InterfaceView {
                            xdp_attached: model::attached(attachments@, i.name, "ingress"@),
                            tc_attached: model::attached(attachments@, i.name, "egress"@),
                            ..i
                        },
                ),
                ..old(self).holds()
            });
        }
        Ok(())
    }

    fn update_interface_fib_forwarding(&mut self, node_id: &str, enabled_interfaces: &[String]) -> (r: Result<(), StoreError>) {
        change_interfaces(&mut self.interfaces, node_id, &InterfaceChange::FibForwarding(enabled_interfaces));
        proof {
            assert(self.holds() =~= StoreModel {
                interfaces: model::node_interfaces_changed(
                    old(self).holds().interfaces,
                    node_id@,
                    |i: InterfaceView|
                        InterfaceView {
                            fib_forwarding: model::names_contain(enabled_interfaces@, i.name),
                            ..i
                        },
                ),
                ..old(self).holds()
            });
        }
        Ok(())
    }

    fn update_interface_urpf(&mut self, node_id: &str, interface_modes: &[(String, u32)]) -> (r: Result<(), StoreError>) {
        change_interfaces(&mut self.interfaces, node_id, &InterfaceChange::Urpf(interface_modes));
        proof {
            assert(self.holds() =~= StoreModel {
                interfaces: model::node_interfaces_changed(
                    old(self).holds().interfaces,
                    node_id@,
                    |i: InterfaceView|
                        InterfaceView { urpf_mode: model::mode_of(interface_modes@, i.name), ..i },
                ),
                ..old(self).holds()
            });
        }
        Ok(())
    }

    fn update_interface_inspect(&mut self, node_id: &str, enabled_interfaces: &[String]) -> (r: Result<(), StoreError>) {
        change_interfaces(&mut self.interfaces, node_id, &InterfaceChange::Inspect(enabled_interfaces));
        proof {
            assert(self.holds() =~= StoreModel {
                interfaces: model::node_interfaces_changed(
                    old(self).holds().interfaces,
                    node_id@,
                    |i: InterfaceView|
                        InterfaceView {
                            inspect_enabled: model::names_contain(enabled_interfaces@, i.name),
                            ..i
                        },
                ),
                ..old(self).holds()
            });
        }
        Ok(())
    }

    fn update_interface_inspect_enabled(&mut self, node_id: &str, interface_name: &str, enabled: bool) -> (r: Result<(), StoreError>) {
        change_interfaces(&mut self.interfaces, node_id, &InterfaceChange::InspectOne(interface_name, enabled));
        proof {
            assert(self.holds() =~= StoreModel {
                interfaces: model::node_interfaces_changed(
                    old(self).holds().interfaces,
                    node_id@,
                    |i: InterfaceView|
                        if i.name == interface_name@ {
                            InterfaceView { inspect_enabled: enabled, ..i }
                        } else {
                            i
                        },
                ),
                ..old(self).holds()
            });
        }
        Ok(())
    }

    fn update_interface_default_action(
        &mut self,
        node_id: &str,
        interface_name: &str,
        direction: &str,
        action: &str,
    ) -> (r: Result<(), StoreError>) {
        let mut row: NodeInterface = match self.interfaces.get(node_id, interface_name) {
            Some(i) => i.clone(),
            None => {
                return Err(
                    StoreError::InterfaceNotFound {
                        node_id: node_id.to_string(),
                        interface_name: interface_name.to_string(),
                    },
                );
            },
        };
        let lower = direction.to_lowercase();
        if text::same(lower.as_str(), "ingress") {
            row.ingress_default_action = Some(action.to_string());
        } else if text::same(lower.as_str(), "egress") {
            row.egress_default_action = Some(action.to_string());
        } else {
            return Err(StoreError::InvalidDirection(direction.to_string()));
        }
        self.interfaces.put(row);
        proof {
            let key = (node_id@, interface_name@);
            assert(self.holds() =~= StoreModel {
                interfaces: old(self).holds().interfaces.insert(
                    key,
                    super::with_default_action(
                        old(self).holds().interfaces[key],
                        direction@,
                        action@,
                    )->0,
                ),
                ..old(self).holds()
            });
        }
        Ok(())
    }

    fn store_node_cert_pem(&mut self, node_id: &str, cert_pem: &str) -> (r: Result<(), StoreError>) {
        let copy = cert_pem.to_string();
        self.node_certs.insert(node_id.to_string(), copy);
        proof {
            lemma_held_insert(old(self).node_certs@, node_id@, copy);
            assert(self.holds() =~= StoreModel {
                certs: old(self).holds().certs.insert(node_id@, cert_pem@),
                ..old(self).holds()
            });
        }
        Ok(())
    }

    fn get_node_cert_pem(&self, node_id: &str) -> (r: Result<Option<String>, StoreError>) {
        match self.node_certs.get(node_id) {
            Some(pem) => Ok(Some(pem.clone())),
            None => Ok(None),
        }
    }

    fn append_audit(&mut self, entry: NewAuditEntry, now: Timestamp) -> (r: Result<(), StoreError>)
        ensures
            final(self).model().audit.last().id == old(self).model().audit.len() as i64,
    {
        let tenant_id: String = match &entry.tenant_id {
            Some(t) => t.clone(),
            None => match &entry.node_id {
                Some(nid) => match self.nodes.get(nid.as_str()) {
                    Some(n) => n.tenant_id.clone(),
                    None => super::default_tenant(),
                },
                None => super::default_tenant(),
            },
        };
        let row = AuditEntry {
            id: self.audit_log.len() as i64,
            ts: now,
            operator: entry.operator,
            action: entry.action,
            node_id: entry.node_id,
            detail: entry.detail,
            tenant_id,
        };
        self.audit_log.push(row);
        proof {
            assert(super::audit_views(self.audit_log@) =~= super::audit_views(
                old(self).audit_log@,
            ).push(row@));
            assert(self.holds() =~= old(self).holds().audited(row.id, entry@, now));
        }
        Ok(())
    }

    fn list_audit(&self, tenant_id: Option<&str>, limit: u32, offset: u32) -> (r: Result<
        Vec<AuditEntry>,
        StoreError,
    >) {
        let wanted = |e: &AuditEntry| -> (b: bool)
                ensures
                    b == model::in_scope(text::opt_str(tenant_id), e.tenant_id@)
        { scope_takes(tenant_id, e.tenant_id.as_str()) };
        let all = select_audit(
            &self.audit_log,
            wanted,
            Ghost(|e: AuditView| model::in_scope(text::opt_str(tenant_id), e.tenant_id)),
        );
        Ok(page_of(all, offset as usize, limit as usize))
    }

    fn list_audit_between(
        &self,
        tenant_id: Option<&str>,
        from: Option<i64>,
        to: Option<i64>,
        cap: u32,
    ) -> (r: Result<Vec<AuditEntry>, StoreError>) {
        let wanted = |e: &AuditEntry| -> (b: bool)
                ensures
                    b == (model::in_scope(text::opt_str(tenant_id), e.tenant_id@) && (from is None
                        || from->0 <= e.ts.secs) && (to is None || e.ts.secs <= to->0))
        {
                    scope_takes(tenant_id, e.tenant_id.as_str()) && (match from {
                        Some(f) => f <= e.ts.secs,
                        None => true,
                    }) && (match to {
                        Some(t) => e.ts.secs <= t,
                        None => true,
                    })
                };
        let all = select_audit(
            &self.audit_log,
            wanted,
            Ghost(
                |e: AuditView|
                    model::in_scope(text::opt_str(tenant_id), e.tenant_id) && (from is None
                        || from->0 <= e.ts.secs) && (to is None || e.ts.secs <= to->0),
            ),
        );
        Ok(page_of(all, 0, cap as usize))
    }

    fn insert_enrollment_token(&mut self, token: &EnrollmentTokenRecord) -> (r: Result<
        (),
        StoreError,
    >) {
        if self.enrollment_tokens.contains_key(token.token_id.as_str()) {
            return Err(StoreError::DuplicateToken(token.token_id.clone()));
        }
        let copy = token.clone();
        self.enrollment_tokens.insert(token.token_id.clone(), copy);
        proof {
            lemma_held_insert(old(self).enrollment_tokens@, token.token_id@, copy);
            assert(self.holds() =~= StoreModel {
                tokens: old(self).holds().tokens.insert(token.token_id@, token@),
                ..old(self).holds()
            });
        }
        Ok(())
    }

    fn list_enrollment_tokens(&self, tenant_id: Option<&str>) -> (r: Result<
        Vec<EnrollmentTokenRecord>,
        StoreError,
    >) {
        let ghost keep = |t: TokenView| model::in_scope(text::opt_str(tenant_id), t.tenant_id);
        let wanted = |t: &EnrollmentTokenRecord| -> (b: bool)
                ensures
                    b == model::in_scope(text::opt_str(tenant_id), t.tenant_id@)
        { scope_takes(tenant_id, t.tenant_id.as_str()) };
        let v = select(
            &self.enrollment_tokens,
            wanted,
            Ghost(keep),
        );
        proof {
            order::in_order_sorts(v@);
            order::lemma_views_listed(
                v@,
                |t: EnrollmentTokenRecord| t@,
                held(self.enrollment_tokens@),
                keep,
            );
        }
        Ok(order::sort(v))
    }

    fn revoke_enrollment_token(&mut self, token_id: &str, now: Timestamp) -> (r: Result<
        bool,
        StoreError,
    >) {
        let found: Option<EnrollmentTokenRecord> = match self.enrollment_tokens.get(token_id) {
            Some(t) => Some(t.clone()),
            None => None,
        };
        if let Some(known) = found {
            let mut t = known;
            if t.revoked_at.is_none() {
                t.revoked_at = Some(now);
                self.enrollment_tokens.insert(token_id.to_string(), t);
                proof {
                    lemma_held_insert(old(self).enrollment_tokens@, token_id@, t);
                    assert(self.holds() =~= StoreModel {
                        tokens: old(self).holds().tokens.insert(
                            token_id@,
                            TokenView {
                                revoked_at: Some(now),
                                ..old(self).holds().tokens[token_id@]
                            },
                        ),
                        ..old(self).holds()
                    });
                }
                return Ok(true);
            }
        }
        Ok(false)
    }

    fn redeem_enrollment_token(&mut self, token_id: &str, token_hash: &[u8], now: Timestamp) -> (r:
        Result<TokenRedeemOutcome, StoreError>) {
        let mut t: EnrollmentTokenRecord = match self.enrollment_tokens.get(token_id) {
            Some(t) => t.clone(),
            None => {
                return Ok(TokenRedeemOutcome::Unknown);
            },
        };
        let outcome = super::decide_redemption(&t, token_hash, &now);
        if let TokenRedeemOutcome::Redeemed { .. } = &outcome {
            t.uses_remaining = t.uses_remaining - 1;
            self.enrollment_tokens.insert(token_id.to_string(), t);
            proof {
                let known = old(self).holds().tokens[token_id@];
                lemma_held_insert(old(self).enrollment_tokens@, token_id@, t);
                assert(self.holds() =~= StoreModel {
                    tokens: old(self).holds().tokens.insert(
                        token_id@,
                        TokenView { uses_remaining: (known.uses_remaining - 1) as i64, ..known },
                    ),
                    ..old(self).holds()
                });
            }
        }
        Ok(outcome)
    }

    fn create_suricata_ruleset(&mut self, ruleset: &SuricataRuleset) -> (r: Result<
        (),
        StoreError,
    >) {
        let n: usize = self.suricata_rulesets.len();
        let mut i: usize = 0;
        while i < n
            invariant
                i <= n == self.suricata_rulesets.entries().len(),
                self.holds() == old(self).holds(),
                crate::strmap::keys_unique(self.suricata_rulesets.entries()),
                self.suricata_rulesets@ == crate::strmap::entries_map(
                    self.suricata_rulesets.entries(),
                ),
                forall|j: int|
                    0 <= j < i ==> !((#[trigger] self.suricata_rulesets.entries()[j]).1.tenant_id@
                        == ruleset.tenant_id@ && self.suricata_rulesets.entries()[j].1.name@
                        == ruleset.name@),
            decreases n - i,
        {
            let (_k, known) = self.suricata_rulesets.at(i);
            if text::same(known.tenant_id.as_str(), ruleset.tenant_id.as_str()) && text::same(
                known.name.as_str(),
                ruleset.name.as_str(),
            ) {
                assert(self.holds().rulesets.contains_key(_k@));
                return Err(StoreError::RulesetNameTaken(ruleset.name.clone()));
            }
            i = i + 1;
        }
        proof {
            assert forall|id: Seq<char>| #[trigger]
                self.holds().rulesets.contains_key(id) implies !(
            self.holds().rulesets[id].tenant_id == ruleset.tenant_id@
                && self.holds().rulesets[id].name == ruleset.name@) by {
                let es = self.suricata_rulesets.entries();
                let e = crate::strmap::key_index(es, id);
                assert(0 <= e < es.len() && es[e].0@ == id);
                crate::strmap::lemma_entry(es, e);
            }
        }
        let copy = ruleset.clone();
        self.suricata_rulesets.insert(ruleset.id.clone(), copy);
        proof {
            lemma_held_insert(old(self).suricata_rulesets@, ruleset.id@, copy);
            assert(self.holds() =~= StoreModel {
                rulesets: old(self).holds().rulesets.insert(ruleset.id@, ruleset@),
                ..old(self).holds()
            });
        }
        Ok(())
    }

    fn update_suricata_ruleset(
        &mut self,
        id: &str,
        content: &str,
        sha256: &str,
        rule_count: u32,
        updated_at: Timestamp,
    ) -> (r: Result<(), StoreError>) {
        let mut rs: SuricataRuleset = match self.suricata_rulesets.get(id) {
            Some(rs) => rs.clone(),
            None => {
                return Err(StoreError::RulesetNotFound(id.to_string()));
            },
        };
        rs.content = content.to_string();
        rs.sha256 = sha256.to_string();
        rs.rule_count = rule_count;
        rs.updated_at = updated_at;
        self.suricata_rulesets.insert(id.to_string(), rs);
        proof {
            lemma_held_insert(old(self).suricata_rulesets@, id@, rs);
            assert(self.holds() =~= StoreModel {
                rulesets: old(self).holds().rulesets.insert(
                    id@,
                    RulesetView {
                        content: content@,
                        sha256: sha256@,
                        rule_count,
                        updated_at,
                        ..old(self).holds().rulesets[id@]
                    },
                ),
                ..old(self).holds()
            });
        }
        Ok(())
    }

    fn delete_suricata_ruleset(&mut self, id: &str) -> (r: Result<(), StoreError>) {
        let _removed = self.suricata_rulesets.remove(id);
        let wanted = |p: &(String, String)| -> (b: bool)
                ensures
                    b == (p.1@ != id@)
        { !text::same(p.1.as_str(), id) };
        let kept = retain_pairs(
            &self.suricata_assignments,
            wanted,
            Ghost(|p: (Seq<char>, Seq<char>)| p.1 != id@),
        );
        self.suricata_assignments = kept;
        proof {
            lemma_held_remove(old(self).suricata_rulesets@, id@);
            assert(self.holds() =~= StoreModel {
                rulesets: old(self).holds().rulesets.remove(id@),
                assignments: old(self).holds().assignments.filter(
                    |p: (Seq<char>, Seq<char>)| p.1 != id@,
                ),
                ..old(self).holds()
            });
        }
        Ok(())
    }

    fn get_suricata_ruleset(&self, id: &str) -> (r: Result<Option<SuricataRuleset>, StoreError>) {
        match self.suricata_rulesets.get(id) {
            Some(rs) => Ok(Some(rs.clone())),
            None => Ok(None),
        }
    }

    fn list_suricata_rulesets(&self, tenant_id: Option<&str>) -> (r: Result<
        Vec<SuricataRuleset>,
        StoreError,
    >) {
        let ghost keep = |rs: RulesetView| model::in_scope(text::opt_str(tenant_id), rs.tenant_id);
        let wanted = |rs: &SuricataRuleset| -> (b: bool)
                ensures
                    b == model::in_scope(text::opt_str(tenant_id), rs.tenant_id@)
        { scope_takes(tenant_id, rs.tenant_id.as_str()) };
        let v = select(
            &self.suricata_rulesets,
            wanted,
            Ghost(keep),
        );
        proof {
            order::in_order_sorts(v@);
            order::lemma_views_listed(
                v@,
                |rs: SuricataRuleset| rs@,
                held(self.suricata_rulesets@),
                keep,
            );
        }
        Ok(order::sort(v))
    }

    fn assign_suricata_ruleset(&mut self, node_id: &str, ruleset_id: &str) -> (r: Result<
        (),
        StoreError,
    >) {
        let ghost before = self.suricata_assignments@;
        if has_pair(&self.suricata_assignments, node_id, ruleset_id) {
            proof {
                assert(self.holds().assignments.insert((node_id@, ruleset_id@))
                    =~= self.holds().assignments);
                assert(self.holds() =~= StoreModel {
                    assignments: old(self).holds().assignments.insert((node_id@, ruleset_id@)),
                    ..old(self).holds()
                });
            }
            return Ok(());
        }
        self.suricata_assignments.push((node_id.to_string(), ruleset_id.to_string()));
        proof {
            let f = |p: (String, String)| (p.0@, p.1@);
            let was = before.map_values(f);
            let now = self.suricata_assignments@.map_values(f);
            assert(now =~= was.push((node_id@, ruleset_id@)));
            assert(now.to_set() =~= was.to_set().insert((node_id@, ruleset_id@))) by {
                assert forall|x: (Seq<char>, Seq<char>)| now.contains(x) == (was.contains(x) || x
                    == (node_id@, ruleset_id@)) by {
                    if was.contains(x) {
                        let i = choose|i: int| 0 <= i < was.len() && was[i] == x;
                        assert(now[i] == x);
                    }
                    if x == (node_id@, ruleset_id@) {
                        assert(now[was.len() as int] == x);
                    }
                }
            }
            assert(self.holds() =~= StoreModel {
                assignments: old(self).holds().assignments.insert((node_id@, ruleset_id@)),
                ..old(self).holds()
            });
        }
        Ok(())
    }

    fn unassign_suricata_ruleset(&mut self, node_id: &str, ruleset_id: &str) -> (r: Result<
        (),
        StoreError,
    >) {
        let wanted = |p: &(String, String)| -> (b: bool)
                ensures
                    b == ((p.0@, p.1@) != (node_id@, ruleset_id@))
        { !(text::same(p.0.as_str(), node_id) && text::same(p.1.as_str(), ruleset_id)) };
        let kept = retain_pairs(
            &self.suricata_assignments,
            wanted,
            Ghost(|p: (Seq<char>, Seq<char>)| p != (node_id@, ruleset_id@)),
        );
        self.suricata_assignments = kept;
        proof {
            assert(self.holds().assignments =~= old(self).holds().assignments.remove(
                (node_id@, ruleset_id@),
            ));
            assert(self.holds() =~= StoreModel {
                assignments: old(self).holds().assignments.remove((node_id@, ruleset_id@)),
                ..old(self).holds()
            });
        }
        Ok(())
    }

    fn list_suricata_rulesets_for_node(&self, node_id: &str) -> (r: Result<
        Vec<SuricataRuleset>,
        StoreError,
    >) {
        let ghost assigned = self.holds().assignments;
        let ghost m = model::kept(
            held(self.suricata_rulesets@),
            |id: Seq<char>, rs: RulesetView| assigned.contains((node_id@, id)),
        );
        let ghost keep = |rs: RulesetView| true;
        let wanted = |id: &String, rs: &SuricataRuleset| -> (b: bool)
                ensures
                    b == pair_set(self.suricata_assignments@).contains((node_id@, id@))
        { has_pair(&self.suricata_assignments, node_id, id.as_str()) };
        let chosen = retain(
            &self.suricata_rulesets,
            wanted,
            Ghost(|id: Seq<char>, rs: RulesetView| assigned.contains((node_id@, id))),
        );
        let wanted = |rs: &SuricataRuleset| -> (b: bool)
                ensures
                    b
        { true };
        let v = select(
            &chosen,
            wanted,
            Ghost(keep),
        );
        proof {
            order::in_order_sorts(v@);
            order::lemma_views_listed(v@, |rs: SuricataRuleset| rs@, m, keep);
        }
        Ok(order::sort(v))
    }

    fn list_nodes_for_suricata_ruleset(&self, ruleset_id: &str) -> (r: Result<
        Vec<String>,
        StoreError,
    >) {
        let ghost assigned = self.holds().assignments;
        let ghost f = |p: (String, String)| (p.0@, p.1@);
        let ghost pairs = self.suricata_assignments@.map_values(f);
        let mut out: Vec<String> = Vec::new();
        let mut i: usize = 0;
        assert(text::texts(out@) =~= Seq::<Seq<char>>::empty());
        while i < self.suricata_assignments.len()
            invariant
                i <= self.suricata_assignments@.len(),
                f == (|p: (String, String)| (p.0@, p.1@)),
                pairs == self.suricata_assignments@.map_values(f),
                text::texts(out@).no_duplicates(),
                forall|n: Seq<char>| #[trigger]
                    text::texts(out@).to_set().contains(n) <==> pairs.take(
                        i as int,
                    ).contains((n, ruleset_id@)),
            decreases self.suricata_assignments@.len() - i,
        {
            let ghost prior = text::texts(out@).to_set();
            let p = &self.suricata_assignments[i];
            let meant = text::same(p.1.as_str(), ruleset_id);
            if meant {
                text::add_once(&mut out, p.0.as_str());
            }
            proof {
                assert(pairs[i as int] == (p.0@, p.1@));
                assert(pairs.take(i + 1) =~= pairs.take(i as int).push(pairs[i as int]));
                assert forall|n: Seq<char>| #[trigger]
                    text::texts(out@).to_set().contains(n) <==> pairs.take(
                        i + 1,
                    ).contains((n, ruleset_id@)) by {
                    let x = (n, ruleset_id@);
                    let was = pairs.take(i as int);
                    let now = pairs.take(i + 1);
                    if was.contains(x) {
                        let j = choose|j: int| 0 <= j < was.len() && was[j] == x;
                        assert(now[j] == x);
                    }
                    if now.contains(x) {
                        let j = choose|j: int| 0 <= j < now.len() && now[j] == x;
                        if j < was.len() {
                            assert(was[j] == x);
                        }
                    }
                    if pairs[i as int] == x {
                        assert(now[i as int] == x);
                    }
                    assert(prior.contains(n) == was.contains(x));
                }
            }
            i = i + 1;
        }
        proof {
            assert(pairs.take(i as int) =~= pairs);
            order::in_order_sorts(out@);
            order::lemma_strings_sorted(out@);
            assert forall|n: Seq<char>| #[trigger]
                text::texts(order::in_order(out@)).contains(n) <==> assigned.contains(
                    (n, ruleset_id@),
                ) by {
                assert(text::texts(out@).to_set().contains(n) == text::texts(
                    out@,
                ).contains(n));
            }
        }
        Ok(order::sort(out))
    }

    fn replace_node_suricata_rule_files(
        &mut self,
        node_id: &str,
        files: &[SuricataRuleFileReport],
    ) -> (r: Result<(), StoreError>) {
        let copy = copy_rule_files(files);
        self.suricata_rule_files.insert(node_id.to_string(), copy);
        proof {
            assert(self.holds() =~= StoreModel {
                rule_files: old(self).holds().rule_files.insert(
                    node_id@,
                    super::rule_file_views(files@),
                ),
                ..old(self).holds()
            });
        }
        Ok(())
    }

    fn list_node_suricata_rule_files(&self, node_id: &str) -> (r: Result<
        Vec<SuricataRuleFileReport>,
        StoreError,
    >) {
        let v: Vec<SuricataRuleFileReport> = match self.suricata_rule_files.get(node_id) {
            Some(files) => copy_rule_files(files.as_slice()),
            None => Vec::new(),
        };
        proof {
            order::in_order_sorts(v@);
            order::lemma_views_same_multiset(
                v@,
                order::in_order(v@),
                |f: SuricataRuleFileReport| f@,
            );
            assert(super::rule_file_views(v@) =~= (
            if self.holds().rule_files.contains_key(node_id@) {
                self.holds().rule_files[node_id@]
            } else {
                Seq::empty()
            }));
        }
        Ok(order::sort(v))
    }

    fn insert_suricata_alerts(&mut self, alerts: &[NewSuricataAlert]) -> (r: Result<
        (),
        StoreError,
    >)
        ensures
            ({
                let first = old(self).next_alert();
                let n = old(self).model().alerts.len();
                first + alerts@.len() <= i64::MAX ==> final(self).next_alert() == first
                    + alerts@.len() && forall|i: int|
                    n <= i < n + alerts@.len() ==> (#[trigger] final(self).model().alerts[i]).id
                        == first + i - n
            }),
    {
        let ghost first = self.next_alert_id;
        let ghost before = self.suricata_alerts@;
        let ghost views = super::alert_views(before);
        let mut i: usize = 0;
        assert(super::alert_views(self.suricata_alerts@).take(views.len() as int) =~= views);
        while i < alerts.len()
            invariant
                i <= alerts@.len(),
                before == old(self).suricata_alerts@,
                views == super::alert_views(before),
                self.suricata_alerts@.len() == before.len() + i,
                first == old(self).next_alert_id,
                first + alerts@.len() <= i64::MAX ==> self.next_alert_id == first + i,
                first + alerts@.len() <= i64::MAX ==> forall|k: int|
                    before.len() <= k < self.suricata_alerts@.len() ==> (
                    #[trigger] super::alert_views(self.suricata_alerts@)[k]).id == first + k
                        - before.len(),
                super::alert_views(self.suricata_alerts@).take(views.len() as int) == views,
                forall|j: int|
                    0 <= j < i ==> #[trigger] super::alert_views(
                        self.suricata_alerts@,
                    )[before.len() + j] == model::stored_alert(
                        super::alert_views(self.suricata_alerts@)[before.len() + j].id,
                        alerts@[j]@,
                    ),
                self.holds() =~= (StoreModel {
                    alerts: super::alert_views(self.suricata_alerts@),
                    ..old(self).holds()
                }),
            decreases alerts@.len() - i,
        {
            let a = alerts[i].clone();
            let id: i64 = self.next_alert_id;
            self.next_alert_id = id.wrapping_add(1);
            let ghost prior = super::alert_views(self.suricata_alerts@);
            let row = SuricataAlertRecord {
                id,
                tenant_id: a.tenant_id,
                node_id: a.node_id,
                timestamp: a.timestamp,
                received_ns: a.received_ns,
                src_ip: a.src_ip,
                src_port: a.src_port,
                dst_ip: a.dst_ip,
                dst_port: a.dst_port,
                proto: a.proto,
                action: a.action,
                signature_id: a.signature_id,
                signature: a.signature,
                category: a.category,
                severity: a.severity,
                raw_json: a.raw_json,
                acked_at: None,
            };
            self.suricata_alerts.push(row);
            proof {
                let after = super::alert_views(self.suricata_alerts@);
                assert(after =~= prior.push(row@));
                assert(row@ == model::stored_alert(id, alerts@[i as int]@));
                assert(after.take(views.len() as int) =~= prior.take(views.len() as int));
                assert forall|j: int| 0 <= j < i + 1 implies #[trigger] after[before.len() + j]
                    == model::stored_alert(after[before.len() + j].id, alerts@[j]@) by {
                    if j < i {
                        assert(after[before.len() + j] == prior[before.len() + j]);
                    }
                }
            }
            i = i + 1;
        }
        Ok(())
    }

    fn list_suricata_alerts(&self, filter: &SuricataAlertFilter, limit: i64) -> (r: Result<
        Vec<SuricataAlertRecord>,
        StoreError,
    >) {
        let ghost keep = |a: AlertView| filter@.passes(a);
        let ghost all = super::alert_views(self.suricata_alerts@);
        let mut v: Vec<SuricataAlertRecord> = Vec::new();
        let mut i: usize = 0;
        assert(all.take(0) =~= Seq::<AlertView>::empty());
        assert(super::alert_views(v@) =~= all.take(0).filter(keep));
        while i < self.suricata_alerts.len()
            invariant
                i <= self.suricata_alerts@.len(),
                all == super::alert_views(self.suricata_alerts@),
                keep == (|a: AlertView| filter@.passes(a)),
                super::alert_views(v@) == all.take(i as int).filter(keep),
            decreases self.suricata_alerts@.len() - i,
        {
            let ghost before = v@;
            proof {
                assert(all.take(i + 1) =~= all.take(i as int).push(all[i as int]));
                all.take(i as int).lemma_filter_push(all[i as int], keep);
            }
            if alert_passes(filter, &self.suricata_alerts[i]) {
                v.push(self.suricata_alerts[i].clone());
                assert(super::alert_views(v@) =~= super::alert_views(before).push(all[i as int]));
            }
            i = i + 1;
        }
        proof {
            assert(all.take(i as int) =~= all);
            order::lemma_sorted_views(
                v@,
                |a: SuricataAlertRecord| a@,
                |a: AlertView, b: AlertView| b.received_ns <= a.received_ns,
            );
        }
        let mut sorted = order::sort(v);
        let ghost ordered = super::alert_views(sorted@);
        if limit <= 0 {
            sorted.truncate(0);
        } else if (limit as u64) < sorted.len() as u64 {
            sorted.truncate(limit as usize);
        }
        assert(super::alert_views(sorted@) =~= model::page(
            ordered,
            0,
            if limit < 0 {
                0
            } else {
                limit as nat
            },
        ));
        Ok(sorted)
    }

    fn ack_suricata_alerts(&mut self, tenant_id: &str, node_id: Option<&str>, acked_ns: i64) -> (r:
        Result<u64, StoreError>)
        ensures
            final(self).next_alert() == old(self).next_alert(),
    {
        let ghost before = super::alert_views(self.suricata_alerts@);
        let ghost meant = |a: AlertView|
            a.acked_at is None && model::alert_meant(a, tenant_id@, text::opt_str(node_id));
        let ghost change = |a: AlertView|
            if meant(a) {
                AlertView { acked_at: Some(acked_ns), ..a }
            } else {
                a
            };
        let mut updated: u64 = 0;
        let mut out: Vec<SuricataAlertRecord> = Vec::new();
        let mut i: usize = 0;
        assert(before.take(0) =~= Seq::<AlertView>::empty());
        while i < self.suricata_alerts.len()
            invariant
                i <= self.suricata_alerts.len(),
                self.holds() == old(self).holds(),
                before == super::alert_views(self.suricata_alerts@),
                meant == (|a: AlertView|
                    a.acked_at is None && model::alert_meant(
                        a,
                        tenant_id@,
                        text::opt_str(node_id),
                    )),
                change == (|a: AlertView|
                    if meant(a) {
                        AlertView { acked_at: Some(acked_ns), ..a }
                    } else {
                        a
                    }),
                super::alert_views(out@) == before.take(i as int).map_values(change),
                updated == before.take(i as int).filter(meant).len(),
                updated <= i,
            decreases self.suricata_alerts@.len() - i,
        {
            let ghost prior = out@;
            proof {
                assert(before.take(i + 1) =~= before.take(i as int).push(before[i as int]));
                before.take(i as int).lemma_filter_push(before[i as int], meant);
            }
            let mut a = self.suricata_alerts[i].clone();
            assert(a@ == before[i as int]);
            if a.acked_at.is_none() && text::same(a.tenant_id.as_str(), tenant_id) && scope_takes(
                node_id,
                a.node_id.as_str(),
            ) {
                a.acked_at = Some(acked_ns);
                updated = updated + 1;
            }
            out.push(a);
            proof {
                assert(a@ == change(before[i as int]));
                assert(super::alert_views(out@) =~= super::alert_views(prior).push(a@));
                assert(before.take(i + 1).map_values(change) =~= before.take(i as int).map_values(
                    change,
                ).push(change(before[i as int])));
            }
            i = i + 1;
        }
        assert(before.take(i as int) =~= before);
        self.suricata_alerts = out;
        proof {
            assert(self.holds() =~= StoreModel {
                alerts: before.map_values(change),
                ..old(self).holds()
            });
        }
        Ok(updated)
    }

    fn clear_suricata_alerts(&mut self, tenant_id: &str, node_id: Option<&str>) -> (r: Result<
        u64,
        StoreError,
    >)
        ensures
            final(self).next_alert() == old(self).next_alert(),
    {
        let ghost before = super::alert_views(self.suricata_alerts@);
        let ghost stays = |a: AlertView|
            !model::alert_meant(a, tenant_id@, text::opt_str(node_id));
        let mut out: Vec<SuricataAlertRecord> = Vec::new();
        let mut i: usize = 0;
        assert(before.take(0) =~= Seq::<AlertView>::empty());
        assert(super::alert_views(out@) =~= before.take(0).filter(stays));
        while i < self.suricata_alerts.len()
            invariant
                i <= self.suricata_alerts.len(),
                self.holds() == old(self).holds(),
                before == super::alert_views(self.suricata_alerts@),
                stays == (|a: AlertView|
                    !model::alert_meant(a, tenant_id@, text::opt_str(node_id))),
                super::alert_views(out@) == before.take(i as int).filter(stays),
                out@.len() <= i,
            decreases self.suricata_alerts@.len() - i,
        {
            let ghost prior = out@;
            proof {
                assert(before.take(i + 1) =~= before.take(i as int).push(before[i as int]));
                before.take(i as int).lemma_filter_push(before[i as int], stays);
            }
            let a = &self.suricata_alerts[i];
            assert(a@ == before[i as int]);
            if !(text::same(a.tenant_id.as_str(), tenant_id) && scope_takes(
                node_id,
                a.node_id.as_str(),
            )) {
                out.push(a.clone());
                assert(super::alert_views(out@) =~= super::alert_views(prior).push(a@));
            }
            i = i + 1;
        }
        assert(before.take(i as int) =~= before);
        let cleared: u64 = (self.suricata_alerts.len() - out.len()) as u64;
        self.suricata_alerts = out;
        proof {
            assert(self.holds() =~= StoreModel {
                alerts: before.filter(stays),
                ..old(self).holds()
            });
        }
        Ok(cleared)
    }
}

/// Sorts listed interfaces; they stay listed.
fn sort_interfaces(
    v: Vec<NodeInterface>,
    Ghost(table): Ghost<Map<InterfaceKey, InterfaceView>>,
    Ghost(keep): Ghost<spec_fn(InterfaceView) -> bool>,
) -> (r: Vec<NodeInterface>)
    requires
        model::lists(super::interface_views(v@), table, keep),
    ensures
        order::is_ordered(r@),
        model::lists(super::interface_views(r@), table, keep),
{
    proof {
        order::in_order_sorts(v@);
        order::lemma_views_listed(v@, |i: NodeInterface| i@, table, keep);
    }
    order::sort(v)
}

/// Copies of rule file reports.
fn copy_rule_files(files: &[SuricataRuleFileReport]) -> (v: Vec<SuricataRuleFileReport>)
    ensures
        super::rule_file_views(v@) == super::rule_file_views(files@),
{
    let mut v: Vec<SuricataRuleFileReport> = Vec::new();
    let mut i: usize = 0;
    while i < files.len()
        invariant
            i <= files@.len(),
            v@.len() == i,
            forall|j: int| 0 <= j < i ==> (#[trigger] v@[j])@ == files@[j]@,
        decreases files@.len() - i,
    {
        v.push(files[i].clone());
        i = i + 1;
    }
    assert(super::rule_file_views(v@) =~= super::rule_file_views(files@));
    v
}

/// Whether the pair is one of the pairs.
fn has_pair(pairs: &Vec<(String, String)>, a: &str, b: &str) -> (r: bool)
    ensures
        r == pair_set(pairs@).contains((a@, b@)),
{
    let ghost views = pairs@.map_values(|p: (String, String)| (p.0@, p.1@));
    let mut i: usize = 0;
    while i < pairs.len()
        invariant
            i <= pairs@.len(),
            views == pairs@.map_values(|p: (String, String)| (p.0@, p.1@)),
            forall|j: int| 0 <= j < i ==> #[trigger] views[j] != (a@, b@),
        decreases pairs@.len() - i,
    {
        assert(views[i as int] == (pairs@[i as int].0@, pairs@[i as int].1@));
        if text::same(pairs[i].0.as_str(), a) && text::same(pairs[i].1.as_str(), b) {
            assert(views.contains((a@, b@)));
            return true;
        }
        i = i + 1;
    }
    false
}

/// The pairs that fulfil a condition.
fn retain_pairs<F: Fn(&(String, String)) -> bool>(
    pairs: &Vec<(String, String)>,
    wanted: F,
    Ghost(keep): Ghost<spec_fn((Seq<char>, Seq<char>)) -> bool>,
) -> (out: Vec<(String, String)>)
    requires
        forall|p: &(String, String)| #[trigger] call_requires(wanted, (p,)),
        forall|p: &(String, String), b: bool| #[trigger]
            call_ensures(wanted, (p,), b) ==> b == keep((p.0@, p.1@)),
    ensures
        pair_set(out@) == pair_set(pairs@).filter(keep),
{
    let ghost f = |p: (String, String)| (p.0@, p.1@);
    let ghost views = pairs@.map_values(f);
    let mut out: Vec<(String, String)> = Vec::new();
    let mut i: usize = 0;
    while i < pairs.len()
        invariant
            i <= pairs@.len(),
            f == (|p: (String, String)| (p.0@, p.1@)),
            views == pairs@.map_values(f),
            forall|p: &(String, String)| #[trigger] call_requires(wanted, (p,)),
            forall|p: &(String, String), b: bool| #[trigger]
                call_ensures(wanted, (p,), b) ==> b == keep((p.0@, p.1@)),
            forall|j: int|
                0 <= j < out@.len() ==> keep(#[trigger] out@.map_values(f)[j]) && views.contains(
                    out@.map_values(f)[j],
                ),
            forall|j: int|
                0 <= j < i && keep(#[trigger] views[j]) ==> out@.map_values(f).contains(views[j]),
        decreases pairs@.len() - i,
    {
        let ghost prior = out@.map_values(f);
        let p = &pairs[i];
        assert(views[i as int] == (p.0@, p.1@));
        if wanted(p) {
            out.push((p.0.clone(), p.1.clone()));
            proof {
                assert(out@.map_values(f) =~= prior.push(views[i as int]));
            }
        }
        proof {
            let now = out@.map_values(f);
            assert forall|j: int| 0 <= j < now.len() implies keep(#[trigger] now[j])
                && views.contains(now[j]) by {
                if j < prior.len() {
                    assert(now[j] == prior[j]);
                }
            }
            assert forall|j: int| 0 <= j < i + 1 && keep(#[trigger] views[j]) implies now.contains(
                views[j],
            ) by {
                if j < i {
                    let a = choose|a: int| 0 <= a < prior.len() && prior[a] == views[j];
                    assert(now[a] == views[j]);
                } else {
                    assert(now[prior.len() as int] == views[j]);
                }
            }
        }
        i = i + 1;
    }
    proof {
        let now = out@.map_values(f);
        assert forall|x: (Seq<char>, Seq<char>)| now.to_set().contains(x) == (
        views.to_set().contains(x) && keep(x)) by {
            if now.contains(x) {
                let j = choose|j: int| 0 <= j < now.len() && now[j] == x;
                assert(keep(now[j]));
            }
            if views.contains(x) && keep(x) {
                let j = choose|j: int| 0 <= j < views.len() && views[j] == x;
                assert(keep(views[j]));
            }
        }
        assert(pair_set(out@) =~= pair_set(pairs@).filter(keep));
    }
    out
}

} // verus!
