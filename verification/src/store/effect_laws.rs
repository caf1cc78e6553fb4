//! What becomes of what a store is given, field by field.

use super::model::{self, RedeemView, StoreModel};
use super::records::{InterfaceView, RuleView};
use super::{
    EnrollmentTokenRecord, NewSuricataAlert, NodeStatus, Rule, SuricataAlertFilter,
    SuricataAlertRecord, SuricataRuleset,
};
use crate::json::{JsonView, NumberView};
use crate::proto::{AddressReport, InterfaceReport};
use crate::text;
use crate::timestamp::Timestamp;
use vstd::prelude::*;

verus! {

/// A token is redeemed just where the secret has the hash on record, nobody revoked it, it
/// has not run out and has a use left. Whoever redeems it is told its label and its tenant.
pub proof fn token_is_redeemed_just_where(
    t: EnrollmentTokenRecord,
    hash: Seq<u8>,
    now: Timestamp,
)
    ensures
        ({
            let outcome = model::redeem_outcome(t@, hash, now);
            &&& outcome is Redeemed <==> {
                &&& hash == t.token_hash@
                &&& t.revoked_at is None
                &&& now.secs * 1000000000 + now.nanos < t.expires_at.secs * 1000000000
                    + t.expires_at.nanos
                &&& t.uses_remaining > 0
            }
            &&& outcome is BadSecret <==> hash != t.token_hash@
            &&& !(outcome is Unknown)
            &&& outcome matches RedeemView::Redeemed { fleet_label, tenant_id } ==> {
                &&& tenant_id == t.tenant_id@
                &&& fleet_label is Some <==> t.fleet_label is Some
                &&& fleet_label is Some ==> fleet_label->0 == t.fleet_label->0@
            }
        }),
{
}

/// Whether two optional texts are the same.
pub open spec fn same_texts(a: Option<String>, b: Option<String>) -> bool {
    &&& a is Some <==> b is Some
    &&& a is Some ==> a->0@ == b->0@
}

/// An alert is on record as it came, under its number, and nobody has acknowledged it yet.
pub proof fn alert_is_stored_as_it_came(id: i64, a: NewSuricataAlert, r: SuricataAlertRecord)
    requires
        r@ == model::stored_alert(id, a@),
    ensures
        r.id == id,
        r.tenant_id@ == a.tenant_id@,
        r.node_id@ == a.node_id@,
        r.timestamp@ == a.timestamp@,
        r.received_ns == a.received_ns,
        same_texts(r.src_ip, a.src_ip),
        r.src_port == a.src_port,
        same_texts(r.dst_ip, a.dst_ip),
        r.dst_port == a.dst_port,
        same_texts(r.proto, a.proto),
        same_texts(r.action, a.action),
        r.signature_id == a.signature_id,
        same_texts(r.signature, a.signature),
        same_texts(r.category, a.category),
        r.severity == a.severity,
        r.raw_json@ == a.raw_json@,
        r.acked_at is None,
{
}

/// A filter lets an alert pass just where the alert is of the tenant, of the node, at least
/// as urgent, of the signature and with the words that are asked for, as far as they are,
/// and is not acknowledged, unless such alerts are asked for too.
pub proof fn filter_lets_pass_what_is_asked_for(f: SuricataAlertFilter, a: SuricataAlertRecord)
    ensures
        f@.passes(a@) <==> {
            &&& a.acked_at is Some ==> f.include_acked
            &&& f.tenant_id is Some ==> f.tenant_id->0@ == a.tenant_id@
            &&& f.node_id is Some ==> f.node_id->0@ == a.node_id@
            &&& f.min_severity is Some ==> a.severity is Some && a.severity->0
                <= f.min_severity->0
            &&& f.signature_id is Some ==> a.signature_id is Some && a.signature_id->0
                == f.signature_id->0
            &&& f.signature_contains is Some ==> a.signature is Some && stands_in(
                f.signature_contains->0@,
                a.signature->0@,
            )
        },
{
    if f.signature_contains is Some && a.signature is Some {
        lemma_stands_in(f.signature_contains->0@, a.signature->0@);
    }
}

/// Whether a text is made of some text, the part, and some text.
pub open spec fn stands_in(part: Seq<char>, whole: Seq<char>) -> bool {
    exists|before: Seq<char>, behind: Seq<char>| whole == #[trigger] (before + part + behind)
}

/// A part occurs just where it stands in the whole.
proof fn lemma_stands_in(part: Seq<char>, whole: Seq<char>)
    ensures
        stands_in(part, whole) <==> text::occurs(whole, part),
{
    if stands_in(part, whole) {
        let (before, behind): (Seq<char>, Seq<char>) = choose|
            before: Seq<char>,
            behind: Seq<char>,
        | whole == #[trigger] (before + part + behind);
        let i = before.len() as int;
        assert(whole.subrange(i, i + part.len()) =~= part);
        assert(text::occurs_at(whole, part, i));
    }
    if text::occurs(whole, part) {
        let i = choose|i: int| text::occurs_at(whole, part, i);
        let before = whole.subrange(0, i);
        let behind = whole.subrange(i + part.len(), whole.len() as int);
        assert(whole =~= before + part + behind);
    }
}

/// A rule that is created is on record under its id with every field that it has, but that
/// of a rule which had the id before when and by whom it was created stays. No other rule
/// changes.
pub proof fn created_rule_is_on_record(rules: Map<Seq<char>, RuleView>, r: Rule)
    ensures
        ({
            let after = model::rule_created(rules, r@);
            let k = r.id@;
            let known = rules.contains_key(k);
            &&& after.contains_key(k)
            &&& after[k] == (RuleView {
                created_at: after[k].created_at,
                created_by: after[k].created_by,
                ..r@
            })
            &&& after[k].created_at == (if known {
                rules[k].created_at
            } else {
                r.created_at
            })
            &&& after[k].created_by == (if known {
                rules[k].created_by
            } else {
                text::opt_text(r.created_by)
            })
            &&& forall|other: Seq<char>| #[trigger]
                after.contains_key(other) && other != k <==> rules.contains_key(other) && other != k
            &&& forall|other: Seq<char>| #[trigger]
                rules.contains_key(other) && other != k ==> after[other] == rules[other]
        }),
{
}

/// What is reported of an interface is on record under its node and name; of several
/// reports on one name the last counts.
pub proof fn report_is_recorded(
    m: Map<(Seq<char>, Seq<char>), InterfaceView>,
    node_id: Seq<char>,
    reports: Seq<InterfaceReport>,
    now: Timestamp,
    i: int,
)
    requires
        0 <= i < reports.len(),
        forall|j: int| i < j < reports.len() ==> (#[trigger] reports[j]).name@ != reports[i].name@,
    ensures
        ({
            let report = reports[i];
            let k = (node_id, report.name@);
            let after = model::reported_interfaces(m, node_id, reports, now);
            let is = after[k];
            &&& after.contains_key(k)
            &&& is.node_id == node_id
            &&& is.name == report.name@
            &&& is.ifindex == report.ifindex
            &&& is.link_state == report.link_state@
            &&& is.last_reported == now
            &&& is.mac_address is Some <==> report.mac_address@.len() > 0
            &&& is.mac_address is Some ==> is.mac_address->0 == report.mac_address@
            &&& is.addresses_json == crate::json::printed_json(
                model::addresses_json(report.addresses@),
            )
        }),
    decreases reports.len(),
{
    let n = reports.len() - 1;
    if i < n {
        let front = reports.drop_last();
        assert forall|j: int| i < j < front.len() implies (#[trigger] front[j]).name@
            != front[i].name@ by {
            assert(reports[j].name@ != reports[i].name@);
        }
        report_is_recorded(m, node_id, front, now, i);
        assert(reports[n].name@ != reports[i].name@);
    }
}

/// An interface that nobody reports on stays as it was.
pub proof fn unreported_interface_stays(
    m: Map<(Seq<char>, Seq<char>), InterfaceView>,
    node_id: Seq<char>,
    reports: Seq<InterfaceReport>,
    now: Timestamp,
    k: (Seq<char>, Seq<char>),
)
    requires
        k.0 != node_id || forall|j: int|
            0 <= j < reports.len() ==> (#[trigger] reports[j]).name@ != k.1,
    ensures
        ({
            let after = model::reported_interfaces(m, node_id, reports, now);
            &&& after.contains_key(k) <==> m.contains_key(k)
            &&& m.contains_key(k) ==> after[k] == m[k]
        }),
    decreases reports.len(),
{
    if reports.len() > 0 {
        let front = reports.drop_last();
        if k.0 == node_id {
            assert forall|j: int| 0 <= j < front.len() implies (#[trigger] front[j]).name@
                != k.1 by {
                assert(reports[j].name@ != k.1);
            }
            assert(reports[reports.len() - 1].name@ != k.1);
        }
        unreported_interface_stays(m, node_id, front, now, k);
    }
}

/// The addresses of an interface are written down one after the other, each with its text,
/// the length of its prefix and its family under their names and nothing else.
pub proof fn addresses_are_written_down(addresses: Seq<AddressReport>, i: int)
    requires
        0 <= i < addresses.len(),
    ensures
        model::addresses_json(addresses) matches JsonView::Array(items) && items.len()
            == addresses.len() && items[i] is Object && {
            let m = items[i]->Object_0;
            &&& m.dom() == set!["address"@, "prefix_len"@, "family"@]
            &&& m["address"@] == JsonView::Str(addresses[i].address@)
            &&& m["prefix_len"@] == JsonView::Number(
                NumberView::Unsigned(addresses[i].prefix_len as nat),
            )
            &&& m["family"@] == JsonView::Str(addresses[i].family@)
        },
{
    reveal_strlit("address");
    reveal_strlit("prefix_len");
    reveal_strlit("family");
    assert("address"@.len() == 7 && "prefix_len"@.len() == 10 && "family"@.len() == 6);
    let items = model::addresses_json(addresses)->Array_0;
    assert(items[i] == model::address_json(addresses[i]));
    let m = items[i]->Object_0;
    assert(m.dom() =~= set!["address"@, "prefix_len"@, "family"@]);
}

/// Of the entries of an interface in a list of modes the last one counts, and without an
/// entry the mode is 0.
pub proof fn last_mode_counts(modes: Seq<(String, u32)>, name: Seq<char>)
    ensures
        forall|i: int|
            #![trigger modes[i]]
            0 <= i < modes.len() && modes[i].0@ == name && (forall|j: int|
                i < j < modes.len() ==> (#[trigger] modes[j]).0@ != name) ==> model::mode_of(
                modes,
                name,
            ) == modes[i].1,
        (forall|j: int| 0 <= j < modes.len() ==> (#[trigger] modes[j]).0@ != name)
            ==> model::mode_of(modes, name) == 0,
    decreases modes.len(),
{
    if modes.len() > 0 {
        let front = modes.drop_last();
        last_mode_counts(front, name);
        let n = modes.len() - 1;
        assert(modes[n] == modes.last());
        if modes[n].0@ != name {
            assert forall|i: int|
                #![trigger modes[i]]
                0 <= i < modes.len() && modes[i].0@ == name && (forall|j: int|
                    i < j < modes.len() ==> (#[trigger] modes[j]).0@
                        != name) implies model::mode_of(modes, name) == modes[i].1 by {
                assert(front[i] == modes[i]);
                assert forall|j: int| i < j < front.len() implies (#[trigger] front[j]).0@
                    != name by {
                    assert(front[j] == modes[j]);
                }
            }
            if forall|j: int| 0 <= j < modes.len() ==> (#[trigger] modes[j]).0@ != name {
                assert forall|j: int| 0 <= j < front.len() implies (#[trigger] front[j]).0@
                    != name by {
                    assert(front[j] == modes[j]);
                }
            }
        }
    }
}

/// A page is what stands at its place in the list, no more of it than was asked for and no
/// less than there is; pages that follow one another make up the list.
pub proof fn pages_make_up_the_list<T>(s: Seq<T>, offset: nat, limit: nat, next: nat)
    ensures
        ({
            let p = model::page(s, offset, limit);
            &&& p.len() == (if s.len() < offset {
                0
            } else if s.len() - offset < limit {
                s.len() - offset
            } else {
                limit as int
            })
            &&& forall|i: int| 0 <= i < p.len() ==> #[trigger] p[i] == s[offset + i]
            &&& p + model::page(s, offset + limit, next) == model::page(s, offset, limit + next)
            &&& model::page(s, 0, s.len()) == s
        }),
{
    assert(model::page(s, offset, limit) + model::page(s, offset + limit, next) =~= model::page(
        s,
        offset,
        limit + next,
    ));
    assert(model::page(s, 0, s.len()) =~= s);
}

/// An operator means the alerts of the own tenant and, where a node is named, of no other
/// node.
pub proof fn operator_means_alerts_of_the_tenant(
    a: SuricataAlertRecord,
    tenant: Seq<char>,
    node: Seq<char>,
)
    ensures
        model::alert_meant(a@, tenant, None) <==> a.tenant_id@ == tenant,
        model::alert_meant(a@, tenant, Some(node)) <==> a.tenant_id@ == tenant && a.node_id@
            == node,
{
}

/// A name is taken by a ruleset of the same tenant only: two tenants may use one name.
pub proof fn names_are_taken_within_a_tenant(m: StoreModel, rs: SuricataRuleset, id: Seq<char>)
    requires
        m.rulesets.contains_key(id),
    ensures
        m.rulesets[id].tenant_id == rs.tenant_id@ && m.rulesets[id].name == rs.name@
            ==> super::ruleset_name_taken(m, rs@),
        super::ruleset_name_taken(m, rs@) ==> exists|k: Seq<char>| #[trigger]
            m.rulesets.contains_key(k) && m.rulesets[k].tenant_id == rs.tenant_id@
                && m.rulesets[k].name == rs.name@,
{
}

/// The word for the status of a node says where it stands.
pub proof fn status_has_its_word(s: NodeStatus)
    ensures
        s is Pending <==> s.word() == "pending"@,
        s is Active <==> s.word() == "active"@,
        s is Decommissioned <==> s.word() == "decommissioned"@,
{
    reveal_strlit("pending");
    reveal_strlit("active");
    reveal_strlit("decommissioned");
    assert("pending"@.len() == 7 && "active"@.len() == 6 && "decommissioned"@.len() == 14);
}

} // verus!
