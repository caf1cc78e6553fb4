//! Delta computation between controller-desired state and agent-reported state.

pub mod add_rule;
pub mod delta_laws;
pub mod drift;
pub mod form_laws;
pub mod laws;
pub mod local_change;
pub mod local_laws;

pub use add_rule::{
    build_add_rule_json, canonicalize_add_rule_json, rule_from_add_rule_json, RuleFromJsonError,
};
pub use drift::{
    compute_default_action_drift, compute_drift, compute_stop_behavior_drift, DefaultActionDrift,
    RuleDrift, StopBehaviorDrift,
};
pub use local_change::{apply_local_change, ApplyLocalChangeError, LocalChangeOutcome};

use crate::json;
use crate::proto::{
    self, DeltaConfigPush, DeltaView, PersistedRule, RuleAdd, RuleAddView, StateSnapshot,
};
use crate::store::records::{self, RuleView};
use crate::store::{self, Rule};
use crate::strmap::{self, StrMap};
use crate::text;
use vstd::prelude::*;

verus! {

broadcast use vstd::string::group_string_axioms;

/// The `AddRuleInput` payload of a rule.
pub open spec fn rule_params(r: RuleView) -> Seq<u8> {
    vstd::utf8::encode_utf8(json::printed_json(add_rule::add_rule_json(r)))
}

/// The message that adds a rule.
pub open spec fn rule_add(r: RuleView) -> RuleAddView {
    RuleAddView {
        rule_id: r.id,
        interface_name: r.interface_name,
        direction: text::uppercase(r.direction),
        params_json: rule_params(r),
    }
}

/// The messages that add rules.
pub open spec fn rule_adds(rules: Seq<RuleView>) -> Seq<RuleAddView> {
    rules.map_values(|r: RuleView| rule_add(r))
}

/// The message that adds a rule.
pub fn rule_to_rule_add(rule: &Rule) -> (r: RuleAdd)
    ensures
        r@ == rule_add(rule@),
{
    let params = build_add_rule_json(rule);
    RuleAdd {
        rule_id: rule.id.clone(),
        interface_name: rule.interface_name.clone(),
        direction: rule.direction.as_str().to_uppercase(),
        params_json: records::copy_bytes(params.as_str().as_bytes()),
    }
}

/// Convert stored [`Rule`]s into [`RuleAdd`] messages.
pub fn rules_to_rule_adds(rules: &[Rule]) -> (v: Vec<RuleAdd>)
    ensures
        proto::rule_add_views(v@) == rule_adds(store::rule_views(rules@)),
{
    let mut v: Vec<RuleAdd> = Vec::new();
    let mut i: usize = 0;
    while i < rules.len()
        invariant
            i <= rules@.len(),
            v@.len() == i,
            forall|j: int| 0 <= j < i ==> (#[trigger] v@[j])@ == rule_add(rules@[j]@),
        decreases rules@.len() - i,
    {
        v.push(rule_to_rule_add(&rules[i]));
        i = i + 1;
    }
    assert(proto::rule_add_views(v@) =~= rule_adds(store::rule_views(rules@)));
    v
}

/// The number of a rule, if its id is one.
pub open spec fn rule_number(r: RuleView) -> Option<nat> {
    text::parse_nat(r.id, u64::MAX as nat)
}

/// Whether an agent reports a rule of that number.
pub open spec fn reports(rules: Seq<PersistedRule>, n: nat) -> bool {
    exists|i: int| 0 <= i < rules.len() && (#[trigger] rules[i]).id == n
}

/// Whether one of the rules has that number.
pub open spec fn desires(rules: Seq<RuleView>, n: nat) -> bool {
    exists|i: int| 0 <= i < rules.len() && rule_number(#[trigger] rules[i]) == Some(n)
}

/// Whether an agent lacks a rule. A rule without a number is always lacking.
pub open spec fn lacks(reported: Seq<PersistedRule>, r: RuleView) -> bool {
    match rule_number(r) {
        Some(n) => !reports(reported, n),
        None => true,
    }
}

/// The messages that add the rules that an agent lacks.
pub open spec fn delta_adds(desired: Seq<RuleView>, reported: Seq<PersistedRule>) -> Seq<
    RuleAddView,
> {
    rule_adds(desired.filter(|r: RuleView| lacks(reported, r)))
}

/// Whether the ids are those of the reported rules that are not desired, each once.
pub open spec fn are_surplus(
    ids: Seq<Seq<char>>,
    desired: Seq<RuleView>,
    reported: Seq<PersistedRule>,
) -> bool {
    &&& ids.no_duplicates()
    &&& forall|t: Seq<char>| #[trigger]
        ids.contains(t) <==> exists|i: int|
            {
                &&& 0 <= i < reported.len()
                &&& !desires(desired, (#[trigger] reported[i]).id as nat)
                &&& t == text::decimal(reported[i].id as nat)
            }
}

/// A push without rules, defaults, generation and stop behavior.
pub open spec fn no_delta() -> DeltaView {
    DeltaView {
        rules_to_add: Seq::empty(),
        rule_ids_to_delete: Seq::empty(),
        is_full_restore: false,
        per_interface_default_actions: Map::empty(),
        generation_id: Seq::empty(),
        confirm_deadline_ms: 0,
        stop_behavior: Seq::empty(),
    }
}

/// The number of a rule, if its id is one.
pub(crate) fn number_of(rule: &Rule) -> (r: Option<u64>)
    ensures
        match r {
            Some(n) => rule_number(rule@) == Some(n as nat),
            None => rule_number(rule@) is None,
        },
{
    text::parse_u64(&text::chars_of(rule.id.as_str()))
}

/// Whether one of the reported rules behind a place has that number.
pub(crate) fn reported_from(rules: &Vec<PersistedRule>, from: usize, n: u64) -> (r: bool)
    requires
        from <= rules@.len(),
    ensures
        r == reports(rules@.skip(from as int), n as nat),
{
    let ghost tail = rules@.skip(from as int);
    let mut i: usize = from;
    while i < rules.len()
        invariant
            from <= i <= rules@.len(),
            tail == rules@.skip(from as int),
            forall|j: int| 0 <= j < i - from ==> (#[trigger] tail[j]).id != n,
        decreases rules@.len() - i,
    {
        assert(tail[i - from] == rules@[i as int]);
        if rules[i].id == n {
            return true;
        }
        i = i + 1;
    }
    false
}

/// Whether one of the rules behind a place has that number.
pub(crate) fn desired_from(rules: &[Rule], from: usize, n: u64) -> (r: bool)
    requires
        from <= rules@.len(),
    ensures
        r == desires(store::rule_views(rules@).skip(from as int), n as nat),
{
    let ghost tail = store::rule_views(rules@).skip(from as int);
    let mut i: usize = from;
    while i < rules.len()
        invariant
            from <= i <= rules@.len(),
            tail == store::rule_views(rules@).skip(from as int),
            forall|j: int| 0 <= j < i - from ==> rule_number(#[trigger] tail[j]) != Some(n as nat),
        decreases rules@.len() - i,
    {
        assert(tail[i - from] == rules@[i as int]@);
        match number_of(&rules[i]) {
            Some(k) => {
                if k == n {
                    assert(rule_number(tail[i - from]) == Some(n as nat));
                    return true;
                }
            },
            None => {},
        }
        i = i + 1;
    }
    false
}

/// Compute the delta between desired rules (from the controller DB) and
/// the actual state reported by the agent in a [`StateSnapshot`].
///
/// Returns a [`DeltaConfigPush`] with:
/// - `rules_to_add`: rules in `desired` but missing from `actual`
/// - `rule_ids_to_delete`: rule IDs in `actual` but not in `desired`
///
/// Such a push reflects what is already committed, so no confirmation is awaited.
pub fn compute_delta(desired: &[Rule], actual: &StateSnapshot) -> (d: DeltaConfigPush)
    ensures
        d@ == (DeltaView {
            rules_to_add: delta_adds(store::rule_views(desired@), actual.rules@),
            rule_ids_to_delete: d@.rule_ids_to_delete,
            ..no_delta()
        }),
        are_surplus(d@.rule_ids_to_delete, store::rule_views(desired@), actual.rules@),
{
    let ghost views = store::rule_views(desired@);
    let ghost keep = |r: RuleView| lacks(actual.rules@, r);
    let mut to_add: Vec<RuleAdd> = Vec::new();
    let mut i: usize = 0;
    assert(views.take(0) =~= Seq::<RuleView>::empty());
    assert(proto::rule_add_views(to_add@) =~= rule_adds(views.take(0).filter(keep)));
    while i < desired.len()
        invariant
            i <= desired@.len(),
            views == store::rule_views(desired@),
            keep == (|r: RuleView| lacks(actual.rules@, r)),
            proto::rule_add_views(to_add@) == rule_adds(views.take(i as int).filter(keep)),
        decreases desired@.len() - i,
    {
        let ghost before = to_add@;
        let ghost listed = views.take(i as int).filter(keep);
        proof {
            assert(views.take(i + 1) =~= views.take(i as int).push(views[i as int]));
            views.take(i as int).lemma_filter_push(views[i as int], keep);
            assert(actual.rules@.skip(0) =~= actual.rules@);
        }
        let lacking: bool = match number_of(&desired[i]) {
            Some(n) => !reported_from(&actual.rules, 0, n),
            None => true,
        };
        if lacking {
            to_add.push(rule_to_rule_add(&desired[i]));
            proof {
                assert(proto::rule_add_views(to_add@) =~= proto::rule_add_views(before).push(
                    rule_add(views[i as int]),
                ));
                assert(rule_adds(listed.push(views[i as int])) =~= rule_adds(listed).push(
                    rule_add(views[i as int]),
                ));
            }
        }
        i = i + 1;
    }
    assert(views.take(i as int) =~= views);
    let to_delete = surplus_ids(desired, &actual.rules);
    DeltaConfigPush {
        rules_to_add: to_add,
        rule_ids_to_delete: to_delete,
        is_full_restore: false,
        per_interface_default_actions: empty_defaults(),
        generation_id: String::new(),
        confirm_deadline_ms: 0,
        stop_behavior: String::new(),
    }
}

/// No default actions.
pub fn empty_defaults() -> (m: StrMap<String>)
    ensures
        strmap::texts(m@) == Map::<Seq<char>, Seq<char>>::empty(),
{
    let m: StrMap<String> = StrMap::new();
    assert(strmap::texts(m@) =~= Map::<Seq<char>, Seq<char>>::empty());
    m
}

/// The ids of the reported rules that are not desired, each once.
pub(crate) fn surplus_ids(desired: &[Rule], reported: &Vec<PersistedRule>) -> (v: Vec<String>)
    ensures
        are_surplus(text::texts(v@), store::rule_views(desired@), reported@),
{
    let ghost views = store::rule_views(desired@);
    let mut v: Vec<String> = Vec::new();
    let mut i: usize = 0;
    assert(text::texts(v@) =~= Seq::<Seq<char>>::empty());
    while i < reported.len()
        invariant
            i <= reported@.len(),
            views == store::rule_views(desired@),
            text::texts(v@).no_duplicates(),
            forall|t: Seq<char>| #[trigger]
                text::texts(v@).contains(t) <==> exists|j: int|
                    {
                        &&& 0 <= j < i
                        &&& !desires(views, (#[trigger] reported@[j]).id as nat)
                        &&& t == text::decimal(reported@[j].id as nat)
                    },
        decreases reported@.len() - i,
    {
        let ghost before = text::texts(v@);
        let id: u64 = reported[i].id;
        assert(views.skip(0) =~= views);
        if !desired_from(desired, 0, id) {
            let t = text::u64_text(id);
            text::add_once(&mut v, t.as_str());
        }
        proof {
            assert forall|t: Seq<char>| #[trigger]
                text::texts(v@).contains(t) <==> exists|j: int|
                    {
                        &&& 0 <= j < i + 1
                        &&& !desires(views, (#[trigger] reported@[j]).id as nat)
                        &&& t == text::decimal(reported@[j].id as nat)
                    } by {
                if before.contains(t) {
                    let j = choose|j: int|
                        {
                            &&& 0 <= j < i
                            &&& !desires(views, (#[trigger] reported@[j]).id as nat)
                            &&& t == text::decimal(reported@[j].id as nat)
                        };
                    assert(reported@[j].id == reported@[j].id);
                }
                if !desires(views, id as nat) && t == text::decimal(id as nat) {
                    assert(reported@[i as int].id == id);
                }
            }
        }
        i = i + 1;
    }
    v
}

/// An agent that has every desired rule and no other is sent no change.
pub proof fn in_sync_needs_no_delta(
    desired: Seq<RuleView>,
    reported: Seq<PersistedRule>,
    surplus: Seq<Seq<char>>,
)
    requires
        are_surplus(surplus, desired, reported),
        forall|i: int| 0 <= i < desired.len() ==> !lacks(reported, #[trigger] desired[i]),
        forall|i: int|
            0 <= i < reported.len() ==> desires(desired, (#[trigger] reported[i]).id as nat),
    ensures
        delta_adds(desired, reported).len() == 0,
        surplus.len() == 0,
{
    let keep = |r: RuleView| lacks(reported, r);
    lemma_nothing_kept(desired, keep);
    if surplus.len() > 0 {
        assert(surplus.contains(surplus[0]));
    }
}

/// A filter that lets nothing pass leaves nothing.
proof fn lemma_nothing_kept<T>(s: Seq<T>, keep: spec_fn(T) -> bool)
    requires
        forall|i: int| 0 <= i < s.len() ==> !keep(#[trigger] s[i]),
    ensures
        s.filter(keep).len() == 0,
    decreases s.len(),
{
    reveal(Seq::filter);
    if s.len() > 0 {
        assert forall|i: int| 0 <= i < s.drop_last().len() implies !keep(
            #[trigger] s.drop_last()[i],
        ) by {
            assert(s.drop_last()[i] == s[i]);
        }
        lemma_nothing_kept(s.drop_last(), keep);
    }
}

/// Whether the message adds a desired rule that the agent lacks.
pub open spec fn adds_desired(
    add: RuleAddView,
    desired: Seq<RuleView>,
    reported: Seq<PersistedRule>,
) -> bool {
    exists|j: int|
        0 <= j < desired.len() && lacks(reported, #[trigger] desired[j]) && add == rule_add(
            desired[j],
        )
}

/// Whether the id is that of a reported rule that is not desired.
pub open spec fn names_surplus(
    id: Seq<char>,
    desired: Seq<RuleView>,
    reported: Seq<PersistedRule>,
) -> bool {
    exists|n: nat|
        !desires(desired, n) && reports(reported, n) && id == #[trigger] text::decimal(n)
}

/// What is sent to an agent is what it lacks: every rule that is added is desired,
/// and every rule that is deleted is not.
pub proof fn delta_goes_toward_desired(
    desired: Seq<RuleView>,
    reported: Seq<PersistedRule>,
    surplus: Seq<Seq<char>>,
)
    requires
        are_surplus(surplus, desired, reported),
    ensures
        forall|i: int|
            0 <= i < delta_adds(desired, reported).len() ==> adds_desired(
                #[trigger] delta_adds(desired, reported)[i],
                desired,
                reported,
            ),
        forall|i: int|
            0 <= i < surplus.len() ==> names_surplus(#[trigger] surplus[i], desired, reported),
{
    let keep = |r: RuleView| lacks(reported, r);
    let kept = desired.filter(keep);
    lemma_kept_from(desired, keep);
    assert forall|i: int| 0 <= i < delta_adds(desired, reported).len() implies adds_desired(
        #[trigger] delta_adds(desired, reported)[i],
        desired,
        reported,
    ) by {
        let j = choose|j: int| 0 <= j < desired.len() && desired[j] == kept[i] && keep(desired[j]);
        assert(lacks(reported, desired[j]));
    }
    assert forall|i: int| 0 <= i < surplus.len() implies names_surplus(
        #[trigger] surplus[i],
        desired,
        reported,
    ) by {
        assert(surplus.contains(surplus[i]));
        let j = choose|j: int|
            {
                &&& 0 <= j < reported.len()
                &&& !desires(desired, (#[trigger] reported[j]).id as nat)
                &&& surplus[i] == text::decimal(reported[j].id as nat)
            };
        assert(reports(reported, reported[j].id as nat));
    }
}

/// What a filter lets pass comes from the sequence and fulfils the condition.
proof fn lemma_kept_from<T>(s: Seq<T>, keep: spec_fn(T) -> bool)
    ensures
        forall|i: int|
            0 <= i < s.filter(keep).len() ==> exists|j: int|
                0 <= j < s.len() && #[trigger] s[j] == #[trigger] s.filter(keep)[i] && keep(s[j]),
    decreases s.len(),
{
    reveal(Seq::filter);
    if s.len() > 0 {
        let front = s.drop_last();
        lemma_kept_from(front, keep);
        let kept = s.filter(keep);
        assert forall|i: int| 0 <= i < kept.len() implies exists|j: int|
            0 <= j < s.len() && #[trigger] s[j] == #[trigger] kept[i] && keep(s[j]) by {
            if i < front.filter(keep).len() {
                let j = choose|j: int|
                    0 <= j < front.len() && #[trigger] front[j] == front.filter(keep)[i] && keep(
                        front[j],
                    );
                assert(s[j] == kept[i]);
            } else {
                assert(s[s.len() - 1] == kept[i]);
            }
        }
    }
}

} // verus!
