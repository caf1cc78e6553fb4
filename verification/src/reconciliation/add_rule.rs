//! Rules in the `AddRuleInput` JSON of the policy engine: building it, reading
//! it back, and bringing it into a canonical form.

use crate::json::{self, Json, JsonNumber, JsonView, NumberView, Parsed};
use crate::order::{self, Ranked};
use crate::store::records::{self, RuleView};
use crate::store::Rule;
use crate::text;
use crate::timestamp::Timestamp;
use vstd::prelude::*;

verus! {

broadcast use vstd::string::group_string_axioms;

/// An unsigned number.
pub open spec fn number(n: nat) -> JsonView {
    JsonView::Number(NumberView::Unsigned(n))
}

/// Members with one more where there is a text for it.
pub open spec fn with_text(
    m: Map<Seq<char>, JsonView>,
    key: Seq<char>,
    t: Option<Seq<char>>,
) -> Map<Seq<char>, JsonView> {
    match t {
        Some(s) => m.insert(key, JsonView::Str(s)),
        None => m,
    }
}

/// Members with the text under a key changed, where it is a text.
pub open spec fn text_changed(
    m: Map<Seq<char>, JsonView>,
    key: Seq<char>,
    change: spec_fn(Seq<char>) -> Seq<char>,
) -> Map<Seq<char>, JsonView> {
    if m.contains_key(key) {
        match m[key] {
            JsonView::Str(s) => m.insert(key, JsonView::Str(change(s))),
            _ => m,
        }
    } else {
        m
    }
}

/// An action with its name in upper case.
pub open spec fn upper_action(a: JsonView) -> JsonView {
    match a {
        JsonView::Object(m) => JsonView::Object(
            text_changed(m, "action"@, |s: Seq<char>| text::uppercase(s)),
        ),
        _ => a,
    }
}

/// An action with its name in lower case.
pub open spec fn lower_action(a: JsonView) -> JsonView {
    match a {
        JsonView::Object(m) => JsonView::Object(
            text_changed(m, "action"@, |s: Seq<char>| text::lowercase(s)),
        ),
        _ => a,
    }
}

/// The members of the `AddRuleInput` object of a rule up to its addresses.
pub open spec fn add_rule_head(r: RuleView) -> Map<Seq<char>, JsonView> {
    let m = match text::parse_nat(r.id, u64::MAX as nat) {
        Some(n) => Map::empty().insert("id"@, number(n)),
        None => Map::empty(),
    };
    let m = m.insert("interface"@, JsonView::Str(r.interface_name)).insert(
        "direction"@,
        JsonView::Str(text::uppercase(r.direction)),
    );
    with_text(with_text(m, "src"@, r.src_cidr), "dst"@, r.dst_cidr)
}

/// The port, 0 for any.
pub open spec fn port_number(p: Option<u32>) -> JsonView {
    match p {
        Some(n) => number(n as nat),
        None => number(0),
    }
}

/// The members of the `AddRuleInput` object of a rule up to its MAC addresses.
pub open spec fn add_rule_match(r: RuleView) -> Map<Seq<char>, JsonView> {
    let m = add_rule_head(r).insert("sport"@, port_number(r.src_port)).insert(
        "dport"@,
        port_number(r.dst_port),
    ).insert("protocol"@, JsonView::Str(r.protocol));
    let m = with_text(with_text(m, "sni"@, r.sni_pattern), "quicVersion"@, r.quic_version);
    with_text(with_text(m, "srcMac"@, r.src_mac), "dstMac"@, r.dst_mac)
}

/// The members of the `AddRuleInput` object of a rule up to its actions.
pub open spec fn add_rule_acts(r: RuleView) -> Map<Seq<char>, JsonView> {
    let m = add_rule_match(r);
    match json::json_of_text(r.actions_json) {
        Parsed::Value(JsonView::Array(actions)) => m.insert(
            "actions"@,
            JsonView::Array(actions.map_values(|a: JsonView| upper_action(a))),
        ),
        _ => m,
    }
}

/// The members of the `AddRuleInput` object of a rule.
pub open spec fn add_rule_members(r: RuleView) -> Map<Seq<char>, JsonView> {
    let m = add_rule_acts(r);
    let m = match r.expires_after_secs {
        Some(ttl) => m.insert("expiresAfterSecs"@, number(ttl as nat)),
        None => m,
    };
    match r.schedule_json {
        Some(s) => match json::json_of_text(s) {
            Parsed::Value(v) => m.insert("schedule"@, v),
            Parsed::Refused(_) => m,
        },
        None => m,
    }
}

/// The `AddRuleInput` object of a rule.
pub open spec fn add_rule_json(r: RuleView) -> JsonView {
    JsonView::Object(add_rule_members(r))
}

/// Sets a member where there is a text for it.
fn put_text(v: &mut Vec<(String, Json)>, key: &str, t: &Option<String>)
    requires
        json::members_wf(old(v)@),
    ensures
        json::members_wf(final(v)@),
        json::members_view(final(v)@) == with_text(
            json::members_view(old(v)@),
            key@,
            text::opt_text(*t),
        ),
{
    match t {
        Some(s) => json::put(v, key, Json::Str(s.clone())),
        None => {},
    }
}

/// Sets a member to a number.
fn put_number(v: &mut Vec<(String, Json)>, key: &str, n: u64)
    requires
        json::members_wf(old(v)@),
    ensures
        json::members_wf(final(v)@),
        json::members_view(final(v)@) == json::members_view(old(v)@).insert(
            key@,
            number(n as nat),
        ),
{
    json::put(v, key, Json::Number(JsonNumber::Unsigned(n)));
}

/// Which letters a name is brought to.
#[derive(Clone, Copy, PartialEq, Eq, Structural)]
enum Letters {
    Upper,
    Lower,
}

/// A text in the letters.
spec fn in_letters(l: Letters, s: Seq<char>) -> Seq<char> {
    match l {
        Letters::Upper => text::uppercase(s),
        Letters::Lower => text::lowercase(s),
    }
}

/// What upper case is of ASCII text.
pub open spec fn upper_known(s: Seq<char>) -> bool {
    text::ascii(s) ==> text::uppercase(s) == s.map_values(|c: char| text::ascii_upper(c))
}

/// What lower case is of ASCII text.
pub open spec fn lower_known(s: Seq<char>) -> bool {
    text::ascii(s) ==> text::lowercase(s) == s.map_values(|c: char| text::ascii_lower(c))
}

/// Whether it is known what lower case is of the name of an action.
pub open spec fn lower_name_known(a: JsonView) -> bool {
    a matches JsonView::Object(m) ==> lower_text_known(m, "action"@)
}

/// Whether it is known what lower case is of the text under a key.
pub open spec fn lower_text_known(m: Map<Seq<char>, JsonView>, key: Seq<char>) -> bool {
    m.contains_key(key) ==> (m[key] matches JsonView::Str(s) ==> lower_known(s))
}

/// Whether it is known what upper case is of the text under a key.
pub open spec fn text_known(m: Map<Seq<char>, JsonView>, key: Seq<char>) -> bool {
    m.contains_key(key) ==> (m[key] matches JsonView::Str(s) ==> upper_known(s))
}

/// Whether it is known what upper case is of the name of an action.
pub open spec fn name_known(a: JsonView) -> bool {
    a matches JsonView::Object(m) ==> text_known(m, "action"@)
}

/// Whether it is known what upper case is of the direction of a rule and the names of its
/// actions.
pub open spec fn cases_known(j: JsonView) -> bool {
    j matches JsonView::Object(m) ==> {
        &&& text_known(m, "direction"@)
        &&& m.contains_key("actions"@) ==> (m["actions"@] matches JsonView::Array(s)
            ==> forall|i: int| 0 <= i < s.len() ==> name_known(#[trigger] s[i]))
    }
}

/// Brings the text under a key to upper or lower case, where it is a text.
fn change_text(v: &mut Vec<(String, Json)>, key: &str, letters: Letters)
    requires
        json::members_wf(old(v)@),
    ensures
        json::members_wf(final(v)@),
        json::members_view(final(v)@) == text_changed(
            json::members_view(old(v)@),
            key@,
            |s: Seq<char>| in_letters(letters, s),
        ),
        letters == Letters::Upper ==> text_known(json::members_view(old(v)@), key@),
        letters == Letters::Lower ==> lower_text_known(json::members_view(old(v)@), key@),
{
    let changed: Option<String> = match json::get(v, key) {
        Some(Json::Str(s)) => Some(
            match letters {
                Letters::Upper => s.as_str().to_uppercase(),
                Letters::Lower => s.as_str().to_lowercase(),
            },
        ),
        _ => None,
    };
    match changed {
        Some(s) => json::put(v, key, Json::Str(s)),
        None => {},
    }
}

/// An action with its name brought to upper or lower case.
spec fn lettered_action(l: Letters, a: JsonView) -> JsonView {
    match l {
        Letters::Upper => upper_action(a),
        Letters::Lower => lower_action(a),
    }
}

/// Brings the names of actions to upper or lower case.
fn change_actions(actions: Vec<Json>, letters: Letters) -> (r: Vec<Json>)
    requires
        json::items_wf(actions@),
    ensures
        json::items_wf(r@),
        json::items_view(r@) == json::items_view(actions@).map_values(
            |a: JsonView| lettered_action(letters, a),
        ),
        letters == Letters::Upper ==> forall|i: int|
            0 <= i < actions@.len() ==> name_known(#[trigger] json::items_view(actions@)[i]),
        letters == Letters::Lower ==> forall|i: int|
            0 <= i < actions@.len() ==> lower_name_known(#[trigger] json::items_view(actions@)[i]),
{
    broadcast use json::lemma_object_view;

    let ghost all = json::items_view(actions@);
    let mut rest: Vec<Json> = actions;
    let mut r: Vec<Json> = Vec::new();
    while rest.len() > 0
        invariant
            json::items_wf(rest@),
            json::items_wf(r@),
            r@.len() + rest@.len() == all.len(),
            forall|i: int|
                0 <= i < r@.len() ==> (#[trigger] r@[i])@ == lettered_action(letters, all[i]),
            letters == Letters::Upper ==> forall|i: int|
                0 <= i < r@.len() ==> name_known(#[trigger] all[i]),
            letters == Letters::Lower ==> forall|i: int|
                0 <= i < r@.len() ==> lower_name_known(#[trigger] all[i]),
            forall|i: int| 0 <= i < rest@.len() ==> (#[trigger] rest@[i])@ == all[r@.len() + i],
        decreases rest@.len(),
    {
        let ghost before = rest@;
        let ghost done = r@;
        let a = rest.remove(0);
        assert forall|i: int| 0 <= i < rest@.len() implies #[trigger] rest@[i] == before[i + 1] by {}
        assert(a == before[0]);
        let changed = match a {
            Json::Object(members) => {
                let mut m = members;
                change_text(&mut m, "action", letters);
                proof {
                    json::lemma_object_view(members);
                    json::lemma_object_view(m);
                    assert(Json::Object(m)@ =~= lettered_action(letters, a@)) by {
                        let f = |s: Seq<char>| in_letters(letters, s);
                        match letters {
                            Letters::Upper => {
                                assert(f =~= |s: Seq<char>| text::uppercase(s));
                            },
                            Letters::Lower => {
                                assert(f =~= |s: Seq<char>| text::lowercase(s));
                            },
                        }
                    }
                }
                Json::Object(m)
            },
            other => other,
        };
        r.push(changed);
        proof {
            assert forall|i: int| 0 <= i < r@.len() implies (#[trigger] r@[i])@ == lettered_action(
                letters,
                all[i],
            ) by {
                if i < done.len() {
                    assert(r@[i] == done[i]);
                }
            }
        }
    }
    assert(json::items_view(r@) =~= all.map_values(|a: JsonView| lettered_action(letters, a)));
    r
}

/// Whether it is known what upper case is of the direction of a rule and the names of its
/// actions.
pub open spec fn rule_cases_known(r: RuleView) -> bool {
    &&& upper_known(r.direction)
    &&& json::json_of_text(r.actions_json) matches Parsed::Value(JsonView::Array(s))
        ==> forall|i: int| 0 <= i < s.len() ==> name_known(#[trigger] s[i])
}

/// Whether the text is the `AddRuleInput` form of a rule. Where it can be read again, it
/// is read as what it is.
pub open spec fn builds(r: RuleView, s: Seq<char>) -> bool {
    &&& s == json::printed_json(add_rule_json(r))
    &&& rule_cases_known(r)
    &&& json::re_readable(add_rule_json(r), json::MAX_DEPTH as nat) ==> json::json_of_text(s)
        == Parsed::Value(add_rule_json(r))
}

/// Build a JSON string matching the policy-engine `AddRuleInput` format
/// from a controller [`Rule`].
pub fn build_add_rule_json(rule: &Rule) -> (s: String)
    ensures
        builds(rule@, s@),
{
    let mut obj: Vec<(String, Json)> = Vec::new();
    proof {
        json::lemma_no_members();
        assert(obj@ =~= Seq::<(String, Json)>::empty());
    }
    if let Some(numeric_id) = text::parse_u64(&text::chars_of(rule.id.as_str())) {
        put_number(&mut obj, "id", numeric_id);
    }
    json::put(&mut obj, "interface", Json::Str(rule.interface_name.clone()));
    json::put(&mut obj, "direction", Json::Str(rule.direction.as_str().to_uppercase()));
    put_text(&mut obj, "src", &rule.src_cidr);
    put_text(&mut obj, "dst", &rule.dst_cidr);
    assert(json::members_view(obj@) == add_rule_head(rule@));
    let sport: u64 = match rule.src_port {
        Some(p) => p as u64,
        None => 0,
    };
    let dport: u64 = match rule.dst_port {
        Some(p) => p as u64,
        None => 0,
    };
    put_number(&mut obj, "sport", sport);
    put_number(&mut obj, "dport", dport);
    json::put(&mut obj, "protocol", Json::Str(rule.protocol.clone()));
    put_text(&mut obj, "sni", &rule.sni_pattern);
    put_text(&mut obj, "quicVersion", &rule.quic_version);
    put_text(&mut obj, "srcMac", &rule.src_mac);
    put_text(&mut obj, "dstMac", &rule.dst_mac);
    assert(json::members_view(obj@) == add_rule_match(rule@));
    // The engine expects action names in upper case.
    if let Ok(Json::Array(actions)) = json::parse_text(rule.actions_json.as_str()) {
        let normalised = change_actions(actions, Letters::Upper);
        proof {
            json::lemma_array_view(actions);
            json::lemma_array_view(normalised);
            assert(json::items_view(normalised@) =~= json::items_view(actions@).map_values(
                |a: JsonView| upper_action(a),
            ));
        }
        json::put(&mut obj, "actions", Json::Array(normalised));
    }
    assert(json::members_view(obj@) == add_rule_acts(rule@));
    if let Some(ttl) = rule.expires_after_secs {
        put_number(&mut obj, "expiresAfterSecs", ttl as u64);
    }
    if let Some(sched) = &rule.schedule_json {
        if let Ok(v) = json::parse_text(sched.as_str()) {
            json::put(&mut obj, "schedule", v);
        }
    }
    proof {
        json::lemma_object_view(obj);
    }
    json::print(Json::Object(obj))
}

/// A member that is nothing or an empty text is dropped.
pub open spec fn without_blank(m: Map<Seq<char>, JsonView>, key: Seq<char>) -> Map<
    Seq<char>,
    JsonView,
> {
    if m.contains_key(key) && (m[key] is Null || (m[key] is Str && m[key]->Str_0.len() == 0)) {
        m.remove(key)
    } else {
        m
    }
}

/// A port that is missing or nothing is 0.
pub open spec fn port_or_zero(m: Map<Seq<char>, JsonView>, key: Seq<char>) -> Map<
    Seq<char>,
    JsonView,
> {
    if !m.contains_key(key) || m[key] is Null {
        m.insert(key, number(0))
    } else {
        m
    }
}

/// An action with its name in upper case and a priority, 0 if it had none.
pub open spec fn canonical_action(a: JsonView) -> JsonView {
    match upper_action(a) {
        JsonView::Object(m) => JsonView::Object(
            if m.contains_key("priority"@) {
                m
            } else {
                m.insert("priority"@, number(0))
            },
        ),
        other => other,
    }
}

/// The priority by which an action is sorted: 0 where it has no integer that fits
/// in 64 bits.
pub open spec fn priority_of(a: JsonView) -> int {
    match a {
        JsonView::Object(m) => if m.contains_key("priority"@) {
            match m["priority"@] {
                JsonView::Number(NumberView::Unsigned(n)) => if n <= i64::MAX {
                    n as int
                } else {
                    0
                },
                JsonView::Number(NumberView::Negative(n)) => n,
                _ => 0,
            }
        } else {
            0
        },
        _ => 0,
    }
}

/// The name by which an action is sorted.
pub open spec fn name_of(a: JsonView) -> Seq<char> {
    match a {
        JsonView::Object(m) => if m.contains_key("action"@) {
            match m["action"@] {
                JsonView::Str(s) => s,
                _ => Seq::empty(),
            }
        } else {
            Seq::empty()
        },
        _ => Seq::empty(),
    }
}

/// Whether an action may stand before another: by priority, then by name.
pub open spec fn action_before(a: JsonView, b: JsonView) -> bool {
    priority_of(a) < priority_of(b) || (priority_of(a) == priority_of(b) && text::at_most(
        name_of(a),
        name_of(b),
    ))
}

/// Actions in canonical form, sorted.
pub open spec fn canonical_actions(s: Seq<JsonView>) -> Seq<JsonView> {
    order::arranged(
        s.map_values(|a: JsonView| canonical_action(a)),
        |a: JsonView, b: JsonView| action_before(a, b),
    )
}

/// The members of a rule without its id, the direction in upper case, blank texts
/// dropped and ports filled in.
#[verifier::opaque]
pub open spec fn canonical_scalars(m: Map<Seq<char>, JsonView>) -> Map<Seq<char>, JsonView> {
    let m = text_changed(m.remove("id"@), "direction"@, |s: Seq<char>| text::uppercase(s));
    let m = without_blank(without_blank(m, "src"@), "dst"@);
    let m = without_blank(without_blank(m, "sni"@), "quicVersion"@);
    let m = without_blank(without_blank(m, "srcMac"@), "dstMac"@);
    port_or_zero(port_or_zero(m, "sport"@), "dport"@)
}

/// The members of a rule in canonical form.
pub open spec fn canonical_members(m: Map<Seq<char>, JsonView>) -> Map<Seq<char>, JsonView> {
    let m = canonical_scalars(m);
    if m.contains_key("actions"@) {
        match m["actions"@] {
            JsonView::Array(s) => m.insert("actions"@, JsonView::Array(canonical_actions(s))),
            _ => m,
        }
    } else {
        m
    }
}

/// The canonical form of an `AddRuleInput` value.
pub open spec fn canonical(j: JsonView) -> JsonView {
    match j {
        JsonView::Object(m) => JsonView::Object(canonical_members(m)),
        _ => j,
    }
}

/// The canonical form of an `AddRuleInput` payload, if it is JSON.
pub open spec fn canonical_bytes(bytes: Seq<u8>) -> Option<Seq<u8>> {
    match json::parsed_json(bytes) {
        Parsed::Value(j) => Some(vstd::utf8::encode_utf8(json::printed_json(canonical(j)))),
        Parsed::Refused(_) => None,
    }
}

/// Drops a member that is nothing or an empty text.
fn drop_blank(v: &mut Vec<(String, Json)>, key: &str)
    requires
        json::members_wf(old(v)@),
    ensures
        json::members_wf(final(v)@),
        json::members_view(final(v)@) == without_blank(json::members_view(old(v)@), key@),
{
    let blank: bool = match json::get(v, key) {
        Some(Json::Null) => true,
        Some(Json::Str(s)) => s.as_str().is_empty(),
        _ => false,
    };
    if blank {
        json::drop_member(v, key);
    }
}

/// Sets a port to 0 that is missing or nothing.
fn fill_port(v: &mut Vec<(String, Json)>, key: &str)
    requires
        json::members_wf(old(v)@),
    ensures
        json::members_wf(final(v)@),
        json::members_view(final(v)@) == port_or_zero(json::members_view(old(v)@), key@),
{
    let missing: bool = match json::get(v, key) {
        None => true,
        Some(Json::Null) => true,
        _ => false,
    };
    if missing {
        put_number(v, key, 0);
    }
}

/// An action and what it is sorted by.
struct KeyedAction {
    value: Json,
    priority: i64,
    name: String,
}

impl Ranked for KeyedAction {
    closed spec fn ranked(a: KeyedAction, b: KeyedAction) -> bool {
        a.priority < b.priority || (a.priority == b.priority && text::at_most(a.name@, b.name@))
    }

    proof fn ranked_total(a: KeyedAction, b: KeyedAction) {
        text::at_most_total(a.name@, b.name@);
    }

    proof fn ranked_transitive(a: KeyedAction, b: KeyedAction, c: KeyedAction) {
        if a.priority == b.priority && b.priority == c.priority {
            text::at_most_transitive(a.name@, b.name@, c.name@);
        }
    }

    fn may_precede(&self, other: &KeyedAction) -> (r: bool) {
        self.priority < other.priority || (self.priority == other.priority && text::is_at_most(
            self.name.as_str(),
            other.name.as_str(),
        ))
    }
}

/// Puts the sort key beside an action.
fn keyed(value: Json) -> (k: KeyedAction)
    requires
        value.wf(),
    ensures
        k.value == value,
        k.priority == priority_of(value@),
        k.name@ == name_of(value@),
{
    broadcast use json::lemma_object_view;

    let mut priority: i64 = 0;
    let mut name: String = String::new();
    match &value {
        Json::Object(m) => {
            match json::get(m, "priority") {
                Some(Json::Number(JsonNumber::Unsigned(n))) => {
                    if *n <= i64::MAX as u64 {
                        priority = *n as i64;
                    }
                },
                Some(Json::Number(JsonNumber::Negative(n))) => {
                    priority = *n;
                },
                _ => {},
            }
            match json::get(m, "action") {
                Some(Json::Str(s)) => {
                    name = s.clone();
                },
                _ => {},
            }
        },
        _ => {},
    }
    assert(name@ =~= name_of(value@));
    KeyedAction { value, priority, name }
}

/// Brings actions into canonical form and sorts them.
fn canonicalize_actions(actions: Vec<Json>) -> (r: Vec<Json>)
    requires
        json::items_wf(actions@),
    ensures
        json::items_wf(r@),
        json::items_view(r@) == canonical_actions(json::items_view(actions@)),
        forall|i: int|
            0 <= i < actions@.len() ==> name_known(#[trigger] json::items_view(actions@)[i]),
{
    broadcast use json::lemma_object_view;

    let ghost all = json::items_view(actions@);
    let ghost canon = all.map_values(|a: JsonView| canonical_action(a));
    let mut rest: Vec<Json> = change_actions(actions, Letters::Upper);
    let mut keys: Vec<KeyedAction> = Vec::new();
    assert(json::items_view(rest@) =~= all.map_values(|a: JsonView| upper_action(a)));
    proof {
        assert forall|i: int| 0 <= i < rest@.len() implies (#[trigger] rest@[i])@ == upper_action(
            all[i],
        ) by {
            assert(json::items_view(rest@)[i] == rest@[i]@);
        }
    }
    while rest.len() > 0
        invariant
            json::items_wf(rest@),
            canon == all.map_values(|a: JsonView| canonical_action(a)),
            keys@.len() + rest@.len() == all.len(),
            forall|i: int| 0 <= i < rest@.len() ==> (#[trigger] rest@[i])@ == upper_action(
                all[keys@.len() + i],
            ),
            forall|i: int| 0 <= i < keys@.len() ==> (#[trigger] keys@[i]).value.wf(),
            forall|i: int| 0 <= i < keys@.len() ==> (#[trigger] keys@[i]).value@ == canon[i],
            forall|i: int|
                0 <= i < keys@.len() ==> (#[trigger] keys@[i]).priority == priority_of(
                    keys@[i].value@,
                ),
            forall|i: int|
                0 <= i < keys@.len() ==> (#[trigger] keys@[i]).name@ == name_of(keys@[i].value@),
        decreases rest@.len(),
    {
        let ghost before = rest@;
        let ghost done = keys@;
        let a = rest.remove(0);
        assert forall|i: int| 0 <= i < rest@.len() implies #[trigger] rest@[i] == before[i + 1] by {}
        assert(a == before[0]);
        let value = match a {
            Json::Object(members) => {
                let mut m = members;
                if json::get(&m, "priority").is_none() {
                    put_number(&mut m, "priority", 0);
                }
                proof {
                    json::lemma_object_view(members);
                    json::lemma_object_view(m);
                }
                Json::Object(m)
            },
            other => other,
        };
        assert(value@ == canonical_action(all[done.len() as int]));
        let k = keyed(value);
        keys.push(k);
        proof {
            assert(keys@[done.len() as int] == k);
            assert forall|i: int| 0 <= i < keys@.len() implies (#[trigger] keys@[i]).value@
                == canon[i] by {
                if i < done.len() {
                    assert(keys@[i] == done[i]);
                }
            }
        }
    }
    let ghost f = |k: KeyedAction| k.value@;
    let ghost le = |a: JsonView, b: JsonView| action_before(a, b);
    proof {
        assert(keys@.map_values(f) =~= canon);
        assert forall|i: int, j: int|
            0 <= i < keys@.len() && 0 <= j < keys@.len() implies KeyedAction::ranked(
            #[trigger] keys@[i],
            #[trigger] keys@[j],
        ) == le(f(keys@[i]), f(keys@[j])) by {}
        order::lemma_sorted_views(keys@, f, le);
        order::lemma_from_somewhere(keys@);
    }
    let mut sorted: Vec<KeyedAction> = order::sort(keys);
    let ghost views = sorted@.map_values(f);
    assert forall|i: int| 0 <= i < sorted@.len() implies (#[trigger] sorted@[i]).value.wf() by {
        let k = order::place_of(keys@, i);
        assert(sorted@[i] == keys@[k]);
    }
    let mut r: Vec<Json> = Vec::new();
    while sorted.len() > 0
        invariant
            r@.len() + sorted@.len() == views.len(),
            forall|i: int| 0 <= i < r@.len() ==> (#[trigger] r@[i])@ == views[i],
            forall|i: int|
                0 <= i < sorted@.len() ==> (#[trigger] sorted@[i]).value@ == views[r@.len() + i],
            forall|i: int| 0 <= i < sorted@.len() ==> (#[trigger] sorted@[i]).value.wf(),
            json::items_wf(r@),
        decreases sorted@.len(),
    {
        let ghost before = sorted@;
        let ghost done = r@;
        let k = sorted.remove(0);
        assert forall|i: int| 0 <= i < sorted@.len() implies #[trigger] sorted@[i] == before[i
            + 1] by {}
        assert(k == before[0]);
        r.push(k.value);
        proof {
            assert forall|i: int| 0 <= i < r@.len() implies (#[trigger] r@[i])@ == views[i] by {
                if i < done.len() {
                    assert(r@[i] == done[i]);
                }
            }
        }
    }
    assert(json::items_view(r@) =~= views);
    r
}

/// Brings an `AddRuleInput` value into its canonical form.
fn canonicalize_value(value: Json) -> (r: Json)
    requires
        value.wf(),
    ensures
        r.wf(),
        r@ == canonical(value@),
        cases_known(value@),
{
    broadcast use {json::lemma_object_view, json::lemma_array_view};

    match value {
        Json::Object(members) => {
            let mut obj = members;
            proof {
                json::lemma_object_view(members);
            }
            json::drop_member(&mut obj, "id");
            change_text(&mut obj, "direction", Letters::Upper);
            assert((|s: Seq<char>| in_letters(Letters::Upper, s)) =~= (|s: Seq<char>|
                text::uppercase(s)));
            drop_blank(&mut obj, "src");
            drop_blank(&mut obj, "dst");
            drop_blank(&mut obj, "sni");
            drop_blank(&mut obj, "quicVersion");
            drop_blank(&mut obj, "srcMac");
            drop_blank(&mut obj, "dstMac");
            fill_port(&mut obj, "sport");
            fill_port(&mut obj, "dport");
            proof {
                reveal(canonical_scalars);
            }
            assert(json::members_view(obj@) == canonical_scalars(json::members_view(members@)));
            let ghost scalars = json::members_view(obj@);
            proof {
                super::laws::lemma_actions_stay(json::members_view(members@));
            }
            let actions: Option<Vec<Json>> = match json::get(&obj, "actions") {
                Some(found) => {
                    let copied = json::copy(found);
                    match copied {
                        Json::Array(items) => {
                            proof {
                                json::lemma_array_view(items);
                            }
                            Some(items)
                        },
                        _ => None,
                    }
                },
                None => None,
            };
            assert(match actions {
                Some(items) => scalars.contains_key("actions"@) && scalars["actions"@]
                    == JsonView::Array(json::items_view(items@)),
                None => !(scalars.contains_key("actions"@) && scalars["actions"@] is Array),
            });
            if let Some(items) = actions {
                let sorted = canonicalize_actions(items);
                proof {
                    json::lemma_array_view(sorted);
                }
                json::put(&mut obj, "actions", Json::Array(sorted));
            }
            proof {
                json::lemma_object_view(obj);
            }
            Json::Object(obj)
        },
        other => other,
    }
}

/// What bringing a payload into canonical form comes to. Where the canonical form can be
/// read again, it is read as what it is.
pub open spec fn canonicalizes(bytes: Seq<u8>, r: Result<Vec<u8>, String>) -> bool {
    match r {
        Ok(c) => {
            &&& canonical_bytes(bytes) == Some(c@)
            &&& json::parsed_json(bytes) matches Parsed::Value(j) && cases_known(j)
                && json::as_read(j, json::MAX_DEPTH as nat) && (
            json::re_readable(canonical(j), json::MAX_DEPTH as nat) ==> json::parsed_json(c@)
                == Parsed::Value(canonical(j)))
        },
        Err(e) => json::parsed_json(bytes) == Parsed::Refused(e@),
    }
}

/// Produce a canonical byte representation of an `AddRuleInput` JSON payload
/// for content-based comparison.
///
/// Normalization rules:
/// * The `id` field (rule identity) is removed; equality compares rule content.
/// * `direction` is uppercased; `actions[*].action` is uppercased.
/// * Optional string fields (`src`, `dst`, `sni`, `quicVersion`, `srcMac`,
///   `dstMac`) treat missing, `null`, and `""` as equivalent (all removed).
/// * `sport` / `dport`: missing or `null` becomes `0` (matches what the
///   forward codec emits for `None`).
/// * `actions` entries default `priority` to `0` and are sorted by
///   `(priority, action)` so list ordering is not significant.
/// * Object keys are emitted in sorted order.
///
/// Bytes that are no JSON give the text of the parser's error.
pub fn canonicalize_add_rule_json(bytes: &[u8]) -> (r: Result<Vec<u8>, String>)
    ensures
        canonicalizes(bytes@, r),
{
    match json::parse_bytes(bytes) {
        Ok(value) => {
            let canon = canonicalize_value(value);
            let s = json::print(canon);
            Ok(records::copy_bytes(s.as_str().as_bytes()))
        },
        Err(e) => Err(e),
    }
}

/// Errors produced by [`rule_from_add_rule_json`].
#[derive(Debug)]
pub enum RuleFromJsonError {
    /// AddRuleInput JSON is not an object.
    NotAnObject,
    MissingField(&'static str),
    /// `actions` is not an array of objects.
    InvalidActions,
    /// Not JSON; the parser's error.
    Json(String),
}

/// What reading an `AddRuleInput` payload as a rule comes to.
pub enum RuleReading {
    Rule(RuleView),
    NotAnObject,
    MissingField(Seq<char>),
    InvalidActions,
    Refused(Seq<char>),
}

impl RuleFromJsonError {
    pub open spec fn reading(self) -> RuleReading {
        match self {
            RuleFromJsonError::NotAnObject => RuleReading::NotAnObject,
            RuleFromJsonError::MissingField(f) => RuleReading::MissingField(f@),
            RuleFromJsonError::InvalidActions => RuleReading::InvalidActions,
            RuleFromJsonError::Json(e) => RuleReading::Refused(e@),
        }
    }

    /// The text of the error.
    pub fn to_text(&self) -> (s: String)
        ensures
            s@ == (match *self {
                RuleFromJsonError::NotAnObject => "AddRuleInput JSON is not an object"@,
                RuleFromJsonError::MissingField(f) => "missing required field `"@ + f@ + "`"@,
                RuleFromJsonError::InvalidActions => "`actions` is not an array of objects"@,
                RuleFromJsonError::Json(e) => e@,
            }),
    {
        match self {
            RuleFromJsonError::NotAnObject => "AddRuleInput JSON is not an object".to_string(),
            RuleFromJsonError::MissingField(f) => text::concat3("missing required field `", f, "`"),
            RuleFromJsonError::InvalidActions => "`actions` is not an array of objects".to_string(),
            RuleFromJsonError::Json(e) => e.clone(),
        }
    }
}

/// The text under a key, unless it is empty.
pub open spec fn text_at(m: Map<Seq<char>, JsonView>, key: Seq<char>) -> Option<Seq<char>> {
    if m.contains_key(key) {
        match m[key] {
            JsonView::Str(s) => if s.len() > 0 {
                Some(s)
            } else {
                None
            },
            _ => None,
        }
    } else {
        None
    }
}

/// The unsigned number under a key.
pub open spec fn number_at(m: Map<Seq<char>, JsonView>, key: Seq<char>) -> Option<nat> {
    if m.contains_key(key) {
        match m[key] {
            JsonView::Number(NumberView::Unsigned(n)) => Some(n),
            _ => None,
        }
    } else {
        None
    }
}

/// A number as 32 bits, if it fits.
pub open spec fn fitting(n: Option<nat>) -> Option<u32> {
    match n {
        Some(n) => if n <= u32::MAX {
            Some(n as u32)
        } else {
            None
        },
        None => None,
    }
}

/// The port under a key; 0 is none.
pub open spec fn port_at(m: Map<Seq<char>, JsonView>, key: Seq<char>) -> Option<u32> {
    if number_at(m, key) == Some(0nat) {
        None
    } else {
        fitting(number_at(m, key))
    }
}

/// Whether all are objects.
pub open spec fn all_objects(s: Seq<JsonView>) -> bool {
    forall|i: int| 0 <= i < s.len() ==> #[trigger] s[i] is Object
}

/// The rule that an object describes, once its id and actions are known.
pub open spec fn rule_of_members(
    m: Map<Seq<char>, JsonView>,
    node_id: Seq<char>,
    tenant_id: Seq<char>,
    created_at: Timestamp,
) -> RuleView {
    RuleView {
        id: text::decimal(number_at(m, "id"@)->0),
        tenant_id,
        node_id,
        interface_name: text_at(m, "interface"@)->0,
        direction: text::lowercase(text_at(m, "direction"@)->0),
        src_cidr: text_at(m, "src"@),
        dst_cidr: text_at(m, "dst"@),
        src_port: port_at(m, "sport"@),
        dst_port: port_at(m, "dport"@),
        protocol: match text_at(m, "protocol"@) {
            Some(p) => p,
            None => "any"@,
        },
        sni_pattern: text_at(m, "sni"@),
        quic_version: text_at(m, "quicVersion"@),
        src_mac: text_at(m, "srcMac"@),
        dst_mac: text_at(m, "dstMac"@),
        actions_json: json::printed_json(
            JsonView::Array(
                m["actions"@]->Array_0.map_values(|a: JsonView| lower_action(a)),
            ),
        ),
        created_at,
        created_by: None,
        expires_after_secs: fitting(number_at(m, "expiresAfterSecs"@)),
        schedule_json: if m.contains_key("schedule"@) && !(m["schedule"@] is Null) {
            Some(json::printed_json(m["schedule"@]))
        } else {
            None
        },
    }
}

/// What reading an `AddRuleInput` value as a rule comes to.
pub open spec fn read_rule(
    parsed: Parsed,
    node_id: Seq<char>,
    tenant_id: Seq<char>,
    created_at: Timestamp,
) -> RuleReading {
    match parsed {
        Parsed::Refused(e) => RuleReading::Refused(e),
        Parsed::Value(JsonView::Object(m)) => if number_at(m, "id"@) is None {
            RuleReading::MissingField("id"@)
        } else if text_at(m, "interface"@) is None {
            RuleReading::MissingField("interface"@)
        } else if text_at(m, "direction"@) is None {
            RuleReading::MissingField("direction"@)
        } else if !m.contains_key("actions"@) {
            RuleReading::MissingField("actions"@)
        } else if !(m["actions"@] is Array) || !all_objects(m["actions"@]->Array_0) {
            RuleReading::InvalidActions
        } else {
            RuleReading::Rule(rule_of_members(m, node_id, tenant_id, created_at))
        },
        Parsed::Value(_) => RuleReading::NotAnObject,
    }
}

/// The text under a key, unless it is empty.
fn optional_string(obj: &Vec<(String, Json)>, key: &str) -> (r: Option<String>)
    requires
        json::members_wf(obj@),
    ensures
        text::opt_text(r) == text_at(json::members_view(obj@), key@),
{
    match json::get(obj, key) {
        Some(Json::Str(s)) => {
            if s.as_str().is_empty() {
                None
            } else {
                Some(s.clone())
            }
        },
        _ => None,
    }
}

/// The text under a key that must be there.
fn required_string(obj: &Vec<(String, Json)>, key: &'static str) -> (r: Result<
    String,
    RuleFromJsonError,
>)
    requires
        json::members_wf(obj@),
    ensures
        match r {
            Ok(s) => text_at(json::members_view(obj@), key@) == Some(s@),
            Err(e) => text_at(json::members_view(obj@), key@) is None && e.reading()
                == RuleReading::MissingField(key@),
        },
{
    match optional_string(obj, key) {
        Some(s) => Ok(s),
        None => Err(RuleFromJsonError::MissingField(key)),
    }
}

/// The unsigned number under a key.
fn unsigned_field(obj: &Vec<(String, Json)>, key: &str) -> (r: Option<u64>)
    requires
        json::members_wf(obj@),
    ensures
        match r {
            Some(n) => number_at(json::members_view(obj@), key@) == Some(n as nat),
            None => number_at(json::members_view(obj@), key@) is None,
        },
{
    match json::get(obj, key) {
        Some(Json::Number(JsonNumber::Unsigned(n))) => Some(*n),
        _ => None,
    }
}

/// The port under a key; 0 is none.
fn port_field(obj: &Vec<(String, Json)>, key: &str) -> (r: Option<u32>)
    requires
        json::members_wf(obj@),
    ensures
        r == port_at(json::members_view(obj@), key@),
{
    match unsigned_field(obj, key) {
        Some(n) => if n == 0 || n > u32::MAX as u64 {
            None
        } else {
            Some(n as u32)
        },
        None => None,
    }
}

/// Whether it is known what lower case is of the names of actions.
pub open spec fn names_lower_known(s: Seq<JsonView>) -> bool {
    forall|i: int| 0 <= i < s.len() ==> lower_name_known(#[trigger] s[i])
}

/// The actions with their names in lower case, as JSON text.
fn normalize_actions_for_db(value: Json) -> (r: Result<String, RuleFromJsonError>)
    requires
        value.wf(),
    ensures
        match r {
            Ok(s) => value@ is Array && all_objects(value@->Array_0) && ({
                let lower = JsonView::Array(
                    value@->Array_0.map_values(|a: JsonView| lower_action(a)),
                );
                s@ == json::printed_json(lower) && names_lower_known(value@->Array_0) && (
                json::re_readable(
                    lower,
                    json::MAX_DEPTH as nat,
                ) ==> json::json_of_text(s@) == Parsed::Value(lower))
            }),
            Err(e) => (!(value@ is Array) || !all_objects(value@->Array_0)) && e.reading()
                == RuleReading::InvalidActions,
        },
{
    broadcast use json::lemma_array_view;

    match value {
        Json::Array(actions) => {
            let ghost views = json::items_view(actions@);
            assert(value@ == JsonView::Array(views));
            let mut i: usize = 0;
            while i < actions.len()
                invariant
                    i <= actions@.len(),
                    views == json::items_view(actions@),
                    value@ == JsonView::Array(views),
                    forall|j: int| 0 <= j < i ==> #[trigger] views[j] is Object,
                decreases actions@.len() - i,
            {
                assert(views[i as int] == actions@[i as int]@);
                match &actions[i] {
                    Json::Object(_) => {},
                    _ => {
                        return Err(RuleFromJsonError::InvalidActions);
                    },
                }
                i = i + 1;
            }
            let lower = change_actions(actions, Letters::Lower);
            proof {
                json::lemma_array_view(lower);
                assert(json::items_view(lower@) =~= views.map_values(
                    |a: JsonView| lower_action(a),
                ));
            }
            Ok(json::print(Json::Array(lower)))
        },
        _ => Err(RuleFromJsonError::InvalidActions),
    }
}

/// Whether the text of a value that was printed is read as the value again, where it can
/// be.
pub open spec fn reads_back(t: Seq<char>, v: JsonView) -> bool {
    json::re_readable(v, json::MAX_DEPTH as nat) ==> json::json_of_text(t) == Parsed::Value(v)
}

/// What reading a payload as a rule comes to. The actions and the schedule of the rule are
/// read as those of the payload, the names of the actions in lower case.
pub open spec fn reads_as_rule(
    params_json: Seq<u8>,
    node_id: Seq<char>,
    tenant_id: Seq<char>,
    created_at: Timestamp,
    r: Result<Rule, RuleFromJsonError>,
) -> bool {
    let reading = read_rule(json::parsed_json(params_json), node_id, tenant_id, created_at);
    let m = json::parsed_json(params_json)->Value_0->Object_0;
    match r {
        Ok(rule) => {
            &&& reading == RuleReading::Rule(rule@)
            &&& lower_known(text_at(m, "direction"@)->0)
            &&& names_lower_known(m["actions"@]->Array_0)
            &&& reads_back(
                rule.actions_json@,
                JsonView::Array(m["actions"@]->Array_0.map_values(|a: JsonView| lower_action(a))),
            )
            &&& rule.schedule_json matches Some(t) ==> reads_back(t@, m["schedule"@])
        },
        Err(e) => reading == e.reading(),
    }
}

/// Parse an `AddRuleInput` JSON payload (as emitted by an agent's change
/// detector or by [`build_add_rule_json`]) back into a controller [`Rule`] row.
///
/// `node_id` / `tenant_id` / `created_at` are supplied by the caller because
/// they are not part of the `AddRuleInput` shape. The rule's numeric `id`,
/// `interface`, and `direction` MUST be present in the JSON.
pub fn rule_from_add_rule_json(
    node_id: &str,
    tenant_id: &str,
    params_json: &[u8],
    created_at: Timestamp,
) -> (r: Result<Rule, RuleFromJsonError>)
    ensures
        reads_as_rule(params_json@, node_id@, tenant_id@, created_at, r),
{
    broadcast use json::lemma_object_view;

    let obj: Vec<(String, Json)> = match json::parse_bytes(params_json) {
        Ok(Json::Object(obj)) => obj,
        Ok(_) => {
            return Err(RuleFromJsonError::NotAnObject);
        },
        Err(e) => {
            return Err(RuleFromJsonError::Json(e));
        },
    };
    let ghost m = json::members_view(obj@);
    proof {
        json::lemma_object_view(obj);
        assert(json::parsed_json(params_json@) == Parsed::Value(JsonView::Object(m)));
    }
    let id: u64 = match unsigned_field(&obj, "id") {
        Some(id) => id,
        None => {
            return Err(RuleFromJsonError::MissingField("id"));
        },
    };
    let interface_name = match required_string(&obj, "interface") {
        Ok(s) => s,
        Err(e) => {
            return Err(e);
        },
    };
    let direction = match required_string(&obj, "direction") {
        Ok(s) => s.as_str().to_lowercase(),
        Err(e) => {
            return Err(e);
        },
    };
    let src_cidr = optional_string(&obj, "src");
    let dst_cidr = optional_string(&obj, "dst");
    let sni_pattern = optional_string(&obj, "sni");
    let quic_version = optional_string(&obj, "quicVersion");
    let src_mac = optional_string(&obj, "srcMac");
    let dst_mac = optional_string(&obj, "dstMac");
    let src_port = port_field(&obj, "sport");
    let dst_port = port_field(&obj, "dport");
    let protocol = match optional_string(&obj, "protocol") {
        Some(p) => p,
        None => "any".to_string(),
    };
    let actions_value = match json::get(&obj, "actions") {
        Some(v) => json::copy(v),
        None => {
            return Err(RuleFromJsonError::MissingField("actions"));
        },
    };
    let actions_json = match normalize_actions_for_db(actions_value) {
        Ok(s) => s,
        Err(e) => {
            return Err(e);
        },
    };
    let expires_after_secs: Option<u32> = match unsigned_field(&obj, "expiresAfterSecs") {
        Some(n) => if n <= u32::MAX as u64 {
            Some(n as u32)
        } else {
            None
        },
        None => None,
    };
    let schedule_json: Option<String> = match json::get(&obj, "schedule") {
        Some(Json::Null) => None,
        Some(v) => Some(json::print(json::copy(v))),
        None => None,
    };
    let rule = Rule {
        id: text::u64_text(id),
        tenant_id: tenant_id.to_string(),
        node_id: node_id.to_string(),
        interface_name,
        direction,
        src_cidr,
        dst_cidr,
        src_port,
        dst_port,
        protocol,
        sni_pattern,
        quic_version,
        src_mac,
        dst_mac,
        actions_json,
        created_at,
        created_by: None,
        expires_after_secs,
        schedule_json,
    };
    proof {
        let want = rule_of_members(m, node_id@, tenant_id@, created_at);
        assert(rule@.protocol == want.protocol);
        assert(rule@.schedule_json == want.schedule_json);
        assert(rule@.actions_json == want.actions_json);
        assert(rule@ == want);
    }
    Ok(rule)
}

} // verus!
