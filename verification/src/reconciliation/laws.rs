//! What holds of rules in `AddRuleInput` form whatever they hold, and of a state that is
//! taken over.

use super::add_rule::{self, RuleFromJsonError, RuleReading};
use super::local_change;
use crate::json::{self, JsonView, NumberView, Parsed};
use crate::order;
use crate::proto::{PersistedRule, StateSnapshot};
use crate::store::{self, Rule};
use crate::store::model::{self, Replacement, StoreModel};
use crate::store::records::RuleView;
use crate::text;
use crate::timestamp::Timestamp;
use vstd::prelude::*;

verus! {

/// Whether blank texts under the key are dropped from the canonical form.
pub open spec fn optional_text_key(k: Seq<char>) -> bool {
    k == "src"@ || k == "dst"@ || k == "sni"@ || k == "quicVersion"@ || k == "srcMac"@ || k
        == "dstMac"@
}

/// Whether the key is that of a port.
pub open spec fn port_key(k: Seq<char>) -> bool {
    k == "sport"@ || k == "dport"@
}

/// Whether the value is nothing or an empty text.
pub open spec fn blank(j: JsonView) -> bool {
    j is Null || (j is Str && j->Str_0.len() == 0)
}

/// The keys of a rule differ from one another.
proof fn lemma_keys_differ()
    ensures
        !optional_text_key("id"@),
        !optional_text_key("direction"@),
        !optional_text_key("sport"@),
        !optional_text_key("dport"@),
        !optional_text_key("actions"@),
        !port_key("id"@),
        !port_key("direction"@),
        !port_key("actions"@),
        "sport"@ != "dport"@,
        "id"@ != "direction"@,
        "id"@ != "actions"@,
        "direction"@ != "actions"@,
        "src"@ != "dst"@,
        "src"@ != "sni"@,
        "dst"@ != "sni"@,
        "srcMac"@ != "dstMac"@,
        "src"@ != "quicVersion"@,
        "src"@ != "srcMac"@,
        "src"@ != "dstMac"@,
        "dst"@ != "quicVersion"@,
        "dst"@ != "srcMac"@,
        "dst"@ != "dstMac"@,
        "sni"@ != "quicVersion"@,
        "sni"@ != "srcMac"@,
        "sni"@ != "dstMac"@,
        "quicVersion"@ != "srcMac"@,
        "quicVersion"@ != "dstMac"@,
{
    reveal_strlit("id");
    reveal_strlit("direction");
    reveal_strlit("sport");
    reveal_strlit("dport");
    reveal_strlit("actions");
    reveal_strlit("src");
    reveal_strlit("dst");
    reveal_strlit("sni");
    reveal_strlit("quicVersion");
    reveal_strlit("srcMac");
    reveal_strlit("dstMac");
    assert("id"@.len() == 2 && "actions"@.len() == 7 && "direction"@.len() == 9);
    assert("sport"@.len() == 5 && "dport"@.len() == 5);
    assert("src"@.len() == 3 && "dst"@.len() == 3 && "sni"@.len() == 3);
    assert("srcMac"@.len() == 6 && "dstMac"@.len() == 6 && "quicVersion"@.len() == 11);
    assert("sport"@[0] != "dport"@[0]);
    assert("src"@[0] != "dst"@[0]);
    assert("src"@[1] != "sni"@[1]);
    assert("dst"@[0] != "sni"@[0]);
    assert("srcMac"@[0] != "dstMac"@[0]);
}

/// The scalar members of the canonical form, one by one.
proof fn lemma_scalars(m: Map<Seq<char>, JsonView>)
    ensures
        forall|k: Seq<char>| #[trigger]
            add_rule::canonical_scalars(m).contains_key(k) == (port_key(k) || (m.contains_key(k) && k
                != "id"@ && !(optional_text_key(k) && blank(m[k])))),
        forall|k: Seq<char>|
            add_rule::canonical_scalars(m).contains_key(k) ==> #[trigger] add_rule::canonical_scalars(
                m,
            )[k] == (if port_key(k) && (!m.contains_key(k) || m[k] is Null) {
                add_rule::number(0)
            } else if k == "direction"@ && m[k] is Str {
                JsonView::Str(text::uppercase(m[k]->Str_0))
            } else {
                m[k]
            }),
{
    lemma_keys_differ();
    reveal(add_rule::canonical_scalars);
    let f = |s: Seq<char>| text::uppercase(s);
    let a = add_rule::text_changed(m.remove("id"@), "direction"@, f);
    assert forall|k: Seq<char>| #[trigger] a.contains_key(k) == (m.contains_key(k) && k
        != "id"@) by {}
    assert forall|k: Seq<char>| a.contains_key(k) implies #[trigger] a[k] == (if k == "direction"@
        && m[k] is Str {
        JsonView::Str(text::uppercase(m[k]->Str_0))
    } else {
        m[k]
    }) by {}
    let b = add_rule::without_blank(add_rule::without_blank(a, "src"@), "dst"@);
    let c = add_rule::without_blank(add_rule::without_blank(b, "sni"@), "quicVersion"@);
    let d = add_rule::without_blank(add_rule::without_blank(c, "srcMac"@), "dstMac"@);
    assert forall|k: Seq<char>| #[trigger] b.contains_key(k) == (a.contains_key(k) && !((k
        == "src"@ || k == "dst"@) && blank(a[k]))) by {}
    assert forall|k: Seq<char>| b.contains_key(k) implies #[trigger] b[k] == a[k] by {}
    assert forall|k: Seq<char>| #[trigger] c.contains_key(k) == (b.contains_key(k) && !((k
        == "sni"@ || k == "quicVersion"@) && blank(b[k]))) by {}
    assert forall|k: Seq<char>| c.contains_key(k) implies #[trigger] c[k] == b[k] by {}
    assert forall|k: Seq<char>| #[trigger] d.contains_key(k) == (c.contains_key(k) && !((k
        == "srcMac"@ || k == "dstMac"@) && blank(c[k]))) by {}
    assert forall|k: Seq<char>| d.contains_key(k) implies #[trigger] d[k] == c[k] by {}
}

/// The actions stand in the canonical form where they stood, before they are sorted.
pub(crate) proof fn lemma_actions_stay(m: Map<Seq<char>, JsonView>)
    ensures
        m.remove("id"@).contains_key("direction"@) == m.contains_key("direction"@),
        m.contains_key("direction"@) ==> m.remove("id"@)["direction"@] == m["direction"@],
        add_rule::canonical_scalars(m).contains_key("actions"@) == m.contains_key("actions"@),
        m.contains_key("actions"@) ==> add_rule::canonical_scalars(m)["actions"@] == m[
        "actions"@],
{
    lemma_keys_differ();
    lemma_scalars(m);
}

/// The id of a rule is no part of its canonical form.
pub proof fn canonical_ignores_id(m: Map<Seq<char>, JsonView>, id: JsonView)
    ensures
        add_rule::canonical(JsonView::Object(m.insert("id"@, id))) == add_rule::canonical(
            JsonView::Object(m.remove("id"@)),
        ),
{
    reveal(add_rule::canonical_scalars);
    assert(m.insert("id"@, id).remove("id"@) =~= m.remove("id"@).remove("id"@));
}

/// A missing, a null and an empty optional text have the same canonical form.
pub proof fn canonical_ignores_blank_texts(m: Map<Seq<char>, JsonView>, key: Seq<char>)
    requires
        optional_text_key(key),
    ensures
        add_rule::canonical(JsonView::Object(m.insert(key, JsonView::Null)))
            == add_rule::canonical(JsonView::Object(m.remove(key))),
        add_rule::canonical(JsonView::Object(m.insert(key, JsonView::Str(Seq::empty()))))
            == add_rule::canonical(JsonView::Object(m.remove(key))),
{
    lemma_keys_differ();
    let null = m.insert(key, JsonView::Null);
    let empty = m.insert(key, JsonView::Str(Seq::empty()));
    let none = m.remove(key);
    lemma_scalars(null);
    lemma_scalars(empty);
    lemma_scalars(none);
    assert(add_rule::canonical_scalars(null) =~= add_rule::canonical_scalars(none));
    assert(add_rule::canonical_scalars(empty) =~= add_rule::canonical_scalars(none));
}

/// A missing port, a null one and port 0 have the same canonical form.
pub proof fn canonical_ignores_absent_ports(m: Map<Seq<char>, JsonView>, key: Seq<char>)
    requires
        port_key(key),
    ensures
        add_rule::canonical(JsonView::Object(m.insert(key, JsonView::Null)))
            == add_rule::canonical(JsonView::Object(m.remove(key))),
        add_rule::canonical(JsonView::Object(m.insert(key, add_rule::number(0))))
            == add_rule::canonical(JsonView::Object(m.remove(key))),
{
    lemma_keys_differ();
    let null = m.insert(key, JsonView::Null);
    let zero = m.insert(key, add_rule::number(0));
    let none = m.remove(key);
    lemma_scalars(null);
    lemma_scalars(zero);
    lemma_scalars(none);
    assert(add_rule::canonical_scalars(null) =~= add_rule::canonical_scalars(none));
    assert(add_rule::canonical_scalars(zero) =~= add_rule::canonical_scalars(none));
}

/// The order by priority and name is total and transitive.
proof fn lemma_actions_rank()
    ensures
        order::ranks(|a: JsonView, b: JsonView| add_rule::action_before(a, b)),
{
    let le = |a: JsonView, b: JsonView| add_rule::action_before(a, b);
    assert forall|a: JsonView, b: JsonView| #[trigger] le(a, b) || le(b, a) by {
        text::at_most_total(add_rule::name_of(a), add_rule::name_of(b));
    }
    assert forall|a: JsonView, b: JsonView, c: JsonView| #[trigger] le(a, b) && #[trigger] le(
        b,
        c,
    ) implies le(a, c) by {
        if add_rule::priority_of(a) == add_rule::priority_of(b) && add_rule::priority_of(b)
            == add_rule::priority_of(c) {
            text::at_most_transitive(
                add_rule::name_of(a),
                add_rule::name_of(b),
                add_rule::name_of(c),
            );
        }
    }
}

/// The order in which a rule lists its actions is no part of its canonical form.
/// Actions of one priority and name that differ in something else keep the order
/// in which they came; without such actions the order does not matter.
pub proof fn canonical_ignores_action_order(
    m: Map<Seq<char>, JsonView>,
    a: Seq<JsonView>,
    b: Seq<JsonView>,
)
    requires
        a.to_multiset() == b.to_multiset(),
        forall|x: JsonView, y: JsonView|
            a.contains(x) && a.contains(y) && #[trigger] add_rule::action_before(
                add_rule::canonical_action(x),
                add_rule::canonical_action(y),
            ) && add_rule::action_before(
                add_rule::canonical_action(y),
                add_rule::canonical_action(x),
            ) ==> add_rule::canonical_action(x) == add_rule::canonical_action(y),
    ensures
        add_rule::canonical(JsonView::Object(m.insert("actions"@, JsonView::Array(a))))
            == add_rule::canonical(JsonView::Object(m.insert("actions"@, JsonView::Array(b)))),
{
    lemma_keys_differ();
    lemma_actions_rank();
    let f = |x: JsonView| add_rule::canonical_action(x);
    let le = |x: JsonView, y: JsonView| add_rule::action_before(x, y);
    order::lemma_views_same_multiset(a, b, f);
    let ca = a.map_values(f);
    assert forall|x: JsonView, y: JsonView|
        ca.contains(x) && ca.contains(y) && #[trigger] le(x, y) && le(y, x) implies x == y by {
        let i = choose|i: int| 0 <= i < ca.len() && ca[i] == x;
        let j = choose|j: int| 0 <= j < ca.len() && ca[j] == y;
        assert(a.contains(a[i]) && a.contains(a[j]));
        assert(add_rule::action_before(
            add_rule::canonical_action(a[i]),
            add_rule::canonical_action(a[j]),
        ));
    }
    order::arranged_forgets_order(ca, b.map_values(f), le);
    let ma = m.insert("actions"@, JsonView::Array(a));
    let mb = m.insert("actions"@, JsonView::Array(b));
    lemma_scalars(ma);
    lemma_scalars(mb);
    let sa = add_rule::canonical_scalars(ma);
    let sb = add_rule::canonical_scalars(mb);
    assert(sa.contains_key("actions"@) && sb.contains_key("actions"@));
    assert(sa["actions"@] == JsonView::Array(a));
    assert(sb["actions"@] == JsonView::Array(b));
    assert(add_rule::canonical_members(ma) =~= add_rule::canonical_members(mb));
}

/// Whether bringing the text to upper case twice is bringing it once.
pub open spec fn upper_stable(s: Seq<char>) -> bool {
    text::uppercase(text::uppercase(s)) == text::uppercase(s)
}

/// Whether the name of an action is stable under upper case.
pub open spec fn stable_action(a: JsonView) -> bool {
    a matches JsonView::Object(m) ==> (m.contains_key("action"@) ==> (
    m["action"@] matches JsonView::Str(s) ==> upper_stable(s)))
}

/// Whether the direction of a rule and the names of its actions are stable under
/// upper case.
pub open spec fn stable_rule(j: JsonView) -> bool {
    j matches JsonView::Object(m) ==> {
        &&& m.contains_key("direction"@) ==> (m["direction"@] matches JsonView::Str(s)
            ==> upper_stable(s))
        &&& m.contains_key("actions"@) ==> (m["actions"@] matches JsonView::Array(s)
            ==> forall|i: int| 0 <= i < s.len() ==> stable_action(#[trigger] s[i]))
    }
}

/// The canonical form of an action is its own canonical form.
proof fn lemma_action_idempotent(a: JsonView)
    requires
        stable_action(a),
    ensures
        add_rule::canonical_action(add_rule::canonical_action(a)) == add_rule::canonical_action(a),
{
    reveal_strlit("action");
    reveal_strlit("priority");
    assert("action"@.len() != "priority"@.len());
    match a {
        JsonView::Object(m) => {
            let c = add_rule::canonical_action(a)->Object_0;
            let f = |s: Seq<char>| text::uppercase(s);
            assert(add_rule::text_changed(c, "action"@, f) =~= c);
        },
        _ => {},
    }
}

/// Bringing a rule into canonical form twice is bringing it once, as far as upper
/// case is stable on its direction and the names of its actions.
pub proof fn canonical_idempotent(j: JsonView)
    requires
        stable_rule(j),
    ensures
        add_rule::canonical(add_rule::canonical(j)) == add_rule::canonical(j),
{
    broadcast use vstd::seq_lib::group_to_multiset_ensures;

    match j {
        JsonView::Object(m) => {
            lemma_keys_differ();
            lemma_actions_rank();
            let f = |x: JsonView| add_rule::canonical_action(x);
            let le = |x: JsonView, y: JsonView| add_rule::action_before(x, y);
            let c = add_rule::canonical_members(m);
            lemma_scalars(m);
            lemma_scalars(c);
            let sm = add_rule::canonical_scalars(m);
            let sc = add_rule::canonical_scalars(c);
            assert(sc =~= c) by {
                assert forall|k: Seq<char>| #[trigger] sc.contains_key(k) == c.contains_key(k) by {}
                assert forall|k: Seq<char>| sc.contains_key(k) implies #[trigger] sc[k]
                    == c[k] by {}
            }
            if sm.contains_key("actions"@) && sm["actions"@] is Array {
                let s = sm["actions"@]->Array_0;
                assert(m["actions"@] == sm["actions"@]);
                let once = s.map_values(f);
                let sorted = order::arranged(once, le);
                order::arranged_sorts(once, le);
                assert(c["actions"@] == JsonView::Array(sorted));
                assert(sorted.map_values(f) =~= sorted) by {
                    assert forall|i: int| 0 <= i < sorted.len() implies f(sorted[i])
                        == sorted[i] by {
                        assert(sorted.contains(sorted[i]));
                        assert(once.to_multiset().count(sorted[i]) > 0);
                        assert(once.contains(sorted[i]));
                        let k = choose|k: int| 0 <= k < once.len() && once[k] == sorted[i];
                        assert(stable_action(s[k]));
                        lemma_action_idempotent(s[k]);
                    }
                }
                order::arranged_keeps_order(sorted, le);
                assert(add_rule::canonical_members(c) =~= c);
            } else {
                assert(add_rule::canonical_members(c) =~= c);
            }
        },
        _ => {},
    }
}

/// Whether each of the direction of a rule and the names of its actions is plain ASCII or
/// otherwise stable under upper case.
pub open spec fn plain_rule(j: JsonView) -> bool {
    j matches JsonView::Object(m) ==> {
        &&& m.contains_key("direction"@) ==> (m["direction"@] matches JsonView::Str(s)
            ==> text::ascii(s) || upper_stable(s))
        &&& m.contains_key("actions"@) ==> (m["actions"@] matches JsonView::Array(s)
            ==> forall|i: int| 0 <= i < s.len() ==> plain_action(#[trigger] s[i]))
    }
}

/// Whether the name of an action is plain ASCII or otherwise stable under upper case.
pub open spec fn plain_action(a: JsonView) -> bool {
    a matches JsonView::Object(m) ==> (m.contains_key("action"@) ==> (
    m["action"@] matches JsonView::Str(s) ==> text::ascii(s) || upper_stable(s)))
}

/// ASCII text is stable under upper case.
proof fn lemma_ascii_stable(s: Seq<char>)
    requires
        text::ascii(s) || upper_stable(s),
        add_rule::upper_known(s),
        add_rule::upper_known(text::uppercase(s)),
    ensures
        upper_stable(s),
{
    if text::ascii(s) {
        let u = text::uppercase(s);
        assert forall|i: int| 0 <= i < u.len() implies (#[trigger] u[i] as u32) < 128 by {
            assert(u[i] == text::ascii_upper(s[i]));
            assert((s[i] as u32) < 128);
        }
        assert(u.map_values(|c: char| text::ascii_upper(c)) =~= u) by {
            assert forall|i: int| 0 <= i < u.len() implies text::ascii_upper(u[i]) == u[i] by {
                assert(u[i] == text::ascii_upper(s[i]));
            }
        }
    }
}

/// A rule with names in plain ASCII is stable under upper case.
proof fn lemma_plain_stable(j: JsonView)
    requires
        plain_rule(j),
        add_rule::cases_known(j),
        add_rule::cases_known(add_rule::canonical(j)),
    ensures
        stable_rule(j),
{
    broadcast use vstd::seq_lib::group_to_multiset_ensures;

    if let JsonView::Object(m) = j {
        lemma_keys_differ();
        lemma_actions_rank();
        lemma_scalars(m);
        let c = add_rule::canonical_members(m);
        assert(c == add_rule::canonical(j)->Object_0);
        if m.contains_key("direction"@) && m["direction"@] is Str {
            let s = m["direction"@]->Str_0;
            assert(c["direction"@] == JsonView::Str(text::uppercase(s)));
            lemma_ascii_stable(s);
        }
        if m.contains_key("actions"@) && m["actions"@] is Array {
            let s = m["actions"@]->Array_0;
            let f = |x: JsonView| add_rule::canonical_action(x);
            let le = |x: JsonView, y: JsonView| add_rule::action_before(x, y);
            let once = s.map_values(f);
            let sorted = order::arranged(once, le);
            order::arranged_sorts(once, le);
            assert(c.contains_key("actions"@) && c["actions"@] == JsonView::Array(sorted));
            assert(forall|i: int|
                0 <= i < sorted.len() ==> add_rule::name_known(#[trigger] sorted[i])) by {
                let known = c["actions"@]->Array_0;
                assert(known == sorted);
            }
            assert forall|k: int| 0 <= k < s.len() implies stable_action(#[trigger] s[k]) by {
                assert(plain_action(s[k]));
                assert(add_rule::name_known(s[k]));
                assert(once.contains(once[k]));
                assert(sorted.to_multiset().count(once[k]) > 0);
                assert(sorted.contains(once[k]));
                let i = choose|i: int| 0 <= i < sorted.len() && sorted[i] == once[k];
                assert(add_rule::name_known(sorted[i]));
                lemma_action_stable(s[k]);
            }
        }
    }
}

proof fn lemma_action_stable(a: JsonView)
    requires
        plain_action(a),
        add_rule::name_known(a),
        add_rule::name_known(add_rule::canonical_action(a)),
    ensures
        stable_action(a),
{
    reveal_strlit("action");
    reveal_strlit("priority");
    assert("action"@.len() != "priority"@.len());
    if let JsonView::Object(m) = a {
        if m.contains_key("action"@) && m["action"@] is Str {
            let s = m["action"@]->Str_0;
            let c = add_rule::canonical_action(a)->Object_0;
            assert(c["action"@] == JsonView::Str(text::uppercase(s)));
            lemma_ascii_stable(s);
        }
    }
}

/// What can be read again at some depth can be at a greater one.
proof fn lemma_deeper(j: JsonView, depth: nat)
    requires
        json::re_readable(j, depth),
    ensures
        json::re_readable(j, depth + 1),
    decreases depth,
{
    match j {
        JsonView::Array(s) => {
            assert forall|i: int| 0 <= i < s.len() implies json::re_readable(
                #[trigger] s[i],
                depth,
            ) by {
                lemma_deeper(s[i], (depth - 1) as nat);
            }
        },
        JsonView::Object(m) => {
            assert forall|k: Seq<char>| m.contains_key(k) implies json::re_readable(
                #[trigger] m[k],
                depth,
            ) by {
                lemma_deeper(m[k], (depth - 1) as nat);
            }
        },
        _ => {},
    }
}

/// The canonical form of what can be read again can be read again.
proof fn lemma_canonical_readable(j: JsonView, depth: nat)
    requires
        json::re_readable(j, depth),
    ensures
        json::re_readable(add_rule::canonical(j), depth),
{
    broadcast use vstd::seq_lib::group_to_multiset_ensures;

    if let JsonView::Object(m) = j {
        lemma_keys_differ();
        lemma_actions_rank();
        lemma_scalars(m);
        let c = add_rule::canonical_members(m);
        let sm = add_rule::canonical_scalars(m);
        let d = (depth - 1) as nat;
        assert forall|k: Seq<char>| c.contains_key(k) implies json::re_readable(
            #[trigger] c[k],
            d,
        ) by {
            assert(sm.contains_key(k));
            if k == "actions"@ && sm[k] is Array {
                let s = sm[k]->Array_0;
                assert(sm[k] == m[k]);
                assert(json::re_readable(m[k], d));
                let f = |x: JsonView| add_rule::canonical_action(x);
                let le = |x: JsonView, y: JsonView| add_rule::action_before(x, y);
                let once = s.map_values(f);
                let sorted = order::arranged(once, le);
                order::arranged_sorts(once, le);
                assert(c[k] == JsonView::Array(sorted));
                assert forall|i: int| 0 <= i < sorted.len() implies json::re_readable(
                    #[trigger] sorted[i],
                    (d - 1) as nat,
                ) by {
                    assert(sorted.contains(sorted[i]));
                    assert(once.to_multiset().count(sorted[i]) > 0);
                    assert(once.contains(sorted[i]));
                    let n = choose|n: int| 0 <= n < once.len() && once[n] == sorted[i];
                    assert(json::re_readable(s[n], (d - 1) as nat));
                    lemma_action_readable(s[n], (d - 1) as nat);
                }
            } else if m.contains_key(k) {
                assert(json::re_readable(m[k], d));
            }
        }
    }
}

pub proof fn lemma_action_readable(a: JsonView, depth: nat)
    requires
        json::re_readable(a, depth),
    ensures
        json::re_readable(add_rule::canonical_action(a), depth),
        json::re_readable(add_rule::upper_action(a), depth),
        json::re_readable(add_rule::lower_action(a), depth),
{
    if let JsonView::Object(m) = a {
        let d = (depth - 1) as nat;
        let c = add_rule::canonical_action(a)->Object_0;
        assert forall|k: Seq<char>| c.contains_key(k) implies json::re_readable(
            #[trigger] c[k],
            d,
        ) by {
            if m.contains_key(k) {
                assert(json::re_readable(m[k], d));
            }
        }
        let u = add_rule::upper_action(a)->Object_0;
        assert forall|k: Seq<char>| u.contains_key(k) implies json::re_readable(
            #[trigger] u[k],
            d,
        ) by {
            if m.contains_key(k) {
                assert(json::re_readable(m[k], d));
            }
        }
        let l = add_rule::lower_action(a)->Object_0;
        assert forall|k: Seq<char>| l.contains_key(k) implies json::re_readable(
            #[trigger] l[k],
            d,
        ) by {
            if m.contains_key(k) {
                assert(json::re_readable(m[k], d));
            }
        }
    }
}

/// The canonical form of a payload is its own canonical form, byte for byte, where each of
/// its direction and the names of its actions is ASCII, or otherwise stable under upper
/// case. Its numbers are integers, or fractions that are read back from their notations.
pub proof fn canonical_bytes_are_stable(
    bytes: Seq<u8>,
    once: Vec<u8>,
    twice: Result<Vec<u8>, String>,
)
    requires
        add_rule::canonicalizes(bytes, Ok(once)),
        add_rule::canonicalizes(once@, twice),
        json::parsed_json(bytes) matches Parsed::Value(j) && json::fractions_return(j)
            && plain_rule(j),
    ensures
        twice matches Ok(again) && again@ == once@,
{
    let j = json::parsed_json(bytes)->Value_0;
    json::lemma_read_again(j, json::MAX_DEPTH as nat);
    lemma_canonical_readable(j, json::MAX_DEPTH as nat);
    lemma_plain_stable(j);
    canonical_idempotent(j);
}

/// Texts that are one in upper case make no difference in the canonical form, neither as
/// the direction of a rule nor as the name of an action.
pub proof fn canonical_ignores_letter_case(
    m: Map<Seq<char>, JsonView>,
    a: Seq<char>,
    b: Seq<char>,
)
    requires
        text::uppercase(a) == text::uppercase(b),
    ensures
        add_rule::canonical(JsonView::Object(m.insert("direction"@, JsonView::Str(a))))
            == add_rule::canonical(JsonView::Object(m.insert("direction"@, JsonView::Str(b)))),
        add_rule::canonical_action(JsonView::Object(m.insert("action"@, JsonView::Str(a))))
            == add_rule::canonical_action(JsonView::Object(m.insert("action"@, JsonView::Str(b)))),
{
    lemma_keys_differ();
    let ma = m.insert("direction"@, JsonView::Str(a));
    let mb = m.insert("direction"@, JsonView::Str(b));
    lemma_scalars(ma);
    lemma_scalars(mb);
    assert(add_rule::canonical_scalars(ma) =~= add_rule::canonical_scalars(mb));
    let f = |s: Seq<char>| text::uppercase(s);
    let na = m.insert("action"@, JsonView::Str(a));
    let nb = m.insert("action"@, JsonView::Str(b));
    assert(add_rule::text_changed(na, "action"@, f) =~= add_rule::text_changed(
        nb,
        "action"@,
        f,
    ));
}

/// Whether two ASCII texts differ at most in the case of their letters.
pub open spec fn same_letters(a: Seq<char>, b: Seq<char>) -> bool {
    &&& text::ascii(a)
    &&& text::ascii(b)
    &&& a.map_values(|c: char| text::ascii_upper(c)) == b.map_values(
        |c: char| text::ascii_upper(c),
    )
}

/// Whether members differ at most in the case of the letters of the text under a key.
pub open spec fn alike_but_for(
    m: Map<Seq<char>, JsonView>,
    n: Map<Seq<char>, JsonView>,
    key: Seq<char>,
) -> bool {
    ||| m == n
    ||| {
        &&& m.remove(key) == n.remove(key)
        &&& m.contains_key(key) && n.contains_key(key)
        &&& m[key] is Str && n[key] is Str
        &&& same_letters(m[key]->Str_0, n[key]->Str_0)
    }
}

/// Whether two actions differ at most in the case of the letters of their names.
pub open spec fn actions_alike(a: JsonView, b: JsonView) -> bool {
    match (a, b) {
        (JsonView::Object(m), JsonView::Object(n)) => alike_but_for(m, n, "action"@),
        _ => a == b,
    }
}

/// An action has one canonical form however the letters of its name are written.
proof fn lemma_actions_alike(a: JsonView, b: JsonView)
    requires
        actions_alike(a, b),
        add_rule::name_known(a),
        add_rule::name_known(b),
    ensures
        add_rule::canonical_action(a) == add_rule::canonical_action(b),
{
    if let (JsonView::Object(m), JsonView::Object(n)) = (a, b) {
        if m != n {
            let key = "action"@;
            let rest = m.remove(key);
            assert(rest.insert(key, m[key]) =~= m);
            assert(rest.insert(key, n[key]) =~= n);
            canonical_ignores_letter_case(rest, m[key]->Str_0, n[key]->Str_0);
        }
    }
}

/// Payloads that differ at most in the case of the ASCII letters of their direction have
/// one canonical form, byte for byte.
pub proof fn canonical_bytes_ignore_case_of_direction(
    x: Seq<u8>,
    y: Seq<u8>,
    a: Vec<u8>,
    b: Vec<u8>,
)
    requires
        add_rule::canonicalizes(x, Ok(a)),
        add_rule::canonicalizes(y, Ok(b)),
        json::parsed_json(x) matches Parsed::Value(JsonView::Object(m)) && (
        json::parsed_json(y) matches Parsed::Value(JsonView::Object(n)) && alike_but_for(
            m,
            n,
            "direction"@,
        )),
    ensures
        a@ == b@,
{
    let m = json::parsed_json(x)->Value_0->Object_0;
    let n = json::parsed_json(y)->Value_0->Object_0;
    if m != n {
        let key = "direction"@;
        let rest = m.remove(key);
        assert(rest.insert(key, m[key]) =~= m);
        assert(rest.insert(key, n[key]) =~= n);
        canonical_ignores_letter_case(rest, m[key]->Str_0, n[key]->Str_0);
    }
}

/// Payloads that differ at most in the case of the ASCII letters of the names of their
/// actions have one canonical form, byte for byte.
pub proof fn canonical_bytes_ignore_case_of_actions(
    x: Seq<u8>,
    y: Seq<u8>,
    a: Vec<u8>,
    b: Vec<u8>,
)
    requires
        add_rule::canonicalizes(x, Ok(a)),
        add_rule::canonicalizes(y, Ok(b)),
        json::parsed_json(x) matches Parsed::Value(JsonView::Object(m)) && (
        json::parsed_json(y) matches Parsed::Value(JsonView::Object(n)) && {
            &&& m.remove("actions"@) == n.remove("actions"@)
            &&& m.contains_key("actions"@) && m["actions"@] is Array
            &&& n.contains_key("actions"@) && n["actions"@] is Array
            &&& m["actions"@]->Array_0.len() == n["actions"@]->Array_0.len()
            &&& forall|i: int|
                0 <= i < m["actions"@]->Array_0.len() ==> actions_alike(
                    #[trigger] m["actions"@]->Array_0[i],
                    n["actions"@]->Array_0[i],
                )
        }),
    ensures
        a@ == b@,
{
    let m = json::parsed_json(x)->Value_0->Object_0;
    let n = json::parsed_json(y)->Value_0->Object_0;
    let s = m["actions"@]->Array_0;
    let t = n["actions"@]->Array_0;
    let f = |j: JsonView| add_rule::canonical_action(j);
    assert(s.map_values(f) =~= t.map_values(f)) by {
        assert forall|i: int| 0 <= i < s.len() implies f(s[i]) == f(t[i]) by {
            assert(actions_alike(s[i], t[i]));
            assert(add_rule::name_known(s[i]) && add_rule::name_known(t[i]));
            lemma_actions_alike(s[i], t[i]);
        }
    }
    assert(add_rule::canonical_actions(s) == add_rule::canonical_actions(t));
    lemma_keys_differ();
    lemma_scalars(m);
    lemma_scalars(n);
    let sm = add_rule::canonical_scalars(m);
    let sn = add_rule::canonical_scalars(n);
    assert(m.insert("actions"@, n["actions"@]) =~= n) by {
        assert(m.remove("actions"@).insert("actions"@, n["actions"@]) =~= n);
    }
    assert(sn =~= sm.insert("actions"@, n["actions"@])) by {
        assert forall|k: Seq<char>| sn.contains_key(k) == sm.insert(
            "actions"@,
            n["actions"@],
        ).contains_key(k) by {}
        assert forall|k: Seq<char>| sn.contains_key(k) implies #[trigger] sn[k] == sm.insert(
            "actions"@,
            n["actions"@],
        )[k] by {
            assert(sm.contains_key(k));
            assert(k != "actions"@ ==> sm[k] == sn[k]);
        }
    }
    assert(sm.contains_key("actions"@) && sm["actions"@] == m["actions"@]);
    assert(add_rule::canonical_members(m) =~= add_rule::canonical_members(n));
}

/// Whether a text is missing or not empty.
pub open spec fn unblank(t: Option<Seq<char>>) -> bool {
    t matches Some(s) ==> s.len() > 0
}

/// Whether a rule has what its `AddRuleInput` form must hold: its id is a number in plain
/// notation, its texts are not empty and its ports not 0, its actions are an array of
/// objects and its schedule is JSON and not null.
pub open spec fn well_filled(r: RuleView) -> bool {
    &&& exists|n: nat| n <= u64::MAX && r.id == #[trigger] text::decimal(n)
    &&& r.interface_name.len() > 0
    &&& r.protocol.len() > 0
    &&& unblank(r.src_cidr) && unblank(r.dst_cidr) && unblank(r.sni_pattern)
    &&& unblank(r.quic_version) && unblank(r.src_mac) && unblank(r.dst_mac)
    &&& r.src_port != Some(0u32) && r.dst_port != Some(0u32)
    &&& json::json_of_text(r.actions_json) matches Parsed::Value(JsonView::Array(s))
        && add_rule::all_objects(s)
    &&& r.schedule_json matches Some(t) ==> (json::json_of_text(t) matches Parsed::Value(v) && !(
    v is Null))
}

/// Whether a text comes back from upper case.
pub open spec fn text_returns(s: Seq<char>) -> bool {
    text::uppercase(s).len() > 0 && text::lowercase(text::uppercase(s)) == s
}

/// Whether the direction of a rule and the names of its actions come back from upper case.
pub open spec fn names_return(r: RuleView) -> bool {
    &&& text_returns(r.direction)
    &&& json::json_of_text(r.actions_json) matches Parsed::Value(JsonView::Array(s))
        ==> forall|i: int|
        0 <= i < s.len() ==> add_rule::lower_action(add_rule::upper_action(#[trigger] s[i])) == s[i]
}

/// Whether a text is ASCII without upper-case letters.
pub open spec fn small_letters(s: Seq<char>) -> bool {
    text::ascii(s) && forall|i: int| 0 <= i < s.len() ==> !('A' <= #[trigger] s[i] <= 'Z')
}

/// Whether the name of an action is in small letters, or otherwise comes back from upper
/// case.
pub open spec fn small_name(a: JsonView) -> bool {
    a matches JsonView::Object(m) ==> (m.contains_key("action"@) ==> (
    m["action"@] matches JsonView::Str(s) ==> small_letters(s) || text::lowercase(
        text::uppercase(s),
    ) == s))
}

/// Whether each of the direction of a rule and the names of its actions is in small letters,
/// as the rules on record have them, or otherwise comes back from upper case.
pub open spec fn small_names(r: RuleView) -> bool {
    &&& (r.direction.len() > 0 && small_letters(r.direction)) || text_returns(r.direction)
    &&& json::json_of_text(r.actions_json) matches Parsed::Value(JsonView::Array(s))
        ==> forall|i: int| 0 <= i < s.len() ==> small_name(#[trigger] s[i])
}

/// Text in small letters comes back from upper case.
proof fn lemma_small_returns(s: Seq<char>)
    requires
        small_letters(s),
        add_rule::upper_known(s),
    ensures
        text::uppercase(s).len() == s.len(),
        add_rule::lower_known(text::uppercase(s)) ==> text::lowercase(text::uppercase(s)) == s,
{
    let u = text::uppercase(s);
    assert forall|i: int| 0 <= i < u.len() implies (#[trigger] u[i] as u32) < 128
        && text::ascii_lower(u[i]) == s[i] by {
        assert(u[i] == text::ascii_upper(s[i]));
        assert((s[i] as u32) < 128);
        assert(!('A' <= s[i] <= 'Z'));
    }
    assert(u.map_values(|c: char| text::ascii_lower(c)) =~= s);
}

/// An action with a name in small letters comes back from upper case.
proof fn lemma_small_action_returns(a: JsonView)
    requires
        small_name(a),
        add_rule::name_known(a),
        add_rule::lower_name_known(add_rule::upper_action(a)),
    ensures
        add_rule::lower_action(add_rule::upper_action(a)) == a,
{
    if let JsonView::Object(m) = a {
        let key = "action"@;
        if m.contains_key(key) {
            if let JsonView::Str(s) = m[key] {
                if small_letters(s) {
                    lemma_small_returns(s);
                }
                let u = m.insert(key, JsonView::Str(text::uppercase(s)));
                assert(add_rule::upper_action(a) == JsonView::Object(u));
                assert(u[key] == JsonView::Str(text::uppercase(s)));
                assert(u.insert(key, JsonView::Str(s)) =~= m);
            }
        }
    }
}

/// The keys of the `AddRuleInput` object differ from one another.
pub proof fn lemma_input_keys()
    ensures
        forall|i: int, j: int|
            0 <= i < j < input_keys().len() ==> #[trigger] input_keys()[i]
                != #[trigger] input_keys()[j],
{
    reveal_strlit("id");
    reveal_strlit("interface");
    reveal_strlit("direction");
    reveal_strlit("src");
    reveal_strlit("dst");
    reveal_strlit("sport");
    reveal_strlit("dport");
    reveal_strlit("protocol");
    reveal_strlit("sni");
    reveal_strlit("quicVersion");
    reveal_strlit("srcMac");
    reveal_strlit("dstMac");
    reveal_strlit("actions");
    reveal_strlit("expiresAfterSecs");
    reveal_strlit("schedule");
    assert("id"@.len() == 2 && "actions"@.len() == 7);
    assert("interface"@.len() == 9 && "direction"@.len() == 9);
    assert("sport"@.len() == 5 && "dport"@.len() == 5);
    assert("src"@.len() == 3 && "dst"@.len() == 3 && "sni"@.len() == 3);
    assert("srcMac"@.len() == 6 && "dstMac"@.len() == 6 && "quicVersion"@.len() == 11);
    assert("protocol"@.len() == 8 && "schedule"@.len() == 8 && "expiresAfterSecs"@.len() == 16);
    assert("interface"@[0] != "direction"@[0]);
    assert("src"@[0] != "dst"@[0]);
    assert("src"@[1] != "sni"@[1]);
    assert("dst"@[0] != "sni"@[0]);
    assert("sport"@[0] != "dport"@[0]);
    assert("srcMac"@[0] != "dstMac"@[0]);
    assert("protocol"@[0] != "schedule"@[0]);
}

/// The keys of the `AddRuleInput` object.
pub open spec fn input_keys() -> Seq<Seq<char>> {
    seq![
        "id"@,
        "interface"@,
        "direction"@,
        "src"@,
        "dst"@,
        "sport"@,
        "dport"@,
        "protocol"@,
        "sni"@,
        "quicVersion"@,
        "srcMac"@,
        "dstMac"@,
        "actions"@,
        "expiresAfterSecs"@,
        "schedule"@,
    ]
}

/// The members of the `AddRuleInput` form of a rule, and that it can be read as a rule.
proof fn lemma_members(r: RuleView)
    requires
        well_filled(r),
        text::uppercase(r.direction).len() > 0,
    ensures
        ({
            let m = add_rule::add_rule_members(r);
            let s = json::json_of_text(r.actions_json)->Value_0->Array_0;
            let upper = s.map_values(|a: JsonView| add_rule::upper_action(a));
            &&& m.contains_key("actions"@) && m["actions"@] == JsonView::Array(upper)
            &&& add_rule::all_objects(upper)
            &&& add_rule::number_at(m, "id"@) is Some
            &&& text::decimal(add_rule::number_at(m, "id"@)->0) == r.id
            &&& add_rule::text_at(m, "interface"@) == Some(r.interface_name)
            &&& add_rule::text_at(m, "direction"@) == Some(text::uppercase(r.direction))
            &&& add_rule::text_at(m, "src"@) == r.src_cidr
            &&& add_rule::text_at(m, "dst"@) == r.dst_cidr
            &&& add_rule::text_at(m, "sni"@) == r.sni_pattern
            &&& add_rule::text_at(m, "quicVersion"@) == r.quic_version
            &&& add_rule::text_at(m, "srcMac"@) == r.src_mac
            &&& add_rule::text_at(m, "dstMac"@) == r.dst_mac
            &&& add_rule::text_at(m, "protocol"@) == Some(r.protocol)
            &&& add_rule::port_at(m, "sport"@) == r.src_port
            &&& add_rule::port_at(m, "dport"@) == r.dst_port
            &&& add_rule::fitting(add_rule::number_at(m, "expiresAfterSecs"@))
                == r.expires_after_secs
            &&& match r.schedule_json {
                Some(t) => m.contains_key("schedule"@) && m["schedule"@] == model::json_or_null(t),
                None => !m.contains_key("schedule"@),
            }
        }),
{
    lemma_input_keys();
    let ks = input_keys();
    assert(ks[0] == "id"@ && ks[1] == "interface"@ && ks[2] == "direction"@ && ks[3] == "src"@
        && ks[4] == "dst"@ && ks[5] == "sport"@ && ks[6] == "dport"@ && ks[7] == "protocol"@
        && ks[8] == "sni"@ && ks[9] == "quicVersion"@ && ks[10] == "srcMac"@ && ks[11]
        == "dstMac"@ && ks[12] == "actions"@ && ks[13] == "expiresAfterSecs"@ && ks[14]
        == "schedule"@);
    let n = choose|n: nat| n <= u64::MAX && r.id == #[trigger] text::decimal(n);
    text::decimal_round_trip(n);
    let m = add_rule::add_rule_members(r);
    let s = json::json_of_text(r.actions_json)->Value_0->Array_0;
    let upper = s.map_values(|a: JsonView| add_rule::upper_action(a));
    assert(add_rule::number_at(m, "id"@) == Some(n));
    assert(add_rule::text_at(m, "interface"@) == Some(r.interface_name));
    assert(add_rule::text_at(m, "direction"@) == Some(text::uppercase(r.direction)));
    assert(m["actions"@] == JsonView::Array(upper));
    assert(add_rule::all_objects(upper)) by {
        assert forall|i: int| 0 <= i < upper.len() implies #[trigger] upper[i] is Object by {
            assert(s[i] is Object);
        }
    }
    assert(add_rule::text_at(m, "src"@) == r.src_cidr);
    assert(add_rule::text_at(m, "dst"@) == r.dst_cidr);
    assert(add_rule::text_at(m, "sni"@) == r.sni_pattern);
    assert(add_rule::text_at(m, "quicVersion"@) == r.quic_version);
    assert(add_rule::text_at(m, "srcMac"@) == r.src_mac);
    assert(add_rule::text_at(m, "dstMac"@) == r.dst_mac);
    assert(add_rule::text_at(m, "protocol"@) == Some(r.protocol));
    assert(add_rule::port_at(m, "sport"@) == r.src_port);
    assert(add_rule::port_at(m, "dport"@) == r.dst_port);
    assert(add_rule::fitting(add_rule::number_at(m, "expiresAfterSecs"@)) == r.expires_after_secs);
}

/// A rule that is sent to an agent and read back is the same rule; its actions and its
/// schedule are printed anew, and who created it is not sent along.
pub proof fn rule_returns_from_json(r: RuleView)
    requires
        well_filled(r),
        names_return(r),
    ensures
        add_rule::read_rule(
            Parsed::Value(add_rule::add_rule_json(r)),
            r.node_id,
            r.tenant_id,
            r.created_at,
        ) == RuleReading::Rule(
            RuleView {
                actions_json: json::printed_json(model::json_or_null(r.actions_json)),
                schedule_json: match r.schedule_json {
                    Some(t) => Some(json::printed_json(model::json_or_null(t))),
                    None => None,
                },
                created_by: None,
                ..r
            },
        ),
        add_rule::add_rule_members(r)["actions"@]->Array_0.map_values(
            |a: JsonView| add_rule::lower_action(a),
        ) == model::json_or_null(r.actions_json)->Array_0,
        r.schedule_json matches Some(t) ==> add_rule::add_rule_members(r)["schedule"@]
            == model::json_or_null(t),
{
    lemma_members(r);
    let s = json::json_of_text(r.actions_json)->Value_0->Array_0;
    let upper = s.map_values(|a: JsonView| add_rule::upper_action(a));
    assert(upper.map_values(|a: JsonView| add_rule::lower_action(a)) =~= s);
}

/// Members that can be read again still can with one more.
proof fn lemma_one_more(m: Map<Seq<char>, JsonView>, key: Seq<char>, v: JsonView, depth: nat)
    requires
        depth > 0,
        json::re_readable(JsonView::Object(m), depth),
        json::re_readable(v, (depth - 1) as nat),
    ensures
        json::re_readable(JsonView::Object(m.insert(key, v)), depth),
{
    let after = m.insert(key, v);
    let j = JsonView::Object(m);
    assert(json::re_readable(j, depth) && j->Object_0 == m);
    assert forall|k: Seq<char>| after.contains_key(k) implies json::re_readable(
        #[trigger] after[k],
        (depth - 1) as nat,
    ) by {
        if k != key {
            assert(m.contains_key(k) && after[k] == m[k]);
            assert(json::re_readable(j->Object_0[k], (depth - 1) as nat));
        }
    }
}

/// Members that can be read again still can with one more text.
proof fn lemma_one_more_text(
    m: Map<Seq<char>, JsonView>,
    key: Seq<char>,
    t: Option<Seq<char>>,
    depth: nat,
)
    requires
        depth > 0,
        json::re_readable(JsonView::Object(m), depth),
    ensures
        json::re_readable(JsonView::Object(add_rule::with_text(m, key, t)), depth),
{
    if let Some(s) = t {
        lemma_one_more(m, key, JsonView::Str(s), depth);
    }
}

/// Whether the JSON texts of a rule can be sent inside an object: they nest less deep than
/// the reader allows by one, and their fractions are read back from their notations.
pub open spec fn fits_in_object(r: RuleView) -> bool {
    &&& json::re_readable(model::json_or_null(r.actions_json), (json::MAX_DEPTH - 1) as nat)
    &&& r.schedule_json matches Some(t) ==> json::re_readable(
        model::json_or_null(t),
        (json::MAX_DEPTH - 1) as nat,
    )
}

/// The `AddRuleInput` form of a rule can be read again.
proof fn lemma_input_readable(r: RuleView)
    requires
        well_filled(r),
        fits_in_object(r),
    ensures
        json::re_readable(add_rule::add_rule_json(r), json::MAX_DEPTH as nat),
{
    let d = json::MAX_DEPTH as nat;
    let n = choose|n: nat| n <= u64::MAX && r.id == #[trigger] text::decimal(n);
    text::decimal_round_trip(n);
    let none = Map::<Seq<char>, JsonView>::empty();
    let m = none.insert("id"@, add_rule::number(n));
    lemma_one_more(none, "id"@, add_rule::number(n), d);
    let face = JsonView::Str(r.interface_name);
    lemma_one_more(m, "interface"@, face, d);
    let m = m.insert("interface"@, face);
    let way = JsonView::Str(text::uppercase(r.direction));
    lemma_one_more(m, "direction"@, way, d);
    let m = m.insert("direction"@, way);
    lemma_one_more_text(m, "src"@, r.src_cidr, d);
    let m = add_rule::with_text(m, "src"@, r.src_cidr);
    lemma_one_more_text(m, "dst"@, r.dst_cidr, d);
    let m = add_rule::with_text(m, "dst"@, r.dst_cidr);
    assert(m == add_rule::add_rule_head(r));
    lemma_one_more(m, "sport"@, add_rule::port_number(r.src_port), d);
    let m = m.insert("sport"@, add_rule::port_number(r.src_port));
    lemma_one_more(m, "dport"@, add_rule::port_number(r.dst_port), d);
    let m = m.insert("dport"@, add_rule::port_number(r.dst_port));
    lemma_one_more(m, "protocol"@, JsonView::Str(r.protocol), d);
    let m = m.insert("protocol"@, JsonView::Str(r.protocol));
    lemma_one_more_text(m, "sni"@, r.sni_pattern, d);
    let m = add_rule::with_text(m, "sni"@, r.sni_pattern);
    lemma_one_more_text(m, "quicVersion"@, r.quic_version, d);
    let m = add_rule::with_text(m, "quicVersion"@, r.quic_version);
    lemma_one_more_text(m, "srcMac"@, r.src_mac, d);
    let m = add_rule::with_text(m, "srcMac"@, r.src_mac);
    lemma_one_more_text(m, "dstMac"@, r.dst_mac, d);
    let m = add_rule::with_text(m, "dstMac"@, r.dst_mac);
    assert(m == add_rule::add_rule_match(r));
    let s = json::json_of_text(r.actions_json)->Value_0->Array_0;
    let upper = s.map_values(|a: JsonView| add_rule::upper_action(a));
    assert(json::re_readable(JsonView::Array(upper), (d - 1) as nat)) by {
        assert(json::re_readable(JsonView::Array(s), (d - 1) as nat));
        assert forall|i: int| 0 <= i < upper.len() implies json::re_readable(
            #[trigger] upper[i],
            (d - 2) as nat,
        ) by {
            assert(json::re_readable(s[i], (d - 2) as nat));
            lemma_action_readable(s[i], (d - 2) as nat);
        }
    }
    lemma_one_more(m, "actions"@, JsonView::Array(upper), d);
    let m = m.insert("actions"@, JsonView::Array(upper));
    assert(m == add_rule::add_rule_acts(r));
    if let Some(ttl) = r.expires_after_secs {
        lemma_one_more(m, "expiresAfterSecs"@, add_rule::number(ttl as nat), d);
    }
    let m = match r.expires_after_secs {
        Some(ttl) => m.insert("expiresAfterSecs"@, add_rule::number(ttl as nat)),
        None => m,
    };
    if let Some(t) = r.schedule_json {
        lemma_one_more(m, "schedule"@, model::json_or_null(t), d);
    }
}

/// A rule that was built into its `AddRuleInput` form comes back from it: every field is
/// what it was but who created it, and the actions and the schedule are the same JSON. Each
/// of its direction and the names of its actions is in small letters, or otherwise comes
/// back from upper case.
pub proof fn rule_comes_back(r: RuleView, s: Seq<char>, read: Result<Rule, RuleFromJsonError>)
    requires
        well_filled(r),
        fits_in_object(r),
        small_names(r),
        add_rule::builds(r, s),
        add_rule::reads_as_rule(
            vstd::utf8::encode_utf8(s),
            r.node_id,
            r.tenant_id,
            r.created_at,
            read,
        ),
    ensures
        read matches Ok(p) && {
            &&& p@ == (RuleView {
                actions_json: p@.actions_json,
                schedule_json: p@.schedule_json,
                created_by: None,
                ..r
            })
            &&& json::json_of_text(p@.actions_json) == json::json_of_text(r.actions_json)
            &&& match (r.schedule_json, p@.schedule_json) {
                (Some(t), Some(u)) => json::json_of_text(u) == json::json_of_text(t),
                (None, None) => true,
                _ => false,
            }
        },
{
    let depth = json::MAX_DEPTH as nat;
    let d = (depth - 1) as nat;
    let acts = model::json_or_null(r.actions_json);
    let m = add_rule::add_rule_members(r);
    if small_letters(r.direction) {
        lemma_small_returns(r.direction);
    }
    lemma_members(r);
    lemma_input_readable(r);
    let p = read->Ok_0;
    assert(read is Ok);
    let list = acts->Array_0;
    let upper = m["actions"@]->Array_0;
    assert forall|i: int| 0 <= i < list.len() implies add_rule::lower_action(
        add_rule::upper_action(#[trigger] list[i]),
    ) == list[i] by {
        assert(upper[i] == add_rule::upper_action(list[i]));
        assert(add_rule::lower_name_known(upper[i]));
        assert(small_name(list[i]));
        assert(add_rule::name_known(list[i]));
        lemma_small_action_returns(list[i]);
    }
    rule_returns_from_json(r);
    lemma_deeper(acts, d);
    if let Some(t) = r.schedule_json {
        lemma_deeper(model::json_or_null(t), d);
    }
    assert(add_rule::reads_back(p.actions_json@, acts));
    if r.schedule_json is Some {
        assert(p@.schedule_json is Some);
        assert(p.schedule_json is Some);
    }
}

/// Default actions leave the rules alone.
proof fn lemma_defaults_keep_rules(
    m: StoreModel,
    node_id: Seq<char>,
    entries: Seq<(String, String)>,
)
    ensures
        local_change::defaults_set(m, node_id, entries).rules == m.rules,
    decreases entries.len(),
{
    if entries.len() > 0 {
        lemma_defaults_keep_rules(m, node_id, entries.drop_last());
    }
}

/// The rules that reported rules become have their numbers for ids.
proof fn lemma_local_ids(
    m: StoreModel,
    node_id: Seq<char>,
    tenant_id: Seq<char>,
    reported: Seq<PersistedRule>,
    now: Timestamp,
)
    ensures
        ({
            let rules = local_change::local_rules(m, node_id, tenant_id, reported, now);
            &&& forall|j: int|
                0 <= j < rules.len() ==> (#[trigger] rules[j]).node_id == node_id && exists|i: int|
                    0 <= i < reported.len() && rules[j].id == text::decimal(
                        (#[trigger] reported[i]).id as nat,
                    )
            &&& forall|i: int|
                0 <= i < reported.len() && local_change::local_rule(
                    m,
                    node_id,
                    tenant_id,
                    #[trigger] reported[i],
                    now,
                ) is Some ==> model::has_rule_id(rules, text::decimal(reported[i].id as nat))
        }),
    decreases reported.len(),
{
    if reported.len() > 0 {
        let front = reported.drop_last();
        let earlier = local_change::local_rules(m, node_id, tenant_id, front, now);
        let rules = local_change::local_rules(m, node_id, tenant_id, reported, now);
        lemma_local_ids(m, node_id, tenant_id, front, now);
        assert forall|j: int| 0 <= j < rules.len() implies (#[trigger] rules[j]).node_id == node_id
            && exists|i: int|
            0 <= i < reported.len() && rules[j].id == text::decimal(
                (#[trigger] reported[i]).id as nat,
            ) by {
            if j < earlier.len() {
                assert(rules[j] == earlier[j]);
                let i = choose|i: int|
                    0 <= i < front.len() && earlier[j].id == text::decimal(
                        (#[trigger] front[i]).id as nat,
                    );
                assert(reported[i] == front[i]);
            } else {
                assert(reported[reported.len() - 1] == reported.last());
            }
        }
        assert forall|i: int|
            0 <= i < reported.len() && local_change::local_rule(
                m,
                node_id,
                tenant_id,
                #[trigger] reported[i],
                now,
            ) is Some implies model::has_rule_id(rules, text::decimal(reported[i].id as nat)) by {
            let id = text::decimal(reported[i].id as nat);
            if i < front.len() {
                assert(front[i] == reported[i]);
                let j = choose|j: int| 0 <= j < earlier.len() && (#[trigger] earlier[j]).id == id;
                assert(rules[j] == earlier[j]);
            } else {
                assert(rules[rules.len() - 1].id == id);
            }
        }
    }
}

/// Once the state that an agent reports is taken over, the rules on record and those of
/// the agent agree: there is nothing to add and nothing to delete. Its stop behavior, if
/// it reports one, is on record too.
pub proof fn taken_over_state_needs_no_delta(
    m: StoreModel,
    node_id: Seq<char>,
    snapshot: StateSnapshot,
    now: Timestamp,
    listed: Seq<RuleView>,
    surplus: Seq<Seq<char>>,
)
    requires
        m.nodes.contains_key(node_id),
        forall|k: Seq<char>| #[trigger] m.rules.contains_key(k) ==> m.rules[k].id == k,
        // Every reported rule can be read.
        forall|i: int|
            0 <= i < snapshot.rules@.len() ==> local_change::local_rule(
                m,
                node_id,
                m.nodes[node_id].tenant_id,
                #[trigger] snapshot.rules@[i],
                now,
            ) is Some,
        model::lists(
            listed,
            local_change::taken_over(m, node_id, snapshot, now).rules,
            |r: RuleView| r.node_id == node_id,
        ),
        super::are_surplus(surplus, listed, snapshot.rules@),
    ensures
        super::delta_adds(listed, snapshot.rules@).len() == 0,
        surplus.len() == 0,
        snapshot.stop_behavior@.len() > 0 ==> local_change::taken_over(
            m,
            node_id,
            snapshot,
            now,
        ).nodes[node_id].stop_behavior == Some(snapshot.stop_behavior@),
{
    let reported = snapshot.rules@;
    let tenant = m.nodes[node_id].tenant_id;
    let rules = local_change::local_rules(m, node_id, tenant, reported, now);
    let after = local_change::taken_over(m, node_id, snapshot, now);
    let p = model::replacement(m.rules, node_id, rules);
    let a = StoreModel { rules: p.rules, ..m };
    let entries = snapshot.per_interface_default_actions.entries();
    lemma_defaults_keep_rules(a, node_id, entries);
    local_change::lemma_settable_stays(a, node_id, entries);
    assert(after.rules == p.rules);
    lemma_local_ids(m, node_id, tenant, reported, now);
    store::laws::replacement_is_exact(m.rules, node_id, rules);
    store::laws::replacement_stays_keyed(m.rules, node_id, rules);
    let stale = model::stale_rules(m.rules, node_id, rules);
    let start = Replacement {
        rules: m.rules.remove_keys(stale.dom()),
        counts: model::DiffCounts { added: 0, updated: 0, deleted: stale.dom().len(), unchanged: 0 },
    };
    store::laws::lemma_named_belong(start, rules, node_id);
    let keep = |r: RuleView| r.node_id == node_id;
    let ks: Seq<Seq<char>> = choose|ks: Seq<Seq<char>>|
        model::lists_keys(listed, p.rules, keep, ks);
    assert forall|i: int| 0 <= i < listed.len() implies !super::lacks(
        reported,
        #[trigger] listed[i],
    ) by {
        let k = ks[i];
        assert(p.rules.contains_key(k) && p.rules[k] == listed[i] && keep(listed[i]));
        assert(model::has_rule_id(rules, k)) by {
            if !model::has_rule_id(rules, k) {
                assert(p.rules[k] == m.rules[k]);
            }
        }
        let j = choose|j: int| 0 <= j < rules.len() && (#[trigger] rules[j]).id == k;
        let n = choose|n: int|
            0 <= n < reported.len() && rules[j].id == text::decimal(
                (#[trigger] reported[n]).id as nat,
            );
        text::decimal_round_trip(reported[n].id as nat);
        assert(super::rule_number(listed[i]) == Some(reported[n].id as nat));
        assert(super::reports(reported, reported[n].id as nat));
    }
    assert forall|n: int| 0 <= n < reported.len() implies super::desires(
        listed,
        (#[trigger] reported[n]).id as nat,
    ) by {
        let k = text::decimal(reported[n].id as nat);
        assert(local_change::local_rule(m, node_id, tenant, reported[n], now) is Some);
        assert(model::has_rule_id(rules, k));
        assert(p.rules.contains_key(k));
        assert(keep(p.rules[k]));
        assert(ks.contains(k));
        let i = choose|i: int| 0 <= i < ks.len() && ks[i] == k;
        assert(listed[i] == p.rules[k]);
        text::decimal_round_trip(reported[n].id as nat);
        assert(super::rule_number(listed[i]) == Some(reported[n].id as nat));
    }
    super::in_sync_needs_no_delta(listed, reported, surplus);
}

/// What a rule in `AddRuleInput` form says under a key, if it says anything: an address, a
/// pattern, a version or a hardware address that is nothing or empty says nothing, and a
/// port that is not there or nothing is port 0.
pub open spec fn said(m: Map<Seq<char>, JsonView>, k: Seq<char>) -> Option<JsonView> {
    if k == "sport"@ || k == "dport"@ {
        if m.contains_key(k) && !(m[k] is Null) {
            Some(m[k])
        } else {
            Some(JsonView::Number(NumberView::Unsigned(0)))
        }
    } else if !m.contains_key(k) {
        None
    } else if (k == "src"@ || k == "dst"@ || k == "sni"@ || k == "quicVersion"@ || k == "srcMac"@
        || k == "dstMac"@) && (m[k] is Null || m[k] == JsonView::Str(Seq::empty())) {
        None
    } else {
        Some(m[k])
    }
}

/// Two rules with one canonical form say the same under every key but that of their id: no
/// difference in an address, a port, the protocol, a time to live or anything else goes
/// unnoticed. Their directions are one in upper case.
pub proof fn canonical_shows_differences(
    a: Map<Seq<char>, JsonView>,
    b: Map<Seq<char>, JsonView>,
    k: Seq<char>,
)
    requires
        add_rule::canonical(JsonView::Object(a)) == add_rule::canonical(JsonView::Object(b)),
        k != "id"@,
        k != "actions"@,
    ensures
        k != "direction"@ ==> said(a, k) == said(b, k),
        a.contains_key("direction"@) <==> b.contains_key("direction"@),
        a.contains_key("direction"@) && a["direction"@] is Str && b["direction"@] is Str
            ==> text::uppercase(a["direction"@]->Str_0) == text::uppercase(
            b["direction"@]->Str_0,
        ),
{
    lemma_keys_differ();
    lemma_scalars(a);
    lemma_scalars(b);
    let ca = add_rule::canonical_members(a);
    let cb = add_rule::canonical_members(b);
    let sa = add_rule::canonical_scalars(a);
    let sb = add_rule::canonical_scalars(b);
    assert(ca == cb);
    assert(ca.contains_key(k) == sa.contains_key(k) && (sa.contains_key(k) ==> ca[k] == sa[k]));
    assert(cb.contains_key(k) == sb.contains_key(k) && (sb.contains_key(k) ==> cb[k] == sb[k]));
    assert(ca.contains_key("direction"@) == sa.contains_key("direction"@));
    assert(cb.contains_key("direction"@) == sb.contains_key("direction"@));
    assert(sa.contains_key("direction"@) ==> ca["direction"@] == sa["direction"@]);
    assert(sb.contains_key("direction"@) ==> cb["direction"@] == sb["direction"@]);
    lemma_empty_text(a, k);
    lemma_empty_text(b, k);
}

/// An empty text is the empty text.
proof fn lemma_empty_text(m: Map<Seq<char>, JsonView>, k: Seq<char>)
    ensures
        blank(m[k]) <==> m[k] is Null || m[k] == JsonView::Str(Seq::empty()),
{
    if m[k] is Str && m[k]->Str_0.len() == 0 {
        assert(m[k]->Str_0 =~= Seq::<char>::empty());
    }
}

/// The canonical form of a rule lists its actions, none lost and none invented, by priority;
/// each has its name in upper case, its priority, which is 0 where none was given, and
/// whatever else it had.
pub proof fn canonical_lists_the_actions(m: Map<Seq<char>, JsonView>, s: Seq<JsonView>)
    requires
        m.contains_key("actions"@),
        m["actions"@] == JsonView::Array(s),
    ensures
        add_rule::canonical(JsonView::Object(m)) matches JsonView::Object(c) && {
            &&& c.contains_key("actions"@)
            &&& c["actions"@] matches JsonView::Array(listed) && {
                &&& listed.len() == s.len()
                &&& listed.to_multiset() == s.map_values(
                    |a: JsonView| add_rule::canonical_action(a),
                ).to_multiset()
                &&& forall|i: int, j: int|
                    0 <= i < j < listed.len() ==> add_rule::priority_of(#[trigger] listed[i])
                        <= add_rule::priority_of(#[trigger] listed[j])
            }
        },
        forall|i: int|
            0 <= i < s.len() && (#[trigger] s[i]) is Object ==> is_canonical_action(
                s[i]->Object_0,
                add_rule::canonical_action(s[i]),
            ),
{
    lemma_keys_differ();
    lemma_scalars(m);
    lemma_actions_rank();
    reveal_strlit("action");
    reveal_strlit("priority");
    assert("action"@.len() != "priority"@.len());
    let f = |a: JsonView| add_rule::canonical_action(a);
    let le = |a: JsonView, b: JsonView| add_rule::action_before(a, b);
    order::arranged_sorts(s.map_values(f), le);
    let listed = add_rule::canonical_actions(s);
    assert(order::stands(listed, le));
    assert forall|i: int, j: int| 0 <= i < j < listed.len() implies add_rule::priority_of(
        #[trigger] listed[i],
    ) <= add_rule::priority_of(#[trigger] listed[j]) by {
        assert(le(listed[i], listed[j]));
    }
}

/// Whether an action is another in canonical form.
pub open spec fn is_canonical_action(m: Map<Seq<char>, JsonView>, a: JsonView) -> bool {
    a matches JsonView::Object(c) && {
        &&& c.contains_key("action"@) <==> m.contains_key("action"@)
        &&& m.contains_key("action"@) && m["action"@] is Str ==> c["action"@] == JsonView::Str(
            text::uppercase(m["action"@]->Str_0),
        )
        &&& c.contains_key("priority"@)
        &&& c["priority"@] == (if m.contains_key("priority"@) {
            m["priority"@]
        } else {
            JsonView::Number(NumberView::Unsigned(0))
        })
        &&& forall|k: Seq<char>|
            k != "action"@ && k != "priority"@ ==> (#[trigger] c.contains_key(k)
                <==> m.contains_key(k)) && c[k] == m[k]
    }
}

/// An action is sorted by the whole number that it has as its priority, and by 0 where it
/// has none.
pub proof fn priority_is_the_number(m: Map<Seq<char>, JsonView>, n: int)
    requires
        m.contains_key("priority"@),
        i64::MIN <= n <= i64::MAX,
    ensures
        n >= 0 && m["priority"@] == JsonView::Number(NumberView::Unsigned(n as nat))
            ==> add_rule::priority_of(JsonView::Object(m)) == n,
        n < 0 && m["priority"@] == JsonView::Number(NumberView::Negative(n))
            ==> add_rule::priority_of(JsonView::Object(m)) == n,
        m["priority"@] is Null || m["priority"@] is Str ==> add_rule::priority_of(
            JsonView::Object(m),
        ) == 0,
        add_rule::priority_of(JsonView::Object(m.remove("priority"@))) == 0,
{
}

} // verus!
