//! What the `AddRuleInput` form of a rule shows of it, member by member, and what of a
//! payload a rule takes.

use super::add_rule::{self, RuleFromJsonError};
use super::laws;
use crate::json::{self, JsonView, NumberView, Parsed};
use crate::store::Rule;
use crate::text;
use crate::timestamp::Timestamp;
use vstd::prelude::*;

verus! {

/// Whether an object has a text under a key, and just where there is one to show.
pub open spec fn shows(m: Map<Seq<char>, JsonView>, key: Seq<char>, t: Option<String>) -> bool {
    match t {
        Some(s) => m.contains_key(key) && m[key] == JsonView::Str(s@),
        None => !m.contains_key(key),
    }
}

/// Whether an object has a number under a key.
pub open spec fn counts(m: Map<Seq<char>, JsonView>, key: Seq<char>, n: nat) -> bool {
    m.contains_key(key) && m[key] == JsonView::Number(NumberView::Unsigned(n))
}

/// Whether one object is another but for the letters of its name: in upper case where the
/// name is ASCII text.
pub open spec fn named_in_capitals(a: JsonView, b: JsonView) -> bool {
    &&& a is Object ==> b is Object && a->Object_0.dom() == b->Object_0.dom()
    &&& a is Object ==> forall|k: Seq<char>|
        a->Object_0.contains_key(k) && k != "action"@ ==> #[trigger] b->Object_0[k]
            == a->Object_0[k]
    &&& a is Object && a->Object_0.contains_key("action"@) ==> match a->Object_0["action"@] {
        JsonView::Str(s) => text::ascii(s) ==> b->Object_0["action"@] == JsonView::Str(
            s.map_values(|c: char| text::ascii_upper(c)),
        ),
        other => b->Object_0["action"@] == other,
    }
    &&& !(a is Object) ==> b == a
}

/// What is built for a rule shows each of its fields under the key of that field, and
/// nothing else: the source under `src`, the destination under `dst`, and so on.
pub proof fn form_shows_the_rule(rule: Rule, s: Seq<char>, m: Map<Seq<char>, JsonView>)
    requires
        add_rule::builds(rule@, s),
        add_rule::add_rule_json(rule@) == JsonView::Object(m),
    ensures
        s == json::printed_json(JsonView::Object(m)),
        shows(m, "src"@, rule.src_cidr),
        shows(m, "dst"@, rule.dst_cidr),
        shows(m, "sni"@, rule.sni_pattern),
        shows(m, "quicVersion"@, rule.quic_version),
        shows(m, "srcMac"@, rule.src_mac),
        shows(m, "dstMac"@, rule.dst_mac),
        m.contains_key("interface"@) && m["interface"@] == JsonView::Str(rule.interface_name@),
        m.contains_key("protocol"@) && m["protocol"@] == JsonView::Str(rule.protocol@),
        m.contains_key("direction"@) && m["direction"@] is Str,
        text::ascii(rule.direction@) ==> m["direction"@] == JsonView::Str(
            rule.direction@.map_values(|c: char| text::ascii_upper(c)),
        ),
        rule.direction@ == "ingress"@ ==> m["direction"@] == JsonView::Str("INGRESS"@),
        rule.direction@ == "egress"@ ==> m["direction"@] == JsonView::Str("EGRESS"@),
        counts(
            m,
            "sport"@,
            match rule.src_port {
                Some(p) => p as nat,
                None => 0,
            },
        ),
        counts(
            m,
            "dport"@,
            match rule.dst_port {
                Some(p) => p as nat,
                None => 0,
            },
        ),
        match rule.expires_after_secs {
            Some(n) => counts(m, "expiresAfterSecs"@, n as nat),
            None => !m.contains_key("expiresAfterSecs"@),
        },
        forall|n: nat|
            n <= u64::MAX && rule.id@ == #[trigger] text::decimal(n) ==> counts(m, "id"@, n),
        match rule.schedule_json {
            Some(t) => match json::json_of_text(t@) {
                Parsed::Value(v) => m.contains_key("schedule"@) && m["schedule"@] == v,
                Parsed::Refused(_) => !m.contains_key("schedule"@),
            },
            None => !m.contains_key("schedule"@),
        },
        match json::json_of_text(rule.actions_json@) {
            Parsed::Value(JsonView::Array(a)) => {
                &&& m.contains_key("actions"@) && m["actions"@] is Array
                &&& m["actions"@]->Array_0.len() == a.len()
                &&& forall|i: int|
                    0 <= i < a.len() ==> named_in_capitals(
                        #[trigger] a[i],
                        m["actions"@]->Array_0[i],
                    )
            },
            _ => !m.contains_key("actions"@),
        },
        forall|k: Seq<char>| #[trigger]
            m.contains_key(k) ==> k == "id"@ || k == "interface"@ || k == "direction"@ || k
                == "src"@ || k == "dst"@ || k == "sport"@ || k == "dport"@ || k == "protocol"@ || k
                == "sni"@ || k == "quicVersion"@ || k == "srcMac"@ || k == "dstMac"@ || k
                == "actions"@ || k == "expiresAfterSecs"@ || k == "schedule"@,
{
    laws::lemma_input_keys();
    let ks = laws::input_keys();
    assert(ks[0] == "id"@ && ks[1] == "interface"@ && ks[2] == "direction"@ && ks[3] == "src"@
        && ks[4] == "dst"@ && ks[5] == "sport"@ && ks[6] == "dport"@ && ks[7] == "protocol"@
        && ks[8] == "sni"@ && ks[9] == "quicVersion"@ && ks[10] == "srcMac"@ && ks[11]
        == "dstMac"@ && ks[12] == "actions"@ && ks[13] == "expiresAfterSecs"@ && ks[14]
        == "schedule"@);
    let r = rule@;
    assert forall|n: nat| n <= u64::MAX && rule.id@ == #[trigger] text::decimal(n) implies counts(
        m,
        "id"@,
        n,
    ) by {
        text::decimal_round_trip(n);
    }
    assert(m["direction"@] == JsonView::Str(text::uppercase(rule.direction@)));
    reveal_strlit("ingress");
    reveal_strlit("egress");
    reveal_strlit("INGRESS");
    reveal_strlit("EGRESS");
    let up = |c: char| text::ascii_upper(c);
    assert("ingress"@.map_values(up) =~= "INGRESS"@);
    assert("egress"@.map_values(up) =~= "EGRESS"@);
    if let Parsed::Value(JsonView::Array(a)) = json::json_of_text(r.actions_json) {
        let b = m["actions"@]->Array_0;
        assert forall|i: int| 0 <= i < a.len() implies named_in_capitals(#[trigger] a[i], b[i]) by {
            assert(b[i] == add_rule::upper_action(a[i]));
            assert(add_rule::name_known(a[i]));
            if let JsonView::Object(x) = a[i] {
                assert(b[i]->Object_0.dom() =~= x.dom());
            }
        }
    }
}

/// Whether a text that may be missing is the one under a key; an empty text is none.
pub open spec fn takes(m: Map<Seq<char>, JsonView>, key: Seq<char>, t: Option<String>) -> bool {
    match t {
        Some(s) => m.contains_key(key) && m[key] == JsonView::Str(s@) && s@.len() > 0,
        None => !m.contains_key(key) || !(m[key] is Str) || m[key]->Str_0.len() == 0,
    }
}

/// Whether a port that may be missing is the number under a key; 0 is none, and so is what
/// is no number of 32 bits.
pub open spec fn takes_port(m: Map<Seq<char>, JsonView>, key: Seq<char>, p: Option<u32>) -> bool {
    match p {
        Some(n) => n != 0 && counts(m, key, n as nat),
        None => forall|n: nat| #[trigger] counts(m, key, n) ==> n == 0 || n > u32::MAX,
    }
}

/// Whether one object is another but for the letters of its name: in lower case where the
/// name is ASCII text.
pub open spec fn named_in_small(a: JsonView, b: JsonView) -> bool {
    &&& a is Object && b is Object
    &&& a->Object_0.dom() == b->Object_0.dom()
    &&& forall|k: Seq<char>|
        a->Object_0.contains_key(k) && k != "action"@ ==> #[trigger] b->Object_0[k]
            == a->Object_0[k]
    &&& a->Object_0.contains_key("action"@) ==> match a->Object_0["action"@] {
        JsonView::Str(s) => text::ascii(s) ==> b->Object_0["action"@] == JsonView::Str(
            s.map_values(|c: char| text::ascii_lower(c)),
        ),
        other => b->Object_0["action"@] == other,
    }
}

/// A rule that is read from an object takes each of its fields from the member of that
/// field: the source from `src`, the destination from `dst`, and so on. What the caller
/// gives it takes as it is.
pub proof fn rule_takes_the_members(
    bytes: Seq<u8>,
    m: Map<Seq<char>, JsonView>,
    node_id: Seq<char>,
    tenant_id: Seq<char>,
    created_at: Timestamp,
    rule: Rule,
)
    requires
        json::parsed_json(bytes) == Parsed::Value(JsonView::Object(m)),
        add_rule::reads_as_rule(bytes, node_id, tenant_id, created_at, Ok(rule)),
    ensures
        rule.node_id@ == node_id,
        rule.tenant_id@ == tenant_id,
        rule.created_at == created_at,
        rule.created_by is None,
        exists|n: nat| #[trigger] counts(m, "id"@, n) && rule.id@ == text::decimal(n),
        m.contains_key("interface"@) && m["interface"@] == JsonView::Str(rule.interface_name@),
        m.contains_key("direction"@) && m["direction"@] is Str,
        text::ascii(m["direction"@]->Str_0) ==> rule.direction@
            == m["direction"@]->Str_0.map_values(|c: char| text::ascii_lower(c)),
        m["direction"@] == JsonView::Str("INGRESS"@) ==> rule.direction@ == "ingress"@,
        m["direction"@] == JsonView::Str("EGRESS"@) ==> rule.direction@ == "egress"@,
        takes(m, "src"@, rule.src_cidr),
        takes(m, "dst"@, rule.dst_cidr),
        takes(m, "sni"@, rule.sni_pattern),
        takes(m, "quicVersion"@, rule.quic_version),
        takes(m, "srcMac"@, rule.src_mac),
        takes(m, "dstMac"@, rule.dst_mac),
        takes_port(m, "sport"@, rule.src_port),
        takes_port(m, "dport"@, rule.dst_port),
        takes(m, "protocol"@, Some(rule.protocol)) || (takes(m, "protocol"@, None)
            && rule.protocol@ == "any"@),
        match rule.expires_after_secs {
            Some(n) => counts(m, "expiresAfterSecs"@, n as nat),
            None => forall|n: nat| #[trigger]
                counts(m, "expiresAfterSecs"@, n) ==> n > u32::MAX,
        },
        rule.schedule_json is Some <==> m.contains_key("schedule"@) && !(m["schedule"@] is Null),
        rule.schedule_json is Some && json::re_readable(m["schedule"@], json::MAX_DEPTH as nat)
            ==> json::json_of_text(rule.schedule_json->0@) == Parsed::Value(m["schedule"@]),
        m.contains_key("actions"@) && m["actions"@] is Array,
        json::re_readable(m["actions"@], json::MAX_DEPTH as nat) ==> {
            &&& json::json_of_text(rule.actions_json@) matches Parsed::Value(JsonView::Array(b))
            &&& b.len() == m["actions"@]->Array_0.len()
            &&& forall|i: int|
                0 <= i < b.len() ==> named_in_small(
                    #[trigger] m["actions"@]->Array_0[i],
                    b[i],
                )
        },
{
    let n = add_rule::number_at(m, "id"@)->0;
    assert(counts(m, "id"@, n) && rule@.id == text::decimal(n));
    assert(rule.id@ == text::decimal(n));
    assert(rule@.direction == text::lowercase(m["direction"@]->Str_0));
    reveal_strlit("ingress");
    reveal_strlit("egress");
    reveal_strlit("INGRESS");
    reveal_strlit("EGRESS");
    let down = |c: char| text::ascii_lower(c);
    assert("INGRESS"@.map_values(down) =~= "ingress"@);
    assert("EGRESS"@.map_values(down) =~= "egress"@);
    lemma_takes(m, "src"@, rule.src_cidr);
    lemma_takes(m, "dst"@, rule.dst_cidr);
    lemma_takes(m, "sni"@, rule.sni_pattern);
    lemma_takes(m, "quicVersion"@, rule.quic_version);
    lemma_takes(m, "srcMac"@, rule.src_mac);
    lemma_takes(m, "dstMac"@, rule.dst_mac);
    assert(rule@.protocol == rule.protocol@);
    assert(rule@.schedule_json == text::opt_text(rule.schedule_json));
    let a = m["actions"@]->Array_0;
    let lower = a.map_values(|x: JsonView| add_rule::lower_action(x));
    if json::re_readable(m["actions"@], json::MAX_DEPTH as nat) {
        let d = (json::MAX_DEPTH - 1) as nat;
        assert(json::re_readable(JsonView::Array(lower), json::MAX_DEPTH as nat)) by {
            assert forall|i: int| 0 <= i < lower.len() implies json::re_readable(
                #[trigger] lower[i],
                d,
            ) by {
                assert(json::re_readable(a[i], d));
                laws::lemma_action_readable(a[i], d);
            }
        }
        assert forall|i: int| 0 <= i < lower.len() implies named_in_small(
            #[trigger] a[i],
            lower[i],
        ) by {
            assert(a[i] is Object);
            assert(add_rule::lower_name_known(a[i]));
            assert(lower[i] == add_rule::lower_action(a[i]));
            assert(lower[i]->Object_0.dom() =~= a[i]->Object_0.dom());
        }
    }
}

/// What the reader finds under a key is what stands there.
proof fn lemma_takes(m: Map<Seq<char>, JsonView>, key: Seq<char>, t: Option<String>)
    requires
        text::opt_text(t) == add_rule::text_at(m, key),
    ensures
        takes(m, key, t),
{
}

/// A payload is read as a rule just where it is an object with a number under `id`, texts
/// under `interface` and `direction`, and an array of objects under `actions`; the first of
/// these that is missing is named.
pub proof fn rule_needs_its_members(
    bytes: Seq<u8>,
    node_id: Seq<char>,
    tenant_id: Seq<char>,
    created_at: Timestamp,
    r: Result<Rule, RuleFromJsonError>,
)
    requires
        add_rule::reads_as_rule(bytes, node_id, tenant_id, created_at, r),
    ensures
        match json::parsed_json(bytes) {
            Parsed::Refused(e) => r matches Err(RuleFromJsonError::Json(t)) && t@ == e,
            Parsed::Value(JsonView::Object(m)) => {
                let number = m.contains_key("id"@) && exists|n: nat| #[trigger]
                    counts(m, "id"@, n);
                let interface = !takes(m, "interface"@, None);
                let direction = !takes(m, "direction"@, None);
                if !number {
                    r matches Err(RuleFromJsonError::MissingField(f)) && f@ == "id"@
                } else if !interface {
                    r matches Err(RuleFromJsonError::MissingField(f)) && f@ == "interface"@
                } else if !direction {
                    r matches Err(RuleFromJsonError::MissingField(f)) && f@ == "direction"@
                } else if !m.contains_key("actions"@) {
                    r matches Err(RuleFromJsonError::MissingField(f)) && f@ == "actions"@
                } else if !(m["actions"@] is Array) || exists|i: int|
                    0 <= i < m["actions"@]->Array_0.len() && !((#[trigger] m["actions"@]->Array_0[i])
                        is Object) {
                    r matches Err(RuleFromJsonError::InvalidActions)
                } else {
                    r is Ok
                }
            },
            Parsed::Value(_) => r matches Err(RuleFromJsonError::NotAnObject),
        },
{
    if let Parsed::Value(JsonView::Object(m)) = json::parsed_json(bytes) {
        if let Some(n) = add_rule::number_at(m, "id"@) {
            assert(counts(m, "id"@, n));
        }
    }
}

} // verus!
