//! JSON values as the library reads and builds them.

use crate::text;
use serde_json::Value;
use vstd::prelude::*;

verus! {

broadcast use vstd::string::group_string_axioms;

/// The type of `serde_json` numbers.
#[verifier::external_type_specification]
#[verifier::external_body]
pub struct ExNumber(serde_json::Number);

/// The notation in which `serde_json` prints a number.
pub uninterp spec fn number_notation(n: serde_json::Number) -> Seq<char>;

/// A JSON number. Integers are kept as integers; any other number is carried
/// as it was read.
pub enum JsonNumber {
    Unsigned(u64),
    Negative(i64),
    Float(serde_json::Number),
}

/// A JSON value.
pub enum Json {
    Null,
    Bool(bool),
    Number(JsonNumber),
    Str(String),
    Array(Vec<Json>),
    Object(Vec<(String, Json)>),
}

/// What a JSON number holds; a number that is no integer holds its notation.
pub enum NumberView {
    Unsigned(nat),
    Negative(int),
    Float(Seq<char>),
}

/// What a JSON value holds. An object is a map: the order of its members has no
/// meaning.
pub enum JsonView {
    Null,
    Bool(bool),
    Number(NumberView),
    Str(Seq<char>),
    Array(Seq<JsonView>),
    Object(Map<Seq<char>, JsonView>),
}

impl JsonNumber {
    pub open spec fn view(&self) -> NumberView {
        match self {
            JsonNumber::Unsigned(n) => NumberView::Unsigned(*n as nat),
            JsonNumber::Negative(n) => NumberView::Negative(*n as int),
            JsonNumber::Float(n) => NumberView::Float(number_notation(*n)),
        }
    }
}

/// Whether the notation is that of an integer: digits, perhaps after a minus sign.
pub open spec fn integer_notation(t: Seq<char>) -> bool {
    text::all_digits(t) || (t.len() > 0 && t[0] == '-' && text::all_digits(t.skip(1)))
}

/// Whether the object has a member of that name.
pub open spec fn has_member(v: Seq<(String, Json)>, name: Seq<char>) -> bool {
    exists|i: int| 0 <= i < v.len() && (#[trigger] v[i]).0@ == name
}

/// The place of the member of that name.
pub open spec fn member_index(v: Seq<(String, Json)>, name: Seq<char>) -> int {
    choose|i: int| 0 <= i < v.len() && (#[trigger] v[i]).0@ == name
}

/// No two members have the same name.
pub open spec fn names_unique(v: Seq<(String, Json)>) -> bool {
    forall|i: int, j: int|
        0 <= i < j < v.len() ==> (#[trigger] v[i]).0@ != (#[trigger] v[j]).0@
}

impl Json {
    pub open spec fn view(&self) -> JsonView
        decreases self,
    {
        match self {
            Json::Null => JsonView::Null,
            Json::Bool(b) => JsonView::Bool(*b),
            Json::Number(n) => JsonView::Number(n@),
            Json::Str(s) => JsonView::Str(s@),
            Json::Array(v) => JsonView::Array(
                Seq::new(
                    v@.len(),
                    |i: int|
                        if 0 <= i < v@.len() {
                            v@[i].view()
                        } else {
                            JsonView::Null
                        },
                ),
            ),
            Json::Object(v) => JsonView::Object(
                Map::new(
                    |k: Seq<char>| has_member(v@, k),
                    |k: Seq<char>|
                        {
                            let i = member_index(v@, k);
                            if 0 <= i < v@.len() {
                                v@[i].1.view()
                            } else {
                                JsonView::Null
                            }
                        },
                ),
            ),
        }
    }

    /// Member names are unique and integers are kept as integers, here and in
    /// every value inside.
    pub open spec fn wf(&self) -> bool
        decreases self,
    {
        match self {
            Json::Number(JsonNumber::Float(n)) => !integer_notation(number_notation(*n)),
            Json::Number(JsonNumber::Negative(n)) => *n < 0,
            Json::Array(v) => forall|i: int| 0 <= i < v@.len() ==> (#[trigger] v@[i]).wf(),
            Json::Object(v) => names_unique(v@) && forall|i: int|
                0 <= i < v@.len() ==> (#[trigger] v@[i]).1.wf(),
            _ => true,
        }
    }
}

/// What the items of an array hold.
pub open spec fn items_view(v: Seq<Json>) -> Seq<JsonView> {
    Seq::new(v.len(), |i: int| v[i]@)
}

/// What the members of an object hold.
pub open spec fn members_view(v: Seq<(String, Json)>) -> Map<Seq<char>, JsonView> {
    Map::new(|k: Seq<char>| has_member(v, k), |k: Seq<char>| v[member_index(v, k)].1@)
}

/// All items are well-formed.
pub open spec fn items_wf(v: Seq<Json>) -> bool {
    forall|i: int| 0 <= i < v.len() ==> (#[trigger] v[i]).wf()
}

/// All members are well-formed, and their names are unique.
pub open spec fn members_wf(v: Seq<(String, Json)>) -> bool {
    names_unique(v) && forall|i: int| 0 <= i < v.len() ==> (#[trigger] v[i]).1.wf()
}

/// The view of an array is made of the views of its items.
pub broadcast proof fn lemma_array_view(v: Vec<Json>)
    ensures
        (#[trigger] Json::Array(v).view()) == JsonView::Array(items_view(v@)),
{
    assert(Json::Array(v).view()->Array_0 =~= items_view(v@));
}

/// The view of an object is made of the views of its members.
pub broadcast proof fn lemma_object_view(v: Vec<(String, Json)>)
    ensures
        (#[trigger] Json::Object(v).view()) == JsonView::Object(members_view(v@)),
{
    assert(Json::Object(v).view()->Object_0 =~= members_view(v@)) by {
        assert forall|k: Seq<char>| has_member(v@, k) implies 0 <= member_index(v@, k)
            < v@.len() by {}
    }
}

/// A member found by its name is the one that the map holds.
pub proof fn lemma_member(v: Seq<(String, Json)>, i: int)
    requires
        names_unique(v),
        0 <= i < v.len(),
    ensures
        has_member(v, v[i].0@),
        member_index(v, v[i].0@) == i,
        members_view(v).contains_key(v[i].0@),
        members_view(v)[v[i].0@] == v[i].1@,
{
    let k = member_index(v, v[i].0@);
    assert(0 <= k < v.len() && v[k].0@ == v[i].0@);
    if k < i {
        assert(v[k].0@ != v[i].0@);
    }
    if i < k {
        assert(v[i].0@ != v[k].0@);
    }
}

/// The place of the member of that name.
fn find_member(v: &Vec<(String, Json)>, name: &str) -> (r: Option<usize>)
    requires
        names_unique(v@),
    ensures
        match r {
            Some(i) => i < v@.len() && v@[i as int].0@ == name@ && member_index(v@, name@) == i
                && has_member(v@, name@),
            None => !has_member(v@, name@),
        },
{
    let mut i: usize = 0;
    while i < v.len()
        invariant
            i <= v@.len(),
            names_unique(v@),
            forall|j: int| 0 <= j < i ==> (#[trigger] v@[j]).0@ != name@,
        decreases v@.len() - i,
    {
        if text::same(v[i].0.as_str(), name) {
            proof {
                lemma_member(v@, i as int);
            }
            return Some(i);
        }
        i = i + 1;
    }
    None
}

/// The member of that name.
pub fn get<'a>(v: &'a Vec<(String, Json)>, name: &str) -> (r: Option<&'a Json>)
    requires
        members_wf(v@),
    ensures
        match r {
            Some(j) => members_view(v@).contains_key(name@) && members_view(v@)[name@] == j@
                && j.wf(),
            None => !members_view(v@).contains_key(name@),
        },
{
    match find_member(v, name) {
        Some(i) => Some(&v[i].1),
        None => None,
    }
}

/// Sets the member of that name, new or not.
pub fn put(v: &mut Vec<(String, Json)>, name: &str, value: Json)
    requires
        members_wf(old(v)@),
        value.wf(),
    ensures
        members_wf(final(v)@),
        members_view(final(v)@) == members_view(old(v)@).insert(name@, value@),
{
    let ghost before = v@;
    match find_member(v, name) {
        Some(i) => {
            let key: String = v[i].0.clone();
            v.set(i, (key, value));
            proof {
                assert forall|k: Seq<char>| has_member(v@, k) == has_member(before, k) by {
                    if has_member(v@, k) {
                        let j = member_index(v@, k);
                        assert(before[j].0@ == k);
                    }
                    if has_member(before, k) {
                        let j = member_index(before, k);
                        assert(v@[j].0@ == k);
                    }
                }
                assert forall|k: Seq<char>| #[trigger] has_member(v@, k) implies members_view(v@)[k]
                    == members_view(before).insert(name@, value@)[k] by {
                    let j = member_index(v@, k);
                    assert(0 <= j < v@.len() && v@[j].0@ == k);
                    lemma_member(v@, j);
                    lemma_member(before, j);
                }
                lemma_member(v@, i as int);
                assert(members_view(v@) =~= members_view(before).insert(name@, value@));
            }
        },
        None => {
            v.push((name.to_string(), value));
            proof {
                let n = before.len() as int;
                assert(v@[n].0@ == name@);
                assert forall|k: Seq<char>| has_member(v@, k) == (has_member(before, k) || k
                    == name@) by {
                    if has_member(v@, k) {
                        let j = member_index(v@, k);
                        if j < n {
                            assert(before[j].0@ == k);
                        }
                    }
                    if has_member(before, k) {
                        let j = member_index(before, k);
                        assert(v@[j].0@ == k);
                    }
                }
                assert(names_unique(v@)) by {
                    assert forall|i: int, j: int| 0 <= i < j < v@.len() implies (
                    #[trigger] v@[i]).0@ != (#[trigger] v@[j]).0@ by {
                        if j == n {
                            assert(before[i].0@ != name@);
                        } else {
                            assert(before[i].0@ != before[j].0@);
                        }
                    }
                }
                assert forall|k: Seq<char>| #[trigger] has_member(v@, k) implies members_view(v@)[k]
                    == members_view(before).insert(name@, value@)[k] by {
                    let j = member_index(v@, k);
                    assert(0 <= j < v@.len() && v@[j].0@ == k);
                    lemma_member(v@, j);
                    if j < n {
                        lemma_member(before, j);
                    }
                }
                assert(members_view(v@) =~= members_view(before).insert(name@, value@));
            }
        },
    }
}

/// Removes the member of that name, if there is one.
pub fn drop_member(v: &mut Vec<(String, Json)>, name: &str)
    requires
        members_wf(old(v)@),
    ensures
        members_wf(final(v)@),
        members_view(final(v)@) == members_view(old(v)@).remove(name@),
{
    let ghost before = v@;
    match find_member(v, name) {
        Some(i) => {
            let _removed = v.remove(i);
            proof {
                let at = i as int;
                assert forall|j: int| 0 <= j < v@.len() implies #[trigger] v@[j] == before[if j < at {
                    j
                } else {
                    j + 1
                }] by {}
                assert(names_unique(v@)) by {
                    assert forall|i: int, j: int| 0 <= i < j < v@.len() implies (
                    #[trigger] v@[i]).0@ != (#[trigger] v@[j]).0@ by {
                        let a = if i < at {
                            i
                        } else {
                            i + 1
                        };
                        let b = if j < at {
                            j
                        } else {
                            j + 1
                        };
                        assert(before[a].0@ != before[b].0@);
                    }
                }
                assert forall|k: Seq<char>| has_member(v@, k) == (has_member(before, k) && k
                    != name@) by {
                    if has_member(v@, k) {
                        let j = member_index(v@, k);
                        let a = if j < at {
                            j
                        } else {
                            j + 1
                        };
                        assert(before[a].0@ == k);
                        lemma_member(before, a);
                    }
                    if has_member(before, k) && k != name@ {
                        let a = member_index(before, k);
                        let j = if a < at {
                            a
                        } else {
                            a - 1
                        };
                        assert(v@[j].0@ == k);
                    }
                }
                assert forall|k: Seq<char>| #[trigger] has_member(v@, k) implies members_view(v@)[k]
                    == members_view(before)[k] by {
                    let j = member_index(v@, k);
                    assert(0 <= j < v@.len() && v@[j].0@ == k);
                    lemma_member(v@, j);
                    let a = if j < at {
                        j
                    } else {
                        j + 1
                    };
                    lemma_member(before, a);
                }
                assert(members_view(v@) =~= members_view(before).remove(name@));
            }
        },
        None => {
            assert(members_view(v@) =~= members_view(before).remove(name@));
        },
    }
}

/// No members hold nothing.
pub proof fn lemma_no_members()
    ensures
        members_view(Seq::<(String, Json)>::empty()) == Map::<Seq<char>, JsonView>::empty(),
        members_wf(Seq::<(String, Json)>::empty()),
{
    assert(members_view(Seq::<(String, Json)>::empty()) =~= Map::<Seq<char>, JsonView>::empty());
}

/// `Clone` of `serde_json::Number`: the copy is printed as the number is.
#[verifier::external_body]
fn copy_number(n: &serde_json::Number) -> (r: serde_json::Number)
    ensures
        number_notation(r) == number_notation(*n),
{
    n.clone()
}

/// `Display` of `serde_json::Number`: its notation.
#[verifier::external_body]
fn notation_of(n: &serde_json::Number) -> (s: String)
    ensures
        s@ == number_notation(*n),
{
    n.to_string()
}

/// A copy of the value.
pub fn copy(j: &Json) -> (r: Json)
    requires
        j.wf(),
    ensures
        r@ == j@,
        r.wf(),
    decreases *j,
{
    broadcast use {lemma_array_view, lemma_object_view};

    match j {
        Json::Null => Json::Null,
        Json::Bool(b) => Json::Bool(*b),
        Json::Number(JsonNumber::Unsigned(n)) => Json::Number(JsonNumber::Unsigned(*n)),
        Json::Number(JsonNumber::Negative(n)) => Json::Number(JsonNumber::Negative(*n)),
        Json::Number(JsonNumber::Float(n)) => Json::Number(JsonNumber::Float(copy_number(n))),
        Json::Str(s) => Json::Str(s.clone()),
        Json::Array(v) => {
            let mut out: Vec<Json> = Vec::new();
            let mut i: usize = 0;
            while i < v.len()
                invariant
                    i <= v@.len(),
                    out@.len() == i,
                    *j == Json::Array(*v),
                    items_wf(v@),
                    items_wf(out@),
                    forall|k: int| 0 <= k < i ==> (#[trigger] out@[k])@ == v@[k]@,
                decreases v@.len() - i,
            {
                assert(decreases_to!(*j => j->Array_0));
                assert(decreases_to!(j->Array_0 => v@));
                assert(decreases_to!(v@ => v@[i as int]));
                assert(decreases_to!(*j => v@[i as int]));
                out.push(copy(&v[i]));
                i = i + 1;
            }
            assert(items_view(out@) =~= items_view(v@));
            Json::Array(out)
        },
        Json::Object(v) => {
            let mut out: Vec<(String, Json)> = Vec::new();
            let mut i: usize = 0;
            while i < v.len()
                invariant
                    i <= v@.len(),
                    out@.len() == i,
                    *j == Json::Object(*v),
                    members_wf(v@),
                    forall|k: int| 0 <= k < i ==> (#[trigger] out@[k]).1@ == v@[k].1@,
                    forall|k: int| 0 <= k < i ==> (#[trigger] out@[k]).1.wf(),
                    forall|k: int| 0 <= k < i ==> (#[trigger] out@[k]).0@ == v@[k].0@,
                decreases v@.len() - i,
            {
                assert(decreases_to!(*j => j->Object_0));
                assert(decreases_to!(j->Object_0 => v@));
                assert(decreases_to!(v@ => v@[i as int]));
                assert(decreases_to!(v@[i as int] => v@[i as int].1));
                assert(decreases_to!(*j => v@[i as int].1));
                let value = copy(&v[i].1);
                out.push((v[i].0.clone(), value));
                i = i + 1;
            }
            proof {
                assert(names_unique(out@)) by {
                    assert forall|a: int, b: int| 0 <= a < b < out@.len() implies (
                    #[trigger] out@[a]).0@ != (#[trigger] out@[b]).0@ by {
                        assert(v@[a].0@ != v@[b].0@);
                    }
                }
                lemma_same_members(out@, v@);
            }
            Json::Object(out)
        },
    }
}

/// Members with the same names and values in the same places make the same map.
proof fn lemma_same_members(a: Seq<(String, Json)>, b: Seq<(String, Json)>)
    requires
        names_unique(a),
        names_unique(b),
        a.len() == b.len(),
        forall|k: int| 0 <= k < a.len() ==> (#[trigger] a[k]).0@ == b[k].0@,
        forall|k: int| 0 <= k < a.len() ==> (#[trigger] a[k]).1@ == b[k].1@,
    ensures
        members_view(a) == members_view(b),
{
    assert forall|k: Seq<char>| has_member(a, k) == has_member(b, k) by {
        if has_member(a, k) {
            let j = member_index(a, k);
            assert(b[j].0@ == k);
        }
        if has_member(b, k) {
            let j = member_index(b, k);
            assert(a[j].0@ == k);
        }
    }
    assert forall|k: Seq<char>| #[trigger] has_member(a, k) implies members_view(a)[k]
        == members_view(b)[k] by {
        let j = member_index(a, k);
        assert(0 <= j < a.len() && a[j].0@ == k);
        lemma_member(a, j);
        lemma_member(b, j);
    }
    assert(members_view(a) =~= members_view(b));
}

/// Whether the notation is that of a zero. Zero is the only number that has two
/// notations, one of them with a sign.
pub open spec fn zero_notation(t: Seq<char>) -> bool {
    t == "0.0"@ || t == "-0.0"@
}

/// Whether two numbers are equal. An integer never equals a number that is kept
/// in its notation.
pub open spec fn equal_numbers(a: NumberView, b: NumberView) -> bool {
    match (a, b) {
        (NumberView::Float(s), NumberView::Float(t)) => s == t || (zero_notation(s)
            && zero_notation(t)),
        _ => a == b,
    }
}

/// Whether two values are equal: the same items in the same order, the same
/// members in any order.
pub open spec fn equal_json(a: JsonView, b: JsonView) -> bool
    decreases a,
{
    match (a, b) {
        (JsonView::Number(m), JsonView::Number(n)) => equal_numbers(m, n),
        (JsonView::Array(s), JsonView::Array(t)) => s.len() == t.len() && forall|i: int|
            0 <= i < s.len() ==> equal_json(#[trigger] s[i], t[i]),
        (JsonView::Object(s), JsonView::Object(t)) => s.dom() == t.dom() && forall|k: Seq<char>|
            s.contains_key(k) ==> equal_json(#[trigger] s[k], t[k]),
        _ => a == b,
    }
}

/// Every value equals itself.
pub proof fn equal_json_reflexive(j: JsonView)
    ensures
        equal_json(j, j),
    decreases j,
{
    match j {
        JsonView::Array(s) => {
            assert forall|i: int| 0 <= i < s.len() implies equal_json(#[trigger] s[i], s[i]) by {
                equal_json_reflexive(s[i]);
            }
        },
        JsonView::Object(m) => {
            assert forall|k: Seq<char>| m.contains_key(k) implies equal_json(
                #[trigger] m[k],
                m[k],
            ) by {
                equal_json_reflexive(m[k]);
            }
        },
        _ => {},
    }
}

/// If one value equals another, the other equals it.
pub proof fn equal_json_symmetric(a: JsonView, b: JsonView)
    requires
        equal_json(a, b),
    ensures
        equal_json(b, a),
    decreases a,
{
    match (a, b) {
        (JsonView::Array(s), JsonView::Array(t)) => {
            assert forall|i: int| 0 <= i < t.len() implies equal_json(#[trigger] t[i], s[i]) by {
                assert(equal_json(s[i], t[i]));
                equal_json_symmetric(s[i], t[i]);
            }
        },
        (JsonView::Object(s), JsonView::Object(t)) => {
            assert forall|k: Seq<char>| t.contains_key(k) implies equal_json(
                #[trigger] t[k],
                s[k],
            ) by {
                assert(s.dom().contains(k));
                assert(equal_json(s[k], t[k]));
                equal_json_symmetric(s[k], t[k]);
            }
        },
        _ => {},
    }
}

/// Values that equal one value equal each other.
pub proof fn equal_json_transitive(a: JsonView, b: JsonView, c: JsonView)
    requires
        equal_json(a, b),
        equal_json(b, c),
    ensures
        equal_json(a, c),
    decreases a,
{
    match (a, b, c) {
        (JsonView::Array(s), JsonView::Array(t), JsonView::Array(u)) => {
            assert forall|i: int| 0 <= i < s.len() implies equal_json(#[trigger] s[i], u[i]) by {
                assert(equal_json(s[i], t[i]));
                assert(equal_json(t[i], u[i]));
                equal_json_transitive(s[i], t[i], u[i]);
            }
        },
        (JsonView::Object(s), JsonView::Object(t), JsonView::Object(u)) => {
            assert forall|k: Seq<char>| s.contains_key(k) implies equal_json(
                #[trigger] s[k],
                u[k],
            ) by {
                assert(t.dom().contains(k));
                assert(equal_json(s[k], t[k]));
                assert(equal_json(t[k], u[k]));
                equal_json_transitive(s[k], t[k], u[k]);
            }
        },
        _ => {},
    }
}

/// Whether two numbers are equal.
fn numbers_equal(a: &JsonNumber, b: &JsonNumber) -> (r: bool)
    ensures
        r == equal_numbers(a@, b@),
{
    match (a, b) {
        (JsonNumber::Unsigned(m), JsonNumber::Unsigned(n)) => *m == *n,
        (JsonNumber::Negative(m), JsonNumber::Negative(n)) => *m == *n,
        (JsonNumber::Float(s), JsonNumber::Float(t)) => {
            let s = notation_of(s);
            let t = notation_of(t);
            let zs = text::same(s.as_str(), "0.0") || text::same(s.as_str(), "-0.0");
            let zt = text::same(t.as_str(), "0.0") || text::same(t.as_str(), "-0.0");
            text::same(s.as_str(), t.as_str()) || (zs && zt)
        },
        _ => false,
    }
}

/// Whether two values are equal.
pub fn equal(a: &Json, b: &Json) -> (r: bool)
    requires
        a.wf(),
        b.wf(),
    ensures
        r == equal_json(a@, b@),
    decreases *a,
{
    broadcast use {lemma_array_view, lemma_object_view};

    match (a, b) {
        (Json::Null, Json::Null) => true,
        (Json::Bool(x), Json::Bool(y)) => *x == *y,
        (Json::Number(m), Json::Number(n)) => numbers_equal(m, n),
        (Json::Str(s), Json::Str(t)) => text::same(s.as_str(), t.as_str()),
        (Json::Array(s), Json::Array(t)) => {
            if s.len() != t.len() {
                return false;
            }
            let mut i: usize = 0;
            while i < s.len()
                invariant
                    i <= s@.len() == t@.len(),
                    *a == Json::Array(*s),
                    *b == Json::Array(*t),
                    items_wf(s@),
                    items_wf(t@),
                    forall|k: int|
                        0 <= k < i ==> equal_json(
                            #[trigger] items_view(s@)[k],
                            items_view(t@)[k],
                        ),
                decreases s@.len() - i,
            {
                assert(decreases_to!(*a => a->Array_0));
                assert(decreases_to!(a->Array_0 => s@));
                assert(decreases_to!(s@ => s@[i as int]));
                assert(decreases_to!(*a => s@[i as int]));
                if !equal(&s[i], &t[i]) {
                    proof {
                        lemma_array_view(*s);
                        lemma_array_view(*t);
                        assert(items_view(s@)[i as int] == s@[i as int]@);
                        assert(items_view(t@)[i as int] == t@[i as int]@);
                        assert(!equal_json(items_view(s@)[i as int], items_view(t@)[i as int]));
                    }
                    return false;
                }
                i = i + 1;
            }
            true
        },
        (Json::Object(s), Json::Object(t)) => {
            let ghost ms = members_view(s@);
            let ghost mt = members_view(t@);
            if s.len() != t.len() {
                proof {
                    if ms.dom() == mt.dom() {
                        lemma_member_count(s@);
                        lemma_member_count(t@);
                    }
                }
                return false;
            }
            let mut i: usize = 0;
            while i < s.len()
                invariant
                    i <= s@.len() == t@.len(),
                    *a == Json::Object(*s),
                    *b == Json::Object(*t),
                    ms == members_view(s@),
                    mt == members_view(t@),
                    members_wf(s@),
                    members_wf(t@),
                    forall|k: int|
                        0 <= k < i ==> mt.contains_key((#[trigger] s@[k]).0@) && equal_json(
                            s@[k].1@,
                            mt[s@[k].0@],
                        ),
                decreases s@.len() - i,
            {
                assert(decreases_to!(*a => a->Object_0));
                assert(decreases_to!(a->Object_0 => s@));
                assert(decreases_to!(s@ => s@[i as int]));
                assert(decreases_to!(s@[i as int] => s@[i as int].1));
                assert(decreases_to!(*a => s@[i as int].1));
                proof {
                    lemma_member(s@, i as int);
                }
                match get(t, s[i].0.as_str()) {
                    None => {
                        assert(ms.contains_key(s@[i as int].0@));
                        return false;
                    },
                    Some(other) => {
                        if !equal(&s[i].1, other) {
                            proof {
                                lemma_object_view(*s);
                                lemma_object_view(*t);
                                assert(ms.contains_key(s@[i as int].0@));
                                assert(!equal_json(ms[s@[i as int].0@], mt[s@[i as int].0@]));
                            }
                            return false;
                        }
                    },
                }
                i = i + 1;
            }
            proof {
                assert forall|k: Seq<char>| ms.contains_key(k) implies mt.contains_key(k)
                    && equal_json(#[trigger] ms[k], mt[k]) by {
                    let j = member_index(s@, k);
                    assert(0 <= j < s@.len() && s@[j].0@ == k);
                    lemma_member(s@, j);
                }
                lemma_member_count(s@);
                lemma_member_count(t@);
                assert(ms.dom().subset_of(mt.dom()));
                vstd::set_lib::lemma_subset_equality(ms.dom(), mt.dom());
            }
            true
        },
        _ => false,
    }
}

/// An object has as many names as members.
proof fn lemma_member_count(v: Seq<(String, Json)>)
    requires
        names_unique(v),
    ensures
        members_view(v).dom().finite(),
        members_view(v).dom().len() == v.len(),
{
    let names = v.map_values(|m: (String, Json)| m.0@);
    assert(names.no_duplicates()) by {
        assert forall|i: int, j: int| 0 <= i < j < names.len() implies names[i] != names[j] by {
            assert(v[i].0@ != v[j].0@);
        }
    }
    names.unique_seq_to_set();
    assert(names.to_set() =~= members_view(v).dom()) by {
        assert forall|k: Seq<char>| names.to_set().contains(k) == members_view(v).dom().contains(
            k,
        ) by {
            if names.contains(k) {
                let i = choose|i: int| 0 <= i < names.len() && names[i] == k;
                assert(v[i].0@ == k);
            }
            if has_member(v, k) {
                let i = member_index(v, k);
                assert(names[i] == k);
            }
        }
    }
}

/// The type of `serde_json` values.
#[verifier::external_type_specification]
#[verifier::external_body]
pub struct ExValue(serde_json::Value);

/// What a `serde_json` value holds.
pub uninterp spec fn value_holds(v: serde_json::Value) -> JsonView;

/// What reading JSON gives: a value, or the text of an error.
pub enum Parsed {
    Value(JsonView),
    Refused(Seq<char>),
}

/// What `serde_json::from_slice` reads from bytes: a value, or the text of the
/// error with which it refuses them.
pub uninterp spec fn parsed_json(bytes: Seq<u8>) -> Parsed;

/// The text that `serde_json` prints for a value, without white space.
pub uninterp spec fn printed_json(j: JsonView) -> Seq<char>;

/// Whether a number that is no integer is read back from its notation. The reader may give
/// a neighbour of the number that was printed, so that some are not.
pub open spec fn fraction_returns(notation: Seq<char>) -> bool {
    json_of_text(notation) == Parsed::Value(JsonView::Number(NumberView::Float(notation)))
}

/// Whether printing the value and reading the text gives it back: it nests at
/// most `depth` deep, its integers fit in 64 bits, and its other numbers are read back
/// from their notations.
pub open spec fn re_readable(j: JsonView, depth: nat) -> bool
    decreases depth,
{
    match j {
        JsonView::Number(NumberView::Unsigned(n)) => n <= u64::MAX,
        JsonView::Number(NumberView::Negative(n)) => i64::MIN <= n < 0,
        JsonView::Number(NumberView::Float(t)) => fraction_returns(t),
        JsonView::Array(s) => depth > 0 && forall|i: int|
            0 <= i < s.len() ==> re_readable(#[trigger] s[i], (depth - 1) as nat),
        JsonView::Object(m) => depth > 0 && forall|k: Seq<char>|
            m.contains_key(k) ==> re_readable(#[trigger] m[k], (depth - 1) as nat),
        _ => true,
    }
}

/// How deep a value may nest for the reader to take it.
pub const MAX_DEPTH: usize = 127;

/// Whether a value is one that a reader can give: it nests at most `depth` deep, and its
/// integers fit in 64 bits.
pub open spec fn as_read(j: JsonView, depth: nat) -> bool
    decreases depth,
{
    match j {
        JsonView::Number(NumberView::Unsigned(n)) => n <= u64::MAX,
        JsonView::Number(NumberView::Negative(n)) => i64::MIN <= n < 0,
        JsonView::Array(s) => depth > 0 && forall|i: int|
            0 <= i < s.len() ==> as_read(#[trigger] s[i], (depth - 1) as nat),
        JsonView::Object(m) => depth > 0 && forall|k: Seq<char>|
            m.contains_key(k) ==> as_read(#[trigger] m[k], (depth - 1) as nat),
        _ => true,
    }
}

/// Whether the numbers of a value that are no integers are read back from their notations.
pub open spec fn fractions_return(j: JsonView) -> bool
    decreases j,
{
    match j {
        JsonView::Number(NumberView::Float(t)) => fraction_returns(t),
        JsonView::Array(s) => forall|i: int| 0 <= i < s.len() ==> fractions_return(#[trigger] s[i]),
        JsonView::Object(m) => forall|k: Seq<char>|
            m.contains_key(k) ==> fractions_return(#[trigger] m[k]),
        _ => true,
    }
}

/// What was read can be printed and read again, as far as its fractions can.
pub proof fn lemma_read_again(j: JsonView, depth: nat)
    requires
        as_read(j, depth),
        fractions_return(j),
    ensures
        re_readable(j, depth),
    decreases depth,
{
    match j {
        JsonView::Array(s) => {
            assert forall|i: int| 0 <= i < s.len() implies re_readable(
                #[trigger] s[i],
                (depth - 1) as nat,
            ) by {
                assert(as_read(s[i], (depth - 1) as nat) && fractions_return(s[i]));
                lemma_read_again(s[i], (depth - 1) as nat);
            }
        },
        JsonView::Object(m) => {
            assert forall|k: Seq<char>| m.contains_key(k) implies re_readable(
                #[trigger] m[k],
                (depth - 1) as nat,
            ) by {
                assert(as_read(m[k], (depth - 1) as nat) && fractions_return(m[k]));
                lemma_read_again(m[k], (depth - 1) as nat);
            }
        },
        _ => {},
    }
}

/// `serde_json::from_slice` into a `Value`. The result is a function of the
/// bytes. The reader refuses what nests deeper than its limit, and keeps as an
/// integer only what fits in 64 bits.
#[verifier::external_body]
fn parse_value(bytes: &[u8]) -> (r: Result<serde_json::Value, String>)
    ensures
        match r {
            Ok(v) => parsed_json(bytes@) == Parsed::Value(value_holds(v)) && as_read(
                value_holds(v),
                MAX_DEPTH as nat,
            ),
            Err(e) => parsed_json(bytes@) == Parsed::Refused(e@),
        },
{
    serde_json::from_slice::<serde_json::Value>(bytes).map_err(|e| e.to_string())
}

/// Takes a `serde_json::Value` apart, one variant of `Json` for each of its own.
/// `Map` keeps its names unique, and a number that is no integer is printed with
/// a point or an exponent, so the result is well-formed.
#[verifier::external_body]
fn json_of_value(v: serde_json::Value) -> (j: Json)
    ensures
        j@ == value_holds(v),
        j.wf(),
{
    match v {
        Value::Null => Json::Null,
        Value::Bool(b) => Json::Bool(b),
        Value::Number(n) => match (n.as_u64(), n.as_i64()) {
            (Some(u), _) => Json::Number(JsonNumber::Unsigned(u)),
            (_, Some(i)) => Json::Number(JsonNumber::Negative(i)),
            _ => Json::Number(JsonNumber::Float(n)),
        },
        Value::String(s) => Json::Str(s),
        Value::Array(a) => Json::Array(a.into_iter().map(json_of_value).collect()),
        Value::Object(m) => Json::Object(
            m.into_iter().map(|(k, v)| (k, json_of_value(v))).collect(),
        ),
    }
}

/// Puts a `serde_json::Value` together, one of its variants for each of `Json`.
#[verifier::external_body]
fn value_of_json(j: Json) -> (v: serde_json::Value)
    requires
        j.wf(),
    ensures
        value_holds(v) == j@,
{
    match j {
        Json::Null => Value::Null,
        Json::Bool(b) => Value::Bool(b),
        Json::Number(JsonNumber::Unsigned(u)) => Value::Number(u.into()),
        Json::Number(JsonNumber::Negative(i)) => Value::Number(i.into()),
        Json::Number(JsonNumber::Float(n)) => Value::Number(n),
        Json::Str(s) => Value::String(s),
        Json::Array(a) => Value::Array(a.into_iter().map(value_of_json).collect()),
        Json::Object(m) => Value::Object(
            m.into_iter().map(|(k, v)| (k, value_of_json(v))).collect(),
        ),
    }
}

/// The `Display` of `serde_json::Value`: compact JSON. What it prints is a
/// function of the value; where every number that is no integer is read back from its
/// notation and the value nests no deeper than the reader allows, reading the text
/// gives the value back.
#[verifier::external_body]
fn print_value(v: &serde_json::Value) -> (s: String)
    ensures
        s@ == printed_json(value_holds(*v)),
        re_readable(value_holds(*v), MAX_DEPTH as nat) ==> parsed_json(
            vstd::utf8::encode_utf8(s@),
        ) == Parsed::Value(value_holds(*v)),
{
    v.to_string()
}

/// Reads a JSON value from bytes.
pub fn parse_bytes(bytes: &[u8]) -> (r: Result<Json, String>)
    ensures
        match r {
            Ok(j) => parsed_json(bytes@) == Parsed::Value(j@) && j.wf() && as_read(
                j@,
                MAX_DEPTH as nat,
            ),
            Err(e) => parsed_json(bytes@) == Parsed::Refused(e@),
        },
{
    match parse_value(bytes) {
        Ok(v) => Ok(json_of_value(v)),
        Err(e) => Err(e),
    }
}

/// What a text holds as JSON.
pub open spec fn json_of_text(t: Seq<char>) -> Parsed {
    parsed_json(vstd::utf8::encode_utf8(t))
}

/// Reads a JSON value from a text.
pub fn parse_text(t: &str) -> (r: Result<Json, String>)
    ensures
        match r {
            Ok(j) => json_of_text(t@) == Parsed::Value(j@) && j.wf(),
            Err(e) => json_of_text(t@) == Parsed::Refused(e@),
        },
{
    parse_bytes(t.as_bytes())
}

/// Prints a JSON value.
pub fn print(j: Json) -> (s: String)
    requires
        j.wf(),
    ensures
        s@ == printed_json(j@),
        re_readable(j@, MAX_DEPTH as nat) ==> json_of_text(s@) == Parsed::Value(j@),
{
    let v = value_of_json(j);
    print_value(&v)
}

/// The names and values of members, in their order.
pub open spec fn in_turn(v: Seq<(String, Json)>) -> Seq<(Seq<char>, JsonView)> {
    v.map_values(|m: (String, Json)| (m.0@, m.1@))
}

/// The names and values of members that are `serde_json` values, in their order.
pub open spec fn values_in_turn(v: Seq<(String, serde_json::Value)>) -> Seq<
    (Seq<char>, JsonView),
> {
    v.map_values(|m: (String, serde_json::Value)| (m.0@, value_holds(m.1)))
}

/// Whether the members are those of the object, each name once.
pub open spec fn makes_object(
    members: Seq<(Seq<char>, JsonView)>,
    m: Map<Seq<char>, JsonView>,
) -> bool {
    &&& forall|i: int, j: int|
        0 <= i < j < members.len() ==> (#[trigger] members[i]).0 != (#[trigger] members[j]).0
    &&& forall|i: int|
        0 <= i < members.len() ==> m.contains_key((#[trigger] members[i]).0) && m[members[i].0]
            == members[i].1
    &&& forall|k: Seq<char>| #[trigger]
        m.contains_key(k) ==> exists|i: int|
            0 <= i < members.len() && (#[trigger] members[i]).0 == k
}

/// The text that `serde_json` prints for an object with these members in this order.
pub uninterp spec fn printed_members(members: Seq<(Seq<char>, JsonView)>) -> Seq<char>;

/// `Serializer::collect_map` of `serde` on a `serde_json::Serializer`: compact JSON of
/// an object with its members in the given order. What it prints is a function of
/// the members; where every number that is no integer is read back from its notation and
/// the object nests no deeper than the reader allows, reading the text gives the object
/// back.
#[verifier::external_body]
fn print_pairs(members: Vec<(String, serde_json::Value)>) -> (s: String)
    ensures
        s@ == printed_members(values_in_turn(members@)),
        forall|m: Map<Seq<char>, JsonView>|
            makes_object(values_in_turn(members@), m) && #[trigger] re_readable(
                JsonView::Object(m),
                MAX_DEPTH as nat,
            ) ==> json_of_text(s@) == Parsed::Value(JsonView::Object(m)),
{
    let mut out: Vec<u8> = Vec::new();
    let mut printer = serde_json::Serializer::new(&mut out);
    let _ = serde::Serializer::collect_map(&mut printer, members);
    String::from_utf8(out).unwrap_or_default()
}

/// Prints an object with its members in their order.
pub fn print_in_turn(members: Vec<(String, Json)>) -> (s: String)
    requires
        members_wf(members@),
    ensures
        s@ == printed_members(in_turn(members@)),
        re_readable(JsonView::Object(members_view(members@)), MAX_DEPTH as nat)
            ==> json_of_text(s@) == Parsed::Value(JsonView::Object(members_view(members@))),
{
    let ghost given = members@;
    let mut rest = members;
    let mut pairs: Vec<(String, serde_json::Value)> = Vec::new();
    let ghost mut n: int = 0;
    while rest.len() > 0
        invariant
            members_wf(given),
            0 <= n <= given.len(),
            rest@ == given.skip(n),
            pairs@.len() == n,
            forall|i: int|
                0 <= i < n ==> (#[trigger] pairs@[i]).0@ == given[i].0@ && value_holds(pairs@[i].1)
                    == given[i].1@,
        decreases rest@.len(),
    {
        let (name, value) = rest.remove(0);
        assert((name, value) == given[n]);
        assert(rest@ =~= given.skip(n + 1));
        pairs.push((name, value_of_json(value)));
        proof {
            n = n + 1;
        }
    }
    proof {
        let turn = values_in_turn(pairs@);
        assert(turn =~= in_turn(given));
        let m = members_view(given);
        assert(makes_object(turn, m)) by {
            assert forall|i: int, j: int| 0 <= i < j < turn.len() implies (#[trigger] turn[i]).0
                != (#[trigger] turn[j]).0 by {
                assert(given[i].0@ != given[j].0@);
            }
            assert forall|i: int| 0 <= i < turn.len() implies m.contains_key(
                (#[trigger] turn[i]).0,
            ) && m[turn[i].0] == turn[i].1 by {
                lemma_member(given, i);
            }
            assert forall|k: Seq<char>| #[trigger] m.contains_key(k) implies exists|i: int|
                0 <= i < turn.len() && (#[trigger] turn[i]).0 == k by {
                let i = member_index(given, k);
                assert(turn[i].0 == k);
            }
        }
    }
    print_pairs(pairs)
}

/// The JSON number of an integer.
pub open spec fn integer_json(i: int) -> JsonView {
    if i < 0 {
        JsonView::Number(NumberView::Negative(i))
    } else {
        JsonView::Number(NumberView::Unsigned(i as nat))
    }
}

/// The JSON number of an integer.
pub fn integer(i: i64) -> (j: Json)
    ensures
        j@ == integer_json(i as int),
        j.wf(),
{
    if i < 0 {
        Json::Number(JsonNumber::Negative(i))
    } else {
        Json::Number(JsonNumber::Unsigned(i as u64))
    }
}

} // verus!
