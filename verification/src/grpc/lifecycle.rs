//! What agents tell of the life of rules.

use super::hub::{Hub, HubView};
use crate::json::{self, Json, JsonNumber, JsonView, NumberView, Parsed};
use crate::rule_lifecycle_bus::{LifecycleView, RuleLifecycleEvent};
use crate::store::model::StoreModel;
use crate::store::records::RuleView;
use crate::store::{self, ControllerStore};
use crate::text;
use vstd::prelude::*;

verus! {

broadcast use vstd::string::group_string_axioms;

/// The member of that name; null where there is none.
pub open spec fn member(j: JsonView, name: Seq<char>) -> JsonView {
    match j {
        JsonView::Object(m) => if m.contains_key(name) {
            m[name]
        } else {
            JsonView::Null
        },
        _ => JsonView::Null,
    }
}

/// The text that a value is, if it is one.
pub open spec fn as_text(j: JsonView) -> Option<Seq<char>> {
    match j {
        JsonView::Str(s) => Some(s),
        _ => None,
    }
}

/// The first text, else the second, else nothing at all.
pub open spec fn text_or(a: Option<Seq<char>>, b: Option<Seq<char>>) -> Seq<char> {
    match (a, b) {
        (Some(t), _) => t,
        (None, Some(t)) => t,
        (None, None) => Seq::empty(),
    }
}

/// The unsigned number that a value is, if it is one.
pub open spec fn as_number(j: JsonView) -> Option<nat> {
    match j {
        JsonView::Number(NumberView::Unsigned(n)) => Some(n),
        _ => None,
    }
}

/// The event that a JSON value tells of. The id of a rule is a number or a text.
pub open spec fn event_of(j: JsonView, node_id: Seq<char>, now_ms: u64) -> LifecycleView {
    LifecycleView {
        event_type: text_or(as_text(member(j, "event_type"@)), None),
        rule_id: text_or(
            match as_number(member(j, "rule_id"@)) {
                Some(n) => Some(text::decimal(n)),
                None => None,
            },
            as_text(member(j, "rule_id"@)),
        ),
        node_id,
        interface_name: text_or(
            as_text(member(j, "interface"@)),
            as_text(member(j, "interface_name"@)),
        ),
        direction: text_or(as_text(member(j, "direction"@)), None),
        timestamp_ms: match as_number(member(j, "timestamp_ms"@)) {
            Some(n) => n as u64,
            None => now_ms,
        },
        reason: as_text(member(j, "reason"@)),
    }
}

/// The event that some bytes tell of, if they are UTF-8 and JSON.
pub open spec fn event_in(raw: Seq<u8>, node_id: Seq<char>, now_ms: u64) -> Option<LifecycleView> {
    if vstd::utf8::valid_utf8(raw) {
        match json::json_of_text(vstd::utf8::decode_utf8(raw)) {
            Parsed::Value(j) => Some(event_of(j, node_id, now_ms)),
            Parsed::Refused(_) => None,
        }
    } else {
        None
    }
}

/// The events that a batch tells of; what cannot be read is left out.
pub open spec fn events_in(
    batch: Seq<Seq<u8>>,
    node_id: Seq<char>,
    now_ms: u64,
) -> Seq<LifecycleView>
    decreases batch.len(),
{
    if batch.len() == 0 {
        Seq::empty()
    } else {
        let earlier = events_in(batch.drop_last(), node_id, now_ms);
        match event_in(batch.last(), node_id, now_ms) {
            Some(e) => earlier.push(e),
            None => earlier,
        }
    }
}

/// Whether the event tells that a rule has run out.
pub open spec fn runs_out(e: LifecycleView) -> bool {
    e.event_type == "expired"@ && e.rule_id.len() > 0
}

/// The rules without those that have run out.
pub open spec fn without_expired(
    rules: Map<Seq<char>, RuleView>,
    events: Seq<LifecycleView>,
) -> Map<Seq<char>, RuleView>
    decreases events.len(),
{
    if events.len() == 0 {
        rules
    } else {
        let earlier = without_expired(rules, events.drop_last());
        if runs_out(events.last()) {
            earlier.remove(events.last().rule_id)
        } else {
            earlier
        }
    }
}

/// The member of that name.
fn find_member<'a>(j: &'a Json, name: &str) -> (r: Option<&'a Json>)
    requires
        j.wf(),
    ensures
        match r {
            Some(v) => v.wf() && v@ == member(j@, name@),
            None => member(j@, name@) == JsonView::Null,
        },
{
    match j {
        Json::Object(members) => {
            proof {
                json::lemma_object_view(*members);
            }
            json::get(members, name)
        },
        _ => None,
    }
}

/// The text that a member is, if it is one.
fn text_member(j: &Json, name: &str) -> (r: Option<String>)
    requires
        j.wf(),
    ensures
        text::opt_text(r) == as_text(member(j@, name@)),
{
    match find_member(j, name) {
        Some(Json::Str(s)) => Some(s.clone()),
        _ => None,
    }
}

/// The unsigned number that a member is, if it is one.
fn number_member(j: &Json, name: &str) -> (r: Option<u64>)
    requires
        j.wf(),
    ensures
        match r {
            Some(n) => as_number(member(j@, name@)) == Some(n as nat),
            None => as_number(member(j@, name@)) is None,
        },
{
    match find_member(j, name) {
        Some(Json::Number(JsonNumber::Unsigned(n))) => Some(*n),
        _ => None,
    }
}

/// The first text, else the second, else nothing at all.
fn first_text(a: Option<String>, b: Option<String>) -> (s: String)
    ensures
        s@ == text_or(text::opt_text(a), text::opt_text(b)),
{
    match a {
        Some(t) => t,
        None => match b {
            Some(t) => t,
            None => String::new(),
        },
    }
}

/// The event that a JSON value tells of.
pub fn read_event(event: &Json, node_id: &str, now_ms: u64) -> (e: RuleLifecycleEvent)
    requires
        event.wf(),
    ensures
        e@ == event_of(event@, node_id@, now_ms),
{
    let rule_number: Option<String> = match number_member(event, "rule_id") {
        Some(n) => Some(text::u64_text(n)),
        None => None,
    };
    RuleLifecycleEvent {
        event_type: first_text(text_member(event, "event_type"), None),
        rule_id: first_text(rule_number, text_member(event, "rule_id")),
        node_id: node_id.to_string(),
        interface_name: first_text(
            text_member(event, "interface"),
            text_member(event, "interface_name"),
        ),
        direction: first_text(text_member(event, "direction"), None),
        timestamp_ms: match number_member(event, "timestamp_ms") {
            Some(n) => n,
            None => now_ms,
        },
        reason: text_member(event, "reason"),
    }
}

/// The event that some bytes tell of.
fn read_raw(raw: &[u8], node_id: &str, now_ms: u64) -> (r: Option<RuleLifecycleEvent>)
    ensures
        match r {
            Some(e) => event_in(raw@, node_id@, now_ms) == Some(e@),
            None => event_in(raw@, node_id@, now_ms) is None,
        },
{
    match text::from_utf8(raw) {
        Some(t) => match json::parse_text(t.as_str()) {
            Ok(j) => Some(read_event(&j, node_id, now_ms)),
            Err(_) => None,
        },
        None => None,
    }
}

/// Process a batch of rule lifecycle events received from an agent.
///
/// For each `expired` event, the rule is deleted from the store so it
/// is not pushed back on the next reconciliation. All events are to be published
/// for streaming to UI subscribers.
pub fn handle_rule_lifecycle_batch<S: ControllerStore>(
    node_id: &str,
    events_json: &Vec<Vec<u8>>,
    store: &mut S,
    hub: &mut Hub,
    now_ms: u64,
)
    ensures
        final(store).dependable() == old(store).dependable(),
        final(hub)@ == (HubView {
            lifecycle: old(hub)@.lifecycle + events_in(
                store::byte_views(events_json@),
                node_id@,
                now_ms,
            ),
            ..old(hub)@
        }),
        old(store).dependable() ==> final(store).model() == (StoreModel {
            rules: without_expired(
                old(store).model().rules,
                events_in(store::byte_views(events_json@), node_id@, now_ms),
            ),
            ..old(store).model()
        }),
{
    let ghost batch = store::byte_views(events_json@);
    let ghost m = store.model();
    let ghost h = hub@;
    let mut i: usize = 0;
    assert(batch.take(0) =~= Seq::<Seq<u8>>::empty());
    assert(h.lifecycle + events_in(batch.take(0), node_id@, now_ms) =~= h.lifecycle);
    while i < events_json.len()
        invariant
            i <= events_json@.len(),
            batch == store::byte_views(events_json@),
            store.dependable() == old(store).dependable(),
            hub@ == (HubView {
                lifecycle: h.lifecycle + events_in(batch.take(i as int), node_id@, now_ms),
                ..h
            }),
            store.dependable() ==> store.model() == (StoreModel {
                rules: without_expired(
                    m.rules,
                    events_in(batch.take(i as int), node_id@, now_ms),
                ),
                ..m
            }),
        decreases events_json@.len() - i,
    {
        let ghost earlier = events_in(batch.take(i as int), node_id@, now_ms);
        proof {
            assert(batch.take(i + 1).drop_last() =~= batch.take(i as int));
            assert(batch.take(i + 1).last() == events_json@[i as int]@);
        }
        if let Some(event) = read_raw(events_json[i].as_slice(), node_id, now_ms) {
            proof {
                let now = events_in(batch.take(i + 1), node_id@, now_ms);
                assert(now == earlier.push(event@));
                assert(now.drop_last() =~= earlier);
                assert(h.lifecycle + now =~= (h.lifecycle + earlier).push(event@));
            }
            if text::same(event.event_type.as_str(), "expired") && !event.rule_id.as_str().is_empty() {
                let _deleted = store.delete_rule(event.rule_id.as_str());
            }
            hub.publish_lifecycle(event);
        }
        i = i + 1;
    }
    assert(batch.take(i as int) =~= batch);
}

} // verus!
