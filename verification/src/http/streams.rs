//! What the WebSocket streams send, and who may open them.

use super::Reply;
use crate::event_bus::TaggedEventBatch;
use crate::json::{self, Json, JsonNumber, JsonView, NumberView, Parsed};
use crate::rule_lifecycle_bus::{LifecycleView, RuleLifecycleEvent};
use crate::text;
use vstd::prelude::*;

verus! {

broadcast use vstd::string::group_string_axioms;

/// What looking up a token came to.
pub enum TokenLookup {
    Known,
    Unknown,
    /// It could not be looked up.
    Failed,
}

/// The token that a client presents when it opens a stream; an empty one is none.
pub fn presented_token(token: Option<&str>) -> (r: Result<&str, Reply>)
    ensures
        match token {
            Some(t) => if t@.len() > 0 {
                r matches Ok(s) && s@ == t@
            } else {
                r matches Err(e) && super::replies(
                    e,
                    super::UNAUTHORIZED,
                    super::error_body("missing token"@),
                )
            },
            None => r matches Err(e) && super::replies(
                e,
                super::UNAUTHORIZED,
                super::error_body("missing token"@),
            ),
        },
{
    match token {
        Some(t) => if t.is_empty() {
            Err(super::error_reply(super::UNAUTHORIZED, "missing token"))
        } else {
            Ok(t)
        },
        None => Err(super::error_reply(super::UNAUTHORIZED, "missing token")),
    }
}

/// Whether a stream is opened, once the token was looked up; else the answer.
pub fn authorize_ws_token(lookup: TokenLookup) -> (r: Result<(), Reply>)
    ensures
        match lookup {
            TokenLookup::Known => r is Ok,
            TokenLookup::Unknown => r matches Err(e) && super::replies(
                e,
                super::UNAUTHORIZED,
                super::error_body("invalid token"@),
            ),
            TokenLookup::Failed => r matches Err(e) && super::replies(
                e,
                super::UNAUTHORIZED,
                super::error_body("auth backend error"@),
            ),
        },
{
    match lookup {
        TokenLookup::Known => Ok(()),
        TokenLookup::Unknown => Err(super::error_reply(super::UNAUTHORIZED, "invalid token")),
        TokenLookup::Failed => Err(super::error_reply(super::UNAUTHORIZED, "auth backend error")),
    }
}

/// Whether a stream that is limited to a node carries what comes from a node.
pub open spec fn passes(filter: Option<Seq<char>>, node_id: Seq<char>) -> bool {
    filter matches Some(f) ==> f == node_id
}

/// What JSON that was read says of the frame: an object gets a member `node_id`, for
/// anything else the event stays as it is.
pub open spec fn attributed_parsed(event: Seq<char>, j: JsonView, node_id: Seq<char>) -> Seq<
    char,
> {
    match j {
        JsonView::Object(m) => json::printed_json(
            JsonView::Object(m.insert("node_id"@, JsonView::Str(node_id))),
        ),
        _ => event,
    }
}

/// An event with the node that it comes from: a JSON object gets a member `node_id`,
/// anything else stays as it is.
pub open spec fn attributed(event: Seq<char>, node_id: Seq<char>) -> Seq<char> {
    match json::json_of_text(event) {
        Parsed::Value(j) => attributed_parsed(event, j, node_id),
        Parsed::Refused(_) => event,
    }
}

/// The frames in which events are sent: one for each that is text.
pub open spec fn frames(events: Seq<Seq<u8>>, node_id: Seq<char>) -> Seq<Seq<char>>
    decreases events.len(),
{
    if events.len() == 0 {
        Seq::empty()
    } else {
        let earlier = frames(events.drop_last(), node_id);
        if vstd::utf8::valid_utf8(events.last()) {
            earlier.push(attributed(vstd::utf8::decode_utf8(events.last()), node_id))
        } else {
            earlier
        }
    }
}

/// What byte strings hold.
pub open spec fn byte_views(v: Seq<Vec<u8>>) -> Seq<Seq<u8>> {
    v.map_values(|b: Vec<u8>| b@)
}

/// An event with the node that it comes from. The agent-emitted JSON does not carry
/// `node_id` (each agent only sends its own events).
pub fn attribute(event: &str, node_id: &str) -> (s: String)
    ensures
        s@ == attributed(event@, node_id@),
{
    match json::parse_text(event) {
        Ok(j) => attribute_parsed(event, j, node_id),
        Err(_) => event.to_string(),
    }
}

/// An event, of which the JSON was read, with the node that it comes from.
pub fn attribute_parsed(event: &str, j: Json, node_id: &str) -> (s: String)
    requires
        j.wf(),
    ensures
        s@ == attributed_parsed(event@, j@, node_id@),
{
    broadcast use {json::lemma_object_view, json::lemma_array_view};

    match j {
        Json::Object(m) => {
            let mut members = m;
            proof {
                json::lemma_object_view(m);
            }
            json::put(&mut members, "node_id", Json::Str(node_id.to_string()));
            proof {
                json::lemma_object_view(members);
            }
            json::print(Json::Object(members))
        },
        _ => event.to_string(),
    }
}

/// The frames in which a stream sends the events, or alerts, of a node. A stream may be
/// limited to one node.
pub fn event_frames(filter: Option<&str>, node_id: &str, events: &Vec<Vec<u8>>) -> (v: Vec<
    String,
>)
    ensures
        text::texts(v@) == (if passes(text::opt_str(filter), node_id@) {
            frames(byte_views(events@), node_id@)
        } else {
            Seq::empty()
        }),
{
    let mut v: Vec<String> = Vec::new();
    assert(text::texts(v@) =~= Seq::<Seq<char>>::empty());
    if let Some(f) = filter {
        if !text::same(f, node_id) {
            return v;
        }
    }
    let ghost all = byte_views(events@);
    let mut i: usize = 0;
    assert(all.take(0) =~= Seq::<Seq<u8>>::empty());
    while i < events.len()
        invariant
            i <= events@.len(),
            all == byte_views(events@),
            text::texts(v@) == frames(all.take(i as int), node_id@),
        decreases events@.len() - i,
    {
        let ghost before = text::texts(v@);
        proof {
            assert(all.take(i + 1).drop_last() =~= all.take(i as int));
            assert(all.take(i + 1).last() == events@[i as int]@);
        }
        if let Some(event) = text::from_utf8(events[i].as_slice()) {
            let frame = attribute(event.as_str(), node_id);
            v.push(frame);
            assert(text::texts(v@) =~= before.push(frame@));
        }
        i = i + 1;
    }
    assert(all.take(i as int) =~= all);
    v
}

/// The frames in which a stream sends a batch of events.
pub fn batch_frames(filter: Option<&str>, batch: &TaggedEventBatch) -> (v: Vec<String>)
    ensures
        text::texts(v@) == (if passes(text::opt_str(filter), batch.node_id@) {
            frames(byte_views(batch.events_json@), batch.node_id@)
        } else {
            Seq::empty()
        }),
{
    event_frames(filter, batch.node_id.as_str(), &batch.events_json)
}

/// The members of the JSON object of a rule lifecycle event, in their order. Without a
/// reason there is no member for it.
pub open spec fn lifecycle_members(e: LifecycleView) -> Seq<(Seq<char>, JsonView)> {
    let always = seq![
        ("event_type"@, JsonView::Str(e.event_type)),
        ("rule_id"@, JsonView::Str(e.rule_id)),
        ("node_id"@, JsonView::Str(e.node_id)),
        ("interface_name"@, JsonView::Str(e.interface_name)),
        ("direction"@, JsonView::Str(e.direction)),
        ("timestamp_ms"@, JsonView::Number(NumberView::Unsigned(e.timestamp_ms as nat))),
    ];
    match e.reason {
        Some(r) => always.push(("reason"@, JsonView::Str(r))),
        None => always,
    }
}

/// The names of the members differ.
proof fn lemma_lifecycle_names(e: LifecycleView)
    ensures
        forall|i: int, j: int|
            0 <= i < j < lifecycle_members(e).len() ==> (#[trigger] lifecycle_members(e)[i]).0 != (
            #[trigger] lifecycle_members(e)[j]).0,
{
    reveal_strlit("event_type");
    reveal_strlit("rule_id");
    reveal_strlit("node_id");
    reveal_strlit("interface_name");
    reveal_strlit("direction");
    reveal_strlit("timestamp_ms");
    reveal_strlit("reason");
    assert("event_type"@.len() == 10 && "rule_id"@.len() == 7 && "node_id"@.len() == 7);
    assert("interface_name"@.len() == 14 && "direction"@.len() == 9);
    assert("timestamp_ms"@.len() == 12 && "reason"@.len() == 6);
    assert("rule_id"@[0] == 'r' && "node_id"@[0] == 'n');
}

/// The frame in which a stream sends a rule lifecycle event, if it carries it.
pub fn rule_event_frame(filter: Option<&str>, e: &RuleLifecycleEvent) -> (r: Option<String>)
    ensures
        match r {
            Some(s) => passes(text::opt_str(filter), e.node_id@) && s@ == json::printed_members(
                lifecycle_members(e@),
            ),
            None => !passes(text::opt_str(filter), e.node_id@),
        },
{
    if let Some(f) = filter {
        if !text::same(f, e.node_id.as_str()) {
            return None;
        }
    }
    let mut members: Vec<(String, Json)> = vec![
        ("event_type".to_string(), Json::Str(e.event_type.clone())),
        ("rule_id".to_string(), Json::Str(e.rule_id.clone())),
        ("node_id".to_string(), Json::Str(e.node_id.clone())),
        ("interface_name".to_string(), Json::Str(e.interface_name.clone())),
        ("direction".to_string(), Json::Str(e.direction.clone())),
        ("timestamp_ms".to_string(), Json::Number(JsonNumber::Unsigned(e.timestamp_ms))),
    ];
    if let Some(reason) = &e.reason {
        members.push(("reason".to_string(), Json::Str(reason.clone())));
    }
    proof {
        let turn = lifecycle_members(e@);
        assert(json::in_turn(members@) =~= turn);
        lemma_lifecycle_names(e@);
        assert forall|i: int, j: int| 0 <= i < j < members@.len() implies (
        #[trigger] members@[i]).0@ != (#[trigger] members@[j]).0@ by {
            assert(turn[i].0 == members@[i].0@);
            assert(turn[j].0 == members@[j].0@);
        }
    }
    Some(json::print_in_turn(members))
}

} // verus!
