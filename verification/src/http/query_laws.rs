//! What callers of the HTTP API ask for, and what of the fleet's metrics they are served.

use super::alerts::{self, AlertHistoryQuery, HistoryFilter};
use super::events::{self, Action, Direction, EventFilter, EventsQuery, GroupBy};
use super::login::{self, Revocation};
use super::metrics;
use super::streams::{self, TokenLookup};
use super::Reply;
use crate::event_bus::TaggedEventBatch;
use crate::json::{self, JsonView};
use crate::metrics_store::{MetricsStore, MetricsView};
use crate::rule_lifecycle_bus::RuleLifecycleEvent;
use crate::timestamp::{self, DateReading};
use vstd::prelude::*;

verus! {

/// Whether a number is that of the moment which a text names in nanoseconds, if there is a
/// text.
pub open spec fn names_nanosecond(n: Option<i64>, bound: Option<String>) -> bool {
    &&& n is Some <==> bound is Some
    &&& bound matches Some(s) ==> (timestamp::rfc3339_reading(s@) matches DateReading::At {
        secs,
        nanos,
    } && n->0 == secs * 1000000000 + nanos)
}

/// Whether a number is that of the second which a text names, if there is a text.
pub open spec fn names_second(n: Option<i64>, bound: Option<String>) -> bool {
    &&& n is Some <==> bound is Some
    &&& bound matches Some(s) ==> (timestamp::rfc3339_reading(s@) matches DateReading::At {
        secs,
        nanos: _,
    } && n->0 == secs)
}

/// Events are looked for from the moment that a query names as its first to that which it
/// names as its last, by the source and the destination port that it names as such, and by
/// whatever else it names.
pub proof fn events_are_looked_for_as_asked(q: EventsQuery, f: EventFilter)
    requires
        events::looks_for(q, f),
    ensures
        names_nanosecond(f.since_ns, q.since),
        names_nanosecond(f.until_ns, q.until),
        f.action is Some <==> q.action is Some,
        q.action is Some ==> (f.action->0 is Drop <==> q.action->0@ == "drop"@) && (f.action->0
            is Log <==> q.action->0@ == "log"@),
        f.rule_id == q.rule_id,
        f.node_id == q.node_id,
        f.sport == q.sport,
        f.dport == q.dport,
        f.proto == q.proto,
        f.sni_like == q.sni_like,
        f.cursor == q.cursor,
{
    reveal_strlit("drop");
    reveal_strlit("log");
    assert("drop"@.len() != "log"@.len());
}

/// Alerts are looked for from the second that a query names as its first to that which it
/// names as its last, and by the rule that it names.
pub proof fn alerts_are_looked_for_as_asked(q: AlertHistoryQuery, f: HistoryFilter)
    requires
        alerts::looks_for(q, f),
    ensures
        names_second(f.since, q.since),
        names_second(f.until, q.until),
        f.rule_id == q.rule_id,
        f.cursor == q.cursor,
{
}

/// The words by which callers name an action and a direction, and by what they may have
/// events counted. Only minutes and hours are buckets in time.
pub proof fn words_name_what_they_say(g: GroupBy)
    ensures
        Action::Drop.word() == "drop"@ && Action::Log.word() == "log"@,
        Direction::Ingress.word() == "ingress"@ && Direction::Egress.word() == "egress"@,
        g.word() == "src_ip"@ <==> g is SrcIp,
        g.word() == "dst_ip"@ <==> g is DstIp,
        g.word() == "rule_id"@ <==> g is RuleId,
        g.word() == "node_id"@ <==> g is NodeId,
        g.word() == "action"@ <==> g is Action,
        g.word() == "minute"@ <==> g is Minute,
        g.word() == "hour"@ <==> g is Hour,
        g is Minute ==> g.unit() == 60 * 1000,
        g is Hour ==> g.unit() == 60 * 60 * 1000,
{
    reveal_strlit("src_ip");
    reveal_strlit("dst_ip");
    reveal_strlit("rule_id");
    reveal_strlit("node_id");
    reveal_strlit("action");
    reveal_strlit("minute");
    reveal_strlit("hour");
    assert("src_ip"@.len() == 6 && "dst_ip"@.len() == 6 && "action"@.len() == 6
        && "minute"@.len() == 6);
    assert("src_ip"@[0] == 's' && "dst_ip"@[0] == 'd' && "action"@[0] == 'a' && "minute"@[0]
        == 'm');
    assert("rule_id"@.len() == 7 && "node_id"@.len() == 7 && "hour"@.len() == 4);
    assert("rule_id"@[0] == 'r' && "node_id"@[0] == 'n');
}

/// Whether a text holds the block of a node: a line that names it, what is said of it, and
/// an empty line.
pub open spec fn holds_block(out: Seq<char>, node_id: Seq<char>, body: Seq<char>) -> bool {
    exists|before: Seq<char>, behind: Seq<char>|
        out == #[trigger] (before + ("# node: "@ + node_id + "\n"@ + body + "\n"@) + behind)
}

/// Whoever is served the metrics of all nodes is served those of every one, under a line
/// that names the node and with its labels; instead of bytes that are no text there is a
/// comment.
pub proof fn every_node_is_served(
    out: Seq<char>,
    ids: Seq<Seq<char>>,
    store: Map<Seq<char>, MetricsView>,
    own: Seq<char>,
    id: Seq<char>,
)
    requires
        metrics::serves_all(out, ids, store, own),
        store.contains_key(id),
    ensures
        vstd::utf8::valid_utf8(store[id].prometheus_text) ==> holds_block(
            out,
            id,
            metrics::labeled(
                store[id],
                id,
                vstd::utf8::decode_utf8(store[id].prometheus_text),
            ),
        ),
        !vstd::utf8::valid_utf8(store[id].prometheus_text) ==> holds_block(
            out,
            id,
            "# (non-UTF-8 metrics, skipped)\n"@,
        ),
{
    assert(store.dom().contains(id));
    assert(ids.contains(id));
    let i = choose|i: int| 0 <= i < ids.len() && ids[i] == id;
    lemma_block(ids, store, i);
    let before = metrics::node_blocks(ids.take(i), store);
    let behind = lemma_behind(ids, store, i);
    let block = metrics::node_block(store[id], id);
    assert(out =~= before + block + (behind + own));
}

/// The blocks up to one end with it.
proof fn lemma_block(ids: Seq<Seq<char>>, store: Map<Seq<char>, MetricsView>, i: int)
    requires
        0 <= i < ids.len(),
    ensures
        metrics::node_blocks(ids.take(i + 1), store) == metrics::node_blocks(ids.take(i), store)
            + metrics::node_block(store[ids[i]], ids[i]),
{
    assert(ids.take(i + 1).drop_last() =~= ids.take(i));
    assert(ids.take(i + 1).last() == ids[i]);
}

/// What stands behind the block of a node.
proof fn lemma_behind(ids: Seq<Seq<char>>, store: Map<Seq<char>, MetricsView>, i: int) -> (behind:
    Seq<char>)
    requires
        0 <= i < ids.len(),
    ensures
        metrics::node_blocks(ids, store) == metrics::node_blocks(ids.take(i), store)
            + metrics::node_block(store[ids[i]], ids[i]) + behind,
    decreases ids.len(),
{
    if i == ids.len() - 1 {
        lemma_block(ids, store, i);
        assert(ids.take(i + 1) =~= ids);
        let behind = Seq::<char>::empty();
        assert(metrics::node_blocks(ids, store) =~= metrics::node_blocks(ids.take(i), store)
            + metrics::node_block(store[ids[i]], ids[i]) + behind);
        behind
    } else {
        let front = ids.drop_last();
        let earlier = lemma_behind(front, store, i);
        assert(front.take(i) =~= ids.take(i));
        let behind = earlier + metrics::node_block(store[ids.last()], ids.last());
        assert(metrics::node_blocks(ids, store) =~= metrics::node_blocks(ids.take(i), store)
            + metrics::node_block(store[ids[i]], ids[i]) + behind);
        behind
    }
}

/// The controller's own metrics end what is served: those of the fleet where there are any,
/// those of its events, and those of its alerts, in this order, each under its heading.
pub proof fn own_metrics_stand_under_their_headings(
    fleet: Seq<char>,
    events: Seq<char>,
    alerts: Seq<char>,
)
    ensures
        fleet.len() == 0 ==> metrics::own_blocks(fleet, events, alerts)
            == "\n# event pipeline metrics\n"@ + events + "\n# alert pipeline metrics\n"@
            + alerts,
        fleet.len() > 0 ==> metrics::own_blocks(fleet, events, alerts)
            == "# controller fleet metrics\n"@ + fleet + metrics::own_blocks(
            Seq::empty(),
            events,
            alerts,
        ),
{
    let nobody = metrics::own_blocks(Seq::empty(), events, alerts);
    assert(nobody =~= "\n# event pipeline metrics\n"@ + events + "\n# alert pipeline metrics\n"@
        + alerts);
    if fleet.len() == 0 {
        assert(fleet =~= Seq::<char>::empty());
    } else {
        assert(metrics::own_blocks(fleet, events, alerts) =~= "# controller fleet metrics\n"@
            + fleet + nobody);
    }
}

/// However many rows are asked for, at least one and at most ten thousand are shown; within
/// these bounds it is as many as were asked for, or the default where nobody asks.
pub proof fn limit_is_kept_within_bounds(asked: Option<i64>, default: i64, n: i64)
    requires
        call_ensures(super::clamp_limit, (asked, default), n),
    ensures
        1 <= n <= 10000,
        asked matches Some(k) ==> (1 <= k <= 10000 ==> n == k) && (k < 1 ==> n == 1) && (k > 10000
            ==> n == 10000),
        asked is None && 1 <= default <= 10000 ==> n == default,
{
}

/// A stream is opened for a token that is on record, and for nothing else: whoever brings
/// none, an empty one, or one that is not known or could not be looked up is unauthorized.
pub proof fn stream_opens_for_a_known_token(
    token: Option<&str>,
    presented: Result<&str, Reply>,
    lookup: TokenLookup,
    r: Result<(), Reply>,
)
    requires
        call_ensures(streams::presented_token, (token,), presented),
        call_ensures(streams::authorize_ws_token, (lookup,), r),
    ensures
        presented is Ok <==> token is Some && token->0@.len() > 0,
        presented matches Ok(t) ==> t@ == token->0@,
        presented matches Err(e) ==> e.status == 401,
        r is Ok <==> lookup is Known,
        r matches Err(e) ==> e.status == 401,
{
}

/// A stream that is limited to a node is sent nothing of another.
pub proof fn limited_stream_shows_one_node(
    filter: &str,
    batch: TaggedEventBatch,
    v: Vec<String>,
    e: RuleLifecycleEvent,
    frame: Option<String>,
)
    requires
        call_ensures(streams::batch_frames, (Some(filter), &batch), v),
        call_ensures(streams::rule_event_frame, (Some(filter), &e), frame),
    ensures
        batch.node_id@ != filter@ ==> v@.len() == 0,
        frame is Some <==> e.node_id@ == filter@,
{
    assert(crate::text::texts(v@).len() == v@.len());
}

/// Whoever logs out is told whether a token of theirs was revoked; without a token in the
/// request there was none.
pub proof fn logout_tells_what_was_revoked(revocation: Revocation, r: Reply)
    requires
        call_ensures(login::logout_reply, (revocation,), r),
    ensures
        revocation is Failed <==> r.status == 500,
        revocation is NoToken ==> r.status == 200 && r.body@ == json::printed_json(
            JsonView::Object(
                Map::<Seq<char>, JsonView>::empty().insert("revoked"@, JsonView::Bool(false)),
            ),
        ),
        revocation matches Revocation::Done(b) ==> r.status == 200 && r.body@
            == json::printed_json(
            JsonView::Object(
                Map::<Seq<char>, JsonView>::empty().insert("revoked"@, JsonView::Bool(b)),
            ),
        ),
{
}

/// Metrics of a node are served where there are any, and labeled with the node; of a node
/// without any it is told that there are none.
pub proof fn node_is_served_its_metrics(store: MetricsStore, node_id: &str, r: Reply)
    requires
        call_ensures(metrics::metrics_node, (&store, node_id), r),
    ensures
        store@.contains_key(node_id@) <==> r.status == 200,
        !store@.contains_key(node_id@) <==> r.status == 404,
        store@.contains_key(node_id@) && vstd::utf8::valid_utf8(store@[node_id@].prometheus_text)
            ==> r.body@ == metrics::labeled(
            store@[node_id@],
            node_id@,
            vstd::utf8::decode_utf8(store@[node_id@].prometheus_text),
        ),
{
}

/// A query is refused just where it names a moment that is none, or is too far away to be
/// counted, or an action that there is not.
pub proof fn query_is_refused_just_where(q: EventsQuery, r: Result<EventFilter, String>)
    requires
        call_ensures(events::build_filter, (&q,), r),
    ensures
        r is Ok <==> {
            &&& counts_in_nanoseconds(q.since)
            &&& counts_in_nanoseconds(q.until)
            &&& q.action is Some ==> q.action->0@ == "drop"@ || q.action->0@ == "log"@
        },
{
}

/// Whether a text that may be given names a moment that can be counted in nanoseconds.
pub open spec fn counts_in_nanoseconds(bound: Option<String>) -> bool {
    bound matches Some(s) ==> (timestamp::rfc3339_reading(s@) matches DateReading::At {
        secs,
        nanos,
    } && i64::MIN <= secs * 1000000000 + nanos <= i64::MAX)
}

} // verus!
