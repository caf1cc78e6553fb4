//! What holds of every conversation with an agent.

use super::confirm;
use super::greeting::{self, StreamError};
use super::hub::HubView;
use super::outbox::{OutboxView, SendError};
use super::restore;
use super::stream::{self, Conversation, Inbound, World};
use crate::pending::registry::{GenerationView, OutcomeView};
use crate::proto::{AgentHello, AgentPayload, ConfigConfirm, ConfirmedAs, PayloadView};
use crate::store::model::StoreModel;
use crate::store::records::RuleView;
use crate::store::NodeStatus;
use crate::text;
use crate::timestamp::Timestamp;
use crate::ttl_reaper;
use vstd::prelude::*;

verus! {

/// An agent that is refused leaves no trace but an entry in the audit log: nothing of what
/// it told is put on record, and it does not count as connected.
pub proof fn refused_agent_changes_nothing(
    from: World,
    to: World,
    hello: AgentHello,
    channel: u64,
    now: Timestamp,
    r: Result<(), StreamError>,
)
    requires
        stream::greets(true, from, to, hello, channel, now, r),
        greeting::refusal(from.model, hello) is Some,
    ensures
        r matches Err(StreamError::Refused(_)),
        to.hub == from.hub,
        to.model == (StoreModel { audit: to.model.audit, ..from.model }),
        from.model.audit.len() <= to.model.audit.len(),
{
}

/// An agent whose node was decommissioned, or whose certificate was revoked, is refused.
pub proof fn revoked_or_inactive_is_refused(m: StoreModel, hello: AgentHello)
    requires
        m.nodes.contains_key(hello.node_id@),
        m.nodes[hello.node_id@].status != NodeStatus::Active || greeting::cert_revoked(
            m,
            m.nodes[hello.node_id@],
        ),
    ensures
        greeting::refusal(m, hello) is Some,
{
}

/// An agent that is not refused is online under the channel of its stream, and its node
/// was seen just now. Its interfaces and what else it told are on record already.
pub proof fn greeted_agent_is_online(
    from: World,
    to: World,
    hello: AgentHello,
    channel: u64,
    now: Timestamp,
    r: Result<(), StreamError>,
)
    requires
        stream::greets(true, from, to, hello, channel, now, r),
        greeting::refusal(from.model, hello) is None,
    ensures
        to.hub.sessions.contains_key(hello.node_id@),
        to.hub.sessions[hello.node_id@].channel == channel,
        to.model.nodes[hello.node_id@].last_seen == Some(now),
        to.model == greeting::introduced(from.model, hello, now),
{
}

/// Only an agent of an active node on record that speaks the same version of the protocol
/// comes to be connected, and nobody else is told anything but farewell: this holds of a
/// store that may fail, too.
pub proof fn only_admissible_agents_connect(
    sure: bool,
    from: World,
    to: World,
    hello: AgentHello,
    channel: u64,
    now: Timestamp,
    r: Result<(), StreamError>,
)
    requires
        stream::greets(sure, from, to, hello, channel, now, r),
    ensures
        to.hub != from.hub ==> greeting::admissible(from.model, hello),
        !greeting::admissible(from.model, hello) ==> to.model == from.model && to.hub == from.hub
            && r is Err && (to.out == from.out || exists|reason: Seq<char>|
            to.out == from.out.with(#[trigger] greeting::farewell(reason))),
{
}

/// A conversation that does not begin with a hello changes nothing.
pub proof fn silent_agent_changes_nothing(
    sure: bool,
    items: Seq<Inbound>,
    channel: u64,
    from: World,
    to: World,
    r: Result<String, StreamError>,
)
    requires
        stream::converses(sure, items, channel, from, to, r),
        items.len() > 0 ==> (items[0].item matches Ok(m) ==> !(m.payload matches Some(
            AgentPayload::Hello(_),
        ))),
    ensures
        to == from,
        r is Err,
{
}

/// No rule whose time to live has run out is among those that an agent is sent.
pub proof fn no_expired_rule_is_sent(all: Seq<RuleView>, now: Timestamp, i: int)
    requires
        0 <= i < restore::live(all, now).len(),
    ensures
        all.contains(restore::live(all, now)[i]),
        !ttl_reaper::ttl_expired(restore::live(all, now)[i], now),
{
    let keep = |r: RuleView| !ttl_reaper::ttl_expired(r, now);
    let live = all.filter(keep);
    assert(live.contains(live[i]));
    all.lemma_filter_contains_rev(keep, live[i]);
    all.lemma_filter_pred(keep, i);
}

/// Of the rules on record every one is sent whose time to live has not run out.
pub proof fn every_live_rule_is_sent(all: Seq<RuleView>, now: Timestamp, r: RuleView)
    requires
        all.contains(r),
        !ttl_reaper::ttl_expired(r, now),
    ensures
        restore::live(all, now).contains(r),
{
    broadcast use vstd::seq_lib::group_filter_ensures;

    let keep = |r: RuleView| !ttl_reaper::ttl_expired(r, now);
    assert(keep(r));
    let i = choose|i: int| 0 <= i < all.len() && all[i] == r;
    assert(all.filter(keep).contains(all[i]));
}

/// A generation is resolved once: when it was confirmed it is no longer in flight, so that
/// another confirmation finds nothing to commit.
pub proof fn generation_is_resolved_once(
    g: GenerationView,
    c: ConfigConfirm,
    before: StoreModel,
    after: StoreModel,
    dependable: bool,
    h: HubView,
    h_after: HubView,
    out: OutboxView,
    out_after: OutboxView,
    r: Result<(), SendError>,
)
    requires
        h.pending.take(c.generation_id@) == Some(g),
        confirm::handles_pending(
            g,
            c,
            before,
            after,
            dependable,
            h,
            h_after,
            out,
            out_after,
            r,
        ),
    ensures
        h_after.pending.take(c.generation_id@) is None,
        h_after.resolutions.len() == h.resolutions.len() + 1,
        h_after.resolutions.last().generation_id == g.generation_id,
{
}

/// Only what the agent has applied is committed: any other outcome leaves the store as it
/// was, sends nothing, and is told as a failure.
pub proof fn only_applied_is_committed(
    g: GenerationView,
    c: ConfigConfirm,
    before: StoreModel,
    after: StoreModel,
    dependable: bool,
    h: HubView,
    h_after: HubView,
    out: OutboxView,
    out_after: OutboxView,
    r: Result<(), SendError>,
)
    requires
        c.outcome != ConfirmedAs::Applied,
        confirm::handles_pending(
            g,
            c,
            before,
            after,
            dependable,
            h,
            h_after,
            out,
            out_after,
            r,
        ),
    ensures
        after == before,
        out_after == out,
        h_after.resolutions.last().outcome !is Applied,
{
}

/// The agent and the caller who waits are told the same: the change is acknowledged as
/// committed just when the caller is told that it was applied.
pub proof fn both_sides_are_told_the_same(
    g: GenerationView,
    c: ConfigConfirm,
    before: StoreModel,
    after: StoreModel,
    dependable: bool,
    h: HubView,
    h_after: HubView,
    out: OutboxView,
    out_after: OutboxView,
    r: Result<(), SendError>,
)
    requires
        c.outcome == ConfirmedAs::Applied,
        out.blocked() is None,
        confirm::handles_pending(
            g,
            c,
            before,
            after,
            dependable,
            h,
            h_after,
            out,
            out_after,
            r,
        ),
    ensures
        r is Ok,
        out_after.queue.last() matches Some(PayloadView::CommitAck(a)) && a.generation_id
            == c.generation_id@ && (a.committed <==> h_after.resolutions.last().outcome
            == OutcomeView::Applied),
{
}

/// Where a conversation leads that takes in `items` one by one and then the end of the
/// stream.
pub open spec fn leads(
    sure: bool,
    items: Seq<Inbound>,
    state: Conversation,
    channel: u64,
    from: World,
    to: World,
    r: Result<String, StreamError>,
) -> bool
    decreases items.len(),
{
    if items.len() == 0 {
        stream::steps(sure, state, None, channel, from, to, Conversation::Over(r))
    } else {
        exists|mid: World, next: Conversation|
            {
                &&& #[trigger] stream::steps(sure, state, Some(items[0]), channel, from, mid, next)
                &&& match next {
                    Conversation::Over(e) => to == mid && e == r,
                    _ => leads(sure, items.drop_first(), next, channel, mid, to, r),
                }
            }
    }
}

proof fn lemma_open_leads(
    sure: bool,
    items: Seq<Inbound>,
    node_id: String,
    hostname: Option<String>,
    channel: u64,
    from: World,
    to: World,
    r: Result<String, StreamError>,
)
    requires
        leads(sure, items, Conversation::Open { node_id, hostname }, channel, from, to, r),
    ensures
        match r {
            Ok(id) => id@ == node_id@ && stream::follows(
                sure,
                items,
                node_id@,
                text::opt_text(hostname),
                from,
                to,
                Ok(()),
            ),
            Err(StreamError::Send(e)) => stream::follows(
                sure,
                items,
                node_id@,
                text::opt_text(hostname),
                from,
                to,
                Err(e),
            ),
            Err(_) => false,
        },
    decreases items.len(),
{
    let state = Conversation::Open { node_id, hostname };
    if items.len() > 0 {
        let (mid, next): (World, Conversation) = choose|mid: World, next: Conversation|
            {
                &&& #[trigger] stream::steps(sure, state, Some(items[0]), channel, from, mid, next)
                &&& match next {
                    Conversation::Over(e) => to == mid && e == r,
                    _ => leads(sure, items.drop_first(), next, channel, mid, to, r),
                }
            };
        match next {
            Conversation::Open { node_id: n, hostname: h } => {
                lemma_open_leads(sure, items.drop_first(), n, h, channel, mid, to, r);
                assert(stream::handles_first(
                    sure,
                    items,
                    node_id@,
                    text::opt_text(hostname),
                    from,
                    mid,
                    Ok(()),
                ));
            },
            Conversation::Over(Err(StreamError::Send(e))) => {
                assert(stream::handles_first(
                    sure,
                    items,
                    node_id@,
                    text::opt_text(hostname),
                    from,
                    mid,
                    Err(e),
                ));
            },
            _ => {},
        }
    }
}

/// Taking in what an agent sends one by one leads where taking it in at once leads.
pub proof fn step_by_step_is_a_conversation(
    sure: bool,
    items: Seq<Inbound>,
    channel: u64,
    from: World,
    to: World,
    r: Result<String, StreamError>,
)
    requires
        leads(sure, items, Conversation::Waiting, channel, from, to, r),
    ensures
        stream::converses(sure, items, channel, from, to, r),
{
    if items.len() > 0 {
        let state = Conversation::Waiting;
        let (mid, next): (World, Conversation) = choose|mid: World, next: Conversation|
            {
                &&& #[trigger] stream::steps(sure, state, Some(items[0]), channel, from, mid, next)
                &&& match next {
                    Conversation::Over(e) => to == mid && e == r,
                    _ => leads(sure, items.drop_first(), next, channel, mid, to, r),
                }
            };
        match next {
            Conversation::Open { node_id, hostname } => {
                let hello = stream::hello_of(items[0])->Some_0;
                lemma_open_leads(sure, items.drop_first(), node_id, hostname, channel, mid, to, r);
                assert(stream::continues(sure, hello, items.drop_first(), Ok(()), mid, to, r));
            },
            Conversation::Over(Err(e)) => {
                if let Some(hello) = stream::hello_of(items[0]) {
                    assert(stream::continues(sure, hello, items.drop_first(), Err(e), mid, to, r));
                }
            },
            _ => {},
        }
    }
}

} // verus!
