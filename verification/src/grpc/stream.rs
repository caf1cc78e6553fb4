//! The conversation with one agent, from its first message to its end.

use super::greeting::{self, greet, non_empty, StreamError};
use super::hub::{Hub, HubView};
use super::messages::{self, handle_message};
use super::outbox::{Outbox, OutboxView, SendError};
use crate::proto::{AgentHello, AgentMessage, AgentPayload};
use crate::session;
use crate::store::model::StoreModel;
use crate::store::ControllerStore;
use crate::text;
use crate::timestamp::Timestamp;
use vstd::prelude::*;

verus! {

broadcast use vstd::string::group_string_axioms;

/// Something that came from an agent, and when: a message, or the error with which its
/// stream failed.
pub struct Inbound {
    pub at: Timestamp,
    /// Milliseconds since the Unix epoch.
    pub at_ms: u64,
    pub item: Result<AgentMessage, String>,
}

/// Everything that a conversation can change.
pub struct World {
    pub model: StoreModel,
    pub hub: HubView,
    pub out: OutboxView,
}

/// What greeting an agent does to the world. `sure` tells whether the store never fails
/// on its own.
pub open spec fn greets(
    sure: bool,
    from: World,
    to: World,
    hello: AgentHello,
    channel: u64,
    now: Timestamp,
    r: Result<(), StreamError>,
) -> bool {
    &&& greeting::admits(
        from.model,
        to.model,
        from.hub,
        to.hub,
        from.out,
        to.out,
        hello,
        channel,
        now,
        r,
    )
    &&& sure ==> greeting::greets(
        from.model,
        to.model,
        from.hub,
        to.hub,
        from.out,
        to.out,
        hello,
        channel,
        now,
        r,
    )
}

/// What handling a message does to the world.
pub open spec fn handles(
    sure: bool,
    from: World,
    to: World,
    node_id: Seq<char>,
    hostname: Option<Seq<char>>,
    message: AgentMessage,
    at: Timestamp,
    at_ms: u64,
    r: Result<(), SendError>,
) -> bool {
    &&& messages::handles_anyway(
        from.model,
        to.model,
        from.hub,
        to.hub,
        from.out,
        to.out,
        node_id,
        hostname,
        message.payload,
        at,
        at_ms,
        r,
    )
    &&& sure ==> messages::handles(
        from.model,
        to.model,
        from.hub,
        to.hub,
        from.out,
        to.out,
        node_id,
        hostname,
        message.payload,
        at,
        at_ms,
        r,
    )
}

/// Where handling a message leads before the rest of the conversation.
pub open spec fn handles_first(
    sure: bool,
    items: Seq<Inbound>,
    node_id: Seq<char>,
    hostname: Option<Seq<char>>,
    from: World,
    mid: World,
    r: Result<(), SendError>,
) -> bool {
    items[0].item matches Ok(message) && handles(
        sure,
        from,
        mid,
        node_id,
        hostname,
        message,
        items[0].at,
        items[0].at_ms,
        r,
    )
}

/// Where the messages after the first lead: they are handled one after the other until
/// there are no more, the stream fails, or an answer cannot be sent. Only the last
/// makes the conversation end with an error.
pub open spec fn follows(
    sure: bool,
    items: Seq<Inbound>,
    node_id: Seq<char>,
    hostname: Option<Seq<char>>,
    from: World,
    to: World,
    r: Result<(), SendError>,
) -> bool
    decreases items.len(),
{
    if items.len() == 0 || items[0].item is Err {
        to == from && r is Ok
    } else {
        exists|mid: World, first: Result<(), SendError>|
            {
                &&& #[trigger] handles_first(sure, items, node_id, hostname, from, mid, first)
                &&& match first {
                    Ok(()) => follows(sure, items.drop_first(), node_id, hostname, mid, to, r),
                    Err(_) => to == mid && r == first,
                }
            }
    }
}

/// How a conversation ends after the greeting led to the world `mid`.
pub open spec fn continues(
    sure: bool,
    hello: AgentHello,
    rest: Seq<Inbound>,
    greeted: Result<(), StreamError>,
    mid: World,
    to: World,
    r: Result<String, StreamError>,
) -> bool {
    let hostname = greeting::given(hello.hostname@);
    match greeted {
        Ok(()) => match r {
            Ok(id) => id@ == hello.node_id@ && follows(
                sure,
                rest,
                hello.node_id@,
                hostname,
                mid,
                to,
                Ok(()),
            ),
            Err(StreamError::Send(e)) => follows(
                sure,
                rest,
                hello.node_id@,
                hostname,
                mid,
                to,
                Err(e),
            ),
            Err(_) => false,
        },
        Err(e) => to == mid && r == Err::<String, StreamError>(e),
    }
}

/// Where a conversation leads whose first message is a greeting.
pub open spec fn converses_with(
    sure: bool,
    hello: AgentHello,
    rest: Seq<Inbound>,
    channel: u64,
    now: Timestamp,
    from: World,
    to: World,
    r: Result<String, StreamError>,
) -> bool {
    exists|mid: World, greeted: Result<(), StreamError>|
        {
            &&& greets(sure, from, mid, hello, channel, now, greeted)
            &&& #[trigger] continues(sure, hello, rest, greeted, mid, to, r)
        }
}

/// Where a conversation leads.
pub open spec fn converses(
    sure: bool,
    items: Seq<Inbound>,
    channel: u64,
    from: World,
    to: World,
    r: Result<String, StreamError>,
) -> bool {
    if items.len() == 0 {
        to == from && r matches Err(StreamError::NoHello)
    } else {
        match items[0].item {
            Err(e) => to == from && (r matches Err(StreamError::Inbound(t)) && t == e),
            Ok(message) => match message.payload {
                Some(AgentPayload::Hello(hello)) => converses_with(
                    sure,
                    hello,
                    items.drop_first(),
                    channel,
                    items[0].at,
                    from,
                    to,
                    r,
                ),
                _ => to == from && (r matches Err(StreamError::NotHello(got)) && got
                    == message.payload),
            },
        }
    }
}

/// Handles the messages after the first.
fn follow<S: ControllerStore>(
    items: Vec<Inbound>,
    node_id: &str,
    hostname: &Option<String>,
    store: &mut S,
    hub: &mut Hub,
    out: &mut Outbox,
) -> (r: Result<(), SendError>)
    ensures
        final(store).dependable() == old(store).dependable(),
        follows(
            old(store).dependable(),
            items@,
            node_id@,
            text::opt_text(*hostname),
            (World { model: old(store).model(), hub: old(hub)@, out: old(out)@ }),
            (World { model: final(store).model(), hub: final(hub)@, out: final(out)@ }),
            r,
        ),
{
    let ghost all = items@;
    let ghost sure = store.dependable();
    let ghost host = text::opt_text(*hostname);
    let ghost start = World { model: store.model(), hub: hub@, out: out@ };
    let mut rest = items;
    while rest.len() > 0
        invariant
            store.dependable() == sure,
            sure == old(store).dependable(),
            all == items@,
            host == text::opt_text(*hostname),
            start == (World { model: old(store).model(), hub: old(hub)@, out: old(out)@ }),
            forall|to: World, r: Result<(), SendError>| #[trigger]
                follows(
                    sure,
                    rest@,
                    node_id@,
                    host,
                    (World { model: store.model(), hub: hub@, out: out@ }),
                    to,
                    r,
                ) ==> follows(sure, all, node_id@, host, start, to, r),
        decreases rest@.len(),
    {
        let ghost before = rest@;
        let ghost from = World { model: store.model(), hub: hub@, out: out@ };
        let next = rest.remove(0);
        assert(rest@ =~= before.drop_first());
        assert(next == before[0]);
        let message = match next.item {
            Ok(m) => m,
            Err(_) => {
                assert(follows(sure, before, node_id@, host, from, from, Ok(())));
                return Ok(());
            },
        };
        let handled = handle_message(
            store,
            hub,
            out,
            node_id,
            hostname,
            message.payload,
            next.at,
            next.at_ms,
        );
        let ghost mid = World { model: store.model(), hub: hub@, out: out@ };
        assert(handles_first(
            sure,
            before,
            node_id@,
            host,
            from,
            mid,
            handled,
        ));
        match handled {
            Ok(()) => {
                proof {
                    assert forall|to: World, r: Result<(), SendError>| #[trigger]
                        follows(sure, rest@, node_id@, host, mid, to, r) implies follows(
                        sure,
                        all,
                        node_id@,
                        host,
                        start,
                        to,
                        r,
                    ) by {
                        assert(handles_first(sure, before, node_id@, host, from, mid, Ok(())));
                        assert(follows(sure, before, node_id@, host, from, to, r));
                    }
                }
            },
            Err(e) => {
                assert(follows(sure, before, node_id@, host, from, mid, handled));
                return Err(e);
            },
        }
    }
    proof {
        let end = World { model: store.model(), hub: hub@, out: out@ };
        assert(follows(sure, rest@, node_id@, host, end, end, Ok(())));
    }
    Ok(())
}

/// The greeting that something from an agent holds, if it holds one.
pub open spec fn hello_of(first: Inbound) -> Option<AgentHello> {
    match first.item {
        Ok(message) => match message.payload {
            Some(AgentPayload::Hello(hello)) => Some(hello),
            _ => None,
        },
        Err(_) => None,
    }
}

/// What the first thing from an agent leads to: a greeting is answered, anything else
/// ends the conversation and changes nothing.
pub open spec fn opens(
    sure: bool,
    first: Inbound,
    channel: u64,
    from: World,
    to: World,
    r: Result<AgentHello, StreamError>,
) -> bool {
    match hello_of(first) {
        Some(hello) => match r {
            Ok(h) => h == hello && greets(sure, from, to, hello, channel, first.at, Ok(())),
            Err(e) => greets(sure, from, to, hello, channel, first.at, Err(e)),
        },
        None => to == from && match first.item {
            Ok(message) => r matches Err(StreamError::NotHello(got)) && got == message.payload,
            Err(text) => r matches Err(StreamError::Inbound(t)) && t == text,
        },
    }
}

/// Answers the first thing that came from an agent.
fn open<S: ControllerStore>(
    first: Inbound,
    out: &mut Outbox,
    store: &mut S,
    hub: &mut Hub,
    channel: u64,
) -> (r: Result<AgentHello, StreamError>)
    ensures
        final(store).dependable() == old(store).dependable(),
        opens(
            old(store).dependable(),
            first,
            channel,
            (World { model: old(store).model(), hub: old(hub)@, out: old(out)@ }),
            (World { model: final(store).model(), hub: final(hub)@, out: final(out)@ }),
            r,
        ),
{
    let message = match first.item {
        Ok(m) => m,
        Err(e) => {
            return Err(StreamError::Inbound(e));
        },
    };
    let hello = match message.payload {
        Some(AgentPayload::Hello(h)) => h,
        other => {
            return Err(StreamError::NotHello(other));
        },
    };
    match greet(store, hub, out, &hello, channel, first.at) {
        Ok(()) => Ok(hello),
        Err(e) => Err(e),
    }
}

/// How far a conversation has come.
pub enum Conversation {
    /// The agent has said nothing yet.
    Waiting,
    /// The agent was greeted.
    Open { node_id: String, hostname: Option<String> },
    /// The conversation is over.
    Over(Result<String, StreamError>),
}

/// Where one more thing from the agent leads a conversation. `None` stands for the end
/// of the stream.
pub open spec fn steps(
    sure: bool,
    before: Conversation,
    event: Option<Inbound>,
    channel: u64,
    from: World,
    to: World,
    after: Conversation,
) -> bool {
    match before {
        Conversation::Waiting => match event {
            None => to == from && after matches Conversation::Over(Err(StreamError::NoHello)),
            Some(first) => match after {
                Conversation::Open { node_id, hostname } => hello_of(first) matches Some(hello)
                    && opens(sure, first, channel, from, to, Ok(hello)) && node_id@ == hello.node_id@
                    && text::opt_text(hostname) == greeting::given(hello.hostname@),
                Conversation::Over(Err(e)) => opens(sure, first, channel, from, to, Err(e)),
                _ => false,
            },
        },
        Conversation::Open { node_id, hostname } => match event {
            Some(next) => match next.item {
                Ok(message) => match after {
                    Conversation::Open { node_id: n, hostname: h } => n@ == node_id@
                        && text::opt_text(h) == text::opt_text(hostname) && handles(
                        sure,
                        from,
                        to,
                        node_id@,
                        text::opt_text(hostname),
                        message,
                        next.at,
                        next.at_ms,
                        Ok(()),
                    ),
                    Conversation::Over(Err(StreamError::Send(e))) => handles(
                        sure,
                        from,
                        to,
                        node_id@,
                        text::opt_text(hostname),
                        message,
                        next.at,
                        next.at_ms,
                        Err(e),
                    ),
                    _ => false,
                },
                Err(_) => to == from && (after matches Conversation::Over(Ok(n)) && n@
                    == node_id@),
            },
            None => to == from && (after matches Conversation::Over(Ok(n)) && n@ == node_id@),
        },
        Conversation::Over(_) => to == from && after == before,
    }
}

/// Takes in one more thing from an agent, or the end of its stream: the conversation
/// as [`drive_stream`] leads it, for a caller that gets the messages one by one.
pub fn stream_step<S: ControllerStore>(
    state: Conversation,
    event: Option<Inbound>,
    out: &mut Outbox,
    store: &mut S,
    hub: &mut Hub,
    channel: u64,
) -> (r: Conversation)
    ensures
        final(store).dependable() == old(store).dependable(),
        steps(
            old(store).dependable(),
            state,
            event,
            channel,
            (World { model: old(store).model(), hub: old(hub)@, out: old(out)@ }),
            (World { model: final(store).model(), hub: final(hub)@, out: final(out)@ }),
            r,
        ),
{
    match state {
        Conversation::Waiting => match event {
            None => Conversation::Over(Err(StreamError::NoHello)),
            Some(first) => match open(first, out, store, hub, channel) {
                Ok(hello) => {
                    let hostname = non_empty(&hello.hostname);
                    Conversation::Open { node_id: hello.node_id, hostname }
                },
                Err(e) => Conversation::Over(Err(e)),
            },
        },
        Conversation::Open { node_id, hostname } => {
            let next = match event {
                Some(n) => n,
                None => {
                    return Conversation::Over(Ok(node_id));
                },
            };
            let message = match next.item {
                Ok(m) => m,
                Err(_) => {
                    return Conversation::Over(Ok(node_id));
                },
            };
            let handled = handle_message(
                store,
                hub,
                out,
                node_id.as_str(),
                &hostname,
                message.payload,
                next.at,
                next.at_ms,
            );
            match handled {
                Ok(()) => Conversation::Open { node_id, hostname },
                Err(e) => Conversation::Over(Err(StreamError::Send(e))),
            }
        },
        Conversation::Over(r) => Conversation::Over(r),
    }
}

/// The conversation with an agent: it is greeted, and then its messages are handled
/// one after the other. The id of the node is returned where the conversation came to
/// its end, be it that the stream failed.
pub fn drive_stream<S: ControllerStore>(
    inbound: Vec<Inbound>,
    out: &mut Outbox,
    store: &mut S,
    hub: &mut Hub,
    channel: u64,
) -> (r: Result<String, StreamError>)
    ensures
        final(store).dependable() == old(store).dependable(),
        converses(
            old(store).dependable(),
            inbound@,
            channel,
            (World { model: old(store).model(), hub: old(hub)@, out: old(out)@ }),
            (World { model: final(store).model(), hub: final(hub)@, out: final(out)@ }),
            r,
        ),
{
    let ghost all = inbound@;
    let ghost sure = store.dependable();
    let mut rest = inbound;
    if rest.len() == 0 {
        return Err(StreamError::NoHello);
    }
    let first = rest.remove(0);
    assert(rest@ =~= all.drop_first());
    let opened = open(first, out, store, hub, channel);
    let ghost mid = World { model: store.model(), hub: hub@, out: out@ };
    let hello = match opened {
        Ok(h) => h,
        Err(e) => {
            proof {
                if let Some(h) = hello_of(first) {
                    assert(continues(sure, h, all.drop_first(), Err(e), mid, mid, Err(e)));
                }
            }
            return Err(e);
        },
    };
    let hostname = non_empty(&hello.hostname);
    let followed = follow(rest, hello.node_id.as_str(), &hostname, store, hub, out);
    let r: Result<String, StreamError> = match followed {
        Ok(()) => Ok(hello.node_id.clone()),
        Err(e) => Err(StreamError::Send(e)),
    };
    proof {
        let end = World { model: store.model(), hub: hub@, out: out@ };
        assert(follows(
            sure,
            all.drop_first(),
            hello.node_id@,
            greeting::given(hello.hostname@),
            mid,
            end,
            followed,
        ));
        if followed is Ok {
            assert(followed->Ok_0 == ());
        }
        assert(continues(sure, hello, all.drop_first(), Ok(()), mid, end, r));
    }
    r
}

/// The end of a conversation: the session of the node ends, unless the node has
/// reconnected meanwhile. A conversation that ended with an error leaves the session as
/// it is.
pub fn finish_stream(hub: &mut Hub, ended: &Result<String, StreamError>, channel: u64)
    ensures
        final(hub)@ == (HubView {
            sessions: match ended {
                Ok(id) => session::torn_down(old(hub)@.sessions, id@, channel),
                Err(_) => old(hub)@.sessions,
            },
            ..old(hub)@
        }),
{
    if let Ok(id) = ended {
        hub.sessions.unregister_if_sender(id.as_str(), channel);
    }
}

} // verus!
