//! The messages that wait to be sent to an agent.

use crate::proto::{ControllerMessage, PayloadView};
use vstd::prelude::*;

verus! {

broadcast use vstd::string::group_string_axioms;

/// Capacity of the buffered outbound channel that sits between the inbound
/// reader / session pushes and the response channel. Larger than the
/// response channel so transient bursts are absorbed; if it fills, the agent has
/// genuinely stopped draining and the stream is torn down (see [`enqueue`]).
pub const OUTBOUND_BUFFER: usize = 256;

/// The messages that wait to be sent to an agent.
pub struct Outbox {
    /// How many messages can wait.
    pub capacity: usize,
    /// Whether nobody reads the messages any more.
    pub closed: bool,
    pub queue: Vec<ControllerMessage>,
}

/// What an outbox holds.
pub struct OutboxView {
    pub capacity: nat,
    pub closed: bool,
    pub queue: Seq<Option<PayloadView>>,
}

/// What messages hold.
pub open spec fn message_views(v: Seq<ControllerMessage>) -> Seq<Option<PayloadView>> {
    v.map_values(|m: ControllerMessage| m@)
}

impl View for Outbox {
    type V = OutboxView;

    open spec fn view(&self) -> OutboxView {
        OutboxView {
            capacity: self.capacity as nat,
            closed: self.closed,
            queue: message_views(self.queue@),
        }
    }
}

/// Why a message cannot be sent.
#[derive(Clone, Copy, Debug, PartialEq, Eq, Structural)]
pub enum SendError {
    /// The agent has stopped draining the stream.
    Full,
    /// Nobody reads the messages any more.
    Closed,
}

impl SendError {
    /// The text of the error.
    pub open spec fn message(self) -> Seq<char> {
        match self {
            SendError::Full => "outbound buffer full — agent not draining; closing stream"@,
            SendError::Closed => "outbound channel closed"@,
        }
    }

    /// The text of the error.
    pub fn to_text(&self) -> (s: String)
        ensures
            s@ == self.message(),
    {
        match self {
            SendError::Full =>
                "outbound buffer full — agent not draining; closing stream".to_string(),
            SendError::Closed => "outbound channel closed".to_string(),
        }
    }
}

impl OutboxView {
    /// Why no message can be sent now, if none can.
    pub open spec fn blocked(self) -> Option<SendError> {
        if self.closed {
            Some(SendError::Closed)
        } else if self.queue.len() >= self.capacity {
            Some(SendError::Full)
        } else {
            None
        }
    }

    /// With a message at the end, where it can be sent.
    pub open spec fn with(self, p: PayloadView) -> OutboxView {
        if self.blocked() is None {
            OutboxView { queue: self.queue.push(Some(p)), ..self }
        } else {
            self
        }
    }
}

impl Outbox {
    /// An outbox in which `capacity` messages can wait.
    pub fn new(capacity: usize) -> (o: Self)
        ensures
            o@ == (OutboxView { capacity: capacity as nat, closed: false, queue: Seq::empty() }),
    {
        let o = Outbox { capacity, closed: false, queue: Vec::new() };
        assert(o@.queue =~= Seq::<Option<PayloadView>>::empty());
        o
    }
}

/// Enqueue an outbound message **without blocking**. A full buffer means the agent has
/// stopped draining the stream; returning an error tears the connection down so the
/// agent reconnects and re-syncs, rather than parking the inbound reader on a
/// back-pressured send — which deadlocks the bidirectional stream (both ends blocked
/// on sending, so neither reads and neither send window reopens).
pub fn enqueue(out: &mut Outbox, msg: ControllerMessage) -> (r: Result<(), SendError>)
    ensures
        match r {
            Ok(()) => old(out)@.blocked() is None && final(out)@ == (OutboxView {
                queue: old(out)@.queue.push(msg@),
                ..old(out)@
            }),
            Err(e) => old(out)@.blocked() == Some(e) && final(out)@ == old(out)@,
        },
{
    if out.closed {
        return Err(SendError::Closed);
    }
    if out.queue.len() >= out.capacity {
        return Err(SendError::Full);
    }
    let ghost before = message_views(out.queue@);
    out.queue.push(msg);
    assert(message_views(out.queue@) =~= before.push(msg@));
    Ok(())
}

} // verus!
