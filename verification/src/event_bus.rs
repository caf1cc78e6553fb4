//! Batches of events on their way to subscribers.

use crate::store;
use vstd::prelude::*;

verus! {

/// A batch of events, tagged with the node that sent it.
pub struct TaggedEventBatch {
    pub node_id: String,
    pub timestamp_ns: u64,
    /// The events, each as JSON.
    pub events_json: Vec<Vec<u8>>,
}

/// What a batch of events holds.
pub struct EventBatchView {
    pub node_id: Seq<char>,
    pub timestamp_ns: u64,
    pub events_json: Seq<Seq<u8>>,
}

impl View for TaggedEventBatch {
    type V = EventBatchView;

    open spec fn view(&self) -> EventBatchView {
        EventBatchView {
            node_id: self.node_id@,
            timestamp_ns: self.timestamp_ns,
            events_json: store::byte_views(self.events_json@),
        }
    }
}

/// What batches of events hold.
pub open spec fn batch_views(v: Seq<TaggedEventBatch>) -> Seq<EventBatchView> {
    v.map_values(|b: TaggedEventBatch| b@)
}

} // verus!
