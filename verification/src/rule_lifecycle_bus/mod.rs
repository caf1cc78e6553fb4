//! What subscribers are told of the life of rules.

use crate::text;
use vstd::prelude::*;

verus! {

/// A controller-side rule lifecycle event broadcast to UI subscribers.
pub struct RuleLifecycleEvent {
    /// "created" | "deleted" | "expired"
    pub event_type: String,
    pub rule_id: String,
    pub node_id: String,
    pub interface_name: String,
    /// "INGRESS" | "EGRESS"
    pub direction: String,
    pub timestamp_ms: u64,
    pub reason: Option<String>,
}

/// What a rule lifecycle event holds.
pub struct LifecycleView {
    pub event_type: Seq<char>,
    pub rule_id: Seq<char>,
    pub node_id: Seq<char>,
    pub interface_name: Seq<char>,
    pub direction: Seq<char>,
    pub timestamp_ms: u64,
    pub reason: Option<Seq<char>>,
}

impl View for RuleLifecycleEvent {
    type V = LifecycleView;

    open spec fn view(&self) -> LifecycleView {
        LifecycleView {
            event_type: self.event_type@,
            rule_id: self.rule_id@,
            node_id: self.node_id@,
            interface_name: self.interface_name@,
            direction: self.direction@,
            timestamp_ms: self.timestamp_ms,
            reason: text::opt_text(self.reason),
        }
    }
}

/// What rule lifecycle events hold.
pub open spec fn lifecycle_views(v: Seq<RuleLifecycleEvent>) -> Seq<LifecycleView> {
    v.map_values(|e: RuleLifecycleEvent| e@)
}

} // verus!
