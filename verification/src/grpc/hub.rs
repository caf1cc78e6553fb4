//! What the streams of all agents share, beside the store.

use crate::event_bus::{self, EventBatchView, TaggedEventBatch};
use crate::metrics_store::{MetricsStore, MetricsView};
use crate::pending::registry::{RegistryView, ResolutionView};
use crate::pending::{self, PendingRegistry, Resolution};
use crate::rule_lifecycle_bus::{self, LifecycleView, RuleLifecycleEvent};
use crate::session::{NodeSessionManager, SessionView};
use vstd::prelude::*;

verus! {

/// What the streams of all agents share, and what is to be told to others.
pub struct Hub {
    pub sessions: NodeSessionManager,
    pub metrics: MetricsStore,
    pub pending: PendingRegistry,
    /// Batches of events to be published, oldest first.
    pub events: Vec<TaggedEventBatch>,
    /// Rule lifecycle events to be published, oldest first.
    pub lifecycle: Vec<RuleLifecycleEvent>,
    /// Generations whose waiters are to be told, oldest first.
    pub resolutions: Vec<Resolution>,
}

/// What a hub holds.
#[verifier::ext_equal]
pub struct HubView {
    pub sessions: Map<Seq<char>, SessionView>,
    pub metrics: Map<Seq<char>, MetricsView>,
    pub pending: RegistryView,
    pub events: Seq<EventBatchView>,
    pub lifecycle: Seq<LifecycleView>,
    pub resolutions: Seq<ResolutionView>,
}

impl View for Hub {
    type V = HubView;

    open spec fn view(&self) -> HubView {
        HubView {
            sessions: self.sessions@,
            metrics: self.metrics@,
            pending: self.pending@,
            events: event_bus::batch_views(self.events@),
            lifecycle: rule_lifecycle_bus::lifecycle_views(self.lifecycle@),
            resolutions: pending::resolution_views(self.resolutions@),
        }
    }
}

impl HubView {
    /// Nobody is connected, nothing is in flight, and nothing is to be told.
    pub open spec fn empty() -> HubView {
        HubView {
            sessions: Map::empty(),
            metrics: Map::empty(),
            pending: RegistryView::empty(),
            events: Seq::empty(),
            lifecycle: Seq::empty(),
            resolutions: Seq::empty(),
        }
    }
}

impl Hub {
    /// Nobody is connected, nothing is in flight, and nothing is to be told.
    pub fn new() -> (h: Self)
        ensures
            h@ == HubView::empty(),
    {
        let h = Hub {
            sessions: NodeSessionManager::new(),
            metrics: MetricsStore::new(),
            pending: PendingRegistry::new(),
            events: Vec::new(),
            lifecycle: Vec::new(),
            resolutions: Vec::new(),
        };
        assert(h@ =~= HubView::empty());
        h
    }

    /// Notes that the waiters of a generation are to be told.
    pub fn resolve(&mut self, r: Resolution)
        ensures
            final(self)@ == (HubView { resolutions: old(self)@.resolutions.push(r@), ..old(self)@ }),
    {
        let ghost before = pending::resolution_views(self.resolutions@);
        self.resolutions.push(r);
        assert(pending::resolution_views(self.resolutions@) =~= before.push(r@));
    }

    /// Notes that a rule lifecycle event is to be published.
    pub fn publish_lifecycle(&mut self, e: RuleLifecycleEvent)
        ensures
            final(self)@ == (HubView { lifecycle: old(self)@.lifecycle.push(e@), ..old(self)@ }),
    {
        let ghost before = rule_lifecycle_bus::lifecycle_views(self.lifecycle@);
        self.lifecycle.push(e);
        assert(rule_lifecycle_bus::lifecycle_views(self.lifecycle@) =~= before.push(e@));
    }

    /// Notes that a batch of events is to be published.
    pub fn publish_events(&mut self, b: TaggedEventBatch)
        ensures
            final(self)@ == (HubView { events: old(self)@.events.push(b@), ..old(self)@ }),
    {
        let ghost before = event_bus::batch_views(self.events@);
        self.events.push(b);
        assert(event_bus::batch_views(self.events@) =~= before.push(b@));
    }
}

} // verus!
