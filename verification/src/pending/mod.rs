//! In-memory registry of in-flight config generations awaiting agent confirmation.
//!
//! Each config-mutating request issues a generation, captures the intended
//! store mutation as a `PendingOp`, and pushes the change to the agent. The DB is
//! only updated after the agent replies with `ConfigConfirm{APPLIED}` and the
//! controller commits. Watchdog reaping handles the case where the agent never
//! replies (marks the generation abandoned and drops the op — the agent will have
//! reverted locally).

pub mod laws;
pub mod op;
pub mod registry;

pub use op::PendingOp;
pub use registry::{
    outcome_tag, BeginError, ConfirmOutcome, PendingGeneration, PendingGenerationView,
    PendingRegistry, Resolution,
};

use crate::proto::ControllerMessage;
use crate::session::NodeSessionManager;
use crate::store::model::StoreModel;
use crate::store::records::{NewAuditView, NodeRecord};
use crate::store::{self, ControllerStore, NewAuditEntry, StoreError};
use crate::text;
use crate::timestamp::Timestamp;
use registry::{GenerationView, OutcomeView, RegistryView, ResolutionView};
use vstd::prelude::*;

verus! {

broadcast use vstd::string::group_string_axioms;

/// Default window the agent has to confirm before the controller gives up.
/// 30 s accommodates first-boot BPF loading (XDP verifier + JIT can take 10–25 s).
pub const DEFAULT_CONFIRM_DEADLINE_MS: u32 = 30_000;

/// How much longer than the agent's deadline the controller waits, so that the
/// watchdog has a chance to reap first.
pub const WAIT_MARGIN_MS: u64 = 1_000;

/// The tenant under which an op on a node is noted, given what looking the node up
/// came to: the node's own; the default one where the store failed; none where
/// there is no such node.
pub open spec fn op_tenant(lookup: Result<Option<NodeRecord>, StoreError>) -> Option<Seq<char>> {
    match lookup {
        Ok(Some(n)) => Some(n.tenant_id@),
        Ok(None) => None,
        Err(_) => Some("default"@),
    }
}

/// The tenant under which an op on a node is noted, given what looking the node up
/// came to.
///
/// A store that fails does not fail the op: the pending view will be slightly
/// mis-tagged but the push to the agent proceeds.
pub fn tenant_of_lookup(lookup: Result<Option<NodeRecord>, StoreError>) -> (r: Option<String>)
    ensures
        text::opt_text(r) == op_tenant(lookup),
{
    match lookup {
        Ok(Some(n)) => Some(n.tenant_id),
        Ok(None) => None,
        Err(_) => Some(store::default_tenant()),
    }
}

/// What beginning an op comes to.
pub enum Begun {
    /// The op is not sent; this is its outcome.
    Refused(ConfirmOutcome),
    /// The op is in flight; the message is to be sent to the node.
    Sent { node_id: String, generation_id: String, message: ControllerMessage },
}

/// What is told of a node that is not connected.
pub open spec fn not_connected(node: Seq<char>) -> Seq<char> {
    "Node "@ + node + " is not currently connected"@
}

/// What is told of a node that has no record.
pub open spec fn no_record(node: Seq<char>) -> Seq<char> {
    "Node "@ + node + " has no record in the store"@
}

/// What is told of a node to which the message could not be sent.
pub open spec fn not_sent(node: Seq<char>) -> Seq<char> {
    "Failed to send config to node "@ + node + " (disconnected?)"@
}

/// What beginning an op does once its tenant is known: the node's generation
/// begins, unless it has one in flight.
pub open spec fn op_begun(
    op: PendingOp,
    tenant: Option<Seq<char>>,
    deadline_ms: u32,
    issued_at: Timestamp,
    now_ms: u64,
    before: RegistryView,
    after: RegistryView,
    r: Result<Begun, BeginError>,
) -> bool {
    match (tenant, r) {
        (None, Ok(Begun::Refused(o))) => o@ == OutcomeView::Rejected(no_record(op.node())) && after
            == before,
        (Some(t), Ok(Begun::Sent { node_id, generation_id, message })) => {
            &&& !before.by_node.contains_key(op.node())
            &&& node_id@ == op.node()
            &&& crate::ids::uuid_shaped(generation_id@)
            &&& message@ == Some(op.message(generation_id@, deadline_ms))
            &&& after == before.begun(
                GenerationView {
                    generation_id: generation_id@,
                    issued_at,
                    deadline: (now_ms + deadline_ms) as u64,
                    op,
                    tenant_slug: t,
                },
            )
        },
        (Some(_), Err(BeginError::Blocked { node_id, existing_gen })) => {
            &&& before.by_node.contains_key(op.node())
            &&& node_id@ == op.node()
            &&& existing_gen@ == before.by_node[op.node()].generation_id
            &&& after == before
        },
        _ => false,
    }
}

/// Whether that is the tenant of a node: the one on record, and none where there is no
/// record. Where the store fails it is the default one.
pub open spec fn tenant_fits(
    m: StoreModel,
    node_id: Seq<char>,
    tenant: Option<Seq<char>>,
    dependable: bool,
) -> bool {
    match tenant {
        Some(t) => (m.nodes.contains_key(node_id) && t == m.nodes[node_id].tenant_id) || (
        !dependable && t == "default"@),
        None => !m.nodes.contains_key(node_id),
    }
}

/// Begins an op whose tenant has been looked up.
pub fn begin_with_tenant(
    op: PendingOp,
    tenant: Option<String>,
    registry: &mut PendingRegistry,
    deadline_ms: u32,
    issued_at: Timestamp,
    now_ms: u64,
) -> (r: Result<Begun, BeginError>)
    requires
        now_ms + deadline_ms <= u64::MAX,
    ensures
        op_begun(
            op,
            text::opt_text(tenant),
            deadline_ms,
            issued_at,
            now_ms,
            old(registry)@,
            final(registry)@,
            r,
        ),
{
    let node_id = op.node_id().to_string();
    let tenant_slug = match tenant {
        Some(t) => t,
        None => {
            return Ok(
                Begun::Refused(
                    ConfirmOutcome::Rejected(
                        text::concat3("Node ", node_id.as_str(), " has no record in the store"),
                    ),
                ),
            );
        },
    };
    if let Some(existing_gen) = registry.generation_of(node_id.as_str()) {
        return Err(BeginError::Blocked { node_id, existing_gen });
    }
    let generation_id = crate::ids::new_uuid();
    let message = op.to_controller_message(generation_id.as_str(), deadline_ms);
    match registry.begin_as(
        generation_id.clone(),
        op,
        tenant_slug,
        issued_at,
        now_ms + deadline_ms as u64,
    ) {
        Ok(()) => Ok(Begun::Sent { node_id, generation_id, message }),
        Err(e) => Err(e),
    }
}

/// Registers an op as in flight and sends it: the first half of applying it.
///
/// The controller holds the payload in memory until the agent confirms; only
/// then is it committed to the store. If the agent is offline, rejects, reverts,
/// or times out, the store is never touched.
///
/// The generation is tagged with the target node's tenant so that readers can
/// filter correctly: the node is authoritative for its own tenant.
pub fn begin_pending_op<S: ControllerStore>(
    op: PendingOp,
    registry: &mut PendingRegistry,
    sessions: &NodeSessionManager,
    store: &S,
    deadline_ms: u32,
    issued_at: Timestamp,
    now_ms: u64,
) -> (r: Result<Begun, BeginError>)
    requires
        now_ms + deadline_ms <= u64::MAX,
    ensures
        !sessions@.contains_key(op.node()) ==> (r matches Ok(Begun::Refused(o)) && o@
            == OutcomeView::Rejected(not_connected(op.node())) && final(registry)@ == old(
            registry,
        )@),
        sessions@.contains_key(op.node()) ==> exists|tenant: Option<Seq<char>>| #[trigger]
            op_begun(
                op,
                tenant,
                deadline_ms,
                issued_at,
                now_ms,
                old(registry)@,
                final(registry)@,
                r,
            ) && tenant_fits(store.model(), op.node(), tenant, store.dependable()),
{
    let node_id = op.node_id().to_string();
    if !sessions.is_online(node_id.as_str()) {
        // Not a gating failure — its own outcome, so that the caller can
        // distinguish "node disconnected" from "node busy".
        return Ok(
            Begun::Refused(
                ConfirmOutcome::Rejected(
                    text::concat3("Node ", node_id.as_str(), " is not currently connected"),
                ),
            ),
        );
    }
    let tenant = tenant_of_lookup(store.get_node(node_id.as_str()));
    begin_with_tenant(op, tenant, registry, deadline_ms, issued_at, now_ms)
}

/// What becomes of an op whose message could not be sent: the agent dropped after
/// the generation began, so the slot is taken back.
pub fn push_failed(registry: &mut PendingRegistry, node_id: &str, generation_id: &str) -> (r: (
    ConfirmOutcome,
    Option<Resolution>,
))
    ensures
        r.0@ == OutcomeView::Rejected(not_sent(node_id@)),
        final(registry)@ == old(registry)@.taken(generation_id@),
        match r.1 {
            Some(n) => old(registry)@.take(generation_id@) matches Some(g) && n@ == (
            ResolutionView {
                generation_id: g.generation_id,
                outcome: OutcomeView::Rejected("agent disconnected"@),
            }),
            None => old(registry)@.take(generation_id@) is None,
        },
{
    let resolved: Option<Resolution> = match registry.take(generation_id) {
        Some(g) => Some(g.notify(ConfirmOutcome::Rejected("agent disconnected".to_string()))),
        None => None,
    };
    (
        ConfirmOutcome::Rejected(
            text::concat3("Failed to send config to node ", node_id, " (disconnected?)"),
        ),
        resolved,
    )
}

/// How waiting for the confirmation of an op ended.
pub enum Waited {
    /// The generation was resolved.
    Resolved(ConfirmOutcome),
    /// The generation was dropped without being resolved.
    Canceled,
    /// Nothing came in time.
    Elapsed,
}

/// The audit entry for the end of a generation.
pub open spec fn resolved_entry(
    word: Seq<char>,
    node_id: Seq<char>,
    generation_id: Seq<char>,
) -> NewAuditView {
    NewAuditView {
        operator: None,
        action: "config_"@ + word,
        node_id: Some(node_id),
        detail: Some("generation_id="@ + generation_id),
        tenant_id: None,
    }
}

/// Whether the agent kept what it was sent, so that the end of the op goes on record.
pub open spec fn on_record(o: OutcomeView) -> bool {
    o is Applied || o is CommitFailed
}

/// The second half of applying an op: what its outcome is once waiting has ended.
/// The end of an op that the agent applied is noted in the audit log. Where it
/// rejected or reverted the op, or nothing came in time, the store is not touched:
/// the entry is handed to the caller, who may log it. An op that took too long is
/// reaped defensively in case the watchdog has not fired yet.
pub fn finish_pending_op<S: ControllerStore>(
    registry: &mut PendingRegistry,
    store: &mut S,
    node_id: &str,
    generation_id: &str,
    waited: Waited,
    now: Timestamp,
) -> (r: (ConfirmOutcome, Option<Resolution>, Option<NewAuditEntry>))
    ensures
        final(store).dependable() == old(store).dependable(),
        match waited {
            Waited::Resolved(o) => {
                let entry = resolved_entry(registry::outcome_word(o@), node_id@, generation_id@);
                &&& r.0 == o
                &&& r.1 is None
                &&& final(registry)@ == old(registry)@
                &&& if on_record(o@) {
                    &&& r.2 is None
                    &&& old(store).dependable() ==> store::audit_grew(
                        old(store).model(),
                        final(store).model(),
                        seq![entry],
                        now,
                    )
                } else {
                    &&& r.2 matches Some(e) && e@ == entry
                    &&& *final(store) == *old(store)
                }
            },
            Waited::Canceled => {
                &&& r.0@ == OutcomeView::Abandoned
                &&& r.1 is None
                &&& r.2 is None
                &&& final(registry)@ == old(registry)@
                &&& final(store).model() == old(store).model()
            },
            Waited::Elapsed => {
                &&& r.0@ == OutcomeView::Abandoned
                &&& r.2 is None
                &&& final(registry)@ == old(registry)@.taken(generation_id@)
                &&& final(store).model() == old(store).model()
                &&& match r.1 {
                    Some(n) => old(registry)@.take(generation_id@) matches Some(g) && n@ == (
                    ResolutionView {
                        generation_id: g.generation_id,
                        outcome: OutcomeView::Abandoned,
                    }),
                    None => old(registry)@.take(generation_id@) is None,
                }
            },
        },
{
    match waited {
        Waited::Resolved(outcome) => {
            let entry = NewAuditEntry {
                operator: None,
                action: text::concat2("config_", outcome_tag(&outcome)),
                node_id: Some(node_id.to_string()),
                detail: Some(text::concat2("generation_id=", generation_id)),
                tenant_id: None,
            };
            match outcome {
                ConfirmOutcome::Applied | ConfirmOutcome::CommitFailed(_) => {
                    store::note(store, entry, now);
                    (outcome, None, None)
                },
                _ => (outcome, None, Some(entry)),
            }
        },
        Waited::Canceled => (ConfirmOutcome::Abandoned, None, None),
        Waited::Elapsed => {
            let resolved: Option<Resolution> = match registry.take(generation_id) {
                Some(g) => Some(g.notify(ConfirmOutcome::Abandoned)),
                None => None,
            };
            (ConfirmOutcome::Abandoned, resolved, None)
        },
    }
}

/// The audit entries for abandoned generations.
pub open spec fn abandoned_entries(gens: Seq<GenerationView>) -> Seq<NewAuditView> {
    gens.map_values(
        |g: GenerationView| resolved_entry("abandoned"@, g.op.node(), g.generation_id),
    )
}

/// The resolutions of abandoned generations.
pub open spec fn abandoned_resolutions(gens: Seq<GenerationView>) -> Seq<ResolutionView> {
    gens.map_values(
        |g: GenerationView|
            ResolutionView { generation_id: g.generation_id, outcome: OutcomeView::Abandoned },
    )
}

/// The views of resolutions.
pub open spec fn resolution_views(v: Seq<Resolution>) -> Seq<ResolutionView> {
    v.map_values(|r: Resolution| r@)
}

/// One tick of the watchdog: generations whose deadlines have passed are dropped,
/// noted in the audit log, and their waiters told.
pub fn reap_tick<S: ControllerStore>(
    registry: &mut PendingRegistry,
    store: &mut S,
    now_ms: u64,
    now: Timestamp,
) -> (out: Vec<Resolution>)
    ensures
        final(store).dependable() == old(store).dependable(),
        final(registry)@ == old(registry)@.reaped(now_ms),
        exists|gens: Seq<GenerationView>|
            {
                &&& #[trigger] registry::lists_expired(old(registry)@, gens, now_ms)
                &&& resolution_views(out@) == abandoned_resolutions(gens)
                &&& old(store).dependable() ==> store::audit_grew(
                    old(store).model(),
                    final(store).model(),
                    abandoned_entries(gens),
                    now,
                )
            },
{
    let mut expired = registry.reap_expired(now_ms);
    let ghost gens = registry::generation_views(expired@);
    let ghost before = store.model();
    let ghost mut n: int = 0;
    let mut out: Vec<Resolution> = Vec::new();
    proof {
        store::lemma_audit_same(before, now);
        assert(abandoned_entries(gens.take(0)) =~= Seq::<NewAuditView>::empty());
        assert(resolution_views(out@) =~= abandoned_resolutions(gens.take(0)));
        assert(registry::lists_expired(old(registry)@, gens, now_ms));
    }
    while expired.len() > 0
        invariant
            0 <= n <= gens.len(),
            expired@.len() == gens.len() - n,
            forall|j: int| 0 <= j < expired@.len() ==> (#[trigger] expired@[j])@ == gens[n + j],
            store.dependable() == old(store).dependable(),
            resolution_views(out@) == abandoned_resolutions(gens.take(n)),
            store.dependable() ==> store::audit_grew(
                before,
                store.model(),
                abandoned_entries(gens.take(n)),
                now,
            ),
        decreases expired@.len(),
    {
        let ghost rest = expired@;
        let ghost done = out@;
        let ghost between = store.model();
        let g = expired.remove(0);
        assert forall|j: int| 0 <= j < expired@.len() implies #[trigger] expired@[j] == rest[j
            + 1] by {}
        assert(g == rest[0]);
        let entry = NewAuditEntry {
            operator: None,
            action: "config_abandoned".to_string(),
            node_id: Some(g.op.node_id().to_string()),
            detail: Some(text::concat2("generation_id=", g.generation_id.as_str())),
            tenant_id: None,
        };
        proof {
            reveal_strlit("config_");
            reveal_strlit("abandoned");
            reveal_strlit("config_abandoned");
            assert("config_"@ + "abandoned"@ =~= "config_abandoned"@);
            assert(entry@ == resolved_entry("abandoned"@, g.op.node(), g.generation_id@));
        }
        match store.append_audit(entry, now) {
            Ok(()) => {
                proof {
                    if store.dependable() {
                        store::lemma_audit_grows(
                            before,
                            between,
                            store.model(),
                            abandoned_entries(gens.take(n)),
                            entry@,
                            now,
                        );
                    }
                }
            },
            Err(_) => {},
        }
        out.push(g.notify(ConfirmOutcome::Abandoned));
        proof {
            assert(gens.take(n + 1) =~= gens.take(n).push(gens[n]));
            assert(abandoned_entries(gens.take(n + 1)) =~= abandoned_entries(gens.take(n)).push(
                entry@,
            ));
            assert(abandoned_resolutions(gens.take(n + 1)) =~= abandoned_resolutions(
                gens.take(n),
            ).push(
                ResolutionView {
                    generation_id: gens[n].generation_id,
                    outcome: OutcomeView::Abandoned,
                },
            ));
            assert(resolution_views(out@) =~= resolution_views(done).push(
                out@[done.len() as int]@,
            ));
            n = n + 1;
        }
    }
    assert(gens.take(n) =~= gens);
    out
}

/// Something that commits ops.
pub trait Committer {
    fn commit(&mut self, op: &PendingOp) -> Result<(), StoreError>;
}

/// Commits ops to a store.
pub struct StoreCommitter<S: ControllerStore>(pub S);

impl<S: ControllerStore> Committer for StoreCommitter<S> {
    fn commit(&mut self, op: &PendingOp) -> (r: Result<(), StoreError>)
        ensures
            store::dependably(old(self).0.dependable(), final(self).0.dependable(), r),
            op.commits(old(self).0.model(), final(self).0.model(), r),
    {
        op.commit(&mut self.0)
    }
}

} // verus!
