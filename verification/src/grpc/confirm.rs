//! What becomes of a configuration change when the agent confirms it.

use super::hub::{Hub, HubView};
use super::outbox::{enqueue, Outbox, OutboxView, SendError};
use crate::pending::registry::{GenerationView, OutcomeView, ResolutionView};
use crate::pending::ConfirmOutcome;
use crate::proto::{
    CommitAckView, ConfigCommitAck, ConfigConfirm, ConfirmedAs, ControllerMessage,
    ControllerPayload, PayloadView, StateQuery,
};
use crate::store::model::StoreModel;
use crate::store::records::NewAuditView;
use crate::store::{self, ControllerStore, NewAuditEntry, StoreError};
use crate::text;
use crate::timestamp::Timestamp;
use vstd::prelude::*;

verus! {

broadcast use vstd::string::group_string_axioms;

/// The audit entry for a change that was rolled back after it had been resolved.
pub open spec fn late_revert_entry(node_id: Seq<char>, c: ConfigConfirm) -> NewAuditView {
    NewAuditView {
        operator: None,
        action: "config_reverted_after_resolve"@,
        node_id: Some(node_id),
        detail: Some("generation="@ + c.generation_id@ + " err="@ + c.error_message@),
        tenant_id: None,
    }
}

/// The acknowledgement of a commit.
pub open spec fn ack(generation_id: Seq<char>, reason: Option<Seq<char>>) -> PayloadView {
    PayloadView::CommitAck(
        CommitAckView {
            generation_id,
            committed: reason is None,
            reason: match reason {
                Some(r) => r,
                None => Seq::empty(),
            },
        },
    )
}

/// What is to be sent once a confirmation of an unknown or already resolved generation
/// came: a late rollback makes the controller ask the agent for its state.
pub open spec fn asked_again(c: ConfigConfirm, out: OutboxView) -> OutboxView {
    if c.outcome == ConfirmedAs::Reverted {
        out.with(PayloadView::StateQuery)
    } else {
        out
    }
}

/// What handling a confirmation of an unknown or already resolved generation does: a
/// late rollback is noted and the agent asked for its state; anything else is passed
/// over.
pub open spec fn handles_late(
    node_id: Seq<char>,
    c: ConfigConfirm,
    before: StoreModel,
    after: StoreModel,
    out: OutboxView,
    out_after: OutboxView,
    now: Timestamp,
) -> bool {
    &&& out_after == asked_again(c, out)
    &&& if c.outcome == ConfirmedAs::Reverted {
        store::audit_grew(before, after, seq![late_revert_entry(node_id, c)], now)
    } else {
        after == before
    }
}

/// What handling a confirmation of a generation in flight does.
pub open spec fn handles_pending(
    g: GenerationView,
    c: ConfigConfirm,
    before: StoreModel,
    after: StoreModel,
    dependable: bool,
    h: HubView,
    h_after: HubView,
    out: OutboxView,
    out_after: OutboxView,
    r: Result<(), SendError>,
) -> bool {
    let taken = HubView { pending: h.pending.taken(c.generation_id@), ..h };
    match c.outcome {
        ConfirmedAs::Applied => exists|committed: Result<(), StoreError>|
            {
                let reason = match committed {
                    Ok(_) => None,
                    Err(e) => Some(e.message()),
                };
                &&& #[trigger] g.op.commits(before, after, committed)
                &&& store::dependably(dependable, dependable, committed)
                &&& h_after == told(
                    taken,
                    g,
                    match reason {
                        None => OutcomeView::Applied,
                        Some(m) => OutcomeView::CommitFailed(m),
                    },
                )
                &&& out_after == out.with(ack(c.generation_id@, reason))
                &&& match r {
                    Ok(()) => out.blocked() is None,
                    Err(e) => out.blocked() == Some(e),
                }
            },
        ConfirmedAs::Rejected => {
            &&& r is Ok
            &&& after == before
            &&& out_after == out
            &&& h_after == told(taken, g, OutcomeView::Rejected(c.error_message@))
        },
        ConfirmedAs::Reverted => {
            &&& r is Ok
            &&& after == before
            &&& out_after == out
            &&& h_after == told(taken, g, OutcomeView::Reverted(c.error_message@))
        },
        ConfirmedAs::Unspecified => {
            &&& r is Ok
            &&& after == before
            &&& out_after == out
            &&& h_after == told(
                taken,
                g,
                OutcomeView::Rejected("agent sent unspecified outcome"@),
            )
        },
    }
}

/// The hub with the waiters of a generation to be told.
pub open spec fn told(h: HubView, g: GenerationView, outcome: OutcomeView) -> HubView {
    HubView {
        resolutions: h.resolutions.push(
            ResolutionView { generation_id: g.generation_id, outcome },
        ),
        ..h
    }
}

/// Drain a pending generation from the registry, commit (or not) to the store
/// based on the agent's outcome, and send back a `ConfigCommitAck` so the agent
/// can clear its local inverse-delta.
pub fn handle_config_confirm<S: ControllerStore>(
    node_id: &str,
    confirm: ConfigConfirm,
    store: &mut S,
    hub: &mut Hub,
    out: &mut Outbox,
    now: Timestamp,
) -> (r: Result<(), SendError>)
    ensures
        final(store).dependable() == old(store).dependable(),
        match old(hub)@.pending.take(confirm.generation_id@) {
            Some(g) => handles_pending(
                g,
                confirm,
                old(store).model(),
                final(store).model(),
                old(store).dependable(),
                old(hub)@,
                final(hub)@,
                old(out)@,
                final(out)@,
                r,
            ),
            None => {
                &&& r is Ok
                &&& final(hub)@ == (HubView {
                    pending: old(hub)@.pending.taken(confirm.generation_id@),
                    ..old(hub)@
                })
                &&& final(out)@ == asked_again(confirm, old(out)@)
                &&& confirm.outcome != ConfirmedAs::Reverted ==> final(store).model() == old(
                    store,
                ).model()
                &&& old(store).dependable() ==> handles_late(
                    node_id@,
                    confirm,
                    old(store).model(),
                    final(store).model(),
                    old(out)@,
                    final(out)@,
                    now,
                )
            },
        },
{
    let ghost before = store.model();
    let g = match hub.pending.take(confirm.generation_id.as_str()) {
        Some(g) => g,
        None => {
            // The generation was already resolved (e.g. the Applied confirm landed
            // first and was committed) or is unknown (controller restart). A late
            // *Reverted* outcome here is a genuine divergence: the agent applied the
            // change then rolled it back via its watchdog, so the controller's
            // state no longer matches the agent. Record the divergence and ask the
            // agent to re-report so that the two converge.
            if confirm.outcome == ConfirmedAs::Reverted {
                let entry = NewAuditEntry {
                    operator: None,
                    action: "config_reverted_after_resolve".to_string(),
                    node_id: Some(node_id.to_string()),
                    detail: Some(
                        text::concat4(
                            "generation=",
                            confirm.generation_id.as_str(),
                            " err=",
                            confirm.error_message.as_str(),
                        ),
                    ),
                    tenant_id: None,
                };
                assert(entry@ == late_revert_entry(node_id@, confirm));
                store::note(store, entry, now);
                // Best-effort: a full buffer means the stream is tearing down anyway.
                let _sent = enqueue(
                    out,
                    ControllerMessage::of(ControllerPayload::StateQuery(StateQuery {  })),
                );
            }
            return Ok(());
        },
    };
    match confirm.outcome {
        ConfirmedAs::Applied => {
            let committed = g.op.commit(store);
            assert(g.op.commits(before, store.model(), committed));
            match committed {
                Ok(()) => {
                    // Tell the agent it may clear its inverse-delta. The local
                    // waiter is notified regardless of whether the ack made it
                    // onto the wire; a full buffer tears the stream down so the
                    // agent reconnects and re-syncs.
                    let msg = ControllerMessage::of(
                        ControllerPayload::CommitAck(
                            ConfigCommitAck {
                                generation_id: confirm.generation_id,
                                committed: true,
                                reason: String::new(),
                            },
                        ),
                    );
                    let sent = enqueue(out, msg);
                    hub.resolve(g.notify(ConfirmOutcome::Applied));
                    sent
                },
                Err(e) => {
                    let reason = e.to_text();
                    let msg = ControllerMessage::of(
                        ControllerPayload::CommitAck(
                            ConfigCommitAck {
                                generation_id: confirm.generation_id,
                                committed: false,
                                reason: reason.clone(),
                            },
                        ),
                    );
                    let sent = enqueue(out, msg);
                    hub.resolve(g.notify(ConfirmOutcome::CommitFailed(reason)));
                    sent
                },
            }
        },
        ConfirmedAs::Rejected => {
            hub.resolve(g.notify(ConfirmOutcome::Rejected(confirm.error_message)));
            Ok(())
        },
        ConfirmedAs::Reverted => {
            hub.resolve(g.notify(ConfirmOutcome::Reverted(confirm.error_message)));
            Ok(())
        },
        ConfirmedAs::Unspecified => {
            hub.resolve(
                g.notify(ConfirmOutcome::Rejected("agent sent unspecified outcome".to_string())),
            );
            Ok(())
        },
    }
}

} // verus!
