use policy_controller::pending::{
    begin_pending_op, finish_pending_op, outcome_tag, push_failed, reap_tick, BeginError, Begun,
    ConfirmOutcome, PendingOp, PendingRegistry, Waited,
};
use policy_controller::proto::ControllerPayload;
use policy_controller::session::NodeSessionManager;
use policy_controller::store::memory::InMemoryControllerStore;
use policy_controller::store::{ControllerStore, Rule};
use policy_controller::timestamp::Timestamp;

const NOW: Timestamp = Timestamp { secs: 1_700_000_000, nanos: 0 };

fn sample_rule(node_id: &str, rule_id: &str) -> Box<Rule> {
    Box::new(Rule {
        id: rule_id.to_string(),
        tenant_id: "default".to_string(),
        node_id: node_id.to_string(),
        interface_name: "eth0".to_string(),
        direction: "ingress".to_string(),
        src_cidr: None,
        dst_cidr: None,
        src_port: None,
        dst_port: None,
        protocol: "any".to_string(),
        sni_pattern: None,
        quic_version: None,
        src_mac: None,
        dst_mac: None,
        actions_json: "[]".to_string(),
        created_at: NOW,
        created_by: None,
        expires_after_secs: None,
        schedule_json: None,
    })
}

fn create(node_id: &str, rule_id: &str) -> PendingOp {
    PendingOp::CreateRule(sample_rule(node_id, rule_id))
}

#[test]
fn inspect_ops_build_gated_messages() {
    let op = PendingOp::SetInspectMode {
        node_id: "n1".into(),
        mode: 1,
    };
    assert_eq!(op.kind(), "set_inspect_mode");
    assert_eq!(op.node_id(), "n1");
    assert_eq!(op.interface_target(), (None, None));
    match op.to_controller_message("GEN", 30_000).payload {
        Some(ControllerPayload::SetInspectMode(m)) => {
            assert_eq!(m.mode, 1);
            assert_eq!(m.generation_id, "GEN");
            assert_eq!(m.confirm_deadline_ms, 30_000);
        }
        _ => panic!("unexpected payload"),
    }

    let op = PendingOp::SetInspectInterface {
        node_id: "n1".into(),
        interface_name: "eth0".into(),
        enabled: true,
    };
    assert_eq!(op.kind(), "set_inspect_interface");
    assert_eq!(op.interface_target(), (Some("eth0".to_string()), None));
    match op.to_controller_message("GEN2", 10_000).payload {
        Some(ControllerPayload::SetInspectInterface(m)) => {
            assert_eq!(m.interface_name, "eth0");
            assert!(m.enabled);
            assert_eq!(m.generation_id, "GEN2");
            assert_eq!(m.confirm_deadline_ms, 10_000);
        }
        _ => panic!("unexpected payload"),
    }
}

#[test]
fn begin_returns_distinct_generation_ids() {
    let mut reg = PendingRegistry::new();
    let g1 = reg
        .try_begin(create("n1", "r1"), "default".to_string(), 5_000, NOW, 0)
        .ok()
        .unwrap();
    reg.take(&g1).unwrap();
    let g2 = reg
        .try_begin(create("n1", "r2"), "default".to_string(), 5_000, NOW, 0)
        .ok()
        .unwrap();
    assert_ne!(g1, g2);
    assert_eq!(g1.len(), 36);
}

#[test]
fn concurrent_pending_blocked_per_node() {
    let mut reg = PendingRegistry::new();
    let first = reg
        .try_begin(create("n1", "r1"), "default".to_string(), 5_000, NOW, 0)
        .ok()
        .unwrap();
    let err = reg
        .try_begin(create("n1", "r2"), "default".to_string(), 5_000, NOW, 0)
        .err()
        .unwrap();
    assert!(matches!(err, BeginError::Blocked { .. }));
    assert_eq!(
        err.to_text(),
        format!("Node n1 already has a pending config generation ({first}); try again once it resolves")
    );
    // But a different node is unblocked.
    assert!(reg
        .try_begin(create("n2", "r3"), "default".to_string(), 5_000, NOW, 0)
        .is_ok());
}

#[test]
fn take_clears_by_node_and_by_gen() {
    let mut reg = PendingRegistry::new();
    let gen_id = reg
        .try_begin(create("n1", "r1"), "default".to_string(), 5_000, NOW, 0)
        .ok()
        .unwrap();
    assert!(reg.get_for_node("n1", "default").is_some());
    assert!(reg.take(&gen_id).is_some());
    assert!(reg.get_for_node("n1", "default").is_none());
    assert!(reg.take(&gen_id).is_none()); // idempotent
}

#[test]
fn reap_expired_notifies_waiting_caller() {
    let mut reg = PendingRegistry::new();
    let g1 = reg
        .try_begin(create("n1", "r1"), "default".to_string(), 0, NOW, 0)
        .ok()
        .unwrap();
    reg.try_begin(create("n2", "r2"), "default".to_string(), 60_000, NOW, 0)
        .ok()
        .unwrap();
    let expired = reg.reap_expired(5);
    assert_eq!(expired.len(), 1);
    assert_eq!(expired[0].op.node_id(), "n1");
    for gen in expired {
        let told = gen.notify(ConfirmOutcome::Abandoned);
        assert_eq!(told.generation_id, g1);
        assert!(matches!(told.outcome, ConfirmOutcome::Abandoned));
    }
    assert!(reg.get_for_node("n1", "default").is_none());
    assert!(reg.get_for_node("n2", "default").is_some());
}

#[test]
fn list_and_get_filter_by_tenant() {
    let mut reg = PendingRegistry::new();
    reg.try_begin(create("n-default", "r1"), "default".to_string(), 60_000, NOW, 0)
        .ok()
        .unwrap();
    reg.try_begin(create("n-acme", "r2"), "acme".to_string(), 60_000, NOW, 0)
        .ok()
        .unwrap();

    let default = reg.list_all("default");
    assert_eq!(default.len(), 1);
    assert_eq!(default[0].node_id, "n-default");

    let acme = reg.list_all("acme");
    assert_eq!(acme.len(), 1);
    assert_eq!(acme[0].node_id, "n-acme");

    // get_for_node returns None when tenant doesn't match — looks
    // identical to "no generation" so a tenant A operator can't
    // enumerate tenant B's busy nodes.
    assert!(reg.get_for_node("n-acme", "default").is_none());
    assert!(reg.get_for_node("n-default", "acme").is_none());
    assert!(reg.get_for_node("n-acme", "acme").is_some());
}

#[test]
fn interface_target_exposes_scope_for_per_control_ui() {
    // Direction-scoped ops carry both interface and direction.
    let attach = PendingOp::Attach {
        node_id: "n1".to_string(),
        interface_name: "eth0".to_string(),
        direction: "ingress".to_string(),
    };
    assert_eq!(
        attach.interface_target(),
        (Some("eth0".to_string()), Some("ingress".to_string()))
    );

    // Interface-scoped but not direction-scoped: direction is None.
    let fib = PendingOp::SetFibForwarding {
        node_id: "n1".to_string(),
        interface_name: "eth1".to_string(),
        enabled: true,
    };
    assert_eq!(fib.interface_target(), (Some("eth1".to_string()), None));

    // Node-scoped ops target no interface.
    let stop = PendingOp::SetStopBehavior {
        node_id: "n1".to_string(),
        behavior: "clear-state".to_string(),
    };
    assert_eq!(stop.interface_target(), (None, None));
}

#[test]
fn pending_view_carries_interface_and_direction() {
    let mut reg = PendingRegistry::new();
    reg.try_begin(
        PendingOp::Attach {
            node_id: "n1".to_string(),
            interface_name: "eth0".to_string(),
            direction: "egress".to_string(),
        },
        "default".to_string(),
        60_000,
        NOW,
        0,
    )
    .ok()
    .unwrap();
    let view = reg.get_for_node("n1", "default").unwrap();
    assert_eq!(view.op_kind, "attach");
    assert_eq!(view.interface_name.as_deref(), Some("eth0"));
    assert_eq!(view.direction.as_deref(), Some("egress"));
}

#[test]
fn commit_create_rule_persists_to_store() {
    let mut store = InMemoryControllerStore::new();
    create("n1", "r1").commit(&mut store).unwrap();
    assert!(store.get_rule("r1").unwrap().is_some());
}

#[test]
fn commit_delete_rule_removes_from_store() {
    let mut store = InMemoryControllerStore::new();
    store.create_rule(&sample_rule("n1", "r1")).unwrap();
    let op = PendingOp::DeleteRule {
        node_id: "n1".to_string(),
        rule_id: "r1".to_string(),
    };
    op.commit(&mut store).unwrap();
    assert!(store.get_rule("r1").unwrap().is_none());
}

#[test]
fn op_on_an_offline_node_is_refused() {
    let mut reg = PendingRegistry::new();
    let sessions = NodeSessionManager::new();
    let store = InMemoryControllerStore::new();
    match begin_pending_op(create("n1", "r1"), &mut reg, &sessions, &store, 30_000, NOW, 0) {
        Ok(Begun::Refused(ConfirmOutcome::Rejected(m))) => {
            assert_eq!(m, "Node n1 is not currently connected")
        }
        _ => panic!("must be refused"),
    }
    assert!(reg.generation_of("n1").is_none());
}

#[test]
fn op_on_a_node_without_record_is_refused() {
    let mut reg = PendingRegistry::new();
    let mut sessions = NodeSessionManager::new();
    sessions.register("n1".to_string(), "default".to_string(), 1);
    let store = InMemoryControllerStore::new();
    match begin_pending_op(create("n1", "r1"), &mut reg, &sessions, &store, 30_000, NOW, 0) {
        Ok(Begun::Refused(ConfirmOutcome::Rejected(m))) => {
            assert_eq!(m, "Node n1 has no record in the store")
        }
        _ => panic!("must be refused"),
    }
}

#[test]
fn failed_push_frees_the_node() {
    let mut reg = PendingRegistry::new();
    let id = reg
        .try_begin(create("n1", "r1"), "default".to_string(), 60_000, NOW, 0)
        .ok()
        .unwrap();
    let (outcome, told) = push_failed(&mut reg, "n1", &id);
    match outcome {
        ConfirmOutcome::Rejected(m) => {
            assert_eq!(m, "Failed to send config to node n1 (disconnected?)")
        }
        _ => panic!("must be rejected"),
    }
    assert_eq!(told.unwrap().generation_id, id);
    assert!(reg.generation_of("n1").is_none());
}

#[test]
fn resolved_op_is_audited() {
    let mut reg = PendingRegistry::new();
    let mut store = InMemoryControllerStore::new();
    let (outcome, told, unrecorded) = finish_pending_op(
        &mut reg,
        &mut store,
        "n1",
        "G",
        Waited::Resolved(ConfirmOutcome::Applied),
        NOW,
    );
    assert_eq!(outcome_tag(&outcome), "applied");
    assert!(told.is_none() && unrecorded.is_none());
    let audit = store.list_audit(None, 10, 0).unwrap();
    assert_eq!(audit.len(), 1);
    assert_eq!(audit[0].action, "config_applied");
    assert_eq!(audit[0].detail.as_deref(), Some("generation_id=G"));
}

#[test]
fn elapsed_op_is_abandoned() {
    let mut reg = PendingRegistry::new();
    let mut store = InMemoryControllerStore::new();
    let id = reg
        .try_begin(create("n1", "r1"), "default".to_string(), 60_000, NOW, 0)
        .ok()
        .unwrap();
    let (outcome, told, _) =
        finish_pending_op(&mut reg, &mut store, "n1", &id, Waited::Elapsed, NOW);
    assert_eq!(outcome_tag(&outcome), "abandoned");
    assert!(told.is_some());
    assert!(reg.generation_of("n1").is_none());
    assert!(store.list_audit(None, 10, 0).unwrap().is_empty());
}

#[test]
fn outcome_tags_are_plain_words() {
    let tags: Vec<&str> = [
        ConfirmOutcome::Applied,
        ConfirmOutcome::CommitFailed(String::new()),
        ConfirmOutcome::Rejected(String::new()),
        ConfirmOutcome::Reverted(String::new()),
        ConfirmOutcome::Abandoned,
    ]
    .iter()
    .map(outcome_tag)
    .collect();
    assert_eq!(
        tags,
        vec!["applied", "commit_failed", "rejected", "reverted", "abandoned"]
    );
}

#[test]
fn watchdog_abandons_and_audits_what_expired() {
    let mut store = InMemoryControllerStore::new();
    let mut reg = PendingRegistry::new();
    let late = reg
        .try_begin(create("n1", "r1"), "default".to_string(), 10, NOW, 100)
        .unwrap();
    reg.try_begin(create("n2", "r2"), "default".to_string(), 1_000, NOW, 100)
        .unwrap();

    let resolved = reap_tick(&mut reg, &mut store, 111, NOW);
    assert_eq!(resolved.len(), 1);
    assert_eq!(resolved[0].generation_id, late);
    assert!(matches!(resolved[0].outcome, ConfirmOutcome::Abandoned));
    assert!(reg.generation_of("n1").is_none());
    assert!(reg.generation_of("n2").is_some());

    let audit = store.list_audit(None, 10, 0).unwrap();
    assert_eq!(audit.len(), 1);
    assert_eq!(audit[0].action, "config_abandoned");
    assert_eq!(audit[0].node_id.as_deref(), Some("n1"));
    assert_eq!(audit[0].detail, Some(format!("generation_id={late}")));

    // Nothing more is due.
    assert!(reap_tick(&mut reg, &mut store, 111, NOW).is_empty());
}

#[test]
fn rejected_or_reverted_op_leaves_the_store_alone() {
    for (outcome, action) in [
        (ConfirmOutcome::Rejected("no".to_string()), "config_rejected"),
        (ConfirmOutcome::Reverted("lost link".to_string()), "config_reverted"),
        (ConfirmOutcome::Abandoned, "config_abandoned"),
    ] {
        let mut reg = PendingRegistry::new();
        let mut store = InMemoryControllerStore::new();
        let tag = outcome_tag(&outcome);
        let (end, told, unrecorded) = finish_pending_op(
            &mut reg,
            &mut store,
            "n1",
            "G",
            Waited::Resolved(outcome),
            NOW,
        );
        assert_eq!(outcome_tag(&end), tag);
        assert!(told.is_none());
        let entry = unrecorded.unwrap();
        assert_eq!(entry.action, action);
        assert_eq!(entry.node_id.as_deref(), Some("n1"));
        assert_eq!(entry.detail.as_deref(), Some("generation_id=G"));
        assert!(store.list_audit(None, 10, 0).unwrap().is_empty());
    }
}
