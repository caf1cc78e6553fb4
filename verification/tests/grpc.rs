use policy_controller::grpc::confirm::handle_config_confirm;
use policy_controller::grpc::enrollment::{answer_status, check_enrollment_status, request_enrollment};
use policy_controller::grpc::greeting::{screen_cert, screen_node, Screened, StreamError};
use policy_controller::grpc::lifecycle::handle_rule_lifecycle_batch;
use policy_controller::grpc::messages::{delta_to_send, everything_to_send};
use policy_controller::grpc::renewal::{
    csr_subject_cn, extract_cn, renew_client_cert, screen_renewal, PeerLeaf,
};
use policy_controller::grpc::restore::{live_rules, rules_to_send};
use policy_controller::grpc::status::RpcCode;
use policy_controller::grpc::stream::{
    drive_stream, finish_stream, stream_step, Conversation, Inbound,
};
use policy_controller::grpc::{build_full_restore_push, enqueue, Hub, Outbox, SendError};
use policy_controller::node_registry::NodeRegistry;
use policy_controller::pending::{ConfirmOutcome, PendingOp};
use policy_controller::proto::{
    AgentHello, AgentMessage, AgentPayload, ConfigConfirm, ConfirmedAs, ControllerMessage,
    ControllerPayload, Disconnect, EnrollRequest, EnrollmentStatus, EventBatch, Heartbeat,
    InterfaceReport, MetricsUpdate, RuleAdd, StateSnapshot, PROTOCOL_VERSION,
};
use policy_controller::security::{CertificateAuthority, FileCertificateAuthority};
use policy_controller::store::{
    ControllerStore, InMemoryControllerStore, NodeRecord, NodeStatus, Rule, StoreError,
};
use policy_controller::strmap::StrMap;
use policy_controller::timestamp::Timestamp;

const NOW: Timestamp = Timestamp { secs: 1_700_000_000, nanos: 0 };
const NOW_MS: u64 = 1_700_000_000_000;

fn farewell() -> ControllerMessage {
    ControllerMessage::of(ControllerPayload::Disconnect(Disconnect {
        reason: "x".to_string(),
    }))
}

/// `enqueue` must never block: on a full buffer it returns an error (so the
/// caller tears the stream down) rather than awaiting capacity, which would
/// park the inbound reader and deadlock the bidirectional stream.
#[test]
fn enqueue_errs_on_full_buffer_instead_of_blocking() {
    let mut out = Outbox::new(1);
    // First fits the single slot; second has nowhere to go.
    assert!(enqueue(&mut out, farewell()).is_ok());
    let err = enqueue(&mut out, farewell()).unwrap_err().to_text();
    assert!(err.contains("buffer full"), "unexpected error: {err}");

    // A closed channel (reader gone) is also a non-blocking error.
    let mut closed = Outbox::new(1);
    closed.closed = true;
    assert_eq!(enqueue(&mut closed, farewell()), Err(SendError::Closed));
}

fn config_confirm(gen: &str, outcome: ConfirmedAs) -> ConfigConfirm {
    ConfigConfirm {
        generation_id: gen.to_string(),
        outcome,
        error_message: "watchdog".to_string(),
    }
}

/// A late REVERTED confirm for a generation the controller already resolved
/// (took) must not vanish: it signals the agent rolled back a change the
/// controller may have committed. We record the divergence and pull a fresh
/// snapshot so stored/UI state converges to the agent's reality.
#[test]
fn reverted_confirm_for_resolved_gen_audits_and_requests_snapshot() {
    let mut store = InMemoryControllerStore::new();
    let mut hub = Hub::new(); // nothing pending → take() returns None
    let mut out = Outbox::new(8);

    handle_config_confirm(
        "node-1",
        config_confirm("gen-x", ConfirmedAs::Reverted),
        &mut store,
        &mut hub,
        &mut out,
        NOW,
    )
    .unwrap();

    let audits = store.list_audit(None, 10, 0).unwrap();
    assert!(
        audits
            .iter()
            .any(|a| a.action == "config_reverted_after_resolve"),
        "expected divergence audit"
    );
    assert_eq!(audits[0].detail.as_deref(), Some("generation=gen-x err=watchdog"));

    assert_eq!(out.queue.len(), 1);
    assert!(matches!(
        out.queue[0].payload,
        Some(ControllerPayload::StateQuery(_))
    ));
}

/// A non-reverted confirm (e.g. a duplicate APPLIED) for an unknown
/// generation is benign: no divergence audit, no snapshot request.
#[test]
fn applied_confirm_for_unknown_gen_is_silent() {
    let mut store = InMemoryControllerStore::new();
    let mut hub = Hub::new();
    let mut out = Outbox::new(8);

    handle_config_confirm(
        "node-1",
        config_confirm("gen-y", ConfirmedAs::Applied),
        &mut store,
        &mut hub,
        &mut out,
        NOW,
    )
    .unwrap();

    assert!(store.list_audit(None, 10, 0).unwrap().is_empty());
    assert!(out.queue.is_empty(), "no message should be enqueued");
}

fn rule(id: &str) -> Rule {
    Rule {
        id: id.to_string(),
        tenant_id: "default".to_string(),
        node_id: "node-1".to_string(),
        interface_name: "eth0".to_string(),
        direction: "ingress".to_string(),
        src_cidr: Some("10.0.0.0/8".to_string()),
        dst_cidr: None,
        src_port: None,
        dst_port: Some(80),
        protocol: "tcp".to_string(),
        sni_pattern: None,
        quic_version: None,
        src_mac: None,
        dst_mac: None,
        actions_json: r#"[{"action":"drop","priority":0}]"#.to_string(),
        created_at: NOW,
        created_by: None,
        expires_after_secs: None,
        schedule_json: None,
    }
}

fn begun(hub: &mut Hub) -> String {
    hub.pending
        .try_begin(
            PendingOp::CreateRule(Box::new(rule("r1"))),
            "default".to_string(),
            30_000,
            NOW,
            0,
        )
        .ok()
        .unwrap()
}

#[test]
fn applied_change_is_committed_and_acknowledged() {
    let mut store = InMemoryControllerStore::new();
    let mut hub = Hub::new();
    let mut out = Outbox::new(8);
    let gen = begun(&mut hub);
    handle_config_confirm(
        "node-1",
        config_confirm(&gen, ConfirmedAs::Applied),
        &mut store,
        &mut hub,
        &mut out,
        NOW,
    )
    .unwrap();
    assert!(store.get_rule("r1").unwrap().is_some());
    match &out.queue[0].payload {
        Some(ControllerPayload::CommitAck(a)) => {
            assert!(a.committed);
            assert_eq!(a.generation_id, gen);
        }
        _ => panic!("expected an acknowledgement"),
    }
    assert!(matches!(hub.resolutions[0].outcome, ConfirmOutcome::Applied));
    assert!(hub.pending.generation_of("node-1").is_none());
}

#[test]
fn rejected_change_is_not_committed() {
    let mut store = InMemoryControllerStore::new();
    let mut hub = Hub::new();
    let mut out = Outbox::new(8);
    for outcome in [
        ConfirmedAs::Rejected,
        ConfirmedAs::Reverted,
        ConfirmedAs::Unspecified,
    ] {
        let gen = begun(&mut hub);
        handle_config_confirm(
            "node-1",
            config_confirm(&gen, outcome),
            &mut store,
            &mut hub,
            &mut out,
            NOW,
        )
        .unwrap();
    }
    assert!(store.get_rule("r1").unwrap().is_none());
    assert!(out.queue.is_empty());
    assert_eq!(hub.resolutions.len(), 3);
    match &hub.resolutions[2].outcome {
        ConfirmOutcome::Rejected(m) => assert_eq!(m, "agent sent unspecified outcome"),
        _ => panic!("must be rejected"),
    }
}

fn insert_node(store: &mut InMemoryControllerStore, node_id: &str, status: NodeStatus) {
    store
        .upsert_node(&NodeRecord {
            id: node_id.to_string(),
            tenant_id: "default".to_string(),
            label: None,
            public_key_der: vec![1],
            dmi_uuid: None,
            status,
            cert_serial: Some(vec![5]),
            cert_expiry: None,
            last_seen: None,
            enrolled_at: None,
            decommissioned_at: None,
            last_renewed_at: None,
            enrollment_id: None,
            tpm_backed: false,
            agent_version: None,
            hostname: None,
            os_pretty_name: None,
            kernel_version: None,
            dmi_sys_vendor: None,
            dmi_product_name: None,
            stop_behavior: None,
            metrics_interval_secs: None,
            capabilities: "{}".to_string(),
            inspect_mode: "disabled".to_string(),
        })
        .unwrap();
}

fn insert_active_node(store: &mut InMemoryControllerStore, node_id: &str) {
    insert_node(store, node_id, NodeStatus::Active);
}

fn hello_msg(node_id: &str, version: u32) -> AgentMessage {
    AgentMessage {
        payload: Some(AgentPayload::Hello(AgentHello {
            node_id: node_id.to_string(),
            protocol_version: version,
            agent_version: "0.1.0".to_string(),
            dmi_uuid: String::new(),
            tpm_backed: false,
            interfaces: vec![],
            hostname: "test-host".to_string(),
            os_pretty_name: String::new(),
            kernel_version: String::new(),
            dmi_sys_vendor: String::new(),
            dmi_product_name: String::new(),
            capabilities: None,
        })),
    }
}

fn msgs(items: Vec<AgentMessage>) -> Vec<Inbound> {
    items
        .into_iter()
        .map(|m| Inbound { at: NOW, at_ms: NOW_MS, item: Ok(m) })
        .collect()
}

fn msgs_with_error(items: Vec<AgentMessage>) -> Vec<Inbound> {
    let mut v = msgs(items);
    v.push(Inbound {
        at: NOW,
        at_ms: NOW_MS,
        item: Err("simulated connection drop".to_string()),
    });
    v
}

#[test]
fn test_valid_hello_registers_session() {
    let mut store = InMemoryControllerStore::new();
    let mut hub = Hub::new();
    let mut out = Outbox::new(8);
    insert_active_node(&mut store, "node-1");

    drive_stream(
        msgs(vec![hello_msg("node-1", PROTOCOL_VERSION)]),
        &mut out,
        &mut store,
        &mut hub,
        1,
    )
    .unwrap();

    assert!(hub.sessions.is_online("node-1"));
}

#[test]
fn test_wrong_protocol_version_disconnects() {
    let mut store = InMemoryControllerStore::new();
    let mut hub = Hub::new();
    let mut out = Outbox::new(8);
    insert_active_node(&mut store, "node-1");

    let result = drive_stream(
        msgs(vec![hello_msg("node-1", 99)]),
        &mut out,
        &mut store,
        &mut hub,
        1,
    );

    assert!(result.is_err());
    match &out.queue[0].payload {
        Some(ControllerPayload::Disconnect(d)) => assert_eq!(
            d.reason,
            format!("Protocol version mismatch: agent=99, controller={PROTOCOL_VERSION}")
        ),
        _ => panic!("expected a farewell"),
    }
}

#[test]
fn test_unknown_node_errors() {
    let mut store = InMemoryControllerStore::new();
    let mut hub = Hub::new();
    let mut out = Outbox::new(8);

    let result = drive_stream(
        msgs(vec![hello_msg("no-such-node", PROTOCOL_VERSION)]),
        &mut out,
        &mut store,
        &mut hub,
        1,
    );

    assert!(result.is_err());
    assert!(result.err().unwrap().to_text().starts_with("Unknown node: no-such-node — "));
}

#[test]
fn agent_of_an_inactive_or_revoked_node_is_refused() {
    let mut store = InMemoryControllerStore::new();
    let mut hub = Hub::new();
    let mut out = Outbox::new(8);
    insert_node(&mut store, "node-1", NodeStatus::Decommissioned);
    let e = drive_stream(
        msgs(vec![hello_msg("node-1", PROTOCOL_VERSION)]),
        &mut out,
        &mut store,
        &mut hub,
        1,
    )
    .err()
    .unwrap();
    assert_eq!(e.to_text(), "Node node-1 is not active (status=decommissioned)");

    insert_active_node(&mut store, "node-1");
    store.revoke_cert(&[5]).unwrap();
    let e = drive_stream(
        msgs(vec![hello_msg("node-1", PROTOCOL_VERSION)]),
        &mut out,
        &mut store,
        &mut hub,
        1,
    )
    .err()
    .unwrap();
    assert_eq!(e.to_text(), "Node node-1 cert is revoked");
    let audit = store.list_audit(None, 10, 0).unwrap();
    assert_eq!(audit[0].action, "revoked_cert_reject");
    assert_eq!(audit[0].detail.as_deref(), Some("serial=05"));
    assert!(!hub.sessions.is_online("node-1"));
}

#[test]
fn first_message_must_be_a_hello() {
    let mut store = InMemoryControllerStore::new();
    let mut hub = Hub::new();
    let mut out = Outbox::new(8);
    let e = drive_stream(vec![], &mut out, &mut store, &mut hub, 1).err().unwrap();
    assert!(matches!(e, StreamError::NoHello));
    let beat = AgentMessage {
        payload: Some(AgentPayload::Heartbeat(Heartbeat { timestamp_ns: 1 })),
    };
    let e = drive_stream(msgs(vec![beat]), &mut out, &mut store, &mut hub, 1).err().unwrap();
    assert_eq!(e.to_text(), "Expected AgentHello, got Some(Heartbeat)");
    assert!(matches!(
        e,
        StreamError::NotHello(Some(AgentPayload::Heartbeat(Heartbeat { timestamp_ns: 1 })))
    ));
    let silent = AgentMessage { payload: None };
    let e = drive_stream(msgs(vec![silent]), &mut out, &mut store, &mut hub, 1).err().unwrap();
    assert_eq!(e.to_text(), "Expected AgentHello, got None");
    let e = drive_stream(msgs_with_error(vec![]), &mut out, &mut store, &mut hub, 1)
        .err()
        .unwrap();
    assert!(matches!(e, StreamError::Inbound(_)));
}

#[test]
fn test_reconciliation_sends_config_push() {
    let mut store = InMemoryControllerStore::new();
    let mut hub = Hub::new();
    let mut out = Outbox::new(8);
    insert_active_node(&mut store, "node-1");

    // Create a rule for node-1
    store.create_rule(&rule("r1")).unwrap();

    drive_stream(
        msgs(vec![hello_msg("node-1", PROTOCOL_VERSION)]),
        &mut out,
        &mut store,
        &mut hub,
        1,
    )
    .unwrap();

    let found_push = out.queue.iter().any(|m| {
        matches!(&m.payload, Some(ControllerPayload::Config(p)) if p.is_full_restore && !p.rules_to_add.is_empty())
    });
    assert!(found_push, "DeltaConfigPush must be sent on reconnect");
}

#[test]
fn expired_rules_are_not_sent() {
    let mut old = rule("r1");
    old.created_at = Timestamp { secs: NOW.secs - 60, nanos: 0 };
    old.expires_after_secs = Some(60);
    let mut young = rule("r2");
    young.expires_after_secs = Some(60);
    let live = live_rules(vec![old, young, rule("r3")], &NOW);
    let ids: Vec<&str> = live.iter().map(|r| r.id.as_str()).collect();
    assert_eq!(ids, vec!["r2", "r3"]);
}

#[test]
fn test_heartbeat_updates_last_seen() {
    let mut store = InMemoryControllerStore::new();
    let mut hub = Hub::new();
    let mut out = Outbox::new(8);
    insert_active_node(&mut store, "node-1");

    drive_stream(
        msgs(vec![
            hello_msg("node-1", PROTOCOL_VERSION),
            AgentMessage {
                payload: Some(AgentPayload::Heartbeat(Heartbeat { timestamp_ns: 99 })),
            },
        ]),
        &mut out,
        &mut store,
        &mut hub,
        1,
    )
    .unwrap();

    let node = store.get_node("node-1").unwrap().unwrap();
    assert!(node.last_seen.is_some());
}

#[test]
fn test_metrics_update_stored() {
    let mut store = InMemoryControllerStore::new();
    let mut hub = Hub::new();
    let mut out = Outbox::new(8);
    insert_active_node(&mut store, "node-1");

    let metrics_msg = AgentMessage {
        payload: Some(AgentPayload::Metrics(MetricsUpdate {
            timestamp_ns: 1000,
            prometheus_text: b"counter 42\n".to_vec(),
        })),
    };

    drive_stream(
        msgs(vec![hello_msg("node-1", PROTOCOL_VERSION), metrics_msg]),
        &mut out,
        &mut store,
        &mut hub,
        1,
    )
    .unwrap();

    let data = hub.metrics.get("node-1").unwrap();
    assert_eq!(&data, b"counter 42\n");
    assert_eq!(hub.metrics.get_hostname("node-1").as_deref(), Some("test-host"));
}

#[test]
fn test_events_published_to_bus() {
    let mut store = InMemoryControllerStore::new();
    let mut hub = Hub::new();
    let mut out = Outbox::new(8);
    insert_active_node(&mut store, "node-1");

    let events_msg = AgentMessage {
        payload: Some(AgentPayload::Events(EventBatch {
            timestamp_ns: 2000,
            node_id: "node-1".to_string(),
            events_json: vec![b"{}".to_vec(), b"{\"x\":1}".to_vec()],
        })),
    };

    drive_stream(
        msgs(vec![hello_msg("node-1", PROTOCOL_VERSION), events_msg]),
        &mut out,
        &mut store,
        &mut hub,
        1,
    )
    .unwrap();

    let batch = hub.events.first().expect("Should have received an EventBatch");
    assert_eq!(batch.node_id, "node-1");
    assert_eq!(batch.events_json.len(), 2);
}

#[test]
fn test_hello_persists_tpm_and_agent_version() {
    let mut store = InMemoryControllerStore::new();
    let mut hub = Hub::new();
    let mut out = Outbox::new(8);
    insert_active_node(&mut store, "node-1");

    let hello = AgentMessage {
        payload: Some(AgentPayload::Hello(AgentHello {
            node_id: "node-1".to_string(),
            protocol_version: PROTOCOL_VERSION,
            agent_version: "0.2.0".to_string(),
            dmi_uuid: "12345678-90ab-cdef-1234-567890abcdef".to_string(),
            tpm_backed: true,
            interfaces: vec![],
            hostname: "node-1-host".to_string(),
            os_pretty_name: "Debian 13".to_string(),
            kernel_version: "6.12.0".to_string(),
            dmi_sys_vendor: "Dell Inc.".to_string(),
            dmi_product_name: "PowerEdge R340".to_string(),
            capabilities: None,
        })),
    };

    drive_stream(msgs(vec![hello]), &mut out, &mut store, &mut hub, 1).unwrap();

    let node = store.get_node("node-1").unwrap().unwrap();
    assert!(
        node.tpm_backed,
        "tpm_backed should be persisted from AgentHello"
    );
    assert_eq!(
        node.agent_version.as_deref(),
        Some("0.2.0"),
        "agent_version should be persisted from AgentHello"
    );
    assert_eq!(
        node.dmi_sys_vendor.as_deref(),
        Some("Dell Inc."),
        "dmi_sys_vendor should be persisted from AgentHello"
    );
    assert_eq!(
        node.dmi_product_name.as_deref(),
        Some("PowerEdge R340"),
        "dmi_product_name should be persisted from AgentHello"
    );
    assert_eq!(
        node.dmi_uuid.as_deref(),
        Some("12345678-90ab-cdef-1234-567890abcdef"),
        "dmi_uuid should be persisted from AgentHello"
    );
}

#[test]
fn test_stream_error_after_registration_unregisters_own_session() {
    let mut store = InMemoryControllerStore::new();
    let mut hub = Hub::new();
    let mut out = Outbox::new(8);
    insert_active_node(&mut store, "node-1");

    // Stream: hello (registers session), then a simulated connection error.
    // drive_stream must return Ok(node_id) so that the session can be ended.
    let result = drive_stream(
        msgs_with_error(vec![hello_msg("node-1", PROTOCOL_VERSION)]),
        &mut out,
        &mut store,
        &mut hub,
        1,
    );

    assert!(
        result.is_ok(),
        "drive_stream must return Ok after stream error"
    );
    finish_stream(&mut hub, &result, 1);
    assert!(!hub.sessions.is_online("node-1"), "Session must be removed");
}

#[test]
fn test_stream_error_does_not_evict_reconnected_session() {
    let mut store = InMemoryControllerStore::new();
    let mut hub = Hub::new();
    let mut out = Outbox::new(8);
    insert_active_node(&mut store, "node-1");

    // Simulate old stream ending with an error → returns Ok(node_id)
    let result = drive_stream(
        msgs_with_error(vec![hello_msg("node-1", PROTOCOL_VERSION)]),
        &mut out,
        &mut store,
        &mut hub,
        1,
    );
    assert!(result.is_ok());

    // Node reconnects before old stream teardown → new session registered
    hub.sessions.register("node-1".to_string(), "default".to_string(), 2);
    assert!(hub.sessions.is_online("node-1"));

    // Old stream teardown must NOT evict the new session
    finish_stream(&mut hub, &result, 1);
    assert!(
        hub.sessions.is_online("node-1"),
        "Reconnected session must survive old stream teardown"
    );
}

#[test]
fn test_build_full_restore_push_empty() {
    let mut defaults = StrMap::new();
    defaults.insert("eth0:ingress".to_string(), "drop".to_string());
    let push = build_full_restore_push(vec![], defaults, None);
    assert!(push.is_full_restore);
    assert!(push.rules_to_add.is_empty());
    assert_eq!(
        push.per_interface_default_actions
            .get("eth0:ingress")
            .map(|s| s.as_str()),
        Some("drop")
    );
}

#[test]
fn test_build_full_restore_push_with_rules() {
    let rule_add = RuleAdd {
        rule_id: "r1".to_string(),
        interface_name: "eth0".to_string(),
        direction: "INGRESS".to_string(),
        params_json: b"{}".to_vec(),
    };
    let push = build_full_restore_push(vec![rule_add], StrMap::new(), None);
    assert_eq!(push.rules_to_add.len(), 1);
    assert!(push.is_full_restore);
}

#[test]
fn interfaces_are_on_record_when_the_node_is_online() {
    let mut store = InMemoryControllerStore::new();
    let mut hub = Hub::new();
    let mut out = Outbox::new(8);
    insert_active_node(&mut store, "node-1");
    let mut hello = hello_msg("node-1", PROTOCOL_VERSION);
    if let Some(AgentPayload::Hello(h)) = &mut hello.payload {
        h.interfaces.push(InterfaceReport {
            name: "eth0".to_string(),
            addresses: vec![],
            mac_address: String::new(),
            link_state: "up".to_string(),
            ifindex: 2,
        });
    }
    drive_stream(msgs(vec![hello]), &mut out, &mut store, &mut hub, 1).unwrap();
    assert_eq!(store.list_node_interfaces("node-1").unwrap()[0].name, "eth0");
}

#[test]
fn lifecycle_events_are_published() {
    let mut store = InMemoryControllerStore::new();
    let mut hub = Hub::new();
    handle_rule_lifecycle_batch(
        "node-1",
        &vec![
            br#"{"event_type":"expired","rule_id":42,"interface_name":"eth0"}"#.to_vec(),
            b"oops".to_vec(),
        ],
        &mut store,
        &mut hub,
        NOW_MS,
    );
    assert_eq!(hub.lifecycle.len(), 1);
    assert_eq!(hub.lifecycle[0].event_type, "expired");
    assert_eq!(hub.lifecycle[0].rule_id, "42");
    assert_eq!(hub.lifecycle[0].node_id, "node-1");
}

fn authority() -> FileCertificateAuthority {
    FileCertificateAuthority::generate("Test CA").ok().unwrap().0
}

fn csr_for(cn: &str) -> String {
    let key = rcgen::KeyPair::generate_for(&rcgen::PKCS_ECDSA_P256_SHA256).unwrap();
    let mut params = rcgen::CertificateParams::default();
    params.distinguished_name = rcgen::DistinguishedName::new();
    if !cn.is_empty() {
        params.distinguished_name.push(rcgen::DnType::CommonName, cn);
    }
    params.serialize_request(&key).unwrap().pem().unwrap()
}

fn der_of(pem: &str) -> Vec<u8> {
    let mut reader = pem.as_bytes();
    let der = rustls_pemfile::certs(&mut reader).next().unwrap().unwrap();
    der.to_vec()
}

#[test]
fn common_names_are_read() {
    let issued = authority()
        .issue_node_cert("node-7", 600, NOW.secs as u64)
        .ok()
        .unwrap();
    assert_eq!(extract_cn(&der_of(&issued.cert_pem)).unwrap(), "node-7");
    assert_eq!(csr_subject_cn(&csr_for("node-7")).unwrap(), "node-7");
    assert!(csr_subject_cn("nothing").is_err());
    assert!(extract_cn(b"nothing").err().unwrap().starts_with("x509 parse: "));
}

#[test]
fn renewal_needs_the_own_certificate() {
    let ca = authority();
    let issued = ca.issue_node_cert("node-7", 600, NOW.secs as u64).ok().unwrap();
    let leaf = PeerLeaf::Leaf(der_of(&issued.cert_pem));
    let (id, csr) = screen_renewal(&leaf, csr_for("node-7").as_bytes()).ok().unwrap();
    assert_eq!(id, "node-7");
    assert!(csr.contains("BEGIN CERTIFICATE REQUEST"));
    let e = screen_renewal(&leaf, csr_for("node-8").as_bytes()).err().unwrap();
    assert_eq!(e.code, RpcCode::PermissionDenied);
    let e = screen_renewal(&PeerLeaf::NoTls, b"").err().unwrap();
    assert_eq!(e.code, RpcCode::Unauthenticated);
    assert_eq!(e.message, "RenewClientCert requires an mTLS connection");
    let e = screen_renewal(&leaf, &[0xff]).err().unwrap();
    assert_eq!(e.code, RpcCode::InvalidArgument);

    let mut store = InMemoryControllerStore::new();
    let mut registry = NodeRegistry::new(ca);
    insert_active_node(&mut store, "node-7");
    let renewed = renew_client_cert(
        &mut registry,
        &mut store,
        &leaf,
        csr_for("node-7").as_bytes(),
        NOW,
    )
    .ok()
    .unwrap();
    assert_eq!(extract_cn(&der_of(&renewed.cert_pem)).unwrap(), "node-7");
    assert!(store.is_cert_revoked(&[5]).unwrap());
}

#[test]
fn enrollment_answers_tell_the_status() {
    let registry = NodeRegistry::new(authority());
    let mut store = InMemoryControllerStore::new();
    let e = request_enrollment(
        &registry,
        &mut store,
        EnrollRequest {
            public_key_der: vec![1],
            dmi_uuid: String::new(),
            csr_pem: vec![],
            signature: vec![],
            agent_version: String::new(),
            tpm_backed: false,
            hostname: String::new(),
            bootstrap_token: None,
        },
        NOW,
    )
    .err()
    .unwrap();
    assert_eq!(e.code, RpcCode::InvalidArgument);
    assert!(e.message.starts_with("Failed to parse public key DER: "));
    let e = check_enrollment_status(&registry, &store, "nope").err().unwrap();
    assert_eq!(e.code, RpcCode::NotFound);
    let a = answer_status(Ok(("pending".to_string(), None))).ok().unwrap();
    assert_eq!(a.status, EnrollmentStatus::Pending);
}

/// Taking in messages one by one comes to the same as taking them in at once.
#[test]
fn step_by_step_is_a_conversation() {
    let beat = |ns: u64| AgentMessage {
        payload: Some(AgentPayload::Heartbeat(Heartbeat { timestamp_ns: ns })),
    };
    let sent = || msgs_with_error(vec![hello_msg("node-1", PROTOCOL_VERSION), beat(1), beat(2)]);

    let mut store = InMemoryControllerStore::new();
    insert_active_node(&mut store, "node-1");
    let mut hub = Hub::new();
    let mut out = Outbox::new(16);
    let at_once = drive_stream(sent(), &mut out, &mut store, &mut hub, 7).unwrap();

    let mut other_store = InMemoryControllerStore::new();
    insert_active_node(&mut other_store, "node-1");
    let mut other_hub = Hub::new();
    let mut other_out = Outbox::new(16);
    let mut state = Conversation::Waiting;
    for item in sent() {
        state = stream_step(
            state,
            Some(item),
            &mut other_out,
            &mut other_store,
            &mut other_hub,
            7,
        );
    }
    match state {
        Conversation::Over(Ok(id)) => assert_eq!(id, at_once),
        _ => panic!("the conversation goes on"),
    }
    assert_eq!(out.queue.len(), other_out.queue.len());
    assert!(hub.sessions.is_online("node-1") && other_hub.sessions.is_online("node-1"));
    assert_eq!(
        store.get_node("node-1").unwrap().unwrap().last_seen,
        other_store.get_node("node-1").unwrap().unwrap().last_seen
    );
}

#[test]
fn stream_that_ends_at_once_is_an_error() {
    let mut store = InMemoryControllerStore::new();
    let mut hub = Hub::new();
    let mut out = Outbox::new(1);
    let state = stream_step(Conversation::Waiting, None, &mut out, &mut store, &mut hub, 1);
    assert!(matches!(state, Conversation::Over(Err(StreamError::NoHello))));
    // What is over stays over.
    let state = stream_step(state, None, &mut out, &mut store, &mut hub, 1);
    assert!(matches!(state, Conversation::Over(Err(StreamError::NoHello))));
}

fn down<T>() -> Result<T, StoreError> {
    Err(StoreError::Backend("disk full".to_string()))
}

#[test]
fn agents_are_screened_by_what_the_store_answers() {
    let mut store = InMemoryControllerStore::new();
    insert_node(&mut store, "n1", NodeStatus::Pending);
    insert_active_node(&mut store, "n2");
    match screen_node("n1", store.get_node("n1")) {
        Screened::Unfit(t) => assert_eq!(t, "Node n1 is not active (status=pending)"),
        _ => panic!("must be refused"),
    }
    assert!(matches!(screen_node("n2", store.get_node("n2")), Screened::Fit(n) if n.id == "n2"));
    match screen_node("n3", store.get_node("n3")) {
        Screened::Unfit(t) => assert!(t.starts_with("Unknown node: n3")),
        _ => panic!("must be refused"),
    }
    assert!(matches!(screen_node("n2", down()), Screened::Failed(_)));
    assert_eq!(screen_cert("n2", Ok(true)).as_deref(), Some("Node n2 cert is revoked"));
    assert!(screen_cert("n2", Ok(false)).is_none());
    assert!(screen_cert("n2", down()).is_none());
}

#[test]
fn nothing_is_sent_where_the_rules_cannot_be_listed() {
    let snap = StateSnapshot {
        rules: vec![],
        attachments: vec![],
        default_actions: StrMap::new(),
        fib_forwarding_interfaces: Vec::new(),
        per_interface_default_actions: StrMap::new(),
        stop_behavior: String::new(),
        urpf_interfaces: StrMap::new(),
    };
    assert!(rules_to_send(down(), StrMap::new(), None, &NOW).is_none());
    assert!(rules_to_send(Ok(vec![]), StrMap::new(), None, &NOW).is_none());
    assert!(delta_to_send(down(), &snap, &NOW).is_none());
    assert!(delta_to_send(Ok(vec![]), &snap, &NOW).is_none());
    assert!(everything_to_send(down(), StrMap::new(), down()).is_none());

    let stop = Some("preserve-state".to_string());
    let push = rules_to_send(Ok(vec![rule("7")]), StrMap::new(), stop, &NOW).unwrap();
    assert_eq!(push.rules_to_add.len(), 1);
    assert_eq!(push.stop_behavior, "preserve-state");
    assert_eq!(delta_to_send(Ok(vec![rule("7")]), &snap, &NOW).unwrap().rules_to_add.len(), 1);
    let push = everything_to_send(Ok(vec![]), StrMap::new(), down()).unwrap();
    assert!(push.is_full_restore && push.rules_to_add.is_empty() && push.stop_behavior.is_empty());
}
