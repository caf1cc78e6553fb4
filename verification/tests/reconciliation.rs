use policy_controller::proto::{InterfaceReport, PersistedRule, StateSnapshot};
use policy_controller::reconciliation::{
    apply_local_change, build_add_rule_json, canonicalize_add_rule_json,
    compute_default_action_drift, compute_delta, compute_drift, compute_stop_behavior_drift,
    rule_from_add_rule_json, rules_to_rule_adds, ApplyLocalChangeError, RuleFromJsonError,
};
use policy_controller::store::{
    ControllerStore, InMemoryControllerStore, NodeInterface, NodeRecord, NodeStatus, Rule,
};
use policy_controller::strmap::StrMap;
use policy_controller::timestamp::Timestamp;

const NOW: Timestamp = Timestamp { secs: 1_700_000_000, nanos: 0 };

fn make_rule(id: u64) -> Rule {
    Rule {
        id: id.to_string(),
        tenant_id: "default".to_string(),
        node_id: "n1".to_string(),
        interface_name: "eth0".to_string(),
        direction: "ingress".to_string(),
        src_cidr: Some("10.0.0.0/8".to_string()),
        dst_cidr: None,
        src_port: None,
        dst_port: Some(80),
        protocol: "tcp".to_string(),
        sni_pattern: None,
        quic_version: None,
        src_mac: None,
        dst_mac: None,
        actions_json: r#"[{"action":"drop","priority":0}]"#.to_string(),
        created_at: NOW,
        created_by: None,
        expires_after_secs: None,
        schedule_json: None,
    }
}

fn snapshot_with(rules: Vec<PersistedRule>) -> StateSnapshot {
    StateSnapshot {
        rules,
        attachments: vec![],
        default_actions: StrMap::new(),
        fib_forwarding_interfaces: Vec::new(),
        per_interface_default_actions: StrMap::new(),
        stop_behavior: String::new(),
        urpf_interfaces: StrMap::new(),
    }
}

#[test]
fn test_compute_delta_adds_missing() {
    let desired = vec![make_rule(100), make_rule(200)];
    let actual = snapshot_with(vec![PersistedRule {
        id: 999,
        params_json: vec![],
    }]);

    let delta = compute_delta(&desired, &actual);
    assert_eq!(delta.rules_to_add.len(), 2);
    assert_eq!(delta.rule_ids_to_delete.len(), 1);
    assert_eq!(delta.rule_ids_to_delete[0], "999");
}

#[test]
fn test_compute_delta_empty_actual() {
    let desired = vec![make_rule(100)];
    let actual = snapshot_with(vec![]);

    let delta = compute_delta(&desired, &actual);
    assert_eq!(delta.rules_to_add.len(), 1);
    assert!(delta.rule_ids_to_delete.is_empty());
}

#[test]
fn test_compute_delta_in_sync() {
    let desired = vec![make_rule(100)];
    let actual = snapshot_with(vec![PersistedRule {
        id: 100,
        params_json: vec![],
    }]);

    let delta = compute_delta(&desired, &actual);
    assert!(delta.rules_to_add.is_empty());
    assert!(delta.rule_ids_to_delete.is_empty());
}

#[test]
fn test_roundtrip_rule_via_add_rule_json() {
    let mut original = make_rule(100);
    original.dst_cidr = Some("192.168.1.0/24".to_string());
    original.sni_pattern = Some("example.com".to_string());
    original.expires_after_secs = Some(3600);

    let json = build_add_rule_json(&original);
    let parsed = rule_from_add_rule_json(
        &original.node_id,
        &original.tenant_id,
        json.as_bytes(),
        original.created_at,
    )
    .ok()
    .expect("parse");

    assert_eq!(parsed.id, original.id);
    assert_eq!(parsed.interface_name, original.interface_name);
    assert_eq!(parsed.direction, original.direction);
    assert_eq!(parsed.src_cidr, original.src_cidr);
    assert_eq!(parsed.dst_cidr, original.dst_cidr);
    assert_eq!(parsed.src_port, original.src_port);
    assert_eq!(parsed.dst_port, original.dst_port);
    assert_eq!(parsed.protocol, original.protocol);
    assert_eq!(parsed.sni_pattern, original.sni_pattern);
    assert_eq!(parsed.expires_after_secs, original.expires_after_secs);

    let parsed_actions: serde_json::Value = serde_json::from_str(&parsed.actions_json).unwrap();
    let original_actions: serde_json::Value =
        serde_json::from_str(&original.actions_json).unwrap();
    assert_eq!(parsed_actions, original_actions);
}

#[test]
fn test_rule_from_add_rule_json_missing_id() {
    let err = rule_from_add_rule_json(
        "n1",
        "default",
        br#"{"interface":"eth0","direction":"INGRESS","actions":[]}"#,
        NOW,
    )
    .err()
    .unwrap();
    assert!(matches!(err, RuleFromJsonError::MissingField("id")));
    assert_eq!(err.to_text(), "missing required field `id`");
}

#[test]
fn test_rule_from_add_rule_json_malformed() {
    let err = rule_from_add_rule_json("n1", "default", b"not json", NOW)
        .err()
        .unwrap();
    assert!(matches!(err, RuleFromJsonError::Json(_)));
}

#[test]
fn rule_json_of_another_shape_is_refused() {
    let err = rule_from_add_rule_json("n1", "default", b"[1]", NOW).err().unwrap();
    assert!(matches!(err, RuleFromJsonError::NotAnObject));
    let err = rule_from_add_rule_json(
        "n1",
        "default",
        br#"{"id":1,"interface":"eth0","direction":"INGRESS","protocol":"tcp","actions":7}"#,
        NOW,
    )
    .err()
    .unwrap();
    assert!(matches!(err, RuleFromJsonError::InvalidActions));
}

#[test]
fn test_canonicalize_drops_id_and_sorts_keys() {
    let a = br#"{"id":1,"protocol":"tcp","interface":"eth0","direction":"INGRESS","sport":0,"dport":0,"actions":[]}"#;
    let b = br#"{"interface":"eth0","direction":"INGRESS","protocol":"tcp","actions":[],"id":999}"#;
    let ca = canonicalize_add_rule_json(a).unwrap();
    let cb = canonicalize_add_rule_json(b).unwrap();
    assert_eq!(ca, cb);
}

#[test]
fn test_canonicalize_port_equivalence() {
    // missing, null, and 0 are all equivalent for port fields.
    let missing = br#"{"interface":"eth0","direction":"INGRESS","protocol":"tcp","actions":[]}"#;
    let null = br#"{"interface":"eth0","direction":"INGRESS","protocol":"tcp","sport":null,"dport":null,"actions":[]}"#;
    let zero = br#"{"interface":"eth0","direction":"INGRESS","protocol":"tcp","sport":0,"dport":0,"actions":[]}"#;
    let c1 = canonicalize_add_rule_json(missing).unwrap();
    let c2 = canonicalize_add_rule_json(null).unwrap();
    let c3 = canonicalize_add_rule_json(zero).unwrap();
    assert_eq!(c1, c2);
    assert_eq!(c2, c3);
}

#[test]
fn test_canonicalize_optional_string_equivalence() {
    // missing, null, and "" are all equivalent for optional string fields.
    let missing = br#"{"interface":"eth0","direction":"INGRESS","protocol":"tcp","actions":[]}"#;
    let null = br#"{"interface":"eth0","direction":"INGRESS","protocol":"tcp","sni":null,"src":null,"actions":[]}"#;
    let empty = br#"{"interface":"eth0","direction":"INGRESS","protocol":"tcp","sni":"","src":"","actions":[]}"#;
    let c1 = canonicalize_add_rule_json(missing).unwrap();
    let c2 = canonicalize_add_rule_json(null).unwrap();
    let c3 = canonicalize_add_rule_json(empty).unwrap();
    assert_eq!(c1, c2);
    assert_eq!(c2, c3);
}

#[test]
fn test_canonicalize_action_order_and_case() {
    let a = br#"{"interface":"eth0","direction":"INGRESS","protocol":"tcp","actions":[{"action":"log","priority":5},{"action":"DROP","priority":0}]}"#;
    let b = br#"{"interface":"eth0","direction":"INGRESS","protocol":"tcp","actions":[{"action":"drop","priority":0},{"action":"LOG","priority":5}]}"#;
    let ca = canonicalize_add_rule_json(a).unwrap();
    let cb = canonicalize_add_rule_json(b).unwrap();
    assert_eq!(ca, cb);
}

#[test]
fn test_canonicalize_matches_forward_codec() {
    // build_add_rule_json output canonicalizes to itself (minus `id`).
    let rule = make_rule(100);
    let forward = build_add_rule_json(&rule);
    let canon1 = canonicalize_add_rule_json(forward.as_bytes()).unwrap();
    let canon2 = canonicalize_add_rule_json(&canon1).unwrap();
    assert_eq!(canon1, canon2);
}

fn persisted_from(rule: &Rule) -> PersistedRule {
    PersistedRule {
        id: rule.id.parse().unwrap(),
        params_json: build_add_rule_json(rule).into_bytes(),
    }
}

#[test]
fn test_compute_drift_identical() {
    let r = make_rule(100);
    let snap = snapshot_with(vec![persisted_from(&r)]);
    let drift = compute_drift(&[r], &snap);
    assert!(drift.is_clean(), "expected clean drift");
}

#[test]
fn test_compute_drift_only_in_db() {
    let r = make_rule(100);
    let snap = snapshot_with(vec![]);
    let drift = compute_drift(&[r], &snap);
    assert_eq!(drift.only_in_db, vec!["100".to_string()]);
    assert!(drift.only_in_agent.is_empty());
    assert!(drift.params_mismatch.is_empty());
}

#[test]
fn test_compute_drift_only_in_agent() {
    let r = make_rule(100);
    let snap = snapshot_with(vec![persisted_from(&r)]);
    let drift = compute_drift(&[], &snap);
    assert_eq!(drift.only_in_agent, vec!["100".to_string()]);
    assert!(drift.only_in_db.is_empty());
    assert!(drift.params_mismatch.is_empty());
}

#[test]
fn test_compute_drift_params_mismatch() {
    let r = make_rule(100);
    // Agent has same id but different port — content drift.
    let mut other = make_rule(100);
    other.dst_port = Some(443);
    let snap = snapshot_with(vec![persisted_from(&other)]);
    let drift = compute_drift(&[r], &snap);
    assert_eq!(drift.params_mismatch, vec!["100".to_string()]);
    assert!(drift.only_in_db.is_empty());
    assert!(drift.only_in_agent.is_empty());
}

#[test]
fn test_compute_drift_action_order_is_not_a_mismatch() {
    let mut db_rule = make_rule(100);
    db_rule.actions_json =
        r#"[{"action":"drop","priority":0},{"action":"log","priority":5}]"#.to_string();
    // Agent has actions in reversed order; canonicalization sorts them.
    let mut agent_rule = make_rule(100);
    agent_rule.actions_json =
        r#"[{"action":"log","priority":5},{"action":"drop","priority":0}]"#.to_string();
    let snap = snapshot_with(vec![persisted_from(&agent_rule)]);
    let drift = compute_drift(&[db_rule], &snap);
    assert!(drift.is_clean(), "ordering should not drift");
}

fn interface() -> NodeInterface {
    NodeInterface {
        node_id: "n1".into(),
        name: "eth0".into(),
        ifindex: 2,
        mac_address: None,
        link_state: "up".into(),
        addresses_json: "[]".into(),
        tag: None,
        last_reported: NOW,
        xdp_attached: true,
        tc_attached: false,
        fib_forwarding: false,
        urpf_mode: 0,
        inspect_enabled: false,
        ingress_default_action: Some("drop".into()),
        egress_default_action: Some("pass".into()),
    }
}

#[test]
fn test_compute_default_action_drift_clean_and_dirty() {
    let mut snap = snapshot_with(vec![]);
    snap.per_interface_default_actions
        .insert("eth0:ingress".to_string(), "drop".to_string());
    snap.per_interface_default_actions
        .insert("eth0:egress".to_string(), "pass".to_string());
    assert!(compute_default_action_drift(&[interface()], &snap).is_clean());

    // Agent disagrees on egress + has an extra interface.
    let mut bad_snap = snap;
    bad_snap
        .per_interface_default_actions
        .insert("eth0:egress".to_string(), "drop".to_string());
    bad_snap
        .per_interface_default_actions
        .insert("eth1:ingress".to_string(), "pass".to_string());
    let drift = compute_default_action_drift(&[interface()], &bad_snap);
    assert_eq!(
        drift.mismatch,
        vec![(
            "eth0:egress".to_string(),
            "pass".to_string(),
            "drop".to_string()
        )]
    );
    assert_eq!(
        drift.only_in_agent,
        vec![("eth1:ingress".to_string(), "pass".to_string())]
    );
    assert!(drift.only_in_db.is_empty());
}

#[test]
fn test_compute_stop_behavior_drift() {
    let mut snap = snapshot_with(vec![]);
    snap.stop_behavior = "clear-state".to_string();

    // DB has no opinion → always clean.
    assert!(compute_stop_behavior_drift(None, &snap).is_clean());

    // Match.
    assert!(compute_stop_behavior_drift(Some("clear-state"), &snap).is_clean());

    // Mismatch.
    let d = compute_stop_behavior_drift(Some("preserve-state"), &snap);
    assert!(!d.is_clean());
    assert_eq!(d.db.as_deref(), Some("preserve-state"));
    assert_eq!(d.agent, "clear-state");
}

// ── apply_local_change ───────────────────────────────────────────────

fn node_record(id: &str) -> NodeRecord {
    NodeRecord {
        id: id.to_string(),
        label: None,
        public_key_der: vec![1, 2, 3],
        dmi_uuid: None,
        status: NodeStatus::Active,
        cert_serial: None,
        cert_expiry: None,
        last_seen: None,
        enrolled_at: None,
        decommissioned_at: None,
        last_renewed_at: None,
        enrollment_id: None,
        tpm_backed: false,
        agent_version: None,
        hostname: None,
        os_pretty_name: None,
        kernel_version: None,
        dmi_sys_vendor: None,
        dmi_product_name: None,
        tenant_id: "default".to_string(),
        stop_behavior: None,
        metrics_interval_secs: None,
        capabilities: "{}".to_string(),
        inspect_mode: "off".to_string(),
    }
}

fn seed_node_and_iface(store: &mut InMemoryControllerStore, node_id: &str, iface: &str) {
    store.upsert_node(&node_record(node_id)).unwrap();
    store
        .upsert_node_interfaces(
            node_id,
            &[InterfaceReport {
                name: iface.to_string(),
                addresses: vec![],
                mac_address: String::new(),
                link_state: "up".to_string(),
                ifindex: 2,
            }],
            NOW,
        )
        .unwrap();
}

#[test]
fn test_apply_local_change_round_trips_rules() {
    let mut store = InMemoryControllerStore::new();
    seed_node_and_iface(&mut store, "n1", "eth0");
    // Pre-existing rule we want to keep created_at on.
    let original_created = Timestamp { secs: NOW.secs - 7_200, nanos: 0 };
    let mut r1 = make_rule(100);
    r1.created_at = original_created;
    store.create_rule(&r1).unwrap();

    // Snapshot: same r1 (so unchanged) + a brand-new r2.
    let mut r2 = make_rule(200);
    r2.dst_port = Some(443);
    let snap = snapshot_with(vec![persisted_from(&r1), persisted_from(&r2)]);
    let now = NOW;
    let outcome = apply_local_change("n1", &snap, &mut store, now).unwrap();
    assert_eq!(outcome.rules.added, 1);
    assert_eq!(outcome.rules.updated, 0);
    assert_eq!(outcome.rules.deleted, 0);
    assert_eq!(outcome.rules.unchanged, 1);
    assert_eq!(outcome.skipped_rules, 0);
    assert!(!outcome.stop_behavior_updated);
    assert_eq!(outcome.default_actions_updated, 0);

    // r1's created_at preserved; r2 gets `now` + agent-local-change marker.
    let r1_db = store.get_rule("100").unwrap().unwrap();
    assert_eq!(r1_db.created_at, original_created);
    let r2_db = store.get_rule("200").unwrap().unwrap();
    assert_eq!(r2_db.created_at, now);
    assert_eq!(r2_db.created_by.as_deref(), Some("agent:local-change"));
}

#[test]
fn test_apply_local_change_deletes_missing_rules() {
    let mut store = InMemoryControllerStore::new();
    seed_node_and_iface(&mut store, "n1", "eth0");
    store.create_rule(&make_rule(1)).unwrap();
    store.create_rule(&make_rule(2)).unwrap();
    // Snapshot has none — both should be deleted.
    let snap = snapshot_with(vec![]);
    let outcome = apply_local_change("n1", &snap, &mut store, NOW).unwrap();
    assert_eq!(outcome.rules.deleted, 2);
    assert!(store.list_rules_for_node("n1").unwrap().is_empty());
}

#[test]
fn test_apply_local_change_updates_default_actions_and_stop_behavior() {
    let mut store = InMemoryControllerStore::new();
    seed_node_and_iface(&mut store, "n1", "eth0");

    let mut snap = snapshot_with(vec![]);
    snap.per_interface_default_actions
        .insert("eth0:ingress".to_string(), "drop".to_string());
    snap.per_interface_default_actions
        .insert("eth0:egress".to_string(), "pass".to_string());
    snap.stop_behavior = "clear-state".to_string();

    let outcome = apply_local_change("n1", &snap, &mut store, NOW).unwrap();
    assert_eq!(outcome.default_actions_updated, 2);
    assert!(outcome.stop_behavior_updated);

    let ifaces = store.list_node_interfaces("n1").unwrap();
    assert_eq!(ifaces[0].ingress_default_action.as_deref(), Some("drop"));
    assert_eq!(ifaces[0].egress_default_action.as_deref(), Some("pass"));
    assert_eq!(
        store
            .get_node("n1")
            .unwrap()
            .unwrap()
            .stop_behavior
            .as_deref(),
        Some("clear-state")
    );
}

#[test]
fn test_apply_local_change_stop_behavior_noop_when_already_matches() {
    let mut store = InMemoryControllerStore::new();
    let mut node = node_record("n1");
    node.stop_behavior = Some("preserve-state".to_string());
    store.upsert_node(&node).unwrap();

    let mut snap = snapshot_with(vec![]);
    snap.stop_behavior = "preserve-state".to_string();
    let outcome = apply_local_change("n1", &snap, &mut store, NOW).unwrap();
    assert!(!outcome.stop_behavior_updated);
}

#[test]
fn test_apply_local_change_skips_malformed_rule_but_applies_rest() {
    let mut store = InMemoryControllerStore::new();
    seed_node_and_iface(&mut store, "n1", "eth0");
    let good = make_rule(100);
    let bad = PersistedRule {
        id: 999,
        params_json: b"not json".to_vec(),
    };
    let snap = snapshot_with(vec![persisted_from(&good), bad]);
    let outcome = apply_local_change("n1", &snap, &mut store, NOW).unwrap();
    assert_eq!(outcome.skipped_rules, 1);
    assert_eq!(outcome.rules.added, 1);
    assert!(store.get_rule("100").unwrap().is_some());
    assert!(store.get_rule("999").unwrap().is_none());
}

#[test]
fn test_apply_local_change_unknown_node_errors() {
    let mut store = InMemoryControllerStore::new();
    let snap = snapshot_with(vec![]);
    let err = apply_local_change("ghost", &snap, &mut store, NOW).err().unwrap();
    assert!(matches!(err, ApplyLocalChangeError::NodeNotFound(_)));
}

#[test]
fn test_apply_local_change_ignores_malformed_default_action_key() {
    let mut store = InMemoryControllerStore::new();
    seed_node_and_iface(&mut store, "n1", "eth0");
    let mut snap = snapshot_with(vec![]);
    // Missing the ":direction" half — must not blow up the whole apply.
    snap.per_interface_default_actions
        .insert("eth0_bogus".to_string(), "drop".to_string());
    snap.per_interface_default_actions
        .insert("eth0:ingress".to_string(), "drop".to_string());
    let outcome = apply_local_change("n1", &snap, &mut store, NOW).unwrap();
    assert_eq!(outcome.default_actions_updated, 1);
}

#[test]
fn test_rules_to_rule_adds() {
    let rules = vec![make_rule(100)];
    let adds = rules_to_rule_adds(&rules);
    assert_eq!(adds.len(), 1);
    assert_eq!(adds[0].rule_id, "100");
    assert_eq!(adds[0].direction, "INGRESS");
    assert_eq!(adds[0].interface_name, "eth0");

    let json: serde_json::Value = serde_json::from_slice(&adds[0].params_json).unwrap();
    assert_eq!(json["id"], 100);
    assert_eq!(json["interface"], "eth0");
    assert_eq!(json["protocol"], "tcp");
    assert_eq!(json["dport"], 80);
    assert_eq!(json["actions"][0]["action"], "DROP");
}

#[test]
fn taken_over_state_needs_no_delta() {
    let mut store = InMemoryControllerStore::new();
    seed_node_and_iface(&mut store, "n1", "eth0");
    store.create_rule(&make_rule(100)).unwrap();
    store.create_rule(&make_rule(300)).unwrap();

    let mut changed = make_rule(100);
    changed.dst_port = Some(443);
    let mut snap = snapshot_with(vec![persisted_from(&changed), persisted_from(&make_rule(200))]);
    snap.stop_behavior = "preserve-state".to_string();
    let before = compute_delta(&store.list_rules_for_node("n1").unwrap(), &snap);
    assert_eq!(before.rules_to_add.len(), 1);
    assert_eq!(before.rule_ids_to_delete, ["200"]);

    apply_local_change("n1", &snap, &mut store, NOW).unwrap();
    let rules = store.list_rules_for_node("n1").unwrap();
    let after = compute_delta(&rules, &snap);
    assert!(after.rules_to_add.is_empty() && after.rule_ids_to_delete.is_empty());
    assert!(compute_drift(&rules, &snap).is_clean());
    let node = store.get_node("n1").unwrap().unwrap();
    assert_eq!(node.stop_behavior.as_deref(), Some("preserve-state"));
}

#[test]
fn canonical_bytes_are_their_own_canonical_form() {
    let payload = br#"{"id":7,"direction":"inGress","src":"","dst":null,"dport":80,
        "actions":[{"action":"log"},{"action":"Drop","priority":-1,"x":[1,{"y":null}]}]}"#;
    let once = canonicalize_add_rule_json(payload).unwrap();
    let twice = canonicalize_add_rule_json(&once).unwrap();
    assert_eq!(twice, once);
    let other = br#"{"id":8,"direction":"INGRESS","dport":80,"sport":0,"sni":"",
        "actions":[{"priority":-1,"x":[1,{"y":null}],"action":"drop"},{"action":"LOG"}]}"#;
    assert_eq!(canonicalize_add_rule_json(other).unwrap(), once);
    assert!(canonicalize_add_rule_json(b"{").is_err());
}

#[test]
fn rule_comes_back_with_a_loosely_written_schedule() {
    let mut rule = make_rule(7);
    rule.schedule_json = Some(r#" { "days" : [ 1, 2 ] , "at":"08:00"} "#.to_string());
    rule.actions_json = r#"[ {"priority": 0, "action": "drop"} ]"#.to_string();
    let json = build_add_rule_json(&rule);
    let back = rule_from_add_rule_json("n1", "default", json.as_bytes(), NOW).unwrap();
    assert_eq!(back.schedule_json.as_deref(), Some(r#"{"at":"08:00","days":[1,2]}"#));
    assert_eq!(back.actions_json, r#"[{"action":"drop","priority":0}]"#);
    assert_eq!(back.id, rule.id);
    assert_eq!(back.direction, rule.direction);
    assert_eq!(back.dst_port, rule.dst_port);
}

#[test]
fn names_return_from_upper_case() {
    let mut rule = make_rule(9);
    rule.direction = "egress".to_string();
    rule.actions_json = r#"[{"action":"rate-limit_2"},{"action":7}]"#.to_string();
    let json = build_add_rule_json(&rule);
    assert!(json.contains("EGRESS") && json.contains("RATE-LIMIT_2"));
    let back = rule_from_add_rule_json("n1", "default", json.as_bytes(), NOW).unwrap();
    assert_eq!(back.direction, "egress");
    assert_eq!(back.actions_json, rule.actions_json);
}

#[test]
fn actions_that_nest_too_deep_for_the_form_do_not_come_back() {
    let nested = |levels: usize| {
        let list = format!("{}{}", "[".repeat(levels), "]".repeat(levels));
        let mut rule = make_rule(9);
        rule.actions_json = format!(r#"[{{"action":"drop","x":{list}}}]"#);
        let json = build_add_rule_json(&rule);
        rule_from_add_rule_json("n1", "default", json.as_bytes(), NOW).is_ok()
    };
    assert!(nested(124));
    assert!(!nested(125));
}

#[test]
fn fractions_with_an_exact_notation_come_back() {
    let mut rule = make_rule(9);
    rule.actions_json = r#"[{"action":"drop","weight":0.5}]"#.to_string();
    rule.schedule_json = Some(r#"{"share":-2.25}"#.to_string());
    let json = build_add_rule_json(&rule);
    let back = rule_from_add_rule_json("n1", "default", json.as_bytes(), NOW).unwrap();
    assert_eq!(back.actions_json, rule.actions_json);
    assert_eq!(back.schedule_json, rule.schedule_json);
    let once = canonicalize_add_rule_json(json.as_bytes()).unwrap();
    assert_eq!(canonicalize_add_rule_json(&once).unwrap(), once);
}
