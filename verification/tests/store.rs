use policy_controller::proto::InterfaceReport;
use policy_controller::store::memory::add_sources;
use policy_controller::store::replacement::plan_replacement;
use policy_controller::store::{
    rule_content_equal, AgentInfo, ControllerStore, EnrollmentTokenRecord, InMemoryControllerStore, NewAuditEntry,
    NewSuricataAlert, NodeRecord, NodeStatus, Rule, StoreError, SuricataAlertFilter,
    SuricataRuleFileReport, SuricataRuleset, TokenRedeemOutcome,
};
use policy_controller::timestamp::Timestamp;

const NOW: Timestamp = Timestamp { secs: 1_700_000_000, nanos: 0 };

fn sample_node(id: &str) -> NodeRecord {
    NodeRecord {
        id: id.to_string(),
        label: None,
        public_key_der: vec![1, 2, 3],
        dmi_uuid: None,
        status: NodeStatus::Pending,
        cert_serial: None,
        cert_expiry: None,
        last_seen: None,
        enrolled_at: None,
        decommissioned_at: None,

        last_renewed_at: None,
        enrollment_id: Some(format!("enroll-{}", id)),
        tpm_backed: false,
        agent_version: Some("0.1.0".to_string()),
        hostname: None,
        os_pretty_name: None,
        kernel_version: None,
        dmi_sys_vendor: None,
        dmi_product_name: None,
        tenant_id: "default".to_string(),
        stop_behavior: None,
        metrics_interval_secs: None,
        capabilities: "{}".to_string(),
        inspect_mode: "disabled".to_string(),
    }
}

fn sample_rule(id: &str, node_id: &str, iface: &str, direction: &str) -> Rule {
    Rule {
        id: id.to_string(),
        tenant_id: "default".to_string(),
        node_id: node_id.to_string(),
        interface_name: iface.to_string(),
        direction: direction.to_string(),
        src_cidr: Some("10.0.0.0/8".to_string()),
        dst_cidr: None,
        src_port: None,
        dst_port: Some(80),
        protocol: "tcp".to_string(),
        sni_pattern: None,
        quic_version: None,
        src_mac: None,
        dst_mac: None,
        actions_json: r#"[{"action":"drop","priority":0}]"#.to_string(),
        created_at: NOW,
        created_by: Some("test".to_string()),
        expires_after_secs: None,
        schedule_json: None,
    }
}

#[test]
fn test_upsert_and_get_node() {
    let mut store = InMemoryControllerStore::new();
    let node = sample_node("abc123");
    store.upsert_node(&node).unwrap();

    let got = store.get_node("abc123").unwrap().unwrap();
    assert_eq!(got.id, "abc123");
    assert_eq!(got.status, NodeStatus::Pending);
}

#[test]
fn test_get_missing_node_returns_none() {
    let mut store = InMemoryControllerStore::new();
    assert!(store.get_node("nope").unwrap().is_none());
}

#[test]
fn test_update_node_status() {
    let mut store = InMemoryControllerStore::new();
    store.upsert_node(&sample_node("n1")).unwrap();
    store
        .update_node_status("n1", NodeStatus::Active)
        .unwrap();

    let node = store.get_node("n1").unwrap().unwrap();
    assert_eq!(node.status, NodeStatus::Active);
}

#[test]
fn test_list_nodes_with_status_filter() {
    let mut store = InMemoryControllerStore::new();
    store.upsert_node(&sample_node("p1")).unwrap();
    let mut active = sample_node("a1");
    active.status = NodeStatus::Active;
    store.upsert_node(&active).unwrap();

    let pending = store
        .list_nodes(None, Some(NodeStatus::Pending))
        .unwrap();
    assert_eq!(pending.len(), 1);
    assert_eq!(pending[0].id, "p1");

    let all = store.list_nodes(None, None).unwrap();
    assert_eq!(all.len(), 2);
}

#[test]
fn test_cert_revocation() {
    let mut store = InMemoryControllerStore::new();
    let serial = vec![1, 2, 3, 4];
    assert!(!store.is_cert_revoked(&serial).unwrap());
    store.revoke_cert(&serial).unwrap();
    assert!(store.is_cert_revoked(&serial).unwrap());
}

#[test]
fn test_rule_crud() {
    let mut store = InMemoryControllerStore::new();
    let rule = sample_rule("r1", "n1", "eth0", "ingress");
    store.create_rule(&rule).unwrap();

    let got = store.get_rule("r1").unwrap().unwrap();
    assert_eq!(got.node_id, "n1");
    assert_eq!(got.interface_name, "eth0");

    let node_rules = store.list_rules_for_node("n1").unwrap();
    assert_eq!(node_rules.len(), 1);

    let iface_rules = store
        .list_rules_for_interface("n1", "eth0", "ingress")
        .unwrap();
    assert_eq!(iface_rules.len(), 1);

    let empty = store
        .list_rules_for_interface("n1", "eth0", "egress")
        .unwrap();
    assert!(empty.is_empty());

    store.delete_rule("r1").unwrap();
    assert!(store.get_rule("r1").unwrap().is_none());
}

#[test]
fn test_delete_rules_for_node() {
    let mut store = InMemoryControllerStore::new();
    store
        .create_rule(&sample_rule("r1", "n1", "eth0", "ingress"))
        .unwrap();
    store
        .create_rule(&sample_rule("r2", "n1", "eth1", "egress"))
        .unwrap();
    store
        .create_rule(&sample_rule("r3", "n2", "eth0", "ingress"))
        .unwrap();

    store.delete_rules_for_node("n1").unwrap();
    assert!(store.list_rules_for_node("n1").unwrap().is_empty());
    assert_eq!(store.list_rules_for_node("n2").unwrap().len(), 1);
}

#[test]
fn test_node_interfaces() {
    let mut store = InMemoryControllerStore::new();
    let interfaces = vec![
        InterfaceReport {
            name: "eth0".to_string(),
            addresses: vec![],
            mac_address: "aa:bb:cc:dd:ee:ff".to_string(),
            link_state: "up".to_string(),
            ifindex: 2,
        },
        InterfaceReport {
            name: "lo".to_string(),
            addresses: vec![],
            mac_address: String::new(),
            link_state: "unknown".to_string(),
            ifindex: 1,
        },
    ];

    store
        .upsert_node_interfaces("n1", &interfaces, NOW)
        .unwrap();
    let result = store.list_node_interfaces("n1").unwrap();
    assert_eq!(result.len(), 2);
    assert_eq!(result[0].name, "eth0");
    assert_eq!(result[0].mac_address.as_deref(), Some("aa:bb:cc:dd:ee:ff"));
}

#[test]
fn test_interface_tagging() {
    let mut store = InMemoryControllerStore::new();
    let interfaces = vec![InterfaceReport {
        name: "eth0".to_string(),
        addresses: vec![],
        mac_address: "aa:bb:cc:dd:ee:ff".to_string(),
        link_state: "up".to_string(),
        ifindex: 2,
    }];
    store
        .upsert_node_interfaces("n1", &interfaces, NOW)
        .unwrap();

    store.set_interface_tag("n1", "eth0", "WAN").unwrap();
    let result = store.list_node_interfaces("n1").unwrap();
    assert_eq!(result[0].tag.as_deref(), Some("WAN"));

    store.remove_interface_tag("n1", "eth0").unwrap();
    let result = store.list_node_interfaces("n1").unwrap();
    assert!(result[0].tag.is_none());
}

#[test]
fn test_audit_log_ordering() {
    let mut store = InMemoryControllerStore::new();
    for i in 0..5u32 {
        store
            .append_audit(NewAuditEntry {
                operator: None,
                action: format!("action-{}", i),
                node_id: None,
                detail: None,
                tenant_id: None,
            }, NOW)
            .unwrap();
    }
    let log = store.list_audit(None, 3, 0).unwrap();
    assert_eq!(log.len(), 3);
    assert!(log[0].action.contains("4"));
}

#[test]
fn test_audit_list_between_filters_and_caps() {
    let mut store = InMemoryControllerStore::new();
    for i in 0..5u32 {
        store
            .append_audit(NewAuditEntry {
                operator: None,
                action: format!("action-{}", i),
                node_id: None,
                detail: None,
                tenant_id: Some("acme".to_string()),
            }, NOW)
            .unwrap();
    }
    // A row in a different tenant must stay invisible to acme-scoped reads.
    store
        .append_audit(NewAuditEntry {
            operator: None,
            action: "other".to_string(),
            node_id: None,
            detail: None,
            tenant_id: Some("globex".to_string()),
        }, NOW)
        .unwrap();

    let now = NOW.secs;

    // Wide-open window, tenant-scoped, capped: newest-first, 3 of 5 rows.
    let capped = store
        .list_audit_between(Some("acme"), None, None, 3)
        .unwrap();
    assert_eq!(capped.len(), 3);
    assert!(capped[0].action.contains("4"));

    // A window straddling "now" returns all acme rows and only acme rows.
    let in_window = store
        .list_audit_between(Some("acme"), Some(now - 60), Some(now + 60), 100)
        .unwrap();
    assert_eq!(in_window.len(), 5);
    assert!(in_window.iter().all(|e| e.tenant_id == "acme"));

    // A window entirely in the past matches nothing.
    let empty = store
        .list_audit_between(Some("acme"), Some(0), Some(now - 3600), 100)
        .unwrap();
    assert!(empty.is_empty());

    // Cross-tenant (None) sees every tenant's rows.
    let all = store
        .list_audit_between(None, None, None, 100)
        .unwrap();
    assert_eq!(all.len(), 6);
}

/// Explicit > derived from node > 'default'.
#[test]
fn test_audit_tenant_resolution_precedence() {
    let mut store = InMemoryControllerStore::new();

    // A node row anchored to tenant "acme".
    let mut node = sample_node("acme-node-1");
    node.tenant_id = "acme".to_string();
    store.upsert_node(&node).unwrap();

    // 1. Explicit slug wins over everything else.
    store
        .append_audit(NewAuditEntry {
            operator: None,
            action: "iam.role.granted".to_string(),
            node_id: Some("acme-node-1".to_string()),
            detail: None,
            tenant_id: Some("override-tenant".to_string()),
        }, NOW)
        .unwrap();

    // 2. No explicit + node_id present → derived from the node.
    store
        .append_audit(NewAuditEntry {
            operator: None,
            action: "node.enrollment_approved".to_string(),
            node_id: Some("acme-node-1".to_string()),
            detail: None,
            tenant_id: None,
        }, NOW)
        .unwrap();

    // 3. No explicit + unknown node_id → 'default' fallback.
    store
        .append_audit(NewAuditEntry {
            operator: None,
            action: "node.audit_after_decommission".to_string(),
            node_id: Some("ghost-node".to_string()),
            detail: None,
            tenant_id: None,
        }, NOW)
        .unwrap();

    // 4. No explicit + no node_id → 'default' fallback.
    store
        .append_audit(NewAuditEntry {
            operator: None,
            action: "controller.startup".to_string(),
            node_id: None,
            detail: None,
            tenant_id: None,
        }, NOW)
        .unwrap();

    let all = store.list_audit(None, 100, 0).unwrap();
    let tenant_for = |action: &str| {
        all.iter()
            .find(|e| e.action == action)
            .map(|e| e.tenant_id.as_str())
            .expect("audit entry for action present")
    };
    assert_eq!(tenant_for("iam.role.granted"), "override-tenant");
    assert_eq!(tenant_for("node.enrollment_approved"), "acme");
    assert_eq!(tenant_for("node.audit_after_decommission"), "default");
    assert_eq!(tenant_for("controller.startup"), "default");

    // The filter on list_audit honours the resolved tenant, not the
    // node's tenant (so an explicit-override row stays in the override
    // tenant's view even if the node belongs elsewhere).
    let actions_in = |slug: &str| -> Vec<String> {
        all.iter()
            .filter(|e| e.tenant_id == slug)
            .map(|e| e.action.clone())
            .collect()
    };
    let acme = actions_in("acme");
    assert!(acme.contains(&"node.enrollment_approved".to_string()));
    assert!(!acme.contains(&"iam.role.granted".to_string()));
    assert_eq!(actions_in("override-tenant"), vec!["iam.role.granted"]);
}

#[test]
fn test_replace_rules_for_node_noop() {
    let mut store = InMemoryControllerStore::new();
    store
        .create_rule(&sample_rule("r1", "n1", "eth0", "ingress"))
        .unwrap();
    let same = sample_rule("r1", "n1", "eth0", "ingress");
    let summary = store.replace_rules_for_node("n1", &[same]).unwrap();
    assert!(summary.is_noop(), "expected noop replace");
    assert_eq!(summary.unchanged, 1);
}

#[test]
fn test_replace_rules_for_node_add_update_delete() {
    let mut store = InMemoryControllerStore::new();
    // Seed: r1 (will be updated), r2 (will be deleted), and a rule on
    // another node that must not be touched.
    store
        .create_rule(&sample_rule("r1", "n1", "eth0", "ingress"))
        .unwrap();
    store
        .create_rule(&sample_rule("r2", "n1", "eth1", "egress"))
        .unwrap();
    store
        .create_rule(&sample_rule("r9", "n2", "eth0", "ingress"))
        .unwrap();

    let mut updated_r1 = sample_rule("r1", "n1", "eth0", "ingress");
    updated_r1.dst_port = Some(8080); // content change
    let new_r3 = sample_rule("r3", "n1", "eth2", "ingress");

    let summary = store
        .replace_rules_for_node("n1", &[updated_r1, new_r3])
        .unwrap();
    assert_eq!(summary.added, 1, "r3 added");
    assert_eq!(summary.updated, 1, "r1 updated");
    assert_eq!(summary.deleted, 1, "r2 deleted");
    assert_eq!(summary.unchanged, 0);

    let after: std::collections::HashSet<String> = store
        .list_rules_for_node("n1")
        .unwrap()
        .into_iter()
        .map(|r| r.id)
        .collect();
    assert_eq!(after, ["r1", "r3"].iter().map(|s| s.to_string()).collect());

    // n2's rule survives.
    let n2 = store.list_rules_for_node("n2").unwrap();
    assert_eq!(n2.len(), 1);
    assert_eq!(n2[0].id, "r9");

    // The updated r1 actually has the new port.
    let r1 = store.get_rule("r1").unwrap().unwrap();
    assert_eq!(r1.dst_port, Some(8080));
}

#[test]
fn test_replace_rules_for_node_to_empty_deletes_all() {
    let mut store = InMemoryControllerStore::new();
    store
        .create_rule(&sample_rule("r1", "n1", "eth0", "ingress"))
        .unwrap();
    store
        .create_rule(&sample_rule("r2", "n1", "eth1", "egress"))
        .unwrap();
    let summary = store.replace_rules_for_node("n1", &[]).unwrap();
    assert_eq!(summary.deleted, 2);
    assert_eq!(summary.added, 0);
    assert_eq!(summary.updated, 0);
    assert!(store.list_rules_for_node("n1").unwrap().is_empty());
}

#[test]
fn test_replace_rules_for_node_rejects_wrong_node() {
    let mut store = InMemoryControllerStore::new();
    let foreign = sample_rule("r1", "other", "eth0", "ingress");
    let err = store
        .replace_rules_for_node("n1", &[foreign])
        .err()
        .unwrap();
    assert!(err.to_text().contains("node_id"));
}

#[test]
fn test_get_node_by_enrollment_id() {
    let mut store = InMemoryControllerStore::new();
    let node = sample_node("n1");
    let eid = node.enrollment_id.clone().unwrap();
    store.upsert_node(&node).unwrap();

    let found = store
        .get_node_by_enrollment_id(&eid)
        .unwrap()
        .unwrap();
    assert_eq!(found.id, "n1");

    let missing = store.get_node_by_enrollment_id("no-such").unwrap();
    assert!(missing.is_none());
}

fn report(name: &str, ifindex: u32) -> InterfaceReport {
    InterfaceReport {
        name: name.to_string(),
        addresses: vec![],
        mac_address: String::new(),
        link_state: "up".to_string(),
        ifindex,
    }
}

#[test]
fn metrics_interval_is_set_and_cleared() {
    let mut store = InMemoryControllerStore::new();
    store.upsert_node(&sample_node("n1")).unwrap();
    store.update_node_metrics_interval("n1", Some(15)).unwrap();
    let listed = store.list_nodes(Some("default"), None).unwrap();
    assert_eq!(listed[0].metrics_interval_secs, Some(15));
    store.update_node_metrics_interval("n1", None).unwrap();
    let node = store.get_node("n1").unwrap().unwrap();
    assert_eq!(node.metrics_interval_secs, None);
}

#[test]
fn urpf_modes_of_unlisted_interfaces_are_cleared() {
    let mut store = InMemoryControllerStore::new();
    store.upsert_node(&sample_node("n1")).unwrap();
    store
        .upsert_node_interfaces("n1", &[report("eth0", 2), report("eth1", 3)], NOW)
        .unwrap();
    store
        .update_interface_urpf("n1", &[("eth0".to_string(), 2), ("eth1".to_string(), 1)])
        .unwrap();
    let ifaces = store.list_node_interfaces("n1").unwrap();
    assert_eq!((ifaces[0].urpf_mode, ifaces[1].urpf_mode), (2, 1));
    store.update_interface_urpf("n1", &[("eth0".to_string(), 1)]).unwrap();
    let all = store.list_all_node_interfaces(None).unwrap();
    assert_eq!((all[0].urpf_mode, all[1].urpf_mode), (1, 0));
}

#[test]
fn inspect_flags_are_set_alone_and_replaced_together() {
    let mut store = InMemoryControllerStore::new();
    store.upsert_node(&sample_node("n1")).unwrap();
    store
        .upsert_node_interfaces("n1", &[report("eth0", 2), report("eth1", 3)], NOW)
        .unwrap();
    store.set_node_inspect_mode("n1", "ips").unwrap();
    assert_eq!(store.get_node("n1").unwrap().unwrap().inspect_mode, "ips");
    store.update_interface_inspect_enabled("n1", "eth0", true).unwrap();
    let v = store.list_node_interfaces("n1").unwrap();
    assert_eq!((v[0].inspect_enabled, v[1].inspect_enabled), (true, false));
    store.update_interface_inspect("n1", &["eth1".to_string()]).unwrap();
    let v = store.list_node_interfaces("n1").unwrap();
    assert_eq!((v[0].inspect_enabled, v[1].inspect_enabled), (false, true));
}

#[test]
fn rule_with_the_same_id_is_overwritten() {
    let mut store = InMemoryControllerStore::new();
    let rule = sample_rule("1718789620123456", "n1", "enp1s0", "ingress");
    store.create_rule(&rule).unwrap();
    let mut updated = rule.clone();
    updated.protocol = "udp".to_string();
    store.create_rule(&updated).unwrap();
    let rules = store.list_rules_for_node("n1").unwrap();
    assert_eq!(rules.len(), 1);
    assert_eq!(rules[0].protocol, "udp");
}

fn token(uses: i64) -> EnrollmentTokenRecord {
    EnrollmentTokenRecord {
        token_id: "t1".to_string(),
        token_hash: vec![7; 32],
        created_at: NOW,
        created_by: None,
        expires_at: Timestamp { secs: NOW.secs + 60, nanos: 0 },
        uses_remaining: uses,
        cidr_scope: None,
        fleet_label: Some("edge".to_string()),
        revoked_at: None,
        tenant_id: "acme".to_string(),
    }
}

#[test]
fn token_is_redeemed_until_it_is_used_up() {
    let mut store = InMemoryControllerStore::new();
    store.insert_enrollment_token(&token(1)).unwrap();
    assert!(matches!(
        store.redeem_enrollment_token("nope", &[7; 32], NOW).unwrap(),
        TokenRedeemOutcome::Unknown
    ));
    assert!(matches!(
        store.redeem_enrollment_token("t1", &[8; 32], NOW).unwrap(),
        TokenRedeemOutcome::BadSecret
    ));
    match store.redeem_enrollment_token("t1", &[7; 32], NOW).unwrap() {
        TokenRedeemOutcome::Redeemed { fleet_label, tenant_id } => {
            assert_eq!(fleet_label.as_deref(), Some("edge"));
            assert_eq!(tenant_id, "acme");
        }
        _ => panic!("must be redeemed"),
    }
    assert!(matches!(
        store.redeem_enrollment_token("t1", &[7; 32], NOW).unwrap(),
        TokenRedeemOutcome::Exhausted
    ));
}

#[test]
fn token_that_expired_or_was_revoked_is_refused() {
    let mut store = InMemoryControllerStore::new();
    store.insert_enrollment_token(&token(5)).unwrap();
    let late = Timestamp { secs: NOW.secs + 60, nanos: 0 };
    assert!(matches!(
        store.redeem_enrollment_token("t1", &[7; 32], late).unwrap(),
        TokenRedeemOutcome::Expired
    ));
    store.revoke_enrollment_token("t1", NOW).unwrap();
    assert!(matches!(
        store.redeem_enrollment_token("t1", &[7; 32], NOW).unwrap(),
        TokenRedeemOutcome::Revoked
    ));
}

#[test]
fn errors_name_what_is_missing() {
    let mut store = InMemoryControllerStore::new();
    let e = store.update_node_status("ghost", NodeStatus::Active).err().unwrap();
    assert!(matches!(e, StoreError::NodeNotFound(_)));
    assert_eq!(e.to_text(), "Node not found: ghost");
    let e = store.set_interface_tag("n1", "eth9", "x").err().unwrap();
    assert_eq!(e.to_text(), "Interface not found: n1:eth9");
    store.insert_enrollment_token(&token(1)).unwrap();
    let e = store.insert_enrollment_token(&token(1)).err().unwrap();
    assert_eq!(e.to_text(), "Duplicate enrollment token id: t1");
    let e = store
        .update_suricata_ruleset("no-such", "", "", 0, NOW)
        .err()
        .unwrap();
    assert_eq!(e.to_text(), "Ruleset 'no-such' not found");
    store.upsert_node_interfaces("n1", &[report("eth0", 2)], NOW).unwrap();
    let e = store
        .update_interface_default_action("n1", "eth0", "sideways", "drop")
        .err()
        .unwrap();
    assert_eq!(e.to_text(), "Invalid direction: sideways");
}

#[test]
fn agent_info_keeps_what_is_not_told() {
    let mut store = InMemoryControllerStore::new();
    store.upsert_node(&sample_node("n1")).unwrap();
    let info = AgentInfo {
        tpm_backed: true,
        agent_version: None,
        hostname: Some("h".to_string()),
        os_pretty_name: None,
        kernel_version: None,
        dmi_sys_vendor: None,
        dmi_product_name: None,
        dmi_uuid: None,
    };
    store.update_node_agent_info("n1", &info).unwrap();
    let n = store.get_node("n1").unwrap().unwrap();
    assert!(n.tpm_backed);
    assert_eq!(n.agent_version.as_deref(), Some("0.1.0"));
    assert_eq!(n.hostname.as_deref(), Some("h"));
}

fn alert(severity: i32, received_ns: i64) -> NewSuricataAlert {
    NewSuricataAlert {
        tenant_id: "default".to_string(),
        node_id: "n1".to_string(),
        timestamp: "t".to_string(),
        received_ns,
        src_ip: None,
        src_port: None,
        dst_ip: None,
        dst_port: None,
        proto: None,
        action: None,
        signature_id: Some(2001),
        signature: Some("ET SCAN".to_string()),
        category: None,
        severity: Some(severity),
        raw_json: "{}".to_string(),
    }
}

#[test]
fn alerts_come_latest_first_and_are_acknowledged() {
    let mut store = InMemoryControllerStore::new();
    store
        .insert_suricata_alerts(&[alert(1, 10), alert(3, 30), alert(2, 20)])
        .unwrap();
    let mut filter = SuricataAlertFilter {
        tenant_id: Some("default".to_string()),
        node_id: None,
        min_severity: Some(2),
        signature_id: None,
        signature_contains: None,
        include_acked: false,
    };
    let v = store.list_suricata_alerts(&filter, 10).unwrap();
    let times: Vec<i64> = v.iter().map(|a| a.received_ns).collect();
    assert_eq!(times, vec![20, 10]);
    assert_eq!(store.ack_suricata_alerts("default", None, 99).unwrap(), 3);
    assert!(store.list_suricata_alerts(&filter, 10).unwrap().is_empty());
    filter.include_acked = true;
    assert_eq!(store.list_suricata_alerts(&filter, 1).unwrap().len(), 1);
    assert_eq!(store.clear_suricata_alerts("default", None).unwrap(), 3);
}

#[test]
fn deleted_node_takes_its_records_along() {
    let mut store = InMemoryControllerStore::new();
    store.upsert_node(&sample_node("n1")).unwrap();
    store.store_node_cert_pem("n1", "PEM").unwrap();
    store.upsert_node_interfaces("n1", &[report("eth0", 2)], NOW).unwrap();
    assert_eq!(store.get_node_cert_pem("n1").unwrap().as_deref(), Some("PEM"));
    store.delete_node("n1").unwrap();
    assert!(store.get_node("n1").unwrap().is_none());
    assert!(store.list_node_interfaces("n1").unwrap().is_empty());
}

fn ruleset(id: &str, tenant: &str, name: &str) -> SuricataRuleset {
    SuricataRuleset {
        id: id.to_string(),
        tenant_id: tenant.to_string(),
        name: name.to_string(),
        content: "alert tcp any any -> any any (sid:1;)".to_string(),
        sha256: "aa".to_string(),
        rule_count: 1,
        created_at: NOW,
        updated_at: NOW,
    }
}

#[test]
fn rulesets_are_kept_assigned_and_deleted() {
    let mut store = InMemoryControllerStore::new();
    store.create_suricata_ruleset(&ruleset("b", "default", "zeta")).unwrap();
    store.create_suricata_ruleset(&ruleset("a", "default", "alpha")).unwrap();
    store.create_suricata_ruleset(&ruleset("c", "other", "alpha")).unwrap();
    let taken = store.create_suricata_ruleset(&ruleset("d", "default", "alpha"));
    assert!(matches!(taken, Err(StoreError::RulesetNameTaken(name)) if name == "alpha"));

    let names: Vec<String> = store
        .list_suricata_rulesets(Some("default"))
        .unwrap()
        .into_iter()
        .map(|r| r.name)
        .collect();
    assert_eq!(names, ["alpha", "zeta"]);
    assert_eq!(store.list_suricata_rulesets(None).unwrap().len(), 3);

    let later = Timestamp { secs: 1_700_000_060, nanos: 0 };
    store.update_suricata_ruleset("a", "# none", "bb", 0, later).unwrap();
    let updated = store.get_suricata_ruleset("a").unwrap().unwrap();
    assert_eq!(updated.content, "# none");
    assert_eq!(updated.sha256, "bb");
    assert_eq!(updated.rule_count, 0);
    assert_eq!(updated.created_at, NOW);
    assert_eq!(updated.updated_at, later);

    store.assign_suricata_ruleset("n1", "b").unwrap();
    store.assign_suricata_ruleset("n1", "a").unwrap();
    store.assign_suricata_ruleset("n0", "a").unwrap();
    let ids: Vec<String> = store
        .list_suricata_rulesets_for_node("n1")
        .unwrap()
        .into_iter()
        .map(|r| r.id)
        .collect();
    assert_eq!(ids, ["a", "b"]);
    assert_eq!(store.list_nodes_for_suricata_ruleset("a").unwrap(), ["n0", "n1"]);

    store.unassign_suricata_ruleset("n0", "a").unwrap();
    assert_eq!(store.list_nodes_for_suricata_ruleset("a").unwrap(), ["n1"]);
    store.delete_suricata_ruleset("a").unwrap();
    assert!(store.get_suricata_ruleset("a").unwrap().is_none());
    assert_eq!(store.list_suricata_rulesets_for_node("n1").unwrap().len(), 1);
    assert!(store.list_nodes_for_suricata_ruleset("a").unwrap().is_empty());
}

#[test]
fn reported_rule_files_replace_the_earlier() {
    let file = |name: &str| SuricataRuleFileReport {
        node_id: "n1".to_string(),
        filename: name.to_string(),
        sha256: "aa".to_string(),
        rule_count: 2,
    };
    let mut store = InMemoryControllerStore::new();
    store.replace_node_suricata_rule_files("n1", &[file("z.rules"), file("b.rules")]).unwrap();
    let names: Vec<String> = store
        .list_node_suricata_rule_files("n1")
        .unwrap()
        .into_iter()
        .map(|f| f.filename)
        .collect();
    assert_eq!(names, ["b.rules", "z.rules"]);
    store.replace_node_suricata_rule_files("n1", &[file("c.rules")]).unwrap();
    assert_eq!(store.list_node_suricata_rule_files("n1").unwrap().len(), 1);
    assert!(store.list_node_suricata_rule_files("n2").unwrap().is_empty());
}

#[test]
fn sources_of_active_nodes_are_united() {
    let mut store = InMemoryControllerStore::new();
    for (id, status, capabilities) in [
        ("n1", NodeStatus::Active, r#"{"sources":["suricata","zeek"]}"#),
        ("n2", NodeStatus::Active, r#"{"sources":["zeek",7]}"#),
        ("n3", NodeStatus::Active, "{torn"),
        ("n4", NodeStatus::Pending, r#"{"sources":["falco"]}"#),
    ] {
        let mut node = sample_node(id);
        node.status = status;
        node.capabilities = capabilities.to_string();
        store.upsert_node(&node).unwrap();
    }
    let mut sources = store.list_active_node_sources("default").unwrap();
    sources.sort();
    assert_eq!(sources, ["suricata", "zeek"]);
    assert!(store.list_active_node_sources("other").unwrap().is_empty());
}

#[test]
fn revoked_serials_are_listed() {
    let mut store = InMemoryControllerStore::new();
    store.revoke_cert(&[1, 2]).unwrap();
    store.revoke_cert(&[3]).unwrap();
    store.revoke_cert(&[1, 2]).unwrap();
    let mut serials = store.list_revoked_serials().unwrap();
    serials.sort();
    serials.dedup();
    assert_eq!(serials, [vec![1, 2], vec![3]]);
}

#[test]
fn status_is_read_back_from_its_word() {
    for status in [NodeStatus::Pending, NodeStatus::Active, NodeStatus::Decommissioned] {
        assert_eq!(NodeStatus::from_text(&status.to_text()), Some(status));
    }
    assert_eq!(NodeStatus::from_text("Active"), None);
}

#[test]
fn create_rule_is_idempotent_upsert() {
    let mut store = InMemoryControllerStore::new();
    store.upsert_node(&sample_node("n1")).unwrap();

    let mut rule = sample_rule("1718789620123456", "n1", "eth0", "ingress");
    rule.dst_cidr = Some("1.1.1.1/32".to_string());
    rule.created_by = Some("operator:admin".to_string());
    store.create_rule(&rule).unwrap();
    // Second create with the same id must not error and must not duplicate.
    store.create_rule(&rule).unwrap();

    let rules = store.list_rules_for_node("n1").unwrap();
    assert_eq!(rules.len(), 1, "duplicate id must collapse to one row");
    assert_eq!(rules[0].dst_cidr.as_deref(), Some("1.1.1.1/32"));

    // An updated payload for the same id overwrites in place (still one row).
    let mut updated = rule.clone();
    updated.protocol = "tcp".to_string();
    updated.dst_port = Some(443);
    updated.created_at = Timestamp { secs: 1_800_000_000, nanos: 0 };
    updated.created_by = Some("agent:local-change".to_string());
    store.create_rule(&updated).unwrap();
    let rules = store.list_rules_for_node("n1").unwrap();
    assert_eq!(rules.len(), 1);
    assert_eq!(rules[0].protocol, "tcp");
    assert_eq!(rules[0].dst_port, Some(443));
    // Provenance is preserved on conflict: the first writer wins.
    assert_eq!(rules[0].created_by.as_deref(), Some("operator:admin"));
    assert_eq!(rules[0].created_at.secs, NOW.secs);
}

#[test]
fn plan_does_what_the_replacement_does() {
    let kept = sample_rule("1", "n1", "eth0", "ingress");
    let stale = sample_rule("2", "n1", "eth0", "ingress");
    let mut changed = sample_rule("3", "n1", "eth0", "ingress");
    let foreign = sample_rule("4", "n2", "eth0", "ingress");
    let existing = [kept.clone(), stale, changed.clone(), foreign];
    changed.dst_port = Some(443);
    let mut taken = sample_rule("4", "n1", "eth0", "ingress");
    taken.dst_port = Some(22);
    let fresh = sample_rule("5", "n1", "eth0", "ingress");
    let new_rules = [kept, changed, taken, fresh];

    let plan = plan_replacement("n1", &existing, &new_rules).ok().unwrap();
    assert_eq!(plan.deletes, ["2"]);
    let written: Vec<&str> = plan.writes.iter().map(|r| r.id.as_str()).collect();
    assert_eq!(written, ["3", "4", "5"]);

    let mut store = InMemoryControllerStore::new();
    for r in &existing {
        store.create_rule(r).unwrap();
    }
    let summary = store.replace_rules_for_node("n1", &new_rules).unwrap();
    assert_eq!(plan.summary, summary);
    assert_eq!(
        (summary.added, summary.updated, summary.deleted, summary.unchanged),
        (2, 1, 1, 1)
    );
    let own = plan_replacement("n1", &existing[..3], &new_rules).ok().unwrap();
    assert_eq!(own.deletes, plan.deletes);
    assert_eq!(own.summary, plan.summary);
    assert_eq!(own.writes.len(), plan.writes.len());

    let other = [sample_rule("9", "n2", "eth0", "ingress")];
    assert!(matches!(
        plan_replacement("n1", &existing, &other),
        Err(StoreError::ForeignRule { rule_id, rule_node_id, node_id })
            if rule_id == "9" && rule_node_id == "n2" && node_id == "n1"
    ));
}

#[test]
fn replacement_takes_over_an_id_of_another_node() {
    let mut store = InMemoryControllerStore::new();
    store.create_rule(&sample_rule("7", "n2", "eth0", "ingress")).unwrap();
    let mine = [sample_rule("7", "n1", "eth0", "ingress")];
    let s = store.replace_rules_for_node("n1", &mine).unwrap();
    assert_eq!((s.added, s.updated, s.deleted, s.unchanged), (1, 0, 0, 0));
    assert_eq!(store.get_rule("7").unwrap().unwrap().node_id, "n1");
    let again = store.replace_rules_for_node("n1", &mine).unwrap();
    assert_eq!((again.added, again.updated, again.deleted, again.unchanged), (0, 0, 0, 1));
}

#[test]
fn replacement_counts_account_for_the_old_rules() {
    let mut store = InMemoryControllerStore::new();
    for id in ["1", "2", "3"] {
        store.create_rule(&sample_rule(id, "n1", "eth0", "ingress")).unwrap();
    }
    let mut changed = sample_rule("2", "n1", "eth0", "ingress");
    changed.dst_port = None;
    let new_rules = [
        changed,
        sample_rule("3", "n1", "eth0", "ingress"),
        sample_rule("4", "n1", "eth0", "ingress"),
    ];
    let s = store.replace_rules_for_node("n1", &new_rules).unwrap();
    assert_eq!(s.deleted + s.updated + s.unchanged, 3);
    assert_eq!(s.added + s.updated + s.unchanged, new_rules.len());
    assert!(store.replace_rules_for_node("n1", &new_rules).unwrap().is_noop());
}

#[test]
fn alert_ids_count_up_and_are_not_used_again() {
    let mut store = InMemoryControllerStore::new();
    let filter = SuricataAlertFilter {
        tenant_id: Some("default".to_string()),
        node_id: None,
        min_severity: None,
        signature_id: None,
        signature_contains: None,
        include_acked: true,
    };
    store.insert_suricata_alerts(&[alert(1, 10), alert(1, 20)]).unwrap();
    let ids: Vec<i64> =
        store.list_suricata_alerts(&filter, 10).unwrap().iter().map(|a| a.id).collect();
    assert_eq!(ids, [1, 0]);
    store.clear_suricata_alerts("default", None).unwrap();
    store.insert_suricata_alerts(&[alert(1, 30)]).unwrap();
    assert_eq!(store.list_suricata_alerts(&filter, 10).unwrap()[0].id, 2);
}

#[test]
fn sources_are_added_once() {
    let mut out = vec!["a".to_string()];
    add_sources(&mut out, r#"{"sources":["b","a",7,"b"]}"#);
    add_sources(&mut out, "not json");
    add_sources(&mut out, r#"{"sources":"c"}"#);
    assert_eq!(out, ["a", "b"]);
}

#[test]
fn content_of_a_rule_is_what_it_does() {
    let a = sample_rule("1", "n1", "eth0", "ingress");
    let mut b = sample_rule("2", "n2", "eth0", "ingress");
    b.tenant_id = "other".to_string();
    b.created_by = Some("somebody".to_string());
    assert!(rule_content_equal(&a, &a));
    assert!(rule_content_equal(&a, &b) && rule_content_equal(&b, &a));

    b.actions_json = r#"[{"action":"drop","priority":1}]"#.to_string();
    let mut c = b.clone();
    c.actions_json = r#"[ { "priority" : 1, "action" : "drop" } ]"#.to_string();
    assert!(rule_content_equal(&b, &c) && rule_content_equal(&c, &b));
    c.actions_json = r#"[{"action":"drop","priority":2}]"#.to_string();
    assert!(!rule_content_equal(&b, &c) && !rule_content_equal(&c, &b));

    let mut d = a.clone();
    d.dst_mac = Some("02:00:00:00:00:01".to_string());
    assert!(!rule_content_equal(&a, &d));
}
