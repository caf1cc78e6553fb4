use policy_controller::event_bus::TaggedEventBatch;
use policy_controller::http::alerts::{
    history_as_logs, history_filter, show_history, AlertHistoryEntry, AlertHistoryQuery,
};
use policy_controller::http::events::{
    build_filter, date_nanos, parse_action, parse_group_by, parse_rfc3339_ns, parse_rfc3339_s,
    rows_as_logs, rows_as_table, show_counts, show_events, Action, Bucket, Direction,
    EventsQuery, GroupBy, StoredEvent,
};
use policy_controller::http::login::{
    bearer_token, login_step, logout_reply, LoginAction, LoginEvent, LoginState, Revocation,
};
use policy_controller::http::metrics::{metrics_all, metrics_node};
use policy_controller::http::streams::{
    attribute, authorize_ws_token, batch_frames, event_frames, presented_token,
    rule_event_frame, TokenLookup,
};
use policy_controller::http::{clamp_limit, health};
use policy_controller::json::{self, Json};
use policy_controller::metrics_store::MetricsStore;
use policy_controller::operators::Operator;
use policy_controller::rule_lifecycle_bus::RuleLifecycleEvent;
use policy_controller::timestamp::Timestamp;
use std::collections::HashMap;

const NOW: Timestamp = Timestamp { secs: 1_700_000_000, nanos: 0 };

fn value(j: Json) -> serde_json::Value {
    serde_json::from_str(&json::print(j)).unwrap()
}

fn event(id: i64, ts_ns: i64, action: Action) -> StoredEvent {
    StoredEvent {
        id,
        ts_ns,
        node_id: "n1".to_string(),
        rule_id: 42,
        action,
        direction: Direction::Ingress,
        src_ip: "10.0.0.1".to_string(),
        dst_ip: "10.0.0.2".to_string(),
        sport: 1234,
        dport: 22,
        proto: 6,
        pkt_len: 64,
        sni: None,
    }
}

fn rows() -> Vec<StoredEvent> {
    vec![
        event(1, 1_700_000_000_000_000_000, Action::Drop),
        event(2, 1_700_000_000_000_000_001, Action::Log),
    ]
}

#[test]
fn events_as_table() {
    let resp = value(show_events(&rows(), None));
    assert_eq!(resp["columns"][0]["text"], "id");
    assert_eq!(resp["columns"].as_array().unwrap().len(), 13);
    let rows = resp["rows"].as_array().unwrap();
    assert_eq!(rows.len(), 2);
    assert_eq!(rows[0][0], "1");
    assert_eq!(rows[0][1], 1_700_000_000_000i64);
    assert_eq!(rows[0][4], "drop");
    assert_eq!(rows[1][4], "log");
    assert_eq!(rows[0][12], "");
}

#[test]
fn events_as_logs() {
    let resp = value(rows_as_logs(&rows()));
    assert_eq!(resp[1]["id"], "2");
    assert_eq!(resp[1]["direction"], "ingress");
    assert_eq!(resp[1]["dport"], 22);
    assert!(resp[1]["sni"].is_null());
    assert_eq!(value(show_events(&rows(), Some("logs"))), resp);
    assert_eq!(
        value(show_events(&rows(), Some("other"))),
        value(rows_as_table(&rows()))
    );
}

#[test]
fn milliseconds_are_cut_toward_zero() {
    let resp = value(rows_as_logs(&vec![event(1, -1_999_999, Action::Log)]));
    assert_eq!(resp[0]["timestamp"], -1);
}

fn query() -> EventsQuery {
    EventsQuery {
        since: Some("2023-11-14T22:13:20Z".to_string()),
        until: None,
        action: Some("drop".to_string()),
        rule_id: Some(42),
        node_id: Some("n1".to_string()),
        sport: None,
        dport: Some(22),
        proto: Some(6),
        sni_like: None,
        limit: None,
        cursor: Some(9),
    }
}

#[test]
fn filter_is_built_from_the_query() {
    let f = build_filter(&query()).unwrap();
    assert_eq!(f.since_ns, Some(1_700_000_000_000_000_000));
    assert_eq!(f.until_ns, None);
    assert_eq!(f.action, Some(Action::Drop));
    assert_eq!(f.node_id.as_deref(), Some("n1"));
    assert_eq!((f.dport, f.proto, f.cursor), (Some(22), Some(6), Some(9)));
}

#[test]
fn filter_errors_say_why() {
    let mut q = query();
    q.action = Some("pass".to_string());
    assert_eq!(
        build_filter(&q).err().unwrap(),
        "Unknown action 'pass' (expected drop|log)"
    );
    q.since = Some("yesterday".to_string());
    assert!(build_filter(&q)
        .err()
        .unwrap()
        .starts_with("Invalid timestamp 'yesterday': "));
    q.since = Some("2500-01-01T00:00:00Z".to_string());
    assert_eq!(
        build_filter(&q).err().unwrap(),
        "Timestamp out of range: 2500-01-01T00:00:00Z"
    );
}

#[test]
fn dates_are_read_with_their_offset() {
    assert_eq!(
        parse_rfc3339_ns("1970-01-01T01:00:00.5+01:00").unwrap(),
        500_000_000
    );
    assert_eq!(parse_rfc3339_s("1970-01-01T00:00:10Z").unwrap(), 10);
    assert_eq!(
        date_nanos("s", Ok(Timestamp { secs: -1, nanos: 1 })).unwrap(),
        -999_999_999
    );
    assert!(date_nanos("s", Ok(Timestamp { secs: i64::MAX, nanos: 0 })).is_err());
}

#[test]
fn words_of_the_api() {
    assert_eq!(parse_action("log").unwrap(), Action::Log);
    assert_eq!(parse_group_by("hour").unwrap(), GroupBy::Hour);
    assert_eq!(
        parse_group_by("day").err().unwrap(),
        "Unknown group_by 'day'"
    );
    assert_eq!(clamp_limit(None, 100), 100);
    assert_eq!(clamp_limit(Some(0), 100), 1);
    assert_eq!(clamp_limit(Some(1_000_000), 100), 10_000);
}

#[test]
fn counts_as_table_and_series() {
    let buckets = vec![
        Bucket { key: "28333333".to_string(), count: 3 },
        Bucket { key: "odd".to_string(), count: 1 },
    ];
    let table = value(show_counts(&buckets, GroupBy::Minute, "minute", None));
    assert_eq!(table["columns"][0]["text"], "minute");
    assert_eq!(table["rows"].as_array().unwrap().len(), 2);
    assert_eq!(table["rows"][1][0], "odd");
    let series = value(show_counts(&buckets, GroupBy::Minute, "minute", Some("timeseries")));
    assert_eq!(series[0]["target"], "minute");
    assert_eq!(series[0]["datapoints"][0][0], 3);
    assert_eq!(series[0]["datapoints"][0][1], 1_699_999_980_000i64);
    assert_eq!(series[0]["datapoints"][1][1], 0);
}

fn alert(id: i64, rule_id: i64, fired_at: i64, silenced: bool) -> AlertHistoryEntry {
    AlertHistoryEntry {
        id,
        rule_id,
        group_key: "rule_id=42".to_string(),
        fired_at,
        resolved_at: None,
        event_count: 7,
        silenced,
    }
}

fn names() -> HashMap<i64, (String, String)> {
    let mut m = HashMap::new();
    m.insert(5, ("drops on n1".to_string(), "critical".to_string()));
    m
}

#[test]
fn history_as_annotations_names_the_rule() {
    let mut entry = alert(1, 5, 1_700_000_000, false);
    entry.resolved_at = Some(1_700_000_060);
    let resp = value(show_history(
        &vec![entry, alert(2, 6, 1_700_000_000, true)],
        &names(),
        Some("annotations"),
    ));
    let items = resp.as_array().unwrap();
    assert_eq!(items.len(), 2);
    assert_eq!(items[0]["title"], "drops on n1");
    assert_eq!(items[0]["time"], 1_700_000_000_000i64);
    assert_eq!(items[0]["timeEnd"], 1_700_000_060_000i64);
    assert_eq!(items[0]["text"], "group=rule_id=42 events=7");
    assert_eq!(items[0]["tags"][0], "severity:critical");
    assert_eq!(items[0]["tags"][1], "rule:5");
    // A rule that is gone, and an alert that was silenced.
    assert_eq!(items[1]["title"], "rule:6");
    assert_eq!(items[1]["timeEnd"], 1_700_000_000_000i64);
    assert_eq!(items[1]["text"], "group=rule_id=42 events=7 (silenced)");
    assert_eq!(items[1]["tags"][0], "severity:info");
    assert_eq!(items[1]["tags"][2], "silenced");
}

#[test]
fn history_as_table_is_the_default() {
    let entries = vec![alert(3, 5, 3_000, false), alert(2, 6, 2_000, true)];
    let resp = value(show_history(&entries, &names(), None));
    assert_eq!(resp["columns"][0]["text"], "id");
    let rows = resp["rows"].as_array().unwrap();
    assert_eq!(rows.len(), 2);
    // fired_at column (index 1) in ms.
    assert_eq!(rows[0][1], 3_000_000i64);
    assert!(rows[0][2].is_null());
    assert_eq!(rows[0][4], "drops on n1");
    assert_eq!(rows[1][8], 1);
    let logs = value(history_as_logs(&entries, &names()));
    assert_eq!(logs[1]["rule_name"], "rule:6");
    assert_eq!(logs[1]["silenced"], true);
    assert_eq!(value(show_history(&entries, &names(), Some("logs"))), logs);
}

#[test]
fn history_filter_reads_its_bounds() {
    let mut q = AlertHistoryQuery {
        since: Some("1970-01-01T00:01:00Z".to_string()),
        until: None,
        rule_id: Some(5),
        limit: None,
        cursor: None,
    };
    let f = history_filter(&q).unwrap();
    assert_eq!((f.since, f.until, f.rule_id), (Some(60), None, Some(5)));
    q.until = Some("never".to_string());
    assert!(history_filter(&q).is_err());
}

#[test]
fn ws_events_rejects_missing_token() {
    let r = presented_token(None).err().unwrap();
    assert_eq!(r.status, 401);
    assert_eq!(r.body, r#"{"error":"missing token"}"#);
    assert_eq!(presented_token(Some("")).err().unwrap().status, 401);
}

#[test]
fn ws_events_rejects_invalid_token() {
    let r = authorize_ws_token(TokenLookup::Unknown).err().unwrap();
    assert_eq!(r.status, 401);
    assert_eq!(r.body, r#"{"error":"invalid token"}"#);
    let r = authorize_ws_token(TokenLookup::Failed).err().unwrap();
    assert_eq!((r.status, r.body.as_str()), (401, r#"{"error":"auth backend error"}"#));
}

#[test]
fn ws_events_accepts_valid_token() {
    assert_eq!(presented_token(Some("dsw_x")).ok().unwrap(), "dsw_x");
    assert!(authorize_ws_token(TokenLookup::Known).is_ok());
}

#[test]
fn events_are_attributed_to_their_node() {
    assert_eq!(attribute(r#"{"b":1,"a":"x"}"#, "n1"), r#"{"a":"x","b":1,"node_id":"n1"}"#);
    assert_eq!(attribute("[1]", "n1"), "[1]");
    assert_eq!(attribute("not json", "n1"), "not json");
    let events = vec![b"{}".to_vec(), vec![0xff], b"7".to_vec()];
    assert_eq!(
        event_frames(None, "n1", &events),
        vec![r#"{"node_id":"n1"}"#.to_string(), "7".to_string()]
    );
    assert!(event_frames(Some("n2"), "n1", &events).is_empty());
    let batch = TaggedEventBatch {
        node_id: "n1".to_string(),
        timestamp_ns: 1,
        events_json: vec![b"7".to_vec()],
    };
    assert_eq!(batch_frames(Some("n1"), &batch), vec!["7".to_string()]);
}

#[test]
fn rule_events_are_framed_in_order() {
    let mut e = RuleLifecycleEvent {
        event_type: "created".to_string(),
        rule_id: "r1".to_string(),
        node_id: "n1".to_string(),
        interface_name: "eth0".to_string(),
        direction: "INGRESS".to_string(),
        timestamp_ms: 12,
        reason: None,
    };
    assert_eq!(
        rule_event_frame(None, &e).unwrap(),
        r#"{"event_type":"created","rule_id":"r1","node_id":"n1","interface_name":"eth0","direction":"INGRESS","timestamp_ms":12}"#
    );
    e.reason = Some("ttl".to_string());
    assert!(rule_event_frame(Some("n1"), &e).unwrap().ends_with(r#","reason":"ttl"}"#));
    assert!(rule_event_frame(Some("n2"), &e).is_none());
}

#[test]
fn metrics_of_one_node() {
    let mut store = MetricsStore::new();
    store.update("n1", 1, b"up 1\n".to_vec(), Some("h".to_string()), NOW);
    let r = metrics_node(&store, "n1");
    assert_eq!((r.status, r.body.as_str()), (200, "up{node_id=\"n1\",hostname=\"h\"} 1\n"));
    let r = metrics_node(&store, "n2");
    assert_eq!((r.status, r.body.as_str()), (404, "No metrics stored for node 'n2'"));
    store.update("n3", 1, vec![0xff], None, NOW);
    assert_eq!(metrics_node(&store, "n3").body, "");
}

#[test]
fn metrics_of_all_nodes_stand_in_order() {
    let mut store = MetricsStore::new();
    store.update("n2", 1, vec![0xff], None, NOW);
    store.update("n1", 1, b"up 1\n".to_vec(), None, NOW);
    assert_eq!(
        metrics_all(&store, "fleet 2\n", "ev 3\n", "al 4\n"),
        "# node: n1\nup{node_id=\"n1\"} 1\n\n# node: n2\n# (non-UTF-8 metrics, skipped)\n\n# controller fleet metrics\nfleet 2\n\n# event pipeline metrics\nev 3\n\n# alert pipeline metrics\nal 4\n"
    );
    assert_eq!(
        metrics_all(&MetricsStore::new(), "", "", ""),
        "\n# event pipeline metrics\n\n# alert pipeline metrics\n"
    );
}

#[test]
fn health_is_ok() {
    let r = health();
    assert_eq!((r.status, r.body.as_str()), (200, r#"{"status":"ok"}"#));
}

fn operator() -> Operator {
    Operator {
        id: 3,
        username: "alice".to_string(),
        created_at: 0,
        last_login_at: None,
        disabled_at: None,
    }
}

#[test]
fn login_goes_through_its_steps() {
    let now = 1_000;
    let (s, a) = login_step(LoginState::Verifying, LoginEvent::Verified(Some(operator())), now);
    assert!(matches!(a, LoginAction::LoadTenants { operator_id: 3 }));
    let (s, a) = login_step(s, LoginEvent::Tenants(vec![]), now);
    match a {
        LoginAction::MintSession { name, tenant_id, expires_at, created_by, operator_id } => {
            assert_eq!(name, "session:alice:1000");
            assert_eq!(tenant_id, 1);
            assert_eq!(expires_at, 44_200);
            assert_eq!(created_by, "login:alice");
            assert_eq!(operator_id, 3);
        }
        _ => panic!("must mint"),
    }
    let minted = LoginEvent::Minted { token_id: 8, token: "dsw_t".to_string() };
    let (s, a) = login_step(s, minted, now);
    assert!(matches!(a, LoginAction::LoadRoles { operator_id: 3 }));
    let (s, a) = login_step(s, LoginEvent::Roles(vec![4, 5]), now);
    match a {
        LoginAction::BindRoles { token_id, role_ids } => {
            assert_eq!((token_id, role_ids), (8, vec![4, 5]))
        }
        _ => panic!("must bind"),
    }
    let (s, a) = login_step(s, LoginEvent::Bound, now);
    assert!(matches!(s, LoginState::Over));
    match a {
        LoginAction::Welcome { operator_id, now, reply } => {
            assert_eq!((operator_id, now, reply.status), (3, 1_000, 200));
            assert_eq!(
                reply.body,
                r#"{"token":"dsw_t","expires_at":44200,"username":"alice"}"#
            );
        }
        _ => panic!("must welcome"),
    }
}

fn answer(a: LoginAction) -> (u16, String) {
    match a {
        LoginAction::Answer(r) => (r.status, r.body),
        _ => panic!("must answer"),
    }
}

#[test]
fn login_failures_are_answered() {
    let (_, a) = login_step(LoginState::Verifying, LoginEvent::Verified(None), 0);
    assert_eq!(answer(a), (401, r#"{"error":"invalid credentials"}"#.to_string()));
    let (_, a) = login_step(LoginState::Verifying, LoginEvent::Failed, 0);
    assert_eq!(answer(a), (500, r#"{"error":"auth backend error"}"#.to_string()));
    let placing = || LoginState::Placing { operator: operator() };
    let (_, a) = login_step(placing(), LoginEvent::Tenants(vec![1, 2]), 0);
    let (status, body) = answer(a);
    assert_eq!(status, 409);
    assert!(body.contains("operator has role bindings in multiple tenants"));
    let (_, a) = login_step(placing(), LoginEvent::Failed, 0);
    assert_eq!(answer(a).1, r#"{"error":"auth backend error"}"#);
    let minting = LoginState::Minting { operator: operator(), expires_at: 1, now: 0 };
    let (_, a) = login_step(minting, LoginEvent::Failed, 0);
    assert_eq!(answer(a), (500, r#"{"error":"session mint failed"}"#.to_string()));
    let (s, _) = login_step(placing(), LoginEvent::Tenants(vec![7]), 0);
    assert!(matches!(s, LoginState::Minting { .. }));
}

#[test]
fn logout_takes_the_bearer_token() {
    assert_eq!(bearer_token("Bearer  dsw_x ").as_deref(), Some("dsw_x"));
    assert_eq!(bearer_token("bearer dsw_x").as_deref(), Some("dsw_x"));
    assert_eq!(bearer_token("Basic abc"), None);
    assert_eq!(bearer_token("Bear"), None);
    let r = logout_reply(Revocation::NoToken);
    assert_eq!((r.status, r.body.as_str()), (200, r#"{"revoked":false}"#));
    assert_eq!(logout_reply(Revocation::Done(true)).body, r#"{"revoked":true}"#);
    let r = logout_reply(Revocation::Failed);
    assert_eq!((r.status, r.body.as_str()), (500, r#"{"error":"logout failed"}"#));
}
