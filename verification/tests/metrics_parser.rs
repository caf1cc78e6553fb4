use policy_controller::metrics_parser::{
    inject_node_label, is_labelable, parse_counter, parse_ethertype_stats, parse_interface_stats,
    sum_counter,
};

const SAMPLE: &str = r#"
# TYPE policy_engine_rx_packets_total counter
policy_engine_rx_packets_total{interface="eth0",direction="ingress"} 1000
# TYPE policy_engine_policy_drops_total counter
policy_engine_policy_drops_total{interface="eth0",direction="ingress"} 42
policy_engine_policy_drops_total{interface="eth1",direction="egress"} 7
# TYPE policy_engine_rule_packets_total counter
policy_engine_rule_packets_total{rule_id="1745000000000001",direction="ingress"} 99
policy_engine_rule_packets_total{rule_id="1745000000000002",direction="egress"} 3
# TYPE policy_engine_rule_bytes_total counter
policy_engine_rule_bytes_total{rule_id="1745000000000001",direction="ingress"} 8316
"#;

#[test]
fn test_parse_interface_drops() {
    let v = parse_counter(
        SAMPLE,
        "policy_engine_policy_drops_total",
        &[("interface", "eth0"), ("direction", "ingress")],
    );
    assert_eq!(v, Some(42));
}

#[test]
fn test_parse_interface_drops_different_iface() {
    let v = parse_counter(
        SAMPLE,
        "policy_engine_policy_drops_total",
        &[("interface", "eth1"), ("direction", "egress")],
    );
    assert_eq!(v, Some(7));
}

#[test]
fn test_parse_rule_packets() {
    let v = parse_counter(
        SAMPLE,
        "policy_engine_rule_packets_total",
        &[("rule_id", "1745000000000001"), ("direction", "ingress")],
    );
    assert_eq!(v, Some(99));
}

#[test]
fn test_parse_rule_bytes() {
    let v = parse_counter(
        SAMPLE,
        "policy_engine_rule_bytes_total",
        &[("rule_id", "1745000000000001"), ("direction", "ingress")],
    );
    assert_eq!(v, Some(8316));
}

#[test]
fn test_wrong_direction_returns_none() {
    let v = parse_counter(
        SAMPLE,
        "policy_engine_rule_packets_total",
        &[("rule_id", "1745000000000001"), ("direction", "egress")],
    );
    assert_eq!(v, None);
}

#[test]
fn test_unknown_rule_returns_none() {
    let v = parse_counter(
        SAMPLE,
        "policy_engine_rule_packets_total",
        &[("rule_id", "9999999999999999"), ("direction", "ingress")],
    );
    assert_eq!(v, None);
}

#[test]
fn test_unknown_metric_returns_none() {
    let v = parse_counter(SAMPLE, "no_such_metric", &[]);
    assert_eq!(v, None);
}

#[test]
fn test_rx_packets() {
    let v = parse_counter(
        SAMPLE,
        "policy_engine_rx_packets_total",
        &[("interface", "eth0"), ("direction", "ingress")],
    );
    assert_eq!(v, Some(1000));
}

#[test]
fn test_inject_node_label_with_existing_labels() {
    let input = "policy_engine_rule_packets_total{rule_id=\"42\",direction=\"ingress\"} 99\n";
    let out = inject_node_label(input, "node-abc", None);
    assert_eq!(
        out,
        "policy_engine_rule_packets_total{node_id=\"node-abc\",rule_id=\"42\",direction=\"ingress\"} 99\n"
    );
}

#[test]
fn test_inject_node_label_no_existing_labels() {
    let input = "simple_counter 42\n";
    let out = inject_node_label(input, "n1", None);
    assert_eq!(out, "simple_counter{node_id=\"n1\"} 42\n");
}

#[test]
fn test_inject_node_label_comment_passthrough() {
    let input = "# TYPE foo counter\nfoo{a=\"b\"} 1\n";
    let out = inject_node_label(input, "n1", None);
    assert_eq!(out, "# TYPE foo counter\nfoo{node_id=\"n1\",a=\"b\"} 1\n");
}

#[test]
fn test_inject_node_label_empty_label_set() {
    let input = "metric{} 5\n";
    let out = inject_node_label(input, "n2", None);
    assert_eq!(out, "metric{node_id=\"n2\"} 5\n");
}

#[test]
fn test_inject_node_label_with_hostname() {
    let input =
        "policy_engine_rx_packets_total{interface=\"eth0\",direction=\"ingress\"} 1000\n";
    let out = inject_node_label(input, "node-abc", Some("host1.example.com"));
    assert_eq!(
        out,
        "policy_engine_rx_packets_total{node_id=\"node-abc\",hostname=\"host1.example.com\",interface=\"eth0\",direction=\"ingress\"} 1000\n"
    );
}

#[test]
fn test_inject_node_label_hostname_no_existing_labels() {
    let input = "simple_counter 42\n";
    let out = inject_node_label(input, "n1", Some("host1"));
    assert_eq!(
        out,
        "simple_counter{node_id=\"n1\",hostname=\"host1\"} 42\n"
    );
}

#[test]
fn test_sum_counter_across_labels() {
    // Two interface/direction series for the same metric must be summed.
    assert_eq!(
        sum_counter(SAMPLE, "policy_engine_policy_drops_total"),
        42 + 7
    );
}

#[test]
fn test_sum_counter_label_less() {
    let text = "simple_counter 5\nsimple_counter 7\n";
    assert_eq!(sum_counter(text, "simple_counter"), 12);
}

#[test]
fn test_sum_counter_missing_is_zero() {
    assert_eq!(sum_counter(SAMPLE, "no_such_metric"), 0);
}

#[test]
fn test_sum_counter_ignores_unparsable() {
    let text = "m{a=\"1\"} 10\nm{a=\"2\"} notanumber\nm{a=\"3\"} 5\n";
    assert_eq!(sum_counter(text, "m"), 15);
}

#[test]
fn test_parse_interface_stats_ingress() {
    let text = r#"
policy_engine_rx_packets_total{interface="eth0",direction="ingress"} 1000
policy_engine_rx_bytes_total{interface="eth0",direction="ingress"} 100000
policy_engine_policy_drops_total{interface="eth0",direction="ingress"} 42
policy_engine_policy_pass_total{interface="eth0",direction="ingress"} 950
policy_engine_bum_packets_total{interface="eth0",direction="ingress"} 8
policy_engine_fib_forwarded_packets_total{interface="eth0",direction="ingress"} 15
"#;
    let s = parse_interface_stats(text, "eth0", "ingress");
    assert_eq!(s.rx_packets, 1000);
    assert_eq!(s.rx_bytes, 100000);
    assert_eq!(s.policy_drops, 42);
    assert_eq!(s.policy_pass, 950);
    assert_eq!(s.bum_packets, 8);
    assert_eq!(s.fib_forwarded_packets, 15);
    assert_eq!(s.parse_errors, 0);
}

#[test]
fn test_parse_ethertype_stats() {
    let text = r#"
policy_engine_ethertype_packets_total{interface="eth0",direction="ingress",ethertype="2054",ethertype_name="ARP"} 86239
policy_engine_ethertype_packets_total{interface="eth0",direction="ingress",ethertype="34525",ethertype_name="IPv6"} 1234
policy_engine_ethertype_packets_total{interface="eth0",direction="egress",ethertype="2054",ethertype_name="ARP"} 5
"#;
    let entries = parse_ethertype_stats(text, "eth0", "ingress");
    assert_eq!(entries.len(), 2);
    assert!(entries
        .iter()
        .any(|e| e.ethertype == 2054 && e.packets == 86239 && e.ethertype_name == "ARP"));
    assert!(entries
        .iter()
        .any(|e| e.ethertype == 34525 && e.packets == 1234));
    // egress entry must not appear
    assert!(!entries.iter().any(|e| e.packets == 5));
}

#[test]
fn test_parse_ethertype_stats_empty() {
    let entries = parse_ethertype_stats(SAMPLE, "eth0", "ingress");
    assert!(entries.is_empty());
}

#[test]
fn test_inject_node_label_full_sample() {
    let out = inject_node_label(SAMPLE, "node-xyz", None);
    assert!(out.contains("node_id=\"node-xyz\""));
    // Comments must not be modified.
    assert!(out.contains("# TYPE policy_engine_rx_packets_total counter"));
    // parse_counter should still work on the injected output.
    let v = parse_counter(
        &out,
        "policy_engine_rule_packets_total",
        &[
            ("node_id", "node-xyz"),
            ("rule_id", "1745000000000001"),
            ("direction", "ingress"),
        ],
    );
    assert_eq!(v, Some(99));
}

#[test]
fn labels_need_braces_in_order() {
    assert!(is_labelable(SAMPLE));
    assert!(is_labelable("# } {\n\nplain 1\n"));
    assert!(!is_labelable("odd} 1 {\n"));
}

#[test]
fn labels_of_a_node_change_no_reading() {
    let text = "# TYPE a counter\na{x=\"1\"} 5\na 7 1700000000\nb{} 2\nc\na{x=\"2\"} 11\r\n";
    let labeled = inject_node_label(text, "n1", Some("h1"));
    for name in ["a", "b", "c"] {
        assert_eq!(sum_counter(&labeled, name), sum_counter(text, name));
    }
    assert_eq!(sum_counter(&labeled, "a"), 23);
    let plain = parse_counter(text, "a", &[("x", "2")]);
    assert_eq!(plain, Some(11));
    assert_eq!(parse_counter(&labeled, "a", &[("x", "2")]), plain);
    assert_eq!(parse_counter(&labeled, "a", &[("x", "2"), ("node_id", "n1")]), plain);
    assert_eq!(parse_counter(&labeled, "a", &[("x", "2"), ("node_id", "n2")]), None);
}

#[test]
fn torn_line_of_another_metric_is_passed_over() {
    let text = "bad{x 1\nm{a=\"1\"} 5\n";
    assert_eq!(parse_counter(text, "m", &[("a", "1")]), Some(5));
    assert_eq!(parse_counter("m{a=\"1\" 5\n", "m", &[("a", "1")]), None);
}

#[test]
fn totals_of_joined_texts_add_up() {
    for a in ["", "m 3", "m 3\n", "m 3\r", "m{x=\"1\"} 4\nm 3"] {
        for b in ["", "m 5", "\nm 6\r\n"] {
            let joined = format!("{a}\n{b}");
            assert_eq!(
                sum_counter(&joined, "m"),
                sum_counter(a, "m").saturating_add(sum_counter(b, "m"))
            );
        }
    }
    let most = format!("m {}", u64::MAX);
    assert_eq!(sum_counter(&format!("{most}\n{most}"), "m"), u64::MAX);
    assert_eq!(sum_counter("", "m"), 0);
}

#[test]
fn labels_keep_lines_and_totals_behind_a_trailing_space() {
    let text = "# HELP m\nm \nm 2\n\nm{} 3\n";
    let labeled = inject_node_label(text, "n1", None);
    assert_eq!(labeled.lines().count(), text.lines().count());
    assert_eq!(
        labeled,
        "# HELP m\nm{node_id=\"n1\"} \nm{node_id=\"n1\"} 2\n\nm{node_id=\"n1\"} 3\n"
    );
    assert_eq!(sum_counter(&labeled, "m"), 5);
}

#[test]
fn counter_is_read_by_its_node_without_other_labels() {
    let text = "k{x=\"1\"} 9\nm{a=\"1\"} 5\n";
    let labeled = inject_node_label(text, "n1", None);
    assert_eq!(parse_counter(&labeled, "m", &[("node_id", "n1")]), Some(5));
    assert_eq!(parse_counter(text, "m", &[]), Some(5));
    // An id that ends with an equals sign can make a label out of the next one.
    let odd = inject_node_label(text, "k=", None);
    assert_eq!(parse_counter(text, "m", &[("k", ",a=")]), None);
    assert_eq!(parse_counter(&odd, "m", &[("k", ",a=")]), Some(5));
}
