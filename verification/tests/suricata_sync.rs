use policy_controller::store::{SuricataRuleFileReport, SuricataRuleset};
use policy_controller::suricata_sync::{
    build_ruleset_push, canonicalize_content, rule_count, sha256_hex, validate_ruleset_name,
};
use policy_controller::timestamp::Timestamp;
use sha2::Digest;

const NOW: Timestamp = Timestamp { secs: 1_700_000_000, nanos: 0 };

fn ruleset(name: &str, content: &str) -> SuricataRuleset {
    let content = canonicalize_content(content);
    SuricataRuleset {
        id: format!("id-{}", name),
        tenant_id: "default".to_string(),
        name: name.to_string(),
        sha256: sha256_hex(&content),
        rule_count: rule_count(&content),
        content,
        created_at: NOW,
        updated_at: NOW,
    }
}

fn report(filename: &str, sha256: &str) -> SuricataRuleFileReport {
    SuricataRuleFileReport {
        node_id: "n1".to_string(),
        filename: filename.to_string(),
        sha256: sha256.to_string(),
        rule_count: 1,
    }
}

#[test]
fn canonicalize_is_idempotent_and_digest_stable() {
    let a = canonicalize_content("alert tcp any any -> any any (sid:1;)");
    let b = canonicalize_content(&a);
    let c = canonicalize_content("alert tcp any any -> any any (sid:1;)\n\n\n");
    assert_eq!(a, b);
    assert_eq!(a, c);
    assert_eq!(sha256_hex(&a), sha256_hex(&b));
}

#[test]
fn in_sync_node_gets_no_push() {
    let rs = ruleset("base", "alert tcp any any -> any any (sid:1;)");
    let reported = vec![
        report(&rs.filename(), &rs.sha256),
        // Node-local file must be ignored entirely.
        report("custom.rules", "abcd"),
    ];
    assert!(build_ruleset_push(&[rs], &reported).is_none());
}

#[test]
fn missing_and_mismatched_files_are_pushed() {
    let base = ruleset("base", "alert tcp any any -> any any (sid:1;)");
    let extra = ruleset("extra", "alert udp any any -> any any (sid:2;)");
    // base is reported with a stale digest; extra is absent.
    let reported = vec![report(&base.filename(), "deadbeef")];
    let names = vec![base.filename(), extra.filename()];
    let push = build_ruleset_push(&[base, extra], &reported).unwrap();
    assert_eq!(push.files.len(), 2);
    assert_eq!(push.desired_filenames, names);
    // Content bytes hash to the advertised digest (agent re-verifies).
    for f in &push.files {
        assert_eq!(format!("{:x}", sha2::Sha256::digest(&f.content)), f.sha256);
    }
}

#[test]
fn stale_fleet_file_triggers_push_with_no_files() {
    // Nothing assigned, but a fleet- file lingers on the node: the push
    // carries only the (empty) desired set so the agent deletes it.
    let reported = vec![report("fleet-old.rules", "aa")];
    let push = build_ruleset_push(&[], &reported).unwrap();
    assert!(push.files.is_empty());
    assert!(push.desired_filenames.is_empty());
}

#[test]
fn local_files_never_trigger_pushes() {
    let reported = vec![report("custom.rules", "aa"), report("other.rules", "bb")];
    assert!(build_ruleset_push(&[], &reported).is_none());
}

#[test]
fn name_validation() {
    assert!(validate_ruleset_name("base-set_1").is_ok());
    assert!(validate_ruleset_name("").is_err());
    assert!(validate_ruleset_name("Bad Name").is_err());
    assert!(validate_ruleset_name("../evil").is_err());
}

#[test]
fn name_errors_say_why() {
    assert_eq!(
        validate_ruleset_name("").err().unwrap(),
        "Ruleset name must be 1-64 characters"
    );
    assert_eq!(
        validate_ruleset_name(&"a".repeat(65)).err().unwrap(),
        "Ruleset name must be 1-64 characters"
    );
    assert!(validate_ruleset_name(&"a".repeat(64)).is_ok());
}

#[test]
fn digest_is_sha256_in_lower_case_hex() {
    assert_eq!(
        sha256_hex(""),
        "e3b0c44298fc1c149afbf4c8996fb92427ae41e4649b934ca495991b7852b855"
    );
}

#[test]
fn comments_and_blank_lines_are_no_rules() {
    assert_eq!(rule_count("# note\n\nalert a\n  # more\nalert b\n"), 2);
}

#[test]
fn rule_counts_of_joined_texts_add_up() {
    let texts = ["", "alert a", "# c\n  # d\nalert a\n\n", "alert a\r\nalert b\r", "\n\n"];
    for a in texts {
        assert_eq!(rule_count(&canonicalize_content(a)), rule_count(a));
        for b in texts {
            assert_eq!(rule_count(&format!("{a}\n{b}")), rule_count(a) + rule_count(b));
        }
    }
    assert_eq!(rule_count("   # indented"), 0);
    assert_eq!(rule_count(" \t"), 0);
    assert_eq!(rule_count("  alert a"), 1);
}
