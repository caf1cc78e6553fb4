use policy_controller::metrics_store::MetricsStore;
use policy_controller::timestamp::Timestamp;

const NOW: Timestamp = Timestamp { secs: 1_700_000_000, nanos: 0 };

#[test]
fn test_get_missing_returns_none() {
    let store = MetricsStore::new();
    assert!(store.get("no-such-node").is_none());
}

#[test]
fn test_update_and_get() {
    let mut store = MetricsStore::new();
    store.update("n1", 1_000_000, b"# metrics\ncounter 42\n".to_vec(), None, NOW);
    let data = store.get("n1").unwrap();
    assert_eq!(&data, b"# metrics\ncounter 42\n");
}

#[test]
fn test_update_replaces_previous() {
    let mut store = MetricsStore::new();
    store.update("n1", 1, b"old".to_vec(), None, NOW);
    store.update("n1", 2, b"new".to_vec(), None, NOW);
    assert_eq!(&store.get("n1").unwrap(), b"new");
}

#[test]
fn test_all_node_ids() {
    let mut store = MetricsStore::new();
    store.update("n1", 0, vec![], None, NOW);
    store.update("n2", 0, vec![], None, NOW);
    let mut ids = store.all_node_ids();
    ids.sort();
    assert_eq!(ids, vec!["n1", "n2"]);
}

#[test]
fn test_get_hostname_none_when_not_set() {
    let mut store = MetricsStore::new();
    store.update("n1", 0, vec![], None, NOW);
    assert!(store.get_hostname("n1").is_none());
}

#[test]
fn test_get_hostname_returns_stored_value() {
    let mut store = MetricsStore::new();
    store.update("n1", 0, vec![], Some("node1.example.com".to_string()), NOW);
    assert_eq!(
        store.get_hostname("n1"),
        Some("node1.example.com".to_string())
    );
}
