use policy_controller::proto::{ControllerMessage, ControllerPayload, Disconnect};
use policy_controller::session::NodeSessionManager;

fn test_msg(reason: &str) -> ControllerMessage {
    ControllerMessage::of(ControllerPayload::Disconnect(Disconnect {
        reason: reason.to_string(),
    }))
}

#[test]
fn test_register_and_online() {
    let mut mgr = NodeSessionManager::new();
    assert!(!mgr.is_online("n1"));
    assert!(mgr.online_nodes("default").is_empty());

    mgr.register("n1".to_string(), "default".to_string(), 1);

    assert!(mgr.is_online("n1"));
    assert_eq!(mgr.online_nodes("default"), vec!["n1"]);
    // Other tenants can't see this node.
    assert!(mgr.online_nodes("acme").is_empty());
}

#[test]
fn test_online_nodes_filters_by_tenant() {
    let mut mgr = NodeSessionManager::new();
    mgr.register("n1".to_string(), "default".to_string(), 1);
    mgr.register("n2".to_string(), "acme".to_string(), 2);

    assert_eq!(mgr.online_nodes("default"), vec!["n1"]);
    assert_eq!(mgr.online_nodes("acme"), vec!["n2"]);
    assert_eq!(mgr.online_count_all_tenants(), 2);
}

#[test]
fn test_unregister() {
    let mut mgr = NodeSessionManager::new();
    mgr.register("n1".to_string(), "default".to_string(), 1);
    mgr.unregister("n1");
    assert!(!mgr.is_online("n1"));
}

#[test]
fn test_push_to_connected_node() {
    let mut mgr = NodeSessionManager::new();
    mgr.register("n1".to_string(), "default".to_string(), 8);

    let sent = mgr.push("n1", test_msg("hello"));
    let delivery = sent.expect("Should succeed for connected node");
    assert_eq!(delivery.channel, 8);
    assert!(matches!(
        delivery.message.payload,
        Some(ControllerPayload::Disconnect(_))
    ));
}

#[test]
fn test_push_to_offline_node() {
    let mgr = NodeSessionManager::new();
    let sent = mgr.push("n1", test_msg("hello"));
    assert!(sent.is_none(), "Should fail for offline node");
}

#[test]
fn test_push_all() {
    let mut mgr = NodeSessionManager::new();
    mgr.register("n1".to_string(), "default".to_string(), 1);
    mgr.register("n2".to_string(), "default".to_string(), 2);

    let mut channels = mgr.push_all();
    channels.sort();
    assert_eq!(channels, vec![1, 2]);
}

#[test]
fn test_replace_session_on_reconnect() {
    let mut mgr = NodeSessionManager::new();
    mgr.register("n1".to_string(), "default".to_string(), 1);

    // Re-register (reconnect) — new channel
    mgr.register("n1".to_string(), "default".to_string(), 2);

    let delivery = mgr.push("n1", test_msg("via new session")).unwrap();
    assert_eq!(delivery.channel, 2);
    // Still only one node
    assert_eq!(mgr.online_nodes("default").len(), 1);
}

#[test]
fn test_unregister_if_sender_matches() {
    let mut mgr = NodeSessionManager::new();
    mgr.register("n1".to_string(), "default".to_string(), 1);

    mgr.unregister_if_sender("n1", 1);
    assert!(
        !mgr.is_online("n1"),
        "Session should be removed when the channel matches"
    );
}

#[test]
fn test_unregister_if_sender_does_not_remove_newer_session() {
    let mut mgr = NodeSessionManager::new();

    mgr.register("n1".to_string(), "default".to_string(), 1);
    // Reconnect overwrites the old session
    mgr.register("n1".to_string(), "default".to_string(), 2);

    // Old stream teardown: should NOT evict the new session
    mgr.unregister_if_sender("n1", 1);
    assert!(
        mgr.is_online("n1"),
        "New session must survive teardown of the old stream"
    );
}
