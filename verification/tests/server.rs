use dirsync::message_handler::MessageType;
use dirsync::server::PeerRegistry;

fn ids(registry: &PeerRegistry<u32>) -> Vec<String> {
    registry.peers().iter().map(|p| p.id.clone()).collect()
}

fn delete(path: &str) -> MessageType {
    MessageType::DeleteEvent { path: path.to_string() }
}

#[test]
fn new_registry_is_empty() {
    let registry: PeerRegistry<u32> = PeerRegistry::new();
    assert_eq!(registry.len(), 0);
    assert!(registry.peers().is_empty());
    assert!(!registry.contains("a"));
}

#[test]
fn register_adds_a_peer() {
    let mut registry = PeerRegistry::new();
    assert_eq!(registry.register("10.0.0.1:4000".to_string(), 1u32), None);
    assert_eq!(registry.register("10.0.0.2:4000".to_string(), 2u32), None);
    assert_eq!(registry.len(), 2);
    assert!(registry.contains("10.0.0.1:4000"));
    assert!(registry.contains("10.0.0.2:4000"));
    assert!(!registry.contains("10.0.0.3:4000"));
}

#[test]
fn register_replaces_the_handle_of_an_identity() {
    let mut registry = PeerRegistry::new();
    registry.register("a".to_string(), 1u32);
    registry.register("b".to_string(), 2u32);
    assert_eq!(registry.register("a".to_string(), 3u32), Some(1));
    assert_eq!(registry.len(), 2);
    let handles: Vec<(String, u32)> =
        registry.peers().iter().map(|p| (p.id.clone(), p.handle)).collect();
    assert!(handles.contains(&("a".to_string(), 3)));
    assert!(handles.contains(&("b".to_string(), 2)));
    assert_eq!(handles.iter().filter(|(id, _)| id == "a").count(), 1);
}

#[test]
fn unregister_removes_one_peer_only() {
    let mut registry = PeerRegistry::new();
    registry.register("a".to_string(), 1u32);
    registry.register("b".to_string(), 2u32);
    registry.register("c".to_string(), 3u32);
    assert_eq!(registry.unregister("b"), Some(2));
    assert_eq!(ids(&registry), vec!["a".to_string(), "c".to_string()]);
    assert!(!registry.contains("b"));
}

#[test]
fn unregister_is_idempotent() {
    let mut registry = PeerRegistry::new();
    registry.register("a".to_string(), 1u32);
    registry.register("b".to_string(), 2u32);
    assert_eq!(registry.unregister("a"), Some(1));
    let after_first = ids(&registry);
    assert_eq!(registry.unregister("a"), None);
    assert_eq!(ids(&registry), after_first);
    assert_eq!(registry.unregister("never"), None);
    assert_eq!(ids(&registry), after_first);
    assert_eq!(registry.len(), 1);
}

#[test]
fn relay_goes_to_every_peer_but_the_origin() {
    let mut registry = PeerRegistry::new();
    registry.register("a".to_string(), 1u32);
    registry.register("b".to_string(), 2u32);
    registry.register("c".to_string(), 3u32);
    assert_eq!(registry.relay_targets("a", &delete("x")), vec![1, 2]);
    assert_eq!(registry.relay_targets("b", &delete("x")), vec![0, 2]);
    assert_eq!(registry.relay_targets("c", &delete("x")), vec![0, 1]);
    assert_eq!(registry.relay_targets("unknown", &delete("x")), vec![0, 1, 2]);
}

#[test]
fn relay_positions_name_the_other_peers() {
    let mut registry = PeerRegistry::new();
    registry.register("a".to_string(), 1u32);
    registry.register("b".to_string(), 2u32);
    registry.register("c".to_string(), 3u32);
    registry.register("a".to_string(), 4u32);
    let named: Vec<String> = registry
        .relay_targets("b", &delete("x"))
        .into_iter()
        .map(|position| registry.peers()[position].id.clone())
        .collect();
    assert_eq!(named.len(), 2);
    assert!(named.contains(&"a".to_string()));
    assert!(named.contains(&"c".to_string()));
}

#[test]
fn relay_with_one_peer_goes_nowhere() {
    let mut registry = PeerRegistry::new();
    registry.register("a".to_string(), 1u32);
    assert!(registry.relay_targets("a", &delete("x")).is_empty());
}

#[test]
fn full_dump_is_not_relayed() {
    let mut registry = PeerRegistry::new();
    registry.register("a".to_string(), 1u32);
    registry.register("b".to_string(), 2u32);
    let sync = MessageType::Sync { files: vec![] };
    assert!(registry.relay_targets("a", &sync).is_empty());
}
