use checkbox_sync::model::Client;
use checkbox_sync::registry::{ClientRegistry, Hub};

fn three() -> ClientRegistry<&'static str> {
    let mut registry = ClientRegistry::new();
    registry.register(1, Client { sender: "a" });
    registry.register(2, Client { sender: "b" });
    registry.register(3, Client { sender: "c" });
    registry
}

#[test]
fn new_registry_is_empty() {
    let registry: ClientRegistry<u8> = ClientRegistry::new();
    assert_eq!(registry.len(), 0);
    assert!(!registry.contains(1));
    assert!(registry.get(1).is_none());
    assert!(registry.broadcast_except(1).is_empty());
}

#[test]
fn register_enters_the_client() {
    let registry = three();
    assert_eq!(registry.len(), 3);
    assert!(registry.contains(2));
    assert!(!registry.contains(4));
    assert_eq!(registry.get(2).map(|c| c.sender), Some("b"));
    assert_eq!(registry.get(3).map(|c| c.sender), Some("c"));
}

#[test]
fn broadcast_leaves_out_the_sender() {
    let registry = three();
    assert_eq!(registry.broadcast_except(1), vec![2, 3]);
    assert_eq!(registry.broadcast_except(2), vec![1, 3]);
    assert_eq!(registry.broadcast_except(3), vec![1, 2]);
}

#[test]
fn broadcast_from_a_stranger_reaches_all() {
    let registry = three();
    assert_eq!(registry.broadcast_except(9), vec![1, 2, 3]);
}

#[test]
fn deregister_twice_is_no_error() {
    let mut registry = three();
    assert_eq!(registry.deregister(2).map(|c| c.sender), Some("b"));
    assert!(!registry.contains(2));
    assert_eq!(registry.len(), 2);
    assert!(registry.deregister(2).is_none());
    assert!(!registry.contains(2));
    assert_eq!(registry.len(), 2);
    assert_eq!(registry.broadcast_except(0), vec![1, 3]);
    assert_eq!(registry.get(3).map(|c| c.sender), Some("c"));
}

#[test]
fn deregister_of_an_unknown_id_changes_nothing() {
    let mut registry = three();
    assert!(registry.deregister(7).is_none());
    assert_eq!(registry.len(), 3);
    assert_eq!(registry.broadcast_except(7), vec![1, 2, 3]);
}

#[test]
fn hub_hands_out_fresh_identifiers() {
    let mut hub: Hub<&'static str> = Hub::new();
    assert_eq!(hub.clients().len(), 0);
    assert_eq!(hub.connect(Client { sender: "a" }).ok(), Some(1));
    assert_eq!(hub.connect(Client { sender: "b" }).ok(), Some(2));
    assert_eq!(hub.disconnect(1).map(|c| c.sender), Some("a"));
    assert_eq!(hub.connect(Client { sender: "c" }).ok(), Some(3));
    assert_eq!(hub.clients().broadcast_except(3), vec![2]);
    assert_eq!(hub.clients().get(3).map(|c| c.sender), Some("c"));
    assert!(!hub.clients().contains(1));
}

#[test]
fn hub_disconnect_twice_is_no_error() {
    let mut hub: Hub<u8> = Hub::new();
    let id = hub.connect(Client { sender: 7 }).ok().unwrap();
    assert_eq!(hub.disconnect(id).map(|c| c.sender), Some(7));
    assert!(hub.disconnect(id).is_none());
    assert!(!hub.clients().contains(id));
    assert_eq!(hub.clients().len(), 0);
}
