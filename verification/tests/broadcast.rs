use checkbox_sync::model::Client;
use checkbox_sync::codec::encode_snapshot;
use checkbox_sync::registry::{broadcast_message, send_to, ClientRegistry, Delivery};
use checkbox_sync::session::handle_message;
use checkbox_sync::store::BitVectorStore;
use tokio::sync::mpsc::error::TryRecvError;
use tokio::sync::mpsc::{unbounded_channel, UnboundedReceiver, UnboundedSender};
use warp::ws::Message;

type Tx = UnboundedSender<Result<Message, warp::Error>>;
type Rx = UnboundedReceiver<Result<Message, warp::Error>>;

fn connect(registry: &mut ClientRegistry<Tx>, id: usize) -> Rx {
    let (tx, rx) = unbounded_channel();
    registry.register(id, Client { sender: tx });
    rx
}

fn next_text(rx: &mut Rx) -> Option<String> {
    match rx.try_recv() {
        Ok(Ok(message)) => Some(message.to_str().unwrap().to_string()),
        Ok(Err(_)) => panic!("an error was queued"),
        Err(TryRecvError::Empty) => None,
        Err(TryRecvError::Disconnected) => None,
    }
}

#[test]
fn broadcast_is_queued_for_the_others_only() {
    let mut registry = ClientRegistry::new();
    let mut a = connect(&mut registry, 1);
    let mut b = connect(&mut registry, 2);
    let mut c = connect(&mut registry, 3);
    let deliveries = broadcast_message("Checkbox updated: 3:true".to_string(), 1, &registry);
    assert_eq!(
        deliveries,
        vec![Delivery { recipient: 2, taken: true }, Delivery { recipient: 3, taken: true }]
    );
    assert_eq!(next_text(&mut a), None);
    assert_eq!(next_text(&mut b), Some("Checkbox updated: 3:true".to_string()));
    assert_eq!(next_text(&mut c), Some("Checkbox updated: 3:true".to_string()));
    assert_eq!(next_text(&mut b), None);
    assert_eq!(next_text(&mut c), None);
}

#[test]
fn a_closed_channel_is_passed_over() {
    let mut registry = ClientRegistry::new();
    let _a = connect(&mut registry, 1);
    let b = connect(&mut registry, 2);
    let mut c = connect(&mut registry, 3);
    drop(b);
    let deliveries = broadcast_message("hello".to_string(), 1, &registry);
    assert_eq!(
        deliveries,
        vec![Delivery { recipient: 2, taken: false }, Delivery { recipient: 3, taken: true }]
    );
    assert_eq!(next_text(&mut c), Some("hello".to_string()));
    assert!(registry.contains(2));
}

#[test]
fn each_client_gets_its_messages_in_order() {
    let mut registry = ClientRegistry::new();
    let _a = connect(&mut registry, 1);
    let mut b = connect(&mut registry, 2);
    broadcast_message("first".to_string(), 1, &registry);
    broadcast_message("second".to_string(), 1, &registry);
    assert_eq!(next_text(&mut b), Some("first".to_string()));
    assert_eq!(next_text(&mut b), Some("second".to_string()));
    assert_eq!(next_text(&mut b), None);
}

#[test]
fn broadcast_to_an_empty_registry_does_nothing() {
    let registry: ClientRegistry<Tx> = ClientRegistry::new();
    assert!(broadcast_message("x".to_string(), 1, &registry).is_empty());
}

#[test]
fn toggle_is_delivered_to_the_other_clients() {
    let mut registry = ClientRegistry::new();
    let mut a = connect(&mut registry, 1);
    let mut b = connect(&mut registry, 2);
    let mut c = connect(&mut registry, 3);
    let mut store = BitVectorStore::new(8);
    let planned = handle_message(1, b"checkbox:3:true", &registry, &mut store).unwrap();
    let text = String::from_utf8(planned.message).unwrap();
    let deliveries = broadcast_message(text, 1, &registry);
    let reached: Vec<usize> = deliveries.iter().map(|d| d.recipient).collect();
    assert_eq!(reached, planned.recipients);
    assert_eq!(next_text(&mut a), None);
    assert_eq!(next_text(&mut b), Some("Checkbox updated: 3:true".to_string()));
    assert_eq!(next_text(&mut c), Some("Checkbox updated: 3:true".to_string()));
}

#[test]
fn toggle_past_the_board_reaches_nobody() {
    let mut registry = ClientRegistry::new();
    let mut a = connect(&mut registry, 1);
    let mut b = connect(&mut registry, 2);
    let mut store = BitVectorStore::new(8);
    assert!(handle_message(1, b"checkbox:8:true", &registry, &mut store).is_none());
    assert_eq!(next_text(&mut a), None);
    assert_eq!(next_text(&mut b), None);
}

#[test]
fn snapshot_goes_to_the_new_client_alone() {
    let mut registry = ClientRegistry::new();
    let mut a = connect(&mut registry, 1);
    let mut b = connect(&mut registry, 2);
    let store = BitVectorStore::new(8);
    let text = String::from_utf8(encode_snapshot(&store.get_snapshot()).unwrap()).unwrap();
    assert_eq!(send_to(text.clone(), 2, &registry), Some(Delivery { recipient: 2, taken: true }));
    assert_eq!(next_text(&mut a), None);
    assert_eq!(
        next_text(&mut b),
        Some("{\"true_indices\":[],\"false_indices\":[0,1,2,3,4,5,6,7],\"is_initial\":true}".to_string())
    );
    assert_eq!(send_to(text, 9, &registry), None);
}

#[test]
fn send_to_a_closed_channel_is_not_taken() {
    let mut registry = ClientRegistry::new();
    let a = connect(&mut registry, 1);
    drop(a);
    assert_eq!(send_to("x".to_string(), 1, &registry), Some(Delivery { recipient: 1, taken: false }));
}
