use checkbox_sync::codec::{encode_snapshot, ToggleCommand};
use checkbox_sync::model::{Client, StoreError};
use checkbox_sync::registry::{ClientIds, ClientRegistry};
use checkbox_sync::session::{
    advance, fan_out, handle_message, plan_toggle, FrameDecision, SessionAction, SessionEvent,
    SessionState, Transition,
};
use checkbox_sync::store::BitVectorStore;

#[test]
fn a_session_runs_from_connecting_to_closed() {
    let step = advance(SessionState::Connecting, SessionEvent::Registered);
    assert_eq!(step.state, SessionState::Active);
    assert_eq!(step.action, SessionAction::SendSnapshot);
    let step = advance(step.state, SessionEvent::ConnectionLost);
    assert_eq!(step.state, SessionState::Closing);
    assert_eq!(step.action, SessionAction::Deregister);
    let step = advance(step.state, SessionEvent::Deregistered);
    assert_eq!(step.state, SessionState::Closed);
    assert_eq!(step.action, SessionAction::Nothing);
}

fn stays(state: SessionState, event: SessionEvent) {
    assert_eq!(advance(state, event), Transition { state, action: SessionAction::Nothing });
}

#[test]
fn events_out_of_place_change_nothing() {
    stays(SessionState::Connecting, SessionEvent::ConnectionLost);
    stays(SessionState::Connecting, SessionEvent::Deregistered);
    stays(SessionState::Active, SessionEvent::Registered);
    stays(SessionState::Active, SessionEvent::Deregistered);
    stays(SessionState::Closing, SessionEvent::Registered);
    stays(SessionState::Closing, SessionEvent::ConnectionLost);
    stays(SessionState::Closed, SessionEvent::Registered);
    stays(SessionState::Closed, SessionEvent::ConnectionLost);
    stays(SessionState::Closed, SessionEvent::Deregistered);
}

#[test]
fn identifiers_start_at_one_and_rise() {
    let mut ids = ClientIds::new();
    assert_eq!(ids.allocate(), Some(1));
    assert_eq!(ids.allocate(), Some(2));
    assert_eq!(ids.allocate(), Some(3));
}

#[test]
fn plan_toggle_sorts_frames() {
    assert_eq!(plan_toggle(b"ping", 8), FrameDecision::Ignore);
    assert_eq!(plan_toggle(b"checkbox:x:true", 8), FrameDecision::Ignore);
    assert_eq!(
        plan_toggle(b"checkbox:7:true", 8),
        FrameDecision::Toggle(ToggleCommand { checkbox_id: 7, state: true })
    );
    assert_eq!(plan_toggle(b"checkbox:8:true", 8), FrameDecision::Reject(StoreError::OutOfRange));
    assert_eq!(plan_toggle(b"checkbox:0:false", 0), FrameDecision::Reject(StoreError::OutOfRange));
}

fn clients(ids: &[usize]) -> ClientRegistry<()> {
    let mut registry = ClientRegistry::new();
    for id in ids {
        registry.register(*id, Client { sender: () });
    }
    registry
}

#[test]
fn a_failed_write_is_announced_to_nobody() {
    let registry = clients(&[1, 2, 3]);
    assert!(fan_out(Err(StoreError::StoreUnavailable), 1, b"checkbox:3:true", &registry).is_none());
    assert!(fan_out(Err(StoreError::OutOfRange), 1, b"checkbox:3:true", &registry).is_none());
}

#[test]
fn an_accepted_write_is_announced_to_the_others() {
    let registry = clients(&[1, 2, 3]);
    let broadcast = fan_out(Ok(()), 2, b"checkbox:3:true", &registry).unwrap();
    assert_eq!(broadcast.recipients, vec![1, 3]);
    assert_eq!(broadcast.message, b"Checkbox updated: 3:true".to_vec());
}

#[test]
fn toggle_by_one_client_reaches_the_two_others() {
    let registry = clients(&[10, 11, 12]);
    let mut store = BitVectorStore::new(8);
    let broadcast = handle_message(10, b"checkbox:5:true", &registry, &mut store).unwrap();
    assert_eq!(broadcast.recipients, vec![11, 12]);
    assert!(!broadcast.recipients.contains(&10));
    assert_eq!(broadcast.message, b"Checkbox updated: 5:true".to_vec());
}

#[test]
fn toggle_one_past_the_last_index_is_dropped() {
    let registry = clients(&[1, 2]);
    let mut store = BitVectorStore::new(8);
    assert!(handle_message(1, b"checkbox:8:true", &registry, &mut store).is_none());
    assert!(store.raw().is_empty());
    assert!(store.get_snapshot().true_indices.is_empty());
}

#[test]
fn malformed_frames_are_passed_over() {
    let registry = clients(&[1, 2]);
    let mut store = BitVectorStore::from_raw(vec![0x01], 8);
    assert!(handle_message(1, b"checkbox:3", &registry, &mut store).is_none());
    assert!(handle_message(1, b"", &registry, &mut store).is_none());
    assert!(handle_message(1, b"checkbox:three:true", &registry, &mut store).is_none());
    assert_eq!(store.raw(), &vec![0x01]);
}

#[test]
fn end_to_end_with_eight_checkboxes() {
    let mut ids = ClientIds::new();
    let mut registry: ClientRegistry<()> = ClientRegistry::new();
    let mut store = BitVectorStore::new(8);

    let first = ids.allocate().unwrap();
    registry.register(first, Client { sender: () });
    let initial = store.get_snapshot();
    assert_eq!(
        encode_snapshot(&initial).unwrap(),
        b"{\"true_indices\":[],\"false_indices\":[0,1,2,3,4,5,6,7],\"is_initial\":true}".to_vec()
    );
    assert!(initial.true_indices.is_empty());
    assert_eq!(initial.false_indices, vec![0, 1, 2, 3, 4, 5, 6, 7]);
    assert!(initial.is_initial);

    let second = ids.allocate().unwrap();
    registry.register(second, Client { sender: () });

    let broadcast = handle_message(first, b"checkbox:3:true", &registry, &mut store).unwrap();
    assert_eq!(broadcast.recipients, vec![second]);
    assert_eq!(broadcast.message, b"Checkbox updated: 3:true".to_vec());

    let third = ids.allocate().unwrap();
    assert!(third > second && second > first);
    registry.register(third, Client { sender: () });
    let later = store.get_snapshot();
    assert_eq!(
        encode_snapshot(&later).unwrap(),
        b"{\"true_indices\":[3],\"false_indices\":[0,1,2,4,5,6,7],\"is_initial\":true}".to_vec()
    );
    assert_eq!(later.true_indices, vec![3]);
    assert_eq!(later.false_indices, vec![0, 1, 2, 4, 5, 6, 7]);
    assert!(later.is_initial);

    assert!(registry.deregister(first).is_some());
    assert!(registry.deregister(first).is_none());
    assert_eq!(registry.broadcast_except(third), vec![second]);
}
