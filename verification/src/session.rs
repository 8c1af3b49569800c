use vstd::prelude::*;
use crate::codec::{change_notification, decode_toggle, notification_of, parse_toggle, ToggleCommand};
use crate::model::StoreError;
use crate::registry::{recipients, ClientRegistry};
use crate::store::{check_index, BitVectorStore};

verus! {

/// Where a connection stands in its life.
#[derive(Debug, Clone, Copy, PartialEq, Eq, Structural)]
pub enum SessionState {
    /// Accepted; not yet in the registry.
    Connecting,
    /// Registered; frames are read and messages forwarded.
    Active,
    /// The connection failed or ended; deregistration is under way.
    Closing,
    /// Deregistered; nothing more happens.
    Closed,
}

/// What can happen to a connection.
#[derive(Debug, Clone, Copy, PartialEq, Eq, Structural)]
pub enum SessionEvent {
    /// The session was entered in the registry.
    Registered,
    /// Reading failed or ended, or the outbound side found the connection
    /// closed.
    ConnectionLost,
    /// The session was taken out of the registry.
    Deregistered,
}

/// What the program around a session has to do after an event.
#[derive(Debug, Clone, Copy, PartialEq, Eq, Structural)]
pub enum SessionAction {
    /// Nothing.
    Nothing,
    /// Take a snapshot of the board and queue it for this client, before
    /// any frame of it is read: it is the first message the client sees.
    SendSnapshot,
    /// Take the session out of the registry and drop its channel.
    Deregister,
}

/// A session's state after an event, and what is to be done.
#[derive(Debug, Clone, Copy, PartialEq, Eq, Structural)]
pub struct Transition {
    pub state: SessionState,
    pub action: SessionAction,
}

/// The state that follows `state` on `event`. An event that does not belong
/// to the state leaves it as it is; `Closed` is never left.
pub open spec fn next_state(state: SessionState, event: SessionEvent) -> SessionState {
    match (state, event) {
        (SessionState::Connecting, SessionEvent::Registered) => SessionState::Active,
        (SessionState::Active, SessionEvent::ConnectionLost) => SessionState::Closing,
        (SessionState::Closing, SessionEvent::Deregistered) => SessionState::Closed,
        _ => state,
    }
}

/// What is to be done when `event` reaches a session in `state`: a session
/// that becomes active is sent the snapshot, one that loses its connection
/// is deregistered.
pub open spec fn action_of(state: SessionState, event: SessionEvent) -> SessionAction {
    match (state, event) {
        (SessionState::Connecting, SessionEvent::Registered) => SessionAction::SendSnapshot,
        (SessionState::Active, SessionEvent::ConnectionLost) => SessionAction::Deregister,
        _ => SessionAction::Nothing,
    }
}

/// Moves a session on by one event.
pub fn advance(state: SessionState, event: SessionEvent) -> (step: Transition)
    ensures
        step.state == next_state(state, event),
        step.action == action_of(state, event),
{
    match state {
        SessionState::Connecting => match event {
            SessionEvent::Registered => Transition {
                state: SessionState::Active,
                action: SessionAction::SendSnapshot,
            },
            _ => Transition { state, action: SessionAction::Nothing },
        },
        SessionState::Active => match event {
            SessionEvent::ConnectionLost => Transition {
                state: SessionState::Closing,
                action: SessionAction::Deregister,
            },
            _ => Transition { state, action: SessionAction::Nothing },
        },
        SessionState::Closing => match event {
            SessionEvent::Deregistered => Transition {
                state: SessionState::Closed,
                action: SessionAction::Nothing,
            },
            _ => Transition { state, action: SessionAction::Nothing },
        },
        SessionState::Closed => Transition { state, action: SessionAction::Nothing },
    }
}

/// A session ends only by way of deregistration: whatever events arrive,
/// `Closed` is entered from `Closing` alone, `Closing` from `Active` alone
/// and together with the order to deregister, and `Closed` is never left.
pub proof fn lemma_session_order(state: SessionState, event: SessionEvent)
    ensures
        state == SessionState::Closed ==> next_state(state, event) == SessionState::Closed,
        next_state(state, event) == SessionState::Closed ==> state == SessionState::Closing || state
            == SessionState::Closed,
        next_state(state, event) == SessionState::Closing ==> state == SessionState::Closing || (state
            == SessionState::Active && action_of(state, event) == SessionAction::Deregister),
        next_state(state, event) == SessionState::Active ==> state == SessionState::Active || (state
            == SessionState::Connecting && action_of(state, event) == SessionAction::SendSnapshot),
{
}

/// What to do with an inbound frame.
#[derive(Debug, Clone, Copy, PartialEq, Eq, Structural)]
pub enum FrameDecision {
    /// No well-formed toggle command: the frame is passed over.
    Ignore,
    /// A toggle that the store would refuse: it is dropped.
    Reject(StoreError),
    /// A toggle to carry out on the store.
    Toggle(ToggleCommand),
}

/// The decision on `frame` for a board of `number_of_checkboxes`.
pub open spec fn decision_of(frame: Seq<u8>, number_of_checkboxes: usize) -> FrameDecision {
    match decode_toggle(frame) {
        None => FrameDecision::Ignore,
        Some(command) => if command.checkbox_id < number_of_checkboxes {
            FrameDecision::Toggle(command)
        } else {
            FrameDecision::Reject(StoreError::OutOfRange)
        },
    }
}

/// Decides what an inbound frame asks for, before the store is touched.
pub fn plan_toggle(frame: &[u8], number_of_checkboxes: usize) -> (decision: FrameDecision)
    ensures
        decision == decision_of(frame@, number_of_checkboxes),
{
    match parse_toggle(frame) {
        None => FrameDecision::Ignore,
        Some(command) => match check_index(command.checkbox_id, number_of_checkboxes) {
            Ok(()) => FrameDecision::Toggle(command),
            Err(e) => FrameDecision::Reject(e),
        },
    }
}

/// One message and the clients it goes to.
#[derive(Debug)]
pub struct Broadcast {
    pub recipients: Vec<usize>,
    pub message: Vec<u8>,
}

/// What follows the store's answer to the toggle that `frame` carries: a
/// write that was accepted is announced to every client but its sender, one
/// that failed to nobody.
pub fn fan_out<S>(
    stored: Result<(), StoreError>,
    sender_id: usize,
    frame: &[u8],
    registry: &ClientRegistry<S>,
) -> (broadcast: Option<Broadcast>)
    requires
        registry.wf(),
    ensures
        stored.is_err() ==> broadcast.is_none(),
        stored.is_ok() ==> broadcast.is_some() && broadcast.unwrap().recipients@ == recipients(
            registry.ids(),
            sender_id,
        ) && broadcast.unwrap().message@ == notification_of(frame@),
{
    match stored {
        Ok(()) => Some(
            Broadcast {
                recipients: registry.broadcast_except(sender_id),
                message: change_notification(frame),
            },
        ),
        Err(_) => None,
    }
}

/// Handles one inbound frame of client `client_id` against a board held in
/// this process: a well-formed toggle of a checkbox of the board is written
/// and announced to the other clients; any other frame changes nothing and
/// is announced to nobody.
pub fn handle_message<S>(
    client_id: usize,
    frame: &[u8],
    registry: &ClientRegistry<S>,
    store: &mut BitVectorStore,
) -> (broadcast: Option<Broadcast>)
    requires
        registry.wf(),
    ensures
        final(store).count() == old(store).count(),
        match decision_of(frame@, old(store).count()) {
            FrameDecision::Toggle(command) => {
                &&& final(store)@ == old(store)@.update(command.checkbox_id as int, command.state)
                &&& broadcast.is_some()
                &&& broadcast.unwrap().recipients@ == recipients(registry.ids(), client_id)
                &&& broadcast.unwrap().message@ == notification_of(frame@)
            },
            _ => final(store).bytes() == old(store).bytes() && broadcast.is_none(),
        },
{
    match plan_toggle(frame, store.number_of_checkboxes()) {
        FrameDecision::Toggle(command) => {
            let stored = store.set_bit(command.checkbox_id, command.state);
            fan_out(stored, client_id, frame, registry)
        },
        _ => None,
    }
}

} // verus!
