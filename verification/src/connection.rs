//! The lifecycle of one connection.
//!
//! A connection decides; it performs nothing. Each event from the transport
//! is answered with the next state and the one action the caller owes: a
//! change to the registry, a fan-out, a reply on the wire, or nothing.

use vstd::prelude::*;

verus! {

/// Where a connection stands in its lifecycle.
#[derive(Clone, Copy, Debug, PartialEq, Eq, Structural)]
pub enum ConnectionState {
    /// Created, not yet registered.
    Starting,
    /// Registered in its room and relaying.
    Active,
    /// Shutting down, still registered.
    Stopping,
    /// Deregistered; accepts nothing further.
    Terminated,
}

impl ConnectionState {
    /// Whether the connection accepts no further operations.
    pub fn is_terminated(&self) -> (terminated: bool)
        ensures
            terminated == (*self == ConnectionState::Terminated),
    {
        match self {
            ConnectionState::Terminated => true,
            _ => false,
        }
    }
}

/// What the transport reports to a connection.
#[derive(Debug, PartialEq, Eq)]
pub enum Event {
    /// The connection was activated.
    Started,
    /// A text frame arrived.
    Text(String),
    /// A binary frame arrived.
    Binary(Vec<u8>),
    /// A ping arrived.
    Ping(Vec<u8>),
    /// A pong arrived.
    Pong(Vec<u8>),
    /// The peer asked to close.
    Close,
    /// A frame arrived that could not be read.
    Malformed,
    /// The transport failed.
    TransportError,
    /// The connection has stopped.
    Stopped,
}

/// What the caller does in answer to an event.
#[derive(Debug, PartialEq, Eq)]
pub enum Action {
    /// Nothing.
    Nothing,
    /// Register the connection in its room.
    Join,
    /// Deliver the payload to every other member of the room.
    Broadcast(String),
    /// Answer on the same connection with a pong that carries the payload.
    Pong(Vec<u8>),
    /// Close the connection and stop it; nothing more is sent.
    Shutdown,
    /// Remove the connection from its room.
    Leave,
}

/// The state that follows `state` on `event`.
pub open spec fn next_state(state: ConnectionState, event: Event) -> ConnectionState {
    match (state, event) {
        (ConnectionState::Starting, Event::Started) => ConnectionState::Active,
        (ConnectionState::Starting, Event::Stopped) => ConnectionState::Terminated,
        (ConnectionState::Active, Event::Close) => ConnectionState::Stopping,
        (ConnectionState::Active, Event::TransportError) => ConnectionState::Stopping,
        (ConnectionState::Active, Event::Stopped) => ConnectionState::Terminated,
        (ConnectionState::Stopping, Event::Stopped) => ConnectionState::Terminated,
        _ => state,
    }
}

/// The action owed when `event` arrives in `state`.
pub open spec fn action_for(state: ConnectionState, event: Event) -> Action {
    match (state, event) {
        (ConnectionState::Starting, Event::Started) => Action::Join,
        (ConnectionState::Active, Event::Text(payload)) => Action::Broadcast(payload),
        (ConnectionState::Active, Event::Ping(payload)) => Action::Pong(payload),
        (ConnectionState::Active, Event::Close) => Action::Shutdown,
        (ConnectionState::Active, Event::TransportError) => Action::Shutdown,
        (ConnectionState::Active, Event::Stopped) => Action::Leave,
        (ConnectionState::Stopping, Event::Stopped) => Action::Leave,
        _ => Action::Nothing,
    }
}

/// A connection as contracts see it.
pub struct ConnectionView {
    pub id: usize,
    pub room: Seq<char>,
    pub state: ConnectionState,
}

/// One connection: its identity, its room and its place in the lifecycle.
pub struct Connection {
    id: usize,
    room: String,
    state: ConnectionState,
}

impl View for Connection {
    type V = ConnectionView;

    closed spec fn view(&self) -> ConnectionView {
        ConnectionView { id: self.id, room: self.room@, state: self.state }
    }
}

impl Connection {
    /// A connection that has not started, with the id and room it keeps.
    pub fn new(id: usize, room: String) -> (connection: Self)
        ensures
            connection@ == (ConnectionView {
                id,
                room: room@,
                state: ConnectionState::Starting,
            }),
    {
        Connection { id, room, state: ConnectionState::Starting }
    }

    /// The connection's id.
    pub fn id(&self) -> (id: usize)
        ensures
            id == self@.id,
    {
        self.id
    }

    /// The connection's room.
    pub fn room(&self) -> (room: &str)
        ensures
            room@ == self@.room,
    {
        self.room.as_str()
    }

    /// The connection's state.
    pub fn state(&self) -> (state: ConnectionState)
        ensures
            state == self@.state,
    {
        self.state
    }

    /// Takes one event: moves to the next state and says what is owed.
    /// Id and room never change, and a terminated connection answers every
    /// event with nothing.
    pub fn step(&mut self, event: Event) -> (action: Action)
        ensures
            final(self)@.id == old(self)@.id,
            final(self)@.room == old(self)@.room,
            final(self)@.state == next_state(old(self)@.state, event),
            action == action_for(old(self)@.state, event),
    {
        match self.state {
            ConnectionState::Starting => match event {
                Event::Started => {
                    self.state = ConnectionState::Active;
                    Action::Join
                },
                Event::Stopped => {
                    self.state = ConnectionState::Terminated;
                    Action::Nothing
                },
                _ => Action::Nothing,
            },
            ConnectionState::Active => match event {
                Event::Text(payload) => Action::Broadcast(payload),
                Event::Ping(payload) => Action::Pong(payload),
                Event::Close => {
                    self.state = ConnectionState::Stopping;
                    Action::Shutdown
                },
                Event::TransportError => {
                    self.state = ConnectionState::Stopping;
                    Action::Shutdown
                },
                Event::Stopped => {
                    self.state = ConnectionState::Terminated;
                    Action::Leave
                },
                _ => Action::Nothing,
            },
            ConnectionState::Stopping => match event {
                Event::Stopped => {
                    self.state = ConnectionState::Terminated;
                    Action::Leave
                },
                _ => Action::Nothing,
            },
            ConnectionState::Terminated => Action::Nothing,
        }
    }
}

/// A terminated connection stays terminated and owes nothing, whatever
/// arrives.
pub proof fn lemma_terminated_is_final(event: Event)
    ensures
        next_state(ConnectionState::Terminated, event) == ConnectionState::Terminated,
        action_for(ConnectionState::Terminated, event) == Action::Nothing,
{
}

/// A registered connection is told to leave exactly when it reaches its end:
/// `Leave` is owed on the step into `Terminated` from a state in which the
/// connection had joined, and on no other.
pub proof fn lemma_leave_once(state: ConnectionState, event: Event)
    ensures
        action_for(state, event) == Action::Leave <==> (state == ConnectionState::Active || state
            == ConnectionState::Stopping) && next_state(state, event)
            == ConnectionState::Terminated,
{
}

/// Only an active connection relays: a broadcast or a pong is owed in no
/// other state, and neither changes the state.
pub proof fn lemma_relay_only_when_active(state: ConnectionState, event: Event)
    ensures
        action_for(state, event) is Broadcast || action_for(state, event) is Pong ==> state
            == ConnectionState::Active && next_state(state, event) == ConnectionState::Active,
{
}

} // verus!
