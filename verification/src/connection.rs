//! The life of one stream connection, as decisions: from the state and what
//! just happened to the next state and what to do about it. The caller owns
//! the socket; it performs the action and reports the next event.

use crate::batch::Batch;
use crate::values::{keys_joined, merged, Values, DEFAULT_MAX_LEN};
use vstd::prelude::*;

verus! {

/// Where a connection stands.
#[derive(Clone, Copy, Debug, PartialEq, Eq, Structural)]
pub enum ConnectionState {
    /// No socket. What was mirrored before stays visible.
    Disconnected,
    /// A socket was asked for and has not opened yet.
    Connecting,
    /// The socket is open and messages arrive.
    Streaming,
}

/// Who holds the connection.
#[derive(Clone, Copy, Debug, PartialEq, Eq, Structural)]
pub enum Role {
    /// The consuming side: it dials, and dials again by itself when the
    /// stream breaks.
    Viewer,
    /// One subscription on the serving side: it was accepted, never dials,
    /// and ends when its transport ends.
    Subscription,
}

/// What happened to a connection.
#[derive(Clone, Copy, Debug, PartialEq, Eq, Structural)]
pub enum Event {
    /// The operator asks for a connection.
    Connect,
    /// The operator asks for the connection to end.
    Disconnect,
    /// No socket could be made.
    DialFailed,
    /// The socket is open.
    Opened,
    /// A message arrived.
    Message,
    /// The transport reports an error.
    Error,
    /// The transport closed.
    Closed,
}

/// What the caller has to do next.
#[derive(Clone, Copy, Debug, PartialEq, Eq, Structural)]
pub enum Action {
    /// Nothing.
    Nothing,
    /// Make a socket to the current address.
    Dial,
    /// Let go of the socket.
    HangUp,
    /// Hand the message that arrived to its consumer.
    Deliver,
}

/// The transition of a connection: the state after `event` and the action
/// that the event calls for.
pub open spec fn next(state: ConnectionState, event: Event, role: Role) -> (
    ConnectionState,
    Action,
) {
    match state {
        ConnectionState::Disconnected => match (event, role) {
            (Event::Connect, Role::Viewer) => (ConnectionState::Connecting, Action::Dial),
            (Event::Connect, Role::Subscription) => (ConnectionState::Connecting, Action::Nothing),
            _ => (ConnectionState::Disconnected, Action::Nothing),
        },
        ConnectionState::Connecting => match (event, role) {
            (Event::Disconnect, _) => (ConnectionState::Disconnected, Action::HangUp),
            (Event::DialFailed, _) => (ConnectionState::Disconnected, Action::Nothing),
            (Event::Opened, _) => (ConnectionState::Streaming, Action::Nothing),
            (Event::Message, Role::Viewer) => (ConnectionState::Streaming, Action::Deliver),
            (Event::Message, Role::Subscription) => (ConnectionState::Streaming, Action::Nothing),
            (Event::Closed, Role::Viewer) => (ConnectionState::Connecting, Action::Dial),
            (Event::Closed, Role::Subscription) => (ConnectionState::Disconnected, Action::HangUp),
            (Event::Error, Role::Subscription) => (ConnectionState::Disconnected, Action::HangUp),
            _ => (ConnectionState::Connecting, Action::Nothing),
        },
        ConnectionState::Streaming => match (event, role) {
            (Event::Disconnect, _) => (ConnectionState::Disconnected, Action::HangUp),
            (Event::Message, Role::Viewer) => (ConnectionState::Streaming, Action::Deliver),
            (Event::Closed, Role::Viewer) => (ConnectionState::Connecting, Action::Dial),
            (Event::Error, Role::Viewer) => (ConnectionState::Connecting, Action::Dial),
            (Event::Closed, Role::Subscription) => (ConnectionState::Disconnected, Action::HangUp),
            (Event::Error, Role::Subscription) => (ConnectionState::Disconnected, Action::HangUp),
            _ => (ConnectionState::Streaming, Action::Nothing),
        },
    }
}

/// Decides what follows `event` for a connection in `state`.
pub fn step(state: ConnectionState, event: Event, role: Role) -> (decision: (
    ConnectionState,
    Action,
))
    ensures
        decision == next(state, event, role),
{
    match state {
        ConnectionState::Disconnected => match event {
            Event::Connect => match role {
                Role::Viewer => (ConnectionState::Connecting, Action::Dial),
                Role::Subscription => (ConnectionState::Connecting, Action::Nothing),
            },
            _ => (ConnectionState::Disconnected, Action::Nothing),
        },
        ConnectionState::Connecting => match event {
            Event::Disconnect => (ConnectionState::Disconnected, Action::HangUp),
            Event::DialFailed => (ConnectionState::Disconnected, Action::Nothing),
            Event::Opened => (ConnectionState::Streaming, Action::Nothing),
            Event::Connect => (ConnectionState::Connecting, Action::Nothing),
            Event::Message => match role {
                Role::Viewer => (ConnectionState::Streaming, Action::Deliver),
                Role::Subscription => (ConnectionState::Streaming, Action::Nothing),
            },
            Event::Closed => match role {
                Role::Viewer => (ConnectionState::Connecting, Action::Dial),
                Role::Subscription => (ConnectionState::Disconnected, Action::HangUp),
            },
            Event::Error => match role {
                Role::Viewer => (ConnectionState::Connecting, Action::Nothing),
                Role::Subscription => (ConnectionState::Disconnected, Action::HangUp),
            },
        },
        ConnectionState::Streaming => match event {
            Event::Disconnect => (ConnectionState::Disconnected, Action::HangUp),
            Event::Message => match role {
                Role::Viewer => (ConnectionState::Streaming, Action::Deliver),
                Role::Subscription => (ConnectionState::Streaming, Action::Nothing),
            },
            Event::Closed | Event::Error => match role {
                Role::Viewer => (ConnectionState::Connecting, Action::Dial),
                Role::Subscription => (ConnectionState::Disconnected, Action::HangUp),
            },
            _ => (ConnectionState::Streaming, Action::Nothing),
        },
    }
}

/// A connection leaves `Disconnected` only when it is asked for, and while it
/// stays there no event makes it dial, hang up or deliver.
pub proof fn law_disconnected_waits(event: Event, role: Role)
    ensures
        next(ConnectionState::Disconnected, event, role).0 != ConnectionState::Disconnected
            <==> event == Event::Connect,
        event != Event::Connect ==> next(ConnectionState::Disconnected, event, role).1
            == Action::Nothing,
{
}

/// A viewer whose stream closes or fails dials again at once, with no
/// request from anyone.
pub proof fn law_viewer_redials(event: Event)
    requires
        event == Event::Closed || event == Event::Error,
    ensures
        next(ConnectionState::Streaming, event, Role::Viewer) == (
            ConnectionState::Connecting,
            Action::Dial,
        ),
{
}

/// The serving side never dials and reads no message, and a subscription
/// that is not yet over ends when its transport closes or fails.
pub proof fn law_subscription_never_dials(state: ConnectionState, event: Event)
    ensures
        next(state, event, Role::Subscription).1 != Action::Dial,
        next(state, event, Role::Subscription).1 != Action::Deliver,
        state != ConnectionState::Disconnected && (event == Event::Closed || event
            == Event::Error) ==> next(state, event, Role::Subscription) == (
            ConnectionState::Disconnected,
            Action::HangUp,
        ),
{
}

/// The mirror of a store on the consuming side: filled only by what the
/// stream delivers.
#[derive(Debug)]
pub struct Mirror<T> {
    values: Values<T>,
    state: ConnectionState,
}

impl<T> Mirror<T> {
    /// The mirrored samples of every key.
    pub closed spec fn spec_values(&self) -> Values<T> {
        self.values
    }

    /// Where the connection stands.
    pub closed spec fn spec_state(&self) -> ConnectionState {
        self.state
    }

    /// Where the connection stands.
    #[verifier::when_used_as_spec(spec_state)]
    pub fn state(&self) -> (state: ConnectionState)
        ensures
            state == self.spec_state(),
    {
        self.state
    }

    /// The mirrored store, for reading.
    pub fn values(&self) -> (values: &Values<T>)
        ensures
            *values == self.spec_values(),
    {
        &self.values
    }
}

impl<T: Copy> Mirror<T> {
    /// An empty mirror with the default capacity, not connected.
    pub fn new() -> (mirror: Self)
        ensures
            mirror.spec_state() == ConnectionState::Disconnected,
            mirror.spec_values()@ == Map::<Seq<char>, Seq<T>>::empty(),
            mirror.spec_values().spec_keys() == Seq::<Seq<char>>::empty(),
            mirror.spec_values().spec_max_len() == DEFAULT_MAX_LEN,
    {
        Mirror {
            values: Values::with_capacity(DEFAULT_MAX_LEN),
            state: ConnectionState::Disconnected,
        }
    }

    /// Takes in one event of the viewer's connection and says what to do
    /// next. A message is delivered into the mirror where `frame` holds the
    /// batch it decoded to; a message that decoded to nothing changes no
    /// sample. No other event touches the mirrored samples: they stay as they
    /// are while the connection is down.
    pub fn handle(&mut self, event: Event, frame: Option<&Batch<T>>) -> (action: Action)
        ensures
            (final(self).spec_state(), action) == next(old(self).spec_state(), event, Role::Viewer),
            final(self).spec_values().spec_max_len() == old(self).spec_values().spec_max_len(),
            match frame {
                Some(batch) if action == Action::Deliver => {
                    &&& final(self).spec_values()@ == merged(
                        old(self).spec_values()@,
                        batch@,
                        old(self).spec_values().spec_max_len() as nat,
                    )
                    &&& final(self).spec_values().spec_keys() == keys_joined(
                        old(self).spec_values().spec_keys(),
                        batch.spec_keys(),
                    )
                },
                _ => final(self).spec_values() == old(self).spec_values(),
            },
    {
        let (state, action) = step(self.state, event, Role::Viewer);
        self.state = state;
        match action {
            Action::Deliver => match frame {
                Some(batch) => {
                    self.values.push_batch(batch);
                },
                None => {},
            },
            _ => {},
        }
        action
    }

    /// Changes the capacity of every mirrored series, as `Values::set_max_len`
    /// does.
    pub fn set_max_len(&mut self, max_len: usize)
        ensures
            final(self).spec_state() == old(self).spec_state(),
            final(self).spec_values().spec_max_len() == max_len,
            final(self).spec_values().spec_keys() == old(self).spec_values().spec_keys(),
            final(self).spec_values()@ == old(self).spec_values()@.map_values(
                |samples: Seq<T>| crate::retention::retained(samples, max_len as nat),
            ),
    {
        self.values.set_max_len(max_len);
    }

    /// Discards everything mirrored; the capacity and the connection stay.
    pub fn reset(&mut self)
        ensures
            final(self).spec_state() == old(self).spec_state(),
            final(self).spec_values().spec_max_len() == old(self).spec_values().spec_max_len(),
            final(self).spec_values()@ == Map::<Seq<char>, Seq<T>>::empty(),
            final(self).spec_values().spec_keys() == Seq::<Seq<char>>::empty(),
    {
        self.values.reset();
    }
}

} // verus!
