//! A listener: binding a port, accepting connections and handing them on.
//!
//! The listener holds one connection at a time. It accepts the next one only
//! when the intake channel has taken the last, so a full channel holds the
//! accepting back.

use crate::error::SlyError;
use crate::target::SocketAddress;
use vstd::prelude::*;

verus! {

/// How many connections the intake channel holds before a send has to wait.
pub const INTAKE_CAPACITY: usize = 100;

/// What a listener is doing.
#[derive(Clone, Copy, Debug, PartialEq, Eq, Structural)]
pub enum ListenerState {
    Idle,
    /// The port is being bound.
    Binding,
    /// The listener waits for a connection.
    Accepting,
    /// A connection is on its way into the intake channel.
    Sending,
    /// The listener has ended.
    Finished,
}

/// What a listener is told.
#[derive(Debug, PartialEq, Eq)]
pub enum ListenerEvent {
    /// The listener is to begin.
    Start,
    /// The port is bound.
    Bound,
    /// The port could not be bound.
    BindFailed { cause: String },
    /// A connection has been accepted.
    Accepted,
    /// Accepting has failed.
    AcceptFailed { cause: String },
    /// The intake channel has taken the connection.
    Sent,
    /// The intake channel is closed; the connection was not taken.
    SendFailed { cause: String },
}

/// What a listener asks of its driver.
#[derive(Debug, PartialEq, Eq)]
pub enum ListenerAction {
    /// Bind this address.
    Bind(SocketAddress),
    /// Accept the next connection.
    Accept,
    /// Send the accepted connection into the intake channel.
    Send,
    /// End with this error.
    Fail(SlyError),
    /// The event does not apply to the state of the listener; nothing changed.
    Ignore,
}

/// A listener on one port of the loopback address.
#[derive(Clone, Copy, Debug, PartialEq, Eq, Structural)]
pub struct ListenerService {
    pub port: u16,
    pub state: ListenerState,
}

impl ListenerService {
    /// The listener in another state.
    pub open spec fn in_state(self, state: ListenerState) -> ListenerService {
        ListenerService { port: self.port, state }
    }

    /// The address that the listener binds.
    pub open spec fn address(self) -> SocketAddress {
        SocketAddress { ip: crate::target::IpAddress::V4(0x7f00_0001), port: self.port }
    }

    /// The transition of a listener: its next state and its answer to
    /// `event`.
    pub open spec fn step(self, event: ListenerEvent) -> (ListenerService, ListenerAction) {
        match (self.state, event) {
            (ListenerState::Idle, ListenerEvent::Start) => (
                self.in_state(ListenerState::Binding),
                ListenerAction::Bind(self.address()),
            ),
            (ListenerState::Binding, ListenerEvent::Bound) => (
                self.in_state(ListenerState::Accepting),
                ListenerAction::Accept,
            ),
            (ListenerState::Binding, ListenerEvent::BindFailed { cause }) => (
                self.in_state(ListenerState::Finished),
                ListenerAction::Fail(SlyError::IoError(cause)),
            ),
            (ListenerState::Accepting, ListenerEvent::Accepted) => (
                self.in_state(ListenerState::Sending),
                ListenerAction::Send,
            ),
            (ListenerState::Accepting, ListenerEvent::AcceptFailed { cause }) => (
                self.in_state(ListenerState::Finished),
                ListenerAction::Fail(SlyError::IoError(cause)),
            ),
            (ListenerState::Sending, ListenerEvent::Sent) => (
                self.in_state(ListenerState::Accepting),
                ListenerAction::Accept,
            ),
            (ListenerState::Sending, ListenerEvent::SendFailed { cause }) => (
                self.in_state(ListenerState::Finished),
                ListenerAction::Fail(SlyError::SendError(cause)),
            ),
            _ => (self, ListenerAction::Ignore),
        }
    }

    /// A listener that has no port yet.
    pub fn new() -> (listener: ListenerService)
        ensures
            listener == (ListenerService { port: 0, state: ListenerState::Idle }),
    {
        ListenerService { port: 0, state: ListenerState::Idle }
    }

    pub fn on_port(self, port: u16) -> (listener: ListenerService)
        ensures
            listener == (ListenerService { port, state: self.state }),
    {
        ListenerService { port, state: self.state }
    }

    pub fn port(&self) -> (port: u16)
        ensures
            port == self.port,
    {
        self.port
    }

    pub fn local_addr(&self) -> (address: SocketAddress)
        ensures
            address == self.address(),
    {
        SocketAddress::loopback(self.port)
    }

    /// Takes one event and answers with what is to be done.
    pub fn handle(&mut self, event: ListenerEvent) -> (action: ListenerAction)
        ensures
            (*final(self), action) == old(self).step(event),
    {
        match self.state {
            ListenerState::Idle => match event {
                ListenerEvent::Start => {
                    self.state = ListenerState::Binding;
                    ListenerAction::Bind(self.local_addr())
                },
                _ => ListenerAction::Ignore,
            },
            ListenerState::Binding => match event {
                ListenerEvent::Bound => {
                    self.state = ListenerState::Accepting;
                    ListenerAction::Accept
                },
                ListenerEvent::BindFailed { cause } => {
                    self.state = ListenerState::Finished;
                    ListenerAction::Fail(SlyError::IoError(cause))
                },
                _ => ListenerAction::Ignore,
            },
            ListenerState::Accepting => match event {
                ListenerEvent::Accepted => {
                    self.state = ListenerState::Sending;
                    ListenerAction::Send
                },
                ListenerEvent::AcceptFailed { cause } => {
                    self.state = ListenerState::Finished;
                    ListenerAction::Fail(SlyError::IoError(cause))
                },
                _ => ListenerAction::Ignore,
            },
            ListenerState::Sending => match event {
                ListenerEvent::Sent => {
                    self.state = ListenerState::Accepting;
                    ListenerAction::Accept
                },
                ListenerEvent::SendFailed { cause } => {
                    self.state = ListenerState::Finished;
                    ListenerAction::Fail(SlyError::SendError(cause))
                },
                _ => ListenerAction::Ignore,
            },
            ListenerState::Finished => ListenerAction::Ignore,
        }
    }

    /// Backpressure. The listener asks for the next connection only when the
    /// port has just been bound or the intake channel has taken the last
    /// connection; while a connection waits to be taken it accepts nothing.
    /// It never changes its port, and once it has ended it stays so.
    pub proof fn lemma_one_at_a_time(self, event: ListenerEvent)
        ensures
            self.step(event).1 is Accept ==> (self.state is Binding && event is Bound) || (
            self.state is Sending && event is Sent),
            self.state is Sending ==> !(self.step(event).1 is Accept) || event is Sent,
            self.step(event).1 is Send ==> self.state is Accepting && event is Accepted,
            self.step(event).0.port == self.port,
            self.state is Finished ==> self.step(event) == (self, ListenerAction::Ignore),
            self.step(event).1 matches ListenerAction::Fail(error) ==> self.step(
                event,
            ).0.state is Finished,
    {
    }
}

} // verus!
