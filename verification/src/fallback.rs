//! Connecting to a backend, with its fallback, and relaying once connected.
//!
//! Nothing is read from the client before an outbound connection stands: the
//! relay asks for the copying to begin only when it is told of a successful
//! connect. Until then a failed connect costs the client nothing, and the
//! fallback address can take over. Once the copying has begun the relay is
//! committed to the backend that it reached.

use crate::proxy::{
    bytes_forwarded, offered, Direction, ProxyAction, ProxyError, ProxyEvent, TcpProxy,
};
use crate::target::SocketAddress;
use vstd::prelude::*;

verus! {

/// A backend: the address that names it, and the address to try when that one
/// cannot be reached.
#[derive(Clone, Copy, Debug, PartialEq, Eq)]
pub struct TcpProxyFallback {
    pub target_addr: SocketAddress,
    pub fall_back_addr: Option<SocketAddress>,
}

impl TcpProxyFallback {
    pub fn new(target_addr: SocketAddress) -> (service: TcpProxyFallback)
        ensures
            service == (TcpProxyFallback { target_addr, fall_back_addr: None }),
    {
        TcpProxyFallback { target_addr, fall_back_addr: None }
    }

    pub fn with_fallback(&mut self, fall_back_addr: SocketAddress) -> (service: &mut Self)
        ensures
            *service == (TcpProxyFallback {
                target_addr: old(self).target_addr,
                fall_back_addr: Some(fall_back_addr),
            }),
            *final(self) == *final(service),
    {
        self.fall_back_addr = Some(fall_back_addr);
        self
    }

    /// The address by which the backend is known.
    pub open spec fn identity(self) -> SocketAddress {
        self.target_addr
    }

    pub fn target_addr(&self) -> (address: SocketAddress)
        ensures
            address == self.identity(),
    {
        self.target_addr
    }

    pub fn fall_back_addr(&self) -> (address: Option<SocketAddress>)
        ensures
            address == self.fall_back_addr,
    {
        self.fall_back_addr
    }

    /// Begins to serve one connection: the relay for it, and its first
    /// request, the connect to the backend's own address.
    pub fn call(&self) -> (begun: (Relay, RelayAction))
        ensures
            begun == Relay::idle(*self).step(RelayEvent::Start),
            begun.0.phase is ConnectingPrimary,
            begun.1 == RelayAction::Connect(self.target_addr),
    {
        let mut relay = Relay::new(*self);
        let action = relay.handle(RelayEvent::Start);
        (relay, action)
    }
}

/// The address on which a relay reached its backend.
#[derive(Clone, Copy, Debug, PartialEq, Eq, Structural)]
pub enum Route {
    Primary,
    Fallback,
}

/// How far a relay has come.
#[derive(Clone, Copy, Debug, PartialEq, Eq, Structural)]
pub enum RelayPhase {
    Idle,
    ConnectingPrimary,
    ConnectingFallback,
    /// Connected, and copying in both directions.
    Relaying(Route),
    /// The copying has ended.
    Closed(Route),
    /// No connection to the backend was made.
    Failed,
}

impl RelayPhase {
    /// Whether the relay waits for a connect to end.
    pub open spec fn connecting(self) -> bool {
        self is ConnectingPrimary || self is ConnectingFallback
    }

    /// Whether the relay has come to its end.
    pub open spec fn terminal(self) -> bool {
        self is Closed || self is Failed
    }
}

/// What a relay is told.
#[derive(Debug, PartialEq, Eq)]
pub enum RelayEvent {
    /// The relay is to begin.
    Start,
    /// The connect that the relay asked for has succeeded.
    Connected,
    /// The connect that the relay asked for has failed.
    ConnectFailed { cause: String },
    /// Something happened to one of the two flows.
    Proxy(ProxyEvent),
    /// The relay is to stop at once.
    Cancel,
}

/// What a relay asks of its driver.
#[derive(Debug, PartialEq, Eq)]
pub enum RelayAction {
    /// Connect to this address, and report how it went.
    Connect(SocketAddress),
    /// The outbound connection stands: begin to read both sockets.
    Pump(Route),
    /// Do what the duplex relay asks.
    Proxy(ProxyAction),
    /// No connection could be made. The inbound connection is untouched and
    /// goes back to the dispatcher with this error.
    Fail(ProxyError),
    /// The relay was cancelled before it was connected: give up the connect
    /// and close the inbound connection.
    Abandon,
    /// The event does not apply to the state of the relay; nothing changed.
    Ignore,
}

/// The relay of one connection to one backend.
#[derive(Debug, PartialEq, Eq)]
pub struct Relay {
    pub service: TcpProxyFallback,
    pub phase: RelayPhase,
    pub proxy: TcpProxy,
}

impl Relay {
    /// The relay for `service` before it has begun.
    pub open spec fn idle(service: TcpProxyFallback) -> Relay {
        Relay { service, phase: RelayPhase::Idle, proxy: TcpProxy::fresh() }
    }

    /// The relay in another phase.
    pub open spec fn in_phase(self, phase: RelayPhase) -> Relay {
        Relay { service: self.service, phase, proxy: self.proxy }
    }

    /// What follows a failed connect.
    pub open spec fn after_connect_failure(self, cause: String) -> (Relay, RelayAction) {
        match (self.phase, self.service.fall_back_addr) {
            (RelayPhase::ConnectingPrimary, Some(fallback)) => (
                self.in_phase(RelayPhase::ConnectingFallback),
                RelayAction::Connect(fallback),
            ),
            _ => (
                self.in_phase(RelayPhase::Failed),
                RelayAction::Fail(ProxyError::Outbound(cause)),
            ),
        }
    }

    /// What follows an event of the duplex relay on `route`.
    pub open spec fn after_proxy_event(self, route: Route, event: ProxyEvent) -> (
        Relay,
        RelayAction,
    ) {
        let (proxy, action) = self.proxy.step(event);
        (
            Relay {
                service: self.service,
                phase: if proxy.closed() {
                    RelayPhase::Closed(route)
                } else {
                    RelayPhase::Relaying(route)
                },
                proxy,
            },
            RelayAction::Proxy(action),
        )
    }

    /// The transition of a relay: its next state and its answer to `event`.
    pub open spec fn step(self, event: RelayEvent) -> (Relay, RelayAction) {
        match (self.phase, event) {
            (RelayPhase::Idle, RelayEvent::Start) => (
                self.in_phase(RelayPhase::ConnectingPrimary),
                RelayAction::Connect(self.service.target_addr),
            ),
            (RelayPhase::ConnectingPrimary, RelayEvent::Connected) => (
                self.in_phase(RelayPhase::Relaying(Route::Primary)),
                RelayAction::Pump(Route::Primary),
            ),
            (RelayPhase::ConnectingFallback, RelayEvent::Connected) => (
                self.in_phase(RelayPhase::Relaying(Route::Fallback)),
                RelayAction::Pump(Route::Fallback),
            ),
            (RelayPhase::ConnectingPrimary, RelayEvent::ConnectFailed { cause }) => {
                self.after_connect_failure(cause)
            },
            (RelayPhase::ConnectingFallback, RelayEvent::ConnectFailed { cause }) => {
                self.after_connect_failure(cause)
            },
            (RelayPhase::Relaying(route), RelayEvent::Proxy(inner)) => {
                self.after_proxy_event(route, inner)
            },
            (RelayPhase::Relaying(route), RelayEvent::Cancel) => {
                self.after_proxy_event(route, ProxyEvent::Cancel)
            },
            (RelayPhase::Idle, RelayEvent::Cancel) => (
                self.in_phase(RelayPhase::Failed),
                RelayAction::Abandon,
            ),
            (RelayPhase::ConnectingPrimary, RelayEvent::Cancel) => (
                self.in_phase(RelayPhase::Failed),
                RelayAction::Abandon,
            ),
            (RelayPhase::ConnectingFallback, RelayEvent::Cancel) => (
                self.in_phase(RelayPhase::Failed),
                RelayAction::Abandon,
            ),
            _ => (self, RelayAction::Ignore),
        }
    }

    /// What holds of every relay that began idle: while it copies a flow
    /// still runs, after it has closed none does, and before it was connected
    /// both flows are untouched.
    pub open spec fn well_formed(self) -> bool {
        match self.phase {
            RelayPhase::Relaying(_) => !self.proxy.closed(),
            RelayPhase::Closed(_) => self.proxy.closed(),
            _ => self.proxy == TcpProxy::fresh(),
        }
    }

    pub fn new(service: TcpProxyFallback) -> (relay: Relay)
        ensures
            relay == Relay::idle(service),
            relay.well_formed(),
    {
        Relay { service, phase: RelayPhase::Idle, proxy: TcpProxy::new() }
    }

    pub fn phase(&self) -> (phase: RelayPhase)
        ensures
            phase == self.phase,
    {
        self.phase
    }

    /// The address that the relay is connected to, where it is or was
    /// connected.
    pub open spec fn connected_address(self) -> Option<SocketAddress> {
        match self.phase {
            RelayPhase::Relaying(Route::Primary) => Some(self.service.target_addr),
            RelayPhase::Closed(Route::Primary) => Some(self.service.target_addr),
            RelayPhase::Relaying(Route::Fallback) => self.service.fall_back_addr,
            RelayPhase::Closed(Route::Fallback) => self.service.fall_back_addr,
            _ => None,
        }
    }

    pub fn peer(&self) -> (address: Option<SocketAddress>)
        ensures
            address == self.connected_address(),
    {
        match self.phase {
            RelayPhase::Relaying(route) => match route {
                Route::Primary => Some(self.service.target_addr),
                Route::Fallback => self.service.fall_back_addr,
            },
            RelayPhase::Closed(route) => match route {
                Route::Primary => Some(self.service.target_addr),
                Route::Fallback => self.service.fall_back_addr,
            },
            _ => None,
        }
    }

    fn connect_failed(&mut self, cause: String) -> (action: RelayAction)
        requires
            old(self).phase.connecting(),
        ensures
            (*final(self), action) == old(self).after_connect_failure(cause),
    {
        match self.phase {
            RelayPhase::ConnectingPrimary => match self.service.fall_back_addr {
                Some(fallback) => {
                    self.phase = RelayPhase::ConnectingFallback;
                    RelayAction::Connect(fallback)
                },
                None => {
                    self.phase = RelayPhase::Failed;
                    RelayAction::Fail(ProxyError::Outbound(cause))
                },
            },
            _ => {
                self.phase = RelayPhase::Failed;
                RelayAction::Fail(ProxyError::Outbound(cause))
            },
        }
    }

    fn proxy_event(&mut self, route: Route, event: ProxyEvent) -> (action: RelayAction)
        ensures
            (*final(self), action) == old(self).after_proxy_event(route, event),
    {
        let inner = self.proxy.handle(event);
        if self.proxy.is_closed() {
            self.phase = RelayPhase::Closed(route);
        } else {
            self.phase = RelayPhase::Relaying(route);
        }
        RelayAction::Proxy(inner)
    }

    /// Takes one event and answers with what is to be done.
    pub fn handle(&mut self, event: RelayEvent) -> (action: RelayAction)
        ensures
            (*final(self), action) == old(self).step(event),
    {
        match self.phase {
            RelayPhase::Idle => match event {
                RelayEvent::Start => {
                    self.phase = RelayPhase::ConnectingPrimary;
                    RelayAction::Connect(self.service.target_addr)
                },
                RelayEvent::Cancel => {
                    self.phase = RelayPhase::Failed;
                    RelayAction::Abandon
                },
                _ => RelayAction::Ignore,
            },
            RelayPhase::ConnectingPrimary => match event {
                RelayEvent::Connected => {
                    self.phase = RelayPhase::Relaying(Route::Primary);
                    RelayAction::Pump(Route::Primary)
                },
                RelayEvent::ConnectFailed { cause } => self.connect_failed(cause),
                RelayEvent::Cancel => {
                    self.phase = RelayPhase::Failed;
                    RelayAction::Abandon
                },
                _ => RelayAction::Ignore,
            },
            RelayPhase::ConnectingFallback => match event {
                RelayEvent::Connected => {
                    self.phase = RelayPhase::Relaying(Route::Fallback);
                    RelayAction::Pump(Route::Fallback)
                },
                RelayEvent::ConnectFailed { cause } => self.connect_failed(cause),
                RelayEvent::Cancel => {
                    self.phase = RelayPhase::Failed;
                    RelayAction::Abandon
                },
                _ => RelayAction::Ignore,
            },
            RelayPhase::Relaying(route) => match event {
                RelayEvent::Proxy(inner) => self.proxy_event(route, inner),
                RelayEvent::Cancel => self.proxy_event(route, ProxyEvent::Cancel),
                _ => RelayAction::Ignore,
            },
            _ => RelayAction::Ignore,
        }
    }
}

/// The bytes that `action` hands on in `direction`.
pub open spec fn bytes_delivered(action: RelayAction, direction: Direction) -> Seq<u8> {
    match action {
        RelayAction::Proxy(inner) => bytes_forwarded(inner, direction),
        _ => Seq::empty(),
    }
}

impl Relay {
    /// All that the relay hands on in `direction` while it is told of
    /// `events` on its two flows, one after the other.
    pub open spec fn delivered(self, events: Seq<ProxyEvent>, direction: Direction) -> Seq<u8>
        decreases events.len(),
    {
        if events.len() == 0 {
            Seq::empty()
        } else {
            let (next, action) = self.step(RelayEvent::Proxy(events[0]));
            bytes_delivered(action, direction) + next.delivered(events.drop_first(), direction)
        }
    }

    /// The relay after it was told of `events` on its two flows.
    pub open spec fn pumped(self, events: Seq<ProxyEvent>) -> Relay
        decreases events.len(),
    {
        if events.len() == 0 {
            self
        } else {
            self.step(RelayEvent::Proxy(events[0])).0.pumped(events.drop_first())
        }
    }

    /// Every transition keeps a relay well formed.
    pub proof fn lemma_step_keeps_well_formed(self, event: RelayEvent)
        requires
            self.well_formed(),
        ensures
            self.step(event).0.well_formed(),
            self.step(event).0.service == self.service,
    {
    }

    /// The commitment rule. Before the outbound connection stands the relay
    /// moves no byte and shuts nothing down; it asks for the reading to begin
    /// only in answer to a successful connect; and it asks for a connect only
    /// before it has begun to copy. So a relay that copies never goes back
    /// to connecting, and one that connects has not touched the client.
    pub proof fn lemma_commitment(self, event: RelayEvent)
        requires
            self.well_formed(),
        ensures
            self.step(event).1 is Proxy ==> self.phase is Relaying,
            self.step(event).1 is Pump ==> self.phase.connecting() && event is Connected,
            self.step(event).1 is Connect ==> !(self.phase is Relaying) && !self.phase.terminal(),
            self.step(event).1 is Fail ==> self.phase.connecting() && event is ConnectFailed,
            self.phase is Relaying ==> self.step(event).0.phase is Relaying
                || self.step(event).0.phase is Closed,
            self.phase.terminal() ==> self.step(event) == (self, RelayAction::Ignore),
    {
    }

    /// A relay that copies does with each event on its flows what its duplex
    /// relay does with it.
    pub proof fn lemma_delivered_is_forwarded(
        self,
        events: Seq<ProxyEvent>,
        direction: Direction,
    )
        requires
            self.well_formed(),
            self.phase is Relaying || self.phase is Closed,
        ensures
            self.delivered(events, direction) == self.proxy.forwarded(events, direction),
            self.pumped(events).proxy == self.proxy.run(events),
        decreases events.len(),
    {
        if events.len() > 0 {
            let next = self.step(RelayEvent::Proxy(events[0])).0;
            if self.phase is Closed {
                self.proxy.lemma_closed_relay_ignores(events[0]);
            }
            next.lemma_delivered_is_forwarded(events.drop_first(), direction);
        }
    }

    /// Fallback safety. Where the connect to the backend's own address fails
    /// and a fallback is set, the relay asks for a connect to the fallback;
    /// where that succeeds it copies on the fallback. Of what the client then
    /// sends nothing is lost or reordered: the bytes handed to the backend are
    /// the head of the bytes read from the client, and all of them while the
    /// flow still copies.
    pub proof fn lemma_fallback_safety(
        service: TcpProxyFallback,
        cause: String,
        later: Seq<ProxyEvent>,
    )
        requires
            service.fall_back_addr is Some,
        ensures
            ({
                let (first, asked_first) = Relay::idle(service).step(RelayEvent::Start);
                let (second, asked_second) = first.step(RelayEvent::ConnectFailed { cause });
                let (third, asked_third) = second.step(RelayEvent::Connected);
                let sent = third.delivered(later, Direction::Upstream);
                &&& asked_first == RelayAction::Connect(service.target_addr)
                &&& asked_second == RelayAction::Connect(service.fall_back_addr->0)
                &&& asked_third == RelayAction::Pump(Route::Fallback)
                &&& third.phase == RelayPhase::Relaying(Route::Fallback)
                &&& third.connected_address() == service.fall_back_addr
                &&& sent.is_prefix_of(offered(later, Direction::Upstream))
                &&& third.pumped(later).proxy.upstream is Open ==> sent == offered(
                    later,
                    Direction::Upstream,
                )
            }),
    {
        let first = Relay::idle(service).step(RelayEvent::Start).0;
        let second = first.step(RelayEvent::ConnectFailed { cause }).0;
        let third = second.step(RelayEvent::Connected).0;
        third.lemma_delivered_is_forwarded(later, Direction::Upstream);
        third.proxy.lemma_forwarded_is_prefix(later, Direction::Upstream);
        if third.pumped(later).proxy.upstream is Open {
            third.proxy.lemma_open_flow_lost_nothing(later, Direction::Upstream);
        }
    }
}

} // verus!
