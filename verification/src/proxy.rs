//! The duplex relay between an inbound connection and its backend.
//!
//! A relay runs two flows, one from the client to the backend and one back.
//! Each flow copies what it reads from its source to its destination, shuts
//! down writing on the destination when the source has ended, and stops at the
//! first failure. The relay is over when both flows are.

use vstd::prelude::*;

verus! {

/// One of the two sockets of a relay.
#[derive(Clone, Copy, Debug, PartialEq, Eq, Structural)]
pub enum Side {
    /// The socket of the client.
    Inbound,
    /// The socket of the backend.
    Outbound,
}

/// One of the two flows of a relay.
#[derive(Clone, Copy, Debug, PartialEq, Eq, Structural)]
pub enum Direction {
    /// From the client to the backend.
    Upstream,
    /// From the backend to the client.
    Downstream,
}

impl Direction {
    /// The socket that the flow reads.
    pub open spec fn source(self) -> Side {
        match self {
            Direction::Upstream => Side::Inbound,
            Direction::Downstream => Side::Outbound,
        }
    }

    /// The socket that the flow writes.
    pub open spec fn destination(self) -> Side {
        match self {
            Direction::Upstream => Side::Outbound,
            Direction::Downstream => Side::Inbound,
        }
    }

    pub fn reads_from(self) -> (side: Side)
        ensures
            side == self.source(),
    {
        match self {
            Direction::Upstream => Side::Inbound,
            Direction::Downstream => Side::Outbound,
        }
    }

    pub fn writes_to(self) -> (side: Side)
        ensures
            side == self.destination(),
    {
        match self {
            Direction::Upstream => Side::Outbound,
            Direction::Downstream => Side::Inbound,
        }
    }
}

/// Why a relay failed: the socket on which the failure showed, and what the
/// system said of it.
#[derive(Debug, PartialEq, Eq)]
pub enum ProxyError {
    Inbound(String),
    Outbound(String),
}

impl ProxyError {
    /// The error of a failure on `side`.
    pub open spec fn on(side: Side, cause: String) -> ProxyError {
        match side {
            Side::Inbound => ProxyError::Inbound(cause),
            Side::Outbound => ProxyError::Outbound(cause),
        }
    }

    /// The socket that the error blames.
    pub open spec fn blamed(self) -> Side {
        match self {
            ProxyError::Inbound(_) => Side::Inbound,
            ProxyError::Outbound(_) => Side::Outbound,
        }
    }

    pub fn at(side: Side, cause: String) -> (error: ProxyError)
        ensures
            error == ProxyError::on(side, cause),
    {
        match side {
            Side::Inbound => ProxyError::Inbound(cause),
            Side::Outbound => ProxyError::Outbound(cause),
        }
    }

    pub fn side(&self) -> (side: Side)
        ensures
            side == self.blamed(),
    {
        match self {
            ProxyError::Inbound(_) => Side::Inbound,
            ProxyError::Outbound(_) => Side::Outbound,
        }
    }

    pub fn duplicate(&self) -> (copy: ProxyError)
        ensures
            copy == *self,
    {
        match self {
            ProxyError::Inbound(cause) => ProxyError::Inbound(cause.clone()),
            ProxyError::Outbound(cause) => ProxyError::Outbound(cause.clone()),
        }
    }

    /// The text of the error.
    pub open spec fn text(self) -> Seq<char> {
        match self {
            ProxyError::Inbound(cause) => "Inbound socket closed: "@ + cause@,
            ProxyError::Outbound(cause) => "Outbound socket closed: "@ + cause@,
        }
    }

    pub fn message(&self) -> (text: String)
        ensures
            text@ == self.text(),
    {
        match self {
            ProxyError::Inbound(cause) => {
                let mut text = String::from_str("Inbound socket closed: ");
                text.append(cause.as_str());
                text
            },
            ProxyError::Outbound(cause) => {
                let mut text = String::from_str("Outbound socket closed: ");
                text.append(cause.as_str());
                text
            },
        }
    }
}

/// How far one flow has come.
#[derive(Debug, PartialEq, Eq)]
pub enum Flow {
    /// The flow copies.
    Open,
    /// The source has ended; the destination is being shut down for writing.
    Closing,
    /// The flow has ended without a failure.
    Finished,
    /// The flow has ended at a failure.
    Failed(ProxyError),
}

impl Flow {
    /// Whether the flow still has work to do.
    pub open spec fn running(self) -> bool {
        self is Open || self is Closing
    }

    pub fn is_running(&self) -> (yes: bool)
        ensures
            yes == self.running(),
    {
        match self {
            Flow::Open => true,
            Flow::Closing => true,
            _ => false,
        }
    }

    pub fn is_open(&self) -> (yes: bool)
        ensures
            yes == (*self is Open),
    {
        match self {
            Flow::Open => true,
            _ => false,
        }
    }

    pub fn is_closing(&self) -> (yes: bool)
        ensures
            yes == (*self is Closing),
    {
        match self {
            Flow::Closing => true,
            _ => false,
        }
    }
}

/// What a relay is told.
#[derive(Debug, PartialEq, Eq)]
pub enum ProxyEvent {
    /// `bytes` were read from the source of the flow; there is at least one.
    Data { direction: Direction, bytes: Vec<u8> },
    /// The source of the flow has ended.
    EndOfStream { direction: Direction },
    /// The destination of the flow has been shut down for writing.
    HalfClosed { direction: Direction },
    /// Reading the source of the flow failed.
    ReadFailed { direction: Direction, cause: String },
    /// Writing the destination of the flow, or shutting it down, failed.
    WriteFailed { direction: Direction, cause: String },
    /// The relay is to stop at once.
    Cancel,
}

/// What a relay asks of its driver.
#[derive(Debug, PartialEq, Eq)]
pub enum ProxyAction {
    /// Write `bytes` to the destination of the flow, then read its source on.
    Forward { direction: Direction, bytes: Vec<u8> },
    /// Shut down writing on the destination of the flow.
    HalfClose { direction: Direction },
    /// Nothing; the relay goes on.
    Continue,
    /// Both flows have ended, and so has the relay, as `outcome` says.
    Close { outcome: Result<(), ProxyError> },
    /// The relay was cancelled. Shut down writing on the inbound and on the
    /// outbound socket where the flag says so, which it does for the
    /// destination of each flow that still copied; `outcome` is how the relay
    /// ended.
    Abort { inbound: bool, outbound: bool, outcome: Result<(), ProxyError> },
    /// The event does not apply to the state of the relay; nothing changed.
    Ignore,
}

/// The state of a relay.
#[derive(Debug, PartialEq, Eq)]
pub struct TcpProxy {
    pub upstream: Flow,
    pub downstream: Flow,
}

impl TcpProxy {
    /// The flow in `direction`.
    pub open spec fn flow(self, direction: Direction) -> Flow {
        match direction {
            Direction::Upstream => self.upstream,
            Direction::Downstream => self.downstream,
        }
    }

    /// The relay with the flow in `direction` replaced.
    pub open spec fn with_flow(self, direction: Direction, flow: Flow) -> TcpProxy {
        match direction {
            Direction::Upstream => TcpProxy { upstream: flow, downstream: self.downstream },
            Direction::Downstream => TcpProxy { upstream: self.upstream, downstream: flow },
        }
    }

    /// Whether both flows have ended.
    pub open spec fn closed(self) -> bool {
        !self.upstream.running() && !self.downstream.running()
    }

    /// How the relay ends: with the failure of the upstream flow if it has
    /// one, else with that of the downstream flow, else well.
    pub open spec fn outcome(self) -> Result<(), ProxyError> {
        match self.upstream {
            Flow::Failed(error) => Err(error),
            _ => match self.downstream {
                Flow::Failed(error) => Err(error),
                _ => Ok(()),
            },
        }
    }

    /// What the relay answers once the flow in `direction` has ended.
    pub open spec fn after_flow_end(self) -> ProxyAction {
        if self.closed() {
            ProxyAction::Close { outcome: self.outcome() }
        } else {
            ProxyAction::Continue
        }
    }

    /// The relay after a cancel: no flow runs any more.
    pub open spec fn cancelled(self) -> TcpProxy {
        TcpProxy {
            upstream: if self.upstream.running() {
                Flow::Finished
            } else {
                self.upstream
            },
            downstream: if self.downstream.running() {
                Flow::Finished
            } else {
                self.downstream
            },
        }
    }

    /// The transition of a relay: its next state and its answer to `event`.
    pub open spec fn step(self, event: ProxyEvent) -> (TcpProxy, ProxyAction) {
        match event {
            ProxyEvent::Data { direction, bytes } => {
                if self.flow(direction) is Open {
                    (self, ProxyAction::Forward { direction, bytes })
                } else {
                    (self, ProxyAction::Ignore)
                }
            },
            ProxyEvent::EndOfStream { direction } => {
                if self.flow(direction) is Open {
                    (self.with_flow(direction, Flow::Closing), ProxyAction::HalfClose { direction })
                } else {
                    (self, ProxyAction::Ignore)
                }
            },
            ProxyEvent::HalfClosed { direction } => {
                if self.flow(direction) is Closing {
                    let next = self.with_flow(direction, Flow::Finished);
                    (next, next.after_flow_end())
                } else {
                    (self, ProxyAction::Ignore)
                }
            },
            ProxyEvent::ReadFailed { direction, cause } => {
                if self.flow(direction).running() {
                    let next = self.with_flow(
                        direction,
                        Flow::Failed(ProxyError::on(direction.source(), cause)),
                    );
                    (next, next.after_flow_end())
                } else {
                    (self, ProxyAction::Ignore)
                }
            },
            ProxyEvent::WriteFailed { direction, cause } => {
                if self.flow(direction).running() {
                    let next = self.with_flow(
                        direction,
                        Flow::Failed(ProxyError::on(direction.destination(), cause)),
                    );
                    (next, next.after_flow_end())
                } else {
                    (self, ProxyAction::Ignore)
                }
            },
            ProxyEvent::Cancel => {
                if self.closed() {
                    (self, ProxyAction::Ignore)
                } else {
                    (
                        self.cancelled(),
                        ProxyAction::Abort {
                            inbound: self.downstream is Open,
                            outbound: self.upstream is Open,
                            outcome: self.outcome(),
                        },
                    )
                }
            },
        }
    }

    /// A relay at its start: both flows copy.
    pub open spec fn fresh() -> TcpProxy {
        TcpProxy { upstream: Flow::Open, downstream: Flow::Open }
    }

    pub fn new() -> (proxy: TcpProxy)
        ensures
            proxy == TcpProxy::fresh(),
    {
        TcpProxy { upstream: Flow::Open, downstream: Flow::Open }
    }

    pub fn is_closed(&self) -> (yes: bool)
        ensures
            yes == self.closed(),
    {
        !self.upstream.is_running() && !self.downstream.is_running()
    }

    /// How the relay ends, as far as its flows have ended.
    pub fn result(&self) -> (outcome: Result<(), ProxyError>)
        ensures
            outcome == self.outcome(),
    {
        match &self.upstream {
            Flow::Failed(error) => Err(error.duplicate()),
            _ => match &self.downstream {
                Flow::Failed(error) => Err(error.duplicate()),
                _ => Ok(()),
            },
        }
    }

    fn flow_of(&self, direction: Direction) -> (flow: &Flow)
        ensures
            *flow == self.flow(direction),
    {
        match direction {
            Direction::Upstream => &self.upstream,
            Direction::Downstream => &self.downstream,
        }
    }

    fn set_flow(&mut self, direction: Direction, flow: Flow)
        ensures
            *final(self) == old(self).with_flow(direction, flow),
    {
        match direction {
            Direction::Upstream => {
                self.upstream = flow;
            },
            Direction::Downstream => {
                self.downstream = flow;
            },
        }
    }

    fn end_flow(&mut self, direction: Direction, flow: Flow) -> (action: ProxyAction)
        ensures
            *final(self) == old(self).with_flow(direction, flow),
            action == final(self).after_flow_end(),
    {
        self.set_flow(direction, flow);
        if self.is_closed() {
            ProxyAction::Close { outcome: self.result() }
        } else {
            ProxyAction::Continue
        }
    }

    /// Takes one event and answers with what is to be done.
    pub fn handle(&mut self, event: ProxyEvent) -> (action: ProxyAction)
        ensures
            (*final(self), action) == old(self).step(event),
    {
        match event {
            ProxyEvent::Data { direction, bytes } => {
                if self.flow_of(direction).is_open() {
                    ProxyAction::Forward { direction, bytes }
                } else {
                    ProxyAction::Ignore
                }
            },
            ProxyEvent::EndOfStream { direction } => {
                if self.flow_of(direction).is_open() {
                    self.set_flow(direction, Flow::Closing);
                    ProxyAction::HalfClose { direction }
                } else {
                    ProxyAction::Ignore
                }
            },
            ProxyEvent::HalfClosed { direction } => {
                if self.flow_of(direction).is_closing() {
                    self.end_flow(direction, Flow::Finished)
                } else {
                    ProxyAction::Ignore
                }
            },
            ProxyEvent::ReadFailed { direction, cause } => {
                if self.flow_of(direction).is_running() {
                    self.end_flow(
                        direction,
                        Flow::Failed(ProxyError::at(direction.reads_from(), cause)),
                    )
                } else {
                    ProxyAction::Ignore
                }
            },
            ProxyEvent::WriteFailed { direction, cause } => {
                if self.flow_of(direction).is_running() {
                    self.end_flow(
                        direction,
                        Flow::Failed(ProxyError::at(direction.writes_to(), cause)),
                    )
                } else {
                    ProxyAction::Ignore
                }
            },
            ProxyEvent::Cancel => {
                if self.is_closed() {
                    ProxyAction::Ignore
                } else {
                    let inbound = self.downstream.is_open();
                    let outbound = self.upstream.is_open();
                    let outcome = self.result();
                    if self.upstream.is_running() {
                        self.upstream = Flow::Finished;
                    }
                    if self.downstream.is_running() {
                        self.downstream = Flow::Finished;
                    }
                    ProxyAction::Abort { inbound, outbound, outcome }
                }
            },
        }
    }
}

/// The bytes that `action` hands on in `direction`.
pub open spec fn bytes_forwarded(action: ProxyAction, direction: Direction) -> Seq<u8> {
    match action {
        ProxyAction::Forward { direction: d, bytes } => if d == direction {
            bytes@
        } else {
            Seq::empty()
        },
        _ => Seq::empty(),
    }
}

/// The bytes that `event` brings in `direction`.
pub open spec fn bytes_offered(event: ProxyEvent, direction: Direction) -> Seq<u8> {
    match event {
        ProxyEvent::Data { direction: d, bytes } => if d == direction {
            bytes@
        } else {
            Seq::empty()
        },
        _ => Seq::empty(),
    }
}

/// Whether `action` asks for writing to be shut down on `side`.
pub open spec fn shuts_down(action: ProxyAction, side: Side) -> bool {
    match action {
        ProxyAction::HalfClose { direction } => direction.destination() == side,
        ProxyAction::Abort { inbound, outbound, .. } => match side {
            Side::Inbound => inbound,
            Side::Outbound => outbound,
        },
        _ => false,
    }
}

/// All that `events` bring in `direction`, in their order.
pub open spec fn offered(events: Seq<ProxyEvent>, direction: Direction) -> Seq<u8>
    decreases events.len(),
{
    if events.len() == 0 {
        Seq::empty()
    } else {
        bytes_offered(events[0], direction) + offered(events.drop_first(), direction)
    }
}

impl TcpProxy {
    /// The relay after it has handled `events` one after the other.
    pub open spec fn run(self, events: Seq<ProxyEvent>) -> TcpProxy
        decreases events.len(),
    {
        if events.len() == 0 {
            self
        } else {
            self.step(events[0]).0.run(events.drop_first())
        }
    }

    /// All that the relay hands on in `direction` while it handles `events`.
    pub open spec fn forwarded(self, events: Seq<ProxyEvent>, direction: Direction) -> Seq<u8>
        decreases events.len(),
    {
        if events.len() == 0 {
            Seq::empty()
        } else {
            bytes_forwarded(self.step(events[0]).1, direction) + self.step(events[0]).0.forwarded(
                events.drop_first(),
                direction,
            )
        }
    }

    /// How often the relay asks for a shutdown of `side` while it handles
    /// `events`.
    pub open spec fn shutdowns(self, events: Seq<ProxyEvent>, side: Side) -> nat
        decreases events.len(),
    {
        if events.len() == 0 {
            0
        } else {
            (if shuts_down(self.step(events[0]).1, side) {
                1nat
            } else {
                0nat
            }) + self.step(events[0]).0.shutdowns(events.drop_first(), side)
        }
    }

    /// A flow that has stopped copying never copies again.
    pub proof fn lemma_flow_never_reopens(self, event: ProxyEvent, direction: Direction)
        requires
            !(self.flow(direction) is Open),
        ensures
            !(self.step(event).0.flow(direction) is Open),
            bytes_forwarded(self.step(event).1, direction) == Seq::<u8>::empty(),
    {
    }

    /// A flow that does not copy hands nothing on.
    pub proof fn lemma_stopped_flow_is_silent(
        self,
        events: Seq<ProxyEvent>,
        direction: Direction,
    )
        requires
            !(self.flow(direction) is Open),
        ensures
            self.forwarded(events, direction) == Seq::<u8>::empty(),
        decreases events.len(),
    {
        if events.len() > 0 {
            self.lemma_flow_never_reopens(events[0], direction);
            self.step(events[0]).0.lemma_stopped_flow_is_silent(events.drop_first(), direction);
        }
    }

    /// The destination of a flow that does not copy is not asked to shut
    /// down.
    pub proof fn lemma_stopped_flow_shuts_nothing(self, events: Seq<ProxyEvent>, direction: Direction)
        requires
            !(self.flow(direction) is Open),
        ensures
            self.shutdowns(events, direction.destination()) == 0,
        decreases events.len(),
    {
        if events.len() > 0 {
            self.lemma_flow_never_reopens(events[0], direction);
            self.step(events[0]).0.lemma_stopped_flow_shuts_nothing(events.drop_first(), direction);
        }
    }

    /// Each flow keeps the order of the bytes: what it hands on is the head of
    /// what it was offered, byte for byte.
    pub proof fn lemma_forwarded_is_prefix(self, events: Seq<ProxyEvent>, direction: Direction)
        ensures
            self.forwarded(events, direction).is_prefix_of(offered(events, direction)),
        decreases events.len(),
    {
        if events.len() > 0 {
            let next = self.step(events[0]).0;
            let rest = events.drop_first();
            let head = bytes_forwarded(self.step(events[0]).1, direction);
            let tail = next.forwarded(rest, direction);
            next.lemma_forwarded_is_prefix(rest, direction);
            if self.flow(direction) is Open {
                assert(head == bytes_offered(events[0], direction));
                assert((head + tail).is_prefix_of(head + offered(rest, direction)));
            } else {
                self.lemma_stopped_flow_is_silent(events, direction);
            }
        }
    }

    /// A flow that still copies has handed on every byte that it was offered.
    pub proof fn lemma_open_flow_lost_nothing(
        self,
        events: Seq<ProxyEvent>,
        direction: Direction,
    )
        requires
            self.run(events).flow(direction) is Open,
        ensures
            self.forwarded(events, direction) == offered(events, direction),
        decreases events.len(),
    {
        if events.len() > 0 {
            let next = self.step(events[0]).0;
            let rest = events.drop_first();
            if !(self.flow(direction) is Open) {
                self.lemma_flow_never_reopens(events[0], direction);
            }
            if !(next.flow(direction) is Open) {
                next.lemma_run_keeps_stopped(rest, direction);
            }
            next.lemma_open_flow_lost_nothing(rest, direction);
        }
    }

    /// A flow that has stopped copying stays so.
    pub proof fn lemma_run_keeps_stopped(self, events: Seq<ProxyEvent>, direction: Direction)
        requires
            !(self.flow(direction) is Open),
        ensures
            !(self.run(events).flow(direction) is Open),
        decreases events.len(),
    {
        if events.len() > 0 {
            self.lemma_flow_never_reopens(events[0], direction);
            self.step(events[0]).0.lemma_run_keeps_stopped(events.drop_first(), direction);
        }
    }

    /// Whatever the relay is told, it asks at most once for each socket to
    /// be shut down.
    pub proof fn lemma_one_shutdown_per_socket(self, events: Seq<ProxyEvent>, side: Side)
        ensures
            self.shutdowns(events, side) <= 1,
        decreases events.len(),
    {
        if events.len() > 0 {
            let direction = match side {
                Side::Inbound => Direction::Downstream,
                Side::Outbound => Direction::Upstream,
            };
            assert(direction.destination() == side);
            let next = self.step(events[0]).0;
            let rest = events.drop_first();
            if shuts_down(self.step(events[0]).1, side) {
                next.lemma_stopped_flow_shuts_nothing(rest, direction);
            } else {
                next.lemma_one_shutdown_per_socket(rest, side);
            }
        }
    }

    /// A relay that has ended answers nothing any more: a second cancel, like
    /// every late event, changes nothing.
    pub proof fn lemma_closed_relay_ignores(self, event: ProxyEvent)
        requires
            self.closed(),
        ensures
            self.step(event) == (self, ProxyAction::Ignore),
    {
    }

    /// A cancel ends the relay, whatever state it was in.
    pub proof fn lemma_cancel_closes(self)
        ensures
            self.step(ProxyEvent::Cancel).0.closed(),
    {
    }
}

} // verus!
