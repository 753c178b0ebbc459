//! The dispatcher: which backend serves which connection.
//!
//! The dispatcher is told of every connection that comes in and of what
//! becomes of it, and answers with what its driver has to do. It keeps, for
//! every connection that it has handed out, the backend that serves it, and
//! for every backend address the number of such connections: the pending
//! load, by which new connections are steered to the less loaded backends.

use crate::error::SlyError;
use crate::fallback::TcpProxyFallback;
use crate::load::PendingLoads;
use crate::random::{draw, fresh_generator};
use crate::registry::{
    applied, merged, place_of, DiscoveryDelta, Registry, RegistrySnapshot,
    SnapshotView,
};
use crate::retry::{retry_decision, should_retry, ConnectResult, Decision, RetryState,
    DEFAULT_RETRY_LIMIT};
use crate::select::{
    as_place, chosen_place, exclusion_fits, pick_candidates, pick_less_loaded,
};
use crate::target::{SocketAddress, Target};
use tower::util::rng::HasherRng;
use vstd::prelude::*;

verus! {

/// A connection that has been handed to a backend and is not done yet.
#[derive(Clone, Copy, Debug, PartialEq, Eq)]
pub struct Flight {
    /// The number by which the driver knows the connection.
    pub conn: u64,
    /// The backend that serves it.
    pub backend: TcpProxyFallback,
    /// The retries that it has used and may use.
    pub retry: RetryState,
    /// Whether its relay is connected, and so committed to its backend.
    pub relaying: bool,
}

/// Whether the dispatcher takes connections in, and whether it still runs.
#[derive(Clone, Copy, Debug, PartialEq, Eq, Structural)]
pub enum Lifecycle {
    /// Connections come in and are served.
    Running,
    /// No connection comes in any more; those in flight run to their end.
    Draining,
    /// The connections in flight have been told to stop.
    Cancelling,
    /// Nothing is in flight and nothing comes in.
    Stopped,
}

/// The two ways to shut the dispatcher down.
#[derive(Clone, Copy, Debug, PartialEq, Eq, Structural)]
pub enum ShutdownMode {
    /// Take in nothing more, and let what is in flight run to its end.
    Graceful,
    /// Take in nothing more, and stop what is in flight.
    Immediate,
}

impl ShutdownMode {
    /// The shutdown that an interrupt asks for: the first asks for a graceful
    /// one, and each one that comes after `earlier` others for an immediate
    /// one.
    pub fn of_signal(earlier: u64) -> (mode: ShutdownMode)
        ensures
            mode == (if earlier == 0 {
                ShutdownMode::Graceful
            } else {
                ShutdownMode::Immediate
            }),
    {
        if earlier == 0 {
            ShutdownMode::Graceful
        } else {
            ShutdownMode::Immediate
        }
    }
}

/// What the dispatcher is told.
#[derive(Clone, Copy, Debug, PartialEq, Eq, Structural)]
pub enum DispatchEvent {
    /// A connection has come in from the intake channel.
    Accepted { conn: u64 },
    /// The relay of the connection has connected to its backend.
    Connected { conn: u64 },
    /// The relay of the connection could not connect to its backend, nor to
    /// the fallback.
    ConnectFailed { conn: u64 },
    /// The relay of the connection has ended, well or not.
    Completed { conn: u64 },
    /// The intake channel has been closed.
    IntakeClosed,
    /// The dispatcher is to shut down.
    Shutdown(ShutdownMode),
}

/// What the dispatcher asks of its driver. Where an answer carries `exit`,
/// the flag says whether the dispatcher has stopped with it.
#[derive(Clone, Copy, Debug, PartialEq, Eq)]
pub enum DispatchAction {
    /// Relay the connection to this backend.
    Relay { conn: u64, backend: TcpProxyFallback },
    /// The dispatcher takes nothing in: close the connection.
    Reject { conn: u64 },
    /// No backend could be reached for the connection and its retries are
    /// used up: report the failure and close the connection.
    Abandon { conn: u64, exit: bool },
    /// The connection is done; forget it.
    Retire { conn: u64, exit: bool },
    /// Close the intake channel.
    StopIntake { exit: bool },
    /// Close the intake channel and cancel every relay in flight.
    CancelAll { exit: bool },
    /// Nothing.
    Nothing,
}

/// Whether `place` is the first place in `flights` of the connection `conn`.
pub open spec fn carries(flights: Seq<Flight>, conn: u64, place: int) -> bool {
    &&& 0 <= place < flights.len()
    &&& flights[place].conn == conn
    &&& forall|k: int| 0 <= k < place ==> (#[trigger] flights[k]).conn != conn
}

/// Whether the connection `conn` is in flight.
pub open spec fn in_flight(flights: Seq<Flight>, conn: u64) -> bool {
    exists|place: int| 0 <= place < flights.len() && (#[trigger] flights[place]).conn == conn
}

/// The place in `flights` of the connection `conn`.
pub open spec fn flight_place(flights: Seq<Flight>, conn: u64) -> Option<int> {
    if exists|place: int| carries(flights, conn, place) {
        Some(choose|place: int| carries(flights, conn, place))
    } else {
        None
    }
}

/// Whether no connection is in flight twice.
pub open spec fn distinct_connections(flights: Seq<Flight>) -> bool {
    forall|i: int, j: int|
        0 <= i < j < flights.len() ==> (#[trigger] flights[i]).conn != (#[trigger] flights[j]).conn
}

/// The pending load of a backend address: the number of connections in
/// flight that are handed to it.
pub open spec fn pending_load(flights: Seq<Flight>, identity: SocketAddress) -> nat
    decreases flights.len(),
{
    if flights.len() == 0 {
        0
    } else {
        pending_load(flights.drop_last(), identity) + (if flights.last().backend.identity()
            == identity {
            1nat
        } else {
            0nat
        })
    }
}

/// The pending loads of `backends`, place by place.
pub open spec fn loads_of(backends: Seq<TcpProxyFallback>, flights: Seq<Flight>) -> Seq<nat> {
    Seq::new(backends.len(), |i: int| pending_load(flights, backends[i].identity()))
}

/// The lifecycle once `remaining` connections are in flight: a dispatcher
/// that only waits for its connections to end stops with the last of them.
pub open spec fn wound_down(lifecycle: Lifecycle, remaining: nat) -> Lifecycle {
    if remaining == 0 && (lifecycle is Draining || lifecycle is Cancelling) {
        Lifecycle::Stopped
    } else {
        lifecycle
    }
}

/// The dispatcher as a value.
pub struct DispatcherView {
    /// The current snapshot of the registry.
    pub registry: SnapshotView,
    /// The connections in flight, in the order in which they came.
    pub flights: Seq<Flight>,
    pub lifecycle: Lifecycle,
    /// The retries that each connection may use.
    pub retry_limit: u32,
}

impl DispatcherView {
    /// What holds of every dispatcher: its registry has a backend, no
    /// connection is in flight twice, and it is stopped exactly when it takes
    /// nothing in and nothing is in flight.
    pub open spec fn well_formed(self) -> bool {
        &&& self.registry.well_formed()
        &&& distinct_connections(self.flights)
        &&& self.lifecycle is Stopped ==> self.flights.len() == 0
        &&& self.lifecycle is Draining || self.lifecycle is Cancelling ==> self.flights.len() > 0
    }

    /// The place of the backend that is chosen for a connection, among the
    /// backends of the current snapshot with the loads that `flights` gives
    /// them.
    pub open spec fn choice(
        self,
        flights: Seq<Flight>,
        excluded: Option<int>,
        a: u64,
        b: u64,
    ) -> int {
        chosen_place(loads_of(self.registry.backends, flights), excluded, a, b)
    }

    /// A connection has come in. A running dispatcher hands it to the backend
    /// of its choice; a connection that is in flight already is not handed
    /// out again.
    pub open spec fn accepted(self, conn: u64, a: u64, b: u64) -> (DispatcherView, DispatchAction) {
        if !(self.lifecycle is Running) {
            (self, DispatchAction::Reject { conn })
        } else if in_flight(self.flights, conn) {
            (self, DispatchAction::Nothing)
        } else {
            let backend = self.registry.backends[self.choice(self.flights, None, a, b)];
            let flight = Flight {
                conn,
                backend,
                retry: RetryState { attempts_made: 0, limit: self.retry_limit },
                relaying: false,
            };
            (
                DispatcherView { flights: self.flights.push(flight), ..self },
                DispatchAction::Relay { conn, backend },
            )
        }
    }

    /// The relay of a connection has connected: from now on the connection
    /// stays with its backend.
    pub open spec fn connected(self, conn: u64) -> (DispatcherView, DispatchAction) {
        match flight_place(self.flights, conn) {
            Some(place) => (
                DispatcherView {
                    flights: self.flights.update(
                        place,
                        Flight { relaying: true, ..self.flights[place] },
                    ),
                    ..self
                },
                DispatchAction::Nothing,
            ),
            None => (self, DispatchAction::Nothing),
        }
    }

    /// The dispatcher without the flight at `place`.
    pub open spec fn released(self, place: int) -> DispatcherView {
        DispatcherView {
            flights: self.flights.remove(place),
            lifecycle: wound_down(self.lifecycle, (self.flights.len() - 1) as nat),
            ..self
        }
    }

    /// The relay of a connection could not connect. Where the connection is
    /// not committed yet and the policy allows it, the connection goes to
    /// another backend: the one that failed is left out of the choice, and its
    /// load no longer counts the connection. Else the connection is given up.
    /// A dispatcher that is cancelling retries nothing.
    pub open spec fn connect_failed(self, conn: u64, a: u64, b: u64) -> (
        DispatcherView,
        DispatchAction,
    ) {
        match flight_place(self.flights, conn) {
            Some(place) => {
                let flight = self.flights[place];
                if flight.relaying {
                    (self, DispatchAction::Nothing)
                } else {
                    match retry_decision(flight.retry, ConnectResult::Failed) {
                        Decision::Retry(retry) if !(self.lifecycle is Cancelling) => {
                            let others = self.flights.remove(place);
                            let excluded = place_of(
                                self.registry.backends,
                                flight.backend.identity(),
                            );
                            let backend = self.registry.backends[self.choice(
                                others,
                                excluded,
                                a,
                                b,
                            )];
                            (
                                DispatcherView {
                                    flights: others.insert(
                                        place,
                                        Flight { conn, backend, retry, relaying: false },
                                    ),
                                    ..self
                                },
                                DispatchAction::Relay { conn, backend },
                            )
                        },
                        _ => (
                            self.released(place),
                            DispatchAction::Abandon {
                                conn,
                                exit: self.released(place).lifecycle is Stopped,
                            },
                        ),
                    }
                }
            },
            None => (self, DispatchAction::Nothing),
        }
    }

    /// The relay of a connection has ended: the connection is in flight no
    /// more, whatever its end was.
    pub open spec fn completed(self, conn: u64) -> (DispatcherView, DispatchAction) {
        match flight_place(self.flights, conn) {
            Some(place) => (
                self.released(place),
                DispatchAction::Retire { conn, exit: self.released(place).lifecycle is Stopped },
            ),
            None => (self, DispatchAction::Nothing),
        }
    }

    /// The intake is over. A running dispatcher begins to drain, and stops
    /// at once where nothing is in flight; any other has nothing to do.
    pub open spec fn intake_stopped(self) -> (DispatcherView, DispatchAction) {
        if self.lifecycle is Running {
            let lifecycle = wound_down(Lifecycle::Draining, self.flights.len());
            (
                DispatcherView { lifecycle, ..self },
                DispatchAction::StopIntake { exit: lifecycle is Stopped },
            )
        } else {
            (self, DispatchAction::Nothing)
        }
    }

    /// The dispatcher is to stop at once. One that has not asked its relays
    /// to stop yet does so now, and stops at once where nothing is in flight;
    /// any other has nothing to do.
    pub open spec fn cancelled(self) -> (DispatcherView, DispatchAction) {
        if self.lifecycle is Running || self.lifecycle is Draining {
            let lifecycle = wound_down(Lifecycle::Cancelling, self.flights.len());
            (
                DispatcherView { lifecycle, ..self },
                DispatchAction::CancelAll { exit: lifecycle is Stopped },
            )
        } else {
            (self, DispatchAction::Nothing)
        }
    }

    /// The transition of the dispatcher: its next state and its answer to
    /// `event`, where `a` and `b` are the random words of the choice.
    pub open spec fn step(self, event: DispatchEvent, a: u64, b: u64) -> (
        DispatcherView,
        DispatchAction,
    ) {
        match event {
            DispatchEvent::Accepted { conn } => self.accepted(conn, a, b),
            DispatchEvent::Connected { conn } => self.connected(conn),
            DispatchEvent::ConnectFailed { conn } => self.connect_failed(conn, a, b),
            DispatchEvent::Completed { conn } => self.completed(conn),
            DispatchEvent::IntakeClosed => self.intake_stopped(),
            DispatchEvent::Shutdown(ShutdownMode::Graceful) => self.intake_stopped(),
            DispatchEvent::Shutdown(ShutdownMode::Immediate) => self.cancelled(),
        }
    }

    /// The dispatcher after discovery has changed the set of backends.
    pub open spec fn rediscovered(
        self,
        added: Seq<TcpProxyFallback>,
        removed: Seq<SocketAddress>,
    ) -> DispatcherView {
        DispatcherView { registry: applied(self.registry, added, removed), ..self }
    }
}

/// There is one first place at most.
pub proof fn lemma_flight_place(flights: Seq<Flight>, conn: u64, place: int)
    requires
        carries(flights, conn, place),
    ensures
        flight_place(flights, conn) == Some(place),
        in_flight(flights, conn),
{
    let chosen = choose|chosen: int| carries(flights, conn, chosen);
    if chosen < place {
        assert(flights[chosen].conn != conn);
    } else if place < chosen {
        assert(flights[place].conn != conn);
    }
}

/// A connection that is not in flight has no place.
pub proof fn lemma_no_flight(flights: Seq<Flight>, conn: u64)
    requires
        !in_flight(flights, conn),
    ensures
        flight_place(flights, conn) is None,
{
    if exists|place: int| carries(flights, conn, place) {
        let place = choose|place: int| carries(flights, conn, place);
        assert(flights[place].conn == conn);
    }
}

/// A flight that comes counts for its backend and for no other.
pub proof fn lemma_load_push(flights: Seq<Flight>, flight: Flight, identity: SocketAddress)
    ensures
        pending_load(flights.push(flight), identity) == pending_load(flights, identity) + (
        if flight.backend.identity() == identity {
            1nat
        } else {
            0nat
        }),
{
    assert(flights.push(flight).drop_last() == flights);
}

/// A flight that goes no longer counts for its backend.
pub proof fn lemma_load_remove(flights: Seq<Flight>, place: int, identity: SocketAddress)
    requires
        0 <= place < flights.len(),
    ensures
        pending_load(flights, identity) == pending_load(flights.remove(place), identity) + (
        if flights[place].backend.identity() == identity {
            1nat
        } else {
            0nat
        }),
    decreases flights.len(),
{
    if place == flights.len() - 1 {
        assert(flights.remove(place) == flights.drop_last());
    } else {
        lemma_load_remove(flights.drop_last(), place, identity);
        assert(flights.remove(place).drop_last() == flights.drop_last().remove(place));
        assert(flights.remove(place).last() == flights.last());
    }
}

/// A flight that comes at `place` counts for its backend and for no other.
pub proof fn lemma_load_insert(
    flights: Seq<Flight>,
    place: int,
    flight: Flight,
    identity: SocketAddress,
)
    requires
        0 <= place <= flights.len(),
    ensures
        pending_load(flights.insert(place, flight), identity) == pending_load(flights, identity)
            + (if flight.backend.identity() == identity {
            1nat
        } else {
            0nat
        }),
{
    let all = flights.insert(place, flight);
    assert(all.remove(place) == flights);
    lemma_load_remove(all, place, identity);
}

/// A flight that changes nothing but its state counts as before.
pub proof fn lemma_load_update(
    flights: Seq<Flight>,
    place: int,
    flight: Flight,
    identity: SocketAddress,
)
    requires
        0 <= place < flights.len(),
        flight.backend == flights[place].backend,
    ensures
        pending_load(flights.update(place, flight), identity) == pending_load(flights, identity),
{
    let all = flights.update(place, flight);
    assert(all.remove(place) == flights.remove(place));
    lemma_load_remove(all, place, identity);
    lemma_load_remove(flights, place, identity);
}

/// No backend has more connections pending than there are in flight.
pub proof fn lemma_load_bounded(flights: Seq<Flight>, identity: SocketAddress)
    ensures
        pending_load(flights, identity) <= flights.len(),
    decreases flights.len(),
{
    if flights.len() > 0 {
        lemma_load_bounded(flights.drop_last(), identity);
    }
}

/// The backends that a list of targets stands for: the targets are taken two
/// by two, the first of each two as a backend and the second as its fallback;
/// where one target is left over, it is a backend without a fallback.
pub open spec fn paired(targets: Seq<Target>) -> Seq<TcpProxyFallback> {
    Seq::new(
        ((targets.len() + 1) / 2) as nat,
        |k: int|
            TcpProxyFallback {
                target_addr: targets[2 * k].address(),
                fall_back_addr: if 2 * k + 1 < targets.len() {
                    Some(targets[2 * k + 1].address())
                } else {
                    None
                },
            },
    )
}

/// The backends that a dispatcher is going to be started with.
#[derive(Debug)]
pub struct DispatchService {
    services: Vec<TcpProxyFallback>,
}

impl View for DispatchService {
    type V = Seq<TcpProxyFallback>;

    closed spec fn view(&self) -> Seq<TcpProxyFallback> {
        self.services@
    }
}

impl DispatchService {
    pub fn new() -> (service: DispatchService)
        ensures
            service@ == Seq::<TcpProxyFallback>::empty(),
    {
        DispatchService { services: Vec::new() }
    }

    /// Adds the backends that `targets` stands for.
    pub fn with_targets(self, targets: Vec<Target>) -> (service: DispatchService)
        ensures
            service@ == self@ + paired(targets@),
    {
        let mut service = self;
        let ghost base = service.services@;
        let ghost pairs = paired(targets@);
        let mut i: usize = 0;
        while i < targets.len()
            invariant
                i <= targets.len(),
                i % 2 == 0 || i == targets.len(),
                pairs == paired(targets@),
                service.services@ == base + pairs.take((i + 1) / 2),
            decreases targets.len() - i,
        {
            let mut backend = TcpProxyFallback::new(targets[i].sock_addr());
            let ghost k = i as int / 2;
            if i + 1 < targets.len() {
                backend.with_fallback(targets[i + 1].sock_addr());
                i += 2;
            } else {
                i += 1;
            }
            service.add_service(backend);
            assert(backend == pairs[k]);
            assert(pairs.take(k + 1) == pairs.take(k).push(pairs[k]));
            assert(service.services@ == base + pairs.take(k + 1));
        }
        assert(pairs.take(pairs.len() as int) == pairs);
        service
    }

    pub fn add_service(&mut self, svc: TcpProxyFallback)
        ensures
            final(self)@ == old(self)@.push(svc),
    {
        self.services.push(svc);
    }

    /// How many backends have been added.
    pub fn len(&self) -> (len: usize)
        ensures
            len == self@.len(),
    {
        self.services.len()
    }

    /// The backend that was added at `index`.
    pub fn service(&self, index: usize) -> (svc: TcpProxyFallback)
        requires
            index < self@.len(),
        ensures
            svc == self@[index as int],
    {
        self.services[index]
    }

    /// Starts a dispatcher on the backends, with the retry limit that is the
    /// default. Fails where there is no backend.
    pub fn start(self) -> (started: Result<Dispatcher, SlyError>)
        ensures
            started is Err <==> self@.len() == 0,
            started matches Err(error) ==> error == SlyError::RegistryEmpty,
            started matches Ok(dispatcher) ==> dispatcher.well_formed() && dispatcher@
                == Dispatcher::initial(self@, DEFAULT_RETRY_LIMIT),
    {
        self.start_with_retries(DEFAULT_RETRY_LIMIT)
    }

    /// Starts a dispatcher on the backends, in which a connection may be
    /// retried `retry_limit` times. Fails where there is no backend.
    pub fn start_with_retries(self, retry_limit: u32) -> (started: Result<Dispatcher, SlyError>)
        ensures
            started is Err <==> self@.len() == 0,
            started matches Err(error) ==> error == SlyError::RegistryEmpty,
            started matches Ok(dispatcher) ==> dispatcher.well_formed() && dispatcher@
                == Dispatcher::initial(self@, retry_limit),
    {
        match Registry::new(self.services) {
            Err(error) => Err(error),
            Ok(registry) => {
                let dispatcher = Dispatcher {
                    registry,
                    loads: PendingLoads::new(),
                    flights: Vec::new(),
                    lifecycle: Lifecycle::Running,
                    retry_limit,
                    generator: fresh_generator(),
                };
                Ok(dispatcher)
            },
        }
    }
}

/// The dispatcher.
pub struct Dispatcher {
    registry: Registry,
    loads: PendingLoads,
    flights: Vec<Flight>,
    lifecycle: Lifecycle,
    retry_limit: u32,
    generator: HasherRng,
}

impl View for Dispatcher {
    type V = DispatcherView;

    closed spec fn view(&self) -> DispatcherView {
        DispatcherView {
            registry: self.registry@,
            flights: self.flights@,
            lifecycle: self.lifecycle,
            retry_limit: self.retry_limit,
        }
    }
}

impl Dispatcher {
    /// A dispatcher at its start: it runs on `services`, of which the first
    /// stands where two share an identity, and nothing is in flight.
    pub open spec fn initial(services: Seq<TcpProxyFallback>, retry_limit: u32) -> DispatcherView {
        DispatcherView {
            registry: SnapshotView {
                version: 0,
                backends: merged(Seq::empty(), services, Seq::empty()),
            },
            flights: Seq::empty(),
            lifecycle: Lifecycle::Running,
            retry_limit,
        }
    }

    /// Whether every counter holds the pending load of its address.
    pub closed spec fn counters_agree(&self) -> bool {
        &&& self.loads.well_formed()
        &&& forall|identity: SocketAddress| #[trigger]
            self.loads.pending(identity) == pending_load(self.flights@, identity)
    }

    /// What holds of every dispatcher: its value is well formed, and its
    /// counters hold the pending loads.
    pub closed spec fn well_formed(&self) -> bool {
        self@.well_formed() && self.counters_agree()
    }

    /// The value of a well-formed dispatcher is well formed.
    pub proof fn lemma_well_formed(&self)
        requires
            self.well_formed(),
        ensures
            self@.well_formed(),
    {
    }

    pub fn lifecycle(&self) -> (lifecycle: Lifecycle)
        ensures
            lifecycle == self@.lifecycle,
    {
        self.lifecycle
    }

    pub fn retry_limit(&self) -> (limit: u32)
        ensures
            limit == self@.retry_limit,
    {
        self.retry_limit
    }

    /// The current snapshot of the registry, as a copy.
    pub fn snapshot(&self) -> (snapshot: RegistrySnapshot)
        ensures
            snapshot@ == self@.registry,
    {
        self.registry.snapshot()
    }

    /// How many connections are in flight.
    pub fn in_flight_count(&self) -> (count: usize)
        ensures
            count == self@.flights.len(),
    {
        self.flights.len()
    }

    /// The connections in flight, in the order in which they came.
    pub fn connections(&self) -> (conns: Vec<u64>)
        ensures
            conns@ == self@.flights.map_values(|flight: Flight| flight.conn),
    {
        let mut conns: Vec<u64> = Vec::new();
        let mut i: usize = 0;
        while i < self.flights.len()
            invariant
                i <= self.flights.len(),
                conns@ == self.flights@.take(i as int).map_values(|flight: Flight| flight.conn),
            decreases self.flights.len() - i,
        {
            conns.push(self.flights[i].conn);
            assert(self.flights@.take(i + 1).map_values(|flight: Flight| flight.conn)
                == self.flights@.take(i as int).map_values(|flight: Flight| flight.conn).push(
                self.flights@[i as int].conn,
            ));
            i += 1;
        }
        assert(self.flights@.take(self.flights.len() as int) == self.flights@);
        conns
    }

    /// The flight of the connection `conn`, if it is in flight.
    pub fn flight(&self, conn: u64) -> (flight: Option<Flight>)
        ensures
            flight == (match flight_place(self@.flights, conn) {
                Some(place) => Some(self@.flights[place]),
                None => None,
            }),
            flight is Some == in_flight(self@.flights, conn),
    {
        match self.find_flight(conn) {
            Some(place) => Some(self.flights[place]),
            None => None,
        }
    }

    /// The pending load of the backend address `identity`.
    pub fn pending_load(&self, identity: SocketAddress) -> (load: u64)
        requires
            self.well_formed(),
        ensures
            load == pending_load(self@.flights, identity),
    {
        self.loads.get(identity)
    }

    fn find_flight(&self, conn: u64) -> (place: Option<usize>)
        ensures
            as_place(place) == flight_place(self.flights@, conn),
            place is Some == in_flight(self.flights@, conn),
            place matches Some(i) ==> carries(self.flights@, conn, i as int),
    {
        let mut i: usize = 0;
        while i < self.flights.len()
            invariant
                i <= self.flights.len(),
                forall|k: int| 0 <= k < i ==> (#[trigger] self.flights@[k]).conn != conn,
            decreases self.flights.len() - i,
        {
            if self.flights[i].conn == conn {
                proof {
                    lemma_flight_place(self.flights@, conn, i as int);
                }
                return Some(i);
            }
            i += 1;
        }
        proof {
            lemma_no_flight(self.flights@, conn);
        }
        None
    }

    /// Chooses a backend of `snapshot` by the counters as they stand.
    fn pick(&self, snapshot: &RegistrySnapshot, excluded: Option<usize>, a: u64, b: u64) -> (place:
        usize)
        requires
            self.counters_agree(),
            snapshot@.well_formed(),
            exclusion_fits(snapshot@.backends.len() as int, as_place(excluded)),
        ensures
            place == chosen_place(
                loads_of(snapshot@.backends, self.flights@),
                as_place(excluded),
                a,
                b,
            ),
            place < snapshot@.backends.len(),
    {
        let pair = pick_candidates(snapshot.len(), excluded, a, b);
        let first_load = self.loads.get(snapshot.get(pair.0).target_addr());
        let second_load = self.loads.get(snapshot.get(pair.1).target_addr());
        pick_less_loaded(pair.0, first_load, pair.1, second_load)
    }

    /// Takes the flight at `place` out, and stops the dispatcher where it
    /// only waited for that.
    fn release(&mut self, place: usize) -> (exit: bool)
        requires
            old(self).well_formed(),
            place < old(self)@.flights.len(),
        ensures
            final(self).well_formed(),
            final(self)@ == old(self)@.released(place as int),
            exit == (final(self)@.lifecycle is Stopped),
    {
        let ghost before = self.flights@;
        let flight = self.flights.remove(place);
        self.loads.decrement(flight.backend.target_addr());
        proof {
            assert forall|identity: SocketAddress| #[trigger]
                self.loads.pending(identity) == pending_load(self.flights@, identity) by {
                lemma_load_remove(before, place as int, identity);
            }
            assert(distinct_connections(self.flights@)) by {
                assert forall|i: int, j: int| 0 <= i < j < self.flights@.len() implies (
                #[trigger] self.flights@[i]).conn != (#[trigger] self.flights@[j]).conn by {
                    let from_i = if i < place { i } else { i + 1 };
                    let from_j = if j < place { j } else { j + 1 };
                    assert(self.flights@[i] == before[from_i]);
                    assert(self.flights@[j] == before[from_j]);
                }
            }
        }
        if self.flights.len() == 0 {
            match self.lifecycle {
                Lifecycle::Draining => {
                    self.lifecycle = Lifecycle::Stopped;
                },
                Lifecycle::Cancelling => {
                    self.lifecycle = Lifecycle::Stopped;
                },
                _ => {},
            }
        }
        match self.lifecycle {
            Lifecycle::Stopped => true,
            _ => false,
        }
    }

    /// A connection has come in; `a` and `b` are the random words of the
    /// choice, and may be any numbers.
    pub fn accept_with(&mut self, conn: u64, a: u64, b: u64) -> (action: DispatchAction)
        requires
            old(self).well_formed(),
        ensures
            final(self).well_formed(),
            (final(self)@, action) == old(self)@.accepted(conn, a, b),
    {
        match self.lifecycle {
            Lifecycle::Running => {},
            _ => {
                return DispatchAction::Reject { conn };
            },
        }
        if self.find_flight(conn).is_some() {
            return DispatchAction::Nothing;
        }
        let snapshot = self.registry.snapshot();
        let place = self.pick(&snapshot, None, a, b);
        let backend = snapshot.get(place);
        let flight = Flight { conn, backend, retry: RetryState::new(self.retry_limit), relaying: false };
        let ghost before = self.flights@;
        self.flights.push(flight);
        proof {
            lemma_load_push(before, flight, backend.identity());
            lemma_load_bounded(self.flights@, backend.identity());
            assert(self.loads.pending(backend.identity()) == pending_load(
                before,
                backend.identity(),
            ));
            assert(self.flights@.len() == self.flights.len());
        }
        self.loads.increment(backend.target_addr());
        proof {
            assert forall|identity: SocketAddress| #[trigger]
                self.loads.pending(identity) == pending_load(self.flights@, identity) by {
                lemma_load_push(before, flight, identity);
            }
            assert(distinct_connections(self.flights@)) by {
                assert forall|i: int, j: int| 0 <= i < j < self.flights@.len() implies (
                #[trigger] self.flights@[i]).conn != (#[trigger] self.flights@[j]).conn by {
                    if j == before.len() {
                        assert(before[i].conn != conn);
                    } else {
                        assert(self.flights@[i] == before[i] && self.flights@[j] == before[j]);
                    }
                }
            }
        }
        DispatchAction::Relay { conn, backend }
    }

    /// The relay of a connection has connected.
    pub fn connected(&mut self, conn: u64) -> (action: DispatchAction)
        requires
            old(self).well_formed(),
        ensures
            final(self).well_formed(),
            (final(self)@, action) == old(self)@.connected(conn),
    {
        match self.find_flight(conn) {
            Some(place) => {
                let ghost before = self.flights@;
                let flight = self.flights[place];
                let committed = Flight { relaying: true, ..flight };
                self.flights.set(place, committed);
                proof {
                    assert forall|identity: SocketAddress| #[trigger]
                        self.loads.pending(identity) == pending_load(self.flights@, identity) by {
                        lemma_load_update(before, place as int, committed, identity);
                    }
                    assert(distinct_connections(self.flights@)) by {
                        assert forall|i: int, j: int| 0 <= i < j < self.flights@.len() implies (
                        #[trigger] self.flights@[i]).conn != (
                        #[trigger] self.flights@[j]).conn by {
                            assert(self.flights@[i].conn == before[i].conn);
                            assert(self.flights@[j].conn == before[j].conn);
                        }
                    }
                }
                DispatchAction::Nothing
            },
            None => DispatchAction::Nothing,
        }
    }

    /// The relay of a connection could not connect; `a` and `b` are the
    /// random words of the choice, and may be any numbers.
    pub fn connect_failed_with(&mut self, conn: u64, a: u64, b: u64) -> (action: DispatchAction)
        requires
            old(self).well_formed(),
        ensures
            final(self).well_formed(),
            (final(self)@, action) == old(self)@.connect_failed(conn, a, b),
    {
        let place = match self.find_flight(conn) {
            Some(place) => place,
            None => {
                return DispatchAction::Nothing;
            },
        };
        let flight = self.flights[place];
        if flight.relaying {
            return DispatchAction::Nothing;
        }
        let cancelling = match self.lifecycle {
            Lifecycle::Cancelling => true,
            _ => false,
        };
        match should_retry(flight.retry, ConnectResult::Failed) {
            Decision::Retry(retry) if !cancelling => {
                let ghost before = self.flights@;
                let gone = self.flights.remove(place);
                let ghost others = self.flights@;
                self.loads.decrement(gone.backend.target_addr());
                proof {
                    assert forall|identity: SocketAddress| #[trigger]
                        self.loads.pending(identity) == pending_load(others, identity) by {
                        lemma_load_remove(before, place as int, identity);
                    }
                }
                let snapshot = self.registry.snapshot();
                let excluded = snapshot.position(gone.backend.target_addr());
                let chosen = self.pick(&snapshot, excluded, a, b);
                let backend = snapshot.get(chosen);
                let again = Flight { conn, backend, retry, relaying: false };
                self.flights.insert(place, again);
                proof {
                    lemma_load_insert(others, place as int, again, backend.identity());
                    lemma_load_bounded(self.flights@, backend.identity());
                    assert(self.loads.pending(backend.identity()) == pending_load(
                        others,
                        backend.identity(),
                    ));
                    assert(self.flights@.len() == self.flights.len());
                }
                self.loads.increment(backend.target_addr());
                proof {
                    assert forall|identity: SocketAddress| #[trigger]
                        self.loads.pending(identity) == pending_load(self.flights@, identity) by {
                        lemma_load_insert(others, place as int, again, identity);
                    }
                    assert(distinct_connections(self.flights@)) by {
                        assert forall|i: int, j: int| 0 <= i < j < self.flights@.len() implies (
                        #[trigger] self.flights@[i]).conn != (
                        #[trigger] self.flights@[j]).conn by {
                            assert(self.flights@[i].conn == before[i].conn);
                            assert(self.flights@[j].conn == before[j].conn);
                        }
                    }
                }
                DispatchAction::Relay { conn, backend }
            },
            _ => {
                let exit = self.release(place);
                DispatchAction::Abandon { conn, exit }
            },
        }
    }

    /// The relay of a connection has ended.
    pub fn completed(&mut self, conn: u64) -> (action: DispatchAction)
        requires
            old(self).well_formed(),
        ensures
            final(self).well_formed(),
            (final(self)@, action) == old(self)@.completed(conn),
    {
        match self.find_flight(conn) {
            Some(place) => {
                let exit = self.release(place);
                DispatchAction::Retire { conn, exit }
            },
            None => DispatchAction::Nothing,
        }
    }

    /// The intake is over: the channel was closed, or a graceful shutdown
    /// was asked for.
    pub fn stop_intake(&mut self) -> (action: DispatchAction)
        requires
            old(self).well_formed(),
        ensures
            final(self).well_formed(),
            (final(self)@, action) == old(self)@.intake_stopped(),
    {
        match self.lifecycle {
            Lifecycle::Running => {
                if self.flights.len() == 0 {
                    self.lifecycle = Lifecycle::Stopped;
                    DispatchAction::StopIntake { exit: true }
                } else {
                    self.lifecycle = Lifecycle::Draining;
                    DispatchAction::StopIntake { exit: false }
                }
            },
            _ => DispatchAction::Nothing,
        }
    }

    /// An immediate shutdown was asked for.
    pub fn cancel(&mut self) -> (action: DispatchAction)
        requires
            old(self).well_formed(),
        ensures
            final(self).well_formed(),
            (final(self)@, action) == old(self)@.cancelled(),
    {
        let live = match self.lifecycle {
            Lifecycle::Running => true,
            Lifecycle::Draining => true,
            _ => false,
        };
        if live {
            if self.flights.len() == 0 {
                self.lifecycle = Lifecycle::Stopped;
                DispatchAction::CancelAll { exit: true }
            } else {
                self.lifecycle = Lifecycle::Cancelling;
                DispatchAction::CancelAll { exit: false }
            }
        } else {
            DispatchAction::Nothing
        }
    }

    /// Takes one event and answers with what is to be done; `a` and `b` are
    /// the random words of the choice, and may be any numbers.
    pub fn handle_with(&mut self, event: DispatchEvent, a: u64, b: u64) -> (action: DispatchAction)
        requires
            old(self).well_formed(),
        ensures
            final(self).well_formed(),
            (final(self)@, action) == old(self)@.step(event, a, b),
    {
        match event {
            DispatchEvent::Accepted { conn } => self.accept_with(conn, a, b),
            DispatchEvent::Connected { conn } => self.connected(conn),
            DispatchEvent::ConnectFailed { conn } => self.connect_failed_with(conn, a, b),
            DispatchEvent::Completed { conn } => self.completed(conn),
            DispatchEvent::IntakeClosed => self.stop_intake(),
            DispatchEvent::Shutdown(mode) => match mode {
                ShutdownMode::Graceful => self.stop_intake(),
                ShutdownMode::Immediate => self.cancel(),
            },
        }
    }

    /// Takes one event and answers with what is to be done. Where a backend
    /// has to be chosen, the dispatcher draws the two random words itself, so
    /// the answer is that of `handle_with` for some two words.
    pub fn handle(&mut self, event: DispatchEvent) -> (action: DispatchAction)
        requires
            old(self).well_formed(),
        ensures
            final(self).well_formed(),
            exists|a: u64, b: u64| (final(self)@, action) == #[trigger] old(self)@.step(event, a, b),
    {
        let a = draw(&mut self.generator);
        let b = draw(&mut self.generator);
        self.handle_with(event, a, b)
    }

    /// Puts a change of the set of backends into effect. Answers whether it
    /// did; it does not where the change would leave no backend. Nothing that
    /// is in flight is touched.
    pub fn apply(&mut self, delta: &DiscoveryDelta) -> (published: bool)
        requires
            old(self).well_formed(),
        ensures
            final(self).well_formed(),
            final(self)@ == old(self)@.rediscovered(delta.added@, delta.removed@),
            published == (merged(old(self)@.registry.backends, delta.added@, delta.removed@).len()
                > 0),
    {
        self.registry.apply(delta)
    }
}

} // verus!
