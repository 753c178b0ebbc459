//! What holds of the dispatcher in every state and over every run.

use crate::dispatch::{
    carries, distinct_connections, flight_place, in_flight, lemma_flight_place, lemma_load_remove,
    lemma_no_flight, loads_of, pending_load, DispatchAction, DispatchEvent, DispatcherView, Flight,
    Lifecycle, ShutdownMode,
};
use crate::fallback::TcpProxyFallback;
use crate::registry::{
    applied, first_place, has_backend, lemma_merged, lemma_place_of, merged, place_of,
};
use crate::retry::RetryState;
use crate::select::{exclusion_fits, lemma_chosen_place};
use crate::target::SocketAddress;
use vstd::prelude::*;

verus! {

/// The flight of the connection `conn`, if it is in flight.
pub open spec fn flight_of(flights: Seq<Flight>, conn: u64) -> Option<Flight> {
    match flight_place(flights, conn) {
        Some(place) => Some(flights[place]),
        None => None,
    }
}

/// The connection that an event is about, if it is about one.
pub open spec fn subject(event: DispatchEvent) -> Option<u64> {
    match event {
        DispatchEvent::Accepted { conn } => Some(conn),
        DispatchEvent::Connected { conn } => Some(conn),
        DispatchEvent::ConnectFailed { conn } => Some(conn),
        DispatchEvent::Completed { conn } => Some(conn),
        _ => None,
    }
}

/// Whether `action` hands the connection `conn` to a backend.
pub open spec fn relays(action: DispatchAction, conn: u64) -> bool {
    action matches DispatchAction::Relay { conn: handed, .. } && handed == conn
}

/// The place that `flight_place` names carries the connection.
pub proof fn lemma_flight_found(flights: Seq<Flight>, conn: u64)
    ensures
        flight_place(flights, conn) matches Some(place) ==> carries(flights, conn, place),
        flight_place(flights, conn) is Some <==> in_flight(flights, conn),
{
    if exists|place: int| carries(flights, conn, place) {
        let place = choose|place: int| carries(flights, conn, place);
        assert(flights[place].conn == conn);
    } else if in_flight(flights, conn) {
        let some = choose|place: int| 0 <= place < flights.len() && (#[trigger] flights[place]).conn
            == conn;
        lemma_first_exists(flights, conn, some);
    }
}

/// Where a connection is at some place, it has a first place.
pub proof fn lemma_first_exists(flights: Seq<Flight>, conn: u64, some: int)
    requires
        0 <= some < flights.len(),
        flights[some].conn == conn,
    ensures
        exists|place: int| carries(flights, conn, place),
    decreases some,
{
    if forall|k: int| 0 <= k < some ==> (#[trigger] flights[k]).conn != conn {
        assert(carries(flights, conn, some));
    } else {
        let earlier = choose|k: int| 0 <= k < some && (#[trigger] flights[k]).conn == conn;
        lemma_first_exists(flights, conn, earlier);
    }
}

/// The backend that is chosen for a connection is a backend of the current
/// snapshot.
pub proof fn lemma_choice_is_member(
    state: DispatcherView,
    flights: Seq<Flight>,
    excluded: Option<int>,
    a: u64,
    b: u64,
)
    requires
        state.registry.well_formed(),
        exclusion_fits(state.registry.backends.len() as int, excluded),
    ensures
        0 <= state.choice(flights, excluded, a, b) < state.registry.backends.len(),
        state.registry.backends.len() >= 2 ==> excluded != Some(
            state.choice(flights, excluded, a, b),
        ),
{
    lemma_chosen_place(loads_of(state.registry.backends, flights), excluded, a, b);
}

/// Taking a flight out leaves no connection in flight twice.
pub proof fn lemma_distinct_remove(flights: Seq<Flight>, place: int)
    requires
        distinct_connections(flights),
        0 <= place < flights.len(),
    ensures
        distinct_connections(flights.remove(place)),
        !in_flight(flights.remove(place), flights[place].conn),
{
    let rest = flights.remove(place);
    assert forall|i: int, j: int| 0 <= i < j < rest.len() implies (#[trigger] rest[i]).conn != (
    #[trigger] rest[j]).conn by {
        let from_i = if i < place { i } else { i + 1 };
        let from_j = if j < place { j } else { j + 1 };
        assert(rest[i] == flights[from_i] && rest[j] == flights[from_j]);
    }
    assert forall|k: int| 0 <= k < rest.len() implies (#[trigger] rest[k]).conn
        != flights[place].conn by {
        let from = if k < place { k } else { k + 1 };
        assert(rest[k] == flights[from]);
    }
}

/// Putting a flight in whose connection is not in flight leaves no
/// connection in flight twice.
pub proof fn lemma_distinct_insert(flights: Seq<Flight>, place: int, flight: Flight)
    requires
        distinct_connections(flights),
        0 <= place <= flights.len(),
        !in_flight(flights, flight.conn),
    ensures
        distinct_connections(flights.insert(place, flight)),
{
    let all = flights.insert(place, flight);
    assert forall|i: int, j: int| 0 <= i < j < all.len() implies (#[trigger] all[i]).conn != (
    #[trigger] all[j]).conn by {
        let from_i = if i < place { i } else { i - 1 };
        let from_j = if j < place { j } else { j - 1 };
        if i == place {
            assert(all[j] == flights[from_j]);
        } else if j == place {
            assert(all[i] == flights[from_i]);
        } else {
            assert(all[i] == flights[from_i] && all[j] == flights[from_j]);
        }
    }
}

/// Every transition keeps the dispatcher well formed, and leaves its
/// registry and its retry limit as they are. So at every moment each
/// connection in flight is in flight once, with one backend.
pub proof fn lemma_step_keeps_well_formed(
    state: DispatcherView,
    event: DispatchEvent,
    a: u64,
    b: u64,
)
    requires
        state.well_formed(),
    ensures
        state.step(event, a, b).0.well_formed(),
        state.step(event, a, b).0.registry == state.registry,
        state.step(event, a, b).0.retry_limit == state.retry_limit,
{
    let next = state.step(event, a, b).0;
    match event {
        DispatchEvent::Accepted { conn } => {
            if state.lifecycle is Running && !in_flight(state.flights, conn) {
                lemma_distinct_insert(
                    state.flights,
                    state.flights.len() as int,
                    next.flights.last(),
                );
                assert(state.flights.insert(state.flights.len() as int, next.flights.last())
                    == next.flights);
            }
        },
        DispatchEvent::Connected { conn } => {
            lemma_flight_found(state.flights, conn);
            assert forall|i: int, j: int| 0 <= i < j < next.flights.len() implies (
            #[trigger] next.flights[i]).conn != (#[trigger] next.flights[j]).conn by {
                assert(next.flights[i].conn == state.flights[i].conn);
                assert(next.flights[j].conn == state.flights[j].conn);
            }
        },
        DispatchEvent::ConnectFailed { conn } => {
            lemma_flight_found(state.flights, conn);
            match flight_place(state.flights, conn) {
                Some(place) => {
                    lemma_distinct_remove(state.flights, place);
                    if next.flights.len() == state.flights.len() && next.flights != state.flights {
                        lemma_distinct_insert(
                            state.flights.remove(place),
                            place,
                            next.flights[place],
                        );
                    }
                },
                None => {},
            }
        },
        DispatchEvent::Completed { conn } => {
            lemma_flight_found(state.flights, conn);
            match flight_place(state.flights, conn) {
                Some(place) => {
                    lemma_distinct_remove(state.flights, place);
                },
                None => {},
            }
        },
        _ => {},
    }
}

/// Where no connection is in flight twice, the flight of a connection is the
/// one flight that bears its number.
pub proof fn lemma_flight_of(flights: Seq<Flight>, place: int)
    requires
        distinct_connections(flights),
        0 <= place < flights.len(),
    ensures
        flight_of(flights, flights[place].conn) == Some(flights[place]),
{
    lemma_flight_place(flights, flights[place].conn, place);
}

/// An event changes nothing for the connections that it is not about: each
/// of them is in flight after it exactly if it was before, with the same
/// backend, the same retries and the same commitment.
pub proof fn lemma_others_untouched(
    state: DispatcherView,
    event: DispatchEvent,
    a: u64,
    b: u64,
    other: u64,
)
    requires
        state.well_formed(),
        subject(event) != Some(other),
    ensures
        flight_of(state.step(event, a, b).0.flights, other) == flight_of(state.flights, other),
{
    let next = state.step(event, a, b).0;
    lemma_step_keeps_well_formed(state, event, a, b);
    lemma_flight_found(state.flights, other);
    lemma_flight_found(next.flights, other);
    match subject(event) {
        Some(conn) => {
            lemma_flight_found(state.flights, conn);
        },
        None => {},
    }
    match flight_place(state.flights, other) {
        Some(at) => {
            lemma_flight_of(state.flights, at);
            if next.flights != state.flights {
                // The flight of `other` is still there, at its place or one beside it.
                let moved = if next.flights.len() < state.flights.len() {
                    let gone = flight_place(state.flights, subject(event)->0)->0;
                    if at < gone {
                        at
                    } else {
                        at - 1
                    }
                } else {
                    at
                };
                assert(next.flights[moved] == state.flights[at]);
                lemma_flight_of(next.flights, moved);
            }
        },
        None => {
            if in_flight(next.flights, other) {
                let at = choose|at: int|
                    0 <= at < next.flights.len() && (#[trigger] next.flights[at]).conn == other;
                if next.flights.len() < state.flights.len() {
                    let gone = flight_place(state.flights, subject(event)->0)->0;
                    let from = if at < gone {
                        at
                    } else {
                        at + 1
                    };
                    assert(state.flights[from].conn == other);
                } else if at < state.flights.len() {
                    assert(state.flights[at].conn == other);
                }
            }
        },
    }
}

/// A connection that comes in to a running dispatcher is handed to one
/// backend, a backend of the current snapshot, and is in flight with it from
/// then on; nothing else in flight changes.
pub proof fn lemma_accepted_gets_one_backend(state: DispatcherView, conn: u64, a: u64, b: u64)
    requires
        state.well_formed(),
        state.lifecycle is Running,
        !in_flight(state.flights, conn),
    ensures
        ({
            let (next, action) = state.step(DispatchEvent::Accepted { conn }, a, b);
            &&& action matches DispatchAction::Relay { conn: handed, backend }
            &&& handed == conn
            &&& state.registry.backends.contains(backend)
            &&& flight_of(next.flights, conn) == Some(
                Flight {
                    conn,
                    backend,
                    retry: RetryState { attempts_made: 0, limit: state.retry_limit },
                    relaying: false,
                },
            )
            &&& next.flights.drop_last() == state.flights
            &&& next.well_formed()
        }),
{
    let event = DispatchEvent::Accepted { conn };
    let next = state.step(event, a, b).0;
    lemma_choice_is_member(state, state.flights, None, a, b);
    lemma_step_keeps_well_formed(state, event, a, b);
    lemma_flight_of(next.flights, next.flights.len() - 1);
    assert(next.flights.drop_last() == state.flights);
}

/// Whether the connection `conn` is in flight with one of `backends`.
pub open spec fn served_by_member(
    flights: Seq<Flight>,
    conn: u64,
    backends: Seq<TcpProxyFallback>,
) -> bool {
    match flight_of(flights, conn) {
        Some(flight) => backends.contains(flight.backend),
        None => false,
    }
}

/// The dispatcher after it has taken in the connections `conns`, one after
/// the other; `draws` holds the random words of each choice.
pub open spec fn after_accepting(
    state: DispatcherView,
    conns: Seq<u64>,
    draws: Seq<(u64, u64)>,
) -> DispatcherView
    decreases conns.len(),
{
    if conns.len() == 0 {
        state
    } else {
        after_accepting(
            state.step(DispatchEvent::Accepted { conn: conns[0] }, draws[0].0, draws[0].1).0,
            conns.drop_first(),
            draws.drop_first(),
        )
    }
}

/// Whatever the backends are and however many connections come in, each
/// connection is handed to exactly one backend of the snapshot: after the
/// dispatcher has taken them all in, each is in flight once, with a backend
/// that is a member.
pub proof fn lemma_each_connection_one_backend(
    state: DispatcherView,
    conns: Seq<u64>,
    draws: Seq<(u64, u64)>,
)
    requires
        state.well_formed(),
        state.lifecycle is Running,
        conns.no_duplicates(),
        forall|i: int| 0 <= i < conns.len() ==> !in_flight(state.flights, #[trigger] conns[i]),
    ensures
        after_accepting(state, conns, draws).well_formed(),
        after_accepting(state, conns, draws).lifecycle is Running,
        after_accepting(state, conns, draws).registry == state.registry,
        after_accepting(state, conns, draws).flights.len() == state.flights.len() + conns.len(),
        forall|i: int|
            0 <= i < conns.len() ==> #[trigger] served_by_member(
                after_accepting(state, conns, draws).flights,
                conns[i],
                state.registry.backends,
            ),
        forall|other: u64|
            !conns.contains(other) ==> #[trigger] flight_of(
                after_accepting(state, conns, draws).flights,
                other,
            ) == flight_of(state.flights, other),
    decreases conns.len(),
{
    if conns.len() > 0 {
        let event = DispatchEvent::Accepted { conn: conns[0] };
        let next = state.step(event, draws[0].0, draws[0].1).0;
        let rest = conns.drop_first();
        let end = after_accepting(state, conns, draws);
        lemma_accepted_gets_one_backend(state, conns[0], draws[0].0, draws[0].1);
        assert forall|i: int| 0 <= i < rest.len() implies !in_flight(
            next.flights,
            #[trigger] rest[i],
        ) by {
            assert(rest[i] == conns[i + 1]);
            lemma_others_untouched(state, event, draws[0].0, draws[0].1, rest[i]);
            lemma_flight_found(state.flights, rest[i]);
            lemma_flight_found(next.flights, rest[i]);
        }
        lemma_each_connection_one_backend(next, rest, draws.drop_first());
        assert forall|i: int| 0 <= i < conns.len() implies #[trigger] served_by_member(
            end.flights,
            conns[i],
            state.registry.backends,
        ) by {
            if i == 0 {
                assert(!rest.contains(conns[0])) by {
                    if rest.contains(conns[0]) {
                        let k = choose|k: int| 0 <= k < rest.len() && rest[k] == conns[0];
                        assert(conns[k + 1] == conns[0]);
                    }
                }
            } else {
                assert(rest[i - 1] == conns[i]);
                assert(served_by_member(end.flights, rest[i - 1], next.registry.backends));
            }
        }
        assert forall|other: u64| !conns.contains(other) implies #[trigger] flight_of(
            end.flights,
            other,
        ) == flight_of(state.flights, other) by {
            assert(conns[0] != other);
            assert(!rest.contains(other)) by {
                if rest.contains(other) {
                    let k = choose|k: int| 0 <= k < rest.len() && rest[k] == other;
                    assert(conns[k + 1] == other);
                }
            }
            lemma_others_untouched(state, event, draws[0].0, draws[0].1, other);
        }
    }
}

/// A failure after the copying has begun stays with its connection. When a
/// relay that is committed ends, or is reported to have failed to connect,
/// the dispatcher hands nothing out again: it asks for no relay, so there is
/// neither a retry nor another backend. The end of a connection takes one
/// from the pending load of its own backend and leaves every other load, and
/// every other connection in flight, as it was.
pub proof fn lemma_failure_isolated(state: DispatcherView, conn: u64, a: u64, b: u64)
    requires
        state.well_formed(),
        flight_of(state.flights, conn) matches Some(flight) && flight.relaying,
    ensures
        state.step(DispatchEvent::ConnectFailed { conn }, a, b) == (state, DispatchAction::Nothing),
        state.step(DispatchEvent::Completed { conn }, a, b).1 is Retire,
        !in_flight(state.step(DispatchEvent::Completed { conn }, a, b).0.flights, conn),
        forall|other: u64|
            other != conn ==> #[trigger] flight_of(
                state.step(DispatchEvent::Completed { conn }, a, b).0.flights,
                other,
            ) == flight_of(state.flights, other),
        forall|identity: SocketAddress| #[trigger]
            pending_load(state.step(DispatchEvent::Completed { conn }, a, b).0.flights, identity)
                == pending_load(state.flights, identity) - (if identity == flight_of(
                state.flights,
                conn,
            )->0.backend.identity() {
                1int
            } else {
                0int
            }),
{
    let event = DispatchEvent::Completed { conn };
    let next = state.step(event, a, b).0;
    lemma_flight_found(state.flights, conn);
    let place = flight_place(state.flights, conn)->0;
    lemma_distinct_remove(state.flights, place);
    assert forall|other: u64| other != conn implies #[trigger] flight_of(next.flights, other)
        == flight_of(state.flights, other) by {
        lemma_others_untouched(state, event, a, b, other);
    }
    assert forall|identity: SocketAddress| #[trigger]
        pending_load(next.flights, identity) == pending_load(state.flights, identity) - (
        if identity == state.flights[place].backend.identity() {
            1int
        } else {
            0int
        }) by {
        lemma_load_remove(state.flights, place, identity);
    }
}

/// A retry goes elsewhere. Where a connect has failed and the connection is
/// retried, it is handed to a backend of the current snapshot, and to another
/// one than the backend that failed as long as the snapshot has a second; the
/// retry counts, and the load moves from the old backend to the new one.
pub proof fn lemma_retry_goes_elsewhere(state: DispatcherView, conn: u64, a: u64, b: u64)
    requires
        state.well_formed(),
        flight_of(state.flights, conn) matches Some(flight) && !flight.relaying
            && flight.retry.attempts_made < flight.retry.limit,
        !(state.lifecycle is Cancelling),
    ensures
        ({
            let failed = flight_of(state.flights, conn)->0;
            let (next, action) = state.step(DispatchEvent::ConnectFailed { conn }, a, b);
            &&& action matches DispatchAction::Relay { conn: handed, backend }
            &&& handed == conn
            &&& state.registry.backends.contains(backend)
            &&& state.registry.backends.len() >= 2 ==> backend.identity()
                != failed.backend.identity()
            &&& flight_of(next.flights, conn) == Some(
                Flight {
                    conn,
                    backend,
                    retry: RetryState {
                        attempts_made: (failed.retry.attempts_made + 1) as u32,
                        limit: failed.retry.limit,
                    },
                    relaying: false,
                },
            )
            &&& forall|identity: SocketAddress| #[trigger]
                pending_load(next.flights, identity) == pending_load(state.flights, identity) - (
                if identity == failed.backend.identity() {
                    1int
                } else {
                    0int
                }) + (if identity == backend.identity() {
                    1int
                } else {
                    0int
                })
        }),
{
    let event = DispatchEvent::ConnectFailed { conn };
    let next = state.step(event, a, b).0;
    lemma_flight_found(state.flights, conn);
    let place = flight_place(state.flights, conn)->0;
    let failed = state.flights[place];
    let others = state.flights.remove(place);
    let excluded = place_of(state.registry.backends, failed.backend.identity());
    if exists|at: int| first_place(state.registry.backends, failed.backend.identity(), at) {
        let at = choose|at: int| first_place(state.registry.backends, failed.backend.identity(), at);
        assert(first_place(state.registry.backends, failed.backend.identity(), at));
    }
    lemma_choice_is_member(state, others, excluded, a, b);
    let chosen = state.choice(others, excluded, a, b);
    lemma_step_keeps_well_formed(state, event, a, b);
    assert(next.flights[place].conn == conn);
    lemma_flight_of(next.flights, place);
    if state.registry.backends.len() >= 2 && state.registry.backends[chosen].identity()
        == failed.backend.identity() {
        // The chosen place would be the place of the backend that failed, which was left out.
        assert(first_place(state.registry.backends, failed.backend.identity(), chosen));
        lemma_place_of(state.registry.backends, failed.backend.identity(), chosen);
    }
    assert forall|identity: SocketAddress| #[trigger]
        pending_load(next.flights, identity) == pending_load(state.flights, identity) - (
        if identity == failed.backend.identity() {
            1int
        } else {
            0int
        }) + (if identity == state.registry.backends[chosen].identity() {
            1int
        } else {
            0int
        }) by {
        lemma_load_remove(state.flights, place, identity);
        lemma_load_remove(next.flights, place, identity);
        assert(next.flights.remove(place) == others);
    }
}

/// A connection whose relay is connected stays with its backend. Whatever
/// the dispatcher is told then, the connection is either still in flight as
/// it was, or it has ended; it is never handed out again.
pub proof fn lemma_committed_stays(
    state: DispatcherView,
    conn: u64,
    event: DispatchEvent,
    a: u64,
    b: u64,
)
    requires
        state.well_formed(),
        flight_of(state.flights, conn) matches Some(flight) && flight.relaying,
    ensures
        !relays(state.step(event, a, b).1, conn),
        flight_of(state.step(event, a, b).0.flights, conn) == flight_of(state.flights, conn) || (
        event == (DispatchEvent::Completed { conn }) && flight_of(
            state.step(event, a, b).0.flights,
            conn,
        ) is None),
{
    let next = state.step(event, a, b).0;
    lemma_flight_found(state.flights, conn);
    lemma_flight_found(next.flights, conn);
    if subject(event) != Some(conn) {
        lemma_others_untouched(state, event, a, b, conn);
        match subject(event) {
            Some(about) => {
                lemma_flight_found(state.flights, about);
            },
            None => {},
        }
    } else {
        let place = flight_place(state.flights, conn)->0;
        match event {
            DispatchEvent::Connected { .. } => {
                assert(next.flights == state.flights);
            },
            DispatchEvent::Completed { .. } => {
                lemma_distinct_remove(state.flights, place);
            },
            _ => {},
        }
    }
}

/// The events that tell of the end of every connection in `flights`, in the
/// order of the flights.
pub open spec fn completions(flights: Seq<Flight>) -> Seq<DispatchEvent> {
    Seq::new(flights.len(), |i: int| DispatchEvent::Completed { conn: flights[i].conn })
}

/// A dispatcher that takes nothing in any more stops when the connections in
/// flight have all ended: then nothing is in flight, and every pending load
/// is zero.
pub proof fn lemma_drains_to_stop(state: DispatcherView, draws: Seq<(u64, u64)>)
    requires
        state.well_formed(),
        state.lifecycle is Draining || state.lifecycle is Cancelling,
    ensures
        after_events(state, completions(state.flights), draws).lifecycle is Stopped,
        after_events(state, completions(state.flights), draws).flights.len() == 0,
        forall|identity: SocketAddress| #[trigger]
            pending_load(
                after_events(state, completions(state.flights), draws).flights,
                identity,
            ) == 0,
    decreases state.flights.len(),
{
    let events = completions(state.flights);
    let conn = state.flights[0].conn;
    assert(events[0] == (DispatchEvent::Completed { conn }));
    let next = state.step(events[0], draws[0].0, draws[0].1).0;
    assert(carries(state.flights, conn, 0));
    lemma_flight_place(state.flights, conn, 0);
    lemma_step_keeps_well_formed(state, events[0], draws[0].0, draws[0].1);
    assert(next.flights == state.flights.drop_first());
    assert(events.drop_first() == completions(next.flights));
    if next.flights.len() > 0 {
        lemma_drains_to_stop(next, draws.drop_first());
    } else {
        assert(after_events(next, completions(next.flights), draws.drop_first()) == next);
    }
    let end = after_events(state, events, draws);
    assert(end.flights == Seq::<Flight>::empty());
}

/// The dispatcher after it has handled `events`, one after the other;
/// `draws` holds the random words for each of them.
pub open spec fn after_events(
    state: DispatcherView,
    events: Seq<DispatchEvent>,
    draws: Seq<(u64, u64)>,
) -> DispatcherView
    decreases events.len(),
{
    if events.len() == 0 {
        state
    } else {
        after_events(
            state.step(events[0], draws[0].0, draws[0].1).0,
            events.drop_first(),
            draws.drop_first(),
        )
    }
}

/// How often the dispatcher hands the connection `conn` to a backend while
/// it handles `events`: the connects that the connection gets.
pub open spec fn relays_issued(
    state: DispatcherView,
    events: Seq<DispatchEvent>,
    draws: Seq<(u64, u64)>,
    conn: u64,
) -> nat
    decreases events.len(),
{
    if events.len() == 0 {
        0
    } else {
        let (next, action) = state.step(events[0], draws[0].0, draws[0].1);
        (if relays(action, conn) {
            1nat
        } else {
            0nat
        }) + relays_issued(next, events.drop_first(), draws.drop_first(), conn)
    }
}

/// The retries that the connection `conn` may still get.
pub open spec fn retries_left(flights: Seq<Flight>, conn: u64) -> nat {
    match flight_of(flights, conn) {
        Some(flight) => if flight.relaying {
            0
        } else {
            flight.retry.remaining()
        },
        None => 0,
    }
}

/// Every run keeps the dispatcher well formed.
pub proof fn lemma_run_keeps_well_formed(
    state: DispatcherView,
    events: Seq<DispatchEvent>,
    draws: Seq<(u64, u64)>,
)
    requires
        state.well_formed(),
    ensures
        after_events(state, events, draws).well_formed(),
        after_events(state, events, draws).registry == state.registry,
        after_events(state, events, draws).retry_limit == state.retry_limit,
    decreases events.len(),
{
    if events.len() > 0 {
        lemma_step_keeps_well_formed(state, events[0], draws[0].0, draws[0].1);
        lemma_run_keeps_well_formed(
            state.step(events[0], draws[0].0, draws[0].1).0,
            events.drop_first(),
            draws.drop_first(),
        );
    }
}

/// One event hands a connection out at most once, and uses up one of its
/// retries where it does so again.
pub proof fn lemma_step_spends_retry(
    state: DispatcherView,
    event: DispatchEvent,
    a: u64,
    b: u64,
    conn: u64,
)
    requires
        state.well_formed(),
        event != (DispatchEvent::Accepted { conn }),
    ensures
        (if relays(state.step(event, a, b).1, conn) {
            1nat
        } else {
            0nat
        }) + retries_left(state.step(event, a, b).0.flights, conn) <= retries_left(
            state.flights,
            conn,
        ),
{
    let (next, action) = state.step(event, a, b);
    lemma_step_keeps_well_formed(state, event, a, b);
    if subject(event) != Some(conn) {
        lemma_others_untouched(state, event, a, b, conn);
        match subject(event) {
            Some(about) => {
                lemma_flight_found(state.flights, about);
            },
            None => {},
        }
    } else {
        lemma_flight_found(state.flights, conn);
        lemma_flight_found(next.flights, conn);
        match flight_place(state.flights, conn) {
            Some(place) => {
                lemma_flight_of(state.flights, place);
                lemma_distinct_remove(state.flights, place);
                if next.flights.len() == state.flights.len() {
                    assert(next.flights[place].conn == conn);
                    lemma_flight_of(next.flights, place);
                } else {
                    lemma_no_flight(next.flights, conn);
                }
            },
            None => {},
        }
    }
}

/// While a connection is in flight it is handed out again at most as often
/// as it has retries left.
pub proof fn lemma_relays_bounded(
    state: DispatcherView,
    events: Seq<DispatchEvent>,
    draws: Seq<(u64, u64)>,
    conn: u64,
)
    requires
        state.well_formed(),
        !events.contains(DispatchEvent::Accepted { conn }),
    ensures
        relays_issued(state, events, draws, conn) <= retries_left(state.flights, conn),
    decreases events.len(),
{
    if events.len() > 0 {
        let next = state.step(events[0], draws[0].0, draws[0].1).0;
        let rest = events.drop_first();
        assert(events.contains(events[0]));
        lemma_step_spends_retry(state, events[0], draws[0].0, draws[0].1, conn);
        lemma_step_keeps_well_formed(state, events[0], draws[0].0, draws[0].1);
        assert(!rest.contains(DispatchEvent::Accepted { conn })) by {
            if rest.contains(DispatchEvent::Accepted { conn }) {
                let k = choose|k: int|
                    0 <= k < rest.len() && rest[k] == (DispatchEvent::Accepted { conn });
                assert(events[k + 1] == rest[k]);
            }
        }
        lemma_relays_bounded(next, rest, draws.drop_first(), conn);
    }
}

/// The retry bound. With a retry limit of K, a connection gets K + 1
/// connects at most, from the moment it comes in and whatever happens then:
/// the dispatcher hands it to a backend once when it comes in, and again at
/// most K times.
pub proof fn lemma_dispatch_retry_bound(
    state: DispatcherView,
    conn: u64,
    later: Seq<DispatchEvent>,
    draws: Seq<(u64, u64)>,
)
    requires
        state.well_formed(),
        !in_flight(state.flights, conn),
        !later.contains(DispatchEvent::Accepted { conn }),
    ensures
        relays_issued(state, seq![DispatchEvent::Accepted { conn }] + later, draws, conn)
            <= state.retry_limit + 1,
{
    let first = DispatchEvent::Accepted { conn };
    let events = seq![first] + later;
    let (next, action) = state.step(first, draws[0].0, draws[0].1);
    assert(events[0] == first);
    assert(events.drop_first() == later);
    lemma_step_keeps_well_formed(state, first, draws[0].0, draws[0].1);
    lemma_relays_bounded(next, later, draws.drop_first(), conn);
    if state.lifecycle is Running {
        lemma_accepted_gets_one_backend(state, conn, draws[0].0, draws[0].1);
    } else {
        lemma_no_flight(state.flights, conn);
    }
}

/// A change of the set of backends touches nothing that is in flight: every
/// connection keeps the backend that was chosen for it from the snapshot of
/// its time, and every pending load stays. The next connection that comes in
/// is served from the new snapshot: its backend is a member after the change.
pub proof fn lemma_snapshot_isolation(
    state: DispatcherView,
    added: Seq<TcpProxyFallback>,
    removed: Seq<SocketAddress>,
    conn: u64,
    a: u64,
    b: u64,
)
    requires
        state.well_formed(),
        state.lifecycle is Running,
        !in_flight(state.flights, conn),
    ensures
        ({
            let changed = state.rediscovered(added, removed);
            let (next, action) = changed.step(DispatchEvent::Accepted { conn }, a, b);
            &&& changed.well_formed()
            &&& changed.flights == state.flights
            &&& changed.lifecycle == state.lifecycle
            &&& changed.registry == applied(state.registry, added, removed)
            &&& action matches DispatchAction::Relay { backend, .. }
            &&& changed.registry.backends.contains(backend)
            &&& merged(state.registry.backends, added, removed).len() > 0 ==> {
                &&& !removed.contains(backend.identity())
                &&& has_backend(state.registry.backends, backend.identity()) || has_backend(
                    added,
                    backend.identity(),
                )
            }
        }),
{
    let changed = state.rediscovered(added, removed);
    lemma_merged(state.registry.backends, added, removed);
    lemma_accepted_gets_one_backend(changed, conn, a, b);
    let action = changed.step(DispatchEvent::Accepted { conn }, a, b).1;
    match action {
        DispatchAction::Relay { backend, .. } => {
            let at = choose|at: int|
                0 <= at < changed.registry.backends.len() && changed.registry.backends[at]
                    == backend;
            assert(has_backend(changed.registry.backends, changed.registry.backends[at].identity()));
        },
        _ => {},
    }
}

/// How far a lifecycle has come; it never goes back.
pub open spec fn progress(lifecycle: Lifecycle) -> nat {
    match lifecycle {
        Lifecycle::Running => 0,
        Lifecycle::Draining => 1,
        Lifecycle::Cancelling => 2,
        Lifecycle::Stopped => 3,
    }
}

/// Whether `action` asks for the intake to be closed.
pub open spec fn closes_intake(action: DispatchAction) -> bool {
    action is StopIntake || action is CancelAll
}

/// How often the dispatcher asks for the intake to be closed while it
/// handles `events`.
pub open spec fn intake_closings(
    state: DispatcherView,
    events: Seq<DispatchEvent>,
    draws: Seq<(u64, u64)>,
) -> nat
    decreases events.len(),
{
    if events.len() == 0 {
        0
    } else {
        let (next, action) = state.step(events[0], draws[0].0, draws[0].1);
        (if closes_intake(action) {
            1nat
        } else {
            0nat
        }) + intake_closings(next, events.drop_first(), draws.drop_first())
    }
}

/// How often the dispatcher asks for the relays in flight to be cancelled
/// while it handles `events`.
pub open spec fn cancellations(
    state: DispatcherView,
    events: Seq<DispatchEvent>,
    draws: Seq<(u64, u64)>,
) -> nat
    decreases events.len(),
{
    if events.len() == 0 {
        0
    } else {
        let (next, action) = state.step(events[0], draws[0].0, draws[0].1);
        (if action is CancelAll {
            1nat
        } else {
            0nat
        }) + cancellations(next, events.drop_first(), draws.drop_first())
    }
}

/// A shutdown signal that comes a second time does nothing: the state stays
/// and nothing is asked of the driver. The same holds of the closing of the
/// intake, and of a graceful shutdown that comes after an immediate one.
pub proof fn lemma_shutdown_idempotent(
    state: DispatcherView,
    mode: ShutdownMode,
    a: u64,
    b: u64,
    c: u64,
    d: u64,
)
    ensures
        ({
            let once = state.step(DispatchEvent::Shutdown(mode), a, b).0;
            &&& once.step(DispatchEvent::Shutdown(mode), c, d) == (once, DispatchAction::Nothing)
            &&& once.step(DispatchEvent::Shutdown(ShutdownMode::Graceful), c, d) == (
                once,
                DispatchAction::Nothing,
            )
            &&& once.step(DispatchEvent::IntakeClosed, c, d) == (once, DispatchAction::Nothing)
            &&& !(once.lifecycle is Running)
        }),
{
}

/// The lifecycle never goes back, and what is released is released once:
/// the dispatcher asks for the intake to be closed only while it runs, and
/// for the relays to be cancelled only before it has done so.
pub proof fn lemma_lifecycle_moves_on(state: DispatcherView, event: DispatchEvent, a: u64, b: u64)
    ensures
        progress(state.lifecycle) <= progress(state.step(event, a, b).0.lifecycle),
        state.step(event, a, b).1 is StopIntake ==> state.lifecycle is Running && !(state.step(
            event,
            a,
            b,
        ).0.lifecycle is Running),
        state.step(event, a, b).1 is CancelAll ==> progress(state.lifecycle) <= 1 && progress(
            state.step(event, a, b).0.lifecycle,
        ) >= 2,
{
}

/// Whatever signals come and however often, the relays in flight are told
/// to stop once at most, and the intake is closed twice at most: once to
/// drain and once more if the drain is cut short.
pub proof fn lemma_no_duplicate_release(
    state: DispatcherView,
    events: Seq<DispatchEvent>,
    draws: Seq<(u64, u64)>,
)
    ensures
        cancellations(state, events, draws) <= (if progress(state.lifecycle) <= 1 {
            1nat
        } else {
            0nat
        }),
        intake_closings(state, events, draws) <= (if progress(state.lifecycle) == 0 {
            2nat
        } else if progress(state.lifecycle) == 1 {
            1nat
        } else {
            0nat
        }),
    decreases events.len(),
{
    if events.len() > 0 {
        lemma_lifecycle_moves_on(state, events[0], draws[0].0, draws[0].1);
        lemma_no_duplicate_release(
            state.step(events[0], draws[0].0, draws[0].1).0,
            events.drop_first(),
            draws.drop_first(),
        );
    }
}

/// A dispatcher that only waits for its connections stops with the last of
/// them: it says so in its answer, nothing is in flight any more, and every
/// pending load is zero.
pub proof fn lemma_last_completion_stops(state: DispatcherView, conn: u64, a: u64, b: u64)
    requires
        state.well_formed(),
        state.lifecycle is Draining || state.lifecycle is Cancelling,
        state.flights.len() == 1,
        in_flight(state.flights, conn),
    ensures
        ({
            let (next, action) = state.step(DispatchEvent::Completed { conn }, a, b);
            &&& action == DispatchAction::Retire { conn, exit: true }
            &&& next.lifecycle is Stopped
            &&& next.flights.len() == 0
            &&& forall|identity: SocketAddress| #[trigger]
                pending_load(next.flights, identity) == 0
        }),
{
    lemma_flight_found(state.flights, conn);
}

} // verus!
