use sly::dispatch::{
    DispatchAction, DispatchEvent, DispatchService, Dispatcher, Flight, Lifecycle, ShutdownMode,
};
use sly::error::SlyError;
use sly::fallback::TcpProxyFallback;
use sly::registry::DiscoveryDelta;
use sly::retry::RetryState;
use sly::target::{IpAddress, SocketAddress, Target};

fn address(port: u16) -> SocketAddress {
    SocketAddress::new(IpAddress::V4(0x0a00_0001), port)
}

fn backend(port: u16) -> TcpProxyFallback {
    TcpProxyFallback::new(address(port))
}

fn target(port: u16) -> Target {
    Target::from_sock_addr(&address(port))
}

fn dispatcher(ports: &[u16], retries: u32) -> Dispatcher {
    let mut service = DispatchService::new();
    for port in ports {
        service.add_service(backend(*port));
    }
    service.start_with_retries(retries).unwrap()
}

fn relayed_to(action: DispatchAction, conn: u64) -> SocketAddress {
    match action {
        DispatchAction::Relay { conn: handed, backend } => {
            assert_eq!(handed, conn);
            backend.target_addr()
        }
        other => panic!("unexpected {:?}", other),
    }
}

#[test]
fn targets_are_taken_two_by_two() {
    let service = DispatchService::new().with_targets(vec![target(1), target(2), target(3)]);
    assert_eq!(service.len(), 2);
    let mut first = backend(1);
    first.with_fallback(address(2));
    assert_eq!(service.service(0), first);
    assert_eq!(service.service(1), backend(3));
    let even = DispatchService::new()
        .with_targets(vec![target(1), target(2)])
        .with_targets(vec![target(3), target(4)]);
    assert_eq!(even.len(), 2);
    assert_eq!(even.service(1).fall_back_addr(), Some(address(4)));
    assert_eq!(DispatchService::new().with_targets(Vec::new()).len(), 0);
}

#[test]
fn a_dispatcher_without_backends_does_not_start() {
    match DispatchService::new().start() {
        Err(error) => assert_eq!(error, SlyError::RegistryEmpty),
        Ok(_) => panic!("started without a backend"),
    }
    let started = DispatchService::new().with_targets(vec![target(1)]).start().unwrap();
    assert_eq!(started.lifecycle(), Lifecycle::Running);
    assert_eq!(started.retry_limit(), 3);
    assert_eq!(started.in_flight_count(), 0);
    assert_eq!(started.snapshot().len(), 1);
}

#[test]
fn every_connection_goes_to_exactly_one_backend() {
    let mut d = dispatcher(&[1, 2, 3], 3);
    let mut conn: u64 = 0;
    while conn < 50 {
        let to = relayed_to(d.handle(DispatchEvent::Accepted { conn }), conn);
        assert!(to == address(1) || to == address(2) || to == address(3));
        assert_eq!(d.flight(conn).unwrap().backend.target_addr(), to);
        conn += 1;
    }
    assert_eq!(d.in_flight_count(), 50);
    assert_eq!(d.connections(), (0..50).collect::<Vec<u64>>());
    assert_eq!(d.pending_load(address(1)) + d.pending_load(address(2)) + d.pending_load(address(3)), 50);
    // A connection that is in flight is not handed out a second time.
    assert_eq!(d.handle(DispatchEvent::Accepted { conn: 7 }), DispatchAction::Nothing);
    assert_eq!(d.in_flight_count(), 50);
}

#[test]
fn a_single_backend_takes_everything() {
    let mut d = dispatcher(&[1], 3);
    for conn in 0..5 {
        assert_eq!(relayed_to(d.accept_with(conn, conn * 3, conn * 5), conn), address(1));
    }
    assert_eq!(d.pending_load(address(1)), 5);
}

#[test]
fn hundred_dispatches_even_out_a_skew_of_five_and_then_alternate() {
    // Five connections are in flight on the one backend before the second comes.
    let mut d = dispatcher(&[2], 3);
    for conn in 1000..1005 {
        assert_eq!(relayed_to(d.handle(DispatchEvent::Accepted { conn }), conn), address(2));
    }
    assert!(d.apply(&DiscoveryDelta { added: vec![backend(1)], removed: Vec::new() }));
    assert_eq!(d.pending_load(address(1)), 0);
    assert_eq!(d.pending_load(address(2)), 5);
    let mut picks: Vec<SocketAddress> = Vec::new();
    for conn in 0..100 {
        picks.push(relayed_to(d.handle(DispatchEvent::Accepted { conn }), conn));
    }
    for round in 0..5 {
        assert_eq!(picks[round], address(1));
    }
    // From a tie on, the first in snapshot order and the other take turns.
    for round in 5..100 {
        let expected = if (round - 5) % 2 == 0 { address(2) } else { address(1) };
        assert_eq!(picks[round], expected);
    }
    assert_eq!(d.pending_load(address(1)), 52);
    assert_eq!(d.pending_load(address(2)), 53);
}

#[test]
fn the_less_loaded_of_two_backends_is_chosen() {
    let mut d = dispatcher(&[1, 2], 3);
    assert_eq!(relayed_to(d.accept_with(1, 0, 0), 1), address(1));
    assert_eq!(relayed_to(d.accept_with(2, 0, 0), 2), address(2));
    assert_eq!(relayed_to(d.accept_with(3, 1, 0), 3), address(1));
    assert_eq!(d.completed(1), DispatchAction::Retire { conn: 1, exit: false });
    assert_eq!(d.completed(3), DispatchAction::Retire { conn: 3, exit: false });
    assert_eq!(d.pending_load(address(1)), 0);
    assert_eq!(d.pending_load(address(2)), 1);
    assert_eq!(relayed_to(d.accept_with(4, 9, 4), 4), address(1));
}

#[test]
fn a_failed_connect_is_retried_on_another_backend() {
    let mut d = dispatcher(&[1, 2], 3);
    let first = relayed_to(d.handle(DispatchEvent::Accepted { conn: 1 }), 1);
    assert_eq!(first, address(1));
    let second = relayed_to(d.handle(DispatchEvent::ConnectFailed { conn: 1 }), 1);
    assert_eq!(second, address(2));
    assert_eq!(d.pending_load(address(1)), 0);
    assert_eq!(d.pending_load(address(2)), 1);
    assert_eq!(
        d.flight(1),
        Some(Flight {
            conn: 1,
            backend: backend(2),
            retry: RetryState { attempts_made: 1, limit: 3 },
            relaying: false
        })
    );
    let third = relayed_to(d.handle(DispatchEvent::ConnectFailed { conn: 1 }), 1);
    assert_eq!(third, address(1));
}

#[test]
fn a_connection_gets_at_most_limit_plus_one_connects() {
    for limit in [0u32, 1, 3] {
        for ports in [vec![1u16], vec![1, 2], vec![1, 2, 3, 4]] {
            let mut d = dispatcher(&ports, limit);
            let mut connects: u32 = 0;
            let mut action = d.handle(DispatchEvent::Accepted { conn: 9 });
            loop {
                match action {
                    DispatchAction::Relay { conn, .. } => {
                        assert_eq!(conn, 9);
                        connects += 1;
                        action = d.handle(DispatchEvent::ConnectFailed { conn: 9 });
                    }
                    DispatchAction::Abandon { conn, exit } => {
                        assert_eq!(conn, 9);
                        assert!(!exit);
                        break;
                    }
                    other => panic!("unexpected {:?}", other),
                }
            }
            assert_eq!(connects, limit + 1);
            assert_eq!(d.in_flight_count(), 0);
            assert_eq!(d.flight(9), None);
            for port in &ports {
                assert_eq!(d.pending_load(address(*port)), 0);
            }
        }
    }
}

#[test]
fn after_the_connect_a_failure_stays_with_its_connection() {
    let mut d = dispatcher(&[1, 2], 3);
    let first = relayed_to(d.accept_with(1, 0, 0), 1);
    let second = relayed_to(d.accept_with(2, 0, 0), 2);
    assert_eq!((first, second), (address(1), address(2)));
    assert_eq!(d.handle(DispatchEvent::Connected { conn: 1 }), DispatchAction::Nothing);
    assert!(d.flight(1).unwrap().relaying);
    assert!(!d.flight(2).unwrap().relaying);
    // Committed: a connect failure that is reported now is not acted on.
    assert_eq!(d.handle(DispatchEvent::ConnectFailed { conn: 1 }), DispatchAction::Nothing);
    assert_eq!(d.flight(1).unwrap().backend, backend(1));
    let other_before = d.flight(2);
    // The relay ends at an I/O error: only this connection goes.
    assert_eq!(
        d.handle(DispatchEvent::Completed { conn: 1 }),
        DispatchAction::Retire { conn: 1, exit: false }
    );
    assert_eq!(d.flight(1), None);
    assert_eq!(d.flight(2), other_before);
    assert_eq!(d.pending_load(address(1)), 0);
    assert_eq!(d.pending_load(address(2)), 1);
    assert_eq!(d.handle(DispatchEvent::Completed { conn: 1 }), DispatchAction::Nothing);
    assert_eq!(d.handle(DispatchEvent::Connected { conn: 77 }), DispatchAction::Nothing);
}

#[test]
fn ten_relays_finish_after_the_intake_is_closed() {
    let mut d = dispatcher(&[1, 2, 3], 3);
    for conn in 0..10 {
        relayed_to(d.handle(DispatchEvent::Accepted { conn }), conn);
        assert_eq!(d.handle(DispatchEvent::Connected { conn }), DispatchAction::Nothing);
    }
    assert_eq!(d.handle(DispatchEvent::IntakeClosed), DispatchAction::StopIntake { exit: false });
    assert_eq!(d.lifecycle(), Lifecycle::Draining);
    assert_eq!(d.handle(DispatchEvent::Accepted { conn: 99 }), DispatchAction::Reject { conn: 99 });
    for conn in 0..9 {
        assert_eq!(
            d.handle(DispatchEvent::Completed { conn }),
            DispatchAction::Retire { conn, exit: false }
        );
    }
    assert_eq!(
        d.handle(DispatchEvent::Completed { conn: 9 }),
        DispatchAction::Retire { conn: 9, exit: true }
    );
    assert_eq!(d.lifecycle(), Lifecycle::Stopped);
    assert_eq!(d.in_flight_count(), 0);
    for port in [1, 2, 3] {
        assert_eq!(d.pending_load(address(port)), 0);
    }
}

#[test]
fn a_second_shutdown_signal_does_nothing() {
    let mut d = dispatcher(&[1], 3);
    relayed_to(d.handle(DispatchEvent::Accepted { conn: 1 }), 1);
    assert_eq!(
        d.handle(DispatchEvent::Shutdown(ShutdownMode::Graceful)),
        DispatchAction::StopIntake { exit: false }
    );
    assert_eq!(d.handle(DispatchEvent::Shutdown(ShutdownMode::Graceful)), DispatchAction::Nothing);
    assert_eq!(d.handle(DispatchEvent::IntakeClosed), DispatchAction::Nothing);
    assert_eq!(d.lifecycle(), Lifecycle::Draining);
    assert_eq!(
        d.handle(DispatchEvent::Shutdown(ShutdownMode::Immediate)),
        DispatchAction::CancelAll { exit: false }
    );
    assert_eq!(d.lifecycle(), Lifecycle::Cancelling);
    assert_eq!(d.handle(DispatchEvent::Shutdown(ShutdownMode::Immediate)), DispatchAction::Nothing);
    assert_eq!(d.handle(DispatchEvent::Shutdown(ShutdownMode::Graceful)), DispatchAction::Nothing);
    assert_eq!(d.connections(), vec![1]);
    // A cancelled connect is not retried.
    assert_eq!(
        d.handle(DispatchEvent::ConnectFailed { conn: 1 }),
        DispatchAction::Abandon { conn: 1, exit: true }
    );
    assert_eq!(d.lifecycle(), Lifecycle::Stopped);
    assert_eq!(d.handle(DispatchEvent::Shutdown(ShutdownMode::Immediate)), DispatchAction::Nothing);
    assert_eq!(d.handle(DispatchEvent::Accepted { conn: 2 }), DispatchAction::Reject { conn: 2 });
}

#[test]
fn an_idle_dispatcher_stops_at_once() {
    let mut graceful = dispatcher(&[1], 3);
    assert_eq!(graceful.stop_intake(), DispatchAction::StopIntake { exit: true });
    assert_eq!(graceful.lifecycle(), Lifecycle::Stopped);
    let mut immediate = dispatcher(&[1], 3);
    assert_eq!(immediate.cancel(), DispatchAction::CancelAll { exit: true });
    assert_eq!(immediate.lifecycle(), Lifecycle::Stopped);
    assert_eq!(immediate.cancel(), DispatchAction::Nothing);
}

#[test]
fn a_change_of_backends_leaves_flights_alone_and_steers_the_next() {
    let mut d = dispatcher(&[1], 3);
    let held = d.snapshot();
    relayed_to(d.handle(DispatchEvent::Accepted { conn: 1 }), 1);
    let delta = DiscoveryDelta { added: vec![backend(2)], removed: vec![address(1)] };
    assert!(d.apply(&delta));
    assert_eq!(held.len(), 1);
    assert_eq!(held.get(0), backend(1));
    assert_eq!(d.flight(1).unwrap().backend, backend(1));
    assert_eq!(d.pending_load(address(1)), 1);
    let snapshot = d.snapshot();
    assert_eq!(snapshot.len(), 1);
    assert_eq!(snapshot.get(0), backend(2));
    assert_eq!(snapshot.version(), 1);
    assert_eq!(relayed_to(d.handle(DispatchEvent::Accepted { conn: 2 }), 2), address(2));
    // The connect to the backend that is gone fails: the retry goes to a member.
    assert_eq!(relayed_to(d.handle(DispatchEvent::ConnectFailed { conn: 1 }), 1), address(2));
    assert_eq!(d.pending_load(address(1)), 0);
    assert_eq!(d.pending_load(address(2)), 2);
    let wipe = DiscoveryDelta { added: Vec::new(), removed: vec![address(2)] };
    assert!(!d.apply(&wipe));
    assert_eq!(d.snapshot().len(), 1);
}

#[test]
fn handle_with_and_the_single_steps_agree() {
    let mut by_event = dispatcher(&[1, 2, 3], 1);
    let mut by_step = dispatcher(&[1, 2, 3], 1);
    for conn in 0..20u64 {
        let a = conn * 31 + 7;
        let b = conn * 17 + 3;
        assert_eq!(
            by_event.handle_with(DispatchEvent::Accepted { conn }, a, b),
            by_step.accept_with(conn, a, b)
        );
        if conn % 3 == 0 {
            assert_eq!(
                by_event.handle_with(DispatchEvent::ConnectFailed { conn }, b, a),
                by_step.connect_failed_with(conn, b, a)
            );
        }
        if conn % 4 == 0 {
            assert_eq!(
                by_event.handle_with(DispatchEvent::Connected { conn }, 0, 0),
                by_step.connected(conn)
            );
        }
        if conn % 5 == 0 {
            assert_eq!(
                by_event.handle_with(DispatchEvent::Completed { conn }, 0, 0),
                by_step.completed(conn)
            );
        }
    }
    assert_eq!(by_event.connections(), by_step.connections());
    for port in [1, 2, 3] {
        assert_eq!(by_event.pending_load(address(port)), by_step.pending_load(address(port)));
    }
}

#[test]
fn idle_backends_are_sampled_at_random() {
    // With three idle backends the first of the two candidates in snapshot order is taken, so
    // the last is never chosen, and which of the other two is depends on the draw.
    let mut d = dispatcher(&[1, 2, 3], 3);
    let mut seen = [0u32; 3];
    for conn in 0..400u64 {
        let to = relayed_to(d.handle(DispatchEvent::Accepted { conn }), conn);
        let place = if to == address(1) {
            0
        } else if to == address(2) {
            1
        } else {
            2
        };
        seen[place] += 1;
        assert_eq!(d.handle(DispatchEvent::Completed { conn }), DispatchAction::Retire { conn, exit: false });
    }
    assert!(seen[0] > 0);
    assert!(seen[1] > 0);
    assert_eq!(seen[2], 0);
}

#[test]
fn the_first_interrupt_is_graceful_and_the_next_immediate() {
    assert_eq!(ShutdownMode::of_signal(0), ShutdownMode::Graceful);
    assert_eq!(ShutdownMode::of_signal(1), ShutdownMode::Immediate);
    assert_eq!(ShutdownMode::of_signal(u64::MAX), ShutdownMode::Immediate);
}
