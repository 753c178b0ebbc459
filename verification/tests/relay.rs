use sly::fallback::{Relay, RelayAction, RelayEvent, RelayPhase, Route, TcpProxyFallback};
use sly::proxy::{Direction, Flow, ProxyAction, ProxyError, ProxyEvent, Side, TcpProxy};
use sly::target::{IpAddress, SocketAddress};

fn primary() -> SocketAddress {
    SocketAddress::new(IpAddress::V4(0x7f00_0001), 8080)
}

fn fallback() -> SocketAddress {
    SocketAddress::new(IpAddress::V4(0x7f00_0001), 8081)
}

fn data(direction: Direction, text: &str) -> ProxyEvent {
    ProxyEvent::Data { direction, bytes: text.as_bytes().to_vec() }
}

fn forward(direction: Direction, text: &str) -> ProxyAction {
    ProxyAction::Forward { direction, bytes: text.as_bytes().to_vec() }
}

#[test]
fn new_proxy_copies_in_both_directions() {
    let proxy = TcpProxy::new();
    assert_eq!(proxy, TcpProxy { upstream: Flow::Open, downstream: Flow::Open });
    assert!(!proxy.is_closed());
    assert_eq!(proxy.result(), Ok(()));
}

#[test]
fn ping_is_answered_with_pong_and_the_relay_closes_cleanly() {
    let mut proxy = TcpProxy::new();
    let mut to_backend: Vec<u8> = Vec::new();
    let mut to_client: Vec<u8> = Vec::new();
    match proxy.handle(data(Direction::Upstream, "ping")) {
        ProxyAction::Forward { direction: Direction::Upstream, bytes } => to_backend.extend(bytes),
        other => panic!("unexpected {:?}", other),
    }
    match proxy.handle(data(Direction::Downstream, "pong")) {
        ProxyAction::Forward { direction: Direction::Downstream, bytes } => to_client.extend(bytes),
        other => panic!("unexpected {:?}", other),
    }
    assert_eq!(to_backend, b"ping".to_vec());
    assert_eq!(to_client, b"pong".to_vec());
    // The backend closes its side: the client is told so, and the relay waits for the client.
    assert_eq!(
        proxy.handle(ProxyEvent::EndOfStream { direction: Direction::Downstream }),
        ProxyAction::HalfClose { direction: Direction::Downstream }
    );
    assert_eq!(
        proxy.handle(ProxyEvent::HalfClosed { direction: Direction::Downstream }),
        ProxyAction::Continue
    );
    assert!(!proxy.is_closed());
    assert_eq!(
        proxy.handle(ProxyEvent::EndOfStream { direction: Direction::Upstream }),
        ProxyAction::HalfClose { direction: Direction::Upstream }
    );
    assert_eq!(
        proxy.handle(ProxyEvent::HalfClosed { direction: Direction::Upstream }),
        ProxyAction::Close { outcome: Ok(()) }
    );
    assert!(proxy.is_closed());
    assert_eq!(proxy, TcpProxy { upstream: Flow::Finished, downstream: Flow::Finished });
}

#[test]
fn bytes_keep_their_order_in_each_direction() {
    let mut proxy = TcpProxy::new();
    let mut seen: Vec<u8> = Vec::new();
    for chunk in ["ab", "", "cde", "f"] {
        match proxy.handle(data(Direction::Upstream, chunk)) {
            ProxyAction::Forward { direction, bytes } => {
                assert_eq!(direction, Direction::Upstream);
                seen.extend(bytes);
            }
            other => panic!("unexpected {:?}", other),
        }
        assert_eq!(proxy.handle(data(Direction::Downstream, "x")), forward(Direction::Downstream, "x"));
    }
    assert_eq!(seen, b"abcdef".to_vec());
}

#[test]
fn a_flow_that_has_ended_forwards_nothing() {
    let mut proxy = TcpProxy::new();
    proxy.handle(ProxyEvent::EndOfStream { direction: Direction::Upstream });
    assert_eq!(proxy.handle(data(Direction::Upstream, "late")), ProxyAction::Ignore);
    assert_eq!(
        proxy.handle(ProxyEvent::EndOfStream { direction: Direction::Upstream }),
        ProxyAction::Ignore
    );
    assert_eq!(proxy.handle(data(Direction::Downstream, "ok")), forward(Direction::Downstream, "ok"));
    assert_eq!(
        proxy.handle(ProxyEvent::HalfClosed { direction: Direction::Downstream }),
        ProxyAction::Ignore
    );
}

#[test]
fn failures_blame_the_socket_on_which_they_showed() {
    let mut proxy = TcpProxy::new();
    assert_eq!(
        proxy.handle(ProxyEvent::ReadFailed {
            direction: Direction::Upstream,
            cause: "reset".to_string()
        }),
        ProxyAction::Continue
    );
    assert_eq!(proxy.upstream, Flow::Failed(ProxyError::Inbound("reset".to_string())));
    assert_eq!(
        proxy.handle(ProxyEvent::WriteFailed {
            direction: Direction::Downstream,
            cause: "broken pipe".to_string()
        }),
        ProxyAction::Close { outcome: Err(ProxyError::Inbound("reset".to_string())) }
    );
    assert_eq!(proxy.downstream, Flow::Failed(ProxyError::Inbound("broken pipe".to_string())));

    let mut other = TcpProxy::new();
    other.handle(ProxyEvent::ReadFailed {
        direction: Direction::Downstream,
        cause: "timed out".to_string(),
    });
    assert_eq!(other.downstream, Flow::Failed(ProxyError::Outbound("timed out".to_string())));
    other.handle(ProxyEvent::EndOfStream { direction: Direction::Upstream });
    assert_eq!(
        other.handle(ProxyEvent::WriteFailed {
            direction: Direction::Upstream,
            cause: "closed".to_string()
        }),
        ProxyAction::Close { outcome: Err(ProxyError::Outbound("closed".to_string())) }
    );
    assert_eq!(other.result(), Err(ProxyError::Outbound("closed".to_string())));
}

#[test]
fn the_downstream_failure_is_reported_when_upstream_ended_well() {
    let mut proxy = TcpProxy::new();
    proxy.handle(ProxyEvent::EndOfStream { direction: Direction::Upstream });
    proxy.handle(ProxyEvent::HalfClosed { direction: Direction::Upstream });
    assert_eq!(
        proxy.handle(ProxyEvent::ReadFailed {
            direction: Direction::Downstream,
            cause: "gone".to_string()
        }),
        ProxyAction::Close { outcome: Err(ProxyError::Outbound("gone".to_string())) }
    );
}

#[test]
fn cancel_half_closes_what_is_still_open_and_only_once() {
    let mut proxy = TcpProxy::new();
    assert_eq!(
        proxy.handle(ProxyEvent::Cancel),
        ProxyAction::Abort { inbound: true, outbound: true, outcome: Ok(()) }
    );
    assert!(proxy.is_closed());
    assert_eq!(proxy.handle(ProxyEvent::Cancel), ProxyAction::Ignore);
    assert_eq!(proxy.handle(data(Direction::Upstream, "x")), ProxyAction::Ignore);

    let mut half = TcpProxy::new();
    half.handle(ProxyEvent::EndOfStream { direction: Direction::Upstream });
    assert_eq!(
        half.handle(ProxyEvent::Cancel),
        ProxyAction::Abort { inbound: true, outbound: false, outcome: Ok(()) }
    );

    let mut failed = TcpProxy::new();
    failed.handle(ProxyEvent::ReadFailed {
        direction: Direction::Downstream,
        cause: "reset".to_string(),
    });
    assert_eq!(
        failed.handle(ProxyEvent::Cancel),
        ProxyAction::Abort {
            inbound: false,
            outbound: true,
            outcome: Err(ProxyError::Outbound("reset".to_string()))
        }
    );
}

#[test]
fn proxy_error_text_names_the_socket() {
    let inbound = ProxyError::at(Side::Inbound, "reset".to_string());
    let outbound = ProxyError::at(Side::Outbound, "refused".to_string());
    assert_eq!(inbound, ProxyError::Inbound("reset".to_string()));
    assert_eq!(inbound.message(), "Inbound socket closed: reset");
    assert_eq!(outbound.message(), "Outbound socket closed: refused");
    assert_eq!(inbound.side(), Side::Inbound);
    assert_eq!(outbound.side(), Side::Outbound);
    assert_eq!(outbound.duplicate(), outbound);
    assert_eq!(Direction::Upstream.reads_from(), Side::Inbound);
    assert_eq!(Direction::Upstream.writes_to(), Side::Outbound);
    assert_eq!(Direction::Downstream.reads_from(), Side::Outbound);
    assert_eq!(Direction::Downstream.writes_to(), Side::Inbound);
}

#[test]
fn service_builder_sets_the_fallback() {
    let mut service = TcpProxyFallback::new(primary());
    assert_eq!(service.target_addr(), primary());
    assert_eq!(service.fall_back_addr(), None);
    service.with_fallback(fallback());
    assert_eq!(service.fall_back_addr(), Some(fallback()));
    assert_eq!(service.target_addr(), primary());
}

#[test]
fn relay_connects_first_to_the_primary() {
    let service = TcpProxyFallback::new(primary());
    let (relay, action) = service.call();
    assert_eq!(action, RelayAction::Connect(primary()));
    assert_eq!(relay.phase(), RelayPhase::ConnectingPrimary);
    assert_eq!(relay.peer(), None);

    let mut by_hand = Relay::new(service);
    assert_eq!(by_hand.phase(), RelayPhase::Idle);
    assert_eq!(by_hand.handle(RelayEvent::Connected), RelayAction::Ignore);
    assert_eq!(by_hand.handle(RelayEvent::Start), RelayAction::Connect(primary()));
    assert_eq!(by_hand, relay);
}

#[test]
fn fallback_takes_over_and_sees_every_byte() {
    let mut service = TcpProxyFallback::new(primary());
    service.with_fallback(fallback());
    let (mut relay, first) = service.call();
    assert_eq!(first, RelayAction::Connect(primary()));
    // Nothing is read from the client while no connection stands.
    assert_eq!(
        relay.handle(RelayEvent::Proxy(data(Direction::Upstream, "early"))),
        RelayAction::Ignore
    );
    assert_eq!(
        relay.handle(RelayEvent::ConnectFailed { cause: "refused".to_string() }),
        RelayAction::Connect(fallback())
    );
    assert_eq!(relay.phase(), RelayPhase::ConnectingFallback);
    assert_eq!(relay.handle(RelayEvent::Connected), RelayAction::Pump(Route::Fallback));
    assert_eq!(relay.phase(), RelayPhase::Relaying(Route::Fallback));
    assert_eq!(relay.peer(), Some(fallback()));

    let mut seen: Vec<u8> = Vec::new();
    for chunk in ["hello ", "fall", "back"] {
        match relay.handle(RelayEvent::Proxy(data(Direction::Upstream, chunk))) {
            RelayAction::Proxy(ProxyAction::Forward { direction: Direction::Upstream, bytes }) => {
                seen.extend(bytes)
            }
            other => panic!("unexpected {:?}", other),
        }
    }
    assert_eq!(seen, b"hello fallback".to_vec());
    // Once committed, a connect failure reported late changes nothing.
    assert_eq!(
        relay.handle(RelayEvent::ConnectFailed { cause: "late".to_string() }),
        RelayAction::Ignore
    );
    assert_eq!(relay.phase(), RelayPhase::Relaying(Route::Fallback));
}

#[test]
fn relay_fails_when_no_address_can_be_reached() {
    let service = TcpProxyFallback::new(primary());
    let (mut relay, _) = service.call();
    assert_eq!(
        relay.handle(RelayEvent::ConnectFailed { cause: "refused".to_string() }),
        RelayAction::Fail(ProxyError::Outbound("refused".to_string()))
    );
    assert_eq!(relay.phase(), RelayPhase::Failed);
    assert_eq!(relay.handle(RelayEvent::Start), RelayAction::Ignore);

    let mut both = TcpProxyFallback::new(primary());
    both.with_fallback(fallback());
    let (mut second, _) = both.call();
    second.handle(RelayEvent::ConnectFailed { cause: "first".to_string() });
    assert_eq!(
        second.handle(RelayEvent::ConnectFailed { cause: "second".to_string() }),
        RelayAction::Fail(ProxyError::Outbound("second".to_string()))
    );
    assert_eq!(second.phase(), RelayPhase::Failed);
    assert_eq!(second.peer(), None);
}

#[test]
fn relay_on_the_primary_runs_to_its_end() {
    let service = TcpProxyFallback::new(primary());
    let (mut relay, _) = service.call();
    assert_eq!(relay.handle(RelayEvent::Connected), RelayAction::Pump(Route::Primary));
    assert_eq!(relay.peer(), Some(primary()));
    relay.handle(RelayEvent::Proxy(ProxyEvent::EndOfStream { direction: Direction::Upstream }));
    relay.handle(RelayEvent::Proxy(ProxyEvent::HalfClosed { direction: Direction::Upstream }));
    assert_eq!(
        relay.handle(RelayEvent::Proxy(ProxyEvent::ReadFailed {
            direction: Direction::Downstream,
            cause: "reset".to_string()
        })),
        RelayAction::Proxy(ProxyAction::Close {
            outcome: Err(ProxyError::Outbound("reset".to_string()))
        })
    );
    assert_eq!(relay.phase(), RelayPhase::Closed(Route::Primary));
    assert_eq!(relay.peer(), Some(primary()));
    assert_eq!(relay.handle(RelayEvent::Cancel), RelayAction::Ignore);
}

#[test]
fn cancelled_relay_gives_up_or_aborts() {
    let service = TcpProxyFallback::new(primary());
    let (mut connecting, _) = service.call();
    assert_eq!(connecting.handle(RelayEvent::Cancel), RelayAction::Abandon);
    assert_eq!(connecting.phase(), RelayPhase::Failed);
    assert_eq!(connecting.handle(RelayEvent::Cancel), RelayAction::Ignore);
    assert_eq!(connecting.handle(RelayEvent::Connected), RelayAction::Ignore);

    let (mut relaying, _) = service.call();
    relaying.handle(RelayEvent::Connected);
    assert_eq!(
        relaying.handle(RelayEvent::Cancel),
        RelayAction::Proxy(ProxyAction::Abort { inbound: true, outbound: true, outcome: Ok(()) })
    );
    assert_eq!(relaying.phase(), RelayPhase::Closed(Route::Primary));
    assert_eq!(relaying.handle(RelayEvent::Cancel), RelayAction::Ignore);
}
