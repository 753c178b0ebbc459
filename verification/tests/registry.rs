use sly::discover::{
    DiscoverAction, DiscoverEvent, FeedState, OrchestrationRequest, OrchestrationServiceError,
    TargetDiscover, DEFAULT_LAPSE_MILLIS,
};
use sly::error::SlyError;
use sly::fallback::TcpProxyFallback;
use sly::registry::{find_backend, lists_address, merge, DiscoveryDelta, Registry};
use sly::target::{IpAddress, SocketAddress};

fn address(port: u16) -> SocketAddress {
    SocketAddress::new(IpAddress::V4(0x0a00_0001), port)
}

fn backend(port: u16) -> TcpProxyFallback {
    TcpProxyFallback::new(address(port))
}

fn backend_with_fallback(port: u16, other: u16) -> TcpProxyFallback {
    let mut service = TcpProxyFallback::new(address(port));
    service.with_fallback(address(other));
    service
}

fn members(registry: &Registry) -> Vec<TcpProxyFallback> {
    let snapshot = registry.snapshot();
    let mut all = Vec::new();
    for i in 0..snapshot.len() {
        all.push(snapshot.get(i));
    }
    all
}

#[test]
fn registry_needs_a_backend() {
    match Registry::new(Vec::new()) {
        Err(error) => assert_eq!(error, SlyError::RegistryEmpty),
        Ok(_) => panic!("an empty registry was made"),
    }
    let registry = Registry::new(vec![backend(1)]).unwrap();
    assert_eq!(members(&registry), vec![backend(1)]);
    assert_eq!(registry.snapshot().version(), 0);
}

#[test]
fn registry_keeps_the_first_of_two_backends_with_one_identity() {
    let registry =
        Registry::new(vec![backend(1), backend(2), backend_with_fallback(1, 9), backend(3)])
            .unwrap();
    assert_eq!(members(&registry), vec![backend(1), backend(2), backend(3)]);
}

#[test]
fn apply_is_union_minus_removed() {
    let mut registry = Registry::new(vec![backend(1), backend(2), backend(3)]).unwrap();
    let delta = DiscoveryDelta {
        added: vec![backend(4), backend_with_fallback(2, 7), backend(5), backend(4), backend(6)],
        removed: vec![address(1), address(6), address(40)],
    };
    assert!(registry.apply(&delta));
    assert_eq!(members(&registry), vec![backend(2), backend(3), backend(4), backend(5)]);
    assert_eq!(registry.snapshot().version(), 1);
    assert_eq!(
        merge(&vec![backend(1), backend(2)], &vec![backend(3)], &vec![address(2)]),
        vec![backend(1), backend(3)]
    );
}

#[test]
fn a_change_that_would_empty_the_registry_is_not_made() {
    let mut registry = Registry::new(vec![backend(1), backend(2)]).unwrap();
    let wipe = DiscoveryDelta { added: vec![backend(1)], removed: vec![address(1), address(2)] };
    assert!(!registry.apply(&wipe));
    assert_eq!(members(&registry), vec![backend(1), backend(2)]);
    assert_eq!(registry.snapshot().version(), 0);
}

#[test]
fn a_snapshot_in_use_is_not_touched_by_a_later_change() {
    let mut registry = Registry::new(vec![backend(1), backend(2)]).unwrap();
    let held = registry.snapshot();
    let delta = DiscoveryDelta { added: vec![backend(3)], removed: vec![address(1)] };
    assert!(registry.apply(&delta));
    assert_eq!(held.len(), 2);
    assert_eq!(held.get(0), backend(1));
    assert_eq!(held.get(1), backend(2));
    assert_eq!(held.version(), 0);
    assert_eq!(held.position(address(1)), Some(0));
    assert_eq!(held.position(address(3)), None);
    let fresh = registry.snapshot();
    assert_eq!(fresh.len(), 2);
    assert_eq!(fresh.get(0), backend(2));
    assert_eq!(fresh.get(1), backend(3));
    assert_eq!(fresh.version(), 1);
    assert_eq!(fresh.position(address(1)), None);
    assert_eq!(fresh.position(address(3)), Some(1));
    let copy = held.duplicate();
    assert_eq!(copy.len(), 2);
    assert_eq!(copy.get(1), backend(2));
}

#[test]
fn searching_lists() {
    let list = vec![address(1), address(2)];
    assert!(lists_address(&list, address(2)));
    assert!(!lists_address(&list, address(3)));
    assert!(!lists_address(&Vec::new(), address(3)));
    let backends = vec![backend(5), backend_with_fallback(6, 1), backend(6)];
    assert_eq!(find_backend(&backends, address(6)), Some(1));
    assert_eq!(find_backend(&backends, address(5)), Some(0));
    assert_eq!(find_backend(&backends, address(1)), None);
}

#[test]
fn feed_polls_at_a_tick_and_merges_a_change() {
    assert_eq!(DEFAULT_LAPSE_MILLIS, 5000);
    let mut feed = TargetDiscover::new(DEFAULT_LAPSE_MILLIS);
    assert_eq!(feed.state(), FeedState::Idle);
    assert_eq!(feed.lapse(), 5000);
    assert_eq!(
        feed.poll_next(DiscoverEvent::Tick { now: 5000 }),
        DiscoverAction::Poll(OrchestrationRequest { since: 0 })
    );
    assert_eq!(feed.state(), FeedState::Polling);
    // One question at a time.
    assert_eq!(feed.poll_next(DiscoverEvent::Tick { now: 6000 }), DiscoverAction::Ignore);
    let delta = DiscoveryDelta { added: vec![backend(9)], removed: vec![address(1)] };
    let same = DiscoveryDelta { added: vec![backend(9)], removed: vec![address(1)] };
    assert_eq!(
        feed.poll_next(DiscoverEvent::Answered { change: Some(delta) }),
        DiscoverAction::Merge(same)
    );
    assert_eq!(feed.state(), FeedState::Merging);
    assert_eq!(feed.poll_next(DiscoverEvent::Tick { now: 7000 }), DiscoverAction::Ignore);
    assert_eq!(feed.poll_next(DiscoverEvent::Merged), DiscoverAction::Rest);
    assert_eq!(feed.state(), FeedState::Idle);
    assert_eq!(
        feed.poll_next(DiscoverEvent::Tick { now: 10000 }),
        DiscoverAction::Poll(OrchestrationRequest { since: 5000 })
    );
    assert_eq!(feed.poll_next(DiscoverEvent::Answered { change: None }), DiscoverAction::Rest);
    assert_eq!(feed.state(), FeedState::Idle);
    assert_eq!(feed.last_checked, 10000);
}

#[test]
fn a_failed_poll_is_reported_and_asked_again_from_the_same_time() {
    let mut feed = TargetDiscover::new(100);
    feed.poll_next(DiscoverEvent::Tick { now: 100 });
    feed.poll_next(DiscoverEvent::Answered { change: None });
    feed.poll_next(DiscoverEvent::Tick { now: 200 });
    assert_eq!(
        feed.poll_next(DiscoverEvent::PollFailed {
            error: OrchestrationServiceError { cause: "unreachable".to_string() }
        }),
        DiscoverAction::Report(OrchestrationServiceError { cause: "unreachable".to_string() })
    );
    assert_eq!(feed.state(), FeedState::Idle);
    assert_eq!(
        feed.poll_next(DiscoverEvent::Tick { now: 300 }),
        DiscoverAction::Poll(OrchestrationRequest { since: 100 })
    );
}

#[test]
fn a_stopped_feed_drops_what_comes_late() {
    let mut feed = TargetDiscover::new(100);
    feed.poll_next(DiscoverEvent::Tick { now: 100 });
    assert_eq!(feed.poll_next(DiscoverEvent::Stop), DiscoverAction::Halt);
    assert_eq!(feed.state(), FeedState::Stopped);
    let late = DiscoveryDelta { added: vec![backend(9)], removed: Vec::new() };
    assert_eq!(
        feed.poll_next(DiscoverEvent::Answered { change: Some(late) }),
        DiscoverAction::Ignore
    );
    assert_eq!(feed.poll_next(DiscoverEvent::Stop), DiscoverAction::Ignore);
    assert_eq!(feed.poll_next(DiscoverEvent::Tick { now: 200 }), DiscoverAction::Ignore);
    assert_eq!(feed.state(), FeedState::Stopped);
}
