use sly::retry::{should_retry, ConnectResult, Decision, RetryState, DEFAULT_RETRY_LIMIT};
use sly::select::{choose_place, pick_candidates, pick_less_loaded, sample_two};
use sly::target::{IpAddress, SocketAddress, Target};

#[test]
fn target_round_trips_through_its_address() {
    let address = SocketAddress::new(IpAddress::V4(0x7f00_0001), 8080);
    let target = Target::from_sock_addr(&address);
    assert_eq!(target.sock_addr(), address);
    let six = SocketAddress::new(IpAddress::V6(1), 443);
    assert_eq!(Target::from_sock_addr(&six).sock_addr(), six);
    assert_ne!(Target::from_sock_addr(&six), target);
}

#[test]
fn loopback_is_127_0_0_1() {
    let address = SocketAddress::loopback(8083);
    assert_eq!(address.ip, IpAddress::V4(2130706433));
    assert_eq!(address.port, 8083);
    assert!(address.is_ipv4());
    assert!(!SocketAddress::new(IpAddress::V6(1), 1).is_ipv4());
}

#[test]
fn lower_load_wins_in_either_order() {
    assert_eq!(pick_less_loaded(0, 2, 1, 7), 0);
    assert_eq!(pick_less_loaded(1, 7, 0, 2), 0);
    assert_eq!(pick_less_loaded(4, 9, 2, 3), 2);
    assert_eq!(pick_less_loaded(2, 3, 4, 9), 2);
}

#[test]
fn tie_goes_to_the_first_in_order() {
    assert_eq!(pick_less_loaded(3, 5, 1, 5), 1);
    assert_eq!(pick_less_loaded(1, 5, 3, 5), 1);
    assert_eq!(pick_less_loaded(2, 0, 2, 0), 2);
}

#[test]
fn sample_two_gives_two_different_places() {
    assert_eq!(sample_two(2, 0, 0), (1, 0));
    assert_eq!(sample_two(2, 0, 1), (0, 1));
    assert_eq!(sample_two(5, 7, 13), (4, 3));
    assert_eq!(sample_two(5, 6, 13), (2, 3));
    assert_eq!(sample_two(5, u64::MAX, u64::MAX), (3, 0));
    let mut a: u64 = 0;
    while a < 40 {
        let mut b: u64 = 0;
        while b < 40 {
            let (first, second) = sample_two(7, a, b);
            assert!(first < 7 && second < 7 && first != second);
            b += 1;
        }
        a += 1;
    }
}

#[test]
fn candidates_leave_the_excluded_place_out() {
    assert_eq!(pick_candidates(1, None, 9, 9), (0, 0));
    assert_eq!(pick_candidates(1, Some(0), 9, 9), (0, 0));
    assert_eq!(pick_candidates(2, Some(0), 9, 9), (1, 1));
    assert_eq!(pick_candidates(2, Some(1), 9, 9), (0, 0));
    assert_eq!(pick_candidates(3, Some(1), 0, 0), (2, 0));
    assert_eq!(pick_candidates(3, Some(0), 0, 1), (1, 2));
    let mut a: u64 = 0;
    while a < 30 {
        let mut b: u64 = 0;
        while b < 30 {
            let (first, second) = pick_candidates(4, Some(2), a, b);
            assert!(first != 2 && second != 2 && first != second);
            assert!(first < 4 && second < 4);
            b += 1;
        }
        a += 1;
    }
}

#[test]
fn choose_place_takes_the_less_loaded_candidate() {
    assert_eq!(choose_place(&vec![4], None, 1, 2), 0);
    assert_eq!(choose_place(&vec![3, 1], None, 5, 8), 1);
    assert_eq!(choose_place(&vec![1, 3], None, 5, 8), 0);
    assert_eq!(choose_place(&vec![2, 2], None, 5, 8), 0);
    // Candidates 4 and 3 of five: the load at 3 is lower.
    assert_eq!(choose_place(&vec![0, 0, 0, 1, 6], None, 7, 13), 3);
    // The failed backend is left out although it is idle.
    assert_eq!(choose_place(&vec![0, 9], Some(0), 3, 3), 1);
}

#[test]
fn skewed_loads_even_out_and_then_alternate() {
    let mut loads: Vec<u64> = vec![0, 5];
    let mut picks: Vec<usize> = Vec::new();
    let mut round: u64 = 0;
    while round < 100 {
        let place = choose_place(&loads, None, round * 7919, round * 104729 + 1);
        loads[place] += 1;
        picks.push(place);
        round += 1;
    }
    for round in 0..5 {
        assert_eq!(picks[round], 0);
    }
    for round in 5..100 {
        let expected = if (round - 5) % 2 == 0 { 0 } else { 1 };
        assert_eq!(picks[round], expected);
    }
    for round in 6..100 {
        assert_ne!(picks[round], picks[round - 1]);
    }
    assert_eq!(loads, vec![53, 52]);
}

#[test]
fn retry_is_granted_while_attempts_are_below_the_limit() {
    assert_eq!(DEFAULT_RETRY_LIMIT, 3);
    let fresh = RetryState::new(2);
    assert_eq!(fresh, RetryState { attempts_made: 0, limit: 2 });
    assert_eq!(
        should_retry(fresh, ConnectResult::Failed),
        Decision::Retry(RetryState { attempts_made: 1, limit: 2 })
    );
    assert_eq!(
        should_retry(RetryState { attempts_made: 1, limit: 2 }, ConnectResult::Failed),
        Decision::Retry(RetryState { attempts_made: 2, limit: 2 })
    );
    assert_eq!(
        should_retry(RetryState { attempts_made: 2, limit: 2 }, ConnectResult::Failed),
        Decision::GiveUp
    );
    assert_eq!(should_retry(fresh, ConnectResult::Connected), Decision::GiveUp);
    assert_eq!(should_retry(RetryState::new(0), ConnectResult::Failed), Decision::GiveUp);
    assert_eq!(
        should_retry(RetryState { attempts_made: u32::MAX, limit: u32::MAX }, ConnectResult::Failed),
        Decision::GiveUp
    );
}

#[test]
fn a_connection_gets_limit_plus_one_connects_at_most() {
    for limit in [0u32, 1, 3, 10] {
        let mut state = RetryState::new(limit);
        let mut connects: u32 = 0;
        loop {
            connects += 1;
            match should_retry(state, ConnectResult::Failed) {
                Decision::Retry(next) => state = next,
                Decision::GiveUp => break,
            }
        }
        assert_eq!(connects, limit + 1);
    }
}
