use rpc_gateway::config::Settings;
use rpc_gateway::ratelimit::rate_limit_fresh;
use rpc_gateway::ratelimit::rate_limit_step;
use rpc_gateway::state::AppState;

#[test]
fn quota_is_enforced_inside_one_window() {
    let n: u32 = 5;
    let mut state = AppState::new(&Settings::new().unwrap());
    for k in 0..n {
        assert!(state.update_and_check_rate_limit("alice", n, 100 + k as u64));
    }
    assert!(!state.update_and_check_rate_limit("alice", n, 900));
    assert!(!state.update_and_check_rate_limit("alice", n, 950));
}

#[test]
fn window_resets_after_one_second() {
    let mut e = rate_limit_fresh(0);
    assert_eq!(e.request_count, 1);
    assert!(rate_limit_step(&mut e, 2, 100));
    assert!(!rate_limit_step(&mut e, 2, 200));
    assert_eq!(e.request_count, 3);
    assert!(rate_limit_step(&mut e, 2, 1_000));
    assert_eq!(e.request_count, 1);
    assert_eq!(e.last_request_time, 1_000);
}

#[test]
fn users_have_independent_windows() {
    let mut state = AppState::new(&Settings::new().unwrap());
    assert!(state.update_and_check_rate_limit("alice", 1, 0));
    assert!(!state.update_and_check_rate_limit("alice", 1, 1));
    assert!(state.update_and_check_rate_limit("bob", 1, 2));
    assert!(state.update_and_check_rate_limit("alice", 1, 1_500));
}

#[test]
fn zero_quota_admits_nothing() {
    let mut state = AppState::new(&Settings::new().unwrap());
    assert!(!state.update_and_check_rate_limit("alice", 0, 0));
}
