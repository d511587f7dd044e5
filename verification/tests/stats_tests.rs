use rpc_gateway::config::Settings;
use rpc_gateway::state::AppState;
use rpc_gateway::stats::RpcMethodState;
use rpc_gateway::stats::UserRpcMethodState;

fn mean_of(e: &RpcMethodState) -> f64 {
    e.sum_ms as f64 / e.request_count as f64
}

fn std_of(e: &RpcMethodState) -> f64 {
    if e.request_count <= 1 {
        return 0.0;
    }
    let n = e.request_count as f64;
    let num = n * e.sum_sq_ms as f64 - (e.sum_ms as f64) * (e.sum_ms as f64);
    (num / (n * (n - 1.0))).sqrt()
}

#[test]
fn three_latencies_give_the_known_moments() {
    let mut e = RpcMethodState::new("getBlock");
    e.update(10);
    e.update(20);
    e.update(30);
    assert_eq!(e.request_count, 3);
    assert_eq!(e.sum_ms, 60);
    assert_eq!(e.sum_sq_ms, 1_400);
    assert_eq!(e.min_ms, 10);
    assert_eq!(e.max_ms, 30);
    assert!((mean_of(&e) - 20.0).abs() < 1e-9);
    assert!((std_of(&e) - 10.0).abs() < 1e-9);
}

#[test]
fn single_sample_has_zero_deviation() {
    let mut e = RpcMethodState::new("getBlock");
    e.update(7);
    assert_eq!(e.request_count, 1);
    assert_eq!(e.min_ms, 7);
    assert_eq!(e.max_ms, 7);
    assert!((std_of(&e) - 0.0).abs() < 1e-12);
}

#[test]
fn flush_hands_back_entries_and_clears() {
    let mut u = UserRpcMethodState::new("alice", 0);
    u.update_method("getBlock", 10);
    u.update_method("getSlot", 20);
    u.update_method("getBlock", 30);

    let early = u.log_if_needed(60, 30_000);
    assert!(early.is_empty());
    assert_eq!(u.rpc_method_state.len(), 2);

    let flushed = u.log_if_needed(60, 61_000);
    assert_eq!(flushed.len(), 2);
    assert_eq!(flushed[0].method, "getBlock");
    assert_eq!(flushed[0].request_count, 2);
    assert_eq!(flushed[1].method, "getSlot");
    assert_eq!(flushed[1].request_count, 1);
    assert!(u.rpc_method_state.is_empty());
    assert_eq!(u.last_log_time, 61_000);
}

#[test]
fn service_records_per_user_and_per_method() {
    let mut state = AppState::new(&Settings::new().unwrap());
    let none = state.update_and_log_rpc_method_state("alice", "getBlock", 10, 0);
    assert!(none.is_empty());
    let none = state.update_and_log_rpc_method_state("alice", "getBlock", 20, 1);
    assert!(none.is_empty());
    let none = state.update_and_log_rpc_method_state("bob", "getSlot", 5, 2);
    assert!(none.is_empty());

    // the default flush interval is 60 s; the next request from alice
    // observes the elapsed interval and flushes her two samples
    let flushed = state.update_and_log_rpc_method_state("alice", "getBlock", 30, 62_000);
    assert_eq!(flushed.len(), 1);
    assert_eq!(flushed[0].method, "getBlock");
    assert_eq!(flushed[0].request_count, 3);
    assert_eq!(flushed[0].sum_ms, 60);
    assert_eq!(flushed[0].min_ms, 10);
    assert_eq!(flushed[0].max_ms, 30);
}
