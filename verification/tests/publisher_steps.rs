use home_monitor_node::publisher::{
    ConnState, Publisher, ReadOutcome, CONNECT_RETRY_DELAY_MS, MIN_PUBLISH_INTERVAL_MS,
    RESPONSE_READ_TIMEOUT_MS, SOCKET_KEEP_ALIVE_MS, SOCKET_TIMEOUT_MS,
};

#[test]
fn first_publish_starts_immediately() {
    let mut p = Publisher::new();
    assert_eq!(p.next_publish_delay(0), 0);
    assert!(p.start_publish(0));
    assert_eq!(p.last_start, Some(0));
}

#[test]
fn publishes_closer_than_the_interval_are_held_back() {
    let mut p = Publisher::new();
    assert!(p.start_publish(1000));
    // A reading arrives right away: rejected, with the remainder to wait.
    assert!(!p.start_publish(1001));
    assert_eq!(p.last_start, Some(1000));
    assert_eq!(p.next_publish_delay(1001), MIN_PUBLISH_INTERVAL_MS - 1);
    // One tick early: still rejected.
    assert!(!p.start_publish(1000 + MIN_PUBLISH_INTERVAL_MS - 1));
    // Exactly the interval later: accepted.
    assert!(p.start_publish(1000 + MIN_PUBLISH_INTERVAL_MS));
    assert_eq!(p.last_start, Some(1000 + MIN_PUBLISH_INTERVAL_MS));
}

#[test]
fn connection_is_reused_while_established() {
    let mut p = Publisher::new();
    assert!(p.needs_connect());
    p.begin_connect();
    p.on_connect_result(true);
    assert_eq!(p.conn, ConnState::Established);
    // A clean publish: writes succeed, response read times out quietly.
    p.on_send_outcome(true);
    p.on_response(ReadOutcome::TimedOut);
    assert_eq!(p.conn, ConnState::Established);
    assert!(!p.needs_connect());
    // Data received also keeps the connection.
    p.on_response(ReadOutcome::DataReceived);
    assert_eq!(p.conn, ConnState::Established);
}

#[test]
fn write_error_forces_fresh_connect() {
    let mut p = Publisher::new();
    p.begin_connect();
    p.on_connect_result(true);
    p.on_send_outcome(false);
    assert_eq!(p.conn, ConnState::Closed);
    // The next publish must start from a fresh connect.
    assert!(p.needs_connect());
}

#[test]
fn remote_close_forces_fresh_connect() {
    let mut p = Publisher::new();
    p.begin_connect();
    p.on_connect_result(true);
    p.on_send_outcome(true);
    p.on_response(ReadOutcome::RemoteClosed);
    assert_eq!(p.conn, ConnState::Closed);
    assert!(p.needs_connect());
}

#[test]
fn read_error_forces_fresh_connect() {
    let mut p = Publisher::new();
    p.begin_connect();
    p.on_connect_result(true);
    p.on_response(ReadOutcome::ReadFailed);
    assert_eq!(p.conn, ConnState::Closed);
    assert!(p.needs_connect());
}

#[test]
fn failed_connect_leaves_handle_closed() {
    let mut p = Publisher::new();
    p.begin_connect();
    p.on_connect_result(false);
    assert_eq!(p.conn, ConnState::Closed);
}

#[test]
fn stuck_handle_is_aborted_before_reconnect() {
    let mut p = Publisher::new();
    p.begin_connect();
    assert_eq!(p.conn, ConnState::Connecting);
    // The connect attempt was interrupted; the handle is stuck mid-state.
    assert!(p.reset_if_stuck());
    assert_eq!(p.conn, ConnState::Closed);
    // A closed or established handle needs no forced reset.
    assert!(!p.reset_if_stuck());
    p.begin_connect();
    p.on_connect_result(true);
    assert!(!p.reset_if_stuck());
    assert_eq!(p.conn, ConnState::Established);
}

#[test]
fn configured_delays_match_the_deployment_constants() {
    assert_eq!(MIN_PUBLISH_INTERVAL_MS, 10_000);
    assert_eq!(CONNECT_RETRY_DELAY_MS, 3_000);
    assert_eq!(RESPONSE_READ_TIMEOUT_MS, 500);
    assert_eq!(SOCKET_TIMEOUT_MS, 20_000);
    assert_eq!(SOCKET_KEEP_ALIVE_MS, 15_000);
}
