use muco_relay::connection::{
    ConnectionAction, ConnectionConfig, ConnectionEvent, ConnectionPhase, ConnectionProcess,
};
use muco_relay::discovery::{DiscoveryState, POLL_INTERVAL_MS, STALE_THRESHOLD_MS};
use muco_relay::handshake::prelude_bytes;

#[test]
fn discovery_announces_new_servers_once() {
    let mut state = DiscoveryState::new();
    let found = state.observe("10.0.0.2:1302".to_string(), "relay-a".to_string(), 1000, false);
    let server = found.expect("a new host is announced");
    assert_eq!(server.host, "10.0.0.2:1302");
    assert_eq!(server.name, "relay-a");
    assert_eq!(server.last_seen, 1000);
    // seeing the same host again only refreshes it
    let again = state.observe("10.0.0.2:1302".to_string(), "relay-a".to_string(), 2000, false);
    assert!(again.is_none());
    let all = state.get_all_servers();
    assert_eq!(all.len(), 1);
    assert_eq!(all[0].last_seen, 2000);
}

#[test]
fn discovery_filters_own_addresses() {
    let mut state = DiscoveryState::new();
    let found = state.observe("10.0.0.1:1302".to_string(), "self".to_string(), 1000, true);
    assert!(found.is_none());
    assert_eq!(state.get_all_servers().len(), 0);
}

#[test]
fn stale_servers_are_evicted_after_threshold() {
    let mut state = DiscoveryState::new();
    state.observe("a:1".to_string(), "a".to_string(), 0, false);
    state.observe("b:1".to_string(), "b".to_string(), 20_000, false);
    // at 25 s nothing is stale yet (threshold is 30 s since last seen)
    let lost = state.evict_stale(25_000);
    assert!(lost.is_empty());
    // at 35 s the first server crossed the threshold, the second did not
    let lost = state.evict_stale(35_000);
    assert_eq!(lost.len(), 1);
    assert_eq!(lost[0].host, "a:1");
    let all = state.get_all_servers();
    assert_eq!(all.len(), 1);
    assert_eq!(all[0].host, "b:1");
}

#[test]
fn discovery_constants() {
    assert_eq!(STALE_THRESHOLD_MS, 30_000);
    assert_eq!(POLL_INTERVAL_MS, 500);
}

#[test]
fn connection_process_reconnects_when_configured() {
    let mut p = ConnectionProcess::new(true, 7);
    assert_eq!(p.phase, ConnectionPhase::Discovering);
    assert_eq!(p.step(ConnectionEvent::ServerFound), ConnectionAction::Connect);
    match p.step(ConnectionEvent::ConnectSucceeded) {
        ConnectionAction::SendPrelude(bytes) => assert_eq!(bytes, prelude_bytes(7)),
        other => panic!("expected the prelude, got {:?}", other),
    }
    assert_eq!(p.phase, ConnectionPhase::Connected);
    // losing the connection goes back to discovery
    assert_eq!(p.step(ConnectionEvent::PeerClosed), ConnectionAction::Discover);
    assert_eq!(p.phase, ConnectionPhase::Discovering);
}

#[test]
fn connection_process_stops_without_reconnect() {
    let mut p = ConnectionProcess::new(false, 7);
    p.step(ConnectionEvent::ServerFound);
    p.step(ConnectionEvent::ConnectSucceeded);
    assert_eq!(p.step(ConnectionEvent::WriteFailed), ConnectionAction::Stop);
    assert_eq!(p.phase, ConnectionPhase::Stopped);
}

#[test]
fn connection_process_stops_when_local_side_closes() {
    let mut p = ConnectionProcess::new(true, 7);
    p.step(ConnectionEvent::ServerFound);
    p.step(ConnectionEvent::ConnectSucceeded);
    assert_eq!(p.step(ConnectionEvent::LocalClosed), ConnectionAction::Stop);
}

#[test]
fn connection_config_ports() {
    let c = ConnectionConfig::new(true);
    assert_eq!(c.http_port, 8080);
    assert_eq!(c.https_port, 9443);
    assert!(c.has_certificates);
    assert!(!ConnectionConfig::new(false).has_certificates);
}
