use tunnel_gateway::forwarder::{Forwarder, ForwarderState};

#[test]
fn close_mid_relay_drains_gracefully() {
    let mut f = Forwarder::new();
    assert!(f.on_accept());
    assert!(f.on_accept());
    assert_eq!(f.active, 2);
    // closing while two connections relay: no new admissions, none severed
    f.on_stop();
    assert!(matches!(f.state, ForwarderState::Draining));
    assert_eq!(f.active, 2);
    assert!(!f.accepts_new());
    assert!(!f.on_accept());
    assert_eq!(f.active, 2);
    // the in-flight connections finish naturally, then the loop stops
    f.on_connection_done();
    assert!(matches!(f.state, ForwarderState::Draining));
    assert!(!f.is_stopped());
    f.on_connection_done();
    assert!(f.is_stopped());
    assert_eq!(f.active, 0);
}

#[test]
fn stop_of_an_idle_tunnel_stops_at_once() {
    let mut f = Forwarder::new();
    assert!(f.accepts_new());
    f.on_stop();
    assert!(f.is_stopped());
    assert!(!f.on_accept());
}

#[test]
fn local_connect_failure_keeps_the_tunnel_listening() {
    let mut f = Forwarder::new();
    assert!(f.on_accept());
    // the connect to the local target failed: that connection ends, the
    // tunnel's port binding survives
    f.on_connection_done();
    assert!(matches!(f.state, ForwarderState::Listening));
    assert!(f.accepts_new());
    assert_eq!(f.active, 0);
}
