use tunnel_gateway::config::ServerConfig;
use tunnel_gateway::errors::TunnelError;
use tunnel_gateway::registry::TunnelManager;

fn test_config(allowed_ports: &str, max_connections: u32) -> ServerConfig {
    ServerConfig {
        server_host: String::from("0.0.0.0"),
        server_port: 2222,
        web_interface: String::from("127.0.0.1"),
        web_port: 8080,
        ssh_authorized_keys_path: String::from("/etc/gateway/authorized_keys"),
        ssh_server_key_path: String::from("/etc/gateway/server_key"),
        allowed_ports: String::from(allowed_ports),
        max_connections,
        session_timeout: 3600,
        allowed_users: String::from("alice,bob"),
        require_pubkey_auth: true,
    }
}

fn manager(allowed_ports: &str, max_connections: u32) -> TunnelManager {
    TunnelManager::new(&test_config(allowed_ports, max_connections))
}

#[test]
fn second_create_for_same_port_loses() {
    let mut m = manager("10001,10002,10003", 16);
    assert!(m.add_session(1, "alice", "198.51.100.7:50000", 100));
    assert!(m.add_session(2, "bob", "198.51.100.8:50001", 101));
    assert_eq!(m.create_tunnel(1, 10001, "localhost", 8000, 100), Ok(()));
    // the racing request, serialized second, is refused and changes nothing
    assert_eq!(
        m.create_tunnel(2, 10001, "localhost", 9000, 101),
        Err(TunnelError::PortAlreadyBound)
    );
    let entries: Vec<u16> = m
        .list_tunnels()
        .iter()
        .filter(|t| t.remote_port == 10001)
        .map(|t| t.remote_port)
        .collect();
    assert_eq!(entries.len(), 1);
    assert_eq!(m.tunnel_count(), 1);
}

#[test]
fn closed_tunnel_leaves_no_trace() {
    let mut m = manager("10001,10002", 16);
    assert!(m.add_session(1, "alice", "198.51.100.7:50000", 100));
    assert_eq!(m.create_tunnel(1, 10001, "localhost", 8000, 100), Ok(()));
    assert_eq!(m.finish_bind(10001, true), Ok(()));
    assert_eq!(m.close_tunnel(10001), Ok(()));
    assert!(m.list_tunnels().iter().all(|t| t.remote_port != 10001));
    assert_eq!(m.tunnel_count(), 0);
    // the port is free again
    assert_eq!(m.create_tunnel(1, 10001, "localhost", 8000, 102), Ok(()));
}

#[test]
fn disallowed_port_creates_no_entry() {
    let mut m = manager("10001,10002", 16);
    assert!(m.add_session(1, "alice", "198.51.100.7:50000", 100));
    assert_eq!(
        m.create_tunnel(1, 4444, "localhost", 8000, 100),
        Err(TunnelError::PortNotAllowed)
    );
    assert_eq!(m.tunnel_count(), 0);
    assert!(m.list_tunnels().is_empty());
}

#[test]
fn capacity_cap_refuses_the_next_request() {
    let mut m = manager("10001,10002,10003", 2);
    assert!(m.add_session(1, "alice", "198.51.100.7:50000", 100));
    assert_eq!(m.create_tunnel(1, 10001, "localhost", 8000, 100), Ok(()));
    assert_eq!(m.create_tunnel(1, 10002, "localhost", 8001, 100), Ok(()));
    assert_eq!(
        m.create_tunnel(1, 10003, "localhost", 8002, 100),
        Err(TunnelError::CapacityExceeded)
    );
    assert_eq!(m.tunnel_count(), 2);
}

#[test]
fn session_close_cascades_to_owned_tunnels() {
    let mut m = manager("10001,10002,10003", 16);
    assert!(m.add_session(1, "alice", "198.51.100.7:50000", 100));
    assert!(m.add_session(2, "bob", "198.51.100.8:50001", 101));
    assert_eq!(m.create_tunnel(1, 10001, "localhost", 8000, 100), Ok(()));
    assert_eq!(m.create_tunnel(1, 10002, "localhost", 8001, 100), Ok(()));
    assert_eq!(m.create_tunnel(2, 10003, "localhost", 8002, 101), Ok(()));
    let closed = m.close_session(1).unwrap();
    assert_eq!(closed, vec![10001, 10002]);
    let remaining: Vec<u16> = m.list_tunnels().iter().map(|t| t.remote_port).collect();
    assert_eq!(remaining, vec![10003]);
    assert!(m.tunnels_of_session(1).is_empty());
    assert_eq!(m.session_count(), 1);
    assert_eq!(m.close_session(1), Err(TunnelError::NotFound));
}

#[test]
fn failed_bind_rolls_the_reservation_back() {
    let mut m = manager("10001", 16);
    assert!(m.add_session(1, "alice", "198.51.100.7:50000", 100));
    assert_eq!(m.create_tunnel(1, 10001, "localhost", 8000, 100), Ok(()));
    assert_eq!(
        m.finish_bind(10001, false),
        Err(TunnelError::TransportBindError)
    );
    assert_eq!(m.tunnel_count(), 0);
    // nothing survives the rollback: the port can be requested again
    assert_eq!(m.create_tunnel(1, 10001, "localhost", 8000, 101), Ok(()));
}

#[test]
fn finish_bind_without_reservation_is_not_found() {
    let mut m = manager("10001", 16);
    assert!(m.add_session(1, "alice", "198.51.100.7:50000", 100));
    assert_eq!(m.finish_bind(10001, true), Err(TunnelError::NotFound));
    assert_eq!(m.create_tunnel(1, 10001, "localhost", 8000, 100), Ok(()));
    assert_eq!(m.finish_bind(10001, true), Ok(()));
    // a second confirmation finds no pending reservation
    assert_eq!(m.finish_bind(10001, true), Err(TunnelError::NotFound));
}

#[test]
fn close_of_unknown_port_is_not_found() {
    let mut m = manager("10001", 16);
    assert_eq!(m.close_tunnel(10001), Err(TunnelError::NotFound));
}

#[test]
fn duplicate_session_identity_is_refused() {
    let mut m = manager("10001", 16);
    assert!(m.add_session(1, "alice", "198.51.100.7:50000", 100));
    assert!(!m.add_session(1, "mallory", "203.0.113.9:40000", 105));
    let sessions = m.list_sessions();
    assert_eq!(sessions.len(), 1);
    assert_eq!(sessions[0].username, "alice");
    assert_eq!(sessions[0].remote_addr, "198.51.100.7:50000");
    assert_eq!(sessions[0].connected_at, 100);
}

#[test]
fn snapshots_carry_the_tunnel_fields() {
    let mut m = manager("10001", 16);
    assert!(m.add_session(7, "alice", "198.51.100.7:50000", 100));
    assert_eq!(m.create_tunnel(7, 10001, "192.168.1.5", 8000, 123), Ok(()));
    assert_eq!(m.finish_bind(10001, true), Ok(()));
    let tunnels = m.list_tunnels();
    assert_eq!(tunnels.len(), 1);
    assert_eq!(tunnels[0].remote_port, 10001);
    assert_eq!(tunnels[0].local_host, "192.168.1.5");
    assert_eq!(tunnels[0].local_port, 8000);
    assert_eq!(tunnels[0].owner_session_id, 7);
    assert_eq!(tunnels[0].created_at, 123);
    assert!(tunnels[0].bound);
    assert_eq!(m.tunnels_of_session(7), vec![10001]);
}

#[test]
fn sessions_expire_after_their_budget() {
    let mut m = manager("10001,10002", 16);
    assert!(m.add_session(1, "alice", "198.51.100.7:50000", 100));
    assert!(m.add_session(2, "bob", "198.51.100.8:50001", 500));
    // budget of 300 seconds: at t=450 only the session from t=100 is overdue
    assert_eq!(m.expired_sessions(450, 300), vec![1]);
    assert_eq!(m.expired_sessions(401, 300), vec![1]);
    assert_eq!(m.expired_sessions(400, 300), Vec::<u64>::new());
    assert_eq!(m.expired_sessions(900, 300), vec![1, 2]);
    // a tiny clock never expires anyone
    assert_eq!(m.expired_sessions(50, 300), Vec::<u64>::new());
    // the reaper then closes the overdue session, cascading
    assert_eq!(m.create_tunnel(1, 10001, "localhost", 8000, 100), Ok(()));
    let closed = m.close_session(1).unwrap();
    assert_eq!(closed, vec![10001]);
    assert_eq!(m.session_count(), 1);
}

#[test]
fn error_messages_name_the_refusal() {
    assert_eq!(TunnelError::PortAlreadyBound.message(), "port already bound");
    assert_eq!(TunnelError::PortNotAllowed.message(), "port not allowed");
    assert_eq!(TunnelError::CapacityExceeded.message(), "capacity exceeded");
    assert_eq!(TunnelError::NotFound.message(), "not found");
    assert_eq!(
        TunnelError::TransportBindError.message(),
        "transport bind error"
    );
}
