use tunnel_gateway::config::ServerConfig;
use tunnel_gateway::errors::ConfigError;

fn full_env() -> Vec<(String, String)> {
    vec![
        ("SERVER_HOST".to_string(), "0.0.0.0".to_string()),
        ("SERVER_PORT".to_string(), "2222".to_string()),
        ("WEB_INTERFACE".to_string(), "127.0.0.1".to_string()),
        ("WEB_PORT".to_string(), "8080".to_string()),
        (
            "SSH_AUTHORIZED_KEYS_PATH".to_string(),
            "/etc/gateway/authorized_keys".to_string(),
        ),
        (
            "SSH_SERVER_KEY_PATH".to_string(),
            "/etc/gateway/server_key".to_string(),
        ),
        (
            "ALLOWED_PORTS".to_string(),
            "10001, 10002,10003".to_string(),
        ),
        ("MAX_CONNECTIONS".to_string(), "50".to_string()),
        ("SESSION_TIMEOUT".to_string(), "3600".to_string()),
        ("ALLOWED_USERS".to_string(), " alice ,bob".to_string()),
        ("REQUIRE_PUBKEY_AUTH".to_string(), "true".to_string()),
    ]
}

fn env_with(key: &str, value: &str) -> Vec<(String, String)> {
    let mut env = full_env();
    for pair in env.iter_mut() {
        if pair.0.eq_ignore_ascii_case(key) {
            pair.1 = value.to_string();
        }
    }
    env
}

#[test]
fn from_env_reads_every_field() {
    let c = ServerConfig::from_env(&full_env()).unwrap();
    assert_eq!(c.server_host, "0.0.0.0");
    assert_eq!(c.server_port, 2222);
    assert_eq!(c.web_interface, "127.0.0.1");
    assert_eq!(c.web_port, 8080);
    assert_eq!(c.ssh_authorized_keys_path, "/etc/gateway/authorized_keys");
    assert_eq!(c.ssh_server_key_path, "/etc/gateway/server_key");
    assert_eq!(c.allowed_ports, "10001, 10002,10003");
    assert_eq!(c.max_connections, 50);
    assert_eq!(c.session_timeout, 3600);
    assert_eq!(c.allowed_users, " alice ,bob");
    assert!(c.require_pubkey_auth);
}

#[test]
fn keys_match_case_insensitively() {
    let env: Vec<(String, String)> = full_env()
        .into_iter()
        .map(|(k, v)| (k.to_ascii_lowercase(), v))
        .collect();
    assert!(ServerConfig::from_env(&env).is_ok());
    let mixed: Vec<(String, String)> = full_env()
        .into_iter()
        .map(|(k, v)| {
            let mut m = String::new();
            for (i, ch) in k.chars().enumerate() {
                if i % 2 == 0 {
                    m.extend(ch.to_lowercase());
                } else {
                    m.push(ch);
                }
            }
            (m, v)
        })
        .collect();
    assert!(ServerConfig::from_env(&mixed).is_ok());
}

#[test]
fn missing_key_is_fatal() {
    let env: Vec<(String, String)> = full_env()
        .into_iter()
        .filter(|(k, _)| k != "SESSION_TIMEOUT")
        .collect();
    assert_eq!(ServerConfig::from_env(&env).unwrap_err(), ConfigError::MissingKey);
}

#[test]
fn malformed_port_is_fatal() {
    assert_eq!(
        ServerConfig::from_env(&env_with("SERVER_PORT", "not-a-port")).unwrap_err(),
        ConfigError::MalformedValue
    );
    assert_eq!(
        ServerConfig::from_env(&env_with("SERVER_PORT", "65536")).unwrap_err(),
        ConfigError::MalformedValue
    );
    assert_eq!(
        ServerConfig::from_env(&env_with("SERVER_PORT", "")).unwrap_err(),
        ConfigError::MalformedValue
    );
    assert!(ServerConfig::from_env(&env_with("SERVER_PORT", "65535")).is_ok());
}

#[test]
fn malformed_bool_is_fatal() {
    assert_eq!(
        ServerConfig::from_env(&env_with("REQUIRE_PUBKEY_AUTH", "yes")).unwrap_err(),
        ConfigError::MalformedValue
    );
    let c = ServerConfig::from_env(&env_with("REQUIRE_PUBKEY_AUTH", "false")).unwrap();
    assert!(!c.require_pubkey_auth);
}

#[test]
fn malformed_cap_is_fatal() {
    assert_eq!(
        ServerConfig::from_env(&env_with("MAX_CONNECTIONS", "4294967296")).unwrap_err(),
        ConfigError::MalformedValue
    );
    let c = ServerConfig::from_env(&env_with("MAX_CONNECTIONS", "4294967295")).unwrap();
    assert_eq!(c.max_connections, 4294967295);
}

#[test]
fn allowed_ports_are_split_trimmed_and_deduplicated() {
    let c = ServerConfig::from_env(&env_with(
        "ALLOWED_PORTS",
        " 10001 ,bogus,10002,10001,, 70000 ,8080",
    ))
    .unwrap();
    let mut ports = c.get_allowed_ports();
    ports.sort();
    // pieces that do not read as a port number are ignored, duplicates kept once
    assert_eq!(ports, vec![8080, 10001, 10002]);
}

#[test]
fn allowed_users_are_split_trimmed_and_deduplicated() {
    let c = ServerConfig::from_env(&env_with("ALLOWED_USERS", " alice , bob,alice,carol")).unwrap();
    let users = c.get_allowed_users();
    assert_eq!(users, vec!["alice", "bob", "carol"]);
}

#[test]
fn bind_addresses_join_host_and_port() {
    let c = ServerConfig::from_env(&full_env()).unwrap();
    assert_eq!(c.get_server_bind(), "0.0.0.0:2222");
    assert_eq!(c.get_web_bind(), "127.0.0.1:8080");
}

#[test]
fn policy_follows_the_configuration() {
    let c = ServerConfig::from_env(&full_env()).unwrap();
    let p = c.to_policy();
    assert!(p.is_port_allowed(10001));
    assert!(p.is_port_allowed(10002));
    assert!(!p.is_port_allowed(22));
    assert!(p.is_user_allowed(&"alice".to_string()));
    assert!(p.is_user_allowed(&"bob".to_string()));
    assert!(!p.is_user_allowed(&"mallory".to_string()));
    assert!(p.has_capacity(49));
    assert!(!p.has_capacity(50));
    assert!(!p.has_capacity(51));
}

#[test]
fn config_error_messages_name_the_fault() {
    assert_eq!(ConfigError::MissingKey.message(), "missing configuration key");
    assert_eq!(
        ConfigError::MalformedValue.message(),
        "malformed configuration value"
    );
}
