use godot_lsp_bridge::config::{get, set_confirmation, Config, ConfigError};

#[test]
fn get_rejects_unknown_key() {
    let cfg = Config::default();
    let err = get(&cfg, "banana").unwrap_err();
    assert!(err.message().contains("unknown key"));
}

#[test]
fn set_rejects_unknown_key() {
    let mut cfg = Config::default();
    let err = godot_lsp_bridge::config::set(&mut cfg, "banana", "val").unwrap_err();
    assert!(err.message().contains("unknown key"));
}

#[test]
fn set_rejects_invalid_port() {
    let mut cfg = Config::default();
    let err = godot_lsp_bridge::config::set(&mut cfg, "port", "not-a-number").unwrap_err();
    assert!(err.message().contains("invalid port"));
}

#[test]
fn unknown_key_message_exact() {
    let cfg = Config::new();
    let err = get(&cfg, "banana").unwrap_err();
    assert_eq!(err.message(), "unknown key \"banana\"; valid keys: host, port");
    assert!(matches!(err, ConfigError::UnknownKey(ref k) if k == "banana"));
}

#[test]
fn invalid_port_message_exact() {
    let mut cfg = Config::new();
    let err = godot_lsp_bridge::config::set(&mut cfg, "port", "70000").unwrap_err();
    assert_eq!(err.message(), "invalid port \"70000\": must be a number 1–65535");
    assert!(cfg.port.is_none());
}

#[test]
fn get_unset_values() {
    let cfg = Config::new();
    assert_eq!(get(&cfg, "host").unwrap(), "(not set)");
    assert_eq!(get(&cfg, "port").unwrap(), "(not set)");
}

#[test]
fn set_then_get_round_trip() {
    let mut cfg = Config::new();
    godot_lsp_bridge::config::set(&mut cfg, "host", "10.0.0.2").unwrap();
    godot_lsp_bridge::config::set(&mut cfg, "port", "6007").unwrap();
    assert_eq!(get(&cfg, "host").unwrap(), "10.0.0.2");
    assert_eq!(get(&cfg, "port").unwrap(), "6007");
    assert_eq!(cfg.port, Some(6007));
    godot_lsp_bridge::config::set(&mut cfg, "port", "+8").unwrap();
    assert_eq!(cfg.port, Some(8));
    assert!(godot_lsp_bridge::config::set(&mut cfg, "port", "").is_err());
    assert!(godot_lsp_bridge::config::set(&mut cfg, "port", " 9").is_err());
    assert_eq!(cfg.port, Some(8));
    assert_eq!(cfg.host.as_deref(), Some("10.0.0.2"));
}

#[test]
fn confirmation_line() {
    assert_eq!(set_confirmation("port", "6006", "/x/config.json"), "Set port = 6006  (/x/config.json)");
}
