use crabfit_api::governor::DynamicKeyExtractor;
use crabfit_api::transport::{
    has_unix_prefix, is_socket_mode, listen_addr_or_default, parse_listen_addr, parse_socket_mode, ListenAddr,
};

#[test]
fn unix_prefix_selects_socket() {
    match parse_listen_addr("unix:/run/api.sock") {
        ListenAddr::Unix(p) => assert_eq!(p, "/run/api.sock"),
        other => panic!("unexpected {other:?}"),
    }
    assert!(has_unix_prefix("unix:"));
    assert!(!has_unix_prefix("unix"));
}

#[test]
fn other_addresses_are_tcp() {
    match parse_listen_addr("127.0.0.1:8080") {
        ListenAddr::Tcp(a) => assert_eq!(a, "127.0.0.1:8080"),
        other => panic!("unexpected {other:?}"),
    }
}

#[test]
fn default_listen_address() {
    assert_eq!(listen_addr_or_default(None), "0.0.0.0:3000");
    assert_eq!(listen_addr_or_default(Some("[::]:80".to_string())), "[::]:80");
}

#[test]
fn socket_mode_is_octal() {
    assert_eq!(parse_socket_mode("660"), Some(0o660));
    assert_eq!(parse_socket_mode("+777"), Some(0o777));
    assert_eq!(parse_socket_mode("0"), Some(0));
    assert_eq!(parse_socket_mode("68"), None);
    assert_eq!(parse_socket_mode(""), None);
    assert_eq!(parse_socket_mode("+"), None);
    assert_eq!(parse_socket_mode("37777777777"), Some(u32::MAX));
    assert_eq!(parse_socket_mode("40000000000"), None);
}

#[test]
fn socket_file_type() {
    assert!(is_socket_mode(0o140755));
    assert!(!is_socket_mode(0o100644));
    assert!(!is_socket_mode(0o040755));
}

#[test]
fn key_strategy_selection() {
    assert_eq!(DynamicKeyExtractor::from_env(false, None), DynamicKeyExtractor::Peer);
    assert_eq!(DynamicKeyExtractor::from_env(false, Some("0.0.0.0:3000")), DynamicKeyExtractor::Peer);
    assert_eq!(DynamicKeyExtractor::from_env(true, None), DynamicKeyExtractor::Smart);
    assert_eq!(DynamicKeyExtractor::from_env(false, Some("unix:/tmp/s")), DynamicKeyExtractor::Smart);
}
