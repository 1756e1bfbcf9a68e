use dojo::address::{database_url, format_address};
use dojo::config::ServerConfig;
use dojo::text::{can_truncate, decimal_string, truncate};

fn config(host: &str, port: u16) -> ServerConfig<&'static str> {
    ServerConfig {
        port,
        host: host.to_string(),
        max_connections: 100,
        max_request_body_size: 1024,
        apis: vec!["starknet", "katana"],
    }
}

#[test]
fn addr_is_host_and_port() {
    assert_eq!(config("0.0.0.0", 5050).addr(), "0.0.0.0:5050");
    assert_eq!(config("localhost", 0).addr(), "localhost:0");
    assert_eq!(config("", 65535).addr(), ":65535");
    assert_eq!(config("::1", 80).clone().addr(), "::1:80");
}

#[test]
fn addresses_differ_with_host_or_port() {
    assert_ne!(config("a:1", 2).addr(), config("a", 12).addr());
    assert_ne!(config("a", 1).addr(), config("a", 10).addr());
    assert_eq!(format_address("0.0.0.0", 8080), config("0.0.0.0", 8080).addr());
}

#[test]
fn database_urls_are_of_sqlite() {
    assert_eq!(database_url(":memory:"), "sqlite::memory:");
    assert_eq!(database_url("indexer.db"), "sqlite:indexer.db");
}

#[test]
fn decimals_read_back() {
    for n in 0..=u16::MAX {
        let text = decimal_string(n);
        assert_eq!(text, n.to_string());
        assert_eq!(text.parse::<u16>(), Ok(n));
    }
}

#[test]
fn truncation_is_by_bytes() {
    assert_eq!(truncate("abc", 2), "ab");
    assert_eq!(truncate("abc", 3), "abc");
    assert_eq!(truncate("abc", 9), "abc");
    assert_eq!(truncate("\u{e9}t\u{e9}", 3), "\u{e9}t");
    assert_eq!(truncate("", 0), "");
    assert!(can_truncate("\u{e9}t\u{e9}", 0));
    assert!(!can_truncate("\u{e9}t\u{e9}", 1));
    assert!(can_truncate("\u{e9}t\u{e9}", 2));
    assert!(!can_truncate("\u{e9}t\u{e9}", 4));
    assert!(can_truncate("\u{e9}t\u{e9}", 5));
    assert!(can_truncate("\u{e9}t\u{e9}", 6));
}
