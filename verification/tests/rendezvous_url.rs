use agentsync_core::constants::{normalize_rendezvous_url, normalize_with_scheme};
use agentsync_core::error::Error;
use agentsync_core::net::endpoint::{endpoint_from_parts, hub_endpoint};
use agentsync_core::constants::{DEFAULT_LISTEN_ADDR, DEFAULT_LISTEN_ADDR_NO_TLS, DEFAULT_PORT};

#[test]
fn passthrough_preserves_explicit_scheme() {
    assert_eq!(normalize_rendezvous_url("wss://127.0.0.1"), "wss://127.0.0.1");
    assert_eq!(normalize_rendezvous_url("wss://127.0.0.1:9999"), "wss://127.0.0.1:9999");
    assert_eq!(normalize_rendezvous_url("wss://h.example/api?x=1"), "wss://h.example/api?x=1");
    assert_eq!(normalize_rendezvous_url("ws://my-hub:8080"), "ws://my-hub:8080");
}

#[test]
fn missing_scheme_defaults_to_wss() {
    assert_eq!(normalize_rendezvous_url("my-hub"), "wss://my-hub");
    assert_eq!(normalize_rendezvous_url("my-hub:8443"), "wss://my-hub:8443");
    assert_eq!(normalize_rendezvous_url("hub.example.com"), "wss://hub.example.com");
    assert_eq!(normalize_rendezvous_url("127.0.0.1:9999"), "wss://127.0.0.1:9999");
}

#[test]
fn no_tls_defaults_to_ws() {
    assert_eq!(normalize_with_scheme("my-hub", true), "ws://my-hub");
    assert_eq!(normalize_with_scheme("my-hub:8080", true), "ws://my-hub:8080");
    assert_eq!(normalize_with_scheme("wss://my-hub", true), "wss://my-hub");
}

#[test]
fn other_scheme_left_alone() {
    assert_eq!(normalize_rendezvous_url("http://h.example"), "http://h.example");
}

#[test]
fn whitespace_trimmed() {
    assert_eq!(normalize_rendezvous_url("  my-hub  "), "wss://my-hub");
}

#[test]
fn scheme_needs_a_leading_letter() {
    assert_eq!(normalize_rendezvous_url("1x://h"), "wss://1x://h");
    assert_eq!(normalize_rendezvous_url("a+b.c-d://h"), "a+b.c-d://h");
}

#[test]
fn listen_defaults() {
    assert_eq!(DEFAULT_PORT, 443);
    assert_eq!(DEFAULT_LISTEN_ADDR, "0.0.0.0:443");
    assert_eq!(DEFAULT_LISTEN_ADDR_NO_TLS, "0.0.0.0:80");
}

#[test]
fn hub_endpoint_reads_host_and_port() {
    assert_eq!(hub_endpoint("wss://h.example:9999/api").unwrap(), ("h.example".to_string(), 9999));
    assert_eq!(hub_endpoint("wss://h.example").unwrap(), ("h.example".to_string(), DEFAULT_PORT));
    assert_eq!(hub_endpoint("ws://127.0.0.1:8080").unwrap(), ("127.0.0.1".to_string(), 8080));
    // Without a port, the scheme's own: 443 for wss, 80 for ws.
    assert_eq!(hub_endpoint("ws://my-hub").unwrap(), ("my-hub".to_string(), 80));
    assert_eq!(hub_endpoint("ws://my-hub:80").unwrap(), ("my-hub".to_string(), 80));
    assert_eq!(hub_endpoint("wss://my-hub:443").unwrap(), ("my-hub".to_string(), 443));
}

#[test]
fn hub_endpoint_refusals() {
    match hub_endpoint("https://h.example") {
        Err(Error::Network(m)) => assert_eq!(m, "unsupported scheme \"https\" (expected wss://)"),
        other => panic!("unexpected {:?}", other),
    }
    match hub_endpoint("not a url") {
        Err(Error::Network(m)) => assert!(m.starts_with("parse url: ") && m.len() > "parse url: ".len()),
        other => panic!("unexpected {:?}", other),
    }
    assert_eq!(endpoint_from_parts(Ok(("ws".to_string(), Some("h".to_string()), None))).unwrap(), ("h".to_string(), 80));
    match endpoint_from_parts(Ok(("wss".to_string(), None, None))) {
        Err(Error::Network(m)) => assert_eq!(m, "url missing host"),
        other => panic!("unexpected {:?}", other),
    }
    assert_eq!(
        endpoint_from_parts(Ok(("ws".to_string(), Some("h".to_string()), Some(7)))).unwrap(),
        ("h".to_string(), 7)
    );
}
