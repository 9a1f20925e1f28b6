//! Target-template building, address selection, and header parsing.

use rewrk::parse::{parse_header, HeaderParseError};
use rewrk::request::{Request, Scheme, SockAddr, TemplateError};

fn v4(a: u8, b: u8, c: u8, d: u8, port: u16) -> SockAddr {
    SockAddr::V4 { octets: [a, b, c, d], port }
}

fn v6(port: u16) -> SockAddr {
    SockAddr::V6 { segments: [0, 0, 0, 0, 0, 0, 0, 1], port, flowinfo: 0, scope_id: 0 }
}

#[test]
fn default_ports() {
    assert_eq!(Scheme::Http.default_port(), 80);
    assert_eq!(Scheme::Https.default_port(), 443);
}

#[test]
fn prepare_plain_http_target() {
    let t = Request::prepare("http://example.com/path", "GET".to_string(), vec![], vec![])
        .expect("valid target");
    assert_eq!(t.scheme, Scheme::Http);
    assert_eq!(t.host, "example.com");
    assert_eq!(t.host_header, "example.com");
    assert_eq!(t.port, 80);
    assert_eq!(t.uri, "http://example.com/path");
    assert_eq!(t.method, "GET");
}

#[test]
fn prepare_tls_target_with_explicit_port() {
    let t = Request::prepare("https://example.com:8443/x", "POST".to_string(), vec![], vec![1, 2])
        .expect("valid target");
    assert_eq!(t.scheme, Scheme::Https);
    assert_eq!(t.port, 8443);
    assert_eq!(t.body, vec![1, 2]);
}

#[test]
fn prepare_defaults_missing_scheme_to_http() {
    // Authority form: no scheme, so plain HTTP is assumed.
    let t = Request::prepare("example.com:9000", "GET".to_string(), vec![], vec![])
        .expect("valid target");
    assert_eq!(t.scheme, Scheme::Http);
    assert_eq!(t.host, "example.com");
    assert_eq!(t.port, 9000);
}

#[test]
fn prepare_rejects_unsupported_scheme() {
    let e = Request::prepare("ftp://example.com/", "GET".to_string(), vec![], vec![])
        .expect_err("ftp is unsupported");
    assert_eq!(e, TemplateError::UnsupportedScheme);
    assert_eq!(e.message(), "invalid scheme");
}

#[test]
fn prepare_rejects_missing_host() {
    let e = Request::prepare("/just/a/path", "GET".to_string(), vec![], vec![])
        .expect_err("no authority");
    assert_eq!(e, TemplateError::MissingHost);
    assert_eq!(e.message(), "host not present on uri");
}

#[test]
fn prepare_rejects_malformed_url() {
    let e = Request::prepare("http://exa mple.com/", "GET".to_string(), vec![], vec![])
        .expect_err("space in authority");
    assert_eq!(e, TemplateError::InvalidUri);
    assert_eq!(e.message(), "invalid uri");
}

#[test]
fn resolve_prefers_first_ipv4_address() {
    let t = Request::prepare("http://example.com/", "GET".to_string(), vec![], vec![])
        .expect("valid target");
    let addrs = vec![v6(80), v4(10, 0, 0, 1, 80), v4(10, 0, 0, 2, 80)];
    let r = t.resolve(&addrs).expect("resolved");
    match r.addr {
        SockAddr::V4 { octets, port } => {
            assert_eq!(octets, [10, 0, 0, 1]);
            assert_eq!(port, 80);
        },
        SockAddr::V6 { .. } => panic!("expected the first IPv4 address"),
    }
}

#[test]
fn resolve_takes_last_address_without_ipv4() {
    let t = Request::prepare("http://example.com/", "GET".to_string(), vec![], vec![])
        .expect("valid target");
    let addrs = vec![v6(80), v6(81)];
    let r = t.resolve(&addrs).expect("resolved");
    match r.addr {
        SockAddr::V6 { port, .. } => assert_eq!(port, 81),
        SockAddr::V4 { .. } => panic!("expected the last address"),
    }
}

#[test]
fn resolve_fails_on_empty_resolution() {
    let t = Request::prepare("http://example.com/", "GET".to_string(), vec![], vec![])
        .expect("valid target");
    let e = t.resolve(&vec![]).expect_err("nothing resolved");
    assert_eq!(e, TemplateError::ResolutionFailed);
    assert_eq!(e.message(), "hostname lookup failed");
}

#[test]
fn parse_header_splits_and_lowercases() {
    let (name, value) = parse_header("Content-Type: application/json").expect("valid header");
    assert_eq!(name, "content-type");
    assert_eq!(value, "application/json");
}

#[test]
fn parse_header_keeps_value_verbatim_after_first_separator() {
    let (name, value) = parse_header("X-Note: a: b: c").expect("valid header");
    assert_eq!(name, "x-note");
    assert_eq!(value, "a: b: c");
}

#[test]
fn parse_header_requires_separator() {
    let e = parse_header("NoSeparatorHere").expect_err("no separator");
    assert_eq!(e, HeaderParseError::MissingSeparator);
    assert_eq!(e.message(), "Header value missing colon (\": \")");
}

#[test]
fn parse_header_rejects_empty_name() {
    let e = parse_header(": value").expect_err("empty name");
    assert_eq!(e, HeaderParseError::InvalidName);
    assert_eq!(e.message(), "Invalid header name");
}

#[test]
fn parse_header_rejects_bad_name_character() {
    let e = parse_header("Bad Name: value").expect_err("space in name");
    assert_eq!(e, HeaderParseError::InvalidName);
}

#[test]
fn parse_header_rejects_control_character_in_value() {
    let e = parse_header("X-Key: bad\u{1}value").expect_err("control in value");
    assert_eq!(e, HeaderParseError::InvalidValue);
    assert_eq!(e.message(), "Invalid header value");
}
