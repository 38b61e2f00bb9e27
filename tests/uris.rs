use neo4j_testcontainers::text::{compare_text, decimal_text};
use neo4j_testcontainers::Neo4j;
use std::cmp::Ordering;

#[test]
fn bolt_uris() {
    assert_eq!(Neo4j::bolt_uri_ipv4(7687), "bolt://127.0.0.1:7687");
    assert_eq!(Neo4j::bolt_uri_ipv6(49153), "bolt://[::1]:49153");
    assert_eq!(Neo4j::uri_ipv4(1), "bolt://127.0.0.1:1");
    assert_eq!(Neo4j::uri_ipv6(65535), "bolt://[::1]:65535");
}

#[test]
fn http_uris() {
    assert_eq!(Neo4j::http_uri_ipv4(7474), "http://127.0.0.1:7474");
    assert_eq!(Neo4j::http_uri_ipv6(0), "http://[::1]:0");
}

#[test]
fn decimal_rendering() {
    assert_eq!(decimal_text(0), "0");
    assert_eq!(decimal_text(9), "9");
    assert_eq!(decimal_text(10), "10");
    assert_eq!(decimal_text(1234567), "1234567");
    assert_eq!(decimal_text(usize::MAX), usize::MAX.to_string());
}

#[test]
fn text_comparison() {
    assert_eq!(compare_text("apoc", "apoc-core"), Ordering::Less);
    assert_eq!(compare_text("bloom", "apoc"), Ordering::Greater);
    assert_eq!(compare_text("n10s", "n10s"), Ordering::Equal);
    assert_eq!(compare_text("", ""), Ordering::Equal);
    assert_eq!(compare_text("", "a"), Ordering::Less);
    assert_eq!(compare_text("Z", "a"), Ordering::Less);
}
