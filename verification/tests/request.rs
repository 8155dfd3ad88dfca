use petbuddy::notify::request::{content_length, find_subslice, header_value, is_allowed_host};

#[test]
fn find_subslice_basic() {
    assert_eq!(find_subslice(b"abc\r\n\r\ndef", b"\r\n\r\n"), Some(3));
    assert_eq!(find_subslice(b"nope", b"\r\n\r\n"), None);
    assert_eq!(find_subslice(b"ab", b"abcd"), None);
}

#[test]
fn find_subslice_empty_needle_returns_none() {
    assert_eq!(find_subslice(b"abc", b""), None);
}

#[test]
fn find_subslice_returns_first_occurrence() {
    assert_eq!(find_subslice(b"xxaxaxa", b"xa"), Some(1));
    assert_eq!(find_subslice(b"abab", b"abab"), Some(0));
    assert_eq!(find_subslice(b"aaab", b"ab"), Some(2));
}

#[test]
fn header_value_is_case_insensitive() {
    let h = "POST /notify HTTP/1.1\r\nHost: 127.0.0.1\r\nContent-Length: 12";
    assert_eq!(header_value(h, "host"), Some("127.0.0.1"));
    assert_eq!(header_value(h, "HOST"), Some("127.0.0.1"));
    assert_eq!(header_value(h, "Content-LENGTH"), Some("12"));
}

#[test]
fn header_value_missing_returns_none() {
    let h = "POST /notify HTTP/1.1\r\nHost: 127.0.0.1";
    assert_eq!(header_value(h, "x-custom"), None);
}

#[test]
fn header_value_keeps_colon_in_value() {
    let h = "POST /notify HTTP/1.1\r\nHost: [::1]:8756";
    assert_eq!(header_value(h, "host"), Some("[::1]:8756"));
}

#[test]
fn header_value_request_line_is_not_matched() {
    let h = "POST /notify HTTP/1.1\r\nHost: localhost";
    assert_eq!(header_value(h, "post /notify http/1.1"), None);
}

#[test]
fn header_value_first_line_wins_and_trims() {
    let h = "A:  one \r\n a : two\r\n\r\n";
    assert_eq!(header_value(h, "a"), Some("one"));
    assert_eq!(header_value("X:\r\n", "x"), Some(""));
    assert_eq!(header_value("", "x"), None);
}

#[test]
fn content_length_parsed() {
    let h = "POST /notify HTTP/1.1\r\nContent-Length: 42";
    assert_eq!(content_length(h), Some(42));
}

#[test]
fn content_length_missing_or_invalid_is_none() {
    let h = "POST /notify HTTP/1.1\r\nHost: localhost";
    assert_eq!(content_length(h), None);
    assert_eq!(content_length("Content-Length: abc"), None);
    assert_eq!(content_length("Content-Length: -1"), None);
}

#[test]
fn content_length_edge_forms() {
    assert_eq!(content_length("Content-Length: +7"), Some(7));
    assert_eq!(content_length("Content-Length: +"), None);
    assert_eq!(content_length("Content-Length: "), None);
    assert_eq!(content_length("content-length: 007"), Some(7));
    assert_eq!(
        content_length("Content-Length: 99999999999999999999999999"),
        None
    );
}

#[test]
fn allows_loopback_hosts() {
    for h in [
        "127.0.0.1",
        "127.0.0.1:8756",
        "localhost",
        "localhost:8756",
        "[::1]",
        "[::1]:8756",
    ] {
        assert!(is_allowed_host(Some(h)), "应允许: {h}");
    }
}

#[test]
fn rejects_non_loopback_hosts() {
    for h in [
        "evil.com",
        "127.0.0.1.evil.com",
        "192.168.1.5",
        "0.0.0.0",
        "[::2]",
        "",
        "   ",
    ] {
        assert!(!is_allowed_host(Some(h)), "应拒绝: {h:?}");
    }
}

#[test]
fn rejects_missing_host() {
    assert!(!is_allowed_host(None));
}

#[test]
fn host_comparison_ignores_case() {
    assert!(is_allowed_host(Some("LOCALHOST")));
    assert!(is_allowed_host(Some("LocalHost:8756")));
}

#[test]
fn rejects_malformed_ipv6_literal() {
    assert!(!is_allowed_host(Some("[::1")));
}

#[test]
fn host_surrounding_whitespace_is_ignored() {
    assert!(is_allowed_host(Some("  localhost:1 \t")));
    assert!(!is_allowed_host(Some("local host")));
}
