use ip_tools::http::{collect_response_headers, RawHeader};
use ip_tools::http_common::{
    body_snippet_string, http_error, push_body_snippet, push_bounded_body, uri_authority, uri_authority_at,
    wire_authority, wire_host, BODY_SNIPPET_BYTES,
};
use ip_tools::model::FailureKind;

#[test]
fn wire_host_strips_brackets_only() {
    assert_eq!(wire_host("[::1]"), "::1");
    assert_eq!(wire_host("[2001:db8::1]"), "2001:db8::1");
    assert_eq!(wire_host("::1"), "::1");
    assert_eq!(wire_host("vhost.example"), "vhost.example");
    assert_eq!(wire_host("1.2.3.4"), "1.2.3.4");
}

#[test]
fn uri_authority_rebrackets_a_bare_ipv6_literal() {
    assert_eq!(uri_authority("[::1]"), "[::1]");
    assert_eq!(uri_authority("::1"), "[::1]");
    assert_eq!(uri_authority("vhost.example"), "vhost.example");
    assert_eq!(uri_authority("1.2.3.4"), "1.2.3.4");
}

#[test]
fn wire_authority_appends_only_a_non_default_port() {
    assert_eq!(wire_authority("example.com", 443, true), "example.com");
    assert_eq!(wire_authority("example.com", 80, false), "example.com");
    assert_eq!(wire_authority("example.com", 8080, true), "example.com:8080");
    assert_eq!(wire_authority("example.com", 8080, false), "example.com:8080");
    // A port that is default for one scheme is non-default for the other.
    assert_eq!(wire_authority("example.com", 443, false), "example.com:443");
    assert_eq!(wire_authority("example.com", 80, true), "example.com:80");
    // IPv4 and IPv6 literals (brackets stripped) behave the same.
    assert_eq!(wire_authority("1.2.3.4", 443, true), "1.2.3.4");
    assert_eq!(wire_authority("1.2.3.4", 8443, true), "1.2.3.4:8443");
    assert_eq!(wire_authority("[2001:db8::1]", 8443, true), "2001:db8::1:8443");
    assert_eq!(wire_authority("[::1]", 443, true), "::1");
    // An unset port (0) is treated as "not named".
    assert_eq!(wire_authority("example.com", 0, true), "example.com");
}

#[test]
fn uri_authority_at_appends_only_a_non_443_port() {
    assert_eq!(uri_authority_at("example.com", 443), "example.com");
    assert_eq!(uri_authority_at("example.com", 8080), "example.com:8080");
    assert_eq!(uri_authority_at("::1", 443), "[::1]");
    assert_eq!(uri_authority_at("::1", 8443), "[::1]:8443");
    assert_eq!(uri_authority_at("[::1]", 8443), "[::1]:8443");
    assert_eq!(uri_authority_at("1.2.3.4", 8443), "1.2.3.4:8443");
}

#[test]
fn cap_truncates_a_oversized_chunk_to_the_remaining_budget() {
    let mut snippet = Vec::new();
    let mut read = 0u64;
    let capped = push_bounded_body(&mut snippet, None, &mut read, 5, b"abcdefghij");
    assert_eq!(read, 5, "only the cap budget is consumed");
    assert_eq!(snippet, b"abcde");
    assert!(capped, "reaching the cap must flag the end");
}

#[test]
fn zero_cap_reads_nothing_but_is_immediately_capped() {
    let mut snippet = Vec::new();
    let mut read = 0u64;
    let capped = push_bounded_body(&mut snippet, None, &mut read, 0, b"hello");
    assert_eq!(read, 0);
    assert!(snippet.is_empty());
    assert!(capped);
}

#[test]
fn accumulation_stops_exactly_at_the_cap_across_chunks() {
    let mut snippet = Vec::new();
    let mut read = 0u64;
    assert!(!push_bounded_body(&mut snippet, None, &mut read, 10, b"abcdef"));
    assert!(
        push_bounded_body(&mut snippet, None, &mut read, 10, b"ghij"),
        "the chunk crossing the cap flags the end"
    );
    assert_eq!(read, 10);
    assert_eq!(snippet, b"abcdefghij");

    // A further chunk (would only appear if the caller ignored the flag)
    // retains nothing.
    assert!(push_bounded_body(&mut snippet, None, &mut read, 10, b"xxxx"));
    assert_eq!(read, 10);
    assert_eq!(snippet, b"abcdefghij");
}

#[test]
fn header_cap_is_applied_after_filtering() {
    let raw = |name: &str, value: &str| -> RawHeader { (name.to_string(), value.as_bytes().to_vec()) };
    let mut map = hyper::HeaderMap::new();
    map.insert("location", hyper::header::HeaderValue::from_static("/moved"));
    for i in 0..24 {
        let name = hyper::header::HeaderName::from_bytes(format!("x-hdr-{i}").as_bytes()).expect("valid header name");
        map.append(name, hyper::header::HeaderValue::from_static("v"));
    }
    let headers: Vec<RawHeader> =
        map.iter().map(|(n, v)| (n.as_str().to_string(), v.as_bytes().to_vec())).collect();
    let collected = collect_response_headers(&headers);
    assert_eq!(collected.len(), 24, "all 24 valid headers survive the filter-first cap");
    assert!(
        collected.iter().all(|(n, _)| !n.eq_ignore_ascii_case("location")),
        "Location must be excluded before the cap: {collected:?}"
    );
    assert_eq!(collected[0].0, "x-hdr-0", "iteration order preserved: {collected:?}");

    // A value that is not valid UTF-8 is skipped without taking a slot.
    let mut odd = vec![("x-odd".to_string(), vec![0xff])];
    odd.push(raw("server", "nginx"));
    assert_eq!(collect_response_headers(&odd), vec![("server".to_string(), "nginx".to_string())]);
}

#[test]
fn retained_output_body_obeys_the_same_cap() {
    let mut full = Vec::new();
    let mut snippet = Vec::new();
    let mut read = 0u64;
    push_bounded_body(&mut snippet, Some(&mut full), &mut read, 4, b"abcdefgh");
    assert_eq!(full, b"abcd", "the --output-body copy must not exceed the cap");
    assert_eq!(read, 4);
}

#[test]
fn http_error_names_the_step() {
    let e = http_error("handshake", "boom");
    assert_eq!(e.kind, FailureKind::Http);
    assert_eq!(e.message, "handshake failed: boom");
}

#[test]
fn snippet_is_bounded_and_marked_when_cut() {
    let mut snippet = Vec::new();
    push_body_snippet(&mut snippet, &vec![b'a'; BODY_SNIPPET_BYTES + 10]);
    assert_eq!(snippet.len(), BODY_SNIPPET_BYTES);
    assert_eq!(body_snippet_string(&[], true), None);
    assert_eq!(body_snippet_string(b"hi", false), Some("hi".to_string()));
    // Invalid UTF-8 is shown with the replacement character.
    assert_eq!(body_snippet_string(&[b'a', 0xff], false), Some("a\u{fffd}".to_string()));
}

#[test]
fn header_values_beyond_ascii_are_kept() {
    let headers: Vec<RawHeader> = vec![
        ("x-name".to_string(), vec![0xC3, 0xA9]),
        ("x-cut".to_string(), vec![0xC3]),
        ("x-empty".to_string(), Vec::new()),
    ];
    assert_eq!(
        collect_response_headers(&headers),
        vec![("x-name".to_string(), "\u{e9}".to_string()), ("x-empty".to_string(), String::new())]
    );
}
