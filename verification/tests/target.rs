use ip_tools::target::{parse_port, Target};

fn target(host: &str, port: u16) -> Target {
    Target { host: host.to_string(), port }
}

#[test]
fn bare_hostname() {
    assert_eq!(Target::parse("github.com", 443).unwrap(), target("github.com", 443));
}

#[test]
fn host_with_port() {
    assert_eq!(Target::parse("example.com:8080", 443).unwrap(), target("example.com", 8080));
}

#[test]
fn ipv4_with_port() {
    assert_eq!(Target::parse("1.2.3.4:443", 443).unwrap(), target("1.2.3.4", 443));
}

#[test]
fn bare_ipv6_literal() {
    assert_eq!(Target::parse("2001:db8::1", 443).unwrap(), target("2001:db8::1", 443));
}

#[test]
fn bracketed_ipv6_with_port() {
    assert_eq!(Target::parse("[2001:db8::1]:8443", 443).unwrap(), target("[2001:db8::1]", 8443));
}

#[test]
fn bracketed_ipv6_without_port_takes_the_default() {
    assert_eq!(Target::parse("[::1]", 8443).unwrap(), target("[::1]", 8443));
}

#[test]
fn rejects_bad_port() {
    assert!(Target::parse("example.com:notaport", 443).is_err());
    assert!(Target::parse("example.com:99999", 443).is_err());
    assert!(Target::parse("", 443).is_err());
}

#[test]
fn rejects_unterminated_or_empty_brackets() {
    // A stray '[' with no closing bracket is malformed.
    assert!(Target::parse("[", 443).is_err());
    assert!(Target::parse("[::1", 443).is_err());
    // "[]" claims to be a literal but names no address.
    let err = Target::parse("[]", 443).unwrap_err().to_text();
    assert!(err.contains("[]"), "empty-bracket error should name the input: {err}");
}

#[test]
fn pasted_url_gets_a_scheme_hint() {
    for input in ["https://example.com", "http://example.com:8080", "https://[::1]:443"] {
        let err = Target::parse(input, 443).unwrap_err().to_text();
        assert!(err.contains("looks like a URL"), "scheme hint missing for {input}: {err}");
    }
}

#[test]
fn userinfo_prefix_gets_an_at_hint() {
    let err = Target::parse("user@example.com:443", 443).unwrap_err().to_text();
    assert!(
        err.contains("user@host") && err.contains("user@"),
        "userinfo hint missing: {err}"
    );
}

#[test]
fn ports_are_sixteen_bits_wide() {
    assert_eq!(parse_port("65535", "h:65535").unwrap(), 65535);
    assert!(parse_port("65536", "h:65536").is_err());
    assert!(parse_port("", "h:").is_err());
}

#[test]
fn empty_brackets_name_no_address_whatever_follows() {
    for input in ["[]:443", "[]:", "[]:99999", "[]x"] {
        let err = Target::parse(input, 443).unwrap_err().to_text();
        assert!(err.contains(input) && err.contains("empty address"), "{err}");
    }
}
