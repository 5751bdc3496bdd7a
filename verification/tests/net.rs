use ip_tools::net::{IpAddr, Ipv6Addr, SocketAddr};

#[test]
fn addresses_read_back_as_written() {
    for text in [
        "0.0.0.0",
        "192.0.2.255",
        "::",
        "::1",
        "2001:db8::1",
        "2001:db8:0:1:1:1:1:1",
        "fe80::1:0:0:1",
        "1:0:0:2::3",
        "::ffff:192.0.2.1",
    ] {
        assert_eq!(IpAddr::parse(text).expect(text).to_text(), text);
    }
    for text in ["192.0.2.1:80", "[::1]:443", "[fe80::1%3]:53"] {
        assert_eq!(SocketAddr::parse(text).expect(text).to_text(), text);
    }
}

#[test]
fn addresses_have_a_shortest_form() {
    assert_eq!(IpAddr::parse("2001:0db8:0000:0000:0000:0000:0000:0001").unwrap().to_text(), "2001:db8::1");
    assert_eq!(IpAddr::parse("::FFFF:c000:0201").unwrap().to_text(), "::ffff:192.0.2.1");
    let ip = Ipv6Addr::from_segments(&[1, 0, 0, 0, 5, 0, 0, 0]);
    assert_eq!(IpAddr::V6(ip).to_text(), "1::5:0:0:0");
}

#[test]
fn malformed_addresses_are_refused() {
    for text in [
        "", "1.2.3", "1.2.3.4.5", "256.0.0.1", "01.2.3.4", "1.2.3.4 ", ":::", "1::2::3", "12345::", "::g", "1:2:3:4:5:6:7",
        "1:2:3:4:5:6:7:8:9", "[::1]",
    ] {
        assert!(IpAddr::parse(text).is_none(), "{text:?}");
    }
    for text in ["192.0.2.1", "::1:80", "[::1]", "[::1]:", "192.0.2.1:65536", "host:80"] {
        assert!(SocketAddr::parse(text).is_none(), "{text:?}");
    }
}

#[test]
fn compressed_and_mixed_forms_are_read() {
    for (text, shown) in [
        ("1::", "1::"),
        ("::1.2.3.4", "::102:304"),
        ("1:2:3:4:5:6:1.2.3.4", "1:2:3:4:5:6:102:304"),
        ("1:2:3:4:5:6:7::", "1:2:3:4:5:6:7:0"),
        ("::2:3:4:5:6:7:8", "0:2:3:4:5:6:7:8"),
        ("0:0:0:0:0:0:0:0", "::"),
    ] {
        assert_eq!(IpAddr::parse(text).expect(text).to_text(), shown);
    }
    for text in ["1.2.3.04", "1:2:3:4:5:6:7:1.2.3.4", "1:2:3:4::5:6:7:8", "a.b.c.d", "1.2.3.4:", "::1%1"] {
        assert!(IpAddr::parse(text).is_none(), "{text:?}");
    }
}
