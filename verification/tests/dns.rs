use ip_tools::dns::endpoint::{base64url, parse_doh_url, parse_dot_endpoint, rcode_name};
use ip_tools::dns::outcome::{aggregate_repeat, dot_frame, dot_length, record_from_rdata, RData};
use ip_tools::dns::wire::{build_query, parse_dns_response, read_name, skip_name};
use ip_tools::model::{DnsObservation, DnsRecord, DnsRecordType, FailureKind, ProbeError, ResolverKind};
use ip_tools::net::{IpAddr, Ipv4Addr, SocketAddr};

/// Wrap an IP string as an address record (A/AAAA).
fn addr_rec(ip: &str) -> DnsRecord {
    match IpAddr::parse(ip).unwrap() {
        IpAddr::V4(v) => DnsRecord::A(v),
        IpAddr::V6(v) => DnsRecord::Aaaa(v),
    }
}

fn shown(records: &[DnsRecord]) -> Vec<String> {
    records.iter().map(|r| format!("{r:?}")).collect()
}

fn same_records(a: &[DnsRecord], b: &[DnsRecord]) {
    assert_eq!(shown(a), shown(b));
}

#[test]
fn build_query_accepts_a_single_trailing_root_dot() {
    let bare = build_query("example.com", DnsRecordType::A).unwrap();
    let trailing = build_query("example.com.", DnsRecordType::A).unwrap();
    assert_eq!(bare, trailing, "a trailing root dot must not change the question");
    assert!(build_query("example.com..", DnsRecordType::A).is_err());
    assert!(build_query(".", DnsRecordType::A).is_err());
    let mut expected = vec![7];
    expected.extend_from_slice(b"example");
    expected.push(3);
    expected.extend_from_slice(b"com");
    expected.push(0);
    assert!(trailing[12..].starts_with(&expected));
}

fn observation(addr: SocketAddr, record: Option<&str>, ttl: Option<u32>, error: Option<(FailureKind, &str)>) -> DnsObservation {
    DnsObservation {
        hostname: "host.example".to_string(),
        resolver: ResolverKind::Custom(addr),
        record_type: DnsRecordType::A,
        records: record.map(addr_rec).into_iter().collect(),
        ttl,
        latency_ms: if error.is_none() { Some(3) } else { None },
        error: error.map(|(kind, message)| ProbeError { kind, message: message.to_string() }),
    }
}

#[test]
fn aggregate_repeat_buckets_failures_and_keeps_resolver_identity() {
    let addr = SocketAddr::parse("192.0.2.53:53").expect("static addr");
    let bucket = vec![
        observation(addr, Some("192.0.2.1"), Some(60), None),
        observation(addr, Some("192.0.2.2"), Some(30), None),
        observation(addr, None, None, Some((FailureKind::Dns, "SERVFAIL"))),
        observation(addr, None, None, Some((FailureKind::Timeout, "timed out"))),
    ];
    let r = aggregate_repeat(&bucket, DnsRecordType::A, 3);
    assert!(matches!(r.resolver, ResolverKind::Custom(a) if a == addr));
    assert_eq!(r.attempts, 3);
    assert_eq!(r.successes, 2);
    assert_eq!(r.failures, 1);
    assert_eq!(r.latency.count, 2);
    assert_eq!(r.latency.min, Some(3));
    // The minimum TTL across the successful answers is the caching bound.
    assert_eq!(r.ttl, Some(30));
    // Failure distribution: one Dns (SERVFAIL) + one Timeout.
    let kinds: Vec<FailureKind> = r.failure_counts.iter().map(|f| f.kind).collect();
    assert!(kinds.contains(&FailureKind::Dns));
    assert!(kinds.contains(&FailureKind::Timeout));
    assert!(r.failure_counts.iter().all(|f| f.count == 1));
}

#[test]
fn base64url_encodes_without_padding() {
    assert_eq!(base64url(b""), "");
    assert_eq!(base64url(b"f"), "Zg");
    assert_eq!(base64url(b"fo"), "Zm8");
    assert_eq!(base64url(b"foobar"), "Zm9vYmFy");
    // URL-safe alphabet: 0xFB 0xEF 0xFF -> 111110 111110 111111 111111
    assert_eq!(base64url(&[0xFB, 0xEF, 0xFF]), "--__");
}

#[test]
fn doh_url_is_parsed_into_host_port_path() {
    assert_eq!(
        parse_doh_url("https://1.1.1.1/dns-query").unwrap(),
        ("1.1.1.1".to_string(), 443, "/dns-query".to_string())
    );
    assert_eq!(
        parse_doh_url("https://cloudflare-dns.com").unwrap(),
        ("cloudflare-dns.com".to_string(), 443, "/dns-query".to_string())
    );
    assert_eq!(
        parse_doh_url("https://dns.google:443/resolve").unwrap(),
        ("dns.google".to_string(), 443, "/resolve".to_string())
    );
    assert_eq!(
        parse_doh_url("https://[::1]:8853/dns-query").unwrap(),
        ("::1".to_string(), 8853, "/dns-query".to_string())
    );
    assert!(parse_doh_url("http://1.1.1.1/dns-query").is_err());
    assert!(parse_doh_url("https://").is_err());
    assert!(parse_doh_url("").is_err());
}

#[test]
fn doh_url_strips_query_and_fragment_from_the_path() {
    assert_eq!(
        parse_doh_url("https://1.1.1.1/resolve?key=abc").unwrap(),
        ("1.1.1.1".to_string(), 443, "/resolve".to_string())
    );
    assert_eq!(
        parse_doh_url("https://1.1.1.1/resolve#frag").unwrap(),
        ("1.1.1.1".to_string(), 443, "/resolve".to_string())
    );
    assert_eq!(
        parse_doh_url("https://1.1.1.1/resolve?key=abc#frag").unwrap(),
        ("1.1.1.1".to_string(), 443, "/resolve".to_string())
    );
}

#[test]
fn doh_url_rejects_malformed_authorities() {
    // Unterminated bracket: the closing ']' is missing.
    assert!(parse_doh_url("https://[::1/dns-query").is_err());
    assert!(parse_doh_url("https://1.1.1.1").is_ok());
    // Non-numeric port (bracketed or plain form) is rejected.
    assert!(parse_doh_url("https://[::1]:dns/dns-query").is_err());
    assert!(parse_doh_url("https://example.com:port/dns-query").is_err());
    // Empty host is rejected.
    assert!(parse_doh_url("https://:443/dns-query").is_err());
    // A bare IPv6 literal must be bracketed.
    assert!(
        parse_doh_url("https://::1/dns-query").is_err(),
        "unbracketed IPv6 authority must be rejected up front"
    );
    assert!(parse_doh_url("https://a:b:c/dns-query").is_err());
}

#[test]
fn query_builds_a_standard_message() {
    let q = build_query("host.example", DnsRecordType::A).unwrap();
    // 12-byte header: id 0, flags RD, QDCOUNT 1, then NS/AR counts of 0
    assert_eq!(&q[0..4], &[0, 0, 0x01, 0x00]);
    assert_eq!(&q[4..6], &[0x00, 0x01]);
    assert_eq!(&q[6..12], &[0, 0, 0, 0, 0, 0]);
    assert_eq!(
        &q[12..],
        &[4, b'h', b'o', b's', b't', 7, b'e', b'x', b'a', b'm', b'p', b'l', b'e', 0, 0, 1, 0, 1]
    );
    // AAAA uses qtype 28
    let q6 = build_query("host.example", DnsRecordType::Aaaa).unwrap();
    assert_eq!(&q6[q6.len() - 4..], &[0, 28, 0, 1]);
    // PTR uses qtype 12
    let qptr = build_query("77.2.0.192.in-addr.arpa", DnsRecordType::Ptr).unwrap();
    assert_eq!(&qptr[qptr.len() - 4..], &[0, 12, 0, 1]);
    assert!(build_query("foo..example", DnsRecordType::A).is_err()); // empty label
    assert!(build_query(&"a".repeat(64), DnsRecordType::A).is_err()); // label > 63 bytes
    assert!(build_query("", DnsRecordType::A).is_err());
}

#[test]
fn parses_answers_with_compression_pointers() {
    let mut bytes = Vec::new();
    bytes.extend_from_slice(&[0x12, 0x34, 0x81, 0x80, 0, 1, 0, 2, 0, 0, 0, 0]); // header
    bytes.extend_from_slice(&[
        4, b'h', b'o', b's', b't', 7, b'e', b'x', b'a', b'm', b'p', b'l', b'e', 0,
    ]); // name
    bytes.extend_from_slice(&[0, 1, 0, 1]); // qtype A, qclass IN
    bytes.extend_from_slice(&[0xC0, 0x0C, 0, 1, 0, 1, 0, 0, 0, 60, 0, 4]); // ptr -> A
    bytes.extend_from_slice(&[192, 0, 2, 77]);
    bytes.extend_from_slice(&[0xC0, 0x0C, 0, 28, 0, 1, 0, 0, 0, 60, 0, 16]); // ptr -> AAAA
    bytes.extend_from_slice(&[0x20, 0x01, 0x0d, 0xb8, 0, 0, 0, 0, 0, 0, 0, 0, 0, 0, 0, 0x77]);

    let a = parse_dns_response(&bytes, DnsRecordType::A).unwrap();
    assert_eq!(a.rcode, 0, "NOERROR expected");
    same_records(&a.records, &[addr_rec("192.0.2.77")]);
    let aaaa = parse_dns_response(&bytes, DnsRecordType::Aaaa).unwrap();
    assert_eq!(aaaa.rcode, 0);
    same_records(&aaaa.records, &[addr_rec("2001:db8::77")]);

    // A response code (e.g. NXDOMAIN=3) is surfaced, not read as success.
    let mut nxdomain = bytes.clone();
    nxdomain[3] = 0x80 | 0x03; // flags 0x8183, rcode NXDomain
    nxdomain[7] = 0; // ANCOUNT 0: NXDOMAIN carries no answers
    let nx = parse_dns_response(&nxdomain, DnsRecordType::A).unwrap();
    assert_eq!(nx.rcode, 3);
    assert!(nx.records.is_empty());

    // malformed messages are rejected, not misread
    assert!(parse_dns_response(&bytes[..6], DnsRecordType::A).is_err());
    let mut bad = bytes.clone();
    bad[7] = 200; // ANCOUNT claims 200 answers: truncated -> rejected
    assert!(parse_dns_response(&bad, DnsRecordType::A).is_err());
    // a pointer loop is detected rather than hanging
    let looped = vec![0x12, 0x34, 0x81, 0x80, 0, 0, 0, 1, 0, 0, 0, 0, 0xC0, 0x0E, 0xC0, 0x0C];
    assert!(parse_dns_response(&looped, DnsRecordType::A).is_err());
}

#[test]
fn rcode_names_cover_common_codes() {
    assert_eq!(rcode_name(0), "NoError");
    assert_eq!(rcode_name(2), "ServFail");
    assert_eq!(rcode_name(3), "NXDomain");
    assert_eq!(rcode_name(5), "Refused");
    assert_eq!(rcode_name(77), "UnknownError");
}

/// Build a one-question DNS message for `host.example` with the given answer
/// (rtype, rdata) pairs.
fn response_with(answers: &[(u16, Vec<u8>)]) -> Vec<u8> {
    response_with_ttls(&answers.iter().map(|(t, d)| (*t, d.clone(), 60u32)).collect::<Vec<_>>())
}

fn response_with_ttls(answers: &[(u16, Vec<u8>, u32)]) -> Vec<u8> {
    let mut bytes = Vec::new();
    let ancount = answers.len() as u16;
    bytes.extend_from_slice(&[0x12, 0x34, 0x81, 0x80, 0, 1, (ancount >> 8) as u8, ancount as u8, 0, 0, 0, 0]);
    bytes.extend_from_slice(&[
        4, b'h', b'o', b's', b't', 7, b'e', b'x', b'a', b'm', b'p', b'l', b'e', 0,
    ]);
    bytes.extend_from_slice(&[0, 1, 0, 1]); // qtype A, qclass IN
    for (rtype, rdata, ttl) in answers {
        bytes.extend_from_slice(&[0xC0, 0x0C]); // owner name ptr -> question
        bytes.extend_from_slice(&rtype.to_be_bytes());
        bytes.extend_from_slice(&[0, 1]); // class IN
        bytes.extend_from_slice(&ttl.to_be_bytes());
        bytes.extend_from_slice(&(rdata.len() as u16).to_be_bytes());
        bytes.extend_from_slice(rdata);
    }
    bytes
}

#[test]
fn parse_dns_response_decodes_wider_record_types() {
    let name_ptr = vec![0xC0, 0x0C]; // compression pointer to "host.example"

    // CNAME and NS carry a single (possibly compressed) name.
    let parsed = parse_dns_response(&response_with(&[(5, name_ptr.clone())]), DnsRecordType::Cname).unwrap();
    same_records(&parsed.records, &[DnsRecord::Cname("host.example".to_string())]);
    let parsed = parse_dns_response(&response_with(&[(2, name_ptr.clone())]), DnsRecordType::Ns).unwrap();
    same_records(&parsed.records, &[DnsRecord::Ns("host.example".to_string())]);

    // PTR (12) also carries a single (possibly compressed) name.
    let parsed = parse_dns_response(&response_with(&[(12, name_ptr)]), DnsRecordType::Ptr).unwrap();
    same_records(&parsed.records, &[DnsRecord::Ptr("host.example".to_string())]);

    // MX is a 2-byte preference followed by a name.
    let mx = vec![0, 10, 0xC0, 0x0C];
    let parsed = parse_dns_response(&response_with(&[(15, mx)]), DnsRecordType::Mx).unwrap();
    same_records(
        &parsed.records,
        &[DnsRecord::Mx { preference: 10, exchange: "host.example".to_string() }],
    );

    // TXT is a sequence of length-prefixed character-strings.
    let txt = vec![6, b'v', b'=', b's', b'p', b'f', b'1'];
    let parsed = parse_dns_response(&response_with(&[(16, txt)]), DnsRecordType::Txt).unwrap();
    same_records(&parsed.records, &[DnsRecord::Txt("v=spf1".to_string())]);

    // SOA is two names plus five 32-bit fields.
    let mut soa = vec![0xC0, 0x0C, 0xC0, 0x0C];
    for n in 2u32..=6 {
        soa.extend_from_slice(&n.to_be_bytes());
    }
    let parsed = parse_dns_response(&response_with(&[(6, soa)]), DnsRecordType::Soa).unwrap();
    same_records(
        &parsed.records,
        &[DnsRecord::Soa(
            "host.example host.example serial 2 refresh 3 retry 4 expire 5 minimum 6".to_string(),
        )],
    );
}

#[test]
fn parse_dns_response_captures_ttl() {
    let parsed = parse_dns_response(&response_with(&[(1, vec![192, 0, 2, 1])]), DnsRecordType::A).unwrap();
    assert_eq!(parsed.ttl, Some(60));
    same_records(&parsed.records, &[DnsRecord::A(Ipv4Addr::new(192, 0, 2, 1))]);
}

#[test]
fn parse_dns_response_ttl_comes_from_the_wanted_record_type() {
    // An A query whose answer section leads with a CNAME (aliasing) must
    // report the A record's TTL, not the CNAME's.
    let name_ptr = vec![0xC0, 0x0C];
    let bytes = response_with_ttls(&[(5, name_ptr, 3600), (1, vec![192, 0, 2, 1], 300)]);
    let parsed = parse_dns_response(&bytes, DnsRecordType::A).unwrap();
    same_records(&parsed.records, &[DnsRecord::A(Ipv4Addr::new(192, 0, 2, 1))]);
    assert_eq!(
        parsed.ttl,
        Some(300),
        "the TTL must be the A record's, not the leading CNAME's"
    );
}

#[test]
fn parse_dns_response_decodes_caa_and_srv() {
    // CAA (257): flags + tag-length + tag + value.
    let mut caa = vec![0u8, 5];
    caa.extend_from_slice(b"issue");
    caa.extend_from_slice(b"letsencrypt.org");
    let parsed = parse_dns_response(&response_with(&[(257, caa)]), DnsRecordType::Caa).unwrap();
    same_records(
        &parsed.records,
        &[DnsRecord::Caa { flags: 0, tag: "issue".to_string(), value: "letsencrypt.org".to_string() }],
    );

    // SRV (33): priority + weight + port + target name.
    let srv = vec![0, 1, 0, 2, 0x1F, 0x90, 0xC0, 0x0C];
    let parsed = parse_dns_response(&response_with(&[(33, srv)]), DnsRecordType::Srv).unwrap();
    same_records(
        &parsed.records,
        &[DnsRecord::Srv { priority: 1, weight: 2, port: 8080, target: "host.example".to_string() }],
    );
}

#[test]
fn record_from_rdata_maps_txt_and_addresses_and_filters_mismatches() {
    let a = RData::A(Ipv4Addr::new(192, 0, 2, 1));
    same_records(
        &record_from_rdata(DnsRecordType::A, &a).into_iter().collect::<Vec<_>>(),
        &[DnsRecord::A(Ipv4Addr::new(192, 0, 2, 1))],
    );
    // A non-address type is decoded from a TXT answer.
    let txt = RData::Txt(vec![b"v=spf1".to_vec()]);
    same_records(
        &record_from_rdata(DnsRecordType::Txt, &txt).into_iter().collect::<Vec<_>>(),
        &[DnsRecord::Txt("v=spf1".to_string())],
    );
    // A type mismatch (asking for MX but getting TXT) is ignored.
    assert!(record_from_rdata(DnsRecordType::Mx, &txt).is_none());
}

#[test]
fn dot_endpoint_is_parsed_into_host_port() {
    assert_eq!(parse_dot_endpoint("1.1.1.1").unwrap(), ("1.1.1.1".to_string(), 853));
    assert_eq!(parse_dot_endpoint("8.8.8.8:8853").unwrap(), ("8.8.8.8".to_string(), 8853));
    assert_eq!(parse_dot_endpoint("dns.google").unwrap(), ("dns.google".to_string(), 853));
    assert_eq!(parse_dot_endpoint("[::1]:8853").unwrap(), ("::1".to_string(), 8853));
    assert!(parse_dot_endpoint("").is_err());
    assert!(parse_dot_endpoint("::1").is_err(), "bare IPv6 needs brackets");
    assert!(parse_dot_endpoint("[::1").is_err(), "unterminated bracket");
    assert!(parse_dot_endpoint("host:notaport").is_err());
}

#[test]
fn resolver_label_is_the_single_spelling_across_variants() {
    assert_eq!(ResolverKind::System.label(), "system");
    assert_eq!(
        ResolverKind::Custom(SocketAddr::parse("127.0.0.1:5399").unwrap()).label(),
        "127.0.0.1:5399"
    );
    assert_eq!(
        ResolverKind::Doh("https://1.1.1.1/dns-query".to_string()).label(),
        "https://1.1.1.1/dns-query"
    );
    assert_eq!(ResolverKind::Dot("1.1.1.1".to_string()).label(), "1.1.1.1 (DoT)");
}

#[test]
fn dns_record_display_escapes_control_bytes_like_hickory() {
    // Control bytes render as the octal `\NNN` spelling (ESC 0x1b -> `\033`),
    // never as a live terminal sequence, while printable ASCII survives.
    let evil = DnsRecord::Cname("\u{1b}[31mEVIL.example".to_string());
    assert_eq!(evil.to_text(), "\\033[31mEVIL.example");
    // Printable (incl. non-ASCII IDN labels) must stay verbatim.
    let idn = DnsRecord::Ns("例子.测试".to_string());
    assert_eq!(idn.to_text(), "例子.测试");
    // Newline and carriage return are also escaped (CSV-cell safety).
    assert_eq!(DnsRecord::Ptr("a\r\nb".to_string()).to_text(), "a\\015\\012b");
    // TXT already Debug-escapes; ensure it stays that way.
    assert_eq!(DnsRecord::Txt("x\u{1b}y".to_string()).to_text(), "\"x\\u{1b}y\"");
    // JSON is written from the same text.
    let json = serde_json::to_string(&DnsRecord::Cname("\u{1b}red".to_string()).to_text()).unwrap();
    assert!(!json.contains('\u{1b}'), "JSON must not carry a raw 0x1b: {json}");
}

#[test]
fn frame_announces_its_length() {
    let q = build_query("host.example", DnsRecordType::A).unwrap();
    let f = dot_frame(&q).unwrap();
    assert_eq!(f.len(), q.len() + 2);
    assert_eq!(dot_length(f[0], f[1]), q.len());
    assert_eq!(&f[2..], &q[..]);
    assert!(dot_frame(&vec![0u8; 65536]).is_err());
}

#[test]
fn query_name_reads_back() {
    let q = build_query("host.example.", DnsRecordType::A).unwrap();
    let (name, end) = read_name(&q, 12).unwrap();
    assert_eq!(name, "host.example");
    assert_eq!(skip_name(&q, 12).unwrap(), end);
    assert_eq!(end, q.len() - 4);
}

#[test]
fn a_query_reads_back_as_its_host() {
    for host in ["example.com", "example.com.", "b\u{fc}cher.example", "localhost"] {
        let q = build_query(host, DnsRecordType::Mx).unwrap();
        let bare = host.strip_suffix('.').unwrap_or(host).to_string();
        assert_eq!(read_name(&q, 12), Ok((bare, q.len() - 4)));
    }
}

#[test]
fn no_record_is_shown_with_a_control_character() {
    let caa = DnsRecord::Caa { flags: 0, tag: "\u{1b}[31m".into(), value: "x\n".into() };
    assert_eq!(caa.to_text(), "0 \\033[31m x\\012");
    let txt = DnsRecord::Txt("a\u{1b}\u{85}\"b".into());
    assert_eq!(txt.to_text(), "\"a\\u{1b}\\u{85}\\\"b\"");
    assert!(!txt.to_text().chars().any(char::is_control));
}
