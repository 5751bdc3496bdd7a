use ip_tools::cli::args::{
    literal_observations, missing_path, parse_custom_servers, parse_header_line, parse_record_type, parse_target_line,
    parse_tls_protocol, push_header_lines, push_target_lines, reverse_zone, select_record_types, source_of, Source,
};
use ip_tools::cli::csv::csv_field;
use ip_tools::cli::expect::{
    parse_expect_rate, parse_probe_expectation, parse_status_spec, ProbeExpectation, StatusSpec,
};
use ip_tools::cli::flow::{
    comes_before, destination_order, distinct_addresses, literal_address, presented_name, probe_destinations,
    resolved_addresses,
};
use ip_tools::cli::progress::{should_show, Progress};
use ip_tools::cli::run::{
    bounded_concurrency, check_probe_flags, diagnose_error, dns_error, dns_plan, failed_http, failed_lookups,
    failed_probes, failed_tcp, failed_tls, lost_everywhere, lost_hops, output_format, port_note, relabel,
    route_count_error, route_error, route_repeat_error, route_target, sweep_error, sweep_text, unresolved_host, DnsPlan,
    Output, ProbeFlags, ProbeProtocol,
};
use ip_tools::cli::tables::{
    render_dns_csv, render_http_csv, render_probe_csv, render_route_csv, render_route_repeat_csv, render_tcp_csv,
    render_tls_csv, TargetDns,
};
use ip_tools::model::{
    CertificateSummary, DnsObservation, DnsRecord, DnsRecordType, Double, FailureKind, HttpObservation, LatencyStats,
    ProbeError, ProbeResult, Rate, ResolverKind, StatusCount, TcpObservation, TlsObservation, TlsProtocol,
};
use ip_tools::net::{IpAddr, SocketAddr};
use ip_tools::route::{RouteHop, RouteHopStats, RouteRepeat};
use ip_tools::target::Target;

fn ip(s: &str) -> IpAddr {
    IpAddr::parse(s).unwrap()
}

fn socket(s: &str) -> SocketAddr {
    SocketAddr::parse(s).unwrap()
}

// --- names and literals ---------------------------------------------------------------

/// Wrap an already-parsed IP literal as an address record (A/AAAA).
fn rec_from_ip(ip: IpAddr) -> DnsRecord {
    match ip {
        IpAddr::V4(v) => DnsRecord::A(v),
        IpAddr::V6(v) => DnsRecord::Aaaa(v),
    }
}

#[test]
fn literal_observations_report_the_address_for_its_records() {
    let v4 = ip("1.1.1.1");
    let obs = literal_observations("1.1.1.1", v4, &[DnsRecordType::A, DnsRecordType::Aaaa]);
    assert_eq!(obs.len(), 2);
    let a = obs.iter().find(|o| o.record_type == DnsRecordType::A).expect("A observation");
    assert_eq!(a.records, vec![rec_from_ip(v4)]);
    assert_eq!(a.latency_ms, Some(0));
    assert!(a.error.is_none(), "a literal is never a lookup failure");
    let aaaa = obs.iter().find(|o| o.record_type == DnsRecordType::Aaaa).expect("AAAA observation");
    assert!(aaaa.records.is_empty(), "other family is NODATA: {aaaa:?}");
    assert!(aaaa.error.is_none(), "other family is NODATA, not an error");

    // An IPv6 literal reports AAAA; its (absent) A row is empty NODATA.
    let v6 = ip("2001:db8::1");
    let obs6 = literal_observations("[2001:db8::1]", v6, &[DnsRecordType::A, DnsRecordType::Aaaa]);
    let aaaa6 = obs6.iter().find(|o| o.record_type == DnsRecordType::Aaaa).expect("AAAA observation");
    assert_eq!(aaaa6.records, vec![rec_from_ip(v6)]);
    let a6 = obs6.iter().find(|o| o.record_type == DnsRecordType::A).expect("A observation");
    assert!(a6.records.is_empty());
    assert!(obs6.iter().all(|o| o.error.is_none()));

    // `--ipv6` (AAAA-only) still yields a per-record-type observation.
    let obs_v6_only = literal_observations("1.1.1.1", v4, &[DnsRecordType::Aaaa]);
    assert_eq!(obs_v6_only.len(), 1);
    assert!(obs_v6_only[0].records.is_empty());
}

#[test]
fn reverse_zone_builds_ipv4_and_ipv6_arpa_names() {
    // RFC 1035: IPv4 octets reversed under `.in-addr.arpa`.
    assert_eq!(reverse_zone(ip("192.0.2.77")), "77.2.0.192.in-addr.arpa");

    // RFC 3596: IPv6 hex nibbles reversed under `.ip6.arpa` (32 nibbles).
    assert_eq!(
        reverse_zone(ip("2001:db8::1")),
        "1.0.0.0.0.0.0.0.0.0.0.0.0.0.0.0.0.0.0.0.0.0.0.0.8.b.d.0.1.0.0.2.ip6.arpa"
    );
}

#[test]
fn parse_record_type_accepts_ptr() {
    assert_eq!(parse_record_type("PTR"), Some(DnsRecordType::Ptr));
    assert_eq!(parse_record_type("ptr"), Some(DnsRecordType::Ptr));
    assert_eq!(parse_record_type("A"), Some(DnsRecordType::A));
    assert_eq!(parse_record_type("PT"), None);
}

#[test]
fn record_types_follow_the_flags() {
    assert_eq!(select_record_types(None, false, false), Ok(vec![DnsRecordType::A, DnsRecordType::Aaaa]));
    assert_eq!(select_record_types(None, true, false), Ok(vec![DnsRecordType::A]));
    assert_eq!(select_record_types(None, false, true), Ok(vec![DnsRecordType::Aaaa]));
    assert_eq!(select_record_types(Some("mx"), false, false), Ok(vec![DnsRecordType::Mx]));
    assert_eq!(
        select_record_types(Some("bogus"), false, false),
        Err("unsupported record type \"bogus\" (try A, AAAA, CNAME, MX, TXT, NS, SOA, CAA, SRV or PTR)".to_string())
    );
}

#[test]
fn resolve_recognizes_ip_literals_bracketed_or_bare() {
    assert_eq!(literal_address("[::1]"), Some(ip("::1")));
    assert_eq!(literal_address("::1"), Some(ip("::1")));
    assert_eq!(literal_address("127.0.0.1"), Some(ip("127.0.0.1")));
    assert_eq!(literal_address("[127.0.0.1]"), Some(ip("127.0.0.1")));
    assert_eq!(literal_address("example.com"), None);
}

// --- arguments --------------------------------------------------------------------------

#[test]
fn values_come_from_the_command_line_a_file_or_standard_input() {
    assert!(matches!(source_of("-"), Source::Stdin));
    assert!(matches!(source_of("@list.txt"), Source::File(p) if p == "list.txt"));
    assert!(matches!(source_of("@"), Source::MissingPath));
    assert!(matches!(source_of("x: y"), Source::Inline));
    assert_eq!(missing_path("--body"), "--body @<file> requires a file path after '@'");
}

#[test]
fn header_lines_are_split_and_trimmed() {
    assert_eq!(
        parse_header_line(" authorization :  Bearer a:b "),
        Ok(("authorization".to_string(), "Bearer a:b".to_string()))
    );
    assert_eq!(
        parse_header_line("nothing"),
        Err("invalid header \"nothing\"; expected NAME:VALUE, e.g. --header 'authorization: Bearer abc'".to_string())
    );
    assert_eq!(
        parse_header_line(" : x"),
        Err("invalid header \" : x\"; the name must not be empty".to_string())
    );
    let mut headers = vec![("a".to_string(), "b".to_string())];
    assert_eq!(push_header_lines(&mut headers, "c: d\r\n\n  e:f  \n", "stdin"), Ok(()));
    assert_eq!(
        headers,
        vec![
            ("a".to_string(), "b".to_string()),
            ("c".to_string(), "d".to_string()),
            ("e".to_string(), "f".to_string())
        ]
    );
    assert_eq!(
        push_header_lines(&mut headers, "oops", "file \"h\""),
        Err(
            "invalid header \"oops\"; expected NAME:VALUE, e.g. --header 'authorization: Bearer abc' (from file \"h\")"
                .to_string()
        )
    );
}

#[test]
fn target_lists_skip_blanks_and_comments() {
    let mut targets: Vec<Target> = Vec::new();
    assert_eq!(push_target_lines(&mut targets, "# fleet\nexample.com:8443\n\n  host.example \n"), Ok(()));
    let seen: Vec<(String, u16)> = targets.iter().map(|t| (t.host.clone(), t.port)).collect();
    assert_eq!(seen, vec![("example.com".to_string(), 8443), ("host.example".to_string(), 443)]);
    assert!(matches!(parse_target_line("  # x"), Ok(None)));
    assert!(parse_target_line("host:99999").is_err());
}

#[test]
fn servers_are_addresses_with_port_53_by_default() {
    assert_eq!(
        parse_custom_servers(&["192.0.2.1".to_string(), "192.0.2.2:5353".to_string(), "[::1]:53".to_string()]),
        Ok(vec![socket("192.0.2.1:53"), socket("192.0.2.2:5353"), socket("[::1]:53")])
    );
    assert_eq!(
        parse_custom_servers(&["dns.example".to_string()]),
        Err("invalid DNS server \"dns.example\"; expected IP or IP:port".to_string())
    );
}

#[test]
fn tls_versions_are_mapped() {
    assert_eq!(parse_tls_protocol(Some("1.2")), TlsProtocol::Tls12);
    assert_eq!(parse_tls_protocol(Some("1.3")), TlsProtocol::Tls13);
    assert_eq!(parse_tls_protocol(Some("auto")), TlsProtocol::Auto);
    assert_eq!(parse_tls_protocol(None), TlsProtocol::Auto);
}

// --- tables -----------------------------------------------------------------------------

fn http_obs(destination: &str, cert: Option<CertificateSummary>) -> HttpObservation {
    HttpObservation {
        destination: socket(destination),
        host: "example.com".into(),
        method: "GET".into(),
        path: "/".into(),
        tls: Some(TlsObservation {
            destination: socket(destination),
            sni: "example.com".into(),
            success: true,
            version: Some("TLSv1.3".into()),
            cipher: Some("AES_256_GCM".into()),
            alpn: Some("h2".into()),
            certificate: cert,
            latency_ms: Some(7),
            failure: None,
        }),
        protocol: Some("HTTP/1.1".into()),
        status: Some(200),
        location: Some("/moved".into()),
        headers: vec![("server".into(), "fixture".into())],
        body_bytes: Some(2),
        body_capped: false,
        body_snippet: Some("ok".into()),
        latency_ms: Some(7),
        ttfb_ms: Some(3),
        failure: None,
    }
}

fn cert(sans: &[&str]) -> CertificateSummary {
    CertificateSummary {
        subject: "CN=example.com".into(),
        issuer: "CN=CA".into(),
        not_before_utc: None,
        not_after_utc: Some("2027-01-01T00:00:00Z".into()),
        sans: sans.iter().map(|s| (*s).to_string()).collect(),
    }
}

fn head(destination: &str) -> String {
    // The repeated leading columns (host..not_after), after which the
    // per-row assertions anchor the sans+covers pair.
    format!("example.com,{destination},HTTP/1.1,200,/moved,2,3,7,example.com,TLSv1.3,AES_256_GCM,h2,CN=example.com,CN=CA,2027-01-01T00:00:00Z,")
}

#[test]
fn render_http_csv_emits_cert_sans_and_covers() {
    let per_target = vec![(
        "example.com".to_string(),
        vec![
            // A cert whose SANs cover the presented SNI: covers=yes.
            http_obs("192.0.2.1:443", Some(cert(&["example.com"]))),
            // SANs only cover a different name: covers left blank.
            http_obs("192.0.2.2:443", Some(cert(&["other.example"]))),
            // No cert (failed/TLS-less row): blank sans and covers.
            http_obs("192.0.2.3:443", None),
        ],
    )];
    let out = render_http_csv(&per_target);
    let mut lines = out.lines();
    assert_eq!(
        lines.next(),
        Some("host,destination,protocol,status,location,body_bytes,ttfb_ms,latency_ms,sni,version,cipher,alpn,subject,issuer,not_after_utc,sans,covers,headers,body_snippet,failure")
    );
    assert!(
        lines.next().is_some_and(|l| l.starts_with(&format!("{}example.com,yes,", head("192.0.2.1:443")))),
        "covering SANs must render covers=yes: {out}"
    );
    assert!(
        lines.next().is_some_and(|l| l.starts_with(&format!("{}other.example,", head("192.0.2.2:443")))),
        "non-covering SANs render the SANs and a blank covers: {out}"
    );
    // Cert-less row: no subject/issuer/not_after either, then blank sans
    // and covers before the shared trailing columns.
    assert_eq!(
        lines.next(),
        Some(
            "example.com,192.0.2.3:443,HTTP/1.1,200,/moved,2,3,7,example.com,TLSv1.3,AES_256_GCM,h2,,,,,,server: fixture,ok,"
        ),
        "cert-less row renders blank sans and covers: {out}"
    );
    assert!(lines.next().is_none());
}

fn tls_obs(destination: &str, success: bool, version: Option<&str>) -> TlsObservation {
    TlsObservation {
        destination: socket(destination),
        sni: "example.com".into(),
        success,
        version: version.map(str::to_string),
        cipher: Some("AES_256_GCM".into()),
        alpn: Some("h2".into()),
        certificate: if success { Some(cert(&["example.com"])) } else { None },
        latency_ms: success.then_some(7),
        failure: if success {
            None
        } else {
            Some(ProbeError { kind: FailureKind::Timeout, message: "timed out".into() })
        },
    }
}

#[test]
fn render_tls_csv_emits_handshake_details() {
    let per_target = vec![(
        "example.com".to_string(),
        vec![tls_obs("192.0.2.1:443", true, Some("TLSv1.3")), tls_obs("192.0.2.2:443", false, None)],
    )];
    let out = render_tls_csv(&per_target);
    let mut lines = out.lines();
    assert_eq!(
        lines.next(),
        Some("host,destination,sni,success,version,cipher,alpn,subject,issuer,not_after_utc,sans,covers,latency_ms,failure")
    );
    assert_eq!(
        lines.next(),
        Some("example.com,192.0.2.1:443,example.com,1,TLSv1.3,AES_256_GCM,h2,CN=example.com,CN=CA,2027-01-01T00:00:00Z,example.com,yes,7,")
    );
    // Failed hop: success=0, empty cert fields, failure kind in last column.
    assert_eq!(
        lines.next(),
        Some("example.com,192.0.2.2:443,example.com,0,,AES_256_GCM,h2,,,,,,,timeout")
    );
    assert!(lines.next().is_none());
}

#[test]
fn a_certificate_for_another_name_is_marked_in_the_tls_table() {
    let mut o = tls_obs("192.0.2.1:443", true, None);
    o.certificate = Some(cert(&["other.example", "*.example.org"]));
    let out = render_tls_csv(&[("h".to_string(), vec![o])]);
    assert!(out.contains(",other.example;*.example.org,no,7,\n"), "{out}");
}

#[test]
fn render_route_repeat_csv_aggregates_answered_and_path_change() {
    let mut stable = LatencyStats::default();
    stable.push(2);
    stable.push(4);
    let repeat = RouteRepeat {
        runs: 2,
        hops: vec![
            RouteHopStats {
                ttl: 1,
                answered: 2,
                addrs: vec![ip("192.0.2.1")],
                hostname: Some("r1.example.com".into()),
                rtt: stable.summarize(),
                path_changed: false,
            },
            RouteHopStats {
                ttl: 2,
                answered: 2,
                // No latency samples: a divergent hop with unknown RTT must
                // still render its `;`-joined addrs and its path change.
                addrs: vec![ip("192.0.2.2"), ip("192.0.2.9")],
                hostname: None,
                rtt: LatencyStats::default().summarize(),
                path_changed: true,
            },
            RouteHopStats {
                ttl: 3,
                answered: 0,
                addrs: Vec::new(),
                hostname: None,
                rtt: LatencyStats::default().summarize(),
                path_changed: false,
            },
        ],
    };
    let out = render_route_repeat_csv(&repeat);
    let mut lines = out.lines();
    assert_eq!(
        lines.next(),
        Some("ttl,hostname,addr,rtt_min_ms,rtt_med_ms,rtt_max_ms,answered,runs,path_changed")
    );
    // Stable hop: sole addr, min/med/max latency, 2/2 answered.
    assert_eq!(lines.next(), Some("1,r1.example.com,192.0.2.1,2,2,4,2,2,0"));
    // Divergent hop: `;`-joined addrs and path_changed=1 (empty latency).
    assert_eq!(lines.next(), Some("2,,192.0.2.2;192.0.2.9,,,,2,2,1"));
    // Fully-lost hop: everything empty, answered=0.
    assert_eq!(lines.next(), Some("3,,,,,,0,2,0"));
    assert!(lines.next().is_none());
    assert_eq!(lost_everywhere(&repeat), 1);
}

#[test]
fn render_route_csv_emits_one_row_per_hop() {
    let hops = [
        RouteHop {
            ttl: 1,
            addr: Some(ip("192.0.2.1")),
            hostname: Some("r1.example.com".into()),
            rtt_ms: Some(3),
            lost: false,
        },
        RouteHop { ttl: 2, addr: None, hostname: None, rtt_ms: None, lost: true },
        RouteHop { ttl: 3, addr: Some(ip("192.0.2.3")), hostname: None, rtt_ms: Some(12), lost: false },
    ];
    let out = render_route_csv(&hops);
    let mut lines = out.lines();
    assert_eq!(lines.next(), Some("ttl,hostname,addr,rtt_ms,lost"));
    // Reachable hop: full row, not lost.
    assert_eq!(lines.next(), Some("1,r1.example.com,192.0.2.1,3,0"));
    // Lost hop: empty hostname/addr/rtt, lost=1.
    assert_eq!(lines.next(), Some("2,,,,1"));
    assert_eq!(lines.next(), Some("3,,192.0.2.3,12,0"));
    assert!(lines.next().is_none());
    assert_eq!(lost_hops(&hops), 1);
}

#[test]
fn csv_field_quotes_and_doubles_embedded_quotes() {
    assert_eq!(csv_field("a,b"), "\"a,b\"");
    assert_eq!(csv_field("say \"hi\""), "\"say \"\"hi\"\"\"");
    assert_eq!(csv_field("plain"), "plain");
}

#[test]
fn a_line_break_in_a_field_is_quoted() {
    assert_eq!(csv_field("a\nb"), "\"a\nb\"");
    assert_eq!(csv_field(""), "");
}

#[test]
fn tcp_table_has_one_row_per_destination() {
    let ok = TcpObservation { destination: socket("192.0.2.1:443"), success: true, latency_ms: Some(4), failure: None };
    let bad = TcpObservation {
        destination: socket("[::1]:443"),
        success: false,
        latency_ms: None,
        failure: Some(ProbeError { kind: FailureKind::ConnectionRefused, message: "refused".into() }),
    };
    assert_eq!(failed_tcp(&[ok.clone(), bad.clone()]), 1);
    let out = render_tcp_csv(&[("h,1".to_string(), vec![ok, bad])]);
    let mut lines = out.lines();
    assert_eq!(lines.next(), Some("host,destination,success,latency_ms,failure"));
    assert_eq!(lines.next(), Some("\"h,1\",192.0.2.1:443,1,4,"));
    assert_eq!(lines.next(), Some("\"h,1\",[::1]:443,0,,connection refused"));
    assert!(lines.next().is_none());
}

#[test]
fn dns_table_covers_single_lookups() {
    let answered = DnsObservation {
        hostname: "h".into(),
        resolver: ResolverKind::System,
        record_type: DnsRecordType::A,
        records: vec![rec_from_ip(ip("192.0.2.1")), rec_from_ip(ip("192.0.2.2"))],
        ttl: Some(60),
        latency_ms: Some(9),
        error: None,
    };
    let failed = DnsObservation {
        hostname: "h".into(),
        resolver: ResolverKind::Custom(socket("192.0.2.53:53")),
        record_type: DnsRecordType::Aaaa,
        records: Vec::new(),
        ttl: None,
        latency_ms: None,
        error: Some(ProbeError { kind: FailureKind::Dns, message: "no".into() }),
    };
    let output =
        TargetDns { host: "h".into(), repeat: false, observations: vec![answered, failed], results: Vec::new() };
    assert_eq!(failed_lookups(&output), 1);
    let out = render_dns_csv(&[output]);
    let mut lines = out.lines();
    assert_eq!(
        lines.next(),
        Some("host,resolver,record_type,attempts,success_rate,latency_p50_ms,latency_p95_ms,latency_max_ms,failures,ttl,records")
    );
    let first = lines.next().unwrap();
    assert!(first.ends_with(",A,1,1.0000,9,9,9,0,60,\"192.0.2.1, 192.0.2.2\""), "{first}");
    let second = lines.next().unwrap();
    assert!(second.ends_with(",AAAA,1,0.0000,,,,1,,"), "{second}");
    assert!(lines.next().is_none());
}

#[test]
fn probe_table_shows_the_status_distribution() {
    let mut r = result(Rate { part: 2, whole: 3 }, &[(200, 2), (503, 1)]);
    r.failures = 1;
    assert_eq!(failed_probes(&[r.clone()]), 1);
    let out = render_probe_csv(&[("h".to_string(), vec![r])]);
    assert_eq!(
        out,
        "host,destination,attempts,success_rate,latency_p50_ms,latency_p95_ms,latency_max_ms,jitter_ms,ttfb_p50_ms,ttfb_p95_ms,ttfb_max_ms,failures,statuses\nh,192.0.2.1:443,3,0.6667,,,,,,,,1,200x2;503x1\n"
    );
}

// --- expectations -----------------------------------------------------------------------

/// Build an aggregate with the given success rate and status distribution
/// (sufficient for the assertion checks, which only read `success_rate` and
/// `status_counts`).
fn result(rate: Rate, statuses: &[(u16, usize)]) -> ProbeResult {
    ProbeResult {
        destination: socket("192.0.2.1:443"),
        attempts: statuses.iter().map(|(_, c)| c).sum(),
        successes: 0,
        failures: 0,
        success_rate: rate,
        latency: LatencyStats::default().summarize(),
        ttfb: LatencyStats::default().summarize(),
        failure_counts: Vec::new(),
        status_counts: statuses.iter().map(|(s, c)| StatusCount { status: *s, count: *c }).collect(),
    }
}

fn rate(part: u64, whole: u64) -> Rate {
    Rate { part, whole }
}

/// The number that a mantissa and its binary places stand for. Both steps are
/// exact: the mantissa has at most 53 significant bits, and so has the result.
fn float(d: Double) -> f64 {
    let mut x = d.mantissa as f64;
    for _ in 0..d.places {
        x /= 2.0;
    }
    x
}

#[test]
fn expect_rate_parses_fractions_and_percents() {
    // Fractions (`0.97`, `.97`, `1`) and percents (`97%`, `100%`) are all
    // caller-friendly spellings of a 0..=1 success-rate threshold.
    let near = |a: Double, b: f64| (float(a) - b).abs() < f64::EPSILON;
    assert!(near(parse_expect_rate("0.97").expect("fraction"), 0.97));
    assert!(near(parse_expect_rate(".97").expect("leading-dot fraction"), 0.97));
    assert!(near(parse_expect_rate("1").expect("whole fraction"), 1.0));
    assert!(near(parse_expect_rate("97%").expect("percent"), 0.97));
    assert!(near(parse_expect_rate("100%").expect("full percent"), 1.0));
    assert!(near(parse_expect_rate(" 0.5 ").expect("trimmed"), 0.5));
}

#[test]
fn expect_rate_rejects_vacuous_and_malformed_specs() {
    // A zero threshold would make every run pass vacuously, a low percent
    // is a lie about intent, and malformed strings are caller mistakes: all
    // must fail fast with a clear parse error.
    for bad in ["0", "0.0", "0%", "2", "1.5", "150%", "abc", "", "%", "-0.5"] {
        assert!(parse_expect_rate(bad).is_err(), "--expect-rate {bad:?} must be rejected");
    }
}

#[test]
fn expect_rate_says_what_is_wrong() {
    assert_eq!(
        parse_expect_rate("150%").err(),
        Some("invalid --expect-rate '150%': a percent must be in (0, 100]".to_string())
    );
    assert_eq!(
        parse_expect_rate("2").err(),
        Some("invalid --expect-rate '2': a fraction must be in (0, 1], e.g. 0.97 for 97%".to_string())
    );
    assert_eq!(
        parse_expect_rate("abc").err(),
        Some("invalid --expect-rate 'abc': expected a fraction like 0.97 or a percent like 97%".to_string())
    );
    assert!(parse_expect_rate("1e-2").is_ok(), "an exponent is a number too");
    assert!(parse_expect_rate("inf").is_err());
    assert!(parse_expect_rate("NaN").is_err());
}

/// Thresholds are read as double-precision numbers, digit for digit.
#[test]
fn expect_rate_reads_what_a_double_can_hold() {
    let long = "0.1000000000000000055511151231257827021181583404541015625000000000000000000001";
    for text in [
        "0.1", "0.2", "0.3", "0.97", "0.999", "1", "1.0", "01.000", "5e-1", "0.05E1", "+0.75", "97e-2", "1e-300",
        "1e-320", "4.9e-324", "3e-324", "0.333333333333333333333333333333333333333333", "9007199254740993e-16",
        "0.5000000000000000555111512312578270211815834045410156250", "1.00000000000000000001",
        "0.99999999999999999999", "123456789e-9", "0.0000001234567890123456789", "1000e-3", long,
        "0.00000000000000000000000000000000000000000000000000000000000000000000000000000000000000001e80",
    ] {
        let expected: f64 = text.parse().expect("a number");
        let got = parse_expect_rate(text).expect(text);
        assert_eq!(float(got).to_bits(), expected.to_bits(), "--expect-rate {text}");
    }
    for text in ["97", "99.9", "0.1", "33.3", "100", "66.666666666666666666", "1e-5", "1e2", "100.000000000000000001"] {
        let expected: f64 = text.parse::<f64>().expect("a number") / 100.0;
        let got = parse_expect_rate(&format!("{text}%")).expect(text);
        assert_eq!(float(got).to_bits(), expected.to_bits(), "--expect-rate {text}%");
    }
    // What rounds to zero is zero, and what rounds to more than the limit is over it.
    for bad in ["1e-400", "2e-324", "1e-99999999999999999999999", "1e99999999999999999999999", "1.0000000000000003"] {
        assert!(parse_expect_rate(bad).is_err(), "--expect-rate {bad:?} must be rejected");
    }
    assert!(parse_expect_rate("100.00000000000003%").is_err());
}

/// Percentages and fractions are those of the double-precision quotient.
#[test]
fn rates_print_as_double_precision_quotients() {
    assert_eq!(rate(23, 80).percent_text(), "28.7");
    assert_eq!(rate(2, 3).percent_text(), "66.7");
    assert_eq!(rate(2, 3).decimal_text(), "0.6667");
    assert_eq!(rate(0, 7).percent_text(), "0.0");
    assert_eq!(rate(7, 7).percent_text(), "100.0");
    assert_eq!(rate(1, 32).decimal_text(), "0.0312");
    let check = |part: u64, whole: u64| {
        let r = part as f64 / whole as f64;
        assert_eq!(float(rate(part, whole).value()).to_bits(), r.to_bits(), "{part} of {whole}");
        assert_eq!(rate(part, whole).percent_text(), format!("{:.1}", r * 100.0), "{part} of {whole}");
        assert_eq!(rate(part, whole).decimal_text(), format!("{r:.4}"), "{part} of {whole}");
    };
    for whole in 1..200 {
        for part in 0..=whole {
            check(part, whole);
        }
    }
    for (part, whole) in [
        (9_007_199_254_740_993, 9_007_199_254_740_995),
        (u64::MAX, u64::MAX),
        (u64::MAX - 1, u64::MAX),
        (1, u64::MAX),
        (u64::MAX, 1),
        (u64::MAX - 1025, 3),
        (12_345, 100_000),
        (1_000_000_007, 3_000_000_019),
    ] {
        check(part, whole);
    }
}

/// A rate of counts never exceeds one.
#[test]
fn a_rate_of_counts_is_at_most_one() {
    let one = Double { mantissa: 1, places: 0 };
    for attempts in 0..60 {
        for successes in 0..=attempts {
            assert!(!one.is_below(&Rate::from_counts(successes, attempts).value()));
        }
    }
    assert!(!one.is_below(&Rate::from_counts(usize::MAX, usize::MAX).value()));
}

/// A threshold is compared in double precision: written as a fraction or as a
/// percent, a bar that the rate meets exactly passes.
#[test]
fn a_rate_at_the_bar_passes() {
    for whole in 1..=100 {
        for part in 1..=whole {
            let r = part as f64 / whole as f64;
            let min = parse_expect_rate(&format!("{r}")).expect("a fraction");
            let e = ProbeExpectation { status: None, rate: Some(min) };
            assert_eq!(e.violation(&result(rate(part, whole), &[])), None, "{part} of {whole}");
            assert!(e.violation(&result(rate(part - 1, whole), &[])).is_some(), "{part} of {whole}");
        }
    }
    for percent in 1..=100 {
        let min = parse_expect_rate(&format!("{percent}%")).expect("a percent");
        let e = ProbeExpectation { status: None, rate: Some(min) };
        assert_eq!(e.violation(&result(rate(percent, 100), &[])), None, "{percent}%");
    }
}

#[test]
fn probe_expectation_status_accepts_a_clean_distribution() {
    let e = ProbeExpectation { status: Some(StatusSpec::Class(2)), rate: None };
    assert_eq!(e.violation(&result(rate(1, 1), &[(200, 60)])), None, "all-200 distribution satisfies 2xx");
    assert_eq!(
        e.violation(&result(rate(1, 1), &[(200, 59), (204, 1)])),
        None,
        "204 satisfies 2xx alongside 200"
    );
}

#[test]
fn probe_expectation_status_rejects_mixed_and_empty_distributions() {
    let e = ProbeExpectation { status: Some(StatusSpec::Class(2)), rate: None };
    let v = e.violation(&result(rate(1, 1), &[(200, 57), (503, 3)]));
    assert!(
        v.as_deref().is_some_and(|m| m.contains("503x3") && m.contains("2xx")),
        "a 503 in the distribution must violate a 2xx assertion: {v:?}"
    );
    // No attempt produced a response: there is no response to assert on,
    // so the status assertion is violated even though no status was seen.
    let v = e.violation(&result(rate(0, 1), &[]));
    assert!(
        v.as_deref().is_some_and(|m| m.contains("no response to assert on")),
        "an address with zero completed responses must violate: {v:?}"
    );
}

#[test]
fn probe_expectation_rate_gates_the_aggregate() {
    let e = ProbeExpectation { status: None, rate: Some(rate(97, 100).value()) };
    assert_eq!(e.violation(&result(rate(1, 1), &[])), None, "100% meets a 97% bar");
    assert_eq!(e.violation(&result(rate(97, 100), &[])), None, "exactly at the bar passes");
    let v = e.violation(&result(rate(9, 10), &[]));
    assert!(
        v.as_deref().is_some_and(|m| m.contains("90.0%") && m.contains("97.0%")),
        "a 90% rate must violate a 97% bar: {v:?}"
    );
}

#[test]
fn probe_expectation_status_and_rate_compose() {
    // Both assertions gate together: either failure is a violation.
    let e = ProbeExpectation { status: Some(StatusSpec::Class(2)), rate: Some(rate(1, 1).value()) };
    assert_eq!(e.violation(&result(rate(1, 1), &[(200, 5)])), None, "clean health");
    let v = e.violation(&result(rate(4, 5), &[(200, 4), (503, 1)]));
    assert!(
        v.as_deref().is_some_and(|m| m.contains("503x1") && m.contains("success rate 80.0%")),
        "a 503 and a low rate must both be reported: {v:?}"
    );
}

#[test]
fn a_violation_names_the_destination_and_every_reason() {
    let e = ProbeExpectation { status: Some(StatusSpec::Exact(200)), rate: Some(rate(1, 1).value()) };
    assert_eq!(
        e.violation(&result(rate(4, 5), &[(503, 1), (404, 1)])),
        Some(
            "192.0.2.1:443: statuses {503x1, 404x1} outside expected 200, success rate 80.0% (expected ≥ 100.0%)"
                .to_string()
        )
    );
}

#[test]
fn status_specs_are_exact_or_a_class() {
    assert!(matches!(parse_status_spec("200"), Ok(StatusSpec::Exact(200))));
    assert!(matches!(parse_status_spec("2xx"), Ok(StatusSpec::Class(2))));
    assert!(parse_status_spec("abc").is_err());
    assert!(parse_status_spec("").is_err());
    assert!(StatusSpec::Class(5).matches(503));
    assert!(!StatusSpec::Class(5).matches(200));
    assert_eq!(StatusSpec::Class(5).describes(), "5xx");
    assert_eq!(StatusSpec::Exact(418).describes(), "418");
}

#[test]
fn expectations_fit_the_protocol() {
    assert!(matches!(parse_probe_expectation(None, None, false), Ok(None)));
    assert!(matches!(parse_probe_expectation(Some("200"), None, true), Ok(Some(_))));
    assert!(matches!(parse_probe_expectation(None, Some("97%"), false), Ok(Some(_))));
    assert!(parse_probe_expectation(Some("200"), None, false)
        .err()
        .is_some_and(|e| e.starts_with("--expect-status only applies to --protocol http|http2|http3")));
}

// --- progress ---------------------------------------------------------------------------

#[test]
fn progress_gate_requires_multi_target_terminal_and_no_quiet_switch() {
    let gate = should_show;
    // Show: >1 target, no flags/env, stderr is a terminal.
    assert!(gate(2, false, false, true), "watchable multi-target sweep");
    // Never for a single target ("1/1" is noise).
    assert!(!gate(1, false, false, true));
    assert!(!gate(0, false, false, true));
    // Any quiet/untrackable condition suppresses it.
    assert!(!gate(2, true, false, true), "--no-color also quiets progress");
    assert!(!gate(2, false, true, true), "NO_COLOR quiets progress");
    assert!(!gate(2, false, false, false), "non-TTY stderr stays clean");
    assert!(!gate(2, true, true, false));
}

#[test]
fn silent_progress_is_a_noop() {
    // A suppressed progress must never write or advance its count.
    let mut progress = Progress { shown: false, done: 0, total: 3 };
    assert_eq!(progress.step("a"), None);
    assert_eq!(progress.step("b"), None);
    assert_eq!(progress.finish(), None);
    assert_eq!(progress.done, 0);
}

#[test]
fn shown_progress_counts_up_on_one_line() {
    let mut progress = Progress::new(2, false, false, true);
    assert!(progress.step("a.example").is_some_and(|l| l.starts_with("\r  1/2 a.example")));
    assert!(progress.step("b").is_some_and(|l| l.starts_with("\r  2/2 b")));
    assert_eq!(progress.done, 2);
    assert!(progress.finish().is_some());
}

// --- flows ------------------------------------------------------------------------------

fn lookup(records: &[&str], failed: bool) -> DnsObservation {
    DnsObservation {
        hostname: "h.example".into(),
        resolver: ResolverKind::System,
        record_type: DnsRecordType::A,
        records: records.iter().map(|r| rec_from_ip(ip(r))).collect(),
        ttl: None,
        latency_ms: Some(1),
        error: if failed { Some(ProbeError { kind: FailureKind::Dns, message: "x".into() }) } else { None },
    }
}

#[test]
fn addresses_come_from_lookups_without_error_and_once_each() {
    let found = resolved_addresses(
        "h.example",
        &[lookup(&["192.0.2.1", "192.0.2.2"], false), lookup(&["192.0.2.9"], true), lookup(&["192.0.2.2"], false)],
    );
    assert_eq!(found, Ok(vec![ip("192.0.2.1"), ip("192.0.2.2")]));
    assert_eq!(
        resolved_addresses("h.example", &[lookup(&["192.0.2.9"], true)]),
        Err("hostname h.example did not resolve to any address via the configured resolvers".to_string())
    );
    assert_eq!(distinct_addresses(&[ip("::1"), ip("::1"), ip("::2")]), vec![ip("::1"), ip("::2")]);
    assert_eq!(
        unresolved_host("h.example"),
        "hostname h.example did not resolve to any address via the system resolver, --server, --doh, or --dot resolvers"
    );
}

#[test]
fn a_family_flag_restricts_the_destinations() {
    let all = [ip("192.0.2.1"), ip("::1")];
    assert_eq!(probe_destinations(&all, false, false, 443), vec![socket("192.0.2.1:443"), socket("[::1]:443")]);
    assert_eq!(probe_destinations(&all, true, false, 443), vec![socket("192.0.2.1:443")]);
    assert_eq!(probe_destinations(&all, false, true, 443), vec![socket("[::1]:443")]);
    assert_eq!(presented_name(Some("edge.example"), "h"), "edge.example");
    assert_eq!(presented_name(None, "h"), "h");
}

#[test]
fn results_are_ordered_by_destination() {
    let keys = [socket("[::1]:443"), socket("192.0.2.9:443"), socket("192.0.2.10:80"), socket("192.0.2.9:80")];
    assert_eq!(destination_order(&keys), vec![3, 1, 2, 0]);
    assert!(comes_before(socket("192.0.2.9:443"), socket("[::1]:1")));
    assert!(!comes_before(socket("192.0.2.9:443"), socket("192.0.2.9:443")));
}

#[test]
fn sweeps_label_their_targets_and_report_failures() {
    let blocks = [("a".to_string(), "one\n".to_string()), ("b".to_string(), "two\n".to_string())];
    assert_eq!(sweep_text(&blocks, false), "a:\none\nb:\ntwo\n");
    assert_eq!(sweep_text(&blocks[..1], true), "one\n");
    assert_eq!(sweep_error(2, 5, true), Some("2 target(s) did not resolve to any address".to_string()));
    assert_eq!(sweep_error(0, 5, true), Some("5 probe(s) failed to complete (--strict)".to_string()));
    assert_eq!(sweep_error(0, 5, false), None);
    assert_eq!(sweep_error(0, 0, true), None);
    assert_eq!(dns_error(3, true), Some("3 DNS lookup(s) failed (--strict)".to_string()));
    assert_eq!(dns_error(3, false), None);
    assert_eq!(diagnose_error(1, 9, true), Some("1 host(s) did not resolve to any address".to_string()));
    assert_eq!(diagnose_error(0, 9, true), Some("9 anomaly diagnosis(es) raised (--strict)".to_string()));
    assert_eq!(diagnose_error(0, 9, false), None);
}

#[test]
fn concurrency_and_output_are_settled() {
    assert_eq!(bounded_concurrency(0), 1);
    assert_eq!(bounded_concurrency(32), 32);
    assert_eq!(bounded_concurrency(1000), 256);
    assert_eq!(output_format(true, true), Output::Csv);
    assert_eq!(output_format(false, true), Output::Json);
    assert_eq!(output_format(false, false), Output::Human);
}

#[test]
fn failures_of_handshakes_and_requests_are_counted() {
    assert_eq!(failed_tls(&[tls_obs("192.0.2.1:443", true, None), tls_obs("192.0.2.1:443", false, None)]), 1);
    let mut stalled = http_obs("192.0.2.1:443", None);
    stalled.failure = Some(ProbeError { kind: FailureKind::Http, message: "x".into() });
    assert_eq!(failed_http(&[http_obs("192.0.2.1:443", None), stalled]), 1);
}

#[test]
fn a_port_on_a_dns_target_is_noted() {
    let t = Target { host: "h".into(), port: 5353 };
    assert_eq!(
        port_note(&t),
        Some("Note: ignoring the :5353 port of h (DNS queries a resolver, not the target's port)".to_string())
    );
    assert_eq!(port_note(&Target { host: "h".into(), port: 443 }), None);
}

#[test]
fn dns_targets_are_planned() {
    let types = [DnsRecordType::A, DnsRecordType::Aaaa];
    assert!(matches!(dns_plan("h.example", &types, 1, false), DnsPlan::Forward { repeat: false }));
    assert!(matches!(dns_plan("h.example", &types, 4, false), DnsPlan::Forward { repeat: true }));
    match dns_plan("[::1]", &[DnsRecordType::Ptr], 3, true) {
        DnsPlan::Reverse { query, repeat } => {
            assert!(query.ends_with("ip6.arpa"));
            assert!(repeat);
        }
        _ => panic!("a reverse lookup is expected"),
    }
    match dns_plan("192.0.2.7", &types, 3, true) {
        DnsPlan::Literal { observations, notes } => {
            assert_eq!(observations.len(), 2);
            assert_eq!(notes.len(), 2);
            assert!(notes[0].contains("--server/--doh/--dot are ignored"));
            assert!(notes[1].contains("--count 3 is ignored"));
        }
        _ => panic!("a literal answer is expected"),
    }
    let mut observations = vec![lookup(&["192.0.2.1"], false)];
    relabel(&mut observations, "192.0.2.7");
    assert_eq!(observations[0].hostname, "192.0.2.7");
}

#[test]
fn routes_take_the_first_ipv4_address() {
    assert_eq!(route_target(&[ip("::1"), ip("192.0.2.1")], "h"), Ok(ip("192.0.2.1")));
    assert!(route_target(&[ip("::1")], "h").is_err());
    assert!(route_count_error(65535).is_none());
    assert!(route_count_error(3).is_none());
    assert!(route_count_error(70000).is_some());
    assert_eq!(route_error(0, true), None);
    assert!(route_error(2, true).is_some());
    assert!(route_error(2, false).is_none());
    assert!(route_repeat_error(2, 5, true).is_some());
    assert!(route_repeat_error(2, 5, false).is_none());
}

#[test]
fn options_without_a_use_are_refused() {
    let good = ProbeFlags {
        count: 3,
        protocol: ProbeProtocol::Tcp,
        plain: false,
        request_given: false,
        tls_version_given: false,
    };
    assert_eq!(check_probe_flags(&good), None);
    let none = ProbeFlags { count: 0, ..good };
    assert_eq!(check_probe_flags(&none), Some("--count must be at least 1".to_string()));
    let plain = ProbeFlags {
        count: 1,
        protocol: ProbeProtocol::Http2,
        plain: true,
        request_given: false,
        tls_version_given: false,
    };
    assert_eq!(
        check_probe_flags(&plain),
        Some("--plain only applies to --protocol http (cleartext HTTP/1.1)".to_string())
    );
    let request = ProbeFlags {
        count: 1,
        protocol: ProbeProtocol::Tls,
        plain: false,
        request_given: true,
        tls_version_given: false,
    };
    assert_eq!(
        check_probe_flags(&request),
        Some("--method/--path/--header/--body only apply to --protocol http|http2|http3 (the tls repeat sends no HTTP request)".to_string())
    );
    let version = ProbeFlags {
        count: 1,
        protocol: ProbeProtocol::Tcp,
        plain: false,
        request_given: false,
        tls_version_given: true,
    };
    assert_eq!(
        check_probe_flags(&version),
        Some("--tls-version only applies to --protocol tls|http|http2|http3 (a tcp repeat has no TLS handshake)".to_string())
    );
    let quic = ProbeFlags {
        count: 1,
        protocol: ProbeProtocol::Http3,
        plain: false,
        request_given: false,
        tls_version_given: true,
    };
    assert_eq!(
        check_probe_flags(&quic),
        Some("--tls-version does not apply to --protocol http3 (QUIC is always TLS 1.3)".to_string())
    );
    assert!(ProbeProtocol::parse("http").is_http());
    assert!(!ProbeProtocol::parse("tcp").is_http());
    assert_eq!(ProbeProtocol::parse("http3").to_text(), "http3");
}
