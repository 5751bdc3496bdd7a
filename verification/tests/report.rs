use ip_tools::model::{
    CertificateSummary, Confidence, Diagnosis, DiagnosticCategory, DnsObservation, DnsRecord, DnsRecordType,
    DnsRepeatResult, Evidence, FailureCount, FailureKind, HttpObservation, LatencyStats, ProbeError, ProbeResult, Rate,
    ResolverKind, Severity, TcpObservation, TlsObservation,
};
use ip_tools::net::{IpAddr, SocketAddr};
use ip_tools::report::cert::{cert_covers_hostname, render_cert};
use ip_tools::report::date::{
    civil_from_days, day_at, days_from_civil, days_until_at, days_until_from_rfc3339, rfc3339_at, rfc3339_days_from, today,
};
use ip_tools::report::diagnosis::render_severity_badge;
use ip_tools::report::layout::{fmt, ms_or_dash, render_status, sanitize_snippet};
use ip_tools::report::{
    render_diagnoses, render_dns, render_dns_repeat, render_http, render_http_plain, render_probe, render_route,
    render_route_repeat, render_tcp, render_tls,
};
use ip_tools::route::{RouteHop, RouteHopStats, RouteRepeat};
use ip_tools::style::Style;

fn ip(s: &str) -> IpAddr {
    IpAddr::parse(s).unwrap()
}

fn socket(s: &str) -> SocketAddr {
    SocketAddr::parse(s).unwrap()
}

fn dns_obs(
    resolver: ResolverKind,
    rt: DnsRecordType,
    addrs: &[&str],
    ms: Option<u64>,
    error: Option<&str>,
) -> DnsObservation {
    DnsObservation {
        hostname: "example.com".into(),
        resolver,
        record_type: rt,
        ttl: Some(60),
        records: addrs
            .iter()
            .map(|a| match ip(a) {
                IpAddr::V4(v) => DnsRecord::A(v),
                IpAddr::V6(v) => DnsRecord::Aaaa(v),
            })
            .collect(),
        latency_ms: ms,
        error: error.map(|m| ProbeError {
            kind: FailureKind::Dns,
            message: m.into(),
        }),
    }
}

fn tls(cert: bool) -> TlsObservation {
    TlsObservation {
        destination: socket("1.1.1.1:443"),
        sni: "example.com".into(),
        success: cert,
        version: cert.then_some("TLSv1.3".into()),
        cipher: cert.then_some("TLS_AES_128_GCM_SHA256".into()),
        alpn: cert.then_some("h2".into()),
        certificate: cert.then_some(CertificateSummary {
            subject: "CN=example.com".into(),
            issuer: "CN=issuer".into(),
            not_before_utc: Some("2026-01-01T00:00:00Z".into()),
            not_after_utc: Some("2027-01-01T00:00:00Z".into()),
            sans: vec!["example.com".into(), "www.example.com".into()],
        }),
        latency_ms: cert.then_some(42),
        failure: (!cert).then_some(ProbeError {
            kind: FailureKind::TlsHandshake,
            message: "handshake failed".into(),
        }),
    }
}

/// Every renderer emits the expected content; exact column alignment is not
/// asserted.
#[test]
fn render_dns_covers_success_and_failure() {
    let obs = [
        dns_obs(
            ResolverKind::System,
            DnsRecordType::A,
            &["1.1.1.1", "8.8.8.8"],
            Some(5),
            None,
        ),
        dns_obs(
            ResolverKind::Custom(socket("9.9.9.9:53")),
            DnsRecordType::Aaaa,
            &[],
            Some(7),
            None,
        ),
        dns_obs(ResolverKind::System, DnsRecordType::Aaaa, &[], None, Some("no answer")),
    ];
    let out = render_dns(&Style::plain(), "example.com", &obs);
    assert!(out.contains("DNS example.com"));
    assert!(out.contains("system"));
    assert!(out.contains("1.1.1.1"));
    assert!(out.contains("8.8.8.8"));
    assert!(out.contains("9.9.9.9:53"));
    assert!(out.contains('A'));
    assert!(out.contains("AAAA"));
    assert!(out.contains("no answer"));
}

#[test]
fn render_dns_handles_empty_and_no_records() {
    // A success with no records and no latency -> "no records".
    let obs = [dns_obs(ResolverKind::System, DnsRecordType::A, &[], None, None)];
    assert!(render_dns(&Style::plain(), "example.com", &obs).contains("no records"));
    assert!(render_dns(&Style::plain(), "example.com", &[]).contains("DNS example.com"));
}

#[test]
fn render_dns_keeps_every_observation_not_just_the_first_per_resolver() {
    // `diagnose --reverse` on a multi-address host adds one System PTR
    // observation per resolved address; the human report must keep all of
    // them (each labelled with the address it answers) instead of
    // rendering only the first, matching JSON/CSV which iterate the full
    // set. The dedicated `dns` command yields one observation per
    // (resolver, record type), so its output is unchanged by this.
    let ptr = |addr: &str, target: &str| DnsObservation {
        hostname: addr.to_string(),
        resolver: ResolverKind::System,
        record_type: DnsRecordType::Ptr,
        records: vec![DnsRecord::Ptr(target.to_string())],
        ttl: Some(60),
        latency_ms: Some(2),
        error: None,
    };
    let obs = [ptr("192.0.2.1", "one.example"), ptr("192.0.2.2", "two.example")];
    let out = render_dns(&Style::plain(), "example.com", &obs);
    assert!(
        out.contains("192.0.2.1 :: one.example"),
        "the first reverse row must carry its address label: {out}"
    );
    assert!(
        out.contains("192.0.2.2 :: two.example"),
        "the second reverse row must not be dropped: {out}"
    );
}

#[test]
fn render_dns_shows_non_address_record_types() {
    let mx = DnsObservation {
        hostname: "example.com".into(),
        resolver: ResolverKind::System,
        record_type: DnsRecordType::Mx,
        ttl: Some(60),
        records: vec![DnsRecord::Mx {
            preference: 10,
            exchange: "mail.example.com".into(),
        }],
        latency_ms: Some(4),
        error: None,
    };
    let txt = DnsObservation {
        hostname: "example.com".into(),
        resolver: ResolverKind::System,
        record_type: DnsRecordType::Txt,
        ttl: Some(60),
        records: vec![DnsRecord::Txt("v=spf1 include:spf.example ~all".into())],
        latency_ms: Some(4),
        error: None,
    };
    let out = render_dns(&Style::plain(), "example.com", &[mx, txt]);
    assert!(out.contains("MX"), "MX row missing: {out}");
    assert!(out.contains("10 mail.example.com"), "MX record missing: {out}");
    assert!(out.contains("TXT"), "TXT row missing: {out}");
    assert!(
        out.contains("\"v=spf1 include:spf.example ~all\""),
        "TXT record missing: {out}"
    );
}

#[test]
fn render_dns_shows_caa_and_srv() {
    let caa = DnsObservation {
        hostname: "example.com".into(),
        resolver: ResolverKind::System,
        record_type: DnsRecordType::Caa,
        ttl: Some(60),
        records: vec![DnsRecord::Caa {
            flags: 0,
            tag: "issue".into(),
            value: "letsencrypt.org".into(),
        }],
        latency_ms: Some(4),
        error: None,
    };
    let srv = DnsObservation {
        hostname: "_sip._tcp.example.com".into(),
        resolver: ResolverKind::System,
        record_type: DnsRecordType::Srv,
        ttl: Some(60),
        records: vec![DnsRecord::Srv {
            priority: 1,
            weight: 2,
            port: 5060,
            target: "sip.example.com".into(),
        }],
        latency_ms: Some(4),
        error: None,
    };
    let out = render_dns(&Style::plain(), "example.com", &[caa, srv]);
    assert!(out.contains("CAA"), "CAA row missing: {out}");
    assert!(out.contains("0 issue letsencrypt.org"), "CAA record missing: {out}");
    assert!(out.contains("SRV"), "SRV row missing: {out}");
    assert!(out.contains("1 2 5060 sip.example.com"), "SRV record missing: {out}");
}

#[test]
fn render_tcp_covers_pass_fail_and_kinds() {
    let obs = [
        TcpObservation {
            destination: socket("1.1.1.1:443"),
            success: true,
            latency_ms: Some(12),
            failure: None,
        },
        TcpObservation {
            destination: socket("2.2.2.2:443"),
            success: false,
            latency_ms: None,
            failure: Some(ProbeError {
                kind: FailureKind::ConnectionRefused,
                message: "refused".into(),
            }),
        },
        TcpObservation {
            destination: socket("3.3.3.3:443"),
            success: false,
            latency_ms: None,
            failure: Some(ProbeError {
                kind: FailureKind::Timeout,
                message: "timed out".into(),
            }),
        },
    ];
    let out = render_tcp(&Style::plain(), &obs);
    assert!(out.contains("TCP connect"));
    assert!(out.contains("PASS"));
    assert!(out.contains("12 ms"));
    assert!(out.contains("connection refused"));
    assert!(out.contains("timeout"));
    // Failure without a ProbeError object falls back to the string "failed".
    let bare = [TcpObservation {
        destination: socket("4.4.4.4:443"),
        success: false,
        latency_ms: None,
        failure: None,
    }];
    assert!(render_tcp(&Style::plain(), &bare).contains("failed"));
}

#[test]
fn render_tls_covers_success_and_failure() {
    let out = render_tls(&Style::plain(), &[tls(true), tls(false)]);
    assert!(out.contains("TLS handshake"));
    assert!(out.contains("TLSv1.3"));
    assert!(out.contains("cipher: TLS_AES_128_GCM_SHA256"));
    assert!(out.contains("ALPN: h2"));
    assert!(out.contains("cert :"));
    assert!(out.contains("CN=example.com"));
    assert!(out.contains("issued by"));
    assert!(out.contains("handshake failed"));
    // Certificate without validity range degrades to no parenthetical.
    let no_validity = render_cert(Style::plain(), &CertificateSummary {
            subject: "CN=x".into(),
            issuer: "CN=y".into(),
            not_before_utc: None,
            not_after_utc: None,
            sans: Vec::new(),
        },
        today(),
    );
    assert_eq!(no_validity, "CN=x issued by CN=y");
    // Success without latency reports 0 ms but does not panic.
    assert!(out.contains("latency: 42 ms"));
}

#[test]
fn render_http_covers_success_redirect_and_failure() {
    let ok = HttpObservation {
        destination: socket("1.1.1.1:443"),
        host: "example.com".into(),
        method: "GET".into(),
        path: "/".into(),
        tls: Some(tls(true)),
        protocol: Some("HTTP/2".into()),
        status: Some(200),
        location: Some("https://example.com/login".into()),
        headers: Vec::new(),
        body_bytes: Some(1234),
        body_capped: false,
        body_snippet: None,
        ttfb_ms: None,
        latency_ms: Some(30),
        failure: None,
    };
    let err = HttpObservation {
        destination: socket("2.2.2.2:443"),
        host: "example.com".into(),
        method: "GET".into(),
        path: "/".into(),
        tls: None,
        protocol: Some("HTTP/2".into()),
        status: None,
        location: None,
        headers: Vec::new(),
        body_bytes: None,
        body_capped: false,
        body_snippet: None,
        ttfb_ms: None,
        latency_ms: None,
        failure: Some(ProbeError {
            kind: FailureKind::Http,
            message: "request failed".into(),
        }),
    };
    let no_status = HttpObservation {
        destination: socket("3.3.3.3:443"),
        host: "example.com".into(),
        method: "HEAD".into(),
        path: "/".into(),
        tls: None,
        protocol: None,
        status: None,
        location: None,
        headers: Vec::new(),
        body_bytes: None,
        body_capped: false,
        body_snippet: None,
        ttfb_ms: None,
        latency_ms: Some(1),
        failure: None,
    };
    // Headers received but no body ever completed: rendered as visibly
    // incomplete, and without an explicit protocol HTTP/1.1 is assumed.
    let truncated = HttpObservation {
        destination: socket("4.4.4.4:443"),
        host: "example.com".into(),
        method: "GET".into(),
        path: "/".into(),
        tls: None,
        protocol: None,
        status: Some(301),
        location: None,
        headers: Vec::new(),
        body_bytes: None,
        body_capped: false,
        body_snippet: None,
        ttfb_ms: None,
        latency_ms: None,
        failure: None,
    };
    let out = render_http(&Style::plain(), &[ok, err, no_status, truncated]);
    assert!(out.contains("example.com"));
    assert!(out.contains("HTTP/2"));
    assert!(out.contains("200"));
    assert!(out.contains("redirect: https://example.com/login"));
    assert!(out.contains("body: 1234 bytes"));
    // The HTTPS report must now surface the serving certificate and the
    // SAN coverage (parity with the `tls` command), not just the
    // negotiated TLS version/ALPN.
    assert!(
        out.contains("cert : CN=example.com"),
        "http report must show the cert: {out}"
    );
    assert!(
        out.contains("covers example.com: yes"),
        "http report must show the coverage: {out}"
    );
    assert!(out.contains("request failed"));
    // A failed observation must name its protocol so the HTTP/1.1, HTTP/2
    // and HTTP/3 rows of a failing host are distinguishable.
    assert!(out.contains("HTTP/2 http"), "failure row must name the protocol: {out}");
    assert!(out.contains("no status"));
    // Without an explicit protocol, HTTP/1.1 is assumed.
    assert!(out.contains("HTTP/1.1"));
    assert!(out.contains("301"));
    assert!(out.contains("body: incomplete"), "stalled body must be visible: {out}");
}

#[test]
fn render_http_labels_a_cleartext_block_http() {
    // `http --plain` / `diagnose --plain` carry no TLS observation:
    // heading the block `HTTPS` would present a plaintext endpoint as
    // encrypted, against the `HTTP/1.1` rows underneath.
    let plain = HttpObservation {
        destination: socket("192.0.2.1:80"),
        host: "example.com".into(),
        method: "GET".into(),
        path: "/".into(),
        tls: None,
        protocol: Some("HTTP/1.1".into()),
        status: Some(200),
        location: None,
        headers: Vec::new(),
        body_bytes: Some(2),
        body_capped: false,
        body_snippet: Some("ok".into()),
        ttfb_ms: None,
        latency_ms: Some(10),
        failure: None,
    };
    let out = render_http_plain(&Style::plain(), std::slice::from_ref(&plain));
    assert!(
        out.starts_with("HTTP\n"),
        "a cleartext block must be labelled HTTP, not HTTPS: {out}"
    );
    // Any TLS observation flips the block back to HTTPS.
    let with_tls = HttpObservation {
        tls: Some(TlsObservation {
            destination: socket("192.0.2.1:443"),
            sni: "example.com".into(),
            success: true,
            version: Some("TLSv1.3".into()),
            cipher: Some("AES_256_GCM".into()),
            alpn: Some("h2".into()),
            certificate: None,
            latency_ms: Some(5),
            failure: None,
        }),
        ..plain
    };
    assert!(
        render_http(&Style::plain(), std::slice::from_ref(&with_tls)).starts_with("HTTPS\n"),
        "a TLS block keeps the HTTPS label"
    );
    // A TLS run whose handshake *failed* must stay `HTTPS` too: the
    // observation cannot signal the intended protocol on its own (`tls` is
    // only recorded on success), and mislabelling it `HTTP` would present
    // a failed-encryption endpoint as a plaintext one.
    let failed_tls = HttpObservation {
        tls: None,
        failure: Some(ProbeError {
            kind: FailureKind::TlsHandshake,
            message: "tls handshake eof".into(),
        }),
        ..with_tls
    };
    assert!(
        render_http(&Style::plain(), std::slice::from_ref(&failed_tls)).starts_with("HTTPS\n"),
        "a TLS run with a failed handshake must keep the HTTPS label"
    );
}

#[test]
fn render_http_shows_body_content_snippet() {
    // A captured body snippet is rendered as a `body content:` line; the
    // explicit … marks truncation when the body continued past the cap.
    let ok = HttpObservation {
        destination: socket("1.1.1.1:443"),
        host: "example.com".into(),
        method: "GET".into(),
        path: "/".into(),
        tls: None,
        protocol: Some("HTTP/1.1".into()),
        status: Some(200),
        location: None,
        headers: Vec::new(),
        body_bytes: Some(2),
        body_capped: false,
        body_snippet: Some("ok".into()),
        ttfb_ms: None,
        latency_ms: Some(10),
        failure: None,
    };
    let out = render_http(&Style::plain(), &[ok]);
    assert!(
        out.contains("body content: ok"),
        "small body snippet must be visible: {out}"
    );

    let truncated = HttpObservation {
        destination: socket("2.2.2.2:443"),
        host: "example.com".into(),
        method: "GET".into(),
        path: "/".into(),
        tls: None,
        protocol: Some("HTTP/1.1".into()),
        status: Some(200),
        location: None,
        headers: Vec::new(),
        body_bytes: Some(2048),
        body_capped: false,
        body_snippet: Some("xxxx…".into()),
        ttfb_ms: None,
        latency_ms: Some(10),
        failure: None,
    };
    let out = render_http(&Style::plain(), &[truncated]);
    assert!(
        out.contains("body content: xxxx…"),
        "truncated snippet with … must be visible: {out}"
    );
}

#[test]
fn render_http_marks_a_capped_body_as_not_the_true_size() {
    // The same byte count is read differently depending on why the read
    // stopped: a body that hit the `max-body-bytes` cap is *not* known to
    // be that size (the response may continue past it), so it must be
    // marked capped instead of reading as `body: N bytes` — which a user
    // would take to be the true response length.
    let capped = HttpObservation {
        destination: socket("1.1.1.1:443"),
        host: "example.com".into(),
        method: "GET".into(),
        path: "/".into(),
        tls: None,
        protocol: Some("HTTP/1.1".into()),
        status: Some(200),
        location: None,
        headers: Vec::new(),
        body_bytes: Some(1024 * 1024),
        body_capped: true,
        body_snippet: Some("0000…".into()),
        ttfb_ms: None,
        latency_ms: Some(10),
        failure: None,
    };
    let out = render_http(&Style::plain(), std::slice::from_ref(&capped));
    assert!(
        out.contains("body (capped): 1048576 bytes"),
        "capped body must be marked, not presented as the true size: {out}"
    );
    assert!(
        !out.contains("\n    body: 1048576 bytes"),
        "a capped body must not read as `body: N bytes`: {out}"
    );
    // The same byte count with body_capped unset is the genuine size.
    let mut complete = capped;
    complete.body_capped = false;
    let out = render_http(&Style::plain(), &[complete]);
    assert!(
        out.contains("\n    body: 1048576 bytes"),
        "an uncapped body at the same count stays the true size: {out}"
    );
}

#[test]
fn render_probe_covers_full_stats_and_distribution() {
    let mut stats = LatencyStats::default();
    for v in [100u64, 200, 300, 400] {
        stats.push(v);
    }
    let result = ProbeResult {
        destination: socket("1.1.1.1:443"),
        attempts: 6,
        successes: 4,
        failures: 2,
        success_rate: Rate { part: 4, whole: 6 },
        latency: stats.summarize(),
        ttfb: LatencyStats::default().summarize(),
        failure_counts: vec![FailureCount {
            kind: FailureKind::Timeout,
            count: 2,
        }],
        status_counts: Vec::new(),
    };
    let no_latency = ProbeResult {
        destination: socket("2.2.2.2:443"),
        attempts: 2,
        successes: 0,
        failures: 2,
        success_rate: Rate { part: 0, whole: 2 },
        latency: LatencyStats::default().summarize(),
        ttfb: LatencyStats::default().summarize(),
        failure_counts: vec![],
        status_counts: Vec::new(),
    };
    let out = render_probe(&Style::plain(), &[result, no_latency]);
    assert!(out.contains("Repeated probes"));
    assert!(out.contains("attempts: 6"));
    assert!(out.contains("66.7%"));
    assert!(out.contains("p50:"));
    assert!(out.contains("p99:"));
    assert!(out.contains("jitter:"));
    assert!(out.contains("timeout: 2"));
    // No samples -> latency block omitted; no failures -> defaults.
    assert!(out.contains("0.0%"));
}

#[test]
fn render_dns_repeat_covers_success_latency_and_failures() {
    let mut stats = LatencyStats::default();
    for v in [10u64, 20, 30] {
        stats.push(v);
    }
    let ok = DnsRepeatResult {
        resolver: ResolverKind::Custom(socket("9.9.9.9:53")),
        record_type: DnsRecordType::A,
        attempts: 4,
        successes: 3,
        failures: 1,
        success_rate: Rate { part: 3, whole: 4 },
        latency: stats.summarize(),
        failure_counts: vec![FailureCount {
            kind: FailureKind::Dns,
            count: 1,
        }],
        ttl: Some(300),
    };
    let out = render_dns_repeat(&Style::plain(), "host.example", &[ok]);
    assert!(out.contains("Repeated DNS host.example"));
    assert!(out.contains("9.9.9.9:53 A"));
    assert!(out.contains("attempts: 4"));
    assert!(out.contains("success:  3 (75.0%)"));
    assert!(out.contains("failure:  1"));
    assert!(out.contains("dns: 1"));
    assert!(out.contains("ttl: 300 s"));
    assert!(out.contains("p50:"));
    assert!(out.contains("jitter:"));
}

#[test]
fn render_route_covers_hops_lost_and_empty() {
    let hops = [
        RouteHop {
            ttl: 1,
            addr: Some(ip("192.0.2.1")),
            hostname: Some("r1.example.com".into()),
            rtt_ms: Some(3),
            lost: false,
        },
        RouteHop {
            ttl: 2,
            addr: Some(ip("192.0.2.2")),
            hostname: None,
            rtt_ms: None,
            lost: true,
        },
        RouteHop {
            ttl: 3,
            addr: None,
            hostname: None,
            rtt_ms: None,
            lost: true,
        },
        RouteHop {
            ttl: 4,
            addr: Some(ip("192.0.2.4")),
            hostname: None,
            rtt_ms: None,
            lost: false,
        },
    ];
    let out = render_route(&Style::plain(), &hops);
    assert!(out.contains("Traceroute"));
    assert!(out.contains("r1.example.com (192.0.2.1)"));
    assert!(out.contains("3 ms"));
    // Lost hop prints `*`; a reachable hop with no RTT prints `-`.
    assert!(out.contains('*'));
    assert!(out.contains("192.0.2.4"));
}

#[test]
fn render_route_repeat_covers_answered_rate_and_path_change() {
    let mut stable = LatencyStats::default();
    stable.push(2);
    stable.push(4);
    let mut changed = LatencyStats::default();
    changed.push(9);
    let repeat = RouteRepeat {
        runs: 2,
        hops: vec![
            RouteHopStats {
                ttl: 1,
                answered: 2,
                addrs: vec![ip("192.0.2.1")],
                hostname: Some("r1.example.com".into()),
                rtt: stable.summarize(),
                path_changed: false,
            },
            RouteHopStats {
                ttl: 2,
                answered: 2,
                addrs: vec![ip("192.0.2.2"), ip("192.0.2.9")],
                hostname: None,
                rtt: changed.summarize(),
                path_changed: true,
            },
            RouteHopStats {
                ttl: 3,
                answered: 0,
                addrs: Vec::new(),
                hostname: None,
                rtt: LatencyStats::default().summarize(),
                path_changed: false,
            },
        ],
    };
    let out = render_route_repeat(&Style::plain(), &repeat);
    assert!(out.contains("Traceroute (2 runs)"), "header missing: {out}");
    assert!(out.contains("r1.example.com (192.0.2.1)"), "host label missing: {out}");
    assert!(out.contains("2/2 answered"), "answered rate missing: {out}");
    assert!(out.contains("min 2 ms"), "min latency missing: {out}");
    assert!(out.contains("max 4 ms"), "max latency missing: {out}");
    assert!(out.contains("path changed"), "divergent hop must be flagged: {out}");
    assert!(out.contains("0/2 (lost)"), "fully-lost hop must render as lost: {out}");
}

#[test]
fn render_diagnoses_covers_healthy_and_anomalous() {
    let healthy = Diagnosis {
        severity: Severity::Info,
        category: DiagnosticCategory::Healthy,
        confidence: Confidence::High,
        summary: "everything fine".into(),
        evidence: vec![Evidence {
            detail: "dns ok".into(),
        }],
        possible_causes: vec![],
    };
    let anomaly = Diagnosis {
        severity: Severity::High,
        category: DiagnosticCategory::TotalConnectivityLoss,
        confidence: Confidence::Medium,
        summary: "no tcp".into(),
        evidence: vec![Evidence {
            detail: "0/3 reachable".into(),
        }],
        possible_causes: vec!["server down".into(), "firewall".into()],
    };
    // A healthy-only run stays unchanged: no trailer.
    assert!(
        !render_diagnoses(&Style::plain(), std::slice::from_ref(&healthy)).contains("Anomalies:"),
        "healthy run must have no trailer"
    );
    let out = render_diagnoses(&Style::plain(), &[healthy, anomaly]);
    assert!(out.contains("Diagnosis"));
    assert!(out.contains("[INFO] Healthy (High confidence)"));
    assert!(out.contains("[HIGH] TotalConnectivityLoss (Medium confidence)"));
    assert!(out.contains("Evidence:"));
    assert!(out.contains("Possible causes:"));
    assert!(out.contains("firewall"));
    // A final trailer is appended only when an anomaly exists, and
    // names the High-severity count.
    assert!(out.contains("Anomalies: 1 (HIGH: 1)"), "trailer missing: {out}");
}

#[test]
fn diagnoses_verdict_trailer_aggregates_severities_and_colors_high_red() {
    let mk = |severity, category| Diagnosis {
        severity,
        category,
        confidence: Confidence::Low,
        summary: "s".into(),
        evidence: Vec::new(),
        possible_causes: Vec::new(),
    };
    let mixed = [
        mk(Severity::High, DiagnosticCategory::TotalConnectivityLoss),
        mk(Severity::Medium, DiagnosticCategory::Certificate),
        mk(Severity::Info, DiagnosticCategory::Healthy),
    ];
    let plain = render_diagnoses(&Style::plain(), &mixed);
    assert!(
        plain.contains("Anomalies: 2 (HIGH: 1, MEDIUM: 1)"),
        "severity aggregation missing: {plain}"
    );
    // High severity present -> the whole trailer line is red.
    let colored = render_diagnoses(&Style::colored_for_tests(), &mixed);
    assert!(
        colored.contains("\x1b[31mAnomalies: 2 (HIGH: 1, MEDIUM: 1)\x1b[0m"),
        "trailer must be red when any High anomaly is present: {colored:?}"
    );
    // Medium-only -> yellow.
    let med = [mk(Severity::Medium, DiagnosticCategory::Certificate)];
    let colored_med = render_diagnoses(&Style::colored_for_tests(), &med);
    assert!(
        colored_med.contains("\x1b[33mAnomalies: 1 (MEDIUM: 1)\x1b[0m"),
        "trailer must be yellow without High: {colored_med:?}"
    );
}

#[test]
fn days_from_civil_inverts_known_dates() {
    // 1970-01-01 is epoch day 0.
    assert_eq!(days_from_civil(1970, 1, 1), 0);
    // 2000-01-01 is 10957 days after the epoch (canonical Hinnant value);
    // the next day is 10958.
    assert_eq!(days_from_civil(2000, 1, 1), 10_957);
    assert_eq!(days_from_civil(2000, 1, 2), 10_958);
    // Later dates are larger day counts.
    assert!(days_from_civil(2026, 7, 29) > days_from_civil(2026, 7, 1));
}

#[test]
fn days_until_measures_expiry_relative_to_today() {
    // The epoch reference date is far in the past.
    assert!(days_until_from_rfc3339("1970-01-01T00:00:00Z").is_some_and(|d| d < -1000));

    // A timestamp built from `today + 5` must read as exactly 5 days out —
    // the same `days_from_civil` the production code uses makes the
    // round-trip exact with no time-of-day skew.
    let now_days = i64::try_from(
        std::time::SystemTime::now()
            .duration_since(std::time::UNIX_EPOCH)
            .expect("epoch")
            .as_secs()
            / 86_400,
    )
    .expect("days fit i64");
    let (y, m, d) = civil_from_days(now_days + 5);
    let rfc = format!("{y:04}-{m:02}-{d:02}T00:00:00Z");
    assert_eq!(days_until_from_rfc3339(&rfc), Some(5), "5 days out: {rfc}");

    // Malformed input is rejected, not partially parsed.
    assert_eq!(days_until_from_rfc3339("garbage"), None);
    assert_eq!(days_until_from_rfc3339("not-a-date"), None);
}

#[test]
fn render_cert_annotates_expiry_lifetime() {
    let cert = |days: i64| CertificateSummary {
        subject: "CN=x".into(),
        issuer: "CN=y".into(),
        not_before_utc: Some("2026-01-01T00:00:00Z".into()),
        not_after_utc: Some(days_out_rfc3339(days)),
        sans: Vec::new(),
    };
    // Far future: no lifetime annotation.
    let far = render_cert(Style::plain(), &cert(400), today());
    assert!(!far.contains("expires in"), "far expiry has no annotation: {far}");
    assert!(!far.contains("expired"), "far expiry has no annotation: {far}");
    // Near expiry: annotated.
    let near = render_cert(Style::plain(), &cert(5), today());
    assert!(near.contains("expires in 5 days"), "near expiry annotated: {near}");
    // Expiring today: the clearer terminal phrasing, not "0 days".
    let due = render_cert(Style::plain(), &cert(0), today());
    assert!(due.contains("expires today"), "today expiry phrased clearly: {due}");
    // Already expired: annotated.
    let past = render_cert(Style::plain(), &cert(-3), today());
    assert!(past.contains("expired"), "expired annotated: {past}");
}

#[test]
fn render_cert_shows_subject_alternative_names() {
    let with_sans = CertificateSummary {
        subject: "CN=example.com".into(),
        issuer: "CN=CA".into(),
        not_before_utc: None,
        not_after_utc: None,
        sans: vec!["example.com".into(), "127.0.0.1".into()],
    };
    let out = render_cert(Style::plain(), &with_sans, today());
    assert!(
        out.contains("; sans: example.com, 127.0.0.1"),
        "SANs should be rendered: {out}"
    );

    // No SANs -> no annotation (keeps old output shape).
    let none = CertificateSummary {
        subject: "CN=x".into(),
        issuer: "CN=y".into(),
        not_before_utc: None,
        not_after_utc: None,
        sans: Vec::new(),
    };
    assert_eq!(render_cert(Style::plain(), &none, today()), "CN=x issued by CN=y");
}

#[test]
fn cert_covers_hostname_matches_rfc6125_semantics() {
    let sans = |s: &[&str]| s.iter().map(ToString::to_string).collect::<Vec<_>>();
    // Exact DNS match.
    assert!(cert_covers_hostname(
        "example.com",
        &sans(&["example.com", "www.example.com"])
    ));
    // Case-insensitive.
    assert!(cert_covers_hostname("EXAMPLE.COM", &sans(&["example.com"])));
    // Wildcard covers a single left-most label.
    assert!(cert_covers_hostname("api.example.com", &sans(&["*.example.com"])));
    // Wildcard does not cover multiple labels, nor the bare apex.
    assert!(!cert_covers_hostname("a.b.example.com", &sans(&["*.example.com"])));
    assert!(!cert_covers_hostname("example.com", &sans(&["*.example.com"])));
    // IP-literal SNI matches an IP SAN exactly.
    assert!(cert_covers_hostname("127.0.0.1", &sans(&["127.0.0.1"])));
    assert!(!cert_covers_hostname("192.0.2.1", &sans(&["127.0.0.1"])));
    // No match.
    assert!(!cert_covers_hostname("other.example", &sans(&["example.com"])));
}

#[test]
fn cert_covers_hostname_matches_bracketed_ipv6_literal_sni() {
    // `Target::parse("[2001:db8::1]", _)` keeps the brackets on the host,
    // which flows through to the SNI. The IP-literal branch parses the SNI
    // as an address; brackets made that parse fail and dropped the match
    // to a bare IP SAN (`covers ...: no` on a cert that does cover the
    // address) — in the human TLS/HTTP reports, both CSVs, and the
    // diagnose certificate-coverage rule.
    let sans = |s: &[&str]| s.iter().map(ToString::to_string).collect::<Vec<_>>();
    assert!(cert_covers_hostname("[2001:db8::1]", &sans(&["2001:db8::1"])));
    assert!(!cert_covers_hostname("[2001:db8::1]", &sans(&["2001:db8::2"])));
    // Bracketed IPv4 (an unusual but accepted input form) matches too.
    assert!(cert_covers_hostname("[127.0.0.1]", &sans(&["127.0.0.1"])));
    assert!(cert_covers_hostname("2001:db8::1", &sans(&["2001:db8::1"])));
}

#[test]
fn render_tls_reports_cert_hostname_coverage_verdict() {
    let covered = TlsObservation {
        destination: socket("1.1.1.1:443"),
        sni: "example.com".into(),
        success: true,
        version: Some("TLSv1.3".into()),
        cipher: Some("TLS_AES_128_GCM_SHA256".into()),
        alpn: None,
        certificate: Some(CertificateSummary {
            subject: "CN=example.com".into(),
            issuer: "CN=CA".into(),
            not_before_utc: None,
            not_after_utc: None,
            sans: vec!["example.com".into(), "127.0.0.1".into()],
        }),
        latency_ms: Some(7),
        failure: None,
    };
    assert!(render_tls(&Style::plain(), std::slice::from_ref(&covered)).contains("covers example.com: yes"));

    let mut mismatch = covered;
    mismatch.sni = "attacker.example".into();
    assert!(render_tls(&Style::plain(), std::slice::from_ref(&mismatch)).contains("covers attacker.example: no"));
}

/// RFC 3339 UTC string for the civil date `now + offset` days from today,
/// used to build deterministic expiry timestamps in tests.
fn days_out_rfc3339(offset: i64) -> String {
    let now_days = std::time::SystemTime::now()
        .duration_since(std::time::UNIX_EPOCH)
        .expect("epoch")
        .as_secs()
        / 86_400;
    let (y, m, d) = civil_from_days(i64::try_from(now_days).expect("days fit i64") + offset);
    format!("{y:04}-{m:02}-{d:02}T00:00:00Z")
}

/// A colored [`Style`] for tests (bypasses the TTY/env gate).
fn colored() -> Style {
    Style::colored_for_tests()
}

#[test]
fn colored_renderers_inject_ansi_for_verdicts_and_status_classes() {
    let colored = colored();
    let plain = Style::plain();

    // TCP: PASS green, refused/timeout red; plain stays byte-identical.
    let tcp = [TcpObservation {
        destination: socket("1.1.1.1:443"),
        success: true,
        latency_ms: Some(12),
        failure: None,
    }];
    let out = render_tcp(&colored, &tcp);
    assert!(out.contains("\x1b[32mPASS"), "PASS should be green: {out:?}");
    // The plain style is byte-identical to the text: no escape
    // codes anywhere, and the PASS line keeps its exact shape.
    let plain_out = render_tcp(&plain, &tcp);
    assert!(
        !plain_out.contains('\u{1b}'),
        "plain must have no escapes: {plain_out:?}"
    );
    assert!(plain_out.contains("PASS      12 ms"), "PASS line shape: {plain_out:?}");
    let fails = [TcpObservation {
        destination: socket("2.2.2.2:443"),
        success: false,
        latency_ms: None,
        failure: Some(ProbeError {
            kind: FailureKind::ConnectionRefused,
            message: "refused".into(),
        }),
    }];
    assert!(render_tcp(&colored, &fails).contains("\x1b[31m"));

    // HTTP: 2xx green, 3xx yellow, 5xx red.
    assert_eq!(render_status(colored, 200), "\x1b[32m200\x1b[0m");
    assert_eq!(render_status(colored, 302), "\x1b[33m302\x1b[0m");
    assert_eq!(render_status(colored, 503), "\x1b[31m503\x1b[0m");
    assert_eq!(render_status(plain, 200), "200");

    // Diagnosis badges: HIGH red, MEDIUM yellow, INFO cyan, LOW plain.
    assert_eq!(render_severity_badge(colored, Severity::High), "\x1b[31mHIGH\x1b[0m");
    assert_eq!(
        render_severity_badge(colored, Severity::Medium),
        "\x1b[33mMEDIUM\x1b[0m"
    );
    assert_eq!(render_severity_badge(colored, Severity::Info), "\x1b[36mINFO\x1b[0m");
    assert_eq!(render_severity_badge(colored, Severity::Low), "LOW");
}

#[test]
fn unmeasured_latency_renders_dash_not_fabricated_zero() {
    // A success row whose latency is absent (possible only by model
    // construction — probe paths always record `Some`) must not present a
    // fabricated "0 ms" as a measured value; `-` is the honest placeholder.
    let tcp = [TcpObservation {
        destination: socket("1.1.1.1:443"),
        success: true,
        latency_ms: None,
        failure: None,
    }];
    let out = render_tcp(&Style::plain(), &tcp);
    assert!(out.contains("PASS      -"), "unmeasured PASS shows '-' not 0 ms: {out}");
    assert!(!out.contains("0 ms"), "no fabricated 0 ms: {out}");

    let tls = TlsObservation {
        destination: socket("1.1.1.1:443"),
        sni: "example.com".into(),
        success: true,
        version: Some("TLSv1.3".into()),
        cipher: None,
        alpn: None,
        certificate: None,
        latency_ms: None,
        failure: None,
    };
    let tlso = render_tls(&Style::plain(), &[tls]);
    assert!(tlso.contains("latency: -"), "TLS latency is '-' not 0 ms: {tlso}");

    let http = HttpObservation {
        destination: socket("1.1.1.1:443"),
        host: "example.com".into(),
        method: "GET".into(),
        path: "/".into(),
        tls: None,
        protocol: Some("HTTP/1.1".into()),
        status: Some(200),
        location: None,
        headers: Vec::new(),
        body_bytes: None,
        body_capped: false,
        body_snippet: None,
        ttfb_ms: None,
        latency_ms: None,
        failure: None,
    };
    let hout = render_http(&Style::plain(), &[http]);
    assert!(hout.contains("latency: -"), "HTTP latency is '-' not 0 ms: {hout}");
}

#[test]
fn long_host_widens_column_so_status_aligns() {
    // A destination longer than the fixed 24-wide column must
    // not shove its status token past where the shorter rows put theirs:
    // the column widens to the longest destination, keeping the rows
    // aligned. Short-only output stays byte-identical.
    let short = [TcpObservation {
        destination: socket("1.1.1.1:443"),
        success: true,
        latency_ms: Some(5),
        failure: None,
    }];
    let short_out = render_tcp(&Style::plain(), &short);
    assert!(
        short_out.contains("PASS      5 ms"),
        "short stays 24-wide: {short_out:?}"
    );

    let long = [
        TcpObservation {
            destination: socket("[2001:0db8:85a3:0000:0000:8a2e:0370:7334]:443"),
            success: true,
            latency_ms: Some(5),
            failure: None,
        },
        TcpObservation {
            destination: socket("[2001:db8::1]:443"),
            success: true,
            latency_ms: Some(6),
            failure: None,
        },
    ];
    let long_out = render_tcp(&Style::plain(), &long);
    // Both rows must place the PASS status token at the same column: the
    // widest destination (the long hostname) sets the shared width.
    let col = |line: &str| line.find("PASS").expect("row has PASS");
    let mut lines = long_out.lines().filter(|l| l.contains("PASS"));
    let first = lines.next().expect("first PASS row");
    let second = lines.next().expect("second PASS row");
    assert_eq!(
        col(first),
        col(second),
        "PASS column must align under a long host:\n{long_out}"
    );
    // And the 24-wide shape is preserved when all hosts fit.
    assert_ne!(short_out, long_out);
}

#[test]
fn colored_render_equals_plain_after_stripping_escape_bytes() {
    // The column-alignment hazard that ANSI would otherwise introduce: if
    // any renderer padded a *colored* token (so the escape bytes counted
    // toward the width), the columns under a colored style would drift
    // from the plain style. Every padded token is painted whole, so
    // removing SGR escape sequences reproduces the plain text exactly.
    let colored = colored();
    let plain = Style::plain();

    let tcp = [TcpObservation {
        destination: socket("1.1.1.1:443"),
        success: true,
        latency_ms: Some(12),
        failure: None,
    }];
    let colored_tcp = render_tcp(&colored, &tcp);
    let plain_tcp = render_tcp(&plain, &tcp);
    assert_eq!(
        strip_sgr(&colored_tcp),
        plain_tcp,
        "TCP columns stable: {colored_tcp:?}"
    );

    // Capture the failure row too (its `{err:10}` pad must be painted whole).
    let tcp_fail = [TcpObservation {
        destination: socket("2.2.2.2:443"),
        success: false,
        latency_ms: None,
        failure: Some(ProbeError {
            kind: FailureKind::ConnectionRefused,
            message: "refused".into(),
        }),
    }];
    let colored_fail = render_tcp(&colored, &tcp_fail);
    let plain_fail = render_tcp(&plain, &tcp_fail);
    assert_eq!(
        strip_sgr(&colored_fail),
        plain_fail,
        "fail pad stable: {colored_fail:?}"
    );

    // HTTP status class colors live at the end of an unpadded row, so they
    // cannot shift a column either.
    let http = HttpObservation {
        destination: socket("1.1.1.1:443"),
        host: "example.com".into(),
        method: "GET".into(),
        path: "/".into(),
        tls: None,
        protocol: Some("HTTP/2".into()),
        status: Some(503),
        location: None,
        headers: Vec::new(),
        body_bytes: None,
        body_capped: false,
        body_snippet: None,
        ttfb_ms: None,
        latency_ms: Some(9),
        failure: None,
    };
    // Render the same observation with both styles; `from_ref` avoids a
    // clone of the whole observation for the (immutable) colored pass.
    let colored_http = render_http(&colored, std::slice::from_ref(&http));
    let plain_http = render_http(&plain, &[http]);
    assert_eq!(
        strip_sgr(&colored_http),
        plain_http,
        "HTTP columns stable: {colored_http:?}"
    );
}

/// Remove ANSI SGR escape sequences (`ESC[...m`) from a string, so a
/// colored render can be compared with the same render under a plain style
/// to prove escape bytes never shift column alignment.
fn strip_sgr(s: &str) -> String {
    let mut out = String::with_capacity(s.len());
    let mut chars = s.chars().peekable();
    while let Some(c) = chars.next() {
        if c == '\u{1b}' && chars.peek() == Some(&'[') {
            chars.next(); // consume '['
            for inner in chars.by_ref() {
                if ('@'..='~').contains(&inner) {
                    break;
                }
            }
        } else {
            out.push(c);
        }
    }
    out
}

#[test]
fn colored_marks_route_losses_expiry_and_cert_coverage() {
    let colored = colored();

    // A lost route hop's `*` is red.
    let hops = [RouteHop {
        ttl: 2,
        addr: None,
        hostname: None,
        rtt_ms: None,
        lost: true,
    }];
    assert!(render_route(&colored, &hops).contains("\x1b[31m*\x1b[0m"));

    // Repeat aggregation: `(lost)` red, `path changed` yellow.
    let repeat = RouteRepeat {
        runs: 2,
        hops: vec![
            RouteHopStats {
                ttl: 1,
                answered: 0,
                addrs: Vec::new(),
                hostname: None,
                rtt: LatencyStats::default().summarize(),
                path_changed: false,
            },
            RouteHopStats {
                ttl: 2,
                answered: 2,
                addrs: vec![ip("192.0.2.2")],
                hostname: None,
                rtt: LatencyStats::default().summarize(),
                path_changed: true,
            },
        ],
    };
    let out = render_route_repeat(&colored, &repeat);
    assert!(out.contains("\x1b[31m*\x1b[0m"), "lost-hop star red: {out:?}");
    assert!(out.contains("\x1b[31m2 (lost)\x1b[0m"), "lost marker red: {out:?}");
    assert!(
        out.contains("\x1b[33mpath changed\x1b[0m"),
        "path change yellow: {out:?}"
    );

    // Certificate lifetime: expired red, expiring yellow.
    let expired = CertificateSummary {
        subject: "CN=x".into(),
        issuer: "CN=y".into(),
        not_before_utc: None,
        not_after_utc: Some(days_out_rfc3339(-3)),
        sans: Vec::new(),
    };
    assert!(render_cert(colored, &expired, today()).contains("\x1b[31m (expired)\x1b[0m"));
    let near = CertificateSummary {
        not_after_utc: Some(days_out_rfc3339(5)),
        ..expired
    };
    assert!(render_cert(colored, &near, today()).contains("\x1b[33m (expires in 5 days)\x1b[0m"));

    // `covers <host>: no` is red in TLS and HTTPS reports.
    let tls_no = TlsObservation {
        destination: socket("1.1.1.1:443"),
        sni: "attacker.example".into(),
        success: true,
        version: Some("TLSv1.3".into()),
        cipher: Some("x".into()),
        alpn: None,
        certificate: Some(CertificateSummary {
            subject: "CN=example.com".into(),
            issuer: "CN=y".into(),
            not_before_utc: None,
            not_after_utc: None,
            sans: vec!["example.com".into()],
        }),
        latency_ms: Some(1),
        failure: None,
    };
    assert!(render_tls(&colored, std::slice::from_ref(&tls_no)).contains("\x1b[31mno\x1b[0m"));
    assert!(
        render_tls(&colored, std::slice::from_ref(&tls_no)).contains("covers attacker.example: \x1b[31mno\x1b[0m")
    );
}

#[test]
fn sanitize_snippet_neutralizes_terminal_control_characters() {
    // ANSI escape (would spoof the tool's own color), newlines
    // (would split the body-content row), and other C0 controls must all
    // render as visible escapes; ordinary text passes through unchanged.
    assert_eq!(sanitize_snippet("ok"), "ok");
    assert_eq!(sanitize_snippet("\x1b[31mFAIL\x1b[0m"), "\\x1b[31mFAIL\\x1b[0m");
    assert_eq!(sanitize_snippet("line1\nline2"), "line1\\nline2");
    assert_eq!(sanitize_snippet("a\tb"), "a\\tb");
    assert_eq!(sanitize_snippet("nul\x00byte"), "nul\\x00byte");
}

/// Dates reach as far as a day number does.
#[test]
fn dates_reach_the_ends_of_their_type() {
    for days in [i64::MIN, i64::MIN + 1, -1, 0, 1, i64::MAX - 1, i64::MAX] {
        let (y, m, d) = civil_from_days(days);
        assert_eq!(days_from_civil(y, i64::from(m), i64::from(d)), days);
    }
    assert_eq!(civil_from_days(i64::MAX), (25_252_734_927_768_524, 7, 27));
    assert_eq!(rfc3339_at(i64::MAX), "25252734927768524-07-27T00:00:00Z");
    assert_eq!(rfc3339_days_from(Some(0), i64::MAX), Some(rfc3339_at(i64::MAX)));
    assert_eq!(rfc3339_days_from(Some(0), i64::MIN), Some(rfc3339_at(i64::MIN)));
}

#[test]
fn timestamps_are_measured_from_a_given_day() {
    assert_eq!(rfc3339_at(0), "1970-01-01T00:00:00Z");
    assert_eq!(rfc3339_at(19_782), "2024-02-29T00:00:00Z");
    assert_eq!(civil_from_days(-1), (1969, 12, 31));
    assert_eq!(days_until_at("2024-03-01T12:00:00Z", Some(19_782)), Some(1));
    assert_eq!(days_until_at("2024-03-01T12:00:00Z", None), None);
    assert_eq!(rfc3339_days_from(Some(19_782), 1).as_deref(), Some("2024-03-01T00:00:00Z"));
    assert_eq!(rfc3339_days_from(Some(0), -1).as_deref(), Some("1969-12-31T00:00:00Z"));
    assert_eq!(rfc3339_days_from(None, 1), None);
}

#[test]
fn a_clock_reading_is_a_whole_day() {
    assert_eq!(day_at(Some(0)), Some(0));
    assert_eq!(day_at(Some(86_399)), Some(0));
    assert_eq!(day_at(Some(86_400)), Some(1));
    assert_eq!(day_at(Some(1_709_251_199)), Some(19_782));
    assert_eq!(day_at(None), None);
}

#[test]
fn unknown_values_are_dashes() {
    assert_eq!(ms_or_dash(None), "-");
    assert_eq!(ms_or_dash(Some(7)), "7 ms");
    assert_eq!(fmt(None), "-");
    assert_eq!(fmt(Some(12)), "12");
}

#[test]
fn color_leaves_every_report_the_same() {
    let tls = [tls(true), tls(false)];
    assert_eq!(strip_sgr(&render_tls(&Style::colored_for_tests(), &tls)), render_tls(&Style::plain(), &tls));
    let hops = [RouteHop { ttl: 1, addr: None, hostname: None, rtt_ms: None, lost: true }];
    assert_eq!(strip_sgr(&render_route(&Style::colored_for_tests(), &hops)), render_route(&Style::plain(), &hops));
    let dns = [dns_obs(ResolverKind::System, DnsRecordType::A, &["192.0.2.1"], None, Some("no answer"))];
    assert_eq!(
        strip_sgr(&render_dns(&Style::colored_for_tests(), "h", &dns)),
        render_dns(&Style::plain(), "h", &dns)
    );
}

#[test]
fn only_a_whole_timestamp_is_a_date() {
    assert_eq!(days_until_at("2024-03-01T23:59:59Z", Some(19_782)), Some(1));
    for odd in [
        "2030/01/02 garbage",
        "2030-01-02",
        "2030-01-02T00:00:00",
        "2030-01-02T00:00:00Zx",
        "2030-01-02T00:00:00+00:00",
        "2030-01-02 00:00:00Z",
        "+030-01-02T00:00:00Z",
        "2030-01-02T00-00-00Z",
    ] {
        assert_eq!(days_until_at(odd, Some(0)), None, "{odd}");
        assert_eq!(days_until_from_rfc3339(odd), None, "{odd}");
    }
}

#[test]
fn coverage_is_by_any_name_in_any_case_with_or_without_brackets() {
    let names = |s: &[&str]| -> Vec<String> { s.iter().map(|x| x.to_string()).collect() };
    let (a, b) = (names(&["*.example.com"]), names(&["2001:DB8::1"]));
    let both = [a.clone(), b.clone()].concat();
    for sni in ["www.example.com", "WWW.EXAMPLE.COM", "[www.example.com]", "2001:db8::1", "[2001:Db8::1]"] {
        assert!(cert_covers_hostname(sni, &both), "{sni}");
        assert!(cert_covers_hostname(sni, &a) != cert_covers_hostname(sni, &b), "{sni}");
        assert!(!cert_covers_hostname(sni, &[]), "{sni}");
    }
}
