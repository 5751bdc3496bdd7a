use ip_tools::diagnostics::layer::{
    certificate_coverage_rules, certificate_lifetime_rules, http_layer_rules, intermittent_rules, quic_rules,
    redirect_rules, tls_layer_rules, truncated_body_rules,
};
use ip_tools::diagnostics::DiagnosticInput;
use ip_tools::model::{
    CertificateSummary, Confidence, DiagnosticCategory, FailureCount, FailureKind, HttpObservation, LatencyStats,
    ProbeError, ProbeResult, Rate, Severity, TcpObservation, TlsObservation,
};
use ip_tools::net::SocketAddr;
use ip_tools::report::date::{rfc3339_days_from_now, today};

fn socket(s: &str) -> SocketAddr {
    SocketAddr::parse(s).unwrap()
}

/// The timestamp of a day relative to today.
fn days_out(days: i64) -> String {
    rfc3339_days_from_now(days).expect("a clock")
}

fn http(dest: &str, protocol: &str, status: Option<u16>, failure: Option<&str>) -> HttpObservation {
    HttpObservation {
        destination: socket(dest),
        host: "example.com".into(),
        method: "GET".into(),
        path: "/".into(),
        tls: None,
        protocol: Some(protocol.into()),
        status,
        location: None,
        headers: Vec::new(),
        body_bytes: Some(status.map_or(0, |_| 100)),
        body_capped: false,
        body_snippet: None,
        ttfb_ms: None,
        latency_ms: status.map(|_| 20),
        failure: failure.map(|m| ProbeError {
            kind: FailureKind::Http,
            message: m.into(),
        }),
    }
}

fn probes(failures: usize, attempts: usize) -> ProbeResult {
    let mut stats = LatencyStats::default();
    for _ in 0..(attempts - failures) {
        stats.push(10);
    }
    ProbeResult {
        destination: socket("1.1.1.1:443"),
        attempts,
        successes: attempts - failures,
        failures,
        success_rate: Rate { part: (attempts - failures) as u64, whole: attempts as u64 },
        latency: stats.summarize(),
        ttfb: LatencyStats::default().summarize(),
        failure_counts: if failures > 0 {
            vec![FailureCount {
                kind: FailureKind::Timeout,
                count: failures,
            }]
        } else {
            Vec::new()
        },
        status_counts: Vec::new(),
    }
}

fn input<'a>(
    tls: &'a [TlsObservation],
    http: &'a [HttpObservation],
    probes: &'a [ProbeResult],
) -> DiagnosticInput<'a> {
    DiagnosticInput {
        hostname: "example.com",
        dns: &[],
        tcp: &[],
        tls,
        http,
        probes,
    }
}

#[test]
fn quic_fires_when_http3_fails_but_tcp_http_ok() {
    let obs = [
        http("1.1.1.1:443", "HTTP/1.1", Some(200), None),
        http("1.1.1.1:443", "HTTP/3", None, Some("quic handshake failed")),
    ];
    let mut out = Vec::new();
    quic_rules(&input(&[], &obs, &[]), &mut out);
    let q = out.iter().find(|d| d.category == DiagnosticCategory::Quic);
    assert!(q.is_some(), "QUIC diagnosis should fire: {out:?}");
    assert_eq!(q.unwrap().confidence, Confidence::Medium);
}

#[test]
fn quic_does_not_fire_when_no_http3_or_http_fails() {
    let only_h3_fail = [http("1.1.1.1:443", "HTTP/3", None, Some("fail"))];
    let mut out = Vec::new();
    // Without a healthy TCP/HTTP path, quic_rules stays silent.
    quic_rules(&input(&[], &only_h3_fail, &[]), &mut out);
    assert!(out.is_empty());
}

#[test]
fn http_layer_fires_on_server_error_status() {
    let obs = [http("1.1.1.1:443", "HTTP/1.1", Some(500), None)];
    let mut out = Vec::new();
    http_layer_rules(&input(&[], &obs, &[]), &mut out);
    assert!(out.iter().any(|d| d.category == DiagnosticCategory::Http));
}

#[test]
fn http_layer_fires_on_transport_failure() {
    let obs = [http("2.2.2.2:443", "HTTP/1.1", None, Some("request failed"))];
    let mut out = Vec::new();
    http_layer_rules(&input(&[], &obs, &[]), &mut out);
    assert!(out.iter().any(|d| d.category == DiagnosticCategory::Http));
}

#[test]
fn http_layer_ignores_failures_owned_by_other_layers() {
    // A QUIC transport failure, a wall-clock QUIC handshake timeout, and
    // a TLS handshake/certificate failure each belong to their own layer
    // rule; on a TCP-connected address they must not be re-raised as an
    // HTTP-layer error too. (The HTTP/3 *timeout* matters: a silent-UDP
    // or stalled QUIC peer surfaces as `Timeout`, not `Quic`, and must
    // not be double-counted as an HTTP-layer error.)
    let with_kind = |kind| HttpObservation {
        destination: socket("1.1.1.1:443"),
        host: "example.com".into(),
        method: "GET".into(),
        path: "/".into(),
        tls: None,
        protocol: Some("HTTP/3".into()),
        status: None,
        location: None,
        headers: Vec::new(),
        body_bytes: None,
        body_capped: false,
        body_snippet: None,
        ttfb_ms: None,
        latency_ms: None,
        failure: Some(ProbeError {
            kind,
            message: "another layer's failure".into(),
        }),
    };
    let tcp_ok = [TcpObservation {
        destination: socket("1.1.1.1:443"),
        success: true,
        latency_ms: Some(5),
        failure: None,
    }];
    for kind in [
        FailureKind::Quic,
        FailureKind::TlsHandshake,
        FailureKind::Certificate,
        FailureKind::Timeout,
    ] {
        let mut out = Vec::new();
        http_layer_rules(
            &DiagnosticInput {
                hostname: "example.com",
                dns: &[],
                tcp: &tcp_ok,
                tls: &[],
                http: &[with_kind(kind)],
                probes: &[],
            },
            &mut out,
        );
        assert!(out.is_empty(), "{kind:?} must not be re-raised as an HTTP-layer error");
    }

    // A genuine HTTP-protocol-layer failure still raises it.
    let mut out = Vec::new();
    http_layer_rules(
        &DiagnosticInput {
            hostname: "example.com",
            dns: &[],
            tcp: &tcp_ok,
            tls: &[],
            http: &[with_kind(FailureKind::Http)],
            probes: &[],
        },
        &mut out,
    );
    assert!(out.iter().any(|d| d.category == DiagnosticCategory::Http));
}

#[test]
fn redirect_fires_on_3xx_with_location() {
    let obs = [HttpObservation {
        destination: socket("1.1.1.1:443"),
        host: "example.com".into(),
        method: "GET".into(),
        path: "/".into(),
        tls: None,
        protocol: Some("HTTP/1.1".into()),
        status: Some(302),
        location: Some("https://example.com/login".into()),
        headers: Vec::new(),
        body_bytes: Some(0),
        body_capped: false,
        body_snippet: None,
        ttfb_ms: None,
        latency_ms: Some(20),
        failure: None,
    }];
    let mut out = Vec::new();
    redirect_rules(&input(&[], &obs, &[]), &mut out);
    let r = out.iter().find(|d| d.summary.contains("redirected"));
    assert!(r.is_some(), "redirect diagnosis should fire: {out:?}");
    assert_eq!(r.unwrap().severity, Severity::Low);
    assert!(
        out.iter().any(|d| d
            .evidence
            .iter()
            .any(|e| e.detail.contains("https://example.com/login"))),
        "redirect evidence should name the Location target: {out:?}"
    );
}

#[test]
fn redirect_silent_on_2xx_and_on_failure() {
    // A successful 2xx carries no redirect signal.
    let ok = [http("1.1.1.1:443", "HTTP/1.1", Some(200), None)];
    let mut out = Vec::new();
    redirect_rules(&input(&[], &ok, &[]), &mut out);
    assert!(out.is_empty(), "2xx must not raise a redirect diagnosis: {out:?}");

    // A failed probe is owned by the HTTP-layer error rule, not a redirect
    // claim (the redirect rule only looks at completed observations).
    let failed = [http("1.1.1.1:443", "HTTP/1.1", None, Some("request failed"))];
    let mut out = Vec::new();
    redirect_rules(&input(&[], &failed, &[]), &mut out);
    assert!(
        out.is_empty(),
        "failed probe must not raise a redirect diagnosis: {out:?}"
    );
}

#[test]
fn http_layer_counts_request_timeouts_for_tls_but_not_quic() {
    // The layer boundary is per-transport: an HTTP/1.1+2 row whose request
    // timed out after TLS is the server not answering HTTP (a genuine
    // HTTP-layer signal, e.g. a port that accepts TLS but never serves
    // HTTP) — it fires. An HTTP/3 row whose *QUIC handshake* timed out is
    // the QUIC path (the QUIC rules' to report) and must not fire.
    let tcp_ok = [TcpObservation {
        destination: socket("1.1.1.1:443"),
        success: true,
        latency_ms: Some(5),
        failure: None,
    }];
    let obs = |protocol: &str| HttpObservation {
        destination: socket("1.1.1.1:443"),
        host: "example.com".into(),
        method: "GET".into(),
        path: "/".into(),
        tls: None,
        protocol: Some(protocol.into()),
        status: None,
        location: None,
        headers: Vec::new(),
        body_bytes: None,
        body_capped: false,
        body_snippet: None,
        ttfb_ms: None,
        latency_ms: None,
        failure: Some(ProbeError {
            kind: FailureKind::Timeout,
            message: "request timed out".into(),
        }),
    };
    for protocol in ["HTTP/1.1", "HTTP/2"] {
        let mut out = Vec::new();
        http_layer_rules(
            &DiagnosticInput {
                hostname: "example.com",
                dns: &[],
                tcp: &tcp_ok,
                tls: &[],
                http: &[obs(protocol)],
                probes: &[],
            },
            &mut out,
        );
        assert!(
            out.iter().any(|d| d.category == DiagnosticCategory::Http),
            "{protocol} request timeout must count as an HTTP-layer error"
        );
    }
    let mut out = Vec::new();
    http_layer_rules(
        &DiagnosticInput {
            hostname: "example.com",
            dns: &[],
            tcp: &tcp_ok,
            tls: &[],
            http: &[obs("HTTP/3")],
            probes: &[],
        },
        &mut out,
    );
    assert!(
        !out.iter().any(|d| d.category == DiagnosticCategory::Http),
        "an HTTP/3 timeout is the QUIC path, not an HTTP-layer error: {out:?}"
    );
}

#[test]
fn http_layer_ignores_failure_inherited_from_tcp() {
    // Where TCP could not connect at all, the HTTP observation merely
    // inherits that failure (no request was attempted): it is a
    // reachability issue reported at the TCP layer, not an HTTP-layer
    // error, and must not raise an HTTP diagnosis.
    let obs = [http("2.2.2.2:443", "HTTP/1.1", None, Some("connect failed"))];
    let tcp_fail = [TcpObservation {
        destination: socket("2.2.2.2:443"),
        success: false,
        latency_ms: None,
        failure: Some(ProbeError {
            kind: FailureKind::Timeout,
            message: "timeout".into(),
        }),
    }];
    let mut out = Vec::new();
    http_layer_rules(
        &DiagnosticInput {
            hostname: "example.com",
            dns: &[],
            tcp: &tcp_fail,
            tls: &[],
            http: &obs,
            probes: &[],
        },
        &mut out,
    );
    assert!(out.is_empty(), "inherited TCP failure must not raise HTTP diagnosis");

    // Where TCP actually connected, the same transport failure IS an
    // HTTP-layer signal.
    let tcp_ok = [TcpObservation {
        destination: socket("2.2.2.2:443"),
        success: true,
        latency_ms: Some(5),
        failure: None,
    }];
    let mut out = Vec::new();
    http_layer_rules(
        &DiagnosticInput {
            hostname: "example.com",
            dns: &[],
            tcp: &tcp_ok,
            tls: &[],
            http: &obs,
            probes: &[],
        },
        &mut out,
    );
    assert!(out.iter().any(|d| d.category == DiagnosticCategory::Http));
}

#[test]
fn http_layer_ignores_success() {
    let obs = [http("1.1.1.1:443", "HTTP/2", Some(204), None)];
    let mut out = Vec::new();
    http_layer_rules(&input(&[], &obs, &[]), &mut out);
    assert!(out.is_empty());
}

#[test]
fn truncated_body_rule_fires_when_headers_arrive_but_body_stalls() {
    let truncated = HttpObservation {
        destination: socket("1.1.1.1:443"),
        host: "example.com".into(),
        method: "GET".into(),
        path: "/".into(),
        tls: None,
        protocol: Some("HTTP/1.1".into()),
        status: Some(200),
        location: None,
        headers: Vec::new(),
        body_bytes: None, // headers received, body never completed
        body_capped: false,
        body_snippet: None,
        ttfb_ms: None,
        latency_ms: Some(30),
        failure: None,
    };
    let mut out = Vec::new();
    truncated_body_rules(&input(&[], &[truncated], &[]), &mut out);
    let d = out.iter().find(|d| d.category == DiagnosticCategory::Http);
    assert!(d.is_some(), "truncated body must be diagnosed: {out:?}");
    assert!(out[0].evidence[0].detail.contains("stalled"));

    // A completed body (or a failure) must not trigger the rule.
    let completed = http("1.1.1.1:443", "HTTP/1.1", Some(200), None);
    let mut out = Vec::new();
    truncated_body_rules(&input(&[], &[completed], &[]), &mut out);
    assert!(out.is_empty(), "completed body must not be truncated: {out:?}");
}

#[test]
fn tls_layer_requires_tcp_connected_on_same_address() {
    let fail = TlsObservation {
        destination: socket("1.1.1.1:443"),
        sni: "example.com".into(),
        success: false,
        version: None,
        cipher: None,
        alpn: None,
        certificate: None,
        latency_ms: None,
        failure: Some(ProbeError {
            kind: FailureKind::TlsHandshake,
            message: "failed".into(),
        }),
    };
    let tcp_ok = [TcpObservation {
        destination: socket("1.1.1.1:443"),
        success: true,
        latency_ms: Some(5),
        failure: None,
    }];
    let mut out = Vec::new();
    tls_layer_rules(
        &DiagnosticInput {
            hostname: "example.com",
            dns: &[],
            tcp: &tcp_ok,
            tls: std::slice::from_ref(&fail),
            http: &[],
            probes: &[],
        },
        &mut out,
    );
    assert!(out.iter().any(|d| d.category == DiagnosticCategory::Tls));

    // Where TCP also failed on that address, no TLS diagnosis is made.
    let tcp_fail = [TcpObservation {
        destination: socket("1.1.1.1:443"),
        success: false,
        latency_ms: None,
        failure: Some(ProbeError {
            kind: FailureKind::Timeout,
            message: "timeout".into(),
        }),
    }];
    let mut out = Vec::new();
    tls_layer_rules(
        &DiagnosticInput {
            hostname: "example.com",
            dns: &[],
            tcp: &tcp_fail,
            tls: &[fail],
            http: &[],
            probes: &[],
        },
        &mut out,
    );
    assert!(out.is_empty());
}

#[test]
fn intermittent_requires_multiple_attempts_with_both_outcomes() {
    let all_fail = [probes(3, 3)];
    let mut out = Vec::new();
    intermittent_rules(&input(&[], &[], &all_fail), &mut out);
    assert!(out.is_empty(), "all-failure with no successes is not intermittent");

    let mixed = [probes(1, 4)];
    let mut out = Vec::new();
    intermittent_rules(&input(&[], &[], &mixed), &mut out);
    let d = out.iter().find(|d| d.category == DiagnosticCategory::Intermittent);
    assert!(d.is_some(), "mixed failure must be intermittent");
    assert_eq!(d.unwrap().confidence, Confidence::High);
    // The failure distribution is reported in the evidence.
    assert_eq!(d.unwrap().evidence.len(), 2);
}

fn tls_with_cert(not_after: &str) -> TlsObservation {
    TlsObservation {
        destination: socket("1.1.1.1:443"),
        sni: "example.com".into(),
        success: true,
        version: Some("TLSv1.3".into()),
        cipher: Some("AES_256_GCM".into()),
        alpn: Some("h2".into()),
        certificate: Some(CertificateSummary {
            subject: "CN=example.com".into(),
            issuer: "CN=CA".into(),
            not_before_utc: None,
            not_after_utc: Some(not_after.into()),
            sans: Vec::new(),
        }),
        latency_ms: Some(7),
        failure: None,
    }
}

#[test]
fn certificate_lifetime_raises_expired_and_expiring() {
    // An expired cert is a High-confidence Medium diagnosis.
    let expired = [tls_with_cert(&days_out(-5))];
    let mut out = Vec::new();
    certificate_lifetime_rules(&input(&expired, &[], &[]), today(), &mut out);
    let d = out
        .iter()
        .find(|d| d.category == DiagnosticCategory::Certificate)
        .expect("expired finding");
    assert_eq!(d.severity, Severity::Medium);
    assert_eq!(d.confidence, Confidence::High);
    assert!(d.summary.contains("expired"), "summary names expiry: {}", d.summary);

    // A cert expiring within the 30-day window is a Low diagnosis.
    let near = [tls_with_cert(&days_out(5))];
    let mut out = Vec::new();
    certificate_lifetime_rules(&input(&near, &[], &[]), today(), &mut out);
    let d = out
        .iter()
        .find(|d| d.category == DiagnosticCategory::Certificate)
        .expect("near finding");
    assert_eq!(d.severity, Severity::Low);
    assert!(d.summary.contains("expires in"), "summary names expiry: {}", d.summary);

    // A comfortably-far cert does not raise a finding.
    let far = [tls_with_cert(&days_out(400))];
    let mut out = Vec::new();
    certificate_lifetime_rules(&input(&far, &[], &[]), today(), &mut out);
    assert!(out.is_empty(), "far expiry must not raise a finding: {out:?}");
}

#[test]
fn certificate_lifetime_raises_not_yet_valid() {
    // A cert whose `notBefore` is in the future is not yet valid: even
    // though an --insecure handshake completes, real clients/validation
    // would refuse it, so diagnose must not report Healthy. The finding
    // is a Medium Certificate diagnosis naming how far off validity is.
    let tls_with_bounds = |not_before: &str, not_after: &str| TlsObservation {
        destination: socket("1.1.1.1:443"),
        sni: "example.com".into(),
        success: true,
        version: Some("TLSv1.3".into()),
        cipher: Some("AES_256_GCM".into()),
        alpn: Some("h2".into()),
        certificate: Some(CertificateSummary {
            subject: "CN=example.com".into(),
            issuer: "CN=CA".into(),
            not_before_utc: Some(not_before.into()),
            not_after_utc: Some(not_after.into()),
            sans: Vec::new(),
        }),
        latency_ms: Some(7),
        failure: None,
    };

    // notBefore in the future -> Medium not-yet-valid finding.
    let not_yet = [tls_with_bounds(
        &days_out(10),
        &days_out(400),
    )];
    let mut out = Vec::new();
    certificate_lifetime_rules(&input(&not_yet, &[], &[]), today(), &mut out);
    let d = out
        .iter()
        .find(|d| d.category == DiagnosticCategory::Certificate)
        .expect("not-yet-valid finding");
    assert_eq!(d.severity, Severity::Medium);
    assert_eq!(d.confidence, Confidence::Medium);
    assert!(
        d.summary.contains("not yet valid"),
        "summary names the not-yet-valid state: {}",
        d.summary
    );

    // A cert already past its notBefore must not raise the finding.
    let started = [tls_with_bounds(
        &days_out(-100),
        &days_out(400),
    )];
    let mut out = Vec::new();
    certificate_lifetime_rules(&input(&started, &[], &[]), today(), &mut out);
    assert!(
        !out.iter().any(|d| d.summary.contains("not yet valid")),
        "past notBefore must not raise not-yet-valid: {out:?}"
    );
}

#[test]
fn certificate_coverage_raises_wrong_host_wildcard_and_ip_mismatch() {
    // A cert whose SANs do not cover the presented SNI must raise a
    // Certificate diagnosis (the coverage check is separate from expiry,
    // which the lifetime rule owns).
    let cert_with_sans = |sans: Vec<String>| TlsObservation {
        destination: socket("1.1.1.1:443"),
        sni: "example.com".into(),
        success: true,
        version: Some("TLSv1.3".into()),
        cipher: Some("AES_256_GCM".into()),
        alpn: Some("h2".into()),
        certificate: Some(CertificateSummary {
            subject: "CN=other.invalid".into(),
            issuer: "CN=CA".into(),
            not_before_utc: None,
            not_after_utc: Some(days_out(400)),
            sans,
        }),
        latency_ms: Some(7),
        failure: None,
    };

    // Exact hostname mismatch -> raises.
    let mut out = Vec::new();
    certificate_coverage_rules(
        &input(&[cert_with_sans(vec!["other.invalid".into()])], &[], &[]),
        &mut out,
    );
    let d = out
        .iter()
        .find(|d| d.category == DiagnosticCategory::Certificate)
        .expect("wrong-host finding");
    assert_eq!(d.severity, Severity::Medium);
    assert!(d.summary.contains("does not cover"), "summary: {}", d.summary);

    // Wildcard for the wrong apex -> raises.
    let mut out = Vec::new();
    certificate_coverage_rules(
        &input(&[cert_with_sans(vec!["*.other.invalid".into()])], &[], &[]),
        &mut out,
    );
    assert!(
        out.iter().any(|d| d.category == DiagnosticCategory::Certificate),
        "wrong-apex wildcard mismatch must raise: {out:?}"
    );

    // A cert that DOES cover the hostname must not raise.
    let mut out = Vec::new();
    certificate_coverage_rules(
        &input(
            &[cert_with_sans(vec!["example.com".into(), "*.example.com".into()])],
            &[],
            &[],
        ),
        &mut out,
    );
    assert!(
        out.iter().all(|d| d.category != DiagnosticCategory::Certificate),
        "covering cert must not raise: {out:?}"
    );

    // Empty SANs (no data to match) -> raises.
    let mut out = Vec::new();
    certificate_coverage_rules(&input(&[cert_with_sans(Vec::new())], &[], &[]), &mut out);
    assert!(
        out.iter().any(|d| d.category == DiagnosticCategory::Certificate),
        "cert with no SANs must be flagged: {out:?}"
    );
}

#[test]
fn http_layer_takes_every_status_but_success_and_redirect() {
    for (status, error) in [(100, true), (199, true), (200, false), (299, false), (301, false), (399, false), (400, true)] {
        let obs = [http("1.1.1.1:443", "HTTP/1.1", Some(status), None)];
        let mut out = Vec::new();
        http_layer_rules(&input(&[], &obs, &[]), &mut out);
        assert_eq!(out.len(), usize::from(error), "{status}");
    }
}
