use ip_tools::http::{
    collect_response_headers, handshake_failed, handshake_timed_out, quic_tls_summary, request_head,
    response_location, HttpStep, HttpVersion,
};
use ip_tools::http_probe::{HttpPlan, HttpProbe, ProbeEvent, ProbeStep, RequestOptions, ResponseHead};
use ip_tools::model::{FailureKind, HttpObservation, ProbeError, TlsObservation};
use ip_tools::net::SocketAddr;

fn socket(s: &str) -> SocketAddr {
    SocketAddr::parse(s).unwrap()
}

fn options(body: Option<usize>, max_body_bytes: u64, keep_body: bool) -> RequestOptions {
    RequestOptions {
        host: "example.com".into(),
        method: "GET".into(),
        path: "/x".into(),
        headers: vec![("x-a".into(), "1".into())],
        body,
        timeout_ms: 1500,
        max_body_bytes,
        keep_body,
    }
}

fn plan(version: HttpVersion, tls: bool, body: Option<usize>) -> HttpPlan {
    options(body, 10, true).plan(version, tls, socket("192.0.2.1:443"))
}

fn tls() -> TlsObservation {
    quic_tls_summary(Some(b"h3".to_vec()), socket("192.0.2.1:443"), "example.com")
}

fn response(status: u16) -> ProbeEvent {
    ProbeEvent::Head(ResponseHead {
        status,
        version: "HTTP/1.0".into(),
        headers: vec![
            ("Location".into(), b"/next".to_vec()),
            ("server".into(), b"x".to_vec()),
            ("binary".into(), vec![0xff, 0x01]),
        ],
        ttfb_ms: 4,
    })
}

fn failure(o: Option<HttpObservation>) -> (FailureKind, String) {
    let f = o.expect("ended").failure.expect("failed");
    (f.kind, f.message)
}

#[test]
fn a_cleartext_probe_runs_to_its_response() {
    let mut p = HttpProbe::start(plan(HttpVersion::Http1, false, None));
    assert_eq!(p.step(), ProbeStep::Plain);
    assert!(p.on(ProbeEvent::Done, 1).is_none());
    assert_eq!(p.step(), ProbeStep::Http(HttpStep::Handshake1));
    assert!(p.on(ProbeEvent::Done, 2).is_none());
    assert_eq!(p.step(), ProbeStep::Http(HttpStep::Build1));
    let request = p.request().expect("a request");
    assert_eq!(request.method().as_str(), "GET");
    assert_eq!(request.uri().path(), "/x");
    assert_eq!(request.headers().get("user-agent").unwrap(), "ip-tools");
    assert_eq!(request.headers().get("x-a").unwrap(), "1");
    assert_eq!(p.step(), ProbeStep::Http(HttpStep::Request1));
    assert!(p.on(response(301), 3).is_none());
    assert!(p.on(ProbeEvent::Chunk(b"abc".to_vec()), 4).is_none());
    let o = p.on(ProbeEvent::End, 9).expect("the end");
    assert_eq!(o.protocol.as_deref(), Some("HTTP/1.0"));
    assert_eq!(o.status, Some(301));
    assert_eq!(o.location.as_deref(), Some("/next"));
    assert_eq!(o.headers, vec![("server".to_string(), "x".to_string())]);
    assert_eq!(o.body_bytes, Some(3));
    assert!(!o.body_capped);
    assert_eq!(o.body_snippet.as_deref(), Some("abc"));
    assert_eq!(o.latency_ms, Some(9));
    assert_eq!(o.ttfb_ms, Some(4));
    assert!(o.tls.is_none() && o.failure.is_none());
    assert_eq!(p.body(), b"abc");
}

#[test]
fn a_body_stops_at_the_cap_however_it_arrives() {
    for cut in [1usize, 3, 7, 20] {
        let mut p = HttpProbe::start(plan(HttpVersion::Http2, true, None));
        assert_eq!(p.step(), ProbeStep::Tls);
        p.on(ProbeEvent::Secured(tls()), 1);
        p.on(ProbeEvent::Done, 1);
        p.request().expect("a request");
        p.on(ProbeEvent::Done, 1);
        assert_eq!(p.step(), ProbeStep::Http(HttpStep::Response2));
        p.on(response(200), 2);
        let mut end = None;
        for chunk in b"0123456789abcdefghij".chunks(cut) {
            end = p.on(ProbeEvent::Chunk(chunk.to_vec()), 5);
            if end.is_some() {
                break;
            }
        }
        let o = end.expect("capped");
        assert_eq!(o.body_bytes, Some(10));
        assert!(o.body_capped);
        assert_eq!(o.body_snippet.as_deref(), Some("0123456789"));
        assert_eq!(o.protocol.as_deref(), Some("HTTP/2"));
        assert!(o.tls.is_some());
        assert_eq!(p.body(), b"0123456789");
    }
}

#[test]
fn a_stalled_body_leaves_its_length_out() {
    let mut p = HttpProbe::start(plan(HttpVersion::Http1, true, None));
    p.on(ProbeEvent::Secured(tls()), 1);
    p.on(ProbeEvent::Done, 1);
    p.request().expect("a request");
    p.on(response(200), 1);
    p.on(ProbeEvent::Chunk(b"half".to_vec()), 1);
    let o = p.on(ProbeEvent::TimedOut, 1501).expect("the end");
    assert_eq!(o.status, Some(200));
    assert_eq!(o.body_bytes, None);
    assert_eq!(o.body_snippet.as_deref(), Some("half"));
    assert!(o.failure.is_none());
}

#[test]
fn a_broken_body_is_a_failure() {
    let mut p = HttpProbe::start(plan(HttpVersion::Http1, true, None));
    p.on(ProbeEvent::Secured(tls()), 1);
    p.on(ProbeEvent::Done, 1);
    p.request().expect("a request");
    p.on(response(200), 1);
    let o = p.on(ProbeEvent::Failed("reset".into()), 2);
    assert_eq!(failure(o), (FailureKind::Http, "HTTP/1.1 body failed: reset".to_string()));
}

#[test]
fn a_quic_probe_sends_its_body_and_finishes() {
    let mut p = HttpProbe::start(plan(HttpVersion::Http3, true, Some(5)));
    let mut steps = vec![p.step()];
    p.on(ProbeEvent::Done, 0);
    steps.push(p.step());
    p.on(ProbeEvent::Done, 0);
    steps.push(p.step());
    p.on(ProbeEvent::Secured(tls()), 0);
    steps.push(p.step());
    p.on(ProbeEvent::Done, 0);
    steps.push(p.step());
    let request = p.request().expect("a request");
    assert_eq!(request.uri().to_string(), "https://example.com/x");
    assert_eq!(request.headers().get("content-length").unwrap(), "5");
    for _ in 0..3 {
        steps.push(p.step());
        p.on(ProbeEvent::Done, 0);
    }
    steps.push(p.step());
    let names: Vec<HttpStep> = steps
        .into_iter()
        .map(|s| match s {
            ProbeStep::Http(h) => h,
            other => panic!("{other:?}"),
        })
        .collect();
    assert_eq!(
        names,
        vec![
            HttpStep::Endpoint3,
            HttpStep::Connect3,
            HttpStep::Handshake3,
            HttpStep::Setup3,
            HttpStep::Build3,
            HttpStep::Request3,
            HttpStep::BodySend3,
            HttpStep::Finish3,
            HttpStep::Response3
        ]
    );
    let o = p.on(ProbeEvent::TimedOut, 0);
    assert_eq!(
        failure(o),
        (FailureKind::Timeout, "http/3 response from 192.0.2.1:443 timed out after 1.5s".to_string())
    );
}

#[test]
fn a_failed_probe_keeps_its_protocol_and_reports_its_step() {
    let mut p = HttpProbe::start(plan(HttpVersion::Http3, true, None));
    p.on(ProbeEvent::Done, 0);
    p.on(ProbeEvent::Done, 0);
    let o = p.on(ProbeEvent::Failed("no route".into()), 1).expect("ended");
    assert_eq!(o.protocol.as_deref(), Some("HTTP/3"));
    assert_eq!(failure(Some(o)), (FailureKind::Quic, "quic handshake failed: no route".to_string()));

    let mut p = HttpProbe::start(plan(HttpVersion::Http3, true, None));
    let o = p.on(ProbeEvent::Failed("no socket".into()), 1);
    assert_eq!(failure(o), (FailureKind::Other, "no socket".to_string()));

    let mut p = HttpProbe::start(plan(HttpVersion::Http1, false, None));
    let o = p.on(ProbeEvent::Unconnected(FailureKind::ConnectionRefused, "refused".into()), 1);
    assert_eq!(
        failure(o),
        (FailureKind::ConnectionRefused, "tcp connect to 192.0.2.1:443 failed: refused".to_string())
    );

    let mut p = HttpProbe::start(plan(HttpVersion::Http1, false, None));
    let o = p.on(ProbeEvent::TimedOut, 1);
    assert_eq!(
        failure(o),
        (FailureKind::Timeout, "tcp connect to 192.0.2.1:443 timed out after 1.5s".to_string())
    );

    let mut p = HttpProbe::start(plan(HttpVersion::Http2, true, None));
    let error = ProbeError { kind: FailureKind::Certificate, message: "bad certificate".into() };
    let o = p.on(ProbeEvent::Unsecured(error), 1);
    assert_eq!(failure(o), (FailureKind::Certificate, "bad certificate".to_string()));
}

#[test]
fn a_request_that_cannot_be_built_is_a_protocol_failure() {
    let mut bad = plan(HttpVersion::Http2, true, None);
    bad.method = "NOT A METHOD".into();
    let mut p = HttpProbe::start(bad);
    p.on(ProbeEvent::Secured(tls()), 1);
    p.on(ProbeEvent::Done, 1);
    let o = p.request().err();
    let (kind, message) = failure(o);
    assert_eq!(kind, FailureKind::Protocol);
    assert!(message.starts_with("could not build http/2 request: "), "{message}");

    let mut p = HttpProbe::start(plan(HttpVersion::Http1, false, None));
    p.on(ProbeEvent::Done, 1);
    p.on(ProbeEvent::Done, 1);
    let o = p.built(Err("odd".to_string())).err();
    assert_eq!(failure(o), (FailureKind::Protocol, "could not build http request: odd".to_string()));
}

#[test]
fn an_explicit_host_replaces_the_default() {
    let head = request_head(
        HttpVersion::Http1,
        true,
        "example.com",
        8443,
        "GET",
        "/",
        &[("Host".into(), "[::1]".into()), ("a".into(), "b".into())],
        None,
    );
    assert_eq!(
        head.headers,
        vec![
            ("host".to_string(), "::1".to_string()),
            ("user-agent".to_string(), "ip-tools".to_string()),
            ("accept".to_string(), "*/*".to_string()),
            ("a".to_string(), "b".to_string())
        ]
    );
    let head = request_head(HttpVersion::Http1, true, "example.com", 8443, "GET", "/", &[], None);
    assert_eq!(head.headers[0], ("host".to_string(), "example.com:8443".to_string()));
    let head =
        request_head(HttpVersion::Http2, true, "[::1]", 443, "GET", "/p", &[("host".into(), "v.example".into())], Some(3));
    assert_eq!(head.uri, "https://v.example/p");
    assert!(head.headers.iter().all(|(n, _)| n != "host"));
    assert_eq!(head.headers.last(), Some(&("content-length".to_string(), "3".to_string())));
}

#[test]
fn response_headers_are_readable_and_bounded() {
    let mut raw: Vec<(String, Vec<u8>)> = vec![("LOCATION".into(), b"/first".to_vec())];
    for i in 0..30 {
        raw.push((format!("h{i}"), b"v".to_vec()));
    }
    raw.insert(1, ("odd".into(), vec![0x80]));
    let kept = collect_response_headers(&raw);
    assert_eq!(kept.len(), 24);
    assert_eq!(kept[0].0, "h0");
    assert_eq!(kept[23].0, "h23");
    assert_eq!(response_location(&raw).as_deref(), Some("/first"));
    assert_eq!(response_location(&[("location".into(), vec![0x80])]), None);
    assert_eq!(response_location(&[("location".into(), vec![b'/', 0xC3, 0xA9])]).as_deref(), Some("/\u{e9}"));
    assert_eq!(response_location(&[]), None);
}

#[test]
fn a_diagnosis_plans_every_version_for_every_destination() {
    let destinations = [socket("192.0.2.1:443"), socket("[::1]:443")];
    let plans = options(None, 7, false).all_plans(&destinations, false);
    let seen: Vec<(HttpVersion, SocketAddr)> = plans.iter().map(|p| (p.version, p.destination)).collect();
    assert_eq!(
        seen,
        vec![
            (HttpVersion::Http1, destinations[0]),
            (HttpVersion::Http1, destinations[1]),
            (HttpVersion::Http2, destinations[0]),
            (HttpVersion::Http2, destinations[1]),
            (HttpVersion::Http3, destinations[0]),
            (HttpVersion::Http3, destinations[1])
        ]
    );
    assert!(plans.iter().all(|p| p.tls && p.max_body_bytes == 7 && p.headers.len() == 1));
    let plain = options(None, 7, false).all_plans(&destinations, true);
    assert_eq!(plain.len(), 2);
    assert!(plain.iter().all(|p| p.version == HttpVersion::Http1 && !p.tls));
}

#[test]
fn quic_connections_report_their_protocol_name() {
    let o = tls();
    assert_eq!(o.version.as_deref(), Some("TLSv1.3"));
    assert_eq!(o.alpn.as_deref(), Some("h3"));
    let odd = quic_tls_summary(Some(vec![b'h', 0xff]), socket("192.0.2.1:443"), "h");
    assert_eq!(odd.alpn.as_deref(), Some("h\u{fffd}"));
}

#[test]
fn an_explicit_host_is_the_whole_http2_authority() {
    let uri = |version, port, custom: Option<&str>| {
        let headers: Vec<(String, String)> = custom.iter().map(|v| ("HOST".to_string(), v.to_string())).collect();
        request_head(version, true, "example.com", port, "GET", "/p", &headers, None).uri
    };
    assert_eq!(uri(HttpVersion::Http2, 8443, Some("v.example:8080")), "https://v.example:8080/p");
    assert_eq!(uri(HttpVersion::Http2, 8443, Some("v.example")), "https://v.example/p");
    assert_eq!(uri(HttpVersion::Http2, 8443, Some("::1")), "https://[::1]/p");
    assert_eq!(uri(HttpVersion::Http2, 8443, None), "https://example.com:8443/p");
    assert_eq!(uri(HttpVersion::Http2, 443, None), "https://example.com/p");
    assert_eq!(uri(HttpVersion::Http3, 8443, Some("v.example")), "https://v.example:8443/p");
}

#[test]
fn a_rejected_certificate_is_told_apart() {
    let e = handshake_failed(socket("192.0.2.1:443"), true, "expired");
    assert_eq!((e.kind, e.message.as_str()), (
        FailureKind::Certificate,
        "tls handshake with 192.0.2.1:443 failed: expired"
    ));
    assert_eq!(handshake_failed(socket("192.0.2.1:443"), false, "eof").kind, FailureKind::TlsHandshake);
    let e = handshake_timed_out(socket("192.0.2.1:443"), 1500);
    assert_eq!((e.kind, e.message.as_str()), (
        FailureKind::Timeout,
        "tls handshake with 192.0.2.1:443 timed out after 1.5s"
    ));
}
