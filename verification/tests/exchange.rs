use hickory_resolver::net::NoRecords;
use hickory_resolver::proto::op::ResponseCode;
use ip_tools::dns::endpoint::endpoint_address;
use ip_tools::dns::exchange::{Encrypted, Exchange, ExchangeStage};
use ip_tools::dns::outcome::{
    failed_lookup, lookup_error_message, lookup_observation, Answer, LookupOutcome, RData,
};
use ip_tools::dns::repeat::repeat_results;
use ip_tools::model::{DnsObservation, DnsRecord, DnsRecordType, FailureKind, ProbeError, ResolverKind};
use ip_tools::net::{IpAddr, Ipv4Addr, SocketAddr};

fn ip(s: &str) -> IpAddr {
    IpAddr::parse(s).unwrap()
}

fn error(o: &DnsObservation) -> (FailureKind, &str) {
    let e = o.error.as_ref().expect("failed");
    (e.kind, e.message.as_str())
}

/// A response with one question and one `A` answer.
fn answer(query: &[u8], rcode: u8, answers: u8) -> Vec<u8> {
    let mut m = query.to_vec();
    m[2] = 0x81;
    m[3] = 0x80 | rcode;
    m[7] = answers;
    for _ in 0..answers {
        m.extend_from_slice(&[0xc0, 12, 0, 1, 0, 1, 0, 0, 0, 60, 0, 4, 192, 0, 2, 9]);
    }
    m
}

const QUERY: [u8; 19] = [0, 0, 1, 0, 0, 1, 0, 0, 0, 0, 0, 0, 1, b'h', 0, 0, 1, 0, 1];

fn doh() -> Exchange {
    Exchange::start(Encrypted::Doh, "https://dns.example:8443/q", "h", DnsRecordType::A, 250).ok().expect("an endpoint")
}

fn dot() -> Exchange {
    Exchange::start(Encrypted::Dot, "dns.example", "h", DnsRecordType::A, 250).ok().expect("an endpoint")
}

#[test]
fn a_doh_lookup_runs_to_its_answer() {
    let mut x = doh();
    assert_eq!(x.stage(), ExchangeStage::Resolve);
    assert_eq!(x.server(), "dns.example");
    assert!(x.resolved(Ok(ip("192.0.2.53"))).is_none());
    assert_eq!(x.stage(), ExchangeStage::Connect(SocketAddr::parse("192.0.2.53:8443").unwrap()));
    assert!(x.connected(Ok(())).is_none());
    assert_eq!(x.stage(), ExchangeStage::Handshake);
    x.negotiated();
    let request = x.request().ok().expect("a request");
    assert_eq!(request.uri().to_string(), "/q?dns=AAABAAABAAAAAAAAAWgAAAEAAQ");
    assert_eq!(request.headers().get("host").unwrap(), "dns.example:8443");
    assert_eq!(request.headers().get("accept").unwrap(), "application/dns-message");
    x.answered(200);
    let o = x.received(&answer(&QUERY, 0, 1), 12);
    assert_eq!(o.records, vec![DnsRecord::A(Ipv4Addr { a: 192, b: 0, c: 2, d: 9 })]);
    assert_eq!(o.ttl, Some(60));
    assert_eq!(o.latency_ms, Some(12));
    assert!(o.error.is_none());
}

#[test]
fn a_doh_lookup_reports_what_went_wrong() {
    let bad = Exchange::start(Encrypted::Doh, "http://dns.example", "h", DnsRecordType::A, 250).err().expect("refused");
    assert_eq!(error(&bad), (FailureKind::Other, "DoH endpoint \"http://dns.example\" must be an https:// URL"));

    let mut x = doh();
    let o = x.resolved(Err("nothing found".to_string())).expect("ended");
    assert_eq!(error(&o), (FailureKind::Dns, "nothing found"));

    let mut x = doh();
    x.resolved(Ok(ip("192.0.2.53")));
    let o = x
        .connected(Err(ProbeError { kind: FailureKind::TlsHandshake, message: "eof".into() }))
        .expect("ended");
    assert_eq!(error(&o), (FailureKind::TlsHandshake, "eof"));
    assert_eq!(o.resolver, ResolverKind::Doh("https://dns.example:8443/q".into()));

    let mut x = doh();
    x.resolved(Ok(ip("192.0.2.53")));
    x.connected(Ok(()));
    assert_eq!(
        error(&x.broken("eof".to_string())),
        (FailureKind::Dns, "http/1.1 handshake with DoH endpoint failed: eof")
    );
    x.negotiated();
    let o = x.built(Err("odd".to_string())).err().expect("ended");
    assert_eq!(error(&o), (FailureKind::Protocol, "could not build DoH request: odd"));
    x.request().ok().expect("a request");
    assert_eq!(
        error(&x.timed_out()),
        (FailureKind::Timeout, "DoH request to https://dns.example:8443/q timed out after 250ms")
    );
    x.answered(503);
    assert_eq!(
        error(&x.broken("length limit exceeded".to_string())),
        (FailureKind::Dns, "the DoH response exceeded the 64 KiB wire-response cap (65536 bytes)")
    );
    assert_eq!(
        error(&x.received(&answer(&QUERY, 0, 1), 12)),
        (FailureKind::Dns, "DoH endpoint https://dns.example:8443/q responded HTTP 503")
    );
}

#[test]
fn a_dot_lookup_runs_to_its_answer() {
    let mut x = dot();
    x.resolved(Ok(ip("::1")));
    assert_eq!(x.stage(), ExchangeStage::Connect(SocketAddr::parse("[::1]:853").unwrap()));
    x.connected(Ok(()));
    assert_eq!(x.stage(), ExchangeStage::Frame);
    let wire = x.frame().ok().expect("a frame");
    assert_eq!(&wire[..2], &[0, 19]);
    assert_eq!(&wire[2..], &QUERY);
    assert_eq!(x.stage(), ExchangeStage::Write);
    x.written();
    x.announced(1, 2);
    assert_eq!(x.stage(), ExchangeStage::Message(258));
    assert_eq!(x.received(&answer(&QUERY, 0, 1), 7).records.len(), 1);
    assert_eq!(error(&x.received(&answer(&QUERY, 0, 0), 7)), (FailureKind::Dns, "no A records found for h"));
    assert_eq!(
        error(&x.received(&answer(&QUERY, 3, 0), 7)),
        (FailureKind::Dns, "DoT endpoint dns.example answered NXDomain")
    );
    assert!(error(&x.received(&[0; 3], 7)).1.starts_with("DoT endpoint dns.example returned an invalid response: "));
    assert_eq!(error(&x.broken("eof".into())), (FailureKind::Dns, "DoT response read from dns.example failed: eof"));
    assert_eq!(
        error(&x.timed_out()),
        (FailureKind::Timeout, "DoT response from dns.example timed out after 250ms")
    );
}

#[test]
fn a_name_that_fits_no_query_is_a_protocol_failure() {
    let long = "a".repeat(64);
    let mut x = Exchange::start(Encrypted::Dot, "dns.example", &long, DnsRecordType::A, 250).ok().expect("an endpoint");
    let o = x.resolved(Ok(ip("::1"))).expect("ended");
    assert_eq!(error(&o).0, FailureKind::Protocol);
}

#[test]
fn an_endpoint_host_is_an_address_or_resolved_with_ipv4_first() {
    assert_eq!(endpoint_address("192.0.2.1", &[], &[]), Ok(ip("192.0.2.1")));
    assert_eq!(endpoint_address("d", &[ip("192.0.2.2")], &[ip("::1")]), Ok(ip("192.0.2.2")));
    assert_eq!(endpoint_address("d", &[], &[ip("::1")]), Ok(ip("::1")));
    assert_eq!(
        endpoint_address("d", &[], &[]),
        Err("could not resolve DNS endpoint host \"d\" via the system resolver".to_string())
    );
}

#[test]
fn lookups_end_in_records_or_a_reason() {
    let answered = LookupOutcome::Answered {
        answers: vec![
            Answer { ttl: 30, data: RData::Cname("c.example.".into()) },
            Answer { ttl: 60, data: RData::A(Ipv4Addr { a: 192, b: 0, c: 2, d: 1 }) },
        ],
        latency_ms: 3,
    };
    let o = lookup_observation("h", &ResolverKind::System, DnsRecordType::A, answered);
    assert_eq!(o.records.len(), 1);
    assert_eq!(o.ttl, Some(60));
    let o = lookup_observation("h", &ResolverKind::System, DnsRecordType::Mx, LookupOutcome::NoRecords);
    assert_eq!(error(&o), (FailureKind::Dns, "no MX records found for h"));
    let o = lookup_observation("h", &ResolverKind::System, DnsRecordType::Mx, LookupOutcome::NxDomain);
    assert_eq!(error(&o), (FailureKind::Dns, "h does not exist (NXDOMAIN)"));
    let o = lookup_observation("h", &ResolverKind::System, DnsRecordType::A, LookupOutcome::Failed("x".into()));
    assert_eq!(error(&o), (FailureKind::Dns, "x"));
    let o = lookup_observation("h", &ResolverKind::System, DnsRecordType::A, LookupOutcome::TimedOut(2000));
    assert_eq!(error(&o), (FailureKind::Timeout, "dns lookup of h (A) timed out after 2s"));
}

#[test]
fn repeated_lookups_are_grouped_by_resolver() {
    let system = |latency_ms: u64| {
        lookup_observation(
            "h",
            &ResolverKind::System,
            DnsRecordType::A,
            LookupOutcome::Answered { answers: Vec::new(), latency_ms },
        )
    };
    let custom = lookup_observation(
        "h",
        &ResolverKind::Custom(SocketAddr::parse("192.0.2.53:53").unwrap()),
        DnsRecordType::A,
        LookupOutcome::TimedOut(1),
    );
    let out = repeat_results(vec![system(3), custom, system(5)], DnsRecordType::A, 2);
    assert_eq!(out.len(), 2);
    assert_eq!((out[0].successes, out[0].failures), (2, 0));
    assert_eq!(out[0].latency.max, Some(5));
    assert_eq!((out[1].successes, out[1].failures), (0, 2));
    assert_eq!(out[1].failure_counts.len(), 1);
}

#[test]
fn a_resolver_error_is_put_in_plain_words() {
    let odd = hickory_resolver::net::NetError::from("connection lost");
    assert_eq!(lookup_error_message("h", DnsRecordType::A, &odd, &odd.to_string()), "connection lost");
    assert!(matches!(failed_lookup(&odd, odd.to_string()), LookupOutcome::Failed(m) if m == "connection lost"));
    let query = hickory_resolver::proto::op::Query::new();
    let absent: hickory_resolver::net::NetError = NoRecords::new(query.clone(), ResponseCode::NXDomain).into();
    assert_eq!(lookup_error_message("h", DnsRecordType::A, &absent, &absent.to_string()), "h does not exist (NXDOMAIN)");
    assert!(matches!(failed_lookup(&absent, absent.to_string()), LookupOutcome::NxDomain));
    let empty: hickory_resolver::net::NetError = NoRecords::new(query, ResponseCode::NoError).into();
    assert_eq!(lookup_error_message("h", DnsRecordType::Aaaa, &empty, &empty.to_string()), "no AAAA records found for h");
    assert!(matches!(failed_lookup(&empty, empty.to_string()), LookupOutcome::NoRecords));
    let o = lookup_observation("h", &ResolverKind::System, DnsRecordType::Aaaa, failed_lookup(&empty, empty.to_string()));
    assert_eq!(error(&o), (FailureKind::Dns, "no AAAA records found for h"));
}
