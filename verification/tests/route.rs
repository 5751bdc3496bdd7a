use ip_tools::net::IpAddr;
use ip_tools::route::{aggregate_runs, parse_icmp_udp_src, ReplyEvent, RouteHop, Trace, TraceAction};

fn build_icmp_time_exceeded(inner_udp_src: u16) -> Vec<u8> {
    let mut p = Vec::new();
    // Outer IP header (IHL=5 => 20 bytes).
    p.push(0x45); // version 4, IHL 5
    p.extend_from_slice(&[0, 0, 0, 0, 0, 0, 0, 0, 0, 64, 0, 0, 0, 0, 0, 0, 0, 0, 0]);
    // ICMP: type 11 (time exceeded), code 0, then 6 unused bytes.
    p.push(11);
    p.push(0);
    p.extend_from_slice(&[0, 0, 0, 0, 0, 0]);
    // Inner IP header (IHL=5).
    p.push(0x45);
    p.extend_from_slice(&[0, 0, 0, 0, 0, 0, 0, 0, 0, 64, 0, 0, 0, 0, 0, 0, 0, 0, 0]);
    // Inner UDP header: src port, dst port, len, checksum.
    p.extend_from_slice(&inner_udp_src.to_be_bytes());
    p.extend_from_slice(&[0x82, 0x9a, 0, 8, 0, 0]);
    p
}

#[test]
fn parses_inner_udp_source_port() {
    let p = build_icmp_time_exceeded(0x1234);
    assert_eq!(parse_icmp_udp_src(&p, p.len()), Some((11, 0x1234)));
}

#[test]
fn parses_destination_unreachable_as_the_final_hop_reply() {
    let mut p = build_icmp_time_exceeded(0x1234);
    p[20] = 3; // type: destination unreachable
    assert_eq!(parse_icmp_udp_src(&p, p.len()), Some((3, 0x1234)));
}

#[test]
fn rejects_non_icmp_types() {
    let mut p = build_icmp_time_exceeded(0x1234);
    p[20] = 0; // echo reply
    assert_eq!(parse_icmp_udp_src(&p, p.len()), None);
    // A redirect (type 5) also carries no offending datagram to act on.
    p[20] = 5;
    assert_eq!(parse_icmp_udp_src(&p, p.len()), None);
}

#[test]
fn rejects_short_buffers() {
    assert_eq!(parse_icmp_udp_src(&[0u8; 8], 8), None);
}

fn ip(s: &str) -> IpAddr {
    IpAddr::parse(s).unwrap()
}

fn hop(ttl: u8, addr: Option<&str>, rtt_ms: Option<u64>, lost: bool) -> RouteHop {
    RouteHop { ttl, addr: addr.map(ip), hostname: None, rtt_ms, lost }
}

#[test]
fn stable_path_aggregates_a_single_router() {
    let runs = vec![
        vec![hop(1, Some("192.0.2.1"), Some(3), false), hop(2, Some("192.0.2.2"), Some(9), false)],
        vec![hop(1, Some("192.0.2.1"), Some(5), false), hop(2, Some("192.0.2.2"), Some(11), false)],
    ];
    let rep = aggregate_runs(&runs);
    assert_eq!(rep.runs, 2);
    assert_eq!(rep.hops.len(), 2);
    let h1 = &rep.hops[0];
    assert_eq!(h1.ttl, 1);
    assert_eq!(h1.answered, 2);
    assert_eq!(h1.addrs, vec![ip("192.0.2.1")]);
    assert!(!h1.path_changed, "a stable router must not flag a path change");
    assert_eq!(h1.rtt.count, 2);
    assert_eq!(h1.rtt.min, Some(3));
    assert_eq!(h1.rtt.max, Some(5));
}

#[test]
fn divergent_path_lists_both_routers_and_flags_change() {
    let runs = vec![
        vec![hop(1, Some("192.0.2.1"), Some(2), false)],
        vec![hop(1, Some("192.0.2.9"), Some(4), false)],
    ];
    let rep = aggregate_runs(&runs);
    assert_eq!(rep.hops.len(), 1);
    let h = &rep.hops[0];
    assert_eq!(h.answered, 2);
    assert_eq!(h.addrs.len(), 2);
    assert!(h.path_changed, "two distinct routers must flag a path change");
    assert_eq!(h.rtt.min, Some(2));
    assert_eq!(h.rtt.max, Some(4));
}

#[test]
fn lost_hops_count_answered_and_stay_empty() {
    // Hop 1 answered in run 1 but was lost in run 2; hop 2 was lost in both.
    let runs = vec![
        vec![hop(1, Some("192.0.2.1"), Some(3), false), hop(2, None, None, true)],
        vec![hop(1, None, None, true), hop(2, None, None, true)],
    ];
    let rep = aggregate_runs(&runs);
    assert_eq!(rep.hops.len(), 2);
    let h1 = &rep.hops[0];
    assert_eq!(h1.answered, 1, "hop answered in one of two runs");
    assert_eq!(h1.addrs, vec![ip("192.0.2.1")]);
    assert_eq!(h1.rtt.count, 1);
    let h2 = &rep.hops[1];
    assert_eq!(h2.answered, 0, "a fully-lost hop never answers");
    assert!(h2.addrs.is_empty());
}

#[test]
fn runs_with_different_hop_sets_union_by_ttl() {
    // Run 1 terminated at hop 2 (destination answered); run 2 saw hop 1 only.
    let runs = vec![
        vec![hop(1, Some("192.0.2.1"), Some(2), false), hop(2, Some("192.0.2.2"), Some(3), false)],
        vec![hop(1, Some("192.0.2.1"), Some(1), false)],
    ];
    let rep = aggregate_runs(&runs);
    assert_eq!(rep.hops.len(), 2, "both hops are in the union");
    assert_eq!(rep.hops[0].answered, 2);
    assert_eq!(rep.hops[1].answered, 1, "hop 2 only answered in the first run");
}

#[test]
fn a_trace_stops_at_its_destination() {
    let target = ip("192.0.2.9");
    let mut t = Trace::start(target, 30, 3).unwrap();
    assert_eq!(t.next(), TraceAction::Probe { ttl: 1, port: 33434 });
    // A reply to another probe does not end the wait.
    assert!(!t.on(4000, ReplyEvent::Reply { source: ip("192.0.2.1"), port: 4001, rtt_ms: 1 }));
    assert!(t.on(4000, ReplyEvent::Reply { source: ip("192.0.2.1"), port: 4000, rtt_ms: 2 }));
    for port in [33434, 33435, 33436] {
        assert_eq!(t.next(), TraceAction::Probe { ttl: 2, port });
        assert!(t.on(4000, ReplyEvent::TimedOut));
    }
    assert_eq!(t.next(), TraceAction::Probe { ttl: 3, port: 33434 });
    assert!(t.on(4000, ReplyEvent::Reply { source: target, port: 4000, rtt_ms: 5 }));
    assert_eq!(t.next(), TraceAction::Finished);
    let hops = t.into_hops();
    let seen: Vec<(u8, bool, Option<u64>)> = hops.iter().map(|h| (h.ttl, h.lost, h.rtt_ms)).collect();
    assert_eq!(seen, vec![(1, false, Some(2)), (2, true, None), (3, false, Some(5))]);
}

/// A finished trace stops at its limit or at the destination, and a hop is lost
/// exactly when it has neither address nor time.
#[test]
fn a_finished_trace_is_at_its_limit_or_its_destination() {
    let target = ip("192.0.2.9");
    for answers_at in 1..=6u8 {
        let mut t = Trace::start(target, 4, 2).unwrap();
        while let TraceAction::Probe { ttl, .. } = t.next() {
            let event = if ttl == answers_at {
                ReplyEvent::Reply { source: target, port: 4000, rtt_ms: 7 }
            } else if ttl % 2 == 0 {
                ReplyEvent::Reply { source: ip("192.0.2.1"), port: 4000, rtt_ms: 3 }
            } else {
                ReplyEvent::TimedOut
            };
            t.on(4000, event);
        }
        let hops = t.into_hops();
        assert_eq!(hops.len(), usize::from(answers_at.min(4)));
        assert_eq!(hops.last().unwrap().addr == Some(target), answers_at <= 4);
        for h in &hops {
            assert_eq!((h.addr.is_none(), h.rtt_ms.is_none()), (h.lost, h.lost));
        }
    }
}

#[test]
fn a_trace_keeps_its_limits() {
    let mut t = Trace::start(ip("192.0.2.9"), 2, 1).unwrap();
    assert_eq!(t.next(), TraceAction::Probe { ttl: 1, port: 33434 });
    t.on(1, ReplyEvent::TimedOut);
    assert_eq!(t.next(), TraceAction::Probe { ttl: 2, port: 33434 });
    t.on(1, ReplyEvent::TimedOut);
    assert_eq!(t.next(), TraceAction::Finished);
    assert_eq!(t.into_hops().len(), 2);

    let mut none = Trace::start(ip("192.0.2.9"), 0, 3).unwrap();
    assert_eq!(none.next(), TraceAction::Finished);

    let mut silent = Trace::start(ip("192.0.2.9"), 4, 0).unwrap();
    assert_eq!(silent.next(), TraceAction::Finished);
    assert_eq!(silent.into_hops().len(), 4);

    assert_eq!(
        Trace::start(ip("::1"), 30, 3).err(),
        Some("route diagnostics are currently IPv4-only on Linux".to_string())
    );
}
