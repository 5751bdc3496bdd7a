use ip_tools::model::{FailureKind, HttpObservation};
use ip_tools::net::SocketAddr;
use ip_tools::probe::{aggregate_attempts, count_failures, http_outcome, ranked_failures, ranked_statuses};

/// A transport-success HTTP observation whose body never completed.
fn stalled_obs(latency_ms: u64) -> HttpObservation {
    HttpObservation {
        destination: SocketAddr::parse("192.0.2.1:443").unwrap(),
        host: "stall.invalid".into(),
        method: "GET".into(),
        path: "/".into(),
        tls: None,
        protocol: Some("HTTP/1.1".into()),
        status: Some(200),
        location: None,
        headers: Vec::new(),
        body_bytes: None, // headers arrived, then the stream stalled
        body_capped: false,
        body_snippet: None,
        latency_ms: Some(latency_ms), // the full wall-clock wait
        ttfb_ms: Some(0),             // headers answered immediately
        failure: None,
    }
}

#[test]
fn http_outcome_treats_a_stalled_body_as_a_failure() {
    // Headers + status arrived, but the body never completed: the attempt
    // must not aggregate as a clean success with the latency pushed at the
    // full `--timeout` wall-clock. Status and TTFB stay recorded (the
    // server did answer), but the attempt counts as a Timeout failure.
    let (ok, latency, kind, status, ttfb) = http_outcome(stalled_obs(801));
    assert!(!ok, "a body-stalled exchange is not a completed probe");
    assert_eq!(latency, None, "no polluting timeout-scaled latency sample");
    assert_eq!(kind, Some(FailureKind::Timeout));
    assert_eq!(status, Some(200), "the status is still surfaced");
    assert_eq!(ttfb, Some(0), "the server-response latency is still sampled");
}

#[test]
fn http_outcome_keeps_a_completed_body_a_success() {
    let mut obs = stalled_obs(9);
    obs.body_bytes = Some(12); // body completed
    let (ok, latency, kind, _, ttfb) = http_outcome(obs);
    assert!(ok);
    assert_eq!(latency, Some(9));
    assert_eq!(kind, None);
    assert_eq!(ttfb, Some(0));
}

#[test]
fn repeat_impl_aggregates_http_status_counts() {
    // A repeat HTTP probe must surface the status distribution while
    // preserving the transport-success semantics: a completed response
    // with any status (even 503) counts as a successful exchange.
    let outcomes = [
        (true, Some(5), None, Some(200), Some(2)),
        (true, Some(5), None, Some(200), Some(2)),
        (true, Some(5), None, Some(200), Some(2)),
        (true, Some(9), None, Some(503), Some(8)),
    ];
    let r = aggregate_attempts(SocketAddr::parse("1.1.1.1:443").unwrap(), &outcomes);
    assert_eq!(r.successes, 4, "transport-success semantics preserved");
    assert_eq!(r.failures, 0);
    assert_eq!(r.status_counts.len(), 2, "200 and 503 both recorded");
    let pairs: Vec<(u16, usize)> = r.status_counts.iter().map(|s| (s.status, s.count)).collect();
    assert!(pairs.contains(&(200, 3)), "200x3: {pairs:?}");
    assert!(pairs.contains(&(503, 1)), "503x1: {pairs:?}");
    // TTFB aggregates across the successful attempts: samples [2,2,2,8].
    assert_eq!(r.ttfb.count, 4, "ttfb should cover every completed response");
    assert_eq!(r.ttfb.min, Some(2));
    assert_eq!(r.ttfb.max, Some(8));
    assert_eq!(r.ttfb.p50, Some(2));
}

#[test]
fn failures_are_counted_by_mode_and_ranked() {
    let kinds = [
        FailureKind::Http,
        FailureKind::Timeout,
        FailureKind::Timeout,
        FailureKind::ConnectionRefused,
    ];
    let ranked: Vec<(FailureKind, usize)> = ranked_failures(&kinds).iter().map(|f| (f.kind, f.count)).collect();
    assert_eq!(
        ranked,
        vec![(FailureKind::Timeout, 2), (FailureKind::ConnectionRefused, 1), (FailureKind::Http, 1)]
    );
    let total: usize = count_failures(&kinds).iter().map(|f| f.count).sum();
    assert_eq!(total, kinds.len(), "every failure is counted once");
    let statuses: Vec<(u16, usize)> =
        ranked_statuses(&[503, 200, 200, 404]).iter().map(|s| (s.status, s.count)).collect();
    assert_eq!(statuses, vec![(200, 2), (404, 1), (503, 1)]);
}

#[test]
fn attempts_without_any_success_have_no_latency() {
    let outcomes = [
        (false, None, Some(FailureKind::Timeout), None, None),
        (false, None, Some(FailureKind::Timeout), None, None),
    ];
    let r = aggregate_attempts(SocketAddr::parse("1.1.1.1:443").unwrap(), &outcomes);
    assert_eq!((r.attempts, r.successes, r.failures), (2, 0, 2));
    assert_eq!((r.success_rate.part, r.success_rate.whole), (0, 2));
    assert_eq!(r.latency.count, 0);
    assert_eq!(r.latency.min, None);
    assert_eq!(r.failure_counts.len(), 1);
}
