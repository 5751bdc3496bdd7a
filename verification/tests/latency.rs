use ip_tools::model::LatencyStats;

#[test]
fn empty_stats_produce_none_aggregates() {
    let s = LatencyStats::default();
    let sum = s.summarize();
    assert_eq!(sum.count, 0);
    assert!(sum.min.is_none() && sum.p50.is_none() && sum.jitter.is_none());
    assert!(sum.samples.is_empty());
}

#[test]
fn percentiles_are_computed() {
    let mut s = LatencyStats::default();
    for v in [100, 200, 300, 400, 500, 600, 700, 800, 900, 1000] {
        s.push(v);
    }
    let sum = s.summarize();
    assert_eq!(sum.min, Some(100));
    assert_eq!(sum.max, Some(1000));
    assert_eq!(sum.p50, Some(500));
    assert_eq!(sum.p90, Some(900));
    // Nearest-rank: rank = ceil(p/100 * n); for n=10 p95 and p99 map to the
    // largest sample.
    assert_eq!(sum.p95, Some(1000));
    assert_eq!(sum.p99, Some(1000));
}

#[test]
fn mean_and_jitter_are_stable() {
    let mut s = LatencyStats::default();
    s.push(100);
    s.push(100);
    s.push(100);
    let sum = s.summarize();
    assert_eq!(sum.mean, Some(100));
    assert_eq!(sum.jitter, Some(0));
}

#[test]
fn samples_keep_their_order_and_percentiles_sort_them() {
    let mut s = LatencyStats::default();
    for v in [30, 10, 20] {
        s.push(v);
    }
    assert_eq!(s.count(), 3);
    let sum = s.summarize();
    assert_eq!(sum.samples, vec![30, 10, 20]);
    assert_eq!(sum.min, Some(10));
    assert_eq!(sum.p50, Some(20));
    assert_eq!(sum.max, Some(30));
    assert_eq!(sum.mean, Some(20));
    // The variance is 200/3, the deviation about 8.16.
    assert_eq!(sum.jitter, Some(8));
}
