//! Latency statistics over repeated measurements.
//!
//! Latencies are stored as whole milliseconds. Statistics only account for
//! successful attempts; failures are reported separately by the caller.

use vstd::arithmetic::div_mod::lemma_fundamental_div_mod;
use vstd::prelude::*;

verus! {

/// Running latency distribution over successful samples.
#[derive(Debug, Clone)]
pub struct LatencyStats {
    samples: Vec<u64>,
}

impl View for LatencyStats {
    type V = Seq<u64>;

    closed spec fn view(&self) -> Seq<u64> {
        self.samples@
    }
}

impl Default for LatencyStats {
    fn default() -> (r: Self)
        ensures
            r@ == Seq::<u64>::empty(),
    {
        LatencyStats { samples: Vec::new() }
    }
}

impl LatencyStats {
    /// Record one successful sample in milliseconds.
    pub fn push(&mut self, ms: u64)
        ensures
            final(self)@ == old(self)@.push(ms),
    {
        self.samples.push(ms);
    }

    /// Number of successful samples recorded.
    pub fn count(&self) -> (n: usize)
        ensures
            n == self@.len(),
    {
        self.samples.len()
    }

    /// Snapshot a summary plus the raw samples.
    pub fn summarize(&self) -> (r: LatencySummary)
        ensures
            summarizes(r, self@),
    {
        LatencySummary::from(self)
    }
}

/// A snapshot of a [`LatencyStats`] distribution, with the raw per-attempt
/// samples beside the aggregates.
#[derive(Debug)]
pub struct LatencySummary {
    /// Number of successful samples.
    pub count: usize,
    /// Minimum latency (ms).
    pub min: Option<u64>,
    /// 50th percentile (ms).
    pub p50: Option<u64>,
    /// 90th percentile (ms).
    pub p90: Option<u64>,
    /// 95th percentile (ms).
    pub p95: Option<u64>,
    /// 99th percentile (ms).
    pub p99: Option<u64>,
    /// Maximum latency (ms).
    pub max: Option<u64>,
    /// Arithmetic mean (ms).
    pub mean: Option<u64>,
    /// Population standard deviation, used as a jitter estimate (ms).
    pub jitter: Option<u64>,
    /// Raw per-attempt latencies (only successful attempts).
    pub samples: Vec<u64>,
}

impl Clone for LatencySummary {
    fn clone(&self) -> (r: Self)
        ensures
            r.count == self.count,
            r.min == self.min && r.p50 == self.p50 && r.p90 == self.p90 && r.p95 == self.p95,
            r.p99 == self.p99 && r.max == self.max && r.mean == self.mean && r.jitter == self.jitter,
            r.samples@ == self.samples@,
    {
        LatencySummary {
            count: self.count,
            min: self.min,
            p50: self.p50,
            p90: self.p90,
            p95: self.p95,
            p99: self.p99,
            max: self.max,
            mean: self.mean,
            jitter: self.jitter,
            samples: copied(self.samples.as_slice()),
        }
    }
}

/// `s` with `x` put behind every element that is at most `x`, counted from the
/// back.
pub open spec fn insert(s: Seq<u64>, x: u64) -> Seq<u64>
    decreases s.len(),
{
    if s.len() == 0 || s.last() <= x {
        s.push(x)
    } else {
        insert(s.drop_last(), x).push(s.last())
    }
}

/// The samples in ascending order.
pub open spec fn ascending(s: Seq<u64>) -> Seq<u64>
    decreases s.len(),
{
    if s.len() == 0 {
        s
    } else {
        insert(ascending(s.drop_last()), s.last())
    }
}

/// The `p`-th percentile by nearest rank: the sample of rank `ceil(p/100 * n)`
/// in ascending order.
pub open spec fn percentile(s: Seq<u64>, p: int) -> Option<u64> {
    let rank = (p * s.len() + 99) / 100;
    if s.len() == 0 {
        None
    } else if rank <= 0 {
        Some(ascending(s)[0])
    } else {
        Some(ascending(s)[rank - 1])
    }
}

/// The sum of the samples.
pub open spec fn total(s: Seq<u64>) -> nat
    decreases s.len(),
{
    if s.len() == 0 {
        0
    } else {
        total(s.drop_last()) + s.last() as nat
    }
}

/// The mean of the samples, rounded down.
pub open spec fn mean(s: Seq<u64>) -> nat {
    total(s) / s.len()
}

/// The squared distance of two values.
pub open spec fn squared_distance(a: int, b: int) -> nat {
    ((a - b) * (a - b)) as nat
}

/// The sum of the squared deviations from `m`.
pub open spec fn deviation(s: Seq<u64>, m: nat) -> nat
    decreases s.len(),
{
    if s.len() == 0 {
        0
    } else {
        deviation(s.drop_last(), m) + squared_distance(s.last() as int, m as int)
    }
}

/// Whether `r` is the square root of `n`, rounded down.
pub open spec fn is_root(r: nat, n: nat) -> bool {
    r * r <= n < (r + 1) * (r + 1)
}

/// Whether `r` summarizes the samples `s`.
pub open spec fn summarizes(r: LatencySummary, s: Seq<u64>) -> bool {
    &&& r.count == s.len()
    &&& r.samples@ == s
    &&& r.min == (if s.len() == 0 {
        None
    } else {
        Some(ascending(s)[0])
    })
    &&& r.max == (if s.len() == 0 {
        None
    } else {
        Some(ascending(s).last())
    })
    &&& r.p50 == percentile(s, 50)
    &&& r.p90 == percentile(s, 90)
    &&& r.p95 == percentile(s, 95)
    &&& r.p99 == percentile(s, 99)
    &&& (r.mean is None <==> s.len() == 0)
    &&& (r.mean matches Some(m) ==> m == mean(s))
    &&& (r.jitter is None <==> s.len() == 0)
    &&& (r.jitter matches Some(j) ==> is_root(j as nat, deviation(s, mean(s)) / s.len()))
}

/// Inserting adds one element, keeps the order, and bounds the elements.
proof fn lemma_insert(s: Seq<u64>, x: u64)
    requires
        forall|i: int, j: int| 0 <= i <= j < s.len() ==> s[i] <= s[j],
    ensures
        insert(s, x).len() == s.len() + 1,
        forall|i: int, j: int| 0 <= i <= j < insert(s, x).len() ==> insert(s, x)[i] <= insert(s, x)[j],
        insert(s, x).last() == (if s.len() == 0 || s.last() <= x {
            x
        } else {
            s.last()
        }),
        insert(s, x).to_multiset() == s.to_multiset().insert(x),
    decreases s.len(),
{
    broadcast use vstd::seq_lib::group_to_multiset_ensures;

    if s.len() == 0 || s.last() <= x {
        assert(s.push(x).to_multiset() =~= s.to_multiset().insert(x));
    } else {
        let t = s.drop_last();
        lemma_insert(t, x);
        let r = insert(t, x);
        assert(s =~= t.push(s.last()));
        assert(t.push(s.last()).to_multiset() =~= t.to_multiset().insert(s.last()));
        assert(r.push(s.last()).to_multiset() =~= r.to_multiset().insert(s.last()));
        assert(r.last() <= s.last());
        assert forall|i: int| 0 <= i < r.len() implies r[i] <= s.last() by {
            assert(r[i] <= r[r.len() - 1]);
        }
    }
}

/// The samples in ascending order are a rearrangement of the samples, and
/// they ascend.
pub proof fn lemma_ascending(s: Seq<u64>)
    ensures
        ascending(s).len() == s.len(),
        ascending(s).to_multiset() == s.to_multiset(),
        forall|i: int, j: int| 0 <= i <= j < s.len() ==> ascending(s)[i] <= ascending(s)[j],
    decreases s.len(),
{
    broadcast use vstd::seq_lib::group_to_multiset_ensures;

    if s.len() > 0 {
        let t = s.drop_last();
        lemma_ascending(t);
        lemma_insert(ascending(t), s.last());
        assert(s =~= t.push(s.last()));
        assert(t.push(s.last()).to_multiset() =~= t.to_multiset().insert(s.last()));
    }
}

/// The percentiles of a distribution never leave its range and never fall as
/// the percentage rises: `min <= p50 <= p90 <= p95 <= p99 <= max`.
pub proof fn lemma_percentiles_ordered(r: LatencySummary, s: Seq<u64>)
    requires
        summarizes(r, s),
        s.len() > 0,
    ensures
        r.min is Some && r.p50 is Some && r.p90 is Some && r.p95 is Some && r.p99 is Some && r.max is Some,
        r.min->0 <= r.p50->0 <= r.p90->0 <= r.p95->0 <= r.p99->0 <= r.max->0,
{
    lemma_ascending(s);
}

/// How many samples a test picks.
pub open spec fn how_many(s: Seq<u64>, p: spec_fn(u64) -> bool) -> nat
    decreases s.len(),
{
    if s.len() == 0 {
        0
    } else {
        how_many(s.drop_last(), p) + if p(s.last()) {
            1nat
        } else {
            0
        }
    }
}

/// Inserting one more sample counts it once.
proof fn lemma_how_many_insert(s: Seq<u64>, x: u64, p: spec_fn(u64) -> bool)
    ensures
        how_many(insert(s, x), p) == how_many(s, p) + if p(x) {
            1nat
        } else {
            0
        },
    decreases s.len(),
{
    if s.len() == 0 || s.last() <= x {
        assert(s.push(x).drop_last() =~= s);
    } else {
        lemma_how_many_insert(s.drop_last(), x, p);
        let r = insert(s.drop_last(), x).push(s.last());
        assert(r.drop_last() =~= insert(s.drop_last(), x));
    }
}

/// A rearrangement in ascending order picks as many.
proof fn lemma_how_many_ascending(s: Seq<u64>, p: spec_fn(u64) -> bool)
    ensures
        how_many(ascending(s), p) == how_many(s, p),
    decreases s.len(),
{
    if s.len() > 0 {
        lemma_how_many_ascending(s.drop_last(), p);
        lemma_how_many_insert(ascending(s.drop_last()), s.last(), p);
    }
}

/// What the first elements of a sequence contribute.
proof fn lemma_how_many_bounds(s: Seq<u64>, p: spec_fn(u64) -> bool, k: int)
    requires
        0 <= k <= s.len(),
    ensures
        (forall|i: int| 0 <= i < k ==> p(#[trigger] s[i])) ==> how_many(s, p) >= k,
        (forall|i: int| k <= i < s.len() ==> !p(#[trigger] s[i])) ==> how_many(s, p) <= k,
        how_many(s, p) <= s.len(),
    decreases s.len(),
{
    if s.len() > 0 {
        let t = s.drop_last();
        assert forall|i: int| 0 <= i < t.len() implies t[i] == #[trigger] s[i] by {}
        if k == s.len() {
            lemma_how_many_bounds(t, p, k - 1);
            if forall|i: int| 0 <= i < k ==> p(#[trigger] s[i]) {
                assert(p(s[k - 1]));
                assert forall|i: int| 0 <= i < k - 1 implies p(#[trigger] t[i]) by {
                    assert(p(s[i]));
                }
            }
        } else {
            lemma_how_many_bounds(t, p, k);
            if forall|i: int| 0 <= i < k ==> p(#[trigger] s[i]) {
                assert forall|i: int| 0 <= i < k implies p(#[trigger] t[i]) by {
                    assert(p(s[i]));
                }
            }
            if forall|i: int| k <= i < s.len() ==> !p(#[trigger] s[i]) {
                assert(!p(s[s.len() - 1]));
                assert forall|i: int| k <= i < t.len() implies !p(#[trigger] t[i]) by {
                    assert(!p(s[i]));
                }
            }
        }
    }
}

/// A percentile is one of the samples, at least that percentage of the samples
/// are at most as large, and fewer than that percentage are smaller.
pub proof fn lemma_percentile_splits_the_samples(s: Seq<u64>, p: int)
    requires
        s.len() > 0,
        0 < p <= 100,
    ensures
        percentile(s, p) matches Some(v) && s.contains(v) && 100 * how_many(s, |x: u64| x <= v) >= p * s.len() && 100
            * how_many(s, |x: u64| x < v) < p * s.len(),
{
    lemma_ascending(s);
    let o = ascending(s);
    let n = s.len() as int;
    let rank = (p * n + 99) / 100;
    assert(p * n >= 1 && p * n <= 100 * n) by (nonlinear_arith)
        requires
            1 <= p <= 100,
            n >= 1,
    ;
    assert(1 <= rank <= n);
    let v = o[rank - 1];
    let most = |x: u64| x <= v;
    let less = |x: u64| x < v;
    lemma_how_many_ascending(s, most);
    lemma_how_many_ascending(s, less);
    assert forall|i: int| 0 <= i < rank implies most(#[trigger] o[i]) by {
        assert(o[i] <= o[rank - 1]);
    }
    assert forall|i: int| rank - 1 <= i < o.len() implies !less(#[trigger] o[i]) by {
        assert(o[rank - 1] <= o[i]);
    }
    lemma_how_many_bounds(o, most, rank);
    lemma_how_many_bounds(o, less, rank - 1);
    assert(o.contains(v));
    broadcast use vstd::seq_lib::group_to_multiset_ensures;

    assert(o.to_multiset().count(v) > 0);
    assert(s.contains(v));
}

/// The median of a summary splits the samples at one half, and its upper
/// percentiles split them at 90, 95 and 99 of a hundred. The summary counts the
/// samples and keeps them in their order.
pub proof fn lemma_summary_percentiles(r: LatencySummary, s: Seq<u64>)
    requires
        summarizes(r, s),
    ensures
        r.count == s.len(),
        r.samples@ == s,
        s.len() == 0 ==> r.min is None && r.p50 is None && r.p90 is None && r.p95 is None && r.p99 is None && r.max is None
            && r.mean is None && r.jitter is None,
        s.len() > 0 ==> {
            &&& r.p50 matches Some(v) && 2 * how_many(s, |x: u64| x <= v) >= s.len() && 2 * how_many(s, |x: u64| x < v)
                < s.len()
            &&& r.p90 matches Some(v) && 10 * how_many(s, |x: u64| x <= v) >= 9 * s.len() && 10 * how_many(
                s,
                |x: u64| x < v,
            ) < 9 * s.len()
            &&& r.p95 matches Some(v) && 20 * how_many(s, |x: u64| x <= v) >= 19 * s.len() && 20 * how_many(
                s,
                |x: u64| x < v,
            ) < 19 * s.len()
            &&& r.p99 matches Some(v) && 100 * how_many(s, |x: u64| x <= v) >= 99 * s.len() && 100 * how_many(
                s,
                |x: u64| x < v,
            ) < 99 * s.len()
        },
{
    if s.len() > 0 {
        lemma_percentile_splits_the_samples(s, 50);
        lemma_percentile_splits_the_samples(s, 90);
        lemma_percentile_splits_the_samples(s, 95);
        lemma_percentile_splits_the_samples(s, 99);
    }
}

/// The smallest and the largest sample are samples that no other sample falls
/// below or exceeds.
pub proof fn lemma_extremes_are_samples(r: LatencySummary, s: Seq<u64>)
    requires
        summarizes(r, s),
        s.len() > 0,
    ensures
        r.min is Some && r.max is Some,
        s.contains(r.min->0) && s.contains(r.max->0),
        forall|i: int| 0 <= i < s.len() ==> r.min->0 <= #[trigger] s[i] <= r.max->0,
{
    lemma_ascending(s);
    let o = ascending(s);
    broadcast use vstd::seq_lib::group_to_multiset_ensures;

    assert(o.contains(o[0]) && o.contains(o.last()));
    assert(o.to_multiset().count(o[0]) > 0 && o.to_multiset().count(o.last()) > 0);
    assert(s.contains(o[0]) && s.contains(o.last()));
    assert forall|i: int| 0 <= i < s.len() implies r.min->0 <= #[trigger] s[i] <= r.max->0 by {
        assert(s.contains(s[i]));
        assert(s.to_multiset().count(s[i]) > 0);
        assert(o.contains(s[i]));
        let k = choose|k: int| 0 <= k < o.len() && o[k] == s[i];
        assert(o[0] <= o[k] && o[k] <= o[o.len() - 1]);
    }
}

/// The sum and the squared deviations, by going through all samples.
proof fn lemma_sums(s: Seq<u64>, m: nat)
    ensures
        total(s) == s.fold_left(0int, |a: int, x: u64| a + x),
        deviation(s, m) == s.fold_left(0int, |a: int, x: u64| a + (x - m) * (x - m)),
    decreases s.len(),
{
    if s.len() > 0 {
        lemma_sums(s.drop_last(), m);
        let d = s.last() - m;
        assert(d * d >= 0) by (nonlinear_arith);
    }
}

/// The mean times the number of samples is the sum of the samples but for what
/// rounding down loses, and the square of the jitter is the mean squared
/// deviation from that mean but for the same.
pub proof fn lemma_mean_and_jitter(r: LatencySummary, s: Seq<u64>)
    requires
        summarizes(r, s),
        s.len() > 0,
    ensures
        r.mean is Some && r.jitter is Some,
        ({
            let n = s.len();
            let sum = s.fold_left(0int, |a: int, x: u64| a + x);
            let m = r.mean->0;
            let squares = s.fold_left(0int, |a: int, x: u64| a + (x - m) * (x - m));
            let j = r.jitter->0;
            &&& m * n <= sum < (m + 1) * n
            &&& j * j * n <= squares < (j + 1) * (j + 1) * n
        }),
{
    let n = s.len() as int;
    let m = r.mean->0;
    let j = r.jitter->0 as int;
    lemma_sums(s, m as nat);
    let sum = total(s) as int;
    let squares = deviation(s, m as nat) as int;
    assert(s.fold_left(0int, |a: int, x: u64| a + (x - m) * (x - m)) == squares);
    lemma_fundamental_div_mod(sum, n);
    lemma_fundamental_div_mod(squares, n);
    assert(m * n <= sum < (m + 1) * n) by (nonlinear_arith)
        requires
            sum == n * (sum / n) + sum % n,
            0 <= sum % n < n,
            m == sum / n,
    ;
    let q = squares / n;
    assert(j * j * n <= squares) by (nonlinear_arith)
        requires
            squares == n * q + squares % n,
            0 <= squares % n < n,
            j * j <= q,
    ;
    let up = (j + 1) * (j + 1);
    assert(squares < up * n) by (nonlinear_arith)
        requires
            squares == n * q + squares % n,
            0 <= squares % n < n,
            q + 1 <= up,
    ;
}

/// A copy of the samples.
fn copied(s: &[u64]) -> (out: Vec<u64>)
    ensures
        out@ == s@,
{
    vstd::slice::slice_to_vec(s)
}

/// Insert `x` into an ascending vector.
fn insert_sample(v: &mut Vec<u64>, x: u64)
    ensures
        final(v)@ == insert(old(v)@, x),
    decreases old(v)@.len(),
{
    let ghost before = v@;
    match v.pop() {
        None => {
            v.push(x);
        },
        Some(last) => {
            assert(before =~= v@.push(last));
            assert(before.drop_last() =~= v@);
            if last <= x {
                v.push(last);
                v.push(x);
            } else {
                insert_sample(v, x);
                v.push(last);
            }
        },
    }
}

/// The samples in ascending order.
fn sorted(s: &[u64]) -> (out: Vec<u64>)
    ensures
        out@ == ascending(s@),
{
    let mut out: Vec<u64> = Vec::new();
    for i in 0..s.len()
        invariant
            out@ == ascending(s@.take(i as int)),
    {
        assert(s@.take(i as int + 1).drop_last() =~= s@.take(i as int));
        insert_sample(&mut out, s[i]);
    }
    assert(s@.take(s@.len() as int) =~= s@);
    out
}

/// The sum of the samples never exceeds their number times the largest value.
proof fn lemma_total_bound(s: Seq<u64>)
    ensures
        total(s) <= s.len() * 0xFFFF_FFFF_FFFF_FFFF,
    decreases s.len(),
{
    if s.len() > 0 {
        lemma_total_bound(s.drop_last());
    }
}

/// The mean of the samples, rounded down.
fn mean_of(s: &[u64]) -> (m: u64)
    requires
        s@.len() > 0,
    ensures
        m == mean(s@),
{
    let mut sum: u128 = 0;
    for i in 0..s.len()
        invariant
            sum == total(s@.take(i as int)),
            i <= s.len(),
            s@.len() == s.len(),
    {
        proof {
            lemma_total_bound(s@.take(i as int));
            assert(s@.take(i as int + 1).drop_last() =~= s@.take(i as int));
        }
        sum = sum + s[i] as u128;
    }
    assert(s@.take(s@.len() as int) =~= s@);
    proof {
        lemma_total_bound(s@);
        let n = s@.len() as int;
        lemma_fundamental_div_mod(total(s@) as int, n);
        assert(total(s@) / s@.len() <= 0xFFFF_FFFF_FFFF_FFFF) by (nonlinear_arith)
            requires
                total(s@) <= s@.len() * 0xFFFF_FFFF_FFFF_FFFF,
                s@.len() > 0,
        ;
    }
    (sum / s.len() as u128) as u64
}

/// The square root of `n`, rounded down.
fn root(n: u128) -> (r: u64)
    requires
        n <= 0xFFFF_FFFF_FFFF_FFFFu128 * 0xFFFF_FFFF_FFFF_FFFFu128,
    ensures
        is_root(r as nat, n as nat),
{
    let mut low: u128 = 0;
    let mut high: u128 = 0x1_0000_0000_0000_0000;
    assert(n < high * high) by (nonlinear_arith)
        requires
            n <= 0xFFFF_FFFF_FFFF_FFFFu128 * 0xFFFF_FFFF_FFFF_FFFFu128,
            high == 0x1_0000_0000_0000_0000u128,
    ;
    while high - low > 1
        invariant
            low < high <= 0x1_0000_0000_0000_0000,
            low * low <= n < high * high,
        decreases high - low,
    {
        let mid: u128 = low + (high - low) / 2;
        assert(mid * mid <= 0xFFFF_FFFF_FFFF_FFFF * 0xFFFF_FFFF_FFFF_FFFF) by (nonlinear_arith)
            requires
                0 <= mid <= 0xFFFF_FFFF_FFFF_FFFF,
        ;
        if mid * mid <= n {
            low = mid;
        } else {
            high = mid;
        }
    }
    assert(high == low + 1);
    low as u64
}

/// The squared distance of two samples fits in 128 bits.
proof fn lemma_square_bound(a: int, b: int)
    requires
        0 <= a <= 0xFFFF_FFFF_FFFF_FFFF,
        0 <= b <= 0xFFFF_FFFF_FFFF_FFFF,
    ensures
        0 <= (a - b) * (a - b) <= 0xFFFF_FFFF_FFFF_FFFF * 0xFFFF_FFFF_FFFF_FFFF,
        (a - b) * (a - b) == (b - a) * (b - a),
{
    assert(0 <= (a - b) * (a - b) <= 0xFFFF_FFFF_FFFF_FFFF * 0xFFFF_FFFF_FFFF_FFFF) by (nonlinear_arith)
        requires
            -0xFFFF_FFFF_FFFF_FFFF <= a - b <= 0xFFFF_FFFF_FFFF_FFFF,
    ;
    assert((a - b) * (a - b) == (b - a) * (b - a)) by (nonlinear_arith);
}

/// The squared deviations sum to at most their number times the largest one.
proof fn lemma_deviation_bound(s: Seq<u64>, m: nat)
    requires
        m <= 0xFFFF_FFFF_FFFF_FFFF,
    ensures
        deviation(s, m) <= s.len() * (0xFFFF_FFFF_FFFF_FFFF * 0xFFFF_FFFF_FFFF_FFFF),
    decreases s.len(),
{
    if s.len() > 0 {
        lemma_deviation_bound(s.drop_last(), m);
        lemma_square_bound(s.last() as int, m as int);
        let top = 0xFFFF_FFFF_FFFF_FFFFint * 0xFFFF_FFFF_FFFF_FFFF;
        assert(s.len() * top == (s.len() - 1) * top + top) by (nonlinear_arith);
    }
}

/// The mean squared deviation from `m`, rounded down.
///
/// The sum itself may exceed 128 bits, so quotient and remainder are kept
/// apart while it grows.
fn variance(s: &[u64], m: u64) -> (v: u128)
    requires
        s@.len() > 0,
    ensures
        v == deviation(s@, m as nat) / s@.len(),
        v <= 0xFFFF_FFFF_FFFF_FFFF * 0xFFFF_FFFF_FFFF_FFFF,
{
    let n: u128 = s.len() as u128;
    let mut q: u128 = 0;
    let mut r: u128 = 0;
    let ghost top: int = 0xFFFF_FFFF_FFFF_FFFFint * 0xFFFF_FFFF_FFFF_FFFF;
    for i in 0..s.len()
        invariant
            n == s@.len(),
            0 < n <= 0xFFFF_FFFF_FFFF_FFFF,
            i <= s@.len(),
            top == 0xFFFF_FFFF_FFFF_FFFF * 0xFFFF_FFFF_FFFF_FFFF,
            q * n + r == deviation(s@.take(i as int), m as nat),
            r < n,
            q <= top,
    {
        let x: u64 = s[i];
        let d: u128 = if x >= m {
            (x - m) as u128
        } else {
            (m - x) as u128
        };
        proof {
            lemma_square_bound(x as int, m as int);
            assert(s@.take(i as int + 1).drop_last() =~= s@.take(i as int));
            lemma_deviation_bound(s@.take(i as int + 1), m as nat);
        }
        let square: u128 = d * d;
        let a: u128 = square / n;
        let b: u128 = square % n;
        let ghost sum = deviation(s@.take(i as int + 1), m as nat);
        proof {
            lemma_fundamental_div_mod(square as int, n as int);
            assert((q + a) * n == q * n + a * n) by (nonlinear_arith);
            assert(n * a == a * n) by (nonlinear_arith);
            assert((q + a) * n + (r + b) == sum);
            assert(sum <= (i + 1) * top);
            assert((i + 1) * top <= n * top) by (nonlinear_arith)
                requires
                    i + 1 <= n,
                    top >= 0,
            ;
            assert(q + a <= top && (r + b >= n ==> q + a + 1 <= top)) by (nonlinear_arith)
                requires
                    (q + a) * n + (r + b) <= n * top,
                    n > 0,
                    r >= 0,
                    b >= 0,
            ;
        }
        q = q + a;
        r = r + b;
        if r >= n {
            assert((q + 1) * n == q * n + n) by (nonlinear_arith);
            q = q + 1;
            r = r - n;
        }
    }
    assert(s@.take(s@.len() as int) =~= s@);
    proof {
        let sum = deviation(s@, m as nat) as int;
        vstd::arithmetic::div_mod::lemma_fundamental_div_mod_converse(sum, n as int, q as int, r as int);
    }
    q
}

/// The element of rank `ceil(p/100 * n)`.
fn rank_of(s: &[u64], sorted: &[u64], p: u64) -> (r: Option<u64>)
    requires
        sorted@ == ascending(s@),
        0 < p <= 100,
    ensures
        r == percentile(s@, p as int),
{
    proof {
        lemma_ascending(s@);
    }
    let n = sorted.len();
    if n == 0 {
        return None;
    }
    assert(p * n <= 100 * n) by (nonlinear_arith)
        requires
            p <= 100,
    ;
    assert(p * n >= n) by (nonlinear_arith)
        requires
            p >= 1,
    ;
    let rank: u128 = (p as u128 * n as u128 + 99) / 100;
    Some(sorted[(rank - 1) as usize])
}

impl LatencySummary {
    /// Summarize a distribution.
    pub fn from(stats: &LatencyStats) -> (r: LatencySummary)
        ensures
            summarizes(r, stats@),
    {
        let s = stats.samples.as_slice();
        let order = sorted(s);
        proof {
            lemma_ascending(s@);
        }
        let o = order.as_slice();
        let n = s.len();
        let mean = if n == 0 {
            None
        } else {
            Some(mean_of(s))
        };
        let jitter = match mean {
            None => None,
            Some(m) => Some(root(variance(s, m))),
        };
        LatencySummary {
            count: n,
            min: if n == 0 {
                None
            } else {
                Some(o[0])
            },
            p50: rank_of(s, o, 50),
            p90: rank_of(s, o, 90),
            p95: rank_of(s, o, 95),
            p99: rank_of(s, o, 99),
            max: if n == 0 {
                None
            } else {
                Some(o[n - 1])
            },
            mean,
            jitter,
            samples: copied(s),
        }
    }
}

} // verus!
