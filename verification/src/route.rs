//! Route diagnostics (traceroute): reading ICMP replies, deciding when a hop
//! and a trace are finished, and aggregating repeated traces.
//!
//! A missing hop does not imply packet loss: routers routinely deprioritize or
//! filter TTL-expired responses, so lost hops are recorded without
//! over-interpreting them.

use crate::model::latency::summarizes;
use crate::model::{LatencyStats, LatencySummary};
use crate::net::IpAddr;
use vstd::prelude::*;

verus! {

/// One hop in a route.
#[derive(Debug, Clone, PartialEq, Eq)]
pub struct RouteHop {
    /// Time-to-live of this hop (1-based).
    pub ttl: u8,
    /// Router address responding for this hop, if any.
    pub addr: Option<IpAddr>,
    /// Reverse hostname of the router, if resolvable.
    pub hostname: Option<String>,
    /// Round-trip time in milliseconds.
    pub rtt_ms: Option<u64>,
    /// Whether this hop produced no reply within the timeout.
    pub lost: bool,
}

/// Configuration for a traceroute run.
#[derive(Debug, Clone, Copy, PartialEq, Eq, Structural)]
pub struct TracerouteConfig {
    /// Maximum number of hops to try.
    pub max_hops: u8,
    /// Per-probe timeout in milliseconds.
    pub timeout_ms: u64,
    /// Probes sent per hop (for loss estimation).
    pub probes_per_hop: u8,
}

impl Default for TracerouteConfig {
    fn default() -> (r: Self)
        ensures
            r == (TracerouteConfig { max_hops: 30, timeout_ms: 1000, probes_per_hop: 3 }),
    {
        TracerouteConfig { max_hops: 30, timeout_ms: 1000, probes_per_hop: 3 }
    }
}

/// Aggregated observations for one TTL across repeated traces.
#[derive(Debug, Clone)]
pub struct RouteHopStats {
    /// Time-to-live of this hop (1-based).
    pub ttl: u8,
    /// How many of the repeated runs this hop answered in (0 = every run lost).
    pub answered: u16,
    /// Distinct router addresses observed across the runs (empty if never
    /// answered).
    pub addrs: Vec<IpAddr>,
    /// Best-effort reverse hostname of the reported address, when resolvable.
    pub hostname: Option<String>,
    /// Round-trip latency distribution across the answered runs.
    pub rtt: LatencySummary,
    /// Whether more than one distinct router address was observed at this hop:
    /// the path (or a load-balanced next-hop) changed between runs.
    pub path_changed: bool,
}

/// The result of repeating a traceroute: per-hop aggregates over `runs` traces.
#[derive(Debug, Clone)]
pub struct RouteRepeat {
    /// Number of traces aggregated.
    pub runs: usize,
    /// Per-hop aggregates in TTL order (the union of hops seen across runs).
    pub hops: Vec<RouteHopStats>,
}

// --- aggregation --------------------------------------------------------------------------

/// All hops of all runs, in order.
pub open spec fn all_hops(runs: Seq<Vec<RouteHop>>) -> Seq<RouteHop>
    decreases runs.len(),
{
    if runs.len() == 0 {
        Seq::empty()
    } else {
        all_hops(runs.drop_last()) + runs.last()@
    }
}

/// Whether a hop with this time-to-live was seen.
pub open spec fn seen_ttl(h: Seq<RouteHop>, ttl: u8) -> bool {
    exists|i: int| 0 <= i < h.len() && (#[trigger] h[i]).ttl == ttl
}

/// How often a hop answered.
pub open spec fn times_answered(h: Seq<RouteHop>, ttl: u8) -> nat
    decreases h.len(),
{
    if h.len() == 0 {
        0
    } else {
        times_answered(h.drop_last(), ttl) + if h.last().ttl == ttl && !h.last().lost {
            1nat
        } else {
            0
        }
    }
}

/// The distinct addresses that answered for a hop, in the order in which they
/// were first seen.
pub open spec fn hop_addresses(h: Seq<RouteHop>, ttl: u8) -> Seq<IpAddr>
    decreases h.len(),
{
    if h.len() == 0 {
        Seq::empty()
    } else {
        let before = hop_addresses(h.drop_last(), ttl);
        match h.last().addr {
            Some(addr) => if h.last().ttl == ttl && !h.last().lost && !before.contains(addr) {
                before.push(addr)
            } else {
                before
            },
            None => before,
        }
    }
}

/// The round-trip times of a hop's answers.
pub open spec fn hop_rtts(h: Seq<RouteHop>, ttl: u8) -> Seq<u64>
    decreases h.len(),
{
    if h.len() == 0 {
        Seq::empty()
    } else {
        match h.last().rtt_ms {
            Some(ms) => if h.last().ttl == ttl && !h.last().lost {
                hop_rtts(h.drop_last(), ttl).push(ms)
            } else {
                hop_rtts(h.drop_last(), ttl)
            },
            None => hop_rtts(h.drop_last(), ttl),
        }
    }
}

/// The first hostname that a hop's answers came with.
pub open spec fn hop_name(h: Seq<RouteHop>, ttl: u8) -> Option<Seq<char>>
    decreases h.len(),
{
    if h.len() == 0 {
        None
    } else if hop_name(h.drop_last(), ttl) is Some {
        hop_name(h.drop_last(), ttl)
    } else {
        match h.last().hostname {
            Some(name) => if h.last().ttl == ttl && !h.last().lost && name@.len() > 0 {
                Some(name@)
            } else {
                None
            },
            None => None,
        }
    }
}

/// Whether `s` aggregates the hops with its time-to-live.
pub open spec fn aggregates(s: RouteHopStats, h: Seq<RouteHop>) -> bool {
    &&& s.answered == times_answered(h, s.ttl)
    &&& s.addrs@ == hop_addresses(h, s.ttl)
    &&& s.hostname.deep_view() == hop_name(h, s.ttl)
    &&& summarizes(s.rtt, hop_rtts(h, s.ttl))
    &&& s.path_changed == (hop_addresses(h, s.ttl).len() > 1)
}

/// The running aggregate of one time-to-live.
struct HopAggregate {
    seen: bool,
    answered: u16,
    addrs: Vec<IpAddr>,
    hostname: Option<String>,
    latency: LatencyStats,
}

impl HopAggregate {
    /// Whether this aggregates the hops `h` for `ttl`.
    spec fn covers(self, h: Seq<RouteHop>, ttl: u8) -> bool {
        &&& self.seen == seen_ttl(h, ttl)
        &&& self.answered == times_answered(h, ttl)
        &&& self.addrs@ == hop_addresses(h, ttl)
        &&& self.hostname.deep_view() == hop_name(h, ttl)
        &&& self.latency@ == hop_rtts(h, ttl)
    }

    /// Take in one more hop.
    fn take_in(&mut self, hop: &RouteHop, ttl: u8, Ghost(h): Ghost<Seq<RouteHop>>)
        requires
            old(self).covers(h, ttl),
            times_answered(h.push(*hop), ttl) <= 0xFFFF,
        ensures
            final(self).covers(h.push(*hop), ttl),
    {
        proof {
            assert(h.push(*hop).drop_last() =~= h);
            lemma_seen_push(h, *hop, ttl);
        }
        if hop.ttl != ttl {
            return ;
        }
        self.seen = true;
        if hop.lost {
            return ;
        }
        self.answered = self.answered + 1;
        match hop.addr {
            Some(addr) => if !contains_address(self.addrs.as_slice(), addr) {
                self.addrs.push(addr);
            },
            None => {},
        }
        match hop.rtt_ms {
            Some(ms) => self.latency.push(ms),
            None => {},
        }
        if self.hostname.is_none() {
            match &hop.hostname {
                Some(name) => if !name.as_str().is_empty() {
                    self.hostname = Some(name.clone());
                },
                None => {},
            }
        }
    }
}

/// A time-to-live is seen after a push if it was before or is the new one.
proof fn lemma_seen_push(h: Seq<RouteHop>, hop: RouteHop, ttl: u8)
    ensures
        seen_ttl(h.push(hop), ttl) == (seen_ttl(h, ttl) || hop.ttl == ttl),
{
    let n = h.push(hop);
    if seen_ttl(h, ttl) {
        let i = choose|i: int| 0 <= i < h.len() && (#[trigger] h[i]).ttl == ttl;
        assert(n[i].ttl == ttl);
    }
    if hop.ttl == ttl {
        assert(n[h.len() as int].ttl == ttl);
    }
    if seen_ttl(n, ttl) && hop.ttl != ttl {
        let i = choose|i: int| 0 <= i < n.len() && (#[trigger] n[i]).ttl == ttl;
        assert(h[i].ttl == ttl);
    }
}

/// Whether an address is among others.
fn contains_address(addrs: &[IpAddr], addr: IpAddr) -> (r: bool)
    ensures
        r == addrs@.contains(addr),
{
    for i in 0..addrs.len()
        invariant
            forall|j: int| 0 <= j < i ==> addrs@[j] != addr,
    {
        if addrs[i] == addr {
            assert(addrs@[i as int] == addr);
            return true;
        }
    }
    false
}

/// A hop answers no more often in a front part than in the whole.
proof fn lemma_answers_monotonic(h: Seq<RouteHop>, n: int, ttl: u8)
    requires
        0 <= n <= h.len(),
    ensures
        times_answered(h.take(n), ttl) <= times_answered(h, ttl),
    decreases h.len(),
{
    if n == h.len() {
        assert(h.take(n) =~= h);
    } else {
        lemma_answers_monotonic(h.drop_last(), n, ttl);
        assert(h.drop_last().take(n) =~= h.take(n));
    }
}

/// The hops of the first runs are a front part of all hops.
proof fn lemma_all_hops_prefix(runs: Seq<Vec<RouteHop>>, n: int)
    requires
        0 <= n <= runs.len(),
    ensures
        all_hops(runs.take(n)).len() <= all_hops(runs).len(),
        all_hops(runs.take(n)) == all_hops(runs).take(all_hops(runs.take(n)).len() as int),
    decreases runs.len(),
{
    if n == runs.len() {
        assert(runs.take(n) =~= runs);
        assert(all_hops(runs).take(all_hops(runs).len() as int) =~= all_hops(runs));
    } else {
        lemma_all_hops_prefix(runs.drop_last(), n);
        assert(runs.drop_last().take(n) =~= runs.take(n));
        let front = all_hops(runs.take(n));
        assert(all_hops(runs).take(front.len() as int) =~= front);
    }
}

/// Aggregate the hops of all runs that have one time-to-live.
fn aggregate_ttl(runs: &[Vec<RouteHop>], ttl: u8) -> (r: Option<RouteHopStats>)
    requires
        times_answered(all_hops(runs@), ttl) <= 0xFFFF,
    ensures
        r is Some <==> seen_ttl(all_hops(runs@), ttl),
        r matches Some(s) ==> s.ttl == ttl && aggregates(s, all_hops(runs@)),
{
    let ghost all = all_hops(runs@);
    let mut acc = HopAggregate {
        seen: false,
        answered: 0,
        addrs: Vec::new(),
        hostname: None,
        latency: LatencyStats::default(),
    };
    assert(acc.covers(all_hops(runs@.take(0)), ttl));
    for i in 0..runs.len()
        invariant
            all == all_hops(runs@),
            times_answered(all, ttl) <= 0xFFFF,
            acc.covers(all_hops(runs@.take(i as int)), ttl),
    {
        let ghost front = all_hops(runs@.take(i as int));
        let run = &runs[i];
        proof {
            assert(runs@.take(i as int + 1).drop_last() =~= runs@.take(i as int));
            lemma_all_hops_prefix(runs@, i as int + 1);
            assert(front + run@.take(0) =~= front);
        }
        for j in 0..run.len()
            invariant
                all == all_hops(runs@),
                i < runs@.len(),
                *run == runs@[i as int],
                front == all_hops(runs@.take(i as int)),
                all_hops(runs@.take(i as int + 1)) == front + run@,
                all_hops(runs@.take(i as int + 1)) == all.take(all_hops(runs@.take(i as int + 1)).len() as int),
                (front + run@).len() <= all.len(),
                times_answered(all, ttl) <= 0xFFFF,
                acc.covers(front + run@.take(j as int), ttl),
        {
            let ghost done = front + run@.take(j as int);
            proof {
                let next = done.push(run@[j as int]);
                assert(next =~= front + run@.take(j as int + 1));
                assert(next =~= all.take(next.len() as int)) by {
                    assert(next =~= (front + run@).take(next.len() as int));
                }
                lemma_answers_monotonic(all, next.len() as int, ttl);
            }
            acc.take_in(&run[j], ttl, Ghost(done));
        }
        assert(run@.take(run@.len() as int) =~= run@);
    }
    assert(runs@.take(runs@.len() as int) =~= runs@);
    if acc.seen {
        let changed = acc.addrs.len() > 1;
        Some(
            RouteHopStats {
                ttl,
                answered: acc.answered,
                addrs: acc.addrs,
                hostname: acc.hostname,
                rtt: acc.latency.summarize(),
                path_changed: changed,
            },
        )
    } else {
        None
    }
}

/// Fold per-run hop lists into per-hop aggregates, in TTL order.
///
/// A hop that answered in some runs and was lost in others counts toward
/// `answered` with the latencies it produced; a hop never seen in a run is
/// simply absent. The per-hop count is 16-bit, so no hop may answer more often
/// than that.
pub fn aggregate_runs(hops_by_run: &[Vec<RouteHop>]) -> (r: RouteRepeat)
    requires
        forall|ttl: u8| #[trigger] times_answered(all_hops(hops_by_run@), ttl) <= 0xFFFF,
    ensures
        r.runs == hops_by_run@.len(),
        forall|i: int| 0 <= i < r.hops@.len() ==> aggregates(#[trigger] r.hops@[i], all_hops(hops_by_run@)),
        forall|i: int, j: int| 0 <= i < j < r.hops@.len() ==> (#[trigger] r.hops@[i]).ttl < (#[trigger] r.hops@[j]).ttl,
        forall|ttl: u8|
            seen_ttl(all_hops(hops_by_run@), ttl) <==> exists|i: int|
                0 <= i < r.hops@.len() && (#[trigger] r.hops@[i]).ttl == ttl,
{
    let ghost all = all_hops(hops_by_run@);
    let mut hops: Vec<RouteHopStats> = Vec::new();
    let mut t: u16 = 0;
    while t < 256
        invariant
            t <= 256,
            all == all_hops(hops_by_run@),
            forall|ttl: u8| #[trigger] times_answered(all, ttl) <= 0xFFFF,
            forall|i: int| 0 <= i < hops@.len() ==> aggregates(#[trigger] hops@[i], all) && hops@[i].ttl < t
                && seen_ttl(all, hops@[i].ttl),
            forall|i: int, j: int| 0 <= i < j < hops@.len() ==> (#[trigger] hops@[i]).ttl < (#[trigger] hops@[j]).ttl,
            forall|ttl: u8|
                ttl < t && seen_ttl(all, ttl) ==> exists|i: int| 0 <= i < hops@.len() && (#[trigger] hops@[i]).ttl
                    == ttl,
        decreases 256 - t,
    {
        let ghost before = hops@;
        assert(times_answered(all, t as u8) <= 0xFFFF);
        match aggregate_ttl(hops_by_run, t as u8) {
            Some(s) => {
                hops.push(s);
            },
            None => {},
        }
        proof {
            assert forall|ttl: u8| ttl < t + 1 && seen_ttl(all, ttl) implies exists|i: int|
                0 <= i < hops@.len() && (#[trigger] hops@[i]).ttl == ttl by {
                if ttl < t {
                    let i = choose|i: int| 0 <= i < before.len() && (#[trigger] before[i]).ttl == ttl;
                    assert(hops@[i].ttl == ttl);
                } else {
                    assert(hops@[before.len() as int].ttl == ttl);
                }
            }
        }
        t = t + 1;
    }
    RouteRepeat { runs: hops_by_run.len(), hops }
}

/// The addresses listed for a hop are distinct.
pub proof fn lemma_hop_addresses_distinct(h: Seq<RouteHop>, ttl: u8)
    ensures
        hop_addresses(h, ttl).no_duplicates(),
    decreases h.len(),
{
    if h.len() > 0 {
        lemma_hop_addresses_distinct(h.drop_last(), ttl);
    }
}

/// A hop that never answered has no addresses, no hostname and no latencies,
/// and its path did not change.
pub proof fn lemma_lost_hop_is_empty(h: Seq<RouteHop>, ttl: u8)
    requires
        times_answered(h, ttl) == 0,
    ensures
        hop_addresses(h, ttl) == Seq::<IpAddr>::empty(),
        hop_name(h, ttl) is None,
        hop_rtts(h, ttl) == Seq::<u64>::empty(),
    decreases h.len(),
{
    if h.len() > 0 {
        lemma_lost_hop_is_empty(h.drop_last(), ttl);
    }
}

/// The hops of all runs are the hops of each run, one run behind the other.
pub proof fn lemma_all_hops_are_the_runs(runs: Seq<Vec<RouteHop>>)
    ensures
        all_hops(runs) == runs.map_values(|r: Vec<RouteHop>| r@).flatten(),
    decreases runs.len(),
{
    let seqs = runs.map_values(|r: Vec<RouteHop>| r@);
    if runs.len() == 0 {
        assert(seqs =~= Seq::empty());
        assert(seqs.flatten() =~= Seq::empty());
    } else {
        lemma_all_hops_are_the_runs(runs.drop_last());
        let front = runs.drop_last().map_values(|r: Vec<RouteHop>| r@);
        assert(seqs =~= front.push(runs.last()@));
        front.lemma_flatten_push(runs.last()@);
    }
}

/// The aggregate of a time-to-live holds what was measured: its round-trip
/// samples are the times of the hops of that time-to-live that answered with
/// one, in their order and unchanged, and it counts the hops that answered.
pub proof fn lemma_aggregate_keeps_the_measurements(s: RouteHopStats, h: Seq<RouteHop>)
    requires
        aggregates(s, h),
    ensures
        s.rtt.samples@ == h.filter(|x: RouteHop| x.ttl == s.ttl && !x.lost && x.rtt_ms is Some).map_values(
            |x: RouteHop| x.rtt_ms->0,
        ),
        s.answered == h.filter(|x: RouteHop| x.ttl == s.ttl && !x.lost).len(),
{
    lemma_rtts_are_measured(h, s.ttl);
}

/// The round-trip times of a hop are picked from the hops.
proof fn lemma_rtts_are_measured(h: Seq<RouteHop>, ttl: u8)
    ensures
        hop_rtts(h, ttl) == h.filter(|x: RouteHop| x.ttl == ttl && !x.lost && x.rtt_ms is Some).map_values(
            |x: RouteHop| x.rtt_ms->0,
        ),
        times_answered(h, ttl) == h.filter(|x: RouteHop| x.ttl == ttl && !x.lost).len(),
    decreases h.len(),
{
    reveal(Seq::filter);
    if h.len() > 0 {
        lemma_rtts_are_measured(h.drop_last(), ttl);
    }
    assert(hop_rtts(h, ttl) =~= h.filter(|x: RouteHop| x.ttl == ttl && !x.lost && x.rtt_ms is Some).map_values(
        |x: RouteHop| x.rtt_ms->0,
    ));
}

/// An address is listed for a time-to-live exactly when a hop of that
/// time-to-live answered from it.
pub proof fn lemma_listed_addresses_answered(h: Seq<RouteHop>, ttl: u8, addr: IpAddr)
    ensures
        hop_addresses(h, ttl).contains(addr) <==> exists|i: int|
            0 <= i < h.len() && (#[trigger] h[i]).ttl == ttl && !h[i].lost && h[i].addr == Some(addr),
    decreases h.len(),
{
    if h.len() > 0 {
        let front = h.drop_last();
        let before = hop_addresses(front, ttl);
        lemma_listed_addresses_answered(front, ttl, addr);
        let last = h.len() - 1;
        if before.contains(addr) {
            let i = choose|i: int|
                0 <= i < front.len() && (#[trigger] front[i]).ttl == ttl && !front[i].lost && front[i].addr == Some(
                    addr,
                );
            assert(h[i].addr == Some(addr));
            let k = choose|k: int| 0 <= k < before.len() && before[k] == addr;
            assert(hop_addresses(h, ttl)[k] == addr);
        }
        if h[last].ttl == ttl && !h[last].lost && h[last].addr == Some(addr) {
            if !before.contains(addr) {
                assert(hop_addresses(h, ttl) == before.push(addr));
                assert(hop_addresses(h, ttl)[before.len() as int] == addr);
            }
        }
        if hop_addresses(h, ttl).contains(addr) && !before.contains(addr) {
            let k = choose|k: int| 0 <= k < hop_addresses(h, ttl).len() && hop_addresses(h, ttl)[k] == addr;
            if k < before.len() {
                assert(before[k] == addr);
            }
        }
        if exists|i: int| 0 <= i < h.len() && (#[trigger] h[i]).ttl == ttl && !h[i].lost && h[i].addr == Some(addr) {
            let i = choose|i: int|
                0 <= i < h.len() && (#[trigger] h[i]).ttl == ttl && !h[i].lost && h[i].addr == Some(addr);
            if i < last {
                assert(front[i].ttl == ttl);
            }
        }
    }
}

/// A changed path is reported exactly when two hops of the same time-to-live
/// answered from different addresses.
pub proof fn lemma_changed_path_has_two_addresses(s: RouteHopStats, h: Seq<RouteHop>)
    requires
        aggregates(s, h),
    ensures
        s.path_changed <==> exists|i: int, j: int|
            0 <= i < h.len() && 0 <= j < h.len() && (#[trigger] h[i]).ttl == s.ttl && (#[trigger] h[j]).ttl == s.ttl
                && !h[i].lost && !h[j].lost && h[i].addr is Some && h[j].addr is Some && h[i].addr != h[j].addr,
{
    let a = hop_addresses(h, s.ttl);
    lemma_hop_addresses_distinct(h, s.ttl);
    if a.len() > 1 {
        assert(a.contains(a[0]) && a.contains(a[1]));
        lemma_listed_addresses_answered(h, s.ttl, a[0]);
        lemma_listed_addresses_answered(h, s.ttl, a[1]);
        let i = choose|i: int|
            0 <= i < h.len() && (#[trigger] h[i]).ttl == s.ttl && !h[i].lost && h[i].addr == Some(a[0]);
        let j = choose|j: int|
            0 <= j < h.len() && (#[trigger] h[j]).ttl == s.ttl && !h[j].lost && h[j].addr == Some(a[1]);
        assert(h[i].addr != h[j].addr);
    }
    if exists|i: int, j: int|
        0 <= i < h.len() && 0 <= j < h.len() && (#[trigger] h[i]).ttl == s.ttl && (#[trigger] h[j]).ttl == s.ttl
            && !h[i].lost && !h[j].lost && h[i].addr is Some && h[j].addr is Some && h[i].addr != h[j].addr {
        let (i, j) = choose|i: int, j: int|
            0 <= i < h.len() && 0 <= j < h.len() && (#[trigger] h[i]).ttl == s.ttl && (#[trigger] h[j]).ttl == s.ttl
                && !h[i].lost && !h[j].lost && h[i].addr is Some && h[j].addr is Some && h[i].addr != h[j].addr;
        lemma_listed_addresses_answered(h, s.ttl, h[i].addr->0);
        lemma_listed_addresses_answered(h, s.ttl, h[j].addr->0);
        let x = choose|x: int| 0 <= x < a.len() && a[x] == h[i].addr->0;
        let y = choose|y: int| 0 <= y < a.len() && a[y] == h[j].addr->0;
        assert(x != y);
    }
}

/// The hostname of a time-to-live is the first nonempty one that a hop of that
/// time-to-live answered with, and there is none only where none did.
pub proof fn lemma_hostname_is_the_first_given(h: Seq<RouteHop>, ttl: u8)
    ensures
        hop_name(h, ttl) is None <==> forall|i: int|
            0 <= i < h.len() && (#[trigger] h[i]).ttl == ttl && !h[i].lost && h[i].hostname is Some
                ==> h[i].hostname->0@.len() == 0,
        hop_name(h, ttl) matches Some(name) ==> exists|i: int|
            0 <= i < h.len() && (#[trigger] h[i]).ttl == ttl && !h[i].lost && h[i].hostname is Some
                && h[i].hostname->0@ == name && name.len() > 0 && forall|j: int|
                0 <= j < i && (#[trigger] h[j]).ttl == ttl && !h[j].lost && h[j].hostname is Some
                    ==> h[j].hostname->0@.len() == 0,
    decreases h.len(),
{
    if h.len() > 0 {
        let front = h.drop_last();
        let last = h.len() - 1;
        lemma_hostname_is_the_first_given(front, ttl);
        assert forall|i: int| 0 <= i < last implies front[i] == #[trigger] h[i] by {}
        if hop_name(front, ttl) is Some {
            let name = hop_name(front, ttl)->0;
            let i = choose|i: int|
                0 <= i < front.len() && (#[trigger] front[i]).ttl == ttl && !front[i].lost && front[i].hostname is Some
                    && front[i].hostname->0@ == name && name.len() > 0 && forall|j: int|
                    0 <= j < i && (#[trigger] front[j]).ttl == ttl && !front[j].lost && front[j].hostname is Some
                        ==> front[j].hostname->0@.len() == 0;
            assert(h[i].ttl == ttl && h[i].hostname->0@ == name);
            assert forall|j: int| 0 <= j < i && (#[trigger] h[j]).ttl == ttl && !h[j].lost && h[j].hostname is Some
                implies h[j].hostname->0@.len() == 0 by {
                assert(front[j].ttl == ttl);
            }
        } else {
            assert forall|j: int| 0 <= j < last && (#[trigger] h[j]).ttl == ttl && !h[j].lost && h[j].hostname is Some
                implies h[j].hostname->0@.len() == 0 by {
                assert(front[j].ttl == ttl);
            }
            if hop_name(h, ttl) is Some {
                assert(h[last].ttl == ttl);
            }
        }
    }
}

/// How often a repeated trace runs: at least once.
pub fn repeat_runs(count: usize) -> (n: usize)
    ensures
        n == (if count == 0 {
            1
        } else {
            count
        }),
{
    if count == 0 {
        1
    } else {
        count
    }
}

// --- tracing ---------------------------------------------------------------------------------

/// Whether a target can be traced: only IPv4 is supported.
pub fn traceable(target: IpAddr) -> (r: Result<(), String>)
    ensures
        r is Ok <==> target is V4,
        r matches Err(e) ==> e@ == "route diagnostics are currently IPv4-only on Linux"@,
{
    if target.is_ipv4() {
        Ok(())
    } else {
        Err("route diagnostics are currently IPv4-only on Linux".to_owned())
    }
}

/// A hop that has not answered yet.
pub fn fresh_hop(ttl: u8) -> (r: RouteHop)
    ensures
        r == (RouteHop { ttl, addr: None, hostname: None, rtt_ms: None, lost: true }),
{
    RouteHop { ttl, addr: None, hostname: None, rtt_ms: None, lost: true }
}

/// The destination port of a probe.
pub fn probe_port(probe: u8) -> (port: u16)
    ensures
        port == 33434 + probe,
{
    33434 + probe as u16
}

/// What happened while waiting for the reply to a probe.
#[derive(Debug, Clone, Copy, PartialEq, Eq, Structural)]
pub enum ReplyEvent {
    /// The deadline passed.
    TimedOut,
    /// A reply arrived: its source, the UDP source port of the datagram it
    /// quotes, and the time since the probe was sent.
    Reply { source: IpAddr, port: u16, rtt_ms: u64 },
}

/// Take in what happened while waiting for the reply to the probe sent from
/// `local_port`; `true` once the wait is over. Only a reply that quotes that
/// port answers the hop; any other reply belongs to another probe.
pub fn on_reply(hop: &mut RouteHop, local_port: u16, event: ReplyEvent) -> (done: bool)
    ensures
        match event {
            ReplyEvent::TimedOut => done && *final(hop) == *old(hop),
            ReplyEvent::Reply { source, port, rtt_ms } => if port == local_port {
                done && *final(hop) == (RouteHop {
                    addr: Some(source),
                    rtt_ms: Some(rtt_ms),
                    lost: false,
                    ..*old(hop)
                })
            } else {
                !done && *final(hop) == *old(hop)
            },
        },
{
    match event {
        ReplyEvent::TimedOut => true,
        ReplyEvent::Reply { source, port, rtt_ms } => if port == local_port {
            hop.addr = Some(source);
            hop.rtt_ms = Some(rtt_ms);
            hop.lost = false;
            true
        } else {
            false
        },
    }
}

/// Whether a hop needs no more probes: it answered, or all were sent.
pub fn hop_finished(hop: &RouteHop, sent: u8, probes_per_hop: u8) -> (r: bool)
    ensures
        r == (!hop.lost || sent >= probes_per_hop),
{
    !hop.lost || sent >= probes_per_hop
}

/// Whether a trace is over after this hop: the destination itself answered, or
/// the hop limit is reached.
pub fn trace_finished(hop: &RouteHop, target: IpAddr, max_hops: u8) -> (r: bool)
    ensures
        r == ((hop.addr == Some(target) && !hop.lost) || hop.ttl >= max_hops),
{
    let arrived = match hop.addr {
        Some(addr) => addr == target && !hop.lost,
        None => false,
    };
    arrived || hop.ttl >= max_hops
}

/// Whether the destination itself answered at a hop.
pub open spec fn arrived(hop: RouteHop, target: IpAddr) -> bool {
    hop.addr == Some(target) && !hop.lost
}

/// Whether a hop is lost exactly when it has no address, and exactly when it has
/// no time.
pub open spec fn lost_or_answered(hop: RouteHop) -> bool {
    hop.lost == (hop.addr is None) && hop.lost == (hop.rtt_ms is None)
}

/// Whether the hops of a trace stop where one may: at the limit, or at the
/// destination.
pub open spec fn ended(hops: Seq<RouteHop>, target: IpAddr, max_hops: u8) -> bool {
    hops.len() == max_hops || (hops.len() > 0 && arrived(hops.last(), target))
}

/// What is known in the course of a trace.
#[verifier::ext_equal]
pub struct TraceState {
    /// The hops that are done.
    pub hops: Seq<RouteHop>,
    /// The hop being probed, unless the trace is over.
    pub hop: Option<RouteHop>,
    /// The probes sent to it.
    pub sent: u8,
}

/// The state once every hop that needs no more probes is done.
pub open spec fn settled(s: TraceState, target: IpAddr, max_hops: u8, probes_per_hop: u8) -> TraceState
    decreases
            (match s.hop {
                Some(hop) => 256 - hop.ttl,
                None => 0,
            }),
{
    match s.hop {
        Some(hop) => if hop.lost && s.sent < probes_per_hop {
            s
        } else if arrived(hop, target) || hop.ttl >= max_hops {
            TraceState { hops: s.hops.push(hop), hop: None, sent: 0 }
        } else {
            settled(
                TraceState {
                    hops: s.hops.push(hop),
                    hop: Some(RouteHop { ttl: (hop.ttl + 1) as u8, addr: None, hostname: None, rtt_ms: None, lost: true }),
                    sent: 0,
                },
                target,
                max_hops,
                probes_per_hop,
            )
        },
        None => s,
    }
}

/// A trace under way: hop by hop, a few probes each, until the destination
/// answers or the hop limit is reached.
pub struct Trace {
    target: IpAddr,
    max_hops: u8,
    probes_per_hop: u8,
    hops: Vec<RouteHop>,
    hop: Option<RouteHop>,
    sent: u8,
}

/// What a trace does next.
#[derive(Debug, Clone, Copy, PartialEq, Eq, Structural)]
pub enum TraceAction {
    /// Send a probe with this time-to-live to this port and await its reply.
    Probe { ttl: u8, port: u16 },
    /// The trace is over.
    Finished,
}

impl View for Trace {
    type V = TraceState;

    closed spec fn view(&self) -> TraceState {
        TraceState { hops: self.hops@, hop: self.hop, sent: self.sent }
    }
}

impl Trace {
    /// The address that is traced.
    pub closed spec fn target(self) -> IpAddr {
        self.target
    }

    /// The largest number of hops.
    pub closed spec fn max_hops(self) -> u8 {
        self.max_hops
    }

    /// The largest number of probes for a hop.
    pub closed spec fn probes_per_hop(self) -> u8 {
        self.probes_per_hop
    }

    /// The invariant of a trace: the hops count up from one, the destination
    /// answered at none but the last, the limits are kept, every hop is lost or
    /// answered, and only the last hop allowed or the destination ends the trace.
    pub closed spec fn wf(self) -> bool {
        &&& self.hops@.len() <= self.max_hops
        &&& forall|i: int| 0 <= i < self.hops@.len() ==> (#[trigger] self.hops@[i]).ttl == i + 1
        &&& forall|i: int|
            0 <= i < self.hops@.len() && (i + 1 < self.hops@.len() || self.hop is Some) ==> !arrived(
                #[trigger] self.hops@[i],
                self.target,
            )
        &&& self.hop matches Some(hop) ==> hop.ttl == self.hops@.len() + 1 && hop.ttl <= self.max_hops
        &&& self.sent <= self.probes_per_hop
        &&& forall|i: int| 0 <= i < self.hops@.len() ==> lost_or_answered(#[trigger] self.hops@[i])
        &&& self.hop matches Some(hop) ==> lost_or_answered(hop)
        &&& self.hop is None ==> ended(self.hops@, self.target, self.max_hops)
    }

    /// Begin a trace, or say why the target cannot be traced.
    pub fn start(target: IpAddr, max_hops: u8, probes_per_hop: u8) -> (r: Result<Trace, String>)
        ensures
            r is Ok <==> target is V4,
            r matches Err(e) ==> e@ == "route diagnostics are currently IPv4-only on Linux"@,
            r matches Ok(trace) ==> {
                &&& trace.wf()
                &&& trace.target() == target
                &&& trace.max_hops() == max_hops
                &&& trace.probes_per_hop() == probes_per_hop
                &&& trace@ == (TraceState {
                    hops: Seq::empty(),
                    hop: if max_hops > 0 {
                        Some(RouteHop { ttl: 1, addr: None, hostname: None, rtt_ms: None, lost: true })
                    } else {
                        None
                    },
                    sent: 0,
                })
            },
    {
        match traceable(target) {
            Ok(()) => {
                let hop = if max_hops > 0 {
                    Some(fresh_hop(1))
                } else {
                    None
                };
                Ok(Trace { target, max_hops, probes_per_hop, hops: Vec::new(), hop, sent: 0 })
            },
            Err(e) => Err(e),
        }
    }

    /// The next probe to send, once every hop that needs no more is done.
    pub fn next(&mut self) -> (r: TraceAction)
        requires
            old(self).wf(),
        ensures
            final(self).wf(),
            final(self).target() == old(self).target(),
            final(self).max_hops() == old(self).max_hops(),
            final(self).probes_per_hop() == old(self).probes_per_hop(),
            ({
                let s = settled(old(self)@, old(self).target(), old(self).max_hops(), old(self).probes_per_hop());
                match s.hop {
                    Some(hop) => {
                        &&& r == (TraceAction::Probe { ttl: hop.ttl, port: (33434 + s.sent) as u16 })
                        &&& final(self)@ == (TraceState { sent: (s.sent + 1) as u8, ..s })
                    },
                    None => r == TraceAction::Finished && final(self)@ == s,
                }
            }),
    {
        let ghost end = settled(self@, self.target, self.max_hops, self.probes_per_hop);
        loop
            invariant
                self.wf(),
                self.target == old(self).target,
                self.max_hops == old(self).max_hops,
                self.probes_per_hop == old(self).probes_per_hop,
                end == settled(old(self)@, old(self).target(), old(self).max_hops(), old(self).probes_per_hop()),
                settled(self@, self.target, self.max_hops, self.probes_per_hop) == end,
            decreases
                    (match self.hop {
                        Some(hop) => 256 - hop.ttl,
                        None => 0,
                    }),
        {
            match self.hop.take() {
                None => {
                    return TraceAction::Finished;
                },
                Some(hop) => {
                    if !hop_finished(&hop, self.sent, self.probes_per_hop) {
                        let action = TraceAction::Probe { ttl: hop.ttl, port: probe_port(self.sent) };
                        self.sent = self.sent + 1;
                        self.hop = Some(hop);
                        return action;
                    }
                    let ttl = hop.ttl;
                    let over = trace_finished(&hop, self.target, self.max_hops);
                    self.hops.push(hop);
                    self.sent = 0;
                    if over {
                        return TraceAction::Finished;
                    }
                    self.hop = Some(fresh_hop(ttl + 1));
                },
            }
        }
    }

    /// Take in what happened while waiting for the reply to the probe sent from
    /// `local_port`; `true` once the wait is over.
    pub fn on(&mut self, local_port: u16, event: ReplyEvent) -> (done: bool)
        requires
            old(self).wf(),
            old(self)@.hop is Some,
        ensures
            final(self).wf(),
            final(self).target() == old(self).target(),
            final(self).max_hops() == old(self).max_hops(),
            final(self).probes_per_hop() == old(self).probes_per_hop(),
            match event {
                ReplyEvent::TimedOut => done && final(self)@ == old(self)@,
                ReplyEvent::Reply { source, port, rtt_ms } => if port == local_port {
                    done && final(self)@ == (TraceState {
                        hop: Some(
                            RouteHop { addr: Some(source), rtt_ms: Some(rtt_ms), lost: false, ..old(self)@.hop->0 },
                        ),
                        ..old(self)@
                    })
                } else {
                    !done && final(self)@ == old(self)@
                },
            },
    {
        match self.hop.take() {
            Some(mut hop) => {
                let done = on_reply(&mut hop, local_port, event);
                self.hop = Some(hop);
                done
            },
            None => true,
        }
    }

    /// The hops that are done.
    pub fn into_hops(self) -> (hops: Vec<RouteHop>)
        requires
            self.wf(),
        ensures
            hops@ == self@.hops,
            hops@.len() <= self.max_hops(),
            forall|i: int| 0 <= i < hops@.len() ==> (#[trigger] hops@[i]).ttl == i + 1,
            forall|i: int| 0 <= i < hops@.len() - 1 ==> !arrived(#[trigger] hops@[i], self.target()),
            forall|i: int| 0 <= i < hops@.len() ==> lost_or_answered(#[trigger] hops@[i]),
            self@.hop is None ==> ended(hops@, self.target(), self.max_hops()),
    {
        self.hops
    }
}

/// The type and quoted UDP source port of an ICMP reply of `len` bytes.
///
/// Layout: outer IP header, ICMP header (8 bytes), offending IP header, UDP.
pub open spec fn reply_source(b: Seq<u8>, len: usize) -> Option<(u8, u16)> {
    let outer = (b[0] as int % 16) * 4;
    let inner = outer + 8;
    let udp = inner + (b[inner] as int % 16) * 4;
    if len < 28 || inner > len || (b[outer] != 11 && b[outer] != 3) || inner + 20 > len || udp + 4 > len {
        None
    } else {
        Some((b[outer], (b[udp] * 256 + b[udp + 1]) as u16))
    }
}

/// Read the type and quoted UDP source port of a reply.
fn read_reply(buf: &[u8], len: usize) -> (r: Option<(u8, u16)>)
    requires
        len <= buf@.len(),
    ensures
        r == reply_source(buf@, len),
{
    if len < 28 {
        return None;
    }
    let outer: usize = (buf[0] % 16) as usize * 4;
    if outer + 8 > len {
        return None;
    }
    let kind: u8 = buf[outer];
    if kind != 11 && kind != 3 {
        return None;
    }
    let inner: usize = outer + 8;
    if inner + 20 > len {
        return None;
    }
    let udp: usize = inner + (buf[inner] % 16) as usize * 4;
    if udp + 4 > len {
        return None;
    }
    let port: u16 = buf[udp] as u16 * 256 + buf[udp + 1] as u16;
    Some((kind, port))
}

/// Parse an ICMP reply and return its type and the offending datagram's UDP
/// source port. Time-exceeded (11) and destination-unreachable (3) quote the
/// offending datagram; anything else is ignored.
pub fn parse_icmp_udp_src(buf: &[u8], len: usize) -> (r: Option<(u8, u16)>)
    requires
        len <= buf@.len(),
    ensures
        r == reply_source(buf@, len),
{
    read_reply(buf, len)
}

/// A reply that quotes a datagram is read as built. The headers are as long as
/// their own length fields say, in words of four bytes, and the quoted source
/// port stands behind both, high byte first. Only the two message types that
/// quote a datagram are read.
pub proof fn lemma_reply_quotes_the_port(b: Seq<u8>, len: usize, outer: int, inner: int)
    requires
        len <= b.len(),
        5 <= outer <= 15,
        5 <= inner <= 15,
        b[0] == 64 + outer,
        4 * outer + 8 + 4 * inner + 4 <= len,
        b[4 * outer + 8] == 64 + inner,
    ensures
        ({
            let kind = b[4 * outer];
            let port = 4 * outer + 8 + 4 * inner;
            &&& reply_source(b, len) is Some <==> kind == 11 || kind == 3
            &&& reply_source(b, len) matches Some((k, p)) ==> k == kind && p == b[port] * 256 + b[port + 1]
        }),
{
}

/// Going on with a trace keeps every hop that is done. The hop being probed is
/// done next: as it answered, or lost after all its probes. A hop is given up
/// only after as many probes as allowed, and probing stops at the destination
/// or at the limit.
pub proof fn lemma_trace_goes_on(s: TraceState, target: IpAddr, max_hops: u8, probes_per_hop: u8)
    requires
        s.hop is Some,
        s.hop->0.ttl <= max_hops,
    ensures
        ({
            let n = settled(s, target, max_hops, probes_per_hop);
            let hop = s.hop->0;
            &&& s.hops.len() <= n.hops.len() && n.hops.take(s.hops.len() as int) == s.hops
            &&& n.hops.len() == s.hops.len() <==> hop.lost && s.sent < probes_per_hop
            &&& n.hops.len() == s.hops.len() ==> n == s
            &&& n.hops.len() > s.hops.len() ==> n.hops[s.hops.len() as int] == hop
            &&& n.hops.len() > s.hops.len() && hop.addr == Some(target) && !hop.lost ==> n.hop is None && n.hops.len()
                == s.hops.len() + 1
            &&& n.hops.len() > s.hops.len() && hop.ttl == max_hops ==> n.hop is None
            &&& n.hops.len() > s.hops.len() && !(hop.addr == Some(target) && !hop.lost) && hop.ttl < max_hops
                && probes_per_hop > 0 ==> n.hops.len() == s.hops.len() + 1 && n.sent == 0 && (n.hop matches Some(next)
                && next.ttl == hop.ttl + 1 && next.lost && next.addr is None && next.rtt_ms is None)
        }),
    decreases 256 - s.hop->0.ttl,
{
    let hop = s.hop->0;
    if hop.lost && s.sent < probes_per_hop {
        assert(s.hops.take(s.hops.len() as int) =~= s.hops);
    } else if arrived(hop, target) || hop.ttl >= max_hops {
        assert(s.hops.push(hop).take(s.hops.len() as int) =~= s.hops);
    } else {
        let m = TraceState {
            hops: s.hops.push(hop),
            hop: Some(RouteHop { ttl: (hop.ttl + 1) as u8, addr: None, hostname: None, rtt_ms: None, lost: true }),
            sent: 0,
        };
        lemma_trace_goes_on(m, target, max_hops, probes_per_hop);
        let n = settled(s, target, max_hops, probes_per_hop);
        assert(n == settled(m, target, max_hops, probes_per_hop));
        assert(n.hops.take(s.hops.len() as int) =~= n.hops.take(m.hops.len() as int).take(s.hops.len() as int));
        assert(m.hops.take(s.hops.len() as int) =~= s.hops);
        assert(n.hops[s.hops.len() as int] == n.hops.take(m.hops.len() as int)[s.hops.len() as int]);
    }
}

} // verus!
