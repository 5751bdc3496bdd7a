//! Repeated probing and statistics.
//!
//! A single attempt is insufficient to diagnose intermittent connectivity.
//! This module aggregates the outcomes of repeated attempts against one
//! destination into success/failure rates, latency percentiles and the
//! failure and status distributions.

use crate::model::latency::summarizes;
use crate::model::{
    FailureCount, FailureKind, HttpObservation, LatencyStats, ProbeError, ProbeResult, Rate, StatusCount, TcpObservation,
    TlsObservation,
};
use crate::net::SocketAddr;
use vstd::prelude::*;

verus! {

// --- counting -----------------------------------------------------------------------

/// How often `x` occurs in `s`.
pub open spec fn occurrences<A>(s: Seq<A>, x: A) -> nat
    decreases s.len(),
{
    if s.len() == 0 {
        0
    } else {
        occurrences(s.drop_last(), x) + if s.last() == x {
            1nat
        } else {
            0
        }
    }
}

/// Something occurs exactly if it is an element.
pub proof fn lemma_occurrences<A>(s: Seq<A>, x: A)
    ensures
        occurrences(s, x) <= s.len(),
        occurrences(s, x) > 0 <==> s.contains(x),
    decreases s.len(),
{
    if s.len() > 0 {
        let t = s.drop_last();
        lemma_occurrences(t, x);
        if s.contains(x) && s.last() != x {
            let i = choose|i: int| 0 <= i < s.len() && s[i] == x;
            assert(t[i] == x);
        }
        if t.contains(x) {
            let i = choose|i: int| 0 <= i < t.len() && t[i] == x;
            assert(s[i] == x);
        }
        if s.last() == x {
            assert(s[s.len() - 1] == x);
        }
    }
}

/// A key with the number of its occurrences.
#[derive(Clone, Copy, PartialEq, Eq, Structural)]
struct Tally {
    key: u64,
    count: usize,
}

/// Whether `t` lists the keys of `s`, each once, with its occurrences.
spec fn tallies(t: Seq<Tally>, s: Seq<u64>) -> bool {
    &&& forall|i: int| 0 <= i < t.len() ==> (#[trigger] t[i]).count == occurrences(s, t[i].key) && t[i].count > 0
    &&& forall|i: int, j: int| 0 <= i < j < t.len() ==> (#[trigger] t[i]).key != (#[trigger] t[j]).key
    &&& forall|x: u64| s.contains(x) ==> exists|i: int| 0 <= i < t.len() && (#[trigger] t[i]).key == x
}

/// Whether `a` comes before `b`: more frequent first, then the smaller key.
spec fn ahead(a: Tally, b: Tally) -> bool {
    a.count > b.count || (a.count == b.count && a.key < b.key)
}

/// Whether the tallies are in order.
spec fn in_order(t: Seq<Tally>) -> bool {
    forall|i: int, j: int| 0 <= i < j < t.len() ==> ahead(#[trigger] t[i], #[trigger] t[j])
}

/// Count one more occurrence of `key`.
fn bump(t: &mut Vec<Tally>, key: u64, Ghost(s): Ghost<Seq<u64>>)
    requires
        tallies(old(t)@, s),
        s.len() < usize::MAX,
    ensures
        tallies(final(t)@, s.push(key)),
{
    let ghost before = t@;
    proof {
        lemma_occurrences(s, key);
        assert(s.push(key).drop_last() =~= s);
        assert forall|x: u64| #![auto] occurrences(s.push(key), x) == occurrences(s, x) + if key == x {
            1nat
        } else {
            0
        } by {}
    }
    let mut i: usize = 0;
    while i < t.len()
        invariant
            t@ == before,
            i <= t@.len(),
            tallies(before, s),
            s.len() < usize::MAX,
            s.push(key).drop_last() == s,
            occurrences(s, key) <= s.len(),
            forall|j: int| 0 <= j < i ==> (#[trigger] before[j]).key != key,
        decreases t.len() - i,
    {
        if t[i].key == key {
            let count: usize = t[i].count + 1;
            t.set(i, Tally { key, count });
            proof {
                assert forall|x: u64| s.push(key).contains(x) implies exists|k: int|
                    0 <= k < t@.len() && (#[trigger] t@[k]).key == x by {
                    lemma_push_contains(s, key, x);
                    if x == key {
                        assert(t@[i as int].key == x);
                    } else {
                        let k = choose|k: int| 0 <= k < before.len() && (#[trigger] before[k]).key == x;
                        assert(t@[k].key == x);
                    }
                }
                assert forall|k: int| 0 <= k < t@.len() implies (#[trigger] t@[k]).count == occurrences(
                    s.push(key),
                    t@[k].key,
                ) && t@[k].count > 0 by {
                    if k != i {
                        assert(before[k].key != before[i as int].key);
                    }
                }
                assert forall|a: int, b: int| 0 <= a < b < t@.len() implies (#[trigger] t@[a]).key != (#[trigger] t@[
                    b]).key by {
                    assert(before[a].key != before[b].key);
                }
            }
            return ;
        }
        i = i + 1;
    }
    t.push(Tally { key, count: 1 });
    proof {
        if s.contains(key) {
            let k = choose|k: int| 0 <= k < before.len() && (#[trigger] before[k]).key == key;
            assert(before[k].key != key);
        }
        lemma_occurrences(s, key);
        assert forall|x: u64| s.push(key).contains(x) implies exists|k: int|
            0 <= k < t@.len() && (#[trigger] t@[k]).key == x by {
            lemma_push_contains(s, key, x);
            if x == key {
                assert(t@[t@.len() - 1].key == x);
            } else {
                let k = choose|k: int| 0 <= k < before.len() && (#[trigger] before[k]).key == x;
                assert(t@[k].key == x);
            }
        }
        assert forall|k: int| 0 <= k < t@.len() implies (#[trigger] t@[k]).count == occurrences(s.push(key), t@[k].key)
            && t@[k].count > 0 by {
            if k < before.len() {
                assert(t@[k] == before[k]);
            }
        }
    }
}

/// What a sequence holds after a push.
proof fn lemma_push_contains<A>(s: Seq<A>, y: A, x: A)
    requires
        s.push(y).contains(x),
    ensures
        x == y || s.contains(x),
{
    let i = choose|i: int| 0 <= i < s.push(y).len() && s.push(y)[i] == x;
    if i < s.len() {
        assert(s[i] == x);
    }
}

/// Put a tally where it belongs among ordered ones.
fn place(t: &mut Vec<Tally>, e: Tally)
    requires
        in_order(old(t)@),
        forall|i: int| 0 <= i < old(t)@.len() ==> (#[trigger] old(t)@[i]).key != e.key,
    ensures
        in_order(final(t)@),
        exists|k: int| 0 <= k <= old(t)@.len() && final(t)@ == #[trigger] old(t)@.insert(k, e),
{
    let ghost before = t@;
    let mut i: usize = 0;
    while i < t.len() && (t[i].count > e.count || (t[i].count == e.count && t[i].key < e.key))
        invariant
            t@ == before,
            i <= t@.len(),
            forall|j: int| 0 <= j < i ==> ahead(#[trigger] before[j], e),
        decreases t.len() - i,
    {
        i = i + 1;
    }
    t.insert(i, e);
    proof {
        let k = i as int;
        assert(t@ == before.insert(k, e));
        if k < before.len() {
            assert(before[k].key != e.key);
            assert(ahead(e, before[k]));
        }
        assert forall|a: int, b: int| 0 <= a < b < t@.len() implies ahead(#[trigger] t@[a], #[trigger] t@[b]) by {
            if b < k {
                assert(t@[a] == before[a] && t@[b] == before[b]);
            } else if b == k {
                assert(t@[a] == before[a]);
            } else if a < k {
                assert(t@[a] == before[a] && t@[b] == before[b - 1]);
            } else if a == k {
                assert(t@[b] == before[b - 1]);
                if b - 1 > k {
                    assert(ahead(before[k], before[b - 1]));
                }
            } else {
                assert(t@[a] == before[a - 1] && t@[b] == before[b - 1]);
            }
        }
    }
}

/// The tallies in order.
fn ordered(t: &[Tally], Ghost(s): Ghost<Seq<u64>>) -> (out: Vec<Tally>)
    requires
        tallies(t@, s),
    ensures
        tallies(out@, s),
        in_order(out@),
{
    let mut out: Vec<Tally> = Vec::new();
    for i in 0..t.len()
        invariant
            tallies(t@, s),
            in_order(out@),
            out@.len() == i,
            forall|j: int| 0 <= j < i ==> out@.contains(#[trigger] t@[j]),
            forall|j: int| 0 <= j < out@.len() ==> t@.take(i as int).contains(#[trigger] out@[j]),
    {
        let ghost before = out@;
        let e = t[i];
        proof {
            assert forall|j: int| 0 <= j < before.len() implies (#[trigger] before[j]).key != e.key by {
                assert(t@.take(i as int).contains(before[j]));
                let k = choose|k: int| 0 <= k < i && t@.take(i as int)[k] == before[j];
                assert(t@[k].key != t@[i as int].key);
            }
        }
        place(&mut out, e);
        proof {
            let k = choose|k: int| 0 <= k <= before.len() && out@ == #[trigger] before.insert(k, e);
            assert(out@[k] == e);
            assert forall|j: int| 0 <= j < i + 1 implies out@.contains(#[trigger] t@[j]) by {
                if j < i {
                    assert(before.contains(t@[j]));
                    let a = choose|a: int| 0 <= a < before.len() && before[a] == t@[j];
                    if a < k {
                        assert(out@[a] == t@[j]);
                    } else {
                        assert(out@[a + 1] == t@[j]);
                    }
                }
            }
            let next = t@.take(i as int + 1);
            assert forall|j: int| 0 <= j < out@.len() implies next.contains(#[trigger] out@[j]) by {
                if j == k {
                    assert(next[i as int] == e);
                } else {
                    let x = if j < k {
                        before[j]
                    } else {
                        before[j - 1]
                    };
                    assert(out@[j] == x);
                    assert(t@.take(i as int).contains(x));
                    let a = choose|a: int| 0 <= a < i && t@.take(i as int)[a] == x;
                    assert(next[a] == x);
                }
            }
        }
    }
    proof {
        assert(t@.take(t@.len() as int) =~= t@);
        assert forall|i: int| 0 <= i < out@.len() implies (#[trigger] out@[i]).count == occurrences(s, out@[i].key)
            && out@[i].count > 0 by {
            assert(t@.contains(out@[i]));
            let a = choose|a: int| 0 <= a < t@.len() && t@[a] == out@[i];
            assert(t@[a].count > 0);
        }
        assert forall|i: int, j: int| 0 <= i < j < out@.len() implies (#[trigger] out@[i]).key != (#[trigger] out@[
            j]).key by {
            assert(ahead(out@[i], out@[j]));
        }
        assert forall|x: u64| s.contains(x) implies exists|i: int| 0 <= i < out@.len() && (#[trigger] out@[i]).key
            == x by {
            let a = choose|a: int| 0 <= a < t@.len() && (#[trigger] t@[a]).key == x;
            assert(out@.contains(t@[a]));
            let i = choose|i: int| 0 <= i < out@.len() && out@[i] == t@[a];
            assert(out@[i].key == x);
        }
    }
    out
}

/// Count the occurrences of every key.
fn tally(keys: &[u64]) -> (out: Vec<Tally>)
    ensures
        tallies(out@, keys@),
{
    let mut out: Vec<Tally> = Vec::new();
    for i in 0..keys.len()
        invariant
            tallies(out@, keys@.take(i as int)),
            i <= keys.len(),
            keys@.len() == keys.len(),
    {
        assert(keys@.take(i as int + 1) =~= keys@.take(i as int).push(keys@[i as int]));
        bump(&mut out, keys[i], Ghost(keys@.take(i as int)));
    }
    assert(keys@.take(keys@.len() as int) =~= keys@);
    out
}

// --- failure kinds --------------------------------------------------------------------

impl FailureKind {
    /// The position of the mode in the declaration.
    pub fn position(&self) -> (r: u64)
        ensures
            r == self.rank(),
    {
        match self {
            FailureKind::Timeout => 0,
            FailureKind::ConnectionRefused => 1,
            FailureKind::ConnectionReset => 2,
            FailureKind::NetworkUnreachable => 3,
            FailureKind::HostUnreachable => 4,
            FailureKind::Dns => 5,
            FailureKind::TlsHandshake => 6,
            FailureKind::Certificate => 7,
            FailureKind::Protocol => 8,
            FailureKind::Http => 9,
            FailureKind::Quic => 10,
            FailureKind::Other => 11,
            FailureKind::Unknown => 12,
        }
    }

    /// The mode at a position of the declaration.
    fn at(position: u64) -> (r: FailureKind)
        ensures
            position <= 12 ==> r.rank() == position,
    {
        match position {
            0 => FailureKind::Timeout,
            1 => FailureKind::ConnectionRefused,
            2 => FailureKind::ConnectionReset,
            3 => FailureKind::NetworkUnreachable,
            4 => FailureKind::HostUnreachable,
            5 => FailureKind::Dns,
            6 => FailureKind::TlsHandshake,
            7 => FailureKind::Certificate,
            8 => FailureKind::Protocol,
            9 => FailureKind::Http,
            10 => FailureKind::Quic,
            11 => FailureKind::Other,
            _ => FailureKind::Unknown,
        }
    }
}

/// Whether `c` is the distribution of `kinds`: every mode that occurs, once,
/// with its number of occurrences.
pub open spec fn counts_failures(c: Seq<FailureCount>, kinds: Seq<FailureKind>) -> bool {
    &&& forall|i: int|
        0 <= i < c.len() ==> (#[trigger] c[i]).count == occurrences(kinds, c[i].kind) && c[i].count > 0
    &&& forall|i: int, j: int| 0 <= i < j < c.len() ==> (#[trigger] c[i]).kind != (#[trigger] c[j]).kind
    &&& forall|k: FailureKind| kinds.contains(k) ==> exists|i: int| 0 <= i < c.len() && (#[trigger] c[i]).kind == k
}

/// Whether the most frequent mode comes first, equally frequent ones in the
/// order of their declaration.
pub open spec fn failures_in_order(c: Seq<FailureCount>) -> bool {
    forall|i: int, j: int|
        0 <= i < j < c.len() ==> (#[trigger] c[i]).count > (#[trigger] c[j]).count || (c[i].count == c[j].count
            && c[i].kind.rank() < c[j].kind.rank())
}

/// Whether `c` is the distribution of `statuses`.
pub open spec fn counts_statuses(c: Seq<StatusCount>, statuses: Seq<u16>) -> bool {
    &&& forall|i: int|
        0 <= i < c.len() ==> (#[trigger] c[i]).count == occurrences(statuses, c[i].status) && c[i].count > 0
    &&& forall|i: int, j: int| 0 <= i < j < c.len() ==> (#[trigger] c[i]).status != (#[trigger] c[j]).status
    &&& forall|k: u16| statuses.contains(k) ==> exists|i: int| 0 <= i < c.len() && (#[trigger] c[i]).status == k
}

/// Whether the most frequent status comes first, equally frequent ones in
/// ascending order.
pub open spec fn statuses_in_order(c: Seq<StatusCount>) -> bool {
    forall|i: int, j: int|
        0 <= i < j < c.len() ==> (#[trigger] c[i]).count > (#[trigger] c[j]).count || (c[i].count == c[j].count
            && c[i].status < c[j].status)
}

/// The occurrences of some values, taken together.
pub open spec fn total_occurrences<A>(keys: Seq<A>, s: Seq<A>) -> nat
    decreases keys.len(),
{
    if keys.len() == 0 {
        0
    } else {
        total_occurrences(keys.drop_last(), s) + occurrences(s, keys.last())
    }
}

/// One more element adds one to the total if its value is counted.
proof fn lemma_total_step<A>(keys: Seq<A>, s: Seq<A>)
    requires
        keys.no_duplicates(),
        s.len() > 0,
    ensures
        total_occurrences(keys, s) == total_occurrences(keys, s.drop_last()) + if keys.contains(s.last()) {
            1nat
        } else {
            0nat
        },
    decreases keys.len(),
{
    if keys.len() > 0 {
        let front = keys.drop_last();
        lemma_total_step(front, s);
        if keys.last() == s.last() {
            assert(keys[keys.len() - 1] == s.last());
            if front.contains(s.last()) {
                let i = choose|i: int| 0 <= i < front.len() && front[i] == s.last();
                assert(keys[i] == s.last());
            }
        } else if keys.contains(s.last()) {
            let i = choose|i: int| 0 <= i < keys.len() && keys[i] == s.last();
            assert(front[i] == s.last());
        } else if front.contains(s.last()) {
            let i = choose|i: int| 0 <= i < front.len() && front[i] == s.last();
            assert(keys[i] == s.last());
        }
    }
}

/// Where every value is counted once, the counts add up to the whole.
proof fn lemma_total<A>(keys: Seq<A>, s: Seq<A>)
    requires
        keys.no_duplicates(),
        forall|x: A| s.contains(x) ==> keys.contains(x),
    ensures
        total_occurrences(keys, s) == s.len(),
    decreases s.len(), keys.len(),
{
    if s.len() > 0 {
        let t = s.drop_last();
        assert forall|x: A| t.contains(x) implies keys.contains(x) by {
            let i = choose|i: int| 0 <= i < t.len() && t[i] == x;
            assert(s[i] == x);
        }
        lemma_total(keys, t);
        assert(s[s.len() - 1] == s.last());
        lemma_total_step(keys, s);
    } else if keys.len() > 0 {
        lemma_total(keys.drop_last(), s);
    }
}

/// The sum of a distribution of failures.
pub open spec fn sum_of_counts(c: Seq<FailureCount>) -> nat
    decreases c.len(),
{
    if c.len() == 0 {
        0
    } else {
        sum_of_counts(c.drop_last()) + c.last().count as nat
    }
}

/// The sum of a distribution is the total of what it counts.
proof fn lemma_sum_is_total(c: Seq<FailureCount>, kinds: Seq<FailureKind>)
    requires
        forall|i: int| 0 <= i < c.len() ==> (#[trigger] c[i]).count == occurrences(kinds, c[i].kind),
    ensures
        sum_of_counts(c) == total_occurrences(c.map_values(|f: FailureCount| f.kind), kinds),
    decreases c.len(),
{
    if c.len() > 0 {
        lemma_sum_is_total(c.drop_last(), kinds);
        let keys = c.map_values(|f: FailureCount| f.kind);
        assert(keys.drop_last() =~= c.drop_last().map_values(|f: FailureCount| f.kind));
        assert(c[c.len() - 1] == c.last());
    }
}

/// The counts of a distribution of failures add up to the number of failures:
/// none is lost and none is counted twice.
pub proof fn lemma_failure_counts_add_up(c: Seq<FailureCount>, kinds: Seq<FailureKind>)
    requires
        counts_failures(c, kinds),
    ensures
        sum_of_counts(c) == kinds.len(),
{
    let keys = c.map_values(|f: FailureCount| f.kind);
    lemma_sum_is_total(c, kinds);
    assert forall|k: FailureKind| kinds.contains(k) implies keys.contains(k) by {
        let i = choose|i: int| 0 <= i < c.len() && (#[trigger] c[i]).kind == k;
        assert(keys[i] == k);
    }
    assert forall|i: int, j: int| 0 <= i < keys.len() && 0 <= j < keys.len() && i != j implies keys[i] != keys[j] by {
        if i < j {
            assert(c[i].kind != c[j].kind);
        } else {
            assert(c[j].kind != c[i].kind);
        }
    }
    lemma_total(keys, kinds);
}

/// The positions of modes.
spec fn ranks(kinds: Seq<FailureKind>) -> Seq<u64> {
    kinds.map_values(|k: FailureKind| k.rank() as u64)
}

/// A mode occurs as often as its position.
proof fn lemma_ranks(kinds: Seq<FailureKind>, k: FailureKind)
    ensures
        occurrences(ranks(kinds), k.rank() as u64) == occurrences(kinds, k),
    decreases kinds.len(),
{
    if kinds.len() > 0 {
        lemma_ranks(kinds.drop_last(), k);
        assert(ranks(kinds).drop_last() =~= ranks(kinds.drop_last()));
    }
}

/// The distribution that tallies of positions stand for.
fn failure_counts_of(t: &[Tally], Ghost(kinds): Ghost<Seq<FailureKind>>) -> (out: Vec<FailureCount>)
    requires
        tallies(t@, ranks(kinds)),
    ensures
        counts_failures(out@, kinds),
        in_order(t@) ==> failures_in_order(out@),
{
    let mut out: Vec<FailureCount> = Vec::new();
    for i in 0..t.len()
        invariant
            tallies(t@, ranks(kinds)),
            out@.len() == i,
            forall|j: int| 0 <= j < i ==> (#[trigger] out@[j]).count == t@[j].count && out@[j].kind.rank() == t@[j].key,
    {
        proof {
            lemma_occurrences(ranks(kinds), t@[i as int].key);
            let a = choose|a: int| 0 <= a < ranks(kinds).len() && ranks(kinds)[a] == t@[i as int].key;
            assert(kinds[a].rank() <= 12);
        }
        out.push(FailureCount { kind: FailureKind::at(t[i].key), count: t[i].count });
    }
    proof {
        assert forall|i: int| 0 <= i < out@.len() implies (#[trigger] out@[i]).count == occurrences(kinds, out@[i].kind)
            && out@[i].count > 0 by {
            lemma_ranks(kinds, out@[i].kind);
            assert(t@[i].count > 0);
        }
        assert forall|i: int, j: int| 0 <= i < j < out@.len() implies (#[trigger] out@[i]).kind != (#[trigger] out@[
            j]).kind by {
            assert(t@[i].key != t@[j].key);
        }
        assert forall|k: FailureKind| kinds.contains(k) implies exists|i: int| 0 <= i < out@.len() && (#[trigger] out@[
            i]).kind == k by {
            let a = choose|a: int| 0 <= a < kinds.len() && kinds[a] == k;
            assert(ranks(kinds)[a] == k.rank() as u64);
            assert(ranks(kinds).contains(k.rank() as u64));
            let i = choose|i: int| 0 <= i < t@.len() && (#[trigger] t@[i]).key == k.rank() as u64;
            assert(out@[i].kind.rank() == k.rank());
            assert(out@[i].kind == k);
        }
        if in_order(t@) {
            assert forall|i: int, j: int| 0 <= i < j < out@.len() implies (#[trigger] out@[i]).count > (#[trigger] out@[
                j]).count || (out@[i].count == out@[j].count && out@[i].kind.rank() < out@[j].kind.rank()) by {
                assert(ahead(t@[i], t@[j]));
            }
        }
    }
    out
}

/// The positions of modes.
fn positions(kinds: &[FailureKind]) -> (out: Vec<u64>)
    ensures
        out@ == ranks(kinds@),
{
    let mut out: Vec<u64> = Vec::new();
    for i in 0..kinds.len()
        invariant
            out@ == ranks(kinds@.take(i as int)),
    {
        out.push(kinds[i].position());
        assert(ranks(kinds@.take(i as int + 1)) =~= ranks(kinds@.take(i as int)).push(
            kinds@[i as int].rank() as u64,
        ));
    }
    assert(kinds@.take(kinds@.len() as int) =~= kinds@);
    out
}

/// The distribution of failure modes, in no particular order.
pub fn count_failures(kinds: &[FailureKind]) -> (out: Vec<FailureCount>)
    ensures
        counts_failures(out@, kinds@),
{
    let keys = positions(kinds);
    let t = tally(keys.as_slice());
    failure_counts_of(t.as_slice(), Ghost(kinds@))
}

/// The distribution of failure modes, most frequent first.
pub fn ranked_failures(kinds: &[FailureKind]) -> (out: Vec<FailureCount>)
    ensures
        counts_failures(out@, kinds@),
        failures_in_order(out@),
{
    let keys = positions(kinds);
    let t = tally(keys.as_slice());
    let t = ordered(t.as_slice(), Ghost(keys@));
    failure_counts_of(t.as_slice(), Ghost(kinds@))
}

/// Statuses as keys.
spec fn wide(statuses: Seq<u16>) -> Seq<u64> {
    statuses.map_values(|s: u16| s as u64)
}

/// A status occurs as often as its key.
proof fn lemma_wide(statuses: Seq<u16>, s: u16)
    ensures
        occurrences(wide(statuses), s as u64) == occurrences(statuses, s),
    decreases statuses.len(),
{
    if statuses.len() > 0 {
        lemma_wide(statuses.drop_last(), s);
        assert(wide(statuses).drop_last() =~= wide(statuses.drop_last()));
    }
}

/// The distribution of statuses, most frequent first.
pub fn ranked_statuses(statuses: &[u16]) -> (out: Vec<StatusCount>)
    ensures
        counts_statuses(out@, statuses@),
        statuses_in_order(out@),
{
    let mut keys: Vec<u64> = Vec::new();
    for i in 0..statuses.len()
        invariant
            keys@ == wide(statuses@.take(i as int)),
    {
        keys.push(statuses[i] as u64);
        assert(wide(statuses@.take(i as int + 1)) =~= wide(statuses@.take(i as int)).push(statuses@[i as int] as u64));
    }
    assert(statuses@.take(statuses@.len() as int) =~= statuses@);
    let t = tally(keys.as_slice());
    let t = ordered(t.as_slice(), Ghost(keys@));
    let mut out: Vec<StatusCount> = Vec::new();
    for i in 0..t.len()
        invariant
            tallies(t@, wide(statuses@)),
            out@.len() == i,
            forall|j: int| 0 <= j < i ==> (#[trigger] out@[j]).count == t@[j].count && out@[j].status == t@[j].key,
    {
        proof {
            lemma_occurrences(wide(statuses@), t@[i as int].key);
            let a = choose|a: int| 0 <= a < wide(statuses@).len() && wide(statuses@)[a] == t@[i as int].key;
            assert(statuses@[a] <= 0xFFFF);
        }
        out.push(StatusCount { status: t[i].key as u16, count: t[i].count });
    }
    proof {
        assert forall|i: int| 0 <= i < out@.len() implies (#[trigger] out@[i]).count == occurrences(
            statuses@,
            out@[i].status,
        ) && out@[i].count > 0 by {
            lemma_wide(statuses@, out@[i].status);
            assert(t@[i].count > 0);
        }
        assert forall|i: int, j: int| 0 <= i < j < out@.len() implies (#[trigger] out@[i]).status != (#[trigger] out@[
            j]).status by {
            assert(t@[i].key != t@[j].key);
        }
        assert forall|k: u16| statuses@.contains(k) implies exists|i: int| 0 <= i < out@.len() && (#[trigger] out@[
            i]).status == k by {
            let a = choose|a: int| 0 <= a < statuses@.len() && statuses@[a] == k;
            assert(wide(statuses@)[a] == k as u64);
            assert(wide(statuses@).contains(k as u64));
            let i = choose|i: int| 0 <= i < t@.len() && (#[trigger] t@[i]).key == k as u64;
            assert(out@[i].status == k);
        }
        assert forall|i: int, j: int| 0 <= i < j < out@.len() implies (#[trigger] out@[i]).count > (#[trigger] out@[
            j]).count || (out@[i].count == out@[j].count && out@[i].status < out@[j].status) by {
            assert(ahead(t@[i], t@[j]));
        }
    }
    out
}

// --- attempts -----------------------------------------------------------------------

/// The outcome of one attempt: success flag, latency millis (on success), the
/// classified failure kind (on failure), the observed HTTP status, and the
/// time-to-first-byte (for HTTP repeats).
pub type AttemptOutcome = (bool, Option<u64>, Option<FailureKind>, Option<u16>, Option<u64>);

/// What an HTTP observation counts as.
pub open spec fn http_attempt(obs: HttpObservation) -> AttemptOutcome {
    match obs.failure {
        None => if obs.body_bytes is None {
            (false, None, Some(FailureKind::Timeout), obs.status, obs.ttfb_ms)
        } else {
            (true, obs.latency_ms, None, obs.status, obs.ttfb_ms)
        },
        Some(f) => (false, None, Some(f.kind), None, None),
    }
}

/// What a connect or handshake counts as in a repeated probe.
pub open spec fn transport_attempt(success: bool, latency_ms: Option<u64>, failure: Option<ProbeError>) -> AttemptOutcome {
    if success {
        (true, latency_ms, None, None, None)
    } else {
        (
            false,
            None,
            match failure {
                Some(f) => Some(f.kind),
                None => None,
            },
            None,
            None,
        )
    }
}

/// Map a connect observation onto the shared aggregation tuple.
pub fn tcp_outcome(obs: &TcpObservation) -> (r: AttemptOutcome)
    ensures
        r == transport_attempt(obs.success, obs.latency_ms, obs.failure),
        r.0 == obs.success,
        obs.success ==> r.1 == obs.latency_ms && r.2 is None,
        !obs.success ==> r.1 is None && (r.2 is Some) == (obs.failure is Some),
        !obs.success && obs.failure is Some ==> r.2->0 == obs.failure->0.kind,
        r.3 is None && r.4 is None,
{
    if obs.success {
        (true, obs.latency_ms, None, None, None)
    } else {
        let kind = match &obs.failure {
            Some(f) => Some(f.kind),
            None => None,
        };
        (false, None, kind, None, None)
    }
}

/// Map a handshake observation onto the shared aggregation tuple.
pub fn tls_outcome(obs: &TlsObservation) -> (r: AttemptOutcome)
    ensures
        r == transport_attempt(obs.success, obs.latency_ms, obs.failure),
        r.0 == obs.success,
        obs.success ==> r.1 == obs.latency_ms && r.2 is None,
        !obs.success ==> r.1 is None && (r.2 is Some) == (obs.failure is Some),
        !obs.success && obs.failure is Some ==> r.2->0 == obs.failure->0.kind,
        r.3 is None && r.4 is None,
{
    if obs.success {
        (true, obs.latency_ms, None, None, None)
    } else {
        let kind = match &obs.failure {
            Some(f) => Some(f.kind),
            None => None,
        };
        (false, None, kind, None, None)
    }
}

/// Map a single HTTP probe observation onto the shared aggregation tuple: an
/// error status (e.g. 5xx) is still a completed probe, so only a
/// transport/protocol failure counts as failed.
///
/// A response whose body never completes is not a clean success: it is
/// bucketed as a `Timeout` failure while its status and TTFB are still
/// recorded, since the server did answer.
pub fn http_outcome(obs: HttpObservation) -> (r: AttemptOutcome)
    ensures
        r == http_attempt(obs),
        r.0 == (obs.failure is None && obs.body_bytes is Some),
        r.0 ==> r.1 == obs.latency_ms && r.2 is None,
        obs.failure is Some ==> r.1 is None && r.2 == Some(obs.failure->0.kind) && r.3 is None && r.4 is None,
        obs.failure is None ==> r.3 == obs.status && r.4 == obs.ttfb_ms,
        obs.failure is None && obs.body_bytes is None ==> r.1 is None && r.2 == Some(FailureKind::Timeout),
{
    match obs.failure {
        None => if obs.body_bytes.is_none() {
            (false, None, Some(FailureKind::Timeout), obs.status, obs.ttfb_ms)
        } else {
            (true, obs.latency_ms, None, obs.status, obs.ttfb_ms)
        },
        Some(f) => (false, None, Some(f.kind), None, None),
    }
}

/// The latencies of the successful attempts (`0` where none was measured).
pub open spec fn latencies(o: Seq<AttemptOutcome>) -> Seq<u64>
    decreases o.len(),
{
    if o.len() == 0 {
        Seq::empty()
    } else if o.last().0 {
        latencies(o.drop_last()).push(
            match o.last().1 {
                Some(ms) => ms,
                None => 0,
            },
        )
    } else {
        latencies(o.drop_last())
    }
}

/// The classified modes of the failed attempts.
pub open spec fn failed_kinds(o: Seq<AttemptOutcome>) -> Seq<FailureKind>
    decreases o.len(),
{
    if o.len() == 0 {
        Seq::empty()
    } else {
        match (o.last().0, o.last().2) {
            (false, Some(kind)) => failed_kinds(o.drop_last()).push(kind),
            _ => failed_kinds(o.drop_last()),
        }
    }
}

/// The statuses of the attempts that got one.
pub open spec fn seen_statuses(o: Seq<AttemptOutcome>) -> Seq<u16>
    decreases o.len(),
{
    if o.len() == 0 {
        Seq::empty()
    } else {
        match o.last().3 {
            Some(status) => seen_statuses(o.drop_last()).push(status),
            None => seen_statuses(o.drop_last()),
        }
    }
}

/// The times to first byte of the attempts that reached the headers.
pub open spec fn first_bytes(o: Seq<AttemptOutcome>) -> Seq<u64>
    decreases o.len(),
{
    if o.len() == 0 {
        Seq::empty()
    } else {
        match o.last().4 {
            Some(ms) => first_bytes(o.drop_last()).push(ms),
            None => first_bytes(o.drop_last()),
        }
    }
}

/// Successes and classified failures never outnumber the attempts.
pub proof fn lemma_attempts_add_up(o: Seq<AttemptOutcome>)
    ensures
        latencies(o).len() + failed_kinds(o).len() <= o.len(),
    decreases o.len(),
{
    if o.len() > 0 {
        lemma_attempts_add_up(o.drop_last());
    }
}

/// What an aggregate draws on is picked from the outcomes in their order: the
/// latencies are those of the attempts that succeeded, the modes those of the
/// attempts that failed and were classified, and every status and every time
/// to first byte that was seen counts.
pub proof fn lemma_samples_are_the_measured_ones(o: Seq<AttemptOutcome>)
    ensures
        latencies(o) == o.filter(|x: AttemptOutcome| x.0).map_values(
            |x: AttemptOutcome| if x.1 is Some { x.1->0 } else { 0u64 },
        ),
        failed_kinds(o) == o.filter(|x: AttemptOutcome| !x.0 && x.2 is Some).map_values(|x: AttemptOutcome| x.2->0),
        seen_statuses(o) == o.filter(|x: AttemptOutcome| x.3 is Some).map_values(|x: AttemptOutcome| x.3->0),
        first_bytes(o) == o.filter(|x: AttemptOutcome| x.4 is Some).map_values(|x: AttemptOutcome| x.4->0),
    decreases o.len(),
{
    reveal(Seq::filter);
    if o.len() > 0 {
        lemma_samples_are_the_measured_ones(o.drop_last());
    }
    assert(latencies(o) =~= o.filter(|x: AttemptOutcome| x.0).map_values(
        |x: AttemptOutcome| if x.1 is Some { x.1->0 } else { 0u64 },
    ));
    assert(failed_kinds(o) =~= o.filter(|x: AttemptOutcome| !x.0 && x.2 is Some).map_values(
        |x: AttemptOutcome| x.2->0,
    ));
    assert(seen_statuses(o) =~= o.filter(|x: AttemptOutcome| x.3 is Some).map_values(|x: AttemptOutcome| x.3->0));
    assert(first_bytes(o) =~= o.filter(|x: AttemptOutcome| x.4 is Some).map_values(|x: AttemptOutcome| x.4->0));
}

/// Connects that all succeeded, each with a measured latency, are aggregated to
/// exactly those latencies in their order, and nothing else is counted.
pub proof fn lemma_successful_connects_keep_their_latencies(s: Seq<TcpObservation>, o: Seq<AttemptOutcome>)
    requires
        o.len() == s.len(),
        forall|i: int|
            0 <= i < s.len() ==> (#[trigger] o[i]) == transport_attempt(s[i].success, s[i].latency_ms, s[i].failure),
        forall|i: int| 0 <= i < s.len() ==> (#[trigger] s[i]).success && s[i].latency_ms is Some,
    ensures
        latencies(o).len() == s.len(),
        forall|i: int| 0 <= i < s.len() ==> #[trigger] latencies(o)[i] == s[i].latency_ms->0,
        failed_kinds(o).len() == 0,
        seen_statuses(o).len() == 0,
        first_bytes(o).len() == 0,
    decreases s.len(),
{
    if s.len() > 0 {
        let last = s.len() - 1;
        assert(o[last] == transport_attempt(s[last].success, s[last].latency_ms, s[last].failure));
        assert(s[last].success);
        assert forall|i: int| 0 <= i < s.drop_last().len() implies (#[trigger] o.drop_last()[i]) == transport_attempt(
            s.drop_last()[i].success,
            s.drop_last()[i].latency_ms,
            s.drop_last()[i].failure,
        ) by {
            assert(o[i] == transport_attempt(s[i].success, s[i].latency_ms, s[i].failure));
        }
        lemma_successful_connects_keep_their_latencies(s.drop_last(), o.drop_last());
    }
}

/// Connects that all failed with a classified failure are aggregated to exactly
/// the modes of those failures in their order, without any latency.
pub proof fn lemma_failed_connects_keep_their_modes(s: Seq<TcpObservation>, o: Seq<AttemptOutcome>)
    requires
        o.len() == s.len(),
        forall|i: int|
            0 <= i < s.len() ==> (#[trigger] o[i]) == transport_attempt(s[i].success, s[i].latency_ms, s[i].failure),
        forall|i: int| 0 <= i < s.len() ==> !(#[trigger] s[i]).success && s[i].failure is Some,
    ensures
        failed_kinds(o).len() == s.len(),
        forall|i: int| 0 <= i < s.len() ==> #[trigger] failed_kinds(o)[i] == s[i].failure->0.kind,
        latencies(o).len() == 0,
    decreases s.len(),
{
    if s.len() > 0 {
        let last = s.len() - 1;
        assert(o[last] == transport_attempt(s[last].success, s[last].latency_ms, s[last].failure));
        assert(!s[last].success);
        assert forall|i: int| 0 <= i < s.drop_last().len() implies (#[trigger] o.drop_last()[i]) == transport_attempt(
            s.drop_last()[i].success,
            s.drop_last()[i].latency_ms,
            s.drop_last()[i].failure,
        ) by {
            assert(o[i] == transport_attempt(s[i].success, s[i].latency_ms, s[i].failure));
        }
        lemma_failed_connects_keep_their_modes(s.drop_last(), o.drop_last());
    }
}

/// A completed connect or handshake keeps its measured latency and has no
/// failure; a failed one keeps the mode of its failure and has no latency.
/// Neither has a status or a time to first byte.
pub proof fn lemma_transport_outcome_keeps_what_was_seen(
    success: bool,
    latency_ms: Option<u64>,
    failure: Option<ProbeError>,
)
    ensures
        ({
            let o = transport_attempt(success, latency_ms, failure);
            &&& o.0 == success
            &&& success ==> o.1 == latency_ms && o.2 is None
            &&& !success ==> o.1 is None && (o.2 is Some <==> failure is Some)
            &&& !success && failure is Some ==> o.2->0 == failure->0.kind
            &&& o.3 is None && o.4 is None
        }),
{
}

/// An HTTP exchange counts as a success exactly when no transport or protocol
/// failure occurred and its body completed, whatever its status. The status and
/// the time to first byte of an exchange that reached its headers are kept even
/// where the body never completed, which counts as a timeout.
pub proof fn lemma_http_outcome_keeps_what_was_seen(obs: HttpObservation)
    ensures
        ({
            let o = http_attempt(obs);
            &&& o.0 <==> obs.failure is None && obs.body_bytes is Some
            &&& o.0 ==> o.1 == obs.latency_ms && o.2 is None
            &&& !o.0 ==> o.1 is None && o.2 is Some
            &&& obs.failure is Some ==> o.2->0 == obs.failure->0.kind && o.3 is None && o.4 is None
            &&& obs.failure is None ==> o.3 == obs.status && o.4 == obs.ttfb_ms
            &&& obs.failure is None && obs.body_bytes is None ==> o.2->0 == FailureKind::Timeout
        }),
{
}

/// Something occurs as often as a multiset of the elements holds it.
proof fn lemma_occurrences_are_matches<A>(s: Seq<A>, x: A)
    ensures
        occurrences(s, x) == s.to_multiset().count(x),
    decreases s.len(),
{
    broadcast use vstd::seq_lib::group_to_multiset_ensures;

    if s.len() > 0 {
        lemma_occurrences_are_matches(s.drop_last(), x);
        assert(s =~= s.drop_last().push(s.last()));
        assert(s.drop_last().push(s.last()).to_multiset() =~= s.drop_last().to_multiset().insert(s.last()));
    } else {
        assert(s =~= Seq::empty());
    }
}

/// A distribution of failures lists every mode that occurred and no other, each
/// with the number of failures of that mode; the more frequent one comes first,
/// then the one that stands first among the modes.
pub proof fn lemma_failure_distribution(c: Seq<FailureCount>, kinds: Seq<FailureKind>)
    requires
        counts_failures(c, kinds),
        failures_in_order(c),
    ensures
        forall|i: int|
            0 <= i < c.len() ==> (#[trigger] c[i]).count == kinds.to_multiset().count(c[i].kind)
                && c[i].count > 0,
        forall|k: FailureKind| kinds.contains(k) <==> exists|i: int| 0 <= i < c.len() && (#[trigger] c[i]).kind == k,
        forall|i: int, j: int| 0 <= i < j < c.len() ==> (#[trigger] c[i]).count >= (#[trigger] c[j]).count,
        forall|i: int, j: int| 0 <= i < j < c.len() ==> (#[trigger] c[i]).kind != (#[trigger] c[j]).kind,
        forall|i: int, j: int|
            0 <= i < j < c.len() && (#[trigger] c[i]).count == (#[trigger] c[j]).count ==> c[i].kind.rank()
                < c[j].kind.rank(),
{
    assert forall|i: int| 0 <= i < c.len() implies (#[trigger] c[i]).count == kinds.to_multiset().count(
        c[i].kind,
    ) && c[i].count > 0 by {
        lemma_occurrences_are_matches(kinds, c[i].kind);
    }
    assert forall|k: FailureKind| kinds.contains(k) <==> exists|i: int| 0 <= i < c.len() && (#[trigger] c[i]).kind
        == k by {
        if exists|i: int| 0 <= i < c.len() && (#[trigger] c[i]).kind == k {
            let i = choose|i: int| 0 <= i < c.len() && (#[trigger] c[i]).kind == k;
            assert(c[i].count > 0);
            lemma_occurrences(kinds, k);
        }
    }
}

/// A distribution of statuses lists every status that occurred and no other,
/// each with the number of responses that had it; the more frequent one comes
/// first, then the smaller one.
pub proof fn lemma_status_distribution(c: Seq<StatusCount>, statuses: Seq<u16>)
    requires
        counts_statuses(c, statuses),
        statuses_in_order(c),
    ensures
        forall|i: int|
            0 <= i < c.len() ==> (#[trigger] c[i]).count == statuses.to_multiset().count(c[i].status)
                && c[i].count > 0,
        forall|s: u16| statuses.contains(s) <==> exists|i: int| 0 <= i < c.len() && (#[trigger] c[i]).status == s,
        forall|i: int, j: int|
            0 <= i < j < c.len() ==> (#[trigger] c[i]).count >= (#[trigger] c[j]).count && (c[i].count == c[j].count
                ==> c[i].status < c[j].status),
{
    assert forall|i: int| 0 <= i < c.len() implies (#[trigger] c[i]).count == statuses.to_multiset().count(
        c[i].status,
    ) && c[i].count > 0 by {
        lemma_occurrences_are_matches(statuses, c[i].status);
    }
    assert forall|s: u16| statuses.contains(s) <==> exists|i: int| 0 <= i < c.len() && (#[trigger] c[i]).status
        == s by {
        if exists|i: int| 0 <= i < c.len() && (#[trigger] c[i]).status == s {
            let i = choose|i: int| 0 <= i < c.len() && (#[trigger] c[i]).status == s;
            assert(c[i].count > 0);
            lemma_occurrences(statuses, s);
        }
    }
}

/// When every failed attempt is classified, successes and failures together are
/// all attempts.
pub proof fn lemma_every_attempt_counts_once(o: Seq<AttemptOutcome>)
    requires
        forall|i: int| 0 <= i < o.len() && !(#[trigger] o[i]).0 ==> o[i].2 is Some,
    ensures
        latencies(o).len() + failed_kinds(o).len() == o.len(),
    decreases o.len(),
{
    if o.len() > 0 {
        assert forall|i: int| 0 <= i < o.drop_last().len() && !(#[trigger] o.drop_last()[i]).0 implies o.drop_last()[
            i].2 is Some by {
            assert(!o[i].0);
        }
        lemma_every_attempt_counts_once(o.drop_last());
        assert(!o[o.len() - 1].0 ==> o[o.len() - 1].2 is Some);
    }
}

/// Aggregate the outcomes of repeated attempts against one destination:
/// successes feed the latency statistics, failures are counted by mode, and
/// every observed status is counted.
pub fn aggregate_attempts(destination: SocketAddr, outcomes: &[AttemptOutcome]) -> (r: ProbeResult)
    ensures
        r.destination == destination,
        r.attempts == outcomes@.len(),
        r.successes == latencies(outcomes@).len(),
        r.failures == failed_kinds(outcomes@).len(),
        r.success_rate == Rate::of(latencies(outcomes@).len(), outcomes@.len()),
        r.success_rate.wf(),
        summarizes(r.latency, latencies(outcomes@)),
        summarizes(r.ttfb, first_bytes(outcomes@)),
        counts_failures(r.failure_counts@, failed_kinds(outcomes@)),
        failures_in_order(r.failure_counts@),
        counts_statuses(r.status_counts@, seen_statuses(outcomes@)),
        statuses_in_order(r.status_counts@),
{
    let mut latency = LatencyStats::default();
    let mut ttfb = LatencyStats::default();
    let mut kinds: Vec<FailureKind> = Vec::new();
    let mut statuses: Vec<u16> = Vec::new();
    for i in 0..outcomes.len()
        invariant
            latency@ == latencies(outcomes@.take(i as int)),
            ttfb@ == first_bytes(outcomes@.take(i as int)),
            kinds@ == failed_kinds(outcomes@.take(i as int)),
            statuses@ == seen_statuses(outcomes@.take(i as int)),
    {
        assert(outcomes@.take(i as int + 1).drop_last() =~= outcomes@.take(i as int));
        let (ok, latency_ms, kind, status, ttfb_ms) = outcomes[i];
        match status {
            Some(status) => statuses.push(status),
            None => {},
        }
        match ttfb_ms {
            Some(ms) => ttfb.push(ms),
            None => {},
        }
        if ok {
            latency.push(
                match latency_ms {
                    Some(ms) => ms,
                    None => 0,
                },
            );
        } else {
            match kind {
                Some(kind) => kinds.push(kind),
                None => {},
            }
        }
    }
    assert(outcomes@.take(outcomes@.len() as int) =~= outcomes@);
    let successes = latency.count();
    ProbeResult {
        destination,
        attempts: outcomes.len(),
        successes,
        failures: kinds.len(),
        success_rate: Rate::from_counts(successes, outcomes.len()),
        latency: latency.summarize(),
        ttfb: ttfb.summarize(),
        failure_counts: ranked_failures(kinds.as_slice()),
        status_counts: ranked_statuses(statuses.as_slice()),
    }
}

} // verus!
